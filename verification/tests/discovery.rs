use xscreen::discovery::{
    parse_ssdp_response, read_ssdp_headers, response_from, search_request, search_requests,
    ssdp_address, ResponseSet, SsdpHeaders,
};
use xscreen::weburl::WebUrl;

#[test]
fn parses_case_insensitive_ssdp_headers() {
    let packet = b"HTTP/1.1 200 OK\r\nLOCATION: http://192.168.1.9:1400/xml/device.xml\r\nUsn: uuid:abc::urn:test\r\nSERVER: test/1.0\r\n\r\n";
    let response = parse_ssdp_response(packet).unwrap();
    assert_eq!(response.location.host_str(), Some("192.168.1.9"));
    assert_eq!(response.usn.as_deref(), Some("uuid:abc::urn:test"));
    assert_eq!(response.server.as_deref(), Some("test/1.0"));
}

#[test]
fn rejects_notifications() {
    assert!(parse_ssdp_response(b"NOTIFY * HTTP/1.1\r\nLOCATION: http://tv/\r\n").is_none());
}

#[test]
fn replies_without_a_usable_location_are_rejected() {
    assert!(parse_ssdp_response(b"").is_none());
    assert!(parse_ssdp_response(b"HTTP/1.1 404 Not Found\r\nLOCATION: http://tv/\r\n").is_none());
    assert!(parse_ssdp_response(b"HTTP/1.1 200 OK\r\nST: x\r\n").is_none());
    assert!(parse_ssdp_response(b"HTTP/1.1 200 OK\r\nLOCATION: tv\r\n").is_none());
    assert!(parse_ssdp_response(b"HTTP/1.0 200\nlocation:http://tv/").is_some());
}

#[test]
fn the_last_header_of_a_name_counts() {
    let text = "HTTP/1.1 200 OK\r\nno header\r\nLocation : http://a/ \r\nlocation:\thttp://b/\r\n";
    let headers = read_ssdp_headers(text).unwrap();
    assert_eq!(headers.location, "http://b/");
    assert_eq!(headers.usn, None);
    assert_eq!(headers.server, None);
}

#[test]
fn bytes_that_are_no_utf8_are_replaced() {
    let packet = b"HTTP/1.1 200 OK\r\nLOCATION: http://tv/\r\nSERVER: \xff\r\n";
    let response = parse_ssdp_response(packet).unwrap();
    assert_eq!(response.server.as_deref(), Some("\u{fffd}"));
}

#[test]
fn responses_are_made_from_headers_and_a_location() {
    let headers = |usn: &str| SsdpHeaders {
        location: "http://tv/".to_owned(),
        usn: Some(usn.to_owned()),
        server: None,
    };
    let response = response_from(headers("a"), WebUrl::parse("http://tv/")).unwrap();
    assert_eq!(response.usn.as_deref(), Some("a"));
    assert!(response_from(headers("b"), Err("no".to_owned())).is_none());
}

#[test]
fn searches_twice_for_each_target() {
    assert_eq!(ssdp_address(), "239.255.255.250:1900");
    assert_eq!(
        search_request("x"),
        "M-SEARCH * HTTP/1.1\r\nHOST: 239.255.255.250:1900\r\nMAN: \"ssdp:discover\"\r\nMX: 2\r\nST: x\r\n\r\n"
    );
    let requests = search_requests();
    assert_eq!(requests.len(), 4);
    assert!(requests[0].contains("ST: urn:schemas-upnp-org:device:MediaRenderer:1\r\n"));
    assert!(requests[1].contains("ST: urn:schemas-upnp-org:service:AVTransport:1\r\n"));
    assert_eq!(requests[0], requests[2]);
    assert_eq!(requests[1], requests[3]);
}

#[test]
fn only_the_first_reply_of_a_location_is_kept() {
    let reply = |location: &str, usn: &str| {
        let text = format!("HTTP/1.1 200 OK\r\nLOCATION: {location}\r\nUSN: {usn}\r\n\r\n");
        parse_ssdp_response(text.as_bytes()).unwrap()
    };
    let mut set = ResponseSet::new();
    set.offer(reply("http://a/", "1"));
    set.offer(reply("http://b/", "2"));
    set.offer(reply("http://a/", "3"));
    let kept = set.into_responses();
    let usns: Vec<&str> = kept.iter().map(|r| r.usn.as_deref().unwrap()).collect();
    assert_eq!(usns, vec!["1", "2"]);
}
