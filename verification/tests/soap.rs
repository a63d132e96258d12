use xscreen::device::{Device, Service};
use xscreen::soap::{
    call, content_type, fault_message, read_position, read_reply, soap_envelope, unread_message,
    unsent_message, DlnaClient, SoapError,
};
use xscreen::weburl::WebUrl;
use xscreen::xml::{escape_xml, xml_text};

fn device(volume: bool) -> Device {
    Device {
        friendly_name: "TV".to_owned(),
        manufacturer: "Example".to_owned(),
        model_name: "One".to_owned(),
        location: WebUrl::parse("http://10.0.0.2/device.xml").unwrap(),
        av_transport: Service {
            service_type: "urn:av:1".to_owned(),
            control_url: "http://10.0.0.2/av".to_owned(),
        },
        rendering_control: if volume {
            Some(Service {
                service_type: "urn:rc:1".to_owned(),
                control_url: "http://10.0.0.2/rc".to_owned(),
            })
        } else {
            None
        },
    }
}

#[test]
fn escapes_soap_argument_values() {
    let xml = soap_envelope(
        "urn:test&service",
        "SetURI",
        &[("URI", "http://host/video?a=1&b=<two>")],
    );
    assert!(xml.contains("urn:test&amp;service"));
    assert!(xml.contains("a=1&amp;b=&lt;two&gt;"));
}

#[test]
fn extracts_namespaced_xml_text() {
    let xml = r#"<s:Envelope><s:Body><u:GetPositionInfoResponse><TrackDuration>01:02:03</TrackDuration><RelTime>00:03:04</RelTime></u:GetPositionInfoResponse></s:Body></s:Envelope>"#;
    assert_eq!(xml_text(xml, b"RelTime").as_deref(), Some("00:03:04"));
}

#[test]
fn xml_text_of_other_documents() {
    assert_eq!(xml_text("", b"a"), None);
    assert_eq!(xml_text("<b>1</b>", b"a"), None);
    assert_eq!(xml_text("<x:a>1</x:a><a>2</a>", b"a").as_deref(), Some("1"));
    assert_eq!(xml_text("<a>1<b>2</b></a>", b"a").as_deref(), Some("1<b>2</b>"));
    assert_eq!(xml_text("<a>x &amp; y</a>", b"a").as_deref(), Some("x &amp; y"));
    assert_eq!(xml_text("<a/><a>2</a>", b"a").as_deref(), Some("2"));
    assert_eq!(xml_text("<a>1", b"a"), None);
    assert_eq!(xml_text("<b></c><a>1</a>", b"a"), None);
}

#[test]
fn escaping_replaces_five_characters() {
    assert_eq!(escape_xml(r#"a<b>&'c'"d""#), "a&lt;b&gt;&amp;&apos;c&apos;&quot;d&quot;");
    assert_eq!(escape_xml("plain ä\t\n"), "plain ä\t\n");
    assert_eq!(escape_xml("&lt;"), "&amp;lt;");
}

#[test]
fn the_whole_envelope() {
    assert_eq!(
        soap_envelope("urn:x", "Go", &[("A", "1"), ("B", "")]),
        r#"<?xml version="1.0" encoding="utf-8"?><s:Envelope xmlns:s="http://schemas.xmlsoap.org/soap/envelope/" s:encodingStyle="http://schemas.xmlsoap.org/soap/encoding/"><s:Body><u:Go xmlns:u="urn:x"><A>1</A><B></B></u:Go></s:Body></s:Envelope>"#
    );
}

#[test]
fn a_value_does_not_reach_out_of_its_element() {
    let evil = "</A><B>2</B><A>";
    let one = soap_envelope("urn:x", "Go", &[("A", evil), ("B", "1")]);
    let other = soap_envelope("urn:x", "Go", &[("A", ""), ("B", "2")]);
    assert_ne!(one, other);
    assert_eq!(xml_text(&one, b"B").as_deref(), Some("1"));
}

#[test]
fn a_call_names_its_service() {
    let device = device(false);
    let request = call(&device.av_transport, "Go", &[("A", "1")]);
    assert_eq!(request.url, "http://10.0.0.2/av");
    assert_eq!(request.action, "Go");
    assert_eq!(request.soap_action, "\"urn:av:1#Go\"");
    assert_eq!(request.body, soap_envelope("urn:av:1", "Go", &[("A", "1")]));
    assert_eq!(content_type(), "text/xml; charset=\"utf-8\"");
}

#[test]
fn a_client_makes_the_requests() {
    let client = DlnaClient::new(device(true));
    assert_eq!(client.device(), &device(true));
    let body = |action: &str, arguments: &[(&str, &str)]| soap_envelope("urn:av:1", action, arguments);
    assert_eq!(
        client.set_transport_uri("u&", "m").body,
        body(
            "SetAVTransportURI",
            &[("InstanceID", "0"), ("CurrentURI", "u&"), ("CurrentURIMetaData", "m")]
        )
    );
    assert_eq!(client.play(), client.play_at("1"));
    assert_eq!(client.play_at("3/2").body, body("Play", &[("InstanceID", "0"), ("Speed", "3/2")]));
    assert_eq!(client.pause().body, body("Pause", &[("InstanceID", "0")]));
    assert_eq!(client.stop().body, body("Stop", &[("InstanceID", "0")]));
    assert_eq!(
        client.seek("00:01:00").body,
        body("Seek", &[("InstanceID", "0"), ("Unit", "REL_TIME"), ("Target", "00:01:00")])
    );
    assert_eq!(client.position().body, body("GetPositionInfo", &[("InstanceID", "0")]));
    let volume = client.set_volume(35).unwrap();
    assert_eq!(volume.url, "http://10.0.0.2/rc");
    assert_eq!(
        volume.body,
        soap_envelope(
            "urn:rc:1",
            "SetVolume",
            &[("InstanceID", "0"), ("Channel", "Master"), ("DesiredVolume", "35")]
        )
    );
    assert_eq!(client.set_volume(255), client.set_volume(100));
    let deaf = DlnaClient::new(device(false));
    assert_eq!(deaf.set_volume(1), Err(SoapError::NoRenderingControl));
    assert_eq!(
        SoapError::NoRenderingControl.message(),
        "this device has no RenderingControl service"
    );
}

#[test]
fn replies_are_granted_or_refused() {
    let fault = "<e><errorCode>701</errorCode><errorDescription>no</errorDescription></e>";
    assert_eq!(read_reply("Play", 200, "200 OK", "x".to_owned()), Ok("x".to_owned()));
    assert_eq!(read_reply("Play", 299, "299", String::new()), Ok(String::new()));
    assert_eq!(
        read_reply("Play", 500, "500 Internal Server Error", fault.to_owned()),
        Err("DLNA Play failed: 701 no".to_owned())
    );
    assert_eq!(
        read_reply("Play", 404, "404 Not Found", "gone".to_owned()),
        Err("DLNA Play failed: 404 Not Found unknown UPnP error".to_owned())
    );
    assert_eq!(
        fault_message("Stop", None, "199", Some("d".to_owned())),
        "DLNA Stop failed: 199 d"
    );
    assert_eq!(unsent_message("Seek"), "DLNA Seek request failed");
    assert_eq!(unread_message("Seek"), "failed to read the DLNA Seek response");
}

#[test]
fn positions_are_read() {
    let info = read_position("<r><TrackDuration>1:00:00</TrackDuration></r>");
    assert_eq!(info.duration.as_deref(), Some("1:00:00"));
    assert_eq!(info.position, None);
}
