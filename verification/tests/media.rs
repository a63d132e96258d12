use xscreen::media::{
    choose_mime, guess_mime, media_address_text, parse_range, MediaError, MediaFile, MediaReply,
    MediaServer, TransferStats,
};

fn file(name: Option<&str>, size: u64) -> MediaFile {
    MediaFile {
        given: "given".to_owned(),
        path: "/home/sample video.mp4".to_owned(),
        name: name.map(str::to_owned),
        is_file: true,
        size,
    }
}

fn header<'a>(reply: &'a MediaReply, name: &str) -> Option<&'a str> {
    reply.headers.iter().find(|h| h.name == name).map(|h| h.value.as_str())
}

fn server(size: u64) -> MediaServer {
    MediaServer::with_token(&file(Some("a"), size), 80, "secret".to_owned(), None).unwrap()
}

#[test]
fn parses_http_byte_ranges() {
    assert_eq!(parse_range("bytes=0-99", 1_000), Some((0, 99)));
    assert_eq!(parse_range("bytes=900-", 1_000), Some((900, 999)));
    assert_eq!(parse_range("bytes=-50", 1_000), Some((950, 999)));
    assert_eq!(parse_range("bytes=900-1200", 1_000), Some((900, 999)));
    assert_eq!(parse_range("bytes=1000-", 1_000), None);
    assert_eq!(parse_range("bytes=20-10", 1_000), None);
    assert_eq!(parse_range("items=0-1", 1_000), None);
    assert_eq!(parse_range("bytes=0-1,4-5", 1_000), None);
}

#[test]
fn byte_ranges_at_the_edges() {
    assert_eq!(parse_range("bytes=0-0", 0), None);
    assert_eq!(parse_range("bytes=-", 10), None);
    assert_eq!(parse_range("bytes=-0", 10), None);
    assert_eq!(parse_range("bytes=-99", 10), Some((0, 9)));
    assert_eq!(parse_range("bytes= 2 - 5 ", 10), Some((2, 5)));
    assert_eq!(parse_range("bytes=5", 10), None);
    assert_eq!(parse_range("bytes=x-5", 10), None);
    assert_eq!(parse_range("bytes=2-y", 10), None);
    assert_eq!(parse_range("bytes=2-5-7", 10), None);
    assert_eq!(parse_range(" bytes=2-5", 10), None);
    assert_eq!(parse_range("bytes=9-18446744073709551615", 10), Some((9, 9)));
    assert_eq!(parse_range("bytes=0-18446744073709551616", 10), None);
}

#[test]
fn serves_full_and_partial_content() {
    let content = b"0123456789";
    let mut server = MediaServer::start(&file(Some("sample video.mp4"), 10), 4321).unwrap();
    let url = server.url_for_device("127.0.0.1").unwrap();
    let parts: Vec<&str> = url.path.split('/').collect();
    assert_eq!(parts[1], "media");
    assert_eq!(parts[3], "sample+video.mp4");
    let token = parts[2];
    let sent = |reply: &MediaReply| {
        let first = reply.first as usize;
        content[first..first + reply.length as usize].to_vec()
    };

    let full = server.answer(token, None);
    assert_eq!(full.status, 200);
    assert_eq!(header(&full, "content-length"), Some("10"));
    assert_eq!(sent(&full), b"0123456789");
    server.count_sent(full.length, 5);

    let partial = server.answer(token, Some("bytes=2-5"));
    assert_eq!(partial.status, 206);
    assert_eq!(header(&partial, "content-range"), Some("bytes 2-5/10"));
    assert_eq!(sent(&partial), b"2345");
    server.count_sent(partial.length, 9);

    let snapshot = server.stats().snapshot(105);
    assert_eq!(snapshot.bytes_sent, 14);
    assert_eq!(snapshot.file_size, 10);
    assert_eq!(snapshot.elapsed, 100);
}

#[test]
fn every_reply_has_the_headers_of_a_renderer() {
    let server = server(10);
    for reply in [
        server.answer("secret", None),
        server.answer("secret", Some("bytes=1-")),
        server.answer("secret", Some("bytes=99-")),
        server.answer("wrong", None),
        server.refuse(500),
    ] {
        assert_eq!(header(&reply, "accept-ranges"), Some("bytes"));
        assert_eq!(header(&reply, "access-control-allow-origin"), Some("*"));
        assert_eq!(header(&reply, "content-type"), Some("application/octet-stream"));
        assert_eq!(header(&reply, "transfermode.dlna.org"), Some("Streaming"));
        assert_eq!(
            header(&reply, "contentfeatures.dlna.org"),
            Some("DLNA.ORG_OP=01;DLNA.ORG_CI=0;DLNA.ORG_FLAGS=01700000000000000000000000000000")
        );
    }
}

#[test]
fn requests_that_get_nothing() {
    let reply = server(10).answer("secre", None);
    assert_eq!((reply.status, reply.first, reply.length), (404, 0, 0));
    assert_eq!(header(&reply, "content-length"), None);
    let reply = server(10).answer("secret", Some("bytes=10-"));
    assert_eq!((reply.status, reply.first, reply.length), (416, 0, 0));
    assert_eq!(header(&reply, "content-range"), Some("bytes */10"));
    let reply = server(0).answer("secret", None);
    assert_eq!((reply.status, reply.first, reply.length), (200, 0, 0));
    assert_eq!(header(&reply, "content-length"), Some("0"));
    assert_eq!(server(0).answer("secret", Some("bytes=0-")).status, 416);
    assert_eq!(server(10).refuse(500).status, 500);
}

#[test]
fn only_regular_files_are_served() {
    let mut directory = file(None, 0);
    directory.is_file = false;
    let error = MediaServer::start(&directory, 1).unwrap_err();
    assert_eq!(error, MediaError::NotAFile("given".to_owned()));
    assert_eq!(error.message(), "media source is not a regular file: given");
}

#[test]
fn media_types_are_guessed() {
    assert_eq!(guess_mime("/a/b.mp4").as_deref(), Some("video/mp4"));
    assert_eq!(guess_mime("x.mp3").as_deref(), Some("audio/mpeg"));
    assert_eq!(guess_mime("x"), None);
    assert_eq!(guess_mime("x.nothing-known"), None);
    assert_eq!(choose_mime(None, "d"), "d");
    assert_eq!(choose_mime(Some("m".to_owned()), "d"), "m");
    assert_eq!(MediaServer::start(&file(None, 1), 1).unwrap().mime(), "video/mp4");
}

#[test]
fn addresses_hold_a_random_token() {
    let token = |server: &MediaServer| {
        let url = server.url_for_device("10.0.0.1").unwrap();
        url.path.split('/').nth(2).unwrap().to_owned()
    };
    let one = token(&MediaServer::start(&file(None, 1), 8899).unwrap());
    let other = token(&MediaServer::start(&file(None, 1), 8899).unwrap());
    assert_ne!(one, other);
    assert_eq!(one.len(), 32);
    assert!(one.chars().all(|c| c.is_ascii_digit() || ('a'..='f').contains(&c)));
    assert_eq!(one.as_bytes()[12], b'4');
    assert!("89ab".contains(one.as_bytes()[16] as char));
}

#[test]
fn addresses_encode_the_file_name() {
    assert_eq!(
        media_address_text("10.0.0.1", 80, "t", "a b/ü&?.mp4"),
        "http://10.0.0.1:80/media/t/a+b%2F%C3%BC%26%3F.mp4"
    );
    assert_eq!(media_address_text("h", 65_535, "t", "*-._~"), "http://h:65535/media/t/*-._%7E");
    let server = MediaServer::with_token(&file(None, 1), 81, "t".to_owned(), None).unwrap();
    assert_eq!(server.url_for_device("10.0.0.1").unwrap().as_str(), "http://10.0.0.1:81/media/t/media");
    assert!(server.url_for_device("no host").is_err());
}

#[test]
fn a_server_shows_every_byte_that_was_counted() {
    let mut server = server(10);
    assert_eq!(server.stats().snapshot(3).bytes_sent, 0);
    server.count_sent(10, 5);
    assert_eq!(server.stats().snapshot(7).bytes_sent, 10);
    server.count_sent(0, 6);
    server.count_sent(10, 8);
    let snapshot = server.stats().snapshot(9);
    assert_eq!((snapshot.bytes_sent, snapshot.file_size, snapshot.elapsed), (20, 10, 4));
}

#[test]
fn counters_start_with_the_first_byte() {
    let mut stats = TransferStats::new(7);
    assert_eq!(stats.snapshot(50).elapsed, 0);
    stats.add_bytes(0, 10);
    assert_eq!(stats.snapshot(50).elapsed, 0);
    stats.add_bytes(3, 20);
    stats.add_bytes(4, 30);
    let snapshot = stats.snapshot(50);
    assert_eq!((snapshot.bytes_sent, snapshot.file_size, snapshot.elapsed), (7, 7, 30));
    stats.add_bytes(u64::MAX, 60);
    assert_eq!(stats.snapshot(70).bytes_sent, 6);
}
