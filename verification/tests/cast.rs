use xscreen::cast::{
    didl_metadata, find_remote, item_from, CastAction, CastError, CastEvent, CastJob, CastStage,
    MediaItem,
};
use xscreen::device::{Device, Service};
use xscreen::soap::{DlnaClient, SoapRequest};
use xscreen::weburl::WebUrl;

fn device() -> Device {
    Device {
        friendly_name: "TV".to_owned(),
        manufacturer: String::new(),
        model_name: String::new(),
        location: WebUrl::parse("http://10.0.0.2/d.xml").unwrap(),
        av_transport: Service {
            service_type: "urn:av:1".to_owned(),
            control_url: "http://10.0.0.2/av".to_owned(),
        },
        rendering_control: None,
    }
}

fn request(action: CastAction) -> SoapRequest {
    match action {
        CastAction::Send(request) => request,
        other => panic!("{other:?}"),
    }
}

fn error(action: CastAction) -> CastError {
    match action {
        CastAction::Fail(error) => error,
        other => panic!("{other:?}"),
    }
}

#[test]
fn metadata_escapes_media_values() {
    let metadata = didl_metadata("https://host/a.m3u8?x=1&y=2", "video/mp4", "A < B");
    assert!(metadata.contains("x=1&amp;y=2"));
    assert!(metadata.contains("A &lt; B"));
}

#[test]
fn metadata_is_validly_escaped() {
    let metadata = didl_metadata("http://host/a?x=1&y=2", "video/mp4", "A < B");
    assert!(metadata.contains("A &lt; B"));
    assert!(metadata.contains("x=1&amp;y=2"));
}

#[test]
fn the_whole_metadata() {
    assert_eq!(
        didl_metadata("u", "video/mp4", "t"),
        r#"<DIDL-Lite xmlns="urn:schemas-upnp-org:metadata-1-0/DIDL-Lite/" xmlns:dc="http://purl.org/dc/elements/1.1/" xmlns:upnp="urn:schemas-upnp-org:metadata-1-0/upnp/"><item id="0" parentID="0" restricted="1"><dc:title>t</dc:title><upnp:class>object.item.videoItem</upnp:class><res protocolInfo="http-get:*:video/mp4:*">u</res></item></DIDL-Lite>"#
    );
    assert!(didl_metadata("u", "audio/mpeg", "t").contains(">object.item.audioItem.musicTrack<"));
    assert!(didl_metadata("u", "image/png", "t").contains(">object.item.imageItem.photo<"));
    assert!(didl_metadata("u", "text/plain", "t").contains(">object.item.videoItem<"));
    assert_ne!(didl_metadata("u", "video/x", "a"), didl_metadata("u", "video/y", "a"));
}

#[test]
fn remote_items() {
    let item = find_remote("https://example.com/x/film%201.mkv?t=1").unwrap();
    assert_eq!(item.url, "https://example.com/x/film%201.mkv?t=1");
    assert_eq!(item.mime, "video/x-matroska");
    assert_eq!(item.name.as_deref(), Some("film%201.mkv"));
    let item = find_remote("http://example.com").unwrap();
    assert_eq!(item.url, "http://example.com/");
    assert_eq!(item.mime, "video/mp4");
    assert_eq!(item.name, None);
    assert_eq!(
        find_remote("nowhere.mp4"),
        Err(CastError::NotFound("relative URL without a base".to_owned()))
    );
    assert_eq!(find_remote("ftp://h/a.mp4"), Err(CastError::UnsupportedScheme));
    let url = WebUrl::parse("http://h/a").unwrap();
    assert_eq!(item_from(url, Some("audio/x".to_owned())).unwrap().mime, "audio/x");
}

#[test]
fn a_url_is_loaded_and_played() {
    let client = DlnaClient::new(device());
    let mut job = CastJob::new(device(), "http://h/a.mp3".to_owned(), true);
    assert_eq!(job.stage(), CastStage::Probing);
    assert_eq!(job.source(), "http://h/a.mp3");
    assert!(job.accepts(&CastEvent::Probed(false)));
    assert!(!job.accepts(&CastEvent::Replied(Ok(()))));
    let load = request(job.step(CastEvent::Probed(false)));
    let metadata = didl_metadata("http://h/a.mp3", "audio/mpeg", "a.mp3");
    assert_eq!(load, client.set_transport_uri("http://h/a.mp3", &metadata));
    assert_eq!(job.stage(), CastStage::Loading);
    assert_eq!(request(job.step(CastEvent::Replied(Ok(())))), client.play());
    assert_eq!(job.stage(), CastStage::Starting);
    assert!(matches!(job.step(CastEvent::Replied(Ok(()))), CastAction::Done));
    assert_eq!(job.stage(), CastStage::Done);
    assert!(!job.serves_file());
    assert!(!job.accepts(&CastEvent::Replied(Ok(()))));
    assert_eq!(job.client().device(), &device());
}

#[test]
fn a_file_is_served_and_only_loaded() {
    let client = DlnaClient::new(device());
    let mut job = CastJob::new(device(), "a.mp4".to_owned(), false);
    assert!(matches!(job.step(CastEvent::Probed(true)), CastAction::Serve));
    assert_eq!(job.stage(), CastStage::Serving);
    let item = MediaItem { url: "http://me/a".to_owned(), mime: "m".to_owned(), name: None };
    let load = request(job.step(CastEvent::Served(Ok(item))));
    let metadata = didl_metadata("http://me/a", "m", "xscreen media");
    assert_eq!(load, client.set_transport_uri("http://me/a", &metadata));
    assert!(job.serves_file());
    assert!(matches!(job.step(CastEvent::Replied(Ok(()))), CastAction::Done));
}

#[test]
fn casts_that_fail() {
    let new = |source: &str| CastJob::new(device(), source.to_owned(), true);
    let mut job = new("x");
    let e = error(job.step(CastEvent::Probed(false)));
    assert_eq!(e.message("x"), "media file not found: x: relative URL without a base");
    assert_eq!(job.stage(), CastStage::Failed);

    let e = error(new("file:///x").step(CastEvent::Probed(false)));
    assert_eq!(e, CastError::UnsupportedScheme);
    assert_eq!(e.message("file:///x"), "only local files and HTTP(S) URLs are supported");

    let mut job = new("x");
    job.step(CastEvent::Probed(true));
    let e = error(job.step(CastEvent::Served(Err("busy".to_owned()))));
    assert_eq!(e, CastError::Serve("busy".to_owned()));
    assert_eq!(e.message("x"), "busy");

    let mut job = new("http://h/");
    job.step(CastEvent::Probed(false));
    let e = error(job.step(CastEvent::Replied(Err("no".to_owned()))));
    assert_eq!(e, CastError::Load("no".to_owned()));
    assert_eq!(e.message(""), "the TV rejected the media URL: no");

    let mut job = new("http://h/");
    job.step(CastEvent::Probed(false));
    job.step(CastEvent::Replied(Ok(())));
    let e = error(job.step(CastEvent::Replied(Err("no".to_owned()))));
    assert_eq!(e, CastError::Start("no".to_owned()));
    assert_eq!(e.message(""), "the TV could not start playback: no");
    assert_eq!(job.stage(), CastStage::Failed);
}
