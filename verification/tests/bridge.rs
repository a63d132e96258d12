use xscreen::bridge::{
    cast_error, control_done, default_bridge_address, health, list_devices, open_cast, ApiError,
    Bridge, BridgeError, BridgeSession, CastRequest, ControlRequest, HostAddress,
};
use xscreen::cast::{CastError, CastEvent, CastJob, MediaItem};
use xscreen::device::{Device, Service};
use xscreen::media::TransferSnapshot;
use xscreen::soap::{DlnaClient, PositionInfo};
use xscreen::weburl::WebUrl;

fn device(name: &str, volume: bool) -> Device {
    Device {
        friendly_name: name.to_owned(),
        manufacturer: "Maker".to_owned(),
        model_name: "Model".to_owned(),
        location: WebUrl::parse("http://10.0.0.2/d.xml").unwrap(),
        av_transport: Service {
            service_type: "urn:av:1".to_owned(),
            control_url: "http://10.0.0.2/av".to_owned(),
        },
        rendering_control: if volume {
            Some(Service {
                service_type: "urn:rc:1".to_owned(),
                control_url: "http://10.0.0.2/rc".to_owned(),
            })
        } else {
            None
        },
    }
}

fn done(device: Device, source: &str) -> CastJob {
    let mut job = CastJob::new(device, source.to_owned(), true);
    job.step(CastEvent::Probed(false));
    job.step(CastEvent::Replied(Ok(())));
    job.step(CastEvent::Replied(Ok(())));
    job
}

fn session(volume: bool) -> BridgeSession {
    let mut bridge = Bridge::new("t".to_owned());
    bridge.begin_session(&done(device("TV", volume), "http://h/a"));
    bridge.session(Some("Bearer t")).unwrap().clone()
}

fn control(action: &str, value: Option<&str>) -> ControlRequest {
    ControlRequest { action: action.to_owned(), value: value.map(str::to_owned) }
}

#[test]
fn only_the_token_is_admitted() {
    let bridge = Bridge::new("secret".to_owned());
    assert_eq!(bridge.token(), "secret");
    assert_eq!(bridge.authorize(Some("Bearer secret")), Ok(()));
    for header in [
        None,
        Some(""),
        Some("secret"),
        Some("Bearer "),
        Some("Bearer secre"),
        Some("Bearer secrets"),
        Some("bearer secret"),
        Some("Bearer  secret"),
    ] {
        let error = bridge.authorize(header).unwrap_err();
        assert_eq!(error.status, 401);
        assert_eq!(error.message, "invalid or missing bridge token");
        assert_eq!(bridge.session(header).unwrap_err(), error);
    }
}

#[test]
fn a_session_begins_with_a_cast() {
    let mut bridge = Bridge::new("t".to_owned());
    let error = bridge.session(Some("Bearer t")).unwrap_err();
    assert_eq!(error, ApiError::bad_request("no active casting session".to_owned()));
    let result = bridge.begin_session(&done(device("TV", false), "http://h/a"));
    assert!(result.ok);
    assert_eq!(result.message, "casting to TV");
    let session = bridge.session(Some("Bearer t")).unwrap();
    assert_eq!(session.client().device().friendly_name, "TV");
    assert_eq!(bridge.session(Some("Bearer x")).unwrap_err().status, 401);
    bridge.begin_session(&done(device("Other", false), "http://h/b"));
    let session = bridge.session(Some("Bearer t")).unwrap();
    assert_eq!(session.client().device().friendly_name, "Other");
}

#[test]
fn the_bridge_listens_on_this_machine_only() {
    assert_eq!(default_bridge_address(), HostAddress::V4([127, 0, 0, 1]));
    for (address, own) in [
        (HostAddress::V4([127, 0, 0, 1]), true),
        (HostAddress::V4([127, 255, 3, 9]), true),
        (HostAddress::V4([0, 0, 0, 0]), false),
        (HostAddress::V4([192, 168, 1, 2]), false),
        (HostAddress::V6([0, 0, 0, 0, 0, 0, 0, 1]), true),
        (HostAddress::V6([0, 0, 0, 0, 0, 0, 0, 0]), false),
        (HostAddress::V6([0, 0, 0, 0, 0, 0xffff, 0x7f00, 1]), false),
        (HostAddress::V6([0xfe80, 0, 0, 0, 0, 0, 0, 1]), false),
    ] {
        assert_eq!(address.is_loopback(), own);
        let bridge = Bridge::open(&address, Some("given".to_owned()));
        if own {
            assert_eq!(bridge.unwrap().token(), "given");
        } else {
            assert_eq!(bridge.unwrap_err(), BridgeError::NotLoopback);
        }
    }
    assert_eq!(
        BridgeError::NotLoopback.message(),
        "the browser bridge may only listen on a loopback address"
    );
}

#[test]
fn a_token_is_made_up_if_none_is_given() {
    let address = default_bridge_address();
    let one = Bridge::open(&address, None).unwrap();
    let other = Bridge::open(&address, None).unwrap();
    assert_eq!(one.token().len(), 32);
    assert_ne!(one.token(), other.token());
}

#[test]
fn replies_of_the_bridge() {
    let result = health("1.2.3");
    assert!(result.ok);
    assert_eq!(result.message, "xscreen 1.2.3");
    let result = control_done(&control("pause", None));
    assert!(result.ok);
    assert_eq!(result.message, "pause command sent");
    let result = ApiError::internal("why".to_owned()).into_result();
    assert!(!result.ok);
    assert_eq!(result.message, "why");
    assert_eq!(ApiError::internal("why".to_owned()).status, 500);
}

#[test]
fn listed_devices_are_numbered_from_one() {
    let mut odd = device("b", false);
    odd.location = WebUrl::parse("data:x").unwrap();
    let list = list_devices(&[device("a", false), odd]);
    assert_eq!(list.len(), 2);
    assert_eq!(list[0].index, 1);
    assert_eq!(list[0].friendly_name, "a");
    assert_eq!(list[0].manufacturer, "Maker");
    assert_eq!(list[0].model_name, "Model");
    assert_eq!(list[0].address, "10.0.0.2");
    assert_eq!(list[1].index, 2);
    assert_eq!(list[1].address, "");
}

#[test]
fn casts_are_opened_for_the_selected_device() {
    let devices = [device("a", false), device("b", false)];
    let request = |device: &str| CastRequest { source: " x \n".to_owned(), device: device.to_owned() };
    let job = open_cast(&devices, &request(" 2 ")).unwrap();
    assert_eq!(job.client().device().friendly_name, "b");
    assert_eq!(job.source(), "x");
    let error = open_cast(&devices, &request(" q ")).unwrap_err();
    assert_eq!(
        error,
        ApiError::bad_request("no discovered device matches \"q\"".to_owned())
    );
    assert_eq!(open_cast(&[], &request("1")).unwrap_err().message, "no DLNA media renderer found");
}

#[test]
fn errors_of_casting_have_a_status() {
    let error = cast_error(CastError::NotFound("c".to_owned()));
    assert_eq!(error.status, 400);
    assert_eq!(error.message, "source is neither an existing file nor a valid media URL");
    let error = cast_error(CastError::UnsupportedScheme);
    assert_eq!(error.status, 400);
    assert_eq!(error.message, "only local files and HTTP(S) media URLs are supported");
    for e in [
        CastError::Serve("c".to_owned()),
        CastError::Load("c".to_owned()),
        CastError::Start("c".to_owned()),
    ] {
        assert_eq!(cast_error(e), ApiError::internal("c".to_owned()));
    }
}

#[test]
fn controls_become_requests() {
    let client = DlnaClient::new(device("TV", true));
    let session = session(true);
    assert_eq!(session.control(&control("play", Some("x"))), Ok(client.play()));
    assert_eq!(session.control(&control("pause", None)), Ok(client.pause()));
    assert_eq!(session.control(&control("stop", None)), Ok(client.stop()));
    assert_eq!(session.control(&control("seek", Some("0:0:9"))), Ok(client.seek("0:0:9")));
    assert_eq!(session.control(&control("rate", Some("3/2"))), Ok(client.play_at("3/2")));
    for volume in [0, 35, 100] {
        assert_eq!(
            session.control(&control("volume", Some(&volume.to_string()))).unwrap(),
            client.set_volume(volume).unwrap()
        );
    }
}

#[test]
fn controls_that_are_refused() {
    let message = |action: &str, value: Option<&str>| {
        let error = session(true).control(&control(action, value)).unwrap_err();
        assert_eq!(error.status, 400);
        error.message
    };
    for value in [None, Some("")] {
        assert_eq!(message("seek", value), "control value is required");
        assert_eq!(message("rate", value), "control value is required");
        assert_eq!(message("volume", value), "volume must be between 0 and 100");
    }
    for value in ["101", "256", "-1", "loud", " 5"] {
        assert_eq!(message("volume", Some(value)), "volume must be between 0 and 100");
    }
    for action in ["", "Play", "rewind"] {
        assert_eq!(message(action, Some("1")), "unknown control action");
    }
    let error = session(false).control(&control("volume", Some("5"))).unwrap_err();
    assert_eq!(
        error,
        ApiError::internal("this device has no RenderingControl service".to_owned())
    );
}

#[test]
fn the_status_of_a_session() {
    let mut job = CastJob::new(device("TV", false), "/a.mp4".to_owned(), true);
    job.step(CastEvent::Probed(true));
    job.step(CastEvent::Served(Ok(MediaItem {
        url: "http://me/a".to_owned(),
        mime: "video/mp4".to_owned(),
        name: None,
    })));
    job.step(CastEvent::Replied(Ok(())));
    job.step(CastEvent::Replied(Ok(())));
    assert!(job.serves_file());
    let mut bridge = Bridge::new("t".to_owned());
    bridge.begin_session(&job);
    let file = bridge.session(Some("Bearer t")).unwrap().clone();
    assert!(file.serves_file());
    let session = session(false);
    assert!(!session.serves_file());
    let info = |position: Option<&str>, duration: Option<&str>| PositionInfo {
        position: position.map(str::to_owned),
        duration: duration.map(str::to_owned),
    };
    let snapshot = TransferSnapshot { bytes_sent: 5, file_size: 9, elapsed: 1 };
    let status = file
        .playback_status(info(Some("0:01:02.5"), Some("1:00:00")), Some(snapshot))
        .unwrap();
    assert_eq!(status.position, "0:01:02.5");
    assert_eq!(status.duration, "1:00:00");
    assert_eq!(status.position_seconds, 62);
    assert_eq!(status.duration_seconds, 3_600);
    assert_eq!(status.source, "/a.mp4");
    assert_eq!(status.device_name, "TV");
    assert_eq!(status.bytes_sent, Some(5));
    assert_eq!(status.file_size, Some(9));
    let status = session.playback_status(info(None, Some("NOT_IMPLEMENTED")), None).unwrap();
    assert_eq!(status.position, "00:00:00");
    assert_eq!(status.duration, "NOT_IMPLEMENTED");
    assert_eq!(status.position_seconds, 0);
    assert_eq!(status.duration_seconds, 0);
    assert_eq!(status.source, "http://h/a");
    assert_eq!(status.bytes_sent, None);
    assert_eq!(status.file_size, None);
    let huge = "18446744073709551615:00:00";
    assert!(session.playback_status(info(Some(huge), None), None).is_none());
    assert!(session.playback_status(info(None, Some(huge)), None).is_none());
}
