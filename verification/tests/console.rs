use xscreen::bridge::{CastRequest, ControlRequest, DeviceView, PlaybackStatus};
use xscreen::console::{
    no_ffmpeg_message, option_line, preview_arguments, preview_output, rate_label, rate_value,
    refusal_message, speed_count, unreachable_message, unreadable_message, ApiCall, CallBody, Console, Picture,
    SliderMove,
};
use xscreen::playback::normalize_play_speed;

const SECOND: u64 = 1_000_000_000;

fn ready() -> Console {
    let mut console = Console::new(0);
    console.token = " t ".to_owned();
    console
}

fn view(index: usize) -> DeviceView {
    DeviceView {
        index,
        friendly_name: format!("TV {index}"),
        manufacturer: "Maker".to_owned(),
        model_name: "Model".to_owned(),
        address: "10.0.0.2".to_owned(),
    }
}

fn status(position: u64, duration: u64) -> PlaybackStatus {
    PlaybackStatus {
        position: "p".to_owned(),
        duration: "d".to_owned(),
        position_seconds: position,
        duration_seconds: duration,
        source: "s".to_owned(),
        device_name: "TV".to_owned(),
        bytes_sent: Some(1 << 20),
        file_size: Some(1 << 21),
    }
}

fn picture(bytes: &[u8]) -> Vec<u8> {
    bytes.to_vec()
}

/// A PNG of one red pixel.
const RED: &[u8] = &[
    0x89, 0x50, 0x4e, 0x47, 0x0d, 0x0a, 0x1a, 0x0a, 0x00, 0x00, 0x00, 0x0d, 0x49, 0x48, 0x44, 0x52,
    0x00, 0x00, 0x00, 0x01, 0x00, 0x00, 0x00, 0x01, 0x08, 0x02, 0x00, 0x00, 0x00, 0x90, 0x77, 0x53,
    0xde, 0x00, 0x00, 0x00, 0x0c, 0x49, 0x44, 0x41, 0x54, 0x78, 0xda, 0x63, 0xf8, 0xcf, 0xc0, 0x00,
    0x00, 0x03, 0x01, 0x01, 0x00, 0xf7, 0x03, 0x41, 0x43, 0x00, 0x00, 0x00, 0x00, 0x49, 0x45, 0x4e,
    0x44, 0xae, 0x42, 0x60, 0x82,
];

#[test]
fn a_new_console_waits_for_the_token() {
    let mut console = Console::new(5);
    assert_eq!(console.endpoint, "http://127.0.0.1:47821");
    assert_eq!(console.status_text, "请先启动 xscreen bridge，然后填写配对令牌。");
    assert!(!console.status_is_error && !console.busy && !console.has_session);
    assert_eq!(console.position_text, "00:00:00");
    assert_eq!(console.rate_index, 2);
    assert_eq!(console.poll_due, SECOND + 5);
    assert!(!console.validate_connection());
    assert_eq!(console.status_text, "请填写 xscreen bridge 输出的配对令牌");
    assert!(console.status_is_error);
    console.endpoint = " ".to_owned();
    assert!(!console.validate_connection());
    assert_eq!(console.status_text, "请填写服务地址");
    console.show_status("x".to_owned());
    assert!(ready().validate_connection());
}

#[test]
fn devices_are_asked_for_once() {
    let mut console = ready();
    console.endpoint = "http://h:1//".to_owned();
    let call = console.refresh_devices().unwrap();
    assert_eq!(
        call,
        ApiCall {
            endpoint: "http://h:1".to_owned(),
            path: "/api/devices".to_owned(),
            token: "t".to_owned(),
            body: CallBody::Nothing,
        }
    );
    assert!(console.busy);
    assert_eq!(console.status_text, "正在扫描局域网电视…");
    assert!(console.refresh_devices().is_none());
    assert!(console.cast().is_none());
    assert!(Console::new(0).refresh_devices().is_none());
}

#[test]
fn listed_devices_are_shown_and_chosen() {
    let mut console = ready();
    console.refresh_devices();
    console.receive_devices(Ok(vec![view(1), view(2), view(3)]));
    assert!(!console.busy);
    assert_eq!(console.status_text, "发现 3 台可用设备");
    assert_eq!(console.selected_label(), "TV 1");
    console.selected_device = 2;
    console.receive_devices(Ok(vec![view(1), view(2)]));
    assert_eq!(console.selected_device, 1);
    assert_eq!(console.selected_device_info().unwrap().index, 2);
    console.receive_devices(Err("down".to_owned()));
    assert_eq!(console.status_text, "down");
    assert!(console.status_is_error);
    assert_eq!(console.devices.len(), 2);
    console.receive_devices(Ok(Vec::new()));
    assert_eq!(console.status_text, "没有发现电视，请检查网络与 DLNA 设置");
    assert!(console.devices.is_empty());
    assert_eq!(console.selected_label(), "请选择设备");
    assert_eq!(option_line(&view(4)), "4. TV 4 — Maker Model (10.0.0.2)");
}

#[test]
fn casting_needs_a_device_and_a_source() {
    let mut console = ready();
    assert!(console.cast().is_none());
    assert_eq!(console.status_text, "请先扫描并选择电视");
    console.receive_devices(Ok(vec![view(7)]));
    console.source = "  ".to_owned();
    assert!(console.cast().is_none());
    assert_eq!(console.status_text, "请选择本地文件或填写网络媒体 URL");
    assert!(!console.busy);
    console.source = " a.mp4 ".to_owned();
    let call = console.cast().unwrap();
    assert_eq!(call.path, "/api/cast");
    assert_eq!(
        call.body,
        CallBody::Cast(CastRequest { source: "a.mp4".to_owned(), device: "7".to_owned() })
    );
    assert!(console.busy);
    assert_eq!(console.status_text, "正在连接电视并发送媒体…");
    console.receive_action(true, Err("no".to_owned()), 9);
    assert!(!console.busy && !console.has_session && console.status_is_error);
    console.receive_action(true, Ok("casting".to_owned()), 9);
    assert!(console.has_session && !console.status_is_error);
    assert_eq!(console.status_text, "casting");
    assert_eq!(console.poll_due, 9);
}

#[test]
fn controls_need_a_session() {
    let mut console = ready();
    assert!(console.send_control("play", None).is_none());
    assert_eq!(console.status_text, "当前没有投屏会话");
    console.token = String::new();
    assert!(console.send_control("play", None).is_none());
    assert_eq!(console.status_text, "当前没有投屏会话");
    console.has_session = true;
    assert!(console.send_control("play", None).is_none());
    assert_eq!(console.status_text, "请填写 xscreen bridge 输出的配对令牌");
    console.token = "t".to_owned();
    let body = |call: Option<ApiCall>| match call.unwrap().body {
        CallBody::Control(request) => request,
        other => panic!("{other:?}"),
    };
    let request = |action: &str, value: Option<&str>| ControlRequest {
        action: action.to_owned(),
        value: value.map(str::to_owned),
    };
    assert_eq!(body(console.send_control("play", None)), request("play", None));
    assert_eq!(body(console.seek_to(65)), request("seek", Some("00:01:05")));
    assert_eq!(body(console.change_volume(35)), request("volume", Some("35")));
    assert_eq!(body(console.change_rate(4)), request("rate", Some("3/2")));
    assert_eq!(console.rate_index, 4);
    console.receive_action(false, Ok("sent".to_owned()), 3);
    assert_eq!(console.status_text, "sent");
}

#[test]
fn sliders_ask_when_they_are_let_go() {
    let slider = |dragged: bool, drag_stopped: bool, changed: bool| SliderMove {
        dragged,
        drag_stopped,
        changed,
    };
    let mut console = ready();
    console.has_session = true;
    console.receive_action(true, Ok(String::new()), 0);
    assert!(console.move_progress(slider(true, false, true), 7).is_none());
    assert!(console.dragging_progress);
    assert!(console.poll_playback(SECOND).is_none());
    let call = console.move_progress(slider(false, true, false), 8).unwrap();
    assert!(!console.dragging_progress);
    assert_eq!(Some(call), console.seek_to(8));
    assert_eq!(console.move_progress(slider(false, false, true), 9), console.seek_to(9));
    assert!(console.move_progress(slider(false, false, false), 9).is_none());
    assert!(console.move_volume(slider(true, false, true), 3).is_none());
    assert_eq!(console.move_volume(slider(false, true, true), 4), console.change_volume(4));
}

#[test]
fn rates_are_speeds_in_lowest_terms() {
    let labels: Vec<&str> = (0..speed_count()).map(rate_label).collect();
    assert_eq!(labels, vec!["0.5×", "0.75×", "1.0×", "1.25×", "1.5×", "2.0×"]);
    for index in 0..speed_count() {
        let value = rate_value(index);
        assert_eq!(normalize_play_speed(value).unwrap(), value);
        assert_eq!(normalize_play_speed(rate_label(index).trim_end_matches('×')).unwrap(), value);
    }
}

#[test]
fn the_status_is_asked_for_once_in_a_second() {
    let mut console = ready();
    assert!(console.poll_playback(9 * SECOND).is_none());
    console.receive_action(true, Ok(String::new()), 10);
    let call = console.poll_playback(10).unwrap();
    assert_eq!(call.path, "/api/status");
    assert!(console.poll_playback(9 * SECOND).is_none());
    assert_eq!(console.receive_playback(None), None);
    assert!(console.poll_playback(SECOND + 9).is_none());
    console.dragging_progress = true;
    assert!(console.poll_playback(SECOND + 10).is_none());
    console.dragging_progress = false;
    assert!(console.poll_playback(SECOND + 10).is_some());
}

#[test]
fn the_status_is_shown() {
    let mut console = ready();
    assert_eq!(console.time_label(9), "00:00:00 / 00:00:00");
    assert_eq!(console.transfer_label("1.00"), None);
    assert_eq!(console.device_label(), None);
    assert_eq!(console.receive_playback(Some(status(61, 0))), Some(61));
    assert_eq!(console.position_seconds, 61);
    assert_eq!(console.time_label(9), "p / d");
    assert_eq!(console.current_source, "s");
    assert_eq!(console.device_label().as_deref(), Some("正在连接：TV"));
    assert_eq!(
        console.transfer_label("3.36").as_deref(),
        Some("已传输 1.0 MiB / 2.0 MiB · 3.36 Mbps")
    );
    console.dragging_progress = true;
    assert_eq!(console.receive_playback(Some(status(99, 3_600))), None);
    assert_eq!(console.position_seconds, 61);
    assert_eq!(console.time_label(9), "00:00:09 / 01:00:00");
}

#[test]
fn previews_are_made_of_what_can_be_read() {
    let mut console = ready();
    for source in ["", " ", "blob:http://x"] {
        console.source = source.to_owned();
        assert_eq!(console.generate_preview(), None);
        assert_eq!(console.preview_error.as_deref(), Some("该媒体地址无法生成预览"));
    }
    console.source = " a.mp4 ".to_owned();
    assert_eq!(console.generate_preview().as_deref(), Some("a.mp4"));
    assert_eq!(console.preview_error, None);
    assert_eq!(console.status_text, "正在生成预览图…");
    assert_eq!(
        preview_arguments("a.mp4").join(" "),
        "-v error -ss 3 -i a.mp4 -frames:v 1 -vf scale=720:-2 -f image2pipe -vcodec png pipe:1"
    );
    assert_eq!(preview_output(true, vec![1], b"x"), Ok(vec![1]));
    assert_eq!(preview_output(true, Vec::new(), b" no frame\n"), Err("no frame".to_owned()));
    assert_eq!(preview_output(false, vec![1], b"\xff"), Err("\u{fffd}".to_owned()));
}

#[test]
fn pictures_are_decoded() {
    let mut console = ready();
    let shown = console.receive_preview(Ok(picture(RED))).unwrap();
    assert_eq!(shown, Picture { width: 1, height: 1, rgba: vec![255, 0, 0, 255] });
    assert_eq!(console.preview_error, None);
    assert_eq!(console.status_text, "预览图已生成");
    assert!(console.has_preview);
    assert!(console.receive_preview(Ok(picture(b"no picture"))).is_none());
    assert!(console.preview_error.as_deref().unwrap().starts_with("预览图解析失败："));
    assert_eq!(console.status_text, "预览图已生成");
    assert!(console.receive_preview(Err("why".to_owned())).is_none());
    assert_eq!(console.preview_error.as_deref(), Some("why"));
    assert!(console.receive_preview(Err(String::new())).is_none());
    assert_eq!(console.preview_error.as_deref(), Some("无法生成预览图"));
    assert_eq!(console.receive_picture(Err("bad".to_owned())), None);
    assert_eq!(console.preview_error.as_deref(), Some("预览图解析失败：bad"));
    assert!(console.has_preview);
    console.source = "a.mp4".to_owned();
    assert!(console.generate_preview().is_some());
    assert!(!console.has_preview);
    assert!(console.receive_preview(Err("why".to_owned())).is_none());
    assert!(!console.has_preview);
    console.receive_preview(Ok(picture(RED)));
    console.source = "blob:x".to_owned();
    assert!(console.generate_preview().is_none());
    assert!(!console.has_preview);
}

#[test]
fn messages_of_the_console() {
    assert_eq!(refusal_message(Some("m".to_owned()), "b".to_owned()), "m");
    assert_eq!(refusal_message(None, "b".to_owned()), "b");
    assert_eq!(unreachable_message("e"), "无法连接 xscreen bridge：e");
    assert_eq!(unreadable_message("e"), "服务响应无效：e");
    assert_eq!(no_ffmpeg_message("e"), "无法启动 ffmpeg：e");
}
