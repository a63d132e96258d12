//! The console: a window that casts through the bridge.

use vstd::prelude::*;

use crate::bridge::{
    control_outcome, ApiFault, CastRequest, ControlRequest, DeviceView, ListedModel,
    PlaybackStatus, StatusModel,
};
use crate::device::DeviceModel;
use crate::number::{
    all_digits, decimal, digit_value, digits_value, gcd, is_digit, number_text, push_number,
    two_digits,
};
use crate::playback::{
    clock_of, format_time, lemma_clock_of, lemma_decimal_is_reduced, play_speed, ten_to, SpeedError,
};
use crate::size::{format_bytes_short, short_bytes_text};
use crate::soap::{seek_request, RequestModel};
use crate::text::{
    chars_of, from_utf8_lossy, has_part, lemma_part, lossy_text, starts_with, text_of, texts,
    trim_text, trimmed,
};
use crate::weburl::opt_text;

verus! {

/// What the console shows, and what it waits for.
#[derive(Debug)]
pub struct Console {
    /// Where the bridge is.
    pub endpoint: String,
    /// The token that the bridge asks for.
    pub token: String,
    /// The renderers that the bridge found.
    pub devices: Vec<DeviceView>,
    /// The index of the chosen one.
    pub selected_device: usize,
    /// The file or URL that is to be cast.
    pub source: String,
    pub status_text: String,
    pub status_is_error: bool,
    /// Whether a request to list or to cast has no reply yet.
    pub busy: bool,
    /// Whether something has been cast.
    pub has_session: bool,
    pub position_seconds: u64,
    pub duration_seconds: u64,
    pub position_text: String,
    pub duration_text: String,
    /// The index of the chosen speed in the list of speeds.
    pub rate_index: usize,
    /// The source that is played.
    pub current_source: String,
    /// The renderer that plays it.
    pub current_device: String,
    pub bytes_sent: Option<u64>,
    pub file_size: Option<u64>,
    /// Whether a preview is shown.
    pub has_preview: bool,
    /// Why there is no preview.
    pub preview_error: Option<String>,
    /// The time, in nanoseconds, from which the bridge may be asked for the status.
    pub poll_due: u64,
    /// Whether a request for the status has no reply yet.
    pub poll_pending: bool,
    /// Whether the position is being moved by hand.
    pub dragging_progress: bool,
}

/// What a `Console` holds.
pub struct ConsoleModel {
    pub endpoint: Seq<char>,
    pub token: Seq<char>,
    pub devices: Seq<ListedModel>,
    pub selected_device: nat,
    pub source: Seq<char>,
    pub status_text: Seq<char>,
    pub status_is_error: bool,
    pub busy: bool,
    pub has_session: bool,
    pub position_seconds: u64,
    pub duration_seconds: u64,
    pub position_text: Seq<char>,
    pub duration_text: Seq<char>,
    pub rate_index: nat,
    pub current_source: Seq<char>,
    pub current_device: Seq<char>,
    pub bytes_sent: Option<u64>,
    pub file_size: Option<u64>,
    pub has_preview: bool,
    pub preview_error: Option<Seq<char>>,
    pub poll_due: u64,
    pub poll_pending: bool,
    pub dragging_progress: bool,
}

/// The views of listed renderers.
pub open spec fn listed_views(list: Seq<DeviceView>) -> Seq<ListedModel> {
    Seq::new(list.len(), |i: int| list[i]@)
}

impl View for Console {
    type V = ConsoleModel;

    open spec fn view(&self) -> ConsoleModel {
        ConsoleModel {
            endpoint: self.endpoint@,
            token: self.token@,
            devices: listed_views(self.devices@),
            selected_device: self.selected_device as nat,
            source: self.source@,
            status_text: self.status_text@,
            status_is_error: self.status_is_error,
            busy: self.busy,
            has_session: self.has_session,
            position_seconds: self.position_seconds,
            duration_seconds: self.duration_seconds,
            position_text: self.position_text@,
            duration_text: self.duration_text@,
            rate_index: self.rate_index as nat,
            current_source: self.current_source@,
            current_device: self.current_device@,
            bytes_sent: self.bytes_sent,
            file_size: self.file_size,
            has_preview: self.has_preview,
            preview_error: opt_text(self.preview_error),
            poll_due: self.poll_due,
            poll_pending: self.poll_pending,
            dragging_progress: self.dragging_progress,
        }
    }
}

/// One second, in nanoseconds.
pub open spec fn second() -> u64 {
    1_000_000_000
}

/// A second after `now`, as far as the clock counts.
pub open spec fn in_a_second(now: u64) -> u64 {
    if now + second() <= u64::MAX {
        (now + second()) as u64
    } else {
        u64::MAX
    }
}

/// A console that was opened at the time `now`.
pub open spec fn opened(now: u64) -> ConsoleModel {
    ConsoleModel {
        endpoint: "http://127.0.0.1:47821"@,
        token: seq![],
        devices: seq![],
        selected_device: 0,
        source: seq![],
        status_text: "请先启动 xscreen bridge，然后填写配对令牌。"@,
        status_is_error: false,
        busy: false,
        has_session: false,
        position_seconds: 0,
        duration_seconds: 0,
        position_text: "00:00:00"@,
        duration_text: "00:00:00"@,
        rate_index: 2,
        current_source: seq![],
        current_device: seq![],
        bytes_sent: None,
        file_size: None,
        has_preview: false,
        preview_error: None,
        poll_due: in_a_second(now),
        poll_pending: false,
        dragging_progress: false,
    }
}

/// The console when it shows an error.
pub open spec fn with_error(console: ConsoleModel, message: Seq<char>) -> ConsoleModel {
    ConsoleModel { status_text: message, status_is_error: true, ..console }
}

/// The console when it shows a message that is no error.
pub open spec fn with_status(console: ConsoleModel, message: Seq<char>) -> ConsoleModel {
    ConsoleModel { status_text: message, status_is_error: false, ..console }
}

/// What is missing before the bridge can be asked.
pub open spec fn connection_fault(console: ConsoleModel) -> Option<Seq<char>> {
    if trimmed(console.endpoint).len() == 0 {
        Some("请填写服务地址"@)
    } else if trimmed(console.token).len() == 0 {
        Some("请填写 xscreen bridge 输出的配对令牌"@)
    } else {
        None
    }
}

/// The console when it has looked for what is missing.
pub open spec fn validated(console: ConsoleModel) -> ConsoleModel {
    match connection_fault(console) {
        Some(message) => with_error(console, message),
        None => console,
    }
}

/// `s` without the slashes at its end.
pub open spec fn without_slashes(s: Seq<char>) -> Seq<char>
    decreases s.len(),
{
    if s.len() > 0 && s.last() == '/' {
        without_slashes(s.drop_last())
    } else {
        s
    }
}

/// What is sent with a request to the bridge.
#[derive(Debug, PartialEq, Eq)]
pub enum CallBody {
    /// Nothing: the request is a `GET`.
    Nothing,
    /// A request to cast, sent by `POST`.
    Cast(CastRequest),
    /// A request to control playback, sent by `POST`.
    Control(ControlRequest),
}

/// A request to the bridge.
#[derive(Debug, PartialEq, Eq)]
pub struct ApiCall {
    pub endpoint: String,
    pub path: String,
    pub token: String,
    pub body: CallBody,
}

/// What a `CallBody` holds.
pub enum BodyModel {
    Nothing,
    Cast { source: Seq<char>, device: Seq<char> },
    Control { action: Seq<char>, value: Option<Seq<char>> },
}

/// What an `ApiCall` holds.
pub struct CallModel {
    pub endpoint: Seq<char>,
    pub path: Seq<char>,
    pub token: Seq<char>,
    pub body: BodyModel,
}

impl View for CallBody {
    type V = BodyModel;

    open spec fn view(&self) -> BodyModel {
        match self {
            CallBody::Nothing => BodyModel::Nothing,
            CallBody::Cast(request) => BodyModel::Cast {
                source: request.source@,
                device: request.device@,
            },
            CallBody::Control(request) => BodyModel::Control {
                action: request.action@,
                value: opt_text(request.value),
            },
        }
    }
}

impl View for ApiCall {
    type V = CallModel;

    open spec fn view(&self) -> CallModel {
        CallModel {
            endpoint: self.endpoint@,
            path: self.path@,
            token: self.token@,
            body: self.body@,
        }
    }
}

/// The view of an optional request.
pub open spec fn opt_call(call: Option<ApiCall>) -> Option<CallModel> {
    match call {
        Some(call) => Some(call@),
        None => None,
    }
}

/// A request to the bridge that the console knows.
pub open spec fn call_to(console: ConsoleModel, path: Seq<char>, body: BodyModel) -> CallModel {
    CallModel {
        endpoint: without_slashes(console.endpoint),
        path,
        token: trimmed(console.token),
        body,
    }
}

/// The console, and the request that it makes, when the renderers are to be listed.
pub open spec fn refreshing(console: ConsoleModel) -> (ConsoleModel, Option<CallModel>) {
    if connection_fault(console) is Some || console.busy {
        (validated(console), None)
    } else {
        (
            with_status(ConsoleModel { busy: true, ..console }, "正在扫描局域网电视…"@),
            Some(call_to(console, "/api/devices"@, BodyModel::Nothing)),
        )
    }
}

/// The console, and the request that it makes, when the source is to be cast.
pub open spec fn casting(console: ConsoleModel) -> (ConsoleModel, Option<CallModel>) {
    if connection_fault(console) is Some || console.busy {
        (validated(console), None)
    } else if console.selected_device >= console.devices.len() {
        (with_error(console, "请先扫描并选择电视"@), None)
    } else if trimmed(console.source).len() == 0 {
        (with_error(console, "请选择本地文件或填写网络媒体 URL"@), None)
    } else {
        (
            with_status(ConsoleModel { busy: true, ..console }, "正在连接电视并发送媒体…"@),
            Some(
                call_to(
                    console,
                    "/api/cast"@,
                    BodyModel::Cast {
                        source: trimmed(console.source),
                        device: decimal(console.devices[console.selected_device as int].index),
                    },
                ),
            ),
        )
    }
}

/// The console, and the request that it makes, when playback is to be controlled.
pub open spec fn controlling(
    console: ConsoleModel,
    action: Seq<char>,
    value: Option<Seq<char>>,
) -> (ConsoleModel, Option<CallModel>) {
    if !console.has_session {
        (with_error(console, "当前没有投屏会话"@), None)
    } else if connection_fault(console) is Some {
        (validated(console), None)
    } else {
        (
            console,
            Some(call_to(console, "/api/control"@, BodyModel::Control { action, value })),
        )
    }
}

/// The console, and the request that it makes, when the status may be due at the time `now`.
pub open spec fn polling(console: ConsoleModel, now: u64) -> (ConsoleModel, Option<CallModel>) {
    if !console.has_session || console.poll_pending || console.dragging_progress || now
        < console.poll_due {
        (console, None)
    } else {
        (
            ConsoleModel { poll_pending: true, poll_due: in_a_second(now), ..console },
            Some(call_to(console, "/api/status"@, BodyModel::Nothing)),
        )
    }
}

/// `s` without the slashes at its end.
fn cut_slashes(s: &str) -> (out: String)
    ensures
        out@ == without_slashes(s@),
{
    let chars = chars_of(s);
    let mut n: usize = chars.len();
    assert(s@.take(n as int) == s@);
    while n > 0 && chars[n - 1] == '/'
        invariant
            n <= s@.len(),
            chars@ == s@,
            without_slashes(s@) == without_slashes(s@.take(n as int)),
        decreases n,
    {
        assert(s@.take(n as int).drop_last() == s@.take(n - 1));
        n -= 1;
    }
    assert(chars@.subrange(0, n as int) == s@.take(n as int));
    text_of(&chars.as_slice()[0..n])
}

impl Console {
    /// A console that is opened at the time `now`.
    pub fn new(now: u64) -> (out: Console)
        ensures
            out@ == opened(now),
    {
        let out = Console {
            endpoint: "http://127.0.0.1:47821".to_owned(),
            token: String::new(),
            devices: Vec::new(),
            selected_device: 0,
            source: String::new(),
            status_text: "请先启动 xscreen bridge，然后填写配对令牌。".to_owned(),
            status_is_error: false,
            busy: false,
            has_session: false,
            position_seconds: 0,
            duration_seconds: 0,
            position_text: "00:00:00".to_owned(),
            duration_text: "00:00:00".to_owned(),
            rate_index: 2,
            current_source: String::new(),
            current_device: String::new(),
            bytes_sent: None,
            file_size: None,
            has_preview: false,
            preview_error: None,
            poll_due: now.saturating_add(1_000_000_000),
            poll_pending: false,
            dragging_progress: false,
        };
        assert(out@.devices == Seq::<ListedModel>::empty());
        assert(out@.token == Seq::<char>::empty());
        assert(out@.source == Seq::<char>::empty());
        assert(out@.current_source == Seq::<char>::empty());
        assert(out@.current_device == Seq::<char>::empty());
        out
    }

    /// Shows an error.
    pub fn show_error(&mut self, message: String)
        ensures
            final(self)@ == with_error(old(self)@, message@),
    {
        self.status_text = message;
        self.status_is_error = true;
    }

    /// Shows a message that is no error.
    pub fn show_status(&mut self, message: String)
        ensures
            final(self)@ == with_status(old(self)@, message@),
    {
        self.status_text = message;
        self.status_is_error = false;
    }

    /// Looks for what is missing before the bridge can be asked, and shows it.
    pub fn validate_connection(&mut self) -> (ready: bool)
        ensures
            final(self)@ == validated(old(self)@),
            ready == (connection_fault(old(self)@) is None),
    {
        if trim_text(self.endpoint.as_str()).as_str().is_empty() {
            self.show_error("请填写服务地址".to_owned());
            return false;
        }
        if trim_text(self.token.as_str()).as_str().is_empty() {
            self.show_error("请填写 xscreen bridge 输出的配对令牌".to_owned());
            return false;
        }
        true
    }

    /// The chosen renderer.
    pub fn selected_device_info(&self) -> (out: Option<&DeviceView>)
        ensures
            match out {
                Some(device) => self@.selected_device < self@.devices.len() && device@
                    == self@.devices[self@.selected_device as int],
                None => self@.selected_device >= self@.devices.len(),
            },
    {
        if self.selected_device < self.devices.len() {
            Some(&self.devices[self.selected_device])
        } else {
            None
        }
    }

    /// A request to the bridge.
    fn call(&self, path: &str, body: CallBody) -> (out: ApiCall)
        ensures
            out@ == call_to(self@, path@, body@),
    {
        ApiCall {
            endpoint: cut_slashes(self.endpoint.as_str()),
            path: path.to_owned(),
            token: trim_text(self.token.as_str()),
            body,
        }
    }

    /// Asks for the list of the renderers, unless a request is under way.
    pub fn refresh_devices(&mut self) -> (out: Option<ApiCall>)
        ensures
            (final(self)@, opt_call(out)) == refreshing(old(self)@),
    {
        if !self.validate_connection() || self.busy {
            return None;
        }
        self.busy = true;
        self.show_status("正在扫描局域网电视…".to_owned());
        Some(self.call("/api/devices", CallBody::Nothing))
    }

    /// Asks to cast the source to the chosen renderer, unless a request is under way.
    pub fn cast(&mut self) -> (out: Option<ApiCall>)
        ensures
            (final(self)@, opt_call(out)) == casting(old(self)@),
    {
        if !self.validate_connection() || self.busy {
            return None;
        }
        let device = match self.selected_device_info() {
            Some(device) => {
                let mut text = String::new();
                push_number(&mut text, device.index as u64);
                assert(text@ == decimal(device@.index));
                text
            },
            None => {
                self.show_error("请先扫描并选择电视".to_owned());
                return None;
            },
        };
        let source = trim_text(self.source.as_str());
        if source.as_str().is_empty() {
            self.show_error("请选择本地文件或填写网络媒体 URL".to_owned());
            return None;
        }
        self.busy = true;
        self.show_status("正在连接电视并发送媒体…".to_owned());
        Some(self.call("/api/cast", CallBody::Cast(CastRequest { source, device })))
    }

    /// Asks to control playback.
    pub fn send_control(&mut self, action: &str, value: Option<String>) -> (out: Option<ApiCall>)
        ensures
            (final(self)@, opt_call(out)) == controlling(old(self)@, action@, opt_text(value)),
    {
        if !self.validate_connection() || !self.has_session {
            if !self.has_session {
                self.show_error("当前没有投屏会话".to_owned());
            }
            return None;
        }
        Some(
            self.call(
                "/api/control",
                CallBody::Control(ControlRequest { action: action.to_owned(), value }),
            ),
        )
    }

    /// Asks for the status, if it is due at the time `now`.
    pub fn poll_playback(&mut self, now: u64) -> (out: Option<ApiCall>)
        ensures
            (final(self)@, opt_call(out)) == polling(old(self)@, now),
    {
        if !self.has_session || self.poll_pending || self.dragging_progress || now < self.poll_due {
            return None;
        }
        self.poll_pending = true;
        self.poll_due = now.saturating_add(1_000_000_000);
        Some(self.call("/api/status", CallBody::Nothing))
    }
}

/// The console when the list of the renderers has come.
pub open spec fn devices_listed(console: ConsoleModel, list: Result<Seq<ListedModel>, Seq<char>>) ->
    ConsoleModel {
    let idle = ConsoleModel { busy: false, ..console };
    match list {
        Ok(devices) => if devices.len() == 0 {
            with_error(
                ConsoleModel { devices, ..idle },
                "没有发现电视，请检查网络与 DLNA 设置"@,
            )
        } else {
            with_status(
                ConsoleModel {
                    devices,
                    selected_device: if console.selected_device < devices.len() {
                        console.selected_device
                    } else {
                        (devices.len() - 1) as nat
                    },
                    ..idle
                },
                "发现 "@ + decimal(devices.len()) + " 台可用设备"@,
            )
        },
        Err(message) => with_error(idle, message),
    }
}

/// The console when a request to cast (`starts_session`) or to control was answered. The status
/// of what was cast is due at once.
pub open spec fn action_answered(
    console: ConsoleModel,
    starts_session: bool,
    answer: Result<Seq<char>, Seq<char>>,
    now: u64,
) -> ConsoleModel {
    let idle = ConsoleModel { busy: false, ..console };
    match answer {
        Ok(message) => with_status(
            if starts_session {
                ConsoleModel { has_session: true, poll_due: now, ..idle }
            } else {
                idle
            },
            message,
        ),
        Err(message) => with_error(idle, message),
    }
}

/// The console when the status has come. The position is left alone while it is moved by hand,
/// and all of it if the status cannot be had.
pub open spec fn status_received(
    console: ConsoleModel,
    status: Option<StatusModel>,
) -> ConsoleModel {
    let idle = ConsoleModel { poll_pending: false, ..console };
    match status {
        Some(status) => ConsoleModel {
            position_seconds: if console.dragging_progress {
                console.position_seconds
            } else {
                status.position_seconds as u64
            },
            duration_seconds: status.duration_seconds as u64,
            position_text: status.position,
            duration_text: status.duration,
            current_source: status.source,
            current_device: status.device_name,
            bytes_sent: status.bytes_sent,
            file_size: status.file_size,
            ..idle
        },
        None => idle,
    }
}

/// The view of a list of renderers or of a message.
pub open spec fn list_view(list: Result<Vec<DeviceView>, String>) -> Result<
    Seq<ListedModel>,
    Seq<char>,
> {
    match list {
        Ok(devices) => Ok(listed_views(devices@)),
        Err(message) => Err(message@),
    }
}

/// The view of an answer.
pub open spec fn answer_view(answer: Result<String, String>) -> Result<Seq<char>, Seq<char>> {
    match answer {
        Ok(message) => Ok(message@),
        Err(message) => Err(message@),
    }
}

impl Console {
    /// Takes the list of the renderers, or the message that came in its place.
    pub fn receive_devices(&mut self, list: Result<Vec<DeviceView>, String>)
        ensures
            final(self)@ == devices_listed(old(self)@, list_view(list)),
    {
        self.busy = false;
        match list {
            Ok(devices) => {
                let count: usize = devices.len();
                self.devices = devices;
                if count == 0 {
                    self.show_error("没有发现电视，请检查网络与 DLNA 设置".to_owned());
                } else {
                    if self.selected_device >= count {
                        self.selected_device = count - 1;
                    }
                    let mut message = "发现 ".to_owned();
                    push_number(&mut message, count as u64);
                    message.append(" 台可用设备");
                    self.show_status(message);
                }
            },
            Err(message) => self.show_error(message),
        }
    }

    /// Takes the answer to a request to cast (`starts_session`) or to control.
    pub fn receive_action(
        &mut self,
        starts_session: bool,
        answer: Result<String, String>,
        now: u64,
    )
        ensures
            final(self)@ == action_answered(old(self)@, starts_session, answer_view(answer), now),
    {
        self.busy = false;
        match answer {
            Ok(message) => {
                if starts_session {
                    self.has_session = true;
                    self.poll_due = now;
                }
                self.show_status(message);
            },
            Err(message) => self.show_error(message),
        }
    }

    /// Takes the status, if it could be had, and returns where the mark of the position goes, if
    /// it moves.
    pub fn receive_playback(&mut self, status: Option<PlaybackStatus>) -> (mark: Option<u64>)
        ensures
            mark == (match status {
                Some(status) => if old(self)@.dragging_progress {
                    None
                } else {
                    Some(status.position_seconds)
                },
                None => None,
            }),
            final(self)@ == status_received(
                old(self)@,
                match status {
                    Some(status) => Some(status@),
                    None => None,
                },
            ),
    {
        self.poll_pending = false;
        match status {
            Some(status) => {
                let mark: Option<u64> = if self.dragging_progress {
                    None
                } else {
                    self.position_seconds = status.position_seconds;
                    Some(status.position_seconds)
                };
                self.duration_seconds = status.duration_seconds;
                self.position_text = status.position;
                self.duration_text = status.duration;
                self.current_source = status.source;
                self.current_device = status.device_name;
                self.bytes_sent = status.bytes_sent;
                self.file_size = status.file_size;
                mark
            },
            None => None,
        }
    }
}

/// A picture: its pixels row by row, each as red, green, blue and alpha.
#[derive(Debug, PartialEq, Eq)]
pub struct Picture {
    pub width: u32,
    pub height: u32,
    pub rgba: Vec<u8>,
}

impl Picture {
    /// How many bytes its pixels take.
    pub open spec fn size(self) -> int {
        4 * self.width * self.height
    }
}

/// `image::load_from_memory` decodes a picture, and `to_rgba8` converts its pixels. Which formats
/// it knows depends on the decoders that were registered in the process, so that nothing is
/// claimed of whether it succeeds or of the pixels. The buffer of a picture is checked to hold
/// all of its pixels; a registered decoder may make it longer.
#[verifier::external_body]
fn decode_with_image(bytes: &Vec<u8>) -> (out: Result<Picture, String>)
    ensures
        out matches Ok(picture) ==> picture.rgba@.len() >= picture.size(),
{
    let image = image::load_from_memory(bytes).map_err(|e| e.to_string())?.to_rgba8();
    Ok(Picture { width: image.width(), height: image.height(), rgba: image.into_raw() })
}

/// `picture` without what follows its pixels.
fn fitted(picture: Picture) -> (out: Picture)
    requires
        picture.rgba@.len() >= picture.size(),
    ensures
        out.width == picture.width,
        out.height == picture.height,
        out.rgba@ == picture.rgba@.take(picture.size()),
{
    let mut rgba: Vec<u8> = picture.rgba;
    let (width, height): (u32, u32) = (picture.width, picture.height);
    assert(0 <= width * height <= 0xffff_ffff * 0xffff_ffff) by (nonlinear_arith)
        requires
            width <= 0xffff_ffff,
            height <= 0xffff_ffff,
    ;
    let size: u128 = width as u128 * height as u128 * 4;
    assert(size == 4 * width * height) by (nonlinear_arith)
        requires
            size == width * height * 4,
    ;
    rgba.truncate(size as usize);
    assert(rgba@ =~= picture.rgba@.take(picture.size()));
    Picture { width, height, rgba }
}

/// The console, and the source of the preview, when a preview is to be made: the old one goes.
pub open spec fn previewing(console: ConsoleModel) -> (ConsoleModel, Option<Seq<char>>) {
    let source = trimmed(console.source);
    let cleared = ConsoleModel { has_preview: false, ..console };
    if source.len() == 0 || "blob:"@.is_prefix_of(source) {
        (
            ConsoleModel { preview_error: Some("该媒体地址无法生成预览"@), ..cleared },
            None,
        )
    } else {
        (
            with_status(ConsoleModel { preview_error: None, ..cleared }, "正在生成预览图…"@),
            Some(source),
        )
    }
}

/// The console when a picture of the source was made and decoded.
pub open spec fn preview_shown(console: ConsoleModel) -> ConsoleModel {
    with_status(
        ConsoleModel { has_preview: true, preview_error: None, ..console },
        "预览图已生成"@,
    )
}

/// The console when a picture of the source could not be decoded. What is shown stays.
pub open spec fn preview_undecoded(console: ConsoleModel, cause: Seq<char>) -> ConsoleModel {
    ConsoleModel { preview_error: Some("预览图解析失败："@ + cause), ..console }
}

/// The console when no picture of the source could be made. What is shown stays.
pub open spec fn preview_failed(console: ConsoleModel, cause: Seq<char>) -> ConsoleModel {
    ConsoleModel {
        preview_error: Some(
            if cause.len() == 0 {
                "无法生成预览图"@
            } else {
                cause
            },
        ),
        ..console
    }
}

/// What `ffmpeg` is told to write one frame of `source` as a picture.
pub open spec fn frame_arguments(source: Seq<char>) -> Seq<Seq<char>> {
    seq![
        "-v"@,
        "error"@,
        "-ss"@,
        "3"@,
        "-i"@,
        source,
        "-frames:v"@,
        "1"@,
        "-vf"@,
        "scale=720:-2"@,
        "-f"@,
        "image2pipe"@,
        "-vcodec"@,
        "png"@,
        "pipe:1"@,
    ]
}

/// What `ffmpeg` is told to write one frame of `source` as a picture.
pub fn preview_arguments(source: &str) -> (out: Vec<String>)
    ensures
        texts(out@) == frame_arguments(source@),
{
    let mut out: Vec<String> = Vec::new();
    out.push("-v".to_owned());
    out.push("error".to_owned());
    out.push("-ss".to_owned());
    out.push("3".to_owned());
    out.push("-i".to_owned());
    out.push(source.to_owned());
    out.push("-frames:v".to_owned());
    out.push("1".to_owned());
    out.push("-vf".to_owned());
    out.push("scale=720:-2".to_owned());
    out.push("-f".to_owned());
    out.push("image2pipe".to_owned());
    out.push("-vcodec".to_owned());
    out.push("png".to_owned());
    out.push("pipe:1".to_owned());
    assert(texts(out@) == frame_arguments(source@));
    out
}

/// The picture that `ffmpeg` wrote to `stdout`, if it succeeded and wrote one, or what it wrote
/// to `stderr`.
pub fn preview_output(success: bool, stdout: Vec<u8>, stderr: &[u8]) -> (out: Result<
    Vec<u8>,
    String,
>)
    ensures
        match out {
            Ok(picture) => success && stdout@.len() > 0 && picture == stdout,
            Err(message) => !(success && stdout@.len() > 0) && message@ == trimmed(
                lossy_text(stderr@),
            ),
        },
{
    if success && stdout.len() > 0 {
        Ok(stdout)
    } else {
        Err(trim_text(from_utf8_lossy(stderr).as_str()))
    }
}

impl Console {
    /// Begins to make a preview of the source: the old one goes, and the source of the new one
    /// is returned, if there can be one.
    pub fn generate_preview(&mut self) -> (out: Option<String>)
        ensures
            (final(self)@, opt_text(out)) == previewing(old(self)@),
    {
        let source = trim_text(self.source.as_str());
        self.has_preview = false;
        if source.as_str().is_empty() || starts_with(&chars_of(source.as_str()), "blob:") {
            self.preview_error = Some("该媒体地址无法生成预览".to_owned());
            return None;
        }
        self.preview_error = None;
        self.show_status("正在生成预览图…".to_owned());
        Some(source)
    }

    /// Takes a picture of the source that was decoded, or the message of its decoder.
    pub fn receive_picture(&mut self, decoded: Result<Picture, String>) -> (out: Option<Picture>)
        ensures
            match decoded {
                Ok(picture) => out == Some(picture) && final(self)@ == preview_shown(old(self)@),
                Err(cause) => out is None && final(self)@ == preview_undecoded(
                    old(self)@,
                    cause@,
                ),
            },
    {
        match decoded {
            Ok(picture) => {
                self.has_preview = true;
                self.preview_error = None;
                self.show_status("预览图已生成".to_owned());
                Some(picture)
            },
            Err(cause) => {
                let mut message = "预览图解析失败：".to_owned();
                message.append(cause.as_str());
                self.preview_error = Some(message);
                None
            },
        }
    }

    /// Takes a picture of the source as it was made, or the message that came in its place, and
    /// returns the picture that is to be shown.
    pub fn receive_preview(&mut self, made: Result<Vec<u8>, String>) -> (out: Option<Picture>)
        ensures
            out matches Some(picture) ==> picture.rgba@.len() == picture.size(),
            match made {
                Ok(_) => if out is Some {
                    final(self)@ == preview_shown(old(self)@)
                } else {
                    exists|cause: Seq<char>|
                        final(self)@ == #[trigger] preview_undecoded(old(self)@, cause)
                },
                Err(cause) => out is None && final(self)@ == preview_failed(old(self)@, cause@),
            },
    {
        match made {
            Ok(bytes) => {
                let decoded = match decode_with_image(&bytes) {
                    Ok(picture) => Ok(fitted(picture)),
                    Err(cause) => Err(cause),
                };
                self.receive_picture(decoded)
            },
            Err(cause) => {
                self.preview_error = Some(
                    if cause.as_str().is_empty() {
                        "无法生成预览图".to_owned()
                    } else {
                        cause
                    },
                );
                None
            },
        }
    }
}

/// What was done to a slider.
#[derive(Debug, Clone, Copy, PartialEq, Eq)]
pub struct SliderMove {
    /// Its mark is being dragged.
    pub dragged: bool,
    /// Its mark was let go.
    pub drag_stopped: bool,
    /// Its value is another one.
    pub changed: bool,
}

impl SliderMove {
    /// Whether the mark is where it is to stay: it was let go, or was moved without dragging.
    pub open spec fn released(self) -> bool {
        self.drag_stopped || (self.changed && !self.dragged)
    }

    /// Whether the mark is where it is to stay.
    pub fn is_released(&self) -> (yes: bool)
        ensures
            yes == self.released(),
    {
        self.drag_stopped || (self.changed && !self.dragged)
    }
}

/// The console, and the request that it makes, when the mark of the position, at the second
/// `mark`, was moved or not.
pub open spec fn progress_moved(console: ConsoleModel, moved: SliderMove, mark: nat) -> (
    ConsoleModel,
    Option<CallModel>,
) {
    let following = ConsoleModel { dragging_progress: moved.dragged, ..console };
    if moved.released() {
        controlling(following, "seek"@, Some(clock_of(mark)))
    } else {
        (following, None)
    }
}

/// The console, and the request that it makes, when the mark of the volume, at `volume`, was moved
/// or not.
pub open spec fn volume_moved(console: ConsoleModel, moved: SliderMove, volume: nat) -> (
    ConsoleModel,
    Option<CallModel>,
) {
    if moved.released() {
        controlling(console, "volume"@, Some(decimal(volume)))
    } else {
        (console, None)
    }
}

/// The speeds that can be chosen: how each is shown, and what is asked of the renderer.
pub open spec fn speed_list() -> Seq<(Seq<char>, Seq<char>)> {
    seq![
        ("0.5×"@, "1/2"@),
        ("0.75×"@, "3/4"@),
        ("1.0×"@, "1"@),
        ("1.25×"@, "5/4"@),
        ("1.5×"@, "3/2"@),
        ("2.0×"@, "2"@),
    ]
}

/// How many speeds can be chosen.
pub fn speed_count() -> (n: usize)
    ensures
        n == speed_list().len(),
{
    6
}

/// How the speed with the index `index` is shown.
pub fn rate_label(index: usize) -> (out: &'static str)
    requires
        index < speed_list().len(),
    ensures
        out@ == speed_list()[index as int].0,
{
    match index {
        0 => "0.5×",
        1 => "0.75×",
        2 => "1.0×",
        3 => "1.25×",
        4 => "1.5×",
        _ => "2.0×",
    }
}

/// What is asked of the renderer for the speed with the index `index`.
pub fn rate_value(index: usize) -> (out: &'static str)
    requires
        index < speed_list().len(),
    ensures
        out@ == speed_list()[index as int].1,
{
    match index {
        0 => "1/2",
        1 => "3/4",
        2 => "1",
        3 => "5/4",
        4 => "3/2",
        _ => "2",
    }
}

impl Console {
    /// Asks to jump to the second `seconds`.
    pub fn seek_to(&mut self, seconds: u64) -> (out: Option<ApiCall>)
        ensures
            (final(self)@, opt_call(out)) == controlling(
                old(self)@,
                "seek"@,
                Some(clock_of(seconds as nat)),
            ),
    {
        self.send_control("seek", Some(format_time(seconds)))
    }

    /// Asks for the volume `volume`.
    pub fn change_volume(&mut self, volume: u8) -> (out: Option<ApiCall>)
        ensures
            (final(self)@, opt_call(out)) == controlling(
                old(self)@,
                "volume"@,
                Some(decimal(volume as nat)),
            ),
    {
        self.send_control("volume", Some(number_text(volume as u64)))
    }

    /// Follows the mark of the position, which is at the second `mark`, and asks to jump there
    /// when it is let go.
    pub fn move_progress(&mut self, moved: SliderMove, mark: u64) -> (out: Option<ApiCall>)
        ensures
            (final(self)@, opt_call(out)) == progress_moved(old(self)@, moved, mark as nat),
    {
        self.dragging_progress = moved.dragged;
        if moved.is_released() {
            self.seek_to(mark)
        } else {
            None
        }
    }

    /// Follows the mark of the volume, which is at `volume`, and asks for it when it is let go.
    pub fn move_volume(&mut self, moved: SliderMove, volume: u8) -> (out: Option<ApiCall>)
        ensures
            (final(self)@, opt_call(out)) == volume_moved(old(self)@, moved, volume as nat),
    {
        if moved.is_released() {
            self.change_volume(volume)
        } else {
            None
        }
    }

    /// Chooses the speed with the index `index`, and asks for it.
    pub fn change_rate(&mut self, index: usize) -> (out: Option<ApiCall>)
        requires
            index < speed_list().len(),
        ensures
            (final(self)@, opt_call(out)) == controlling(
                ConsoleModel { rate_index: index as nat, ..old(self)@ },
                "rate"@,
                Some(speed_list()[index as int].1),
            ),
    {
        self.rate_index = index;
        self.send_control("rate", Some(rate_value(index).to_owned()))
    }

    /// The name of the chosen renderer, or a request to choose one.
    pub fn selected_label(&self) -> (out: String)
        ensures
            out@ == (if self@.selected_device < self@.devices.len() {
                self@.devices[self@.selected_device as int].friendly_name
            } else {
                "请选择设备"@
            }),
    {
        match self.selected_device_info() {
            Some(device) => device.friendly_name.clone(),
            None => "请选择设备".to_owned(),
        }
    }

    /// Which renderer plays, if that is known.
    pub fn device_label(&self) -> (out: Option<String>)
        ensures
            match out {
                Some(text) => self@.current_device.len() > 0 && text@ == "正在连接："@
                    + self@.current_device,
                None => self@.current_device.len() == 0,
            },
    {
        if self.current_device.as_str().is_empty() {
            return None;
        }
        let mut out = "正在连接：".to_owned();
        out.append(self.current_device.as_str());
        Some(out)
    }

    /// How far playback has come, where the mark of the position is at the second `mark`: while
    /// it is moved by hand, the mark is shown.
    pub fn time_label(&self, mark: u64) -> (out: String)
        ensures
            out@ == (if self@.dragging_progress {
                clock_of(mark as nat)
            } else {
                self@.position_text
            }) + " / "@ + (if self@.duration_seconds > 0 {
                clock_of(self@.duration_seconds as nat)
            } else {
                self@.duration_text
            }),
    {
        let mut out = if self.dragging_progress {
            format_time(mark)
        } else {
            self.position_text.clone()
        };
        out.append(" / ");
        if self.duration_seconds > 0 {
            out.append(format_time(self.duration_seconds).as_str());
        } else {
            out.append(self.duration_text.as_str());
        }
        out
    }

    /// How much of a served file has been sent, if one is served, where the rate has been written
    /// as a decimal.
    pub fn transfer_label(&self, mbps: &str) -> (out: Option<String>)
        ensures
            match (self@.bytes_sent, self@.file_size) {
                (Some(sent), Some(size)) => opt_text(out) == Some(
                    "已传输 "@ + short_bytes_text(sent as nat) + " / "@ + short_bytes_text(
                        size as nat,
                    ) + " · "@ + mbps@ + " Mbps"@,
                ),
                _ => out is None,
            },
    {
        match (self.bytes_sent, self.file_size) {
            (Some(sent), Some(size)) => {
                let mut out = "已传输 ".to_owned();
                out.append(format_bytes_short(sent).as_str());
                out.append(" / ");
                out.append(format_bytes_short(size).as_str());
                out.append(" · ");
                out.append(mbps);
                out.append(" Mbps");
                Some(out)
            },
            _ => None,
        }
    }
}

/// The line for a renderer in the list to choose from.
pub fn option_line(device: &DeviceView) -> (out: String)
    ensures
        out@ == decimal(device@.index) + ". "@ + device@.friendly_name + " — "@
            + device@.manufacturer + " "@ + device@.model_name + " ("@ + device@.address + ")"@,
{
    let mut out = number_text(device.index as u64);
    out.append(". ");
    out.append(device.friendly_name.as_str());
    out.append(" — ");
    out.append(device.manufacturer.as_str());
    out.append(" ");
    out.append(device.model_name.as_str());
    out.append(" (");
    out.append(device.address.as_str());
    out.append(")");
    out
}

/// The message of a reply of the bridge that refuses a request: the one in the reply, or else its
/// body as it is.
pub fn refusal_message(message: Option<String>, body: String) -> (out: String)
    ensures
        out@ == (match message {
            Some(message) => message@,
            None => body@,
        }),
{
    match message {
        Some(message) => message,
        None => body,
    }
}

/// The message that the bridge cannot be reached.
pub fn unreachable_message(cause: &str) -> (out: String)
    ensures
        out@ == "无法连接 xscreen bridge："@ + cause@,
{
    let mut out = "无法连接 xscreen bridge：".to_owned();
    out.append(cause);
    out
}

/// The message that the bridge replied what cannot be read.
pub fn unreadable_message(cause: &str) -> (out: String)
    ensures
        out@ == "服务响应无效："@ + cause@,
{
    let mut out = "服务响应无效：".to_owned();
    out.append(cause);
    out
}

/// The message that `ffmpeg` cannot be run.
pub fn no_ffmpeg_message(cause: &str) -> (out: String)
    ensures
        out@ == "无法启动 ffmpeg："@ + cause@,
{
    let mut out = "无法启动 ffmpeg：".to_owned();
    out.append(cause);
    out
}

/// While a request to list or to cast is under way, no other is made.
pub proof fn lemma_one_request_at_a_time(console: ConsoleModel)
    ensures
        console.busy ==> refreshing(console).1 is None && casting(console).1 is None,
        refreshing(console).1 is Some ==> refreshing(console).0.busy,
        casting(console).1 is Some ==> casting(console).0.busy,
        refreshing(console).1 is Some ==> refreshing(refreshing(console).0).1 is None,
{
}

/// A reply ends the wait for it, whatever it says.
pub proof fn lemma_reply_ends_the_wait(
    console: ConsoleModel,
    list: Result<Seq<ListedModel>, Seq<char>>,
    starts_session: bool,
    answer: Result<Seq<char>, Seq<char>>,
    status: Option<StatusModel>,
    now: u64,
)
    ensures
        !devices_listed(console, list).busy,
        !action_answered(console, starts_session, answer, now).busy,
        !status_received(console, status).poll_pending,
{
}

/// Once renderers are listed, one of them is chosen.
pub proof fn lemma_a_device_is_chosen(console: ConsoleModel, devices: Seq<ListedModel>)
    requires
        devices.len() > 0,
    ensures
        ({
            let next = devices_listed(console, Ok(devices));
            next.devices == devices && next.selected_device < devices.len()
        }),
{
}

/// Playback is controlled and followed only after something was cast. Within a second after the
/// status was asked for, it is not asked for again, whatever came back, unless something else is
/// cast or the clock ends.
pub proof fn lemma_session_comes_first(
    console: ConsoleModel,
    action: Seq<char>,
    value: Option<Seq<char>>,
    status: Option<StatusModel>,
    now: u64,
    later: u64,
)
    ensures
        !console.has_session ==> controlling(console, action, value).1 is None && polling(
            console,
            now,
        ).1 is None,
        polling(console, now).1 is Some && later < now + second() <= u64::MAX ==> polling(
            status_received(polling(console, now).0, status),
            later,
        ).1 is None,
{
}

/// The bridge carries out a jump that the console asks for.
pub proof fn lemma_seek_is_accepted(device: DeviceModel, seconds: nat)
    ensures
        control_outcome(device, "seek"@, clock_of(seconds)) == Ok::<RequestModel, ApiFault>(
            seek_request(device, clock_of(seconds)),
        ),
{
    reveal_strlit("play");
    reveal_strlit("pause");
    reveal_strlit("stop");
    reveal_strlit("seek");
    assert("seek"@[1] == 'e');
    assert("stop"@[1] == 't');
    assert("play"@[1] == 'l');
    assert("pause"@[1] == 'a');
}

/// While a mark is dragged and not let go, nothing is asked of the renderer, neither to jump nor
/// to report its position.
pub proof fn lemma_nothing_is_asked_while_dragging(
    console: ConsoleModel,
    moved: SliderMove,
    mark: nat,
    now: u64,
)
    requires
        moved.dragged,
        !moved.drag_stopped,
    ensures
        progress_moved(console, moved, mark).1 is None,
        volume_moved(console, moved, mark).1 is None,
        polling(progress_moved(console, moved, mark).0, now).1 is None,
{
}

/// A preview is shown until another is asked for: one that fails takes nothing away.
pub proof fn lemma_old_preview_goes(console: ConsoleModel, cause: Seq<char>)
    ensures
        !previewing(console).0.has_preview,
        preview_shown(console).has_preview,
        preview_undecoded(console, cause).has_preview == console.has_preview,
        preview_failed(console, cause).has_preview == console.has_preview,
{
}

/// What is left of an address without the slashes at its end is its beginning and ends with none,
/// and only slashes are cut.
pub proof fn lemma_slashes_are_cut(s: Seq<char>)
    ensures
        without_slashes(s).is_prefix_of(s),
        without_slashes(s).len() > 0 ==> without_slashes(s).last() != '/',
        forall|i: int| without_slashes(s).len() <= i < s.len() ==> #[trigger] s[i] == '/',
    decreases s.len(),
{
    if s.len() > 0 && s.last() == '/' {
        let shorter = s.drop_last();
        lemma_slashes_are_cut(shorter);
        assert forall|i: int| without_slashes(s).len() <= i < s.len() implies #[trigger] s[i]
            == '/' by {
            if i < shorter.len() {
                assert(shorter[i] == '/');
            }
        }
        assert(without_slashes(s) == s.take(without_slashes(s).len() as int)) by {
            assert(shorter.take(without_slashes(s).len() as int) == s.take(
                without_slashes(s).len() as int,
            ));
        }
    } else {
        assert(s.take(s.len() as int) == s);
    }
}

/// Whether the console knows where the bridge is and what its token is.
pub open spec fn connected(console: ConsoleModel) -> bool {
    trimmed(console.endpoint).len() > 0 && trimmed(console.token).len() > 0
}

/// Whether `call` goes to the bridge that `console` knows, with its token, and asks for `path`
/// with `body`.
pub open spec fn goes_to(
    call: CallModel,
    console: ConsoleModel,
    path: Seq<char>,
    body: BodyModel,
) -> bool {
    &&& call.endpoint == without_slashes(console.endpoint)
    &&& call.token == trimmed(console.token)
    &&& call.path == path
    &&& call.body == body
}

/// The renderers are asked for exactly if the bridge is known and no request is under way.
pub proof fn lemma_when_devices_are_asked_for(console: ConsoleModel)
    ensures
        ({
            let (next, call) = refreshing(console);
            &&& call is Some <==> connected(console) && !console.busy
            &&& call is Some ==> goes_to(call->0, console, "/api/devices"@, BodyModel::Nothing)
            &&& call is Some ==> next.busy && !next.status_is_error
            &&& !connected(console) ==> next.status_is_error
            &&& next == (ConsoleModel {
                busy: next.busy,
                status_text: next.status_text,
                status_is_error: next.status_is_error,
                ..console
            })
            &&& call is None ==> next.busy == console.busy
        }),
{
}

/// A source is cast exactly if the bridge is known, no request is under way, one of the listed
/// renderers is chosen and a source is given. What is sent is the source, without the space around
/// it, and the number of the chosen renderer.
pub proof fn lemma_when_a_source_is_cast(console: ConsoleModel)
    ensures
        ({
            let (next, call) = casting(console);
            &&& call is Some <==> connected(console) && !console.busy && console.selected_device
                < console.devices.len() && trimmed(console.source).len() > 0
            &&& call is Some ==> goes_to(
                call->0,
                console,
                "/api/cast"@,
                BodyModel::Cast {
                    source: trimmed(console.source),
                    device: decimal(console.devices[console.selected_device as int].index),
                },
            )
            &&& call is Some ==> next.busy && !next.status_is_error
            &&& call is None && !console.busy ==> next.status_is_error && !next.busy
            &&& next == (ConsoleModel {
                busy: next.busy,
                status_text: next.status_text,
                status_is_error: next.status_is_error,
                ..console
            })
        }),
{
}

/// Playback is controlled exactly if something was cast and the bridge is known; what is sent is
/// the action and its value as they are. Nothing else changes.
pub proof fn lemma_when_playback_is_controlled(
    console: ConsoleModel,
    action: Seq<char>,
    value: Option<Seq<char>>,
)
    ensures
        ({
            let (next, call) = controlling(console, action, value);
            &&& call is Some <==> console.has_session && connected(console)
            &&& call is Some ==> next == console && goes_to(
                call->0,
                console,
                "/api/control"@,
                BodyModel::Control { action, value },
            )
            &&& call is None ==> next.status_is_error
            &&& next == (ConsoleModel {
                status_text: next.status_text,
                status_is_error: next.status_is_error,
                ..console
            })
        }),
{
}

/// The status is asked for exactly if something was cast, the last request for it was answered,
/// the position is not being moved by hand, and it is due; it is due again a second later, as far
/// as the clock counts.
pub proof fn lemma_when_the_status_is_asked_for(console: ConsoleModel, now: u64)
    ensures
        ({
            let (next, call) = polling(console, now);
            &&& call is Some <==> console.has_session && !console.poll_pending
                && !console.dragging_progress && console.poll_due <= now
            &&& call is Some ==> goes_to(call->0, console, "/api/status"@, BodyModel::Nothing)
            &&& call is Some ==> next.poll_pending
            &&& call is Some && now + 1_000_000_000 <= u64::MAX ==> next.poll_due == now
                + 1_000_000_000
            &&& call is Some && now + 1_000_000_000 > u64::MAX ==> next.poll_due == u64::MAX
            &&& call is None ==> next == console
            &&& next == (ConsoleModel {
                poll_pending: next.poll_pending,
                poll_due: next.poll_due,
                ..console
            })
        }),
{
}

/// A list that has come is shown, and the choice stays if it still can, and is the last one if it
/// cannot. An empty list and a failure are errors; a failure leaves the list as it was.
pub proof fn lemma_lists_that_come(
    console: ConsoleModel,
    devices: Seq<ListedModel>,
    message: Seq<char>,
)
    ensures
        ({
            let next = devices_listed(console, Ok(devices));
            &&& next.devices == devices
            &&& next.status_is_error <==> devices.len() == 0
            &&& console.selected_device < devices.len() ==> next.selected_device
                == console.selected_device
            &&& 0 < devices.len() <= console.selected_device ==> next.selected_device
                == devices.len() - 1
            &&& devices.len() == 0 ==> next.selected_device == console.selected_device
            &&& devices.len() > 0 ==> has_part(next.status_text, decimal(devices.len()))
            &&& next.has_session == console.has_session
            &&& next.source == console.source
        }),
        devices_listed(console, Err(message)) == (ConsoleModel {
            busy: false,
            status_text: message,
            status_is_error: true,
            ..console
        }),
{
    lemma_part("发现 "@, decimal(devices.len()), " 台可用设备"@);
}

/// An answer is shown as it is. Only a granted request to cast begins a session, whose status is
/// due at once; a refusal ends none.
pub proof fn lemma_answers_that_come(
    console: ConsoleModel,
    starts_session: bool,
    answer: Result<Seq<char>, Seq<char>>,
    now: u64,
)
    ensures
        ({
            let next = action_answered(console, starts_session, answer, now);
            &&& answer is Ok ==> next.status_text == answer->Ok_0 && !next.status_is_error
            &&& answer is Err ==> next.status_text == answer->Err_0 && next.status_is_error
            &&& next.has_session <==> console.has_session || (starts_session && answer is Ok)
            &&& starts_session && answer is Ok ==> next.poll_due == now
            &&& !(starts_session && answer is Ok) ==> next.poll_due == console.poll_due
            &&& next == (ConsoleModel {
                busy: false,
                status_text: next.status_text,
                status_is_error: next.status_is_error,
                has_session: next.has_session,
                poll_due: next.poll_due,
                ..console
            })
        }),
{
}

/// A status that has come is shown: the times, the source, the renderer and what was sent. The
/// position stays where it is while it is moved by hand. Without a status all stays.
pub proof fn lemma_statuses_that_come(console: ConsoleModel, status: StatusModel)
    requires
        status.position_seconds <= u64::MAX,
        status.duration_seconds <= u64::MAX,
    ensures
        ({
            let next = status_received(console, Some(status));
            &&& console.dragging_progress ==> next.position_seconds == console.position_seconds
            &&& !console.dragging_progress ==> next.position_seconds == status.position_seconds
            &&& next.duration_seconds == status.duration_seconds
            &&& next.position_text == status.position
            &&& next.duration_text == status.duration
            &&& next.current_source == status.source
            &&& next.current_device == status.device_name
            &&& next.bytes_sent == status.bytes_sent
            &&& next.file_size == status.file_size
            &&& next.has_session == console.has_session
            &&& next.status_text == console.status_text
            &&& next.poll_due == console.poll_due
        }),
        status_received(console, None) == (ConsoleModel { poll_pending: false, ..console }),
{
}

/// When a mark is let go, or moved without dragging, the renderer is asked for where it is: the
/// second, as a time, or the volume, as a number. Whether the position is being moved by hand
/// follows the mark.
pub proof fn lemma_marks_that_are_let_go(console: ConsoleModel, moved: SliderMove, mark: nat)
    ensures
        progress_moved(console, moved, mark).0.dragging_progress == moved.dragged,
        (moved.drag_stopped || (moved.changed && !moved.dragged)) && console.has_session
            && connected(console) ==> {
            &&& progress_moved(console, moved, mark).1 is Some
            &&& progress_moved(console, moved, mark).1->0.body == (BodyModel::Control {
                action: "seek"@,
                value: Some(clock_of(mark)),
            })
            &&& volume_moved(console, moved, mark).1 is Some
            &&& volume_moved(console, moved, mark).1->0.body == (BodyModel::Control {
                action: "volume"@,
                value: Some(decimal(mark)),
            })
        },
        !moved.drag_stopped && !(moved.changed && !moved.dragged) ==> progress_moved(
            console,
            moved,
            mark,
        ).1 is None && volume_moved(console, moved, mark) == (console, None::<CallModel>),
{
}

/// A preview is made exactly of a source that is given and is no `blob:` address, and of that
/// source without the space around it.
pub proof fn lemma_when_a_preview_is_made(console: ConsoleModel, cause: Seq<char>)
    ensures
        ({
            let (next, source) = previewing(console);
            &&& source is Some <==> trimmed(console.source).len() > 0 && !"blob:"@.is_prefix_of(
                trimmed(console.source),
            )
            &&& source is Some ==> source->0 == trimmed(console.source) && next.preview_error is None
            &&& source is None ==> next.preview_error is Some
            &&& source is None ==> next.status_text == console.status_text
        }),
        preview_shown(console).preview_error is None,
        preview_undecoded(console, cause).preview_error is Some && has_part(
            preview_undecoded(console, cause).preview_error->0,
            cause,
        ),
        cause.len() > 0 ==> preview_failed(console, cause).preview_error == Some(cause),
        cause.len() == 0 ==> preview_failed(console, cause).preview_error is Some,
{
    let none = Seq::<char>::empty();
    lemma_part("预览图解析失败："@, cause, none);
    assert("预览图解析失败："@ + cause + none =~= "预览图解析失败："@ + cause);
}

/// What `ffmpeg` is told: to take one frame, three seconds after the start, scaled to a width of
/// 720, and to write it as a PNG to its output. It differs from one source to another in the
/// input alone.
pub proof fn lemma_one_input(a: Seq<char>, b: Seq<char>)
    ensures
        frame_arguments(a).len() == frame_arguments(b).len(),
        follows(frame_arguments(a), "-ss"@, "3"@),
        follows(frame_arguments(a), "-frames:v"@, "1"@),
        follows(frame_arguments(a), "-vf"@, "scale=720:-2"@),
        follows(frame_arguments(a), "-f"@, "image2pipe"@),
        follows(frame_arguments(a), "-vcodec"@, "png"@),
        follows(frame_arguments(a), "-v"@, "error"@),
        frame_arguments(a).last() == "pipe:1"@,
        exists|k: int|
            {
                &&& 0 < k < frame_arguments(a).len()
                &&& #[trigger] frame_arguments(a)[k] == a
                &&& frame_arguments(b)[k] == b
                &&& frame_arguments(a)[k - 1] == "-i"@
                &&& forall|i: int|
                    0 <= i < frame_arguments(a).len() && i != k ==> #[trigger] frame_arguments(a)[i]
                        == frame_arguments(b)[i]
            },
{
    let list = frame_arguments(a);
    assert(list[5] == a);
    assert(list[4] == "-i"@);
    assert(list[0] == "-v"@ && list[2] == "-ss"@ && list[6] == "-frames:v"@);
    assert(list[8] == "-vf"@ && list[10] == "-f"@ && list[12] == "-vcodec"@);
}

/// Whether `value` comes right after `option` in `list`.
pub open spec fn follows(list: Seq<Seq<char>>, option: Seq<char>, value: Seq<char>) -> bool {
    exists|i: int| 0 <= i < list.len() - 1 && #[trigger] list[i] == option && list[i + 1] == value
}

/// A console that was just opened shows no error, waits for nothing, has cast nothing and knows no
/// token, and so asks for nothing. It expects the bridge on this machine, shows the start of the
/// time, and has the ordinary speed chosen.
pub proof fn lemma_opened(now: u64, later: u64)
    ensures
        opened(now).endpoint == "http://127.0.0.1:47821"@,
        opened(now).position_seconds == 0 && opened(now).duration_seconds == 0,
        opened(now).position_text == clock_of(0) && opened(now).duration_text == clock_of(0),
        opened(now).rate_index < speed_list().len(),
        speed_list()[opened(now).rate_index as int].1 == "1"@,
        !opened(now).status_is_error && !opened(now).busy && !opened(now).has_session,
        opened(now).devices.len() == 0 && opened(now).token.len() == 0,
        refreshing(opened(now)).1 is None,
        casting(opened(now)).1 is None,
        polling(opened(now), later).1 is None,
{
    assert(trimmed(opened(now).token).len() == 0);
    lemma_clock_of(0, 0, 0);
    reveal_strlit("00:00:00");
    reveal_strlit(":");
    assert(decimal(0) =~= seq!['0']);
    assert(two_digits(0) =~= seq!['0', '0']);
    assert(clock_of(0) =~= "00:00:00"@);
}

/// A decimal number that is `p / q` in lowest terms asks for that.
proof fn lemma_one_speed(whole: nat, decimals: Seq<char>, g: nat, p: nat, q: nat)
    requires
        all_digits(decimals),
        0 < decimals.len() <= 6,
        0 < whole * ten_to(decimals.len()) + digits_value(decimals) <= u64::MAX,
        gcd(whole * ten_to(decimals.len()) + digits_value(decimals), ten_to(decimals.len())) == g,
        (whole * ten_to(decimals.len()) + digits_value(decimals)) / g == p,
        ten_to(decimals.len()) / g == q,
    ensures
        play_speed(decimal(whole) + "."@ + decimals) == Ok::<Seq<char>, SpeedError>(
            if q == 1 {
                decimal(p)
            } else {
                decimal(p) + "/"@ + decimal(q)
            },
        ),
{
    lemma_decimal_is_reduced(whole, decimals);
    reveal_strlit("/");
    assert("/"@ =~= seq!['/']);
}

/// What is asked of the renderer for each speed that can be chosen is the number that is shown,
/// before the sign, as the renderer reads it.
pub proof fn lemma_speeds_are_what_they_show()
    ensures
        speed_list().len() == 6,
        play_speed("0.5"@) == Ok::<Seq<char>, SpeedError>(speed_list()[0].1),
        speed_list()[0].0 == "0.5"@ + "×"@,
        play_speed("0.75"@) == Ok::<Seq<char>, SpeedError>(speed_list()[1].1),
        speed_list()[1].0 == "0.75"@ + "×"@,
        play_speed("1.0"@) == Ok::<Seq<char>, SpeedError>(speed_list()[2].1),
        speed_list()[2].0 == "1.0"@ + "×"@,
        play_speed("1.25"@) == Ok::<Seq<char>, SpeedError>(speed_list()[3].1),
        speed_list()[3].0 == "1.25"@ + "×"@,
        play_speed("1.5"@) == Ok::<Seq<char>, SpeedError>(speed_list()[4].1),
        speed_list()[4].0 == "1.5"@ + "×"@,
        play_speed("2.0"@) == Ok::<Seq<char>, SpeedError>(speed_list()[5].1),
        speed_list()[5].0 == "2.0"@ + "×"@,
{
    lemma_labels();
    lemma_small_numbers();
    lemma_written_speeds();
    lemma_digit_pairs();
    assert(gcd(5, 10) == 5 && gcd(75, 100) == 25 && gcd(10, 10) == 10 && gcd(125, 100) == 25
        && gcd(15, 10) == 5 && gcd(20, 10) == 10) by {
        reveal_with_fuel(gcd, 5);
    }
    lemma_one_speed(0, seq!['5'], 5, 1, 2);
    lemma_one_speed(0, seq!['7', '5'], 25, 3, 4);
    lemma_one_speed(1, seq!['0'], 10, 1, 1);
    lemma_one_speed(1, seq!['2', '5'], 25, 5, 4);
    lemma_one_speed(1, seq!['5'], 5, 3, 2);
    lemma_one_speed(2, seq!['0'], 10, 2, 1);
}

/// The numbers of one digit.
proof fn lemma_small_numbers()
    ensures
        decimal(0) == "0"@,
        decimal(1) == "1"@,
        decimal(2) == "2"@,
        decimal(3) == "3"@,
        decimal(4) == "4"@,
        decimal(5) == "5"@,
{
    reveal_strlit("0");
    reveal_strlit("1");
    reveal_strlit("2");
    reveal_strlit("3");
    reveal_strlit("4");
    reveal_strlit("5");
    assert(decimal(0) =~= "0"@);
    assert(decimal(1) =~= "1"@);
    assert(decimal(2) =~= "2"@);
    assert(decimal(3) =~= "3"@);
    assert(decimal(4) =~= "4"@);
    assert(decimal(5) =~= "5"@);
}

/// How the speeds are written.
proof fn lemma_written_speeds()
    ensures
        "0.5"@ == "0"@ + "."@ + seq!['5'],
        "0.75"@ == "0"@ + "."@ + seq!['7', '5'],
        "1.0"@ == "1"@ + "."@ + seq!['0'],
        "1.25"@ == "1"@ + "."@ + seq!['2', '5'],
        "1.5"@ == "1"@ + "."@ + seq!['5'],
        "2.0"@ == "2"@ + "."@ + seq!['0'],
        "1/2"@ == "1"@ + "/"@ + "2"@,
        "3/4"@ == "3"@ + "/"@ + "4"@,
        "5/4"@ == "5"@ + "/"@ + "4"@,
        "3/2"@ == "3"@ + "/"@ + "2"@,
{
    reveal_strlit("0");
    reveal_strlit("1");
    reveal_strlit("2");
    reveal_strlit("3");
    reveal_strlit("4");
    reveal_strlit("5");
    reveal_strlit(".");
    reveal_strlit("/");
    reveal_strlit("0.5");
    reveal_strlit("0.75");
    reveal_strlit("1.0");
    reveal_strlit("1.25");
    reveal_strlit("1.5");
    reveal_strlit("2.0");
    reveal_strlit("1/2");
    reveal_strlit("3/4");
    reveal_strlit("5/4");
    reveal_strlit("3/2");
    assert("0.5"@ =~= "0"@ + "."@ + seq!['5']);
    assert("0.75"@ =~= "0"@ + "."@ + seq!['7', '5']);
    assert("1.0"@ =~= "1"@ + "."@ + seq!['0']);
    assert("1.25"@ =~= "1"@ + "."@ + seq!['2', '5']);
    assert("1.5"@ =~= "1"@ + "."@ + seq!['5']);
    assert("2.0"@ =~= "2"@ + "."@ + seq!['0']);
    assert("1/2"@ =~= "1"@ + "/"@ + "2"@);
    assert("3/4"@ =~= "3"@ + "/"@ + "4"@);
    assert("5/4"@ =~= "5"@ + "/"@ + "4"@);
    assert("3/2"@ =~= "3"@ + "/"@ + "2"@);
}

/// How the speeds are shown.
proof fn lemma_labels()
    ensures
        "0.5×"@ == "0.5"@ + "×"@,
        "0.75×"@ == "0.75"@ + "×"@,
        "1.0×"@ == "1.0"@ + "×"@,
        "1.25×"@ == "1.25"@ + "×"@,
        "1.5×"@ == "1.5"@ + "×"@,
        "2.0×"@ == "2.0"@ + "×"@,
{
    reveal_strlit("×");
    reveal_strlit("0.5");
    reveal_strlit("0.75");
    reveal_strlit("1.0");
    reveal_strlit("1.25");
    reveal_strlit("1.5");
    reveal_strlit("2.0");
    reveal_strlit("0.5×");
    reveal_strlit("0.75×");
    reveal_strlit("1.0×");
    reveal_strlit("1.25×");
    reveal_strlit("1.5×");
    reveal_strlit("2.0×");
    assert("0.5×"@ =~= "0.5"@ + "×"@);
    assert("0.75×"@ =~= "0.75"@ + "×"@);
    assert("1.0×"@ =~= "1.0"@ + "×"@);
    assert("1.25×"@ =~= "1.25"@ + "×"@);
    assert("1.5×"@ =~= "1.5"@ + "×"@);
    assert("2.0×"@ =~= "2.0"@ + "×"@);
}

/// What one and two digits write.
proof fn lemma_digit_pairs()
    ensures
        forall|c: char| is_digit(c) ==> #[trigger] digits_value(seq![c]) == digit_value(c),
        digits_value(seq!['7', '5']) == 75,
        digits_value(seq!['2', '5']) == 25,
        ten_to(1) == 10,
        ten_to(2) == 100,
{
    assert forall|c: char| is_digit(c) implies #[trigger] digits_value(seq![c]) == digit_value(
        c,
    ) by {
        assert(seq![c].drop_last() =~= Seq::<char>::empty());
        assert(digits_value(seq![c].drop_last()) == 0);
    }
    assert(seq!['7', '5'].drop_last() =~= seq!['7']);
    assert(seq!['2', '5'].drop_last() =~= seq!['2']);
    assert(digits_value(seq!['7']) == 7);
    assert(digits_value(seq!['2']) == 2);
    reveal_with_fuel(ten_to, 3);
}

} // verus!
