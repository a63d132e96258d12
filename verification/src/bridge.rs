//! The bridge: an interface on this machine through which other programs cast.

use vstd::prelude::*;

use crate::cast::{
    in_turn, job_after_all, lemma_aim_is_kept, lemma_files_are_served, CastError, CastFault,
    CastJob, CastStage, EventModel, JobModel,
};
use crate::device::{Device, DeviceModel, ServiceModel};
use crate::listing::{device_host, device_views, host_or};
use crate::media::{is_token, opt_str, random_token, TransferSnapshot};
use crate::number::{
    decimal, lemma_digits_are_decimal, lemma_parse_decimal, lemma_parse_too_large, parse_number,
    read_number, two_digits, NumberError,
};
use crate::playback::{
    checked_upnp_time, clock_of, lemma_clock_of, lemma_time_round_trip, reported_seconds,
};
use crate::select::{select_index, selects, SelectFault};
use crate::soap::{
    plain_request, play_request, seek_request, volume_request, DlnaClient, PositionInfo,
    RequestModel, SoapError, SoapRequest,
};
use crate::text::{chars_of, same_text, trim_text, trimmed};
use crate::weburl::opt_text;

verus! {

/// What the bridge replies to a request that it has carried out, or to one that it has not.
#[derive(Debug, PartialEq, Eq)]
pub struct ApiResult {
    pub ok: bool,
    pub message: String,
}

/// Why the bridge does not carry out a request.
#[derive(Debug, PartialEq, Eq)]
pub struct ApiError {
    /// The status of the reply.
    pub status: u16,
    pub message: String,
}

/// What an `ApiError` holds.
pub struct ApiFault {
    pub status: u16,
    pub message: Seq<char>,
}

impl View for ApiError {
    type V = ApiFault;

    open spec fn view(&self) -> ApiFault {
        ApiFault { status: self.status, message: self.message@ }
    }
}

/// The request does not hold the token.
pub open spec fn unauthorized() -> ApiFault {
    ApiFault { status: 401, message: "invalid or missing bridge token"@ }
}

/// The request asks for what cannot be done.
pub open spec fn bad_request(message: Seq<char>) -> ApiFault {
    ApiFault { status: 400, message }
}

/// What the request asks for was tried and failed.
pub open spec fn internal(message: Seq<char>) -> ApiFault {
    ApiFault { status: 500, message }
}

impl ApiError {
    /// The request does not hold the token.
    pub fn unauthorized() -> (out: ApiError)
        ensures
            out@ == unauthorized(),
    {
        ApiError { status: 401, message: "invalid or missing bridge token".to_owned() }
    }

    /// The request asks for what cannot be done.
    pub fn bad_request(message: String) -> (out: ApiError)
        ensures
            out@ == bad_request(message@),
    {
        ApiError { status: 400, message }
    }

    /// What the request asks for was tried and failed.
    pub fn internal(message: String) -> (out: ApiError)
        ensures
            out@ == internal(message@),
    {
        ApiError { status: 500, message }
    }

    /// The body of the reply.
    pub fn into_result(self) -> (out: ApiResult)
        ensures
            !out.ok,
            out.message@ == self@.message,
    {
        ApiResult { ok: false, message: self.message }
    }
}

/// The reply to a request that asks whether the bridge is there.
pub fn health(version: &str) -> (out: ApiResult)
    ensures
        out.ok,
        out.message@ == "xscreen "@ + version@,
{
    let mut message = "xscreen ".to_owned();
    message.append(version);
    ApiResult { ok: true, message }
}

/// A renderer as it is listed for other programs.
#[derive(Debug, PartialEq, Eq)]
pub struct DeviceView {
    /// Its number in the list, from one on.
    pub index: usize,
    pub friendly_name: String,
    pub manufacturer: String,
    pub model_name: String,
    /// Its host, empty if it has none.
    pub address: String,
}

/// What a `DeviceView` holds.
pub struct ListedModel {
    pub index: nat,
    pub friendly_name: Seq<char>,
    pub manufacturer: Seq<char>,
    pub model_name: Seq<char>,
    pub address: Seq<char>,
}

impl View for DeviceView {
    type V = ListedModel;

    open spec fn view(&self) -> ListedModel {
        ListedModel {
            index: self.index as nat,
            friendly_name: self.friendly_name@,
            manufacturer: self.manufacturer@,
            model_name: self.model_name@,
            address: self.address@,
        }
    }
}

/// `device` with the number `index`.
pub open spec fn listed(index: nat, device: DeviceModel) -> ListedModel {
    ListedModel {
        index,
        friendly_name: device.friendly_name,
        manufacturer: device.manufacturer,
        model_name: device.model_name,
        address: host_or(device.location.host, ""@),
    }
}

impl DeviceView {
    /// `device` with the number `index`.
    pub fn from_device(index: usize, device: &Device) -> (out: DeviceView)
        ensures
            out@ == listed(index as nat, device@),
    {
        DeviceView {
            index,
            friendly_name: device.friendly_name.clone(),
            manufacturer: device.manufacturer.clone(),
            model_name: device.model_name.clone(),
            address: device_host(device, ""),
        }
    }
}

/// The list of `devices`, numbered from one on.
pub fn list_devices(devices: &[Device]) -> (out: Vec<DeviceView>)
    ensures
        out@.len() == devices@.len(),
        forall|i: int|
            0 <= i < out@.len() ==> (#[trigger] out@[i])@ == listed(
                (i + 1) as nat,
                devices@[i]@,
            ),
{
    let mut out: Vec<DeviceView> = Vec::new();
    let mut i: usize = 0;
    while i < devices.len()
        invariant
            i <= devices@.len(),
            out@.len() == i,
            forall|k: int|
                0 <= k < i ==> (#[trigger] out@[k])@ == listed((k + 1) as nat, devices@[k]@),
        decreases devices@.len() - i,
    {
        out.push(DeviceView::from_device(i + 1, &devices[i]));
        i += 1;
    }
    out
}

/// A request to cast `source` to the renderer that `device` selects.
#[derive(Debug, PartialEq, Eq)]
pub struct CastRequest {
    pub source: String,
    pub device: String,
}

/// A request to control playback.
#[derive(Debug, PartialEq, Eq)]
pub struct ControlRequest {
    pub action: String,
    pub value: Option<String>,
}

/// How far the playback of a cast source has come.
#[derive(Debug, PartialEq, Eq)]
pub struct PlaybackStatus {
    pub position: String,
    pub duration: String,
    pub position_seconds: u64,
    pub duration_seconds: u64,
    pub source: String,
    pub device_name: String,
    /// How much of a served file has been sent.
    pub bytes_sent: Option<u64>,
    /// How large the served file is.
    pub file_size: Option<u64>,
}

/// What a `PlaybackStatus` holds.
pub struct StatusModel {
    pub position: Seq<char>,
    pub duration: Seq<char>,
    pub position_seconds: nat,
    pub duration_seconds: nat,
    pub source: Seq<char>,
    pub device_name: Seq<char>,
    pub bytes_sent: Option<u64>,
    pub file_size: Option<u64>,
}

impl View for PlaybackStatus {
    type V = StatusModel;

    open spec fn view(&self) -> StatusModel {
        StatusModel {
            position: self.position@,
            duration: self.duration@,
            position_seconds: self.position_seconds as nat,
            duration_seconds: self.duration_seconds as nat,
            source: self.source@,
            device_name: self.device_name@,
            bytes_sent: self.bytes_sent,
            file_size: self.file_size,
        }
    }
}

/// What an error of casting is to a program that asked for it.
pub open spec fn cast_fault(e: CastFault) -> ApiFault {
    match e {
        CastFault::NotFound(_) => bad_request(
            "source is neither an existing file nor a valid media URL"@,
        ),
        CastFault::UnsupportedScheme => bad_request(
            "only local files and HTTP(S) media URLs are supported"@,
        ),
        CastFault::Serve(cause) => internal(cause),
        CastFault::Load(cause) => internal(cause),
        CastFault::Start(cause) => internal(cause),
    }
}

/// What an error of casting is to a program that asked for it.
pub fn cast_error(e: CastError) -> (out: ApiError)
    ensures
        out@ == cast_fault(e@),
{
    match e {
        CastError::NotFound(_) => ApiError::bad_request(
            "source is neither an existing file nor a valid media URL".to_owned(),
        ),
        CastError::UnsupportedScheme => ApiError::bad_request(
            "only local files and HTTP(S) media URLs are supported".to_owned(),
        ),
        CastError::Serve(cause) => ApiError::internal(cause),
        CastError::Load(cause) => ApiError::internal(cause),
        CastError::Start(cause) => ApiError::internal(cause),
    }
}

/// Begins to cast what `request` asks for to the one of `devices` that it selects. The white
/// space around the selector and the source does not count.
pub fn open_cast(devices: &[Device], request: &CastRequest) -> (out: Result<CastJob, ApiError>)
    ensures
        match out {
            Ok(job) => exists|i: int|
                #![trigger devices@[i]]
                {
                    &&& 0 <= i < devices@.len()
                    &&& selects(Ok(i), device_views(devices@), trimmed(request.device@))
                    &&& job@ == (JobModel {
                        device: devices@[i]@,
                        source: trimmed(request.source@),
                        autoplay: true,
                        served: false,
                        stage: CastStage::Probing,
                    })
                },
            Err(e) => exists|fault: SelectFault|
                {
                    &&& #[trigger] selects(
                        Err(fault),
                        device_views(devices@),
                        trimmed(request.device@),
                    )
                    &&& e@ == bad_request(fault.text())
                },
        },
{
    let selector = trim_text(request.device.as_str());
    match select_index(devices, selector.as_str()) {
        Ok(i) => {
            assert(selects(Ok(i as int), device_views(devices@), trimmed(request.device@)));
            let source = trim_text(request.source.as_str());
            Ok(CastJob::new(devices[i].clone(), source, true))
        },
        Err(e) => {
            assert(selects(Err(e@), device_views(devices@), trimmed(request.device@)));
            Err(ApiError::bad_request(e.message()))
        },
    }
}

/// The request that a control action becomes, or why it cannot be carried out. An action whose
/// value is missing is treated as if it were empty.
pub open spec fn control_outcome(
    device: DeviceModel,
    action: Seq<char>,
    value: Seq<char>,
) -> Result<RequestModel, ApiFault> {
    if action == "play"@ {
        Ok(play_request(device, "1"@))
    } else if action == "pause"@ {
        Ok(plain_request(device, "Pause"@))
    } else if action == "stop"@ {
        Ok(plain_request(device, "Stop"@))
    } else if action == "seek"@ {
        if value.len() > 0 {
            Ok(seek_request(device, value))
        } else {
            Err(bad_request("control value is required"@))
        }
    } else if action == "rate"@ {
        if value.len() > 0 {
            Ok(play_request(device, value))
        } else {
            Err(bad_request("control value is required"@))
        }
    } else if action == "volume"@ {
        volume_outcome(device, value)
    } else {
        Err(bad_request("unknown control action"@))
    }
}

/// The request that sets the volume to `value`, or why it cannot be set.
pub open spec fn volume_outcome(device: DeviceModel, value: Seq<char>) -> Result<
    RequestModel,
    ApiFault,
> {
    match parse_number(value, u8::MAX as nat) {
        Ok(volume) => if volume <= 100 {
            match device.rendering_control {
                Some(service) => Ok(volume_request(service, volume as u8)),
                None => Err(internal(SoapError::NoRenderingControl.text())),
            }
        } else {
            Err(bad_request("volume must be between 0 and 100"@))
        },
        Err(_) => Err(bad_request("volume must be between 0 and 100"@)),
    }
}

/// The value of a control request, empty if it is missing.
pub open spec fn value_or_empty(value: Option<Seq<char>>) -> Seq<char> {
    match value {
        Some(value) => value,
        None => seq![],
    }
}

/// The view of a request to a renderer or an error.
pub open spec fn request_view(out: Result<SoapRequest, ApiError>) -> Result<
    RequestModel,
    ApiFault,
> {
    match out {
        Ok(request) => Ok(request@),
        Err(e) => Err(e@),
    }
}

/// A text, or `00:00:00` in place of a missing one.
pub open spec fn time_or_start(time: Option<Seq<char>>) -> Seq<char> {
    match time {
        Some(time) => time,
        None => "00:00:00"@,
    }
}

/// A text, or `00:00:00` in place of a missing one.
fn time_text(time: Option<String>) -> (out: String)
    ensures
        out@ == time_or_start(opt_text(time)),
{
    match time {
        Some(time) => time,
        None => "00:00:00".to_owned(),
    }
}

/// What was cast last.
#[derive(Debug)]
pub struct BridgeSession {
    client: DlnaClient,
    source: String,
    device_name: String,
    served: bool,
}

/// What a `BridgeSession` holds.
pub struct SessionModel {
    pub device: DeviceModel,
    pub source: Seq<char>,
    pub device_name: Seq<char>,
    /// Whether the source is a file that is served.
    pub served: bool,
}

impl View for BridgeSession {
    type V = SessionModel;

    closed spec fn view(&self) -> SessionModel {
        SessionModel {
            device: self.client@,
            source: self.source@,
            device_name: self.device_name@,
            served: self.served,
        }
    }
}

impl Clone for BridgeSession {
    fn clone(&self) -> (out: Self)
        ensures
            out == *self,
    {
        BridgeSession {
            client: self.client.clone(),
            source: self.source.clone(),
            device_name: self.device_name.clone(),
            served: self.served,
        }
    }
}

/// The status of a session, from what the renderer said of its position and from the counters of
/// the served file if it serves one.
pub open spec fn status_of(
    session: SessionModel,
    position: Seq<char>,
    duration: Seq<char>,
    snapshot: Option<TransferSnapshot>,
) -> StatusModel {
    StatusModel {
        position,
        duration,
        position_seconds: reported_seconds(position),
        duration_seconds: reported_seconds(duration),
        source: session.source,
        device_name: session.device_name,
        bytes_sent: match snapshot {
            Some(s) => Some(s.bytes_sent),
            None => None,
        },
        file_size: match snapshot {
            Some(s) => Some(s.file_size),
            None => None,
        },
    }
}

impl BridgeSession {
    /// The client of the renderer.
    pub fn client(&self) -> (out: &DlnaClient)
        ensures
            out@ == self@.device,
    {
        &self.client
    }

    /// Whether the source is a file that is served.
    pub fn serves_file(&self) -> (yes: bool)
        ensures
            yes == self@.served,
    {
        self.served
    }

    /// The request to the renderer that `request` becomes.
    pub fn control(&self, request: &ControlRequest) -> (out: Result<SoapRequest, ApiError>)
        ensures
            request_view(out) == control_outcome(
                self@.device,
                request.action@,
                value_or_empty(opt_text(request.value)),
            ),
    {
        let action: &str = request.action.as_str();
        let value = match &request.value {
            Some(value) => value.clone(),
            None => String::new(),
        };
        assert(value@ == value_or_empty(opt_text(request.value)));
        if same_text(action, "play") {
            Ok(self.client.play())
        } else if same_text(action, "pause") {
            Ok(self.client.pause())
        } else if same_text(action, "stop") {
            Ok(self.client.stop())
        } else if same_text(action, "seek") {
            if value.as_str().is_empty() {
                Err(ApiError::bad_request("control value is required".to_owned()))
            } else {
                Ok(self.client.seek(value.as_str()))
            }
        } else if same_text(action, "rate") {
            if value.as_str().is_empty() {
                Err(ApiError::bad_request("control value is required".to_owned()))
            } else {
                Ok(self.client.play_at(value.as_str()))
            }
        } else if same_text(action, "volume") {
            self.set_volume(value.as_str())
        } else {
            Err(ApiError::bad_request("unknown control action".to_owned()))
        }
    }

    /// The request that sets the volume to `value`.
    fn set_volume(&self, value: &str) -> (out: Result<SoapRequest, ApiError>)
        ensures
            request_view(out) == volume_outcome(self@.device, value@),
    {
        match read_number(&chars_of(value), u8::MAX as u64) {
            Ok(volume) => if volume <= 100 {
                match self.client.set_volume(volume as u8) {
                    Ok(request) => Ok(request),
                    Err(e) => Err(ApiError::internal(e.message().to_owned())),
                }
            } else {
                Err(ApiError::bad_request("volume must be between 0 and 100".to_owned()))
            },
            Err(_) => Err(ApiError::bad_request("volume must be between 0 and 100".to_owned())),
        }
    }

    /// The status of the session, from what the renderer said of its position and from the
    /// counters of the served file if it serves one; none if a time does not fit into 64 bits.
    pub fn playback_status(&self, info: PositionInfo, snapshot: Option<TransferSnapshot>) -> (out:
        Option<PlaybackStatus>)
        requires
            snapshot is Some <==> self@.served,
        ensures
            out matches Some(status) ==> {
                &&& status.bytes_sent is Some <==> self@.served
                &&& status.file_size is Some <==> self@.served
            },
            ({
                let position = time_or_start(opt_text(info.position));
                let duration = time_or_start(opt_text(info.duration));
                match out {
                    Some(status) => status@ == status_of(self@, position, duration, snapshot),
                    None => reported_seconds(position) > u64::MAX || reported_seconds(duration)
                        > u64::MAX,
                }
            }),
    {
        let position = time_text(info.position);
        let duration = time_text(info.duration);
        let position_seconds: u64 = match checked_upnp_time(position.as_str()) {
            Some(n) => n,
            None => return None,
        };
        let duration_seconds: u64 = match checked_upnp_time(duration.as_str()) {
            Some(n) => n,
            None => return None,
        };
        Some(
            PlaybackStatus {
                position,
                duration,
                position_seconds,
                duration_seconds,
                source: self.source.clone(),
                device_name: self.device_name.clone(),
                bytes_sent: match snapshot {
                    Some(s) => Some(s.bytes_sent),
                    None => None,
                },
                file_size: match snapshot {
                    Some(s) => Some(s.file_size),
                    None => None,
                },
            },
        )
    }
}

/// The reply to a control request that the renderer granted.
pub fn control_done(request: &ControlRequest) -> (out: ApiResult)
    ensures
        out.ok,
        out.message@ == request.action@ + " command sent"@,
{
    let mut message = request.action.clone();
    message.append(" command sent");
    ApiResult { ok: true, message }
}

/// An address of a machine.
#[derive(Debug, Clone, Copy, PartialEq, Eq)]
pub enum HostAddress {
    /// An IPv4 address, by its octets.
    V4([u8; 4]),
    /// An IPv6 address, by its segments.
    V6([u16; 8]),
}

impl HostAddress {
    /// Whether only programs on the same machine reach the address: `127.0.0.0/8` or `::1`.
    pub open spec fn loopback(self) -> bool {
        match self {
            HostAddress::V4(octets) => octets@[0] == 127,
            HostAddress::V6(segments) => segments@ == seq![0u16, 0, 0, 0, 0, 0, 0, 1],
        }
    }

    /// Whether only programs on the same machine reach the address.
    pub fn is_loopback(&self) -> (yes: bool)
        ensures
            yes == self.loopback(),
    {
        match self {
            HostAddress::V4(octets) => octets[0] == 127,
            HostAddress::V6(segments) => {
                let yes: bool = segments[0] == 0 && segments[1] == 0 && segments[2] == 0
                    && segments[3] == 0 && segments[4] == 0 && segments[5] == 0 && segments[6] == 0
                    && segments[7] == 1;
                assert(yes ==> segments@ == seq![0u16, 0, 0, 0, 0, 0, 0, 1]);
                yes
            },
        }
    }
}

/// The address on which the bridge listens unless another is given.
pub fn default_bridge_address() -> (out: HostAddress)
    ensures
        out matches HostAddress::V4(octets) && octets@ == seq![127u8, 0, 0, 1],
        out.loopback(),
{
    let octets: [u8; 4] = [127, 0, 0, 1];
    assert(octets@ == seq![127u8, 0, 0, 1]);
    HostAddress::V4(octets)
}

/// Why the bridge is not opened.
#[derive(Debug, Clone, Copy, PartialEq, Eq, Structural)]
pub enum BridgeError {
    /// Other machines would reach it.
    NotLoopback,
}

impl BridgeError {
    /// What the error is called in messages.
    pub open spec fn text(self) -> Seq<char> {
        "the browser bridge may only listen on a loopback address"@
    }

    /// The message of the error.
    pub fn message(&self) -> (out: &'static str)
        ensures
            out@ == self.text(),
    {
        "the browser bridge may only listen on a loopback address"
    }
}

/// What the bridge knows: the token that a request has to hold, and what was cast last.
#[derive(Debug)]
pub struct Bridge {
    token: String,
    session: Option<BridgeSession>,
}

/// What a `Bridge` holds.
pub struct BridgeModel {
    pub token: Seq<char>,
    pub session: Option<SessionModel>,
}

impl View for Bridge {
    type V = BridgeModel;

    closed spec fn view(&self) -> BridgeModel {
        BridgeModel {
            token: self.token@,
            session: match self.session {
                Some(session) => Some(session@),
                None => None,
            },
        }
    }
}

/// Whether a request whose authorization header is `header`, if it has one, holds the token.
pub open spec fn authorized(token: Seq<char>, header: Option<Seq<char>>) -> bool {
    header == Some("Bearer "@ + token)
}

/// The session that a request reaches.
pub open spec fn reached(bridge: BridgeModel, header: Option<Seq<char>>) -> Result<
    SessionModel,
    ApiFault,
> {
    if !authorized(bridge.token, header) {
        Err(unauthorized())
    } else {
        match bridge.session {
            Some(session) => Ok(session),
            None => Err(bad_request("no active casting session"@)),
        }
    }
}

/// The session that begins when a job is done.
pub open spec fn session_of(job: JobModel) -> SessionModel {
    SessionModel {
        device: job.device,
        source: job.source,
        device_name: job.device.friendly_name,
        served: job.served,
    }
}

impl Bridge {
    /// A bridge with the given token, through which nothing has been cast.
    pub fn new(token: String) -> (out: Bridge)
        ensures
            out@ == (BridgeModel { token: token@, session: None }),
    {
        Bridge { token, session: None }
    }

    /// A bridge that is to listen on `listen`, with the given token, or with a random one if
    /// none is given.
    pub fn open(listen: &HostAddress, token: Option<String>) -> (out: Result<Bridge, BridgeError>)
        ensures
            match out {
                Ok(bridge) => {
                    &&& listen.loopback()
                    &&& bridge@.session is None
                    &&& match token {
                        Some(given) => bridge@.token == given@,
                        None => is_token(bridge@.token),
                    }
                },
                Err(e) => !listen.loopback() && e == BridgeError::NotLoopback,
            },
    {
        if !listen.is_loopback() {
            return Err(BridgeError::NotLoopback);
        }
        Ok(
            Bridge::new(
                match token {
                    Some(given) => given,
                    None => random_token(),
                },
            ),
        )
    }

    /// The token that a request has to hold.
    pub fn token(&self) -> (out: &str)
        ensures
            out@ == self@.token,
    {
        self.token.as_str()
    }

    /// Admits a request whose authorization header is `header`, if it has one.
    pub fn authorize(&self, header: Option<&str>) -> (out: Result<(), ApiError>)
        ensures
            match out {
                Ok(_) => authorized(self@.token, opt_str(header)),
                Err(e) => !authorized(self@.token, opt_str(header)) && e@ == unauthorized(),
            },
    {
        let mut expected = "Bearer ".to_owned();
        expected.append(self.token.as_str());
        match header {
            Some(value) => if same_text(value, expected.as_str()) {
                Ok(())
            } else {
                Err(ApiError::unauthorized())
            },
            None => Err(ApiError::unauthorized()),
        }
    }

    /// The session that a request reaches.
    pub fn session(&self, header: Option<&str>) -> (out: Result<&BridgeSession, ApiError>)
        ensures
            match out {
                Ok(session) => reached(self@, opt_str(header)) == Ok::<SessionModel, ApiFault>(
                    session@,
                ),
                Err(e) => reached(self@, opt_str(header)) == Err::<SessionModel, ApiFault>(e@),
            },
    {
        match self.authorize(header) {
            Ok(_) => {},
            Err(e) => return Err(e),
        }
        match &self.session {
            Some(session) => Ok(session),
            None => Err(ApiError::bad_request("no active casting session".to_owned())),
        }
    }

    /// Begins the session of a job that is done, in place of the one before, and replies to the
    /// request for it.
    pub fn begin_session(&mut self, job: &CastJob) -> (out: ApiResult)
        requires
            job@.stage == CastStage::Done,
        ensures
            final(self)@ == (BridgeModel {
                token: old(self)@.token,
                session: Some(session_of(job@)),
            }),
            out.ok,
            out.message@ == "casting to "@ + job@.device.friendly_name,
    {
        let device_name = job.client().device().friendly_name.clone();
        let mut message = "casting to ".to_owned();
        message.append(device_name.as_str());
        self.session = Some(
            BridgeSession {
                client: job.client().clone(),
                source: job.source().to_owned(),
                device_name,
                served: job.serves_file(),
            },
        );
        ApiResult { ok: true, message }
    }
}

/// A request that does not hold the token reaches no session and learns nothing of one: it gets
/// the same reply whatever the bridge has cast.
pub proof fn lemma_token_is_required(a: BridgeModel, b: BridgeModel, header: Option<Seq<char>>)
    requires
        !authorized(a.token, header),
        !authorized(b.token, header),
    ensures
        reached(a, header) == Err::<SessionModel, ApiFault>(unauthorized()),
        reached(a, header) == reached(b, header),
{
}

/// No header admits to bridges with different tokens.
pub proof fn lemma_token_is_unique(a: Seq<char>, b: Seq<char>, header: Option<Seq<char>>)
    requires
        authorized(a, header),
        authorized(b, header),
    ensures
        a == b,
{
    let head = "Bearer "@;
    assert((head + a).skip(head.len() as int) == a);
    assert((head + b).skip(head.len() as int) == b);
}

/// A volume that is sent to a renderer is 100 at most, and the one that was asked for.
pub proof fn lemma_volume_is_bounded(device: DeviceModel, value: Seq<char>)
    requires
        control_outcome(device, "volume"@, value) is Ok,
    ensures
        exists|service: ServiceModel, volume: u8|
            {
                &&& device.rendering_control == Some(service)
                &&& volume <= 100
                &&& parse_number(value, u8::MAX as nat) == Ok::<nat, NumberError>(
                    volume as nat,
                )
                &&& control_outcome(device, "volume"@, value) == Ok::<RequestModel, ApiFault>(
                    #[trigger] volume_request(service, volume),
                )
            },
{
    reveal_strlit("play");
    reveal_strlit("pause");
    reveal_strlit("stop");
    reveal_strlit("seek");
    reveal_strlit("rate");
    reveal_strlit("volume");
    assert("volume"@[0] == 'v');
    let volume = parse_number(value, u8::MAX as nat)->Ok_0 as u8;
    assert(volume_request(device.rendering_control->0, volume) == control_outcome(
        device,
        "volume"@,
        value,
    )->Ok_0);
}

/// The session of a job that is done serves a file, and so its status shows counters, exactly if
/// the source was found to be one.
pub proof fn lemma_session_serves_files(job: JobModel, events: Seq<EventModel>)
    requires
        job.stage == CastStage::Probing,
        !job.served,
        in_turn(job, events),
        job_after_all(job, events).stage == CastStage::Done,
    ensures
        session_of(job_after_all(job, events)).served <==> events[0] == EventModel::Probed(true),
        session_of(job_after_all(job, events)).source == job.source,
        session_of(job_after_all(job, events)).device == job.device,
        session_of(job_after_all(job, events)).device_name == job.device.friendly_name,
{
    lemma_files_are_served(job, events);
    lemma_aim_is_kept(job, events);
}

/// What begins the names of the control actions.
proof fn lemma_actions_differ()
    ensures
        "play"@.len() == 4 && "play"@[0] == 'p',
        "pause"@.len() == 5 && "pause"@[0] == 'p',
        "stop"@.len() == 4 && "stop"@[1] == 't' && "stop"@[0] == 's',
        "seek"@.len() == 4 && "seek"@[1] == 'e' && "seek"@[0] == 's',
        "rate"@.len() == 4 && "rate"@[0] == 'r',
        "volume"@.len() == 6,
{
    reveal_strlit("play");
    reveal_strlit("pause");
    reveal_strlit("stop");
    reveal_strlit("seek");
    reveal_strlit("rate");
    reveal_strlit("volume");
}

/// Each control action asks the renderer for what it is named for: to play at the ordinary speed
/// or at the speed that is given, to pause, to stop, or to jump to the time that is given. A time
/// or a speed has to be given, and another action is refused.
pub proof fn lemma_control_actions(device: DeviceModel, value: Seq<char>, other: Seq<char>)
    ensures
        control_outcome(device, "play"@, value) == Ok::<RequestModel, ApiFault>(
            play_request(device, "1"@),
        ),
        control_outcome(device, "pause"@, value) == Ok::<RequestModel, ApiFault>(
            plain_request(device, "Pause"@),
        ),
        control_outcome(device, "stop"@, value) == Ok::<RequestModel, ApiFault>(
            plain_request(device, "Stop"@),
        ),
        value.len() > 0 ==> control_outcome(device, "seek"@, value) == Ok::<
            RequestModel,
            ApiFault,
        >(seek_request(device, value)),
        value.len() > 0 ==> control_outcome(device, "rate"@, value) == Ok::<
            RequestModel,
            ApiFault,
        >(play_request(device, value)),
        value.len() == 0 ==> control_outcome(device, "seek"@, value) is Err && control_outcome(
            device,
            "seek"@,
            value,
        )->Err_0.status == 400,
        value.len() == 0 ==> control_outcome(device, "rate"@, value) is Err && control_outcome(
            device,
            "rate"@,
            value,
        )->Err_0.status == 400,
        other != "play"@ && other != "pause"@ && other != "stop"@ && other != "seek"@ && other
            != "rate"@ && other != "volume"@ ==> control_outcome(device, other, value) is Err
            && control_outcome(device, other, value)->Err_0.status == 400,
{
    lemma_actions_differ();
}

/// A volume of at most 100 is sent to the renderer as it was asked for. A larger number and text
/// that is no number are refused; a renderer without a service for it fails.
pub proof fn lemma_control_volume(device: DeviceModel, n: nat, value: Seq<char>)
    ensures
        n <= 100 && device.rendering_control is Some ==> control_outcome(
            device,
            "volume"@,
            decimal(n),
        ) == Ok::<RequestModel, ApiFault>(
            volume_request(device.rendering_control->0, n as u8),
        ),
        n <= 100 && device.rendering_control is None ==> control_outcome(
            device,
            "volume"@,
            decimal(n),
        ) is Err && control_outcome(device, "volume"@, decimal(n))->Err_0.status == 500,
        n > 100 ==> control_outcome(device, "volume"@, decimal(n)) is Err && control_outcome(
            device,
            "volume"@,
            decimal(n),
        )->Err_0.status == 400,
        parse_number(value, 255) is Err ==> control_outcome(device, "volume"@, value) is Err
            && control_outcome(device, "volume"@, value)->Err_0.status == 400,
{
    lemma_actions_differ();
    if n <= u8::MAX {
        lemma_parse_decimal(n, u8::MAX as nat);
    } else {
        lemma_parse_too_large(n, u8::MAX as nat);
    }
}

/// A source that cannot be cast at all is the fault of the request. What fails while it is cast is
/// not, and the reply says what failed.
pub proof fn lemma_cast_faults(e: CastFault)
    ensures
        e is NotFound || e is UnsupportedScheme <==> cast_fault(e).status == 400,
        e is Serve || e is Load || e is Start <==> cast_fault(e).status == 500,
        e is Serve ==> cast_fault(e).message == e->Serve_0,
        e is Load ==> cast_fault(e).message == e->Load_0,
        e is Start ==> cast_fault(e).message == e->Start_0,
        unauthorized().status == 401,
{
}

/// A renderer is listed with its number, its names and its host, or without an address if it has
/// no host.
pub proof fn lemma_listed(index: nat, device: DeviceModel)
    ensures
        listed(index, device).index == index,
        listed(index, device).friendly_name == device.friendly_name,
        listed(index, device).manufacturer == device.manufacturer,
        listed(index, device).model_name == device.model_name,
        device.location.host is Some ==> listed(index, device).address == device.location.host->0,
        device.location.host is None ==> listed(index, device).address.len() == 0,
{
    reveal_strlit("");
}

/// The status of a session gives the times as the renderer reported them, and their seconds;
/// a time that it did not report is the start. It names the source and the renderer of the
/// session, and counts what was sent of a file exactly if there are counters.
pub proof fn lemma_status(
    session: SessionModel,
    position: Option<Seq<char>>,
    duration: Option<Seq<char>>,
    snapshot: Option<TransferSnapshot>,
)
    ensures
        ({
            let status = status_of(
                session,
                time_or_start(position),
                time_or_start(duration),
                snapshot,
            );
            &&& position is Some ==> status.position == position->0 && status.position_seconds
                == reported_seconds(position->0)
            &&& duration is Some ==> status.duration == duration->0 && status.duration_seconds
                == reported_seconds(duration->0)
            &&& position is None ==> status.position == "00:00:00"@ && status.position_seconds == 0
            &&& duration is None ==> status.duration == "00:00:00"@ && status.duration_seconds == 0
            &&& status.source == session.source
            &&& status.device_name == session.device_name
            &&& snapshot is Some ==> status.bytes_sent == Some(snapshot->0.bytes_sent)
                && status.file_size == Some(snapshot->0.file_size)
            &&& snapshot is None ==> status.bytes_sent is None && status.file_size is None
        }),
{
    lemma_time_round_trip(0);
    lemma_clock_of(0, 0, 0);
    reveal_strlit("00:00:00");
    reveal_strlit(":");
    assert(decimal(0) =~= seq!['0']) by {
        lemma_digits_are_decimal(Seq::empty(), 1, 0);
    }
    assert(two_digits(0) =~= seq!['0', '0']);
    assert(clock_of(0) =~= "00:00:00"@);
}

/// Exactly a header of `Bearer`, a space and the token reaches the session, if there is one; if
/// there is none, that is the fault of the request.
pub proof fn lemma_token_reaches_the_session(bridge: BridgeModel, header: Seq<char>)
    ensures
        reached(bridge, None) is Err && reached(bridge, None)->Err_0.status == 401,
        header == "Bearer "@ + bridge.token && bridge.session is Some ==> reached(
            bridge,
            Some(header),
        ) == Ok::<SessionModel, ApiFault>(bridge.session->0),
        header == "Bearer "@ + bridge.token && bridge.session is None ==> reached(
            bridge,
            Some(header),
        ) is Err && reached(bridge, Some(header))->Err_0.status == 400,
        header != "Bearer "@ + bridge.token ==> reached(bridge, Some(header)) is Err && reached(
            bridge,
            Some(header),
        )->Err_0.status == 401,
{
}

/// The addresses that only programs on the same machine reach are those whose first octet is 127,
/// and the one whose segments are all zero but for the last, which is one.
pub proof fn lemma_loopback(octets: [u8; 4], segments: [u16; 8])
    ensures
        HostAddress::V4(octets).loopback() <==> octets@[0] == 127,
        HostAddress::V6(segments).loopback() <==> segments@[7] == 1 && forall|i: int|
            0 <= i < 7 ==> #[trigger] segments@[i] == 0,
{
    if segments@[7] == 1 && forall|i: int| 0 <= i < 7 ==> #[trigger] segments@[i] == 0 {
        assert(segments@ =~= seq![0u16, 0, 0, 0, 0, 0, 0, 1]);
    }
    if segments@ == seq![0u16, 0, 0, 0, 0, 0, 0, 1] {
        assert(forall|i: int| 0 <= i < 7 ==> #[trigger] segments@[i] == 0);
    }
}

} // verus!
