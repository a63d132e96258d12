//! The actions of a renderer as SOAP requests, and what it replies.

use vstd::prelude::*;

use crate::device::{Device, DeviceModel, Service, ServiceModel};
use crate::number::{decimal, is_digit, lemma_decimal, number_text};
use crate::text::{has_part, lemma_part, lemma_part_of_part, lemma_split_after};
use crate::weburl::opt_text;
use crate::xml::{
    element_text, escape_xml, escaped, is_markup, lemma_escape_round_trip,
    lemma_escaped_has_no_markup, lemma_plain_text_stays, xml_text,
};

verus! {

/// How far playback has come.
#[derive(Debug, PartialEq, Eq)]
pub struct PositionInfo {
    /// How long the media is.
    pub duration: Option<String>,
    /// How much of it has been played.
    pub position: Option<String>,
}

/// A request to a service of a renderer, sent by `POST`.
#[derive(Debug, PartialEq, Eq)]
pub struct SoapRequest {
    /// Where it is sent.
    pub url: String,
    /// The action that it asks for.
    pub action: String,
    /// The header `SOAPAction`.
    pub soap_action: String,
    /// The body, an XML document.
    pub body: String,
}

/// What a `SoapRequest` holds.
pub struct RequestModel {
    pub url: Seq<char>,
    pub action: Seq<char>,
    pub soap_action: Seq<char>,
    pub body: Seq<char>,
}

impl View for SoapRequest {
    type V = RequestModel;

    open spec fn view(&self) -> RequestModel {
        RequestModel {
            url: self.url@,
            action: self.action@,
            soap_action: self.soap_action@,
            body: self.body@,
        }
    }
}

/// An argument of an action: its name, and its value escaped in an element of that name.
pub open spec fn argument_element(name: Seq<char>, value: Seq<char>) -> Seq<char> {
    seq!['<'] + name + seq!['>'] + escaped(value) + "</"@ + name + seq!['>']
}

/// The arguments of an action, one element after the other.
pub open spec fn argument_elements(arguments: Seq<(Seq<char>, Seq<char>)>) -> Seq<char>
    decreases arguments.len(),
{
    if arguments.len() == 0 {
        seq![]
    } else {
        argument_elements(arguments.drop_last()) + argument_element(
            arguments.last().0,
            arguments.last().1,
        )
    }
}

/// The document that asks a service of the type `service_type` for an action.
pub open spec fn envelope(
    service_type: Seq<char>,
    action: Seq<char>,
    arguments: Seq<(Seq<char>, Seq<char>)>,
) -> Seq<char> {
    r#"<?xml version="1.0" encoding="utf-8"?><s:Envelope xmlns:s="http://schemas.xmlsoap.org/soap/envelope/" s:encodingStyle="http://schemas.xmlsoap.org/soap/encoding/"><s:Body><u:"#@
        + action + r#" xmlns:u=""#@ + escaped(service_type) + r#"">"#@ + argument_elements(
        arguments,
    ) + "</u:"@ + action + "></s:Body></s:Envelope>"@
}

/// The views of names and values.
pub open spec fn argument_views(arguments: Seq<(&str, &str)>) -> Seq<(Seq<char>, Seq<char>)> {
    Seq::new(arguments.len(), |i: int| (arguments[i].0@, arguments[i].1@))
}

/// Writes the document that asks a service of the type `service_type` for an action.
pub fn soap_envelope(service_type: &str, action: &str, arguments: &[(&str, &str)]) -> (out: String)
    ensures
        out@ == envelope(service_type@, action@, argument_views(arguments@)),
{
    let mut body =
        r#"<?xml version="1.0" encoding="utf-8"?><s:Envelope xmlns:s="http://schemas.xmlsoap.org/soap/envelope/" s:encodingStyle="http://schemas.xmlsoap.org/soap/encoding/"><s:Body><u:"#.to_owned();
    body.append(action);
    body.append(r#" xmlns:u=""#);
    body.append(escape_xml(service_type).as_str());
    body.append(r#"">"#);
    let ghost head = body@;
    let ghost views = argument_views(arguments@);
    let mut i: usize = 0;
    while i < arguments.len()
        invariant
            i <= arguments@.len(),
            views == argument_views(arguments@),
            body@ == head + argument_elements(views.take(i as int)),
        decreases arguments@.len() - i,
    {
        let (name, value) = arguments[i];
        let ghost before = body@;
        body.push('<');
        body.append(name);
        body.push('>');
        body.append(escape_xml(value).as_str());
        body.append("</");
        body.append(name);
        body.push('>');
        assert(body@ == before + argument_element(name@, value@));
        assert(views.take(i + 1).drop_last() == views.take(i as int));
        assert(views.take(i + 1).last() == (name@, value@));
        assert(body@ == head + argument_elements(views.take(i + 1)));
        i += 1;
    }
    assert(views.take(i as int) == views);
    body.append("</u:");
    body.append(action);
    body.append("></s:Body></s:Envelope>");
    body
}

/// The elements of the first argument come first.
proof fn lemma_first_element(arguments: Seq<(Seq<char>, Seq<char>)>)
    requires
        arguments.len() > 0,
    ensures
        argument_elements(arguments) == argument_element(arguments[0].0, arguments[0].1)
            + argument_elements(arguments.drop_first()),
    decreases arguments.len(),
{
    let rest = arguments.drop_first();
    if rest.len() == 0 {
        assert(arguments.drop_last() == rest);
    } else {
        lemma_first_element(arguments.drop_last());
        assert(arguments.drop_last().drop_first() == rest.drop_last());
        assert(arguments.last() == rest.last());
    }
}

/// Whether the arguments `a` and `b` have the same names.
pub open spec fn same_names(
    a: Seq<(Seq<char>, Seq<char>)>,
    b: Seq<(Seq<char>, Seq<char>)>,
) -> bool {
    a.len() == b.len() && forall|i: int| 0 <= i < a.len() ==> (#[trigger] a[i]).0 == b[i].0
}

/// What precedes the value in the element of an argument.
spec fn opening(name: Seq<char>) -> Seq<char> {
    seq!['<'] + name + seq!['>']
}

/// What follows the bracket after the value in the element of an argument.
spec fn closing(name: Seq<char>) -> Seq<char> {
    seq!['/'] + name + seq!['>']
}

/// The element of an argument, taken apart at the bracket after its value.
proof fn lemma_element_parts(name: Seq<char>, value: Seq<char>, more: Seq<char>)
    ensures
        argument_element(name, value) + more == opening(name) + (escaped(value) + seq!['<'] + (
        closing(name) + more)),
{
    reveal_strlit("</");
    assert("</"@ == seq!['<', '/']);
    assert(argument_element(name, value) + more =~= opening(name) + (escaped(value) + seq!['<'] + (
    closing(name) + more)));
}

/// Texts that begin with an element of the same name are the same only if the values are, and
/// what follows.
proof fn lemma_first_value(
    name: Seq<char>,
    a: Seq<char>,
    b: Seq<char>,
    more_a: Seq<char>,
    more_b: Seq<char>,
)
    requires
        argument_element(name, a) + more_a == argument_element(name, b) + more_b,
    ensures
        a == b,
        more_a == more_b,
{
    lemma_element_parts(name, a, more_a);
    lemma_element_parts(name, b, more_b);
    let (end_a, end_b) = (closing(name) + more_a, closing(name) + more_b);
    let (x, y) = (escaped(a) + seq!['<'] + end_a, escaped(b) + seq!['<'] + end_b);
    let n = opening(name).len() as int;
    assert((opening(name) + x).skip(n) =~= x);
    assert((opening(name) + y).skip(n) =~= y);
    assert(x == y);
    assert forall|k: int| 0 <= k < escaped(a).len() implies escaped(a)[k] != '<' by {
        lemma_escaped_has_no_markup(a);
    }
    assert forall|k: int| 0 <= k < escaped(b).len() implies escaped(b)[k] != '<' by {
        lemma_escaped_has_no_markup(b);
    }
    lemma_split_after(escaped(a), '<', end_a);
    lemma_split_after(escaped(b), '<', end_b);
    assert(escaped(a) == escaped(b) && end_a == end_b);
    lemma_escape_round_trip(a);
    lemma_escape_round_trip(b);
    assert(end_a.skip(closing(name).len() as int) =~= more_a);
    assert(end_b.skip(closing(name).len() as int) =~= more_b);
}

/// Arguments with the same names and other values have other elements.
proof fn lemma_elements_are_faithful(
    a: Seq<(Seq<char>, Seq<char>)>,
    b: Seq<(Seq<char>, Seq<char>)>,
)
    requires
        same_names(a, b),
        argument_elements(a) == argument_elements(b),
    ensures
        a == b,
    decreases a.len(),
{
    if a.len() > 0 {
        let (rest_a, rest_b) = (a.drop_first(), b.drop_first());
        lemma_first_element(a);
        lemma_first_element(b);
        assert(a[0].0 == b[0].0);
        lemma_first_value(
            a[0].0,
            a[0].1,
            b[0].1,
            argument_elements(rest_a),
            argument_elements(rest_b),
        );
        assert forall|i: int| 0 <= i < rest_a.len() implies (#[trigger] rest_a[i]).0
            == rest_b[i].0 by {
            assert(a[i + 1].0 == b[i + 1].0);
        }
        lemma_elements_are_faithful(rest_a, rest_b);
        assert(a =~= seq![a[0]] + rest_a);
        assert(b =~= seq![b[0]] + rest_b);
    }
}

/// No value of an argument reaches out of its element: documents that ask for the same action
/// with the same names of arguments are the same only if the values are.
pub proof fn lemma_envelope_is_faithful(
    service_type: Seq<char>,
    action: Seq<char>,
    a: Seq<(Seq<char>, Seq<char>)>,
    b: Seq<(Seq<char>, Seq<char>)>,
)
    requires
        same_names(a, b),
        envelope(service_type, action, a) == envelope(service_type, action, b),
    ensures
        a == b,
{
    let head =
        r#"<?xml version="1.0" encoding="utf-8"?><s:Envelope xmlns:s="http://schemas.xmlsoap.org/soap/envelope/" s:encodingStyle="http://schemas.xmlsoap.org/soap/encoding/"><s:Body><u:"#@
        + action + r#" xmlns:u=""#@ + escaped(service_type) + r#"">"#@;
    let end = "</u:"@ + action + "></s:Body></s:Envelope>"@;
    let (x, y) = (argument_elements(a), argument_elements(b));
    let whole = envelope(service_type, action, a);
    assert(whole == head + x + end);
    assert(whole == head + y + end);
    assert(x.len() == y.len());
    let n = head.len() as int;
    assert((head + x + end).subrange(n, n + x.len()) == x);
    assert((head + y + end).subrange(n, n + y.len()) == y);
    lemma_elements_are_faithful(a, b);
}

/// The request that asks `service` for an action.
pub open spec fn request_to(
    service: ServiceModel,
    action: Seq<char>,
    arguments: Seq<(Seq<char>, Seq<char>)>,
) -> RequestModel {
    RequestModel {
        url: service.control_url,
        action,
        soap_action: seq!['"'] + service.service_type + seq!['#'] + action + seq!['"'],
        body: envelope(service.service_type, action, arguments),
    }
}

/// The request that asks `service` for an action.
pub fn call(service: &Service, action: &str, arguments: &[(&str, &str)]) -> (out: SoapRequest)
    ensures
        out@ == request_to(service@, action@, argument_views(arguments@)),
{
    let mut soap_action = String::new();
    soap_action.push('"');
    soap_action.append(service.service_type.as_str());
    soap_action.push('#');
    soap_action.append(action);
    soap_action.push('"');
    assert(soap_action@ == seq!['"'] + service@.service_type + seq!['#'] + action@ + seq!['"']);
    SoapRequest {
        url: service.control_url.clone(),
        action: action.to_owned(),
        soap_action,
        body: soap_envelope(service.service_type.as_str(), action, arguments),
    }
}

/// The type of the body of a request.
pub fn content_type() -> (out: &'static str)
    ensures
        out@ == "text/xml; charset=\"utf-8\""@,
{
    "text/xml; charset=\"utf-8\""
}

/// What a renderer's refusal is called in messages. It gives a code and a description, or its
/// status stands for the code.
pub open spec fn fault_text(
    action: Seq<char>,
    code: Option<Seq<char>>,
    status: Seq<char>,
    description: Option<Seq<char>>,
) -> Seq<char> {
    "DLNA "@ + action + " failed: "@ + (match code {
        Some(code) => code,
        None => status,
    }) + " "@ + (match description {
        Some(description) => description,
        None => "unknown UPnP error"@,
    })
}

/// The message of a renderer's refusal.
pub fn fault_message(
    action: &str,
    code: Option<String>,
    status: &str,
    description: Option<String>,
) -> (out: String)
    ensures
        out@ == fault_text(action@, opt_text(code), status@, opt_text(description)),
{
    let mut out = "DLNA ".to_owned();
    out.append(action);
    out.append(" failed: ");
    match code {
        Some(code) => out.append(code.as_str()),
        None => out.append(status),
    }
    out.append(" ");
    match description {
        Some(description) => out.append(description.as_str()),
        None => out.append("unknown UPnP error"),
    }
    out
}

/// Whether a reply with the status `status` grants the request.
pub open spec fn granted(status: u16) -> bool {
    200 <= status < 300
}

/// Reads the reply to an action: the status as a number and as text, and the body.
pub fn read_reply(action: &str, status: u16, status_text: &str, body: String) -> (out: Result<
    String,
    String,
>)
    ensures
        match out {
            Ok(text) => granted(status) && text@ == body@,
            Err(message) => !granted(status) && message@ == fault_text(
                action@,
                text_named(body@, "errorCode"@),
                status_text@,
                text_named(body@, "errorDescription"@),
            ),
        },
{
    if 200 <= status && status < 300 {
        Ok(body)
    } else {
        let code = text_in(body.as_str(), "errorCode");
        let description = text_in(body.as_str(), "errorDescription");
        Err(fault_message(action, code, status_text, description))
    }
}

/// What it is called in messages that a request could not be sent.
pub open spec fn unsent_text(action: Seq<char>) -> Seq<char> {
    "DLNA "@ + action + " request failed"@
}

/// The message that a request could not be sent.
pub fn unsent_message(action: &str) -> (out: String)
    ensures
        out@ == unsent_text(action@),
{
    let mut out = "DLNA ".to_owned();
    out.append(action);
    out.append(" request failed");
    out
}

/// What it is called in messages that the body of a reply could not be read.
pub open spec fn unread_text(action: Seq<char>) -> Seq<char> {
    "failed to read the DLNA "@ + action + " response"@
}

/// The message that the body of a reply could not be read.
pub fn unread_message(action: &str) -> (out: String)
    ensures
        out@ == unread_text(action@),
{
    let mut out = "failed to read the DLNA ".to_owned();
    out.append(action);
    out.append(" response");
    out
}

/// The text in the first element of the document `xml` with the local name `name`.
pub open spec fn text_named(xml: Seq<char>, name: Seq<char>) -> Option<Seq<char>> {
    element_text(xml, vstd::utf8::encode_utf8(name))
}

/// The text in the first element of `xml` with the local name `name`.
fn text_in(xml: &str, name: &str) -> (out: Option<String>)
    ensures
        opt_text(out) == text_named(xml@, name@),
{
    xml_text(xml, name.as_bytes())
}

/// Reads how far playback has come from the reply to `position`.
pub fn read_position(body: &str) -> (out: PositionInfo)
    ensures
        opt_text(out.duration) == text_named(body@, "TrackDuration"@),
        opt_text(out.position) == text_named(body@, "RelTime"@),
{
    PositionInfo { duration: text_in(body, "TrackDuration"), position: text_in(body, "RelTime") }
}

/// Why an action cannot be asked for.
#[derive(Debug, Clone, Copy, PartialEq, Eq, Structural)]
pub enum SoapError {
    /// The renderer has no service for it.
    NoRenderingControl,
}

impl SoapError {
    /// What the error is called in messages.
    pub open spec fn text(self) -> Seq<char> {
        "this device has no RenderingControl service"@
    }

    /// The message of the error.
    pub fn message(&self) -> (out: &'static str)
        ensures
            out@ == self.text(),
    {
        "this device has no RenderingControl service"
    }
}

/// Makes the requests that control one renderer.
#[derive(Debug)]
pub struct DlnaClient {
    device: Device,
}

impl View for DlnaClient {
    type V = DeviceModel;

    closed spec fn view(&self) -> DeviceModel {
        self.device@
    }
}

impl Clone for DlnaClient {
    fn clone(&self) -> (out: Self)
        ensures
            out == *self,
    {
        DlnaClient { device: self.device.clone() }
    }
}

/// The argument that every action has.
pub open spec fn instance() -> (Seq<char>, Seq<char>) {
    ("InstanceID"@, "0"@)
}

/// The request that loads the media at `uri`.
pub open spec fn load_request(device: DeviceModel, uri: Seq<char>, metadata: Seq<char>) -> RequestModel {
    request_to(
        device.av_transport,
        "SetAVTransportURI"@,
        seq![instance(), ("CurrentURI"@, uri), ("CurrentURIMetaData"@, metadata)],
    )
}

/// The request that plays at the speed `speed`.
pub open spec fn play_request(device: DeviceModel, speed: Seq<char>) -> RequestModel {
    request_to(device.av_transport, "Play"@, seq![instance(), ("Speed"@, speed)])
}

/// The request that jumps to the time `target`.
pub open spec fn seek_request(device: DeviceModel, target: Seq<char>) -> RequestModel {
    request_to(
        device.av_transport,
        "Seek"@,
        seq![instance(), ("Unit"@, "REL_TIME"@), ("Target"@, target)],
    )
}

/// The request for an action of the transport that has no other argument.
pub open spec fn plain_request(device: DeviceModel, action: Seq<char>) -> RequestModel {
    request_to(device.av_transport, action, seq![instance()])
}

/// The request that sets the volume, where 100 is the loudest.
pub open spec fn volume_request(service: ServiceModel, volume: u8) -> RequestModel {
    request_to(
        service,
        "SetVolume"@,
        seq![
            instance(),
            ("Channel"@, "Master"@),
            (
                "DesiredVolume"@,
                decimal(
                    if volume <= 100 {
                        volume as nat
                    } else {
                        100
                    },
                ),
            ),
        ],
    )
}

impl DlnaClient {
    /// A client of `device`.
    pub fn new(device: Device) -> (out: DlnaClient)
        ensures
            out@ == device@,
    {
        DlnaClient { device }
    }

    /// The renderer that it controls.
    pub fn device(&self) -> (out: &Device)
        ensures
            out@ == self@,
    {
        &self.device
    }

    /// Loads the media at `uri`.
    pub fn set_transport_uri(&self, uri: &str, metadata: &str) -> (out: SoapRequest)
        ensures
            out@ == load_request(self@, uri@, metadata@),
    {
        let arguments: [(&str, &str); 3] = [
            ("InstanceID", "0"),
            ("CurrentURI", uri),
            ("CurrentURIMetaData", metadata),
        ];
        assert(argument_views(arguments@) == seq![
            instance(),
            ("CurrentURI"@, uri@),
            ("CurrentURIMetaData"@, metadata@),
        ]);
        call(&self.device.av_transport, "SetAVTransportURI", &arguments)
    }

    /// Plays at normal speed.
    pub fn play(&self) -> (out: SoapRequest)
        ensures
            out@ == play_request(self@, "1"@),
    {
        self.play_at("1")
    }

    /// Plays at the speed `speed`.
    pub fn play_at(&self, speed: &str) -> (out: SoapRequest)
        ensures
            out@ == play_request(self@, speed@),
    {
        let arguments: [(&str, &str); 2] = [("InstanceID", "0"), ("Speed", speed)];
        assert(argument_views(arguments@) == seq![instance(), ("Speed"@, speed@)]);
        call(&self.device.av_transport, "Play", &arguments)
    }

    /// Asks the transport for an action that has no argument of its own.
    fn plain(&self, action: &str) -> (out: SoapRequest)
        ensures
            out@ == plain_request(self@, action@),
    {
        let arguments: [(&str, &str); 1] = [("InstanceID", "0")];
        assert(argument_views(arguments@) == seq![instance()]);
        call(&self.device.av_transport, action, &arguments)
    }

    /// Pauses playback.
    pub fn pause(&self) -> (out: SoapRequest)
        ensures
            out@ == plain_request(self@, "Pause"@),
    {
        self.plain("Pause")
    }

    /// Stops playback.
    pub fn stop(&self) -> (out: SoapRequest)
        ensures
            out@ == plain_request(self@, "Stop"@),
    {
        self.plain("Stop")
    }

    /// Jumps to the time `target`.
    pub fn seek(&self, target: &str) -> (out: SoapRequest)
        ensures
            out@ == seek_request(self@, target@),
    {
        let arguments: [(&str, &str); 3] = [
            ("InstanceID", "0"),
            ("Unit", "REL_TIME"),
            ("Target", target),
        ];
        assert(argument_views(arguments@) == seq![
            instance(),
            ("Unit"@, "REL_TIME"@),
            ("Target"@, target@),
        ]);
        call(&self.device.av_transport, "Seek", &arguments)
    }

    /// Asks how far playback has come; `read_position` reads the reply.
    pub fn position(&self) -> (out: SoapRequest)
        ensures
            out@ == plain_request(self@, "GetPositionInfo"@),
    {
        self.plain("GetPositionInfo")
    }

    /// Sets the volume, to 100 if `volume` is larger.
    pub fn set_volume(&self, volume: u8) -> (out: Result<SoapRequest, SoapError>)
        ensures
            match (out, self@.rendering_control) {
                (Ok(request), Some(service)) => request@ == volume_request(service, volume),
                (Err(e), None) => e == SoapError::NoRenderingControl,
                _ => false,
            },
    {
        let service: &Service = match &self.device.rendering_control {
            Some(service) => service,
            None => return Err(SoapError::NoRenderingControl),
        };
        let desired = number_text(
            if volume <= 100 {
                volume as u64
            } else {
                100
            },
        );
        let arguments: [(&str, &str); 3] = [
            ("InstanceID", "0"),
            ("Channel", "Master"),
            ("DesiredVolume", desired.as_str()),
        ];
        assert(argument_views(arguments@) == seq![
            instance(),
            ("Channel"@, "Master"@),
            ("DesiredVolume"@, desired@),
        ]);
        Ok(call(service, "SetVolume", &arguments))
    }
}

/// The element of each argument is a part of the elements of all of them.
proof fn lemma_element_is_part(arguments: Seq<(Seq<char>, Seq<char>)>, i: int)
    requires
        0 <= i < arguments.len(),
    ensures
        has_part(
            argument_elements(arguments),
            argument_element(arguments[i].0, arguments[i].1),
        ),
    decreases arguments.len(),
{
    let none = Seq::<char>::empty();
    let before = argument_elements(arguments.drop_last());
    let last = argument_element(arguments.last().0, arguments.last().1);
    if i == arguments.len() - 1 {
        lemma_part(before, last, none);
        assert(before + last + none == before + last);
    } else {
        lemma_element_is_part(arguments.drop_last(), i);
        lemma_part(none, before, last);
        assert(none + before + last == before + last);
        lemma_part_of_part(
            argument_elements(arguments),
            before,
            argument_element(arguments[i].0, arguments[i].1),
        );
    }
}

/// Every argument stands in the document that asks for an action: `<name>`, its value escaped,
/// and `</name>`. The action stands there with the type of the service.
pub proof fn lemma_arguments_stand_in_the_envelope(
    service_type: Seq<char>,
    action: Seq<char>,
    arguments: Seq<(Seq<char>, Seq<char>)>,
    i: int,
)
    requires
        0 <= i < arguments.len(),
    ensures
        has_part(
            envelope(service_type, action, arguments),
            "<"@ + arguments[i].0 + ">"@ + escaped(arguments[i].1) + "</"@ + arguments[i].0 + ">"@,
        ),
        has_part(
            envelope(service_type, action, arguments),
            "<u:"@ + action + r#" xmlns:u=""#@ + escaped(service_type) + r#"">"#@,
        ),
        has_part(envelope(service_type, action, arguments), "</u:"@ + action + ">"@),
{
    let start =
        r#"<?xml version="1.0" encoding="utf-8"?><s:Envelope xmlns:s="http://schemas.xmlsoap.org/soap/envelope/" s:encodingStyle="http://schemas.xmlsoap.org/soap/encoding/"><s:Body><u:"#@;
    let lead =
        r#"<?xml version="1.0" encoding="utf-8"?><s:Envelope xmlns:s="http://schemas.xmlsoap.org/soap/envelope/" s:encodingStyle="http://schemas.xmlsoap.org/soap/encoding/"><s:Body>"#@;
    let opening = action + r#" xmlns:u=""#@ + escaped(service_type) + r#"">"#@;
    let inner = argument_elements(arguments);
    let end = "</u:"@ + action + "></s:Body></s:Envelope>"@;
    let whole = envelope(service_type, action, arguments);
    reveal_strlit("<");
    reveal_strlit(">");
    reveal_strlit("<u:");
    reveal_strlit("></s:Body></s:Envelope>");
    reveal_strlit("</s:Body></s:Envelope>");
    reveal_strlit(
        r#"<?xml version="1.0" encoding="utf-8"?><s:Envelope xmlns:s="http://schemas.xmlsoap.org/soap/envelope/" s:encodingStyle="http://schemas.xmlsoap.org/soap/encoding/"><s:Body><u:"#,
    );
    reveal_strlit(
        r#"<?xml version="1.0" encoding="utf-8"?><s:Envelope xmlns:s="http://schemas.xmlsoap.org/soap/envelope/" s:encodingStyle="http://schemas.xmlsoap.org/soap/encoding/"><s:Body>"#,
    );
    assert(start =~= lead + "<u:"@);
    assert(whole =~= (start + opening) + inner + end);
    lemma_part(start + opening, inner, end);
    lemma_element_is_part(arguments, i);
    let element = argument_element(arguments[i].0, arguments[i].1);
    lemma_part_of_part(whole, inner, element);
    assert(element =~= "<"@ + arguments[i].0 + ">"@ + escaped(arguments[i].1) + "</"@
        + arguments[i].0 + ">"@);
    let tag = "<u:"@ + action + r#" xmlns:u=""#@ + escaped(service_type) + r#"">"#@;
    assert(whole =~= lead + tag + (inner + end));
    lemma_part(lead, tag, inner + end);
    let close = "</u:"@ + action + ">"@;
    assert("></s:Body></s:Envelope>"@ =~= ">"@ + "</s:Body></s:Envelope>"@);
    assert(whole =~= (start + opening + inner) + close + "</s:Body></s:Envelope>"@);
    lemma_part(start + opening + inner, close, "</s:Body></s:Envelope>"@);
}

/// An XML element with the name `name` and the text `text`.
pub open spec fn element(name: Seq<char>, text: Seq<char>) -> Seq<char> {
    "<"@ + name + ">"@ + text + "</"@ + name + ">"@
}

/// A request goes to the control URL of the service, names the action with the type of the
/// service between quotation marks, and holds every argument; with other values of the arguments
/// it has another body.
pub proof fn lemma_request_to(
    service: ServiceModel,
    action: Seq<char>,
    a: Seq<(Seq<char>, Seq<char>)>,
    b: Seq<(Seq<char>, Seq<char>)>,
    i: int,
)
    requires
        0 <= i < a.len(),
        same_names(a, b),
    ensures
        request_to(service, action, a).url == service.control_url,
        request_to(service, action, a).action == action,
        request_to(service, action, a).soap_action == "\""@ + service.service_type + "#"@ + action
            + "\""@,
        has_part(request_to(service, action, a).body, element(a[i].0, escaped(a[i].1))),
        has_part(
            request_to(service, action, a).body,
            "<u:"@ + action + r#" xmlns:u=""#@ + escaped(service.service_type) + r#"">"#@,
        ),
        a != b ==> request_to(service, action, a).body != request_to(service, action, b).body,
{
    lemma_arguments_stand_in_the_envelope(service.service_type, action, a, i);
    if request_to(service, action, a).body == request_to(service, action, b).body {
        lemma_envelope_is_faithful(service.service_type, action, a, b);
    }
    reveal_strlit("\"");
    reveal_strlit("#");
    assert(request_to(service, action, a).soap_action =~= "\""@ + service.service_type + "#"@
        + action + "\""@);
}

/// The digits of a number need no escaping.
proof fn lemma_number_is_plain(n: nat)
    ensures
        escaped(decimal(n)) == decimal(n),
{
    lemma_decimal(n);
    assert forall|i: int| 0 <= i < decimal(n).len() implies !is_markup(#[trigger] decimal(n)[i])
        && decimal(n)[i] != '&' by {
        assert(is_digit(decimal(n)[i]));
    }
    lemma_plain_text_stays(decimal(n));
}

/// The request for a volume of at most 100 asks for that very volume, of the channel `Master`;
/// one for more asks for 100. Requests for different volumes of at most 100 have different
/// bodies.
pub proof fn lemma_volume_requests(service: ServiceModel, v: u8, w: u8)
    ensures
        v <= 100 ==> has_part(
            volume_request(service, v).body,
            element("DesiredVolume"@, decimal(v as nat)),
        ),
        v > 100 ==> volume_request(service, v) == volume_request(service, 100),
        v <= 100 && w <= 100 && v != w ==> volume_request(service, v).body != volume_request(
            service,
            w,
        ).body,
        has_part(volume_request(service, v).body, element("Channel"@, "Master"@)),
        has_part(volume_request(service, v).body, element("InstanceID"@, "0"@)),
        volume_request(service, v).url == service.control_url,
        volume_request(service, v).action == "SetVolume"@,
        volume_request(service, v).soap_action == "\""@ + service.service_type + "#SetVolume\""@,
{
    let arguments = |n: nat| seq![
        ("InstanceID"@, "0"@),
        ("Channel"@, "Master"@),
        ("DesiredVolume"@, decimal(n)),
    ];
    let least = |n: u8| if n <= 100 {
        n as nat
    } else {
        100
    };
    let (a, b) = (arguments(least(v)), arguments(least(w)));
    assert(volume_request(service, v) == request_to(service, "SetVolume"@, a));
    assert(volume_request(service, w) == request_to(service, "SetVolume"@, b));
    lemma_request_to(service, "SetVolume"@, a, b, 0);
    lemma_request_to(service, "SetVolume"@, a, b, 1);
    lemma_request_to(service, "SetVolume"@, a, b, 2);
    lemma_number_is_plain(least(v));
    lemma_plain_literals();
    lemma_decimal(least(v));
    lemma_decimal(least(w));
    if v <= 100 && w <= 100 && v != w {
        assert(a[2].1 != b[2].1);
    }
    reveal_strlit("#");
    reveal_strlit("SetVolume");
    reveal_strlit("\"");
    reveal_strlit("#SetVolume\"");
    assert("\""@ + service.service_type + "#"@ + "SetVolume"@ + "\""@ =~= "\""@
        + service.service_type + "#SetVolume\""@);
}

/// The fixed values of arguments need no escaping.
proof fn lemma_plain_literals()
    ensures
        escaped("0"@) == "0"@,
        escaped("Master"@) == "Master"@,
        escaped("REL_TIME"@) == "REL_TIME"@,
{
    reveal_strlit("0");
    reveal_strlit("Master");
    reveal_strlit("REL_TIME");
    lemma_plain_text_stays("0"@);
    lemma_plain_text_stays("Master"@);
    lemma_plain_text_stays("REL_TIME"@);
}

/// The request to play asks the transport to play at the given speed; for other speeds it has
/// other bodies.
pub proof fn lemma_play_requests(device: DeviceModel, a: Seq<char>, b: Seq<char>)
    ensures
        has_part(play_request(device, a).body, element("Speed"@, escaped(a))),
        has_part(play_request(device, a).body, element("InstanceID"@, "0"@)),
        play_request(device, a).url == device.av_transport.control_url,
        play_request(device, a).action == "Play"@,
        a != b ==> play_request(device, a).body != play_request(device, b).body,
{
    let (x, y) = (
        seq![("InstanceID"@, "0"@), ("Speed"@, a)],
        seq![("InstanceID"@, "0"@), ("Speed"@, b)],
    );
    lemma_request_to(device.av_transport, "Play"@, x, y, 0);
    lemma_request_to(device.av_transport, "Play"@, x, y, 1);
    lemma_plain_literals();
    if a != b {
        assert(x[1].1 != y[1].1);
    }
}

/// The request to jump asks the transport for the given time; for other times it has other
/// bodies.
pub proof fn lemma_seek_requests(device: DeviceModel, a: Seq<char>, b: Seq<char>)
    ensures
        has_part(seek_request(device, a).body, element("Target"@, escaped(a))),
        has_part(seek_request(device, a).body, element("Unit"@, "REL_TIME"@)),
        has_part(seek_request(device, a).body, element("InstanceID"@, "0"@)),
        seek_request(device, a).url == device.av_transport.control_url,
        seek_request(device, a).action == "Seek"@,
        a != b ==> seek_request(device, a).body != seek_request(device, b).body,
{
    let (x, y) = (
        seq![("InstanceID"@, "0"@), ("Unit"@, "REL_TIME"@), ("Target"@, a)],
        seq![("InstanceID"@, "0"@), ("Unit"@, "REL_TIME"@), ("Target"@, b)],
    );
    lemma_request_to(device.av_transport, "Seek"@, x, y, 0);
    lemma_request_to(device.av_transport, "Seek"@, x, y, 1);
    lemma_request_to(device.av_transport, "Seek"@, x, y, 2);
    lemma_plain_literals();
    if a != b {
        assert(x[2].1 != y[2].1);
    }
}

/// The request to load media tells the transport its URL and what the media is; for other media
/// it has other bodies.
pub proof fn lemma_load_requests(
    device: DeviceModel,
    uri_a: Seq<char>,
    metadata_a: Seq<char>,
    uri_b: Seq<char>,
    metadata_b: Seq<char>,
)
    ensures
        has_part(
            load_request(device, uri_a, metadata_a).body,
            element("CurrentURI"@, escaped(uri_a)),
        ),
        has_part(
            load_request(device, uri_a, metadata_a).body,
            element("CurrentURIMetaData"@, escaped(metadata_a)),
        ),
        has_part(load_request(device, uri_a, metadata_a).body, element("InstanceID"@, "0"@)),
        load_request(device, uri_a, metadata_a).url == device.av_transport.control_url,
        load_request(device, uri_a, metadata_a).action == "SetAVTransportURI"@,
        uri_a != uri_b || metadata_a != metadata_b ==> load_request(device, uri_a, metadata_a).body
            != load_request(device, uri_b, metadata_b).body,
{
    let (x, y) = (
        seq![instance(), ("CurrentURI"@, uri_a), ("CurrentURIMetaData"@, metadata_a)],
        seq![instance(), ("CurrentURI"@, uri_b), ("CurrentURIMetaData"@, metadata_b)],
    );
    lemma_request_to(device.av_transport, "SetAVTransportURI"@, x, y, 0);
    lemma_request_to(device.av_transport, "SetAVTransportURI"@, x, y, 1);
    lemma_request_to(device.av_transport, "SetAVTransportURI"@, x, y, 2);
    lemma_plain_literals();
    if uri_a != uri_b || metadata_a != metadata_b {
        assert(x[1].1 != y[1].1 || x[2].1 != y[2].1);
    }
}

/// The request for an action without an argument of its own names that action to the transport.
pub proof fn lemma_plain_requests(device: DeviceModel, action: Seq<char>)
    ensures
        plain_request(device, action).url == device.av_transport.control_url,
        plain_request(device, action).action == action,
        has_part(plain_request(device, action).body, element("InstanceID"@, "0"@)),
        has_part(
            plain_request(device, action).body,
            "<u:"@ + action + r#" xmlns:u=""#@ + escaped(device.av_transport.service_type)
                + r#"">"#@,
        ),
{
    let x = seq![instance()];
    lemma_request_to(device.av_transport, action, x, x, 0);
    lemma_plain_literals();
}

/// The message of a refusal gives the code and the description of the renderer; the status stands
/// in for a missing code. A reply grants a request exactly if its status is one of success.
pub proof fn lemma_refusals(
    action: Seq<char>,
    code: Seq<char>,
    status_text: Seq<char>,
    description: Seq<char>,
    status: u16,
)
    ensures
        fault_text(action, Some(code), status_text, Some(description)) == "DLNA "@ + action
            + " failed: "@ + code + " "@ + description,
        fault_text(action, None, status_text, Some(description)) == "DLNA "@ + action
            + " failed: "@ + status_text + " "@ + description,
        fault_text(action, Some(code), status_text, None) == "DLNA "@ + action + " failed: "@ + code
            + " unknown UPnP error"@,
        fault_text(action, None, status_text, None) == "DLNA "@ + action + " failed: "@
            + status_text + " unknown UPnP error"@,
        granted(status) <==> status / 100 == 2,
        unsent_text(action) == "DLNA "@ + action + " request failed"@,
        unread_text(action) == "failed to read the DLNA "@ + action + " response"@,
{
    reveal_strlit(" ");
    reveal_strlit("unknown UPnP error");
    reveal_strlit(" unknown UPnP error");
    assert(" unknown UPnP error"@ =~= " "@ + "unknown UPnP error"@);
    assert(fault_text(action, Some(code), status_text, None) =~= "DLNA "@ + action + " failed: "@
        + code + " unknown UPnP error"@);
    assert(fault_text(action, None, status_text, None) =~= "DLNA "@ + action + " failed: "@
        + status_text + " unknown UPnP error"@);
}

} // verus!
