//! Casting one media source to a renderer, step by step.

use vstd::prelude::*;

use crate::device::{Device, DeviceModel};
use crate::media::{choose_mime, guess_mime, guessed_mime, mime_or};
use crate::soap::{
    element, lemma_load_requests, load_request, play_request, DlnaClient, RequestModel, SoapRequest,
};
use crate::text::{chars_of, has_part, lemma_part, lemma_split_after, starts_with};
use crate::weburl::{http_scheme, opt_text, parsed_url, UrlParts, WebUrl};
use crate::xml::{escape_xml, escaped, lemma_escape_round_trip, lemma_escaped_has_no_markup};

verus! {

/// The class of an item of the media type `mime`.
pub open spec fn item_class(mime: Seq<char>) -> Seq<char> {
    if "audio/"@.is_prefix_of(mime) {
        "object.item.audioItem.musicTrack"@
    } else if "image/"@.is_prefix_of(mime) {
        "object.item.imageItem.photo"@
    } else {
        "object.item.videoItem"@
    }
}

/// What a renderer is told of an item.
pub open spec fn metadata_of(uri: Seq<char>, mime: Seq<char>, title: Seq<char>) -> Seq<char> {
    r#"<DIDL-Lite xmlns="urn:schemas-upnp-org:metadata-1-0/DIDL-Lite/" xmlns:dc="http://purl.org/dc/elements/1.1/" xmlns:upnp="urn:schemas-upnp-org:metadata-1-0/upnp/"><item id="0" parentID="0" restricted="1"><dc:title>"#@
        + escaped(title) + "</dc:title><upnp:class>"@ + item_class(mime)
        + r#"</upnp:class><res protocolInfo="http-get:*:"#@ + escaped(mime) + r#":*">"#@
        + escaped(uri) + "</res></item></DIDL-Lite>"@
}

/// The class of an item of the media type `mime`.
fn class_of(mime: &str) -> (out: &'static str)
    ensures
        out@ == item_class(mime@),
{
    let chars = chars_of(mime);
    if starts_with(&chars, "audio/") {
        "object.item.audioItem.musicTrack"
    } else if starts_with(&chars, "image/") {
        "object.item.imageItem.photo"
    } else {
        "object.item.videoItem"
    }
}

/// Writes what a renderer is told of an item.
pub fn didl_metadata(uri: &str, mime: &str, title: &str) -> (out: String)
    ensures
        out@ == metadata_of(uri@, mime@, title@),
{
    let mut out =
        r#"<DIDL-Lite xmlns="urn:schemas-upnp-org:metadata-1-0/DIDL-Lite/" xmlns:dc="http://purl.org/dc/elements/1.1/" xmlns:upnp="urn:schemas-upnp-org:metadata-1-0/upnp/"><item id="0" parentID="0" restricted="1"><dc:title>"#.to_owned();
    out.append(escape_xml(title).as_str());
    out.append("</dc:title><upnp:class>");
    out.append(class_of(mime));
    out.append(r#"</upnp:class><res protocolInfo="http-get:*:"#);
    out.append(escape_xml(mime).as_str());
    out.append(r#":*">"#);
    out.append(escape_xml(uri).as_str());
    out.append("</res></item></DIDL-Lite>");
    out
}

/// Texts that begin alike, with `x` and `y` after that, in which `c` does not occur, and then go
/// on with `c`, are the same only if `x` and `y` are, and what follows.
proof fn lemma_same_until(
    head: Seq<char>,
    x: Seq<char>,
    y: Seq<char>,
    c: char,
    more_x: Seq<char>,
    more_y: Seq<char>,
)
    requires
        forall|k: int| 0 <= k < x.len() ==> x[k] != c,
        forall|k: int| 0 <= k < y.len() ==> y[k] != c,
        head + (x + seq![c] + more_x) == head + (y + seq![c] + more_y),
    ensures
        x == y,
        more_x == more_y,
{
    let (a, b) = (x + seq![c] + more_x, y + seq![c] + more_y);
    let n = head.len() as int;
    assert((head + a).skip(n) =~= a);
    assert((head + b).skip(n) =~= b);
    lemma_split_after(x, c, more_x);
    lemma_split_after(y, c, more_y);
}

/// What follows the title of an item.
spec fn after_title(uri: Seq<char>, mime: Seq<char>) -> Seq<char> {
    "/dc:title><upnp:class>"@ + (item_class(mime) + seq!['<'] + after_class(uri, mime))
}

/// What follows the class of an item.
spec fn after_class(uri: Seq<char>, mime: Seq<char>) -> Seq<char> {
    r#"/upnp:class><res protocolInfo="http-get:*:"#@ + (escaped(mime) + ":*"@ + seq!['"']
        + after_mime(uri))
}

/// What follows the media type of an item.
spec fn after_mime(uri: Seq<char>) -> Seq<char> {
    ">"@ + (escaped(uri) + seq!['<'] + "/res></item></DIDL-Lite>"@)
}

/// What a renderer is told of an item, taken apart at the character after each value.
proof fn lemma_metadata_parts(uri: Seq<char>, mime: Seq<char>, title: Seq<char>)
    ensures
        metadata_of(uri, mime, title)
            == r#"<DIDL-Lite xmlns="urn:schemas-upnp-org:metadata-1-0/DIDL-Lite/" xmlns:dc="http://purl.org/dc/elements/1.1/" xmlns:upnp="urn:schemas-upnp-org:metadata-1-0/upnp/"><item id="0" parentID="0" restricted="1"><dc:title>"#@
            + (escaped(title) + seq!['<'] + after_title(uri, mime)),
{
    reveal_strlit("</dc:title><upnp:class>");
    reveal_strlit("/dc:title><upnp:class>");
    assert("</dc:title><upnp:class>"@ =~= seq!['<'] + "/dc:title><upnp:class>"@);
    reveal_strlit(r#"</upnp:class><res protocolInfo="http-get:*:"#);
    reveal_strlit(r#"/upnp:class><res protocolInfo="http-get:*:"#);
    assert(r#"</upnp:class><res protocolInfo="http-get:*:"#@ =~= seq!['<']
        + r#"/upnp:class><res protocolInfo="http-get:*:"#@);
    reveal_strlit(r#":*">"#);
    reveal_strlit(":*");
    reveal_strlit(">");
    assert(r#":*">"#@ =~= ":*"@ + seq!['"'] + ">"@);
    reveal_strlit("</res></item></DIDL-Lite>");
    reveal_strlit("/res></item></DIDL-Lite>");
    assert("</res></item></DIDL-Lite>"@ =~= seq!['<'] + "/res></item></DIDL-Lite>"@);
    let head =
        r#"<DIDL-Lite xmlns="urn:schemas-upnp-org:metadata-1-0/DIDL-Lite/" xmlns:dc="http://purl.org/dc/elements/1.1/" xmlns:upnp="urn:schemas-upnp-org:metadata-1-0/upnp/"><item id="0" parentID="0" restricted="1"><dc:title>"#@;
    let m1 = "/dc:title><upnp:class>"@;
    let m2 = r#"/upnp:class><res protocolInfo="http-get:*:"#@;
    let m3 = "/res></item></DIDL-Lite>"@;
    lemma_regroup(
        head,
        escaped(title),
        m1,
        item_class(mime),
        m2,
        escaped(mime),
        escaped(uri),
        m3,
        ":*"@,
        ">"@,
    );
}

/// The parts of what a renderer is told, in two groupings.
proof fn lemma_regroup(
    head: Seq<char>,
    title: Seq<char>,
    m1: Seq<char>,
    class: Seq<char>,
    m2: Seq<char>,
    mime: Seq<char>,
    uri: Seq<char>,
    m3: Seq<char>,
    star: Seq<char>,
    close: Seq<char>,
)
    ensures
        head + title + (seq!['<'] + m1) + class + (seq!['<'] + m2) + mime + (star + seq!['"']
            + close) + uri + (seq!['<'] + m3) == head + (title + seq!['<'] + (m1 + (class + seq![
            '<',
        ] + (m2 + (mime + star + seq!['"'] + (close + (uri + seq!['<'] + m3))))))),
{
    let tail = close + (uri + seq!['<'] + m3);
    assert((star + seq!['"'] + close) + uri + (seq!['<'] + m3) =~= star + seq!['"'] + tail);
    let after_class = m2 + (mime + star + seq!['"'] + tail);
    assert((seq!['<'] + m2) + mime + (star + seq!['"'] + tail) =~= seq!['<'] + after_class);
    let after_title = m1 + (class + seq!['<'] + after_class);
    assert((seq!['<'] + m1) + class + (seq!['<'] + after_class) =~= seq!['<'] + after_title);
    assert(head + title + (seq!['<'] + m1) + class + (seq!['<'] + m2) + mime + (star + seq!['"']
        + close) + uri + (seq!['<'] + m3) =~= head + title + ((seq!['<'] + m1) + class + ((seq!['<']
        + m2) + mime + ((star + seq!['"'] + close) + uri + (seq!['<'] + m3)))));
    assert(head + title + (seq!['<'] + after_title) =~= head + (title + seq!['<'] + after_title));
}

/// No class holds a bracket.
proof fn lemma_class_has_no_bracket(mime: Seq<char>)
    ensures
        forall|k: int| 0 <= k < item_class(mime).len() ==> item_class(mime)[k] != '<',
{
    reveal_strlit("object.item.audioItem.musicTrack");
    reveal_strlit("object.item.imageItem.photo");
    reveal_strlit("object.item.videoItem");
}

/// No value reaches out of its place: a renderer is told the same of two items only if their
/// titles, media types and URLs are the same.
pub proof fn lemma_metadata_is_faithful(
    uri_a: Seq<char>,
    mime_a: Seq<char>,
    title_a: Seq<char>,
    uri_b: Seq<char>,
    mime_b: Seq<char>,
    title_b: Seq<char>,
)
    requires
        metadata_of(uri_a, mime_a, title_a) == metadata_of(uri_b, mime_b, title_b),
    ensures
        uri_a == uri_b,
        mime_a == mime_b,
        title_a == title_b,
{
    lemma_metadata_parts(uri_a, mime_a, title_a);
    lemma_metadata_parts(uri_b, mime_b, title_b);
    lemma_no_markup(title_a);
    lemma_no_markup(title_b);
    lemma_no_markup(uri_a);
    lemma_no_markup(uri_b);
    lemma_same_until(
        r#"<DIDL-Lite xmlns="urn:schemas-upnp-org:metadata-1-0/DIDL-Lite/" xmlns:dc="http://purl.org/dc/elements/1.1/" xmlns:upnp="urn:schemas-upnp-org:metadata-1-0/upnp/"><item id="0" parentID="0" restricted="1"><dc:title>"#@,
        escaped(title_a),
        escaped(title_b),
        '<',
        after_title(uri_a, mime_a),
        after_title(uri_b, mime_b),
    );
    lemma_class_has_no_bracket(mime_a);
    lemma_class_has_no_bracket(mime_b);
    lemma_same_until(
        "/dc:title><upnp:class>"@,
        item_class(mime_a),
        item_class(mime_b),
        '<',
        after_class(uri_a, mime_a),
        after_class(uri_b, mime_b),
    );
    lemma_no_quote(mime_a);
    lemma_no_quote(mime_b);
    let (x, y) = (escaped(mime_a) + ":*"@, escaped(mime_b) + ":*"@);
    lemma_same_until(
        r#"/upnp:class><res protocolInfo="http-get:*:"#@,
        x,
        y,
        '"',
        after_mime(uri_a),
        after_mime(uri_b),
    );
    assert(x.take(x.len() - ":*"@.len()) =~= escaped(mime_a));
    assert(y.take(y.len() - ":*"@.len()) =~= escaped(mime_b));
    lemma_same_until(
        ">"@,
        escaped(uri_a),
        escaped(uri_b),
        '<',
        "/res></item></DIDL-Lite>"@,
        "/res></item></DIDL-Lite>"@,
    );
    lemma_escape_round_trip(title_a);
    lemma_escape_round_trip(title_b);
    lemma_escape_round_trip(mime_a);
    lemma_escape_round_trip(mime_b);
    lemma_escape_round_trip(uri_a);
    lemma_escape_round_trip(uri_b);
}

/// No bracket stands in escaped text.
proof fn lemma_no_markup(s: Seq<char>)
    ensures
        forall|k: int| 0 <= k < escaped(s).len() ==> escaped(s)[k] != '<',
{
    lemma_escaped_has_no_markup(s);
}

/// No quotation mark stands in an escaped media type and what follows it.
proof fn lemma_no_quote(mime: Seq<char>)
    ensures
        forall|k: int| 0 <= k < (escaped(mime) + ":*"@).len() ==> (escaped(mime) + ":*"@)[k] != '"',
{
    lemma_escaped_has_no_markup(mime);
    reveal_strlit(":*");
    let s = escaped(mime) + ":*"@;
    assert forall|k: int| 0 <= k < s.len() implies s[k] != '"' by {
        if k < escaped(mime).len() {
            assert(s[k] == escaped(mime)[k]);
        } else {
            assert(s[k] == ":*"@[k - escaped(mime).len()]);
        }
    }
}

/// Something that a renderer can play.
#[derive(Debug, PartialEq, Eq)]
pub struct MediaItem {
    pub url: String,
    pub mime: String,
    /// What it is called, if it has a name.
    pub name: Option<String>,
}

/// What a `MediaItem` holds.
pub struct ItemModel {
    pub url: Seq<char>,
    pub mime: Seq<char>,
    pub name: Option<Seq<char>>,
}

impl View for MediaItem {
    type V = ItemModel;

    open spec fn view(&self) -> ItemModel {
        ItemModel { url: self.url@, mime: self.mime@, name: opt_text(self.name) }
    }
}

/// The title of an item with the name `name`, if it has one.
pub open spec fn title_of(name: Option<Seq<char>>) -> Seq<char> {
    match name {
        Some(name) => name,
        None => "xscreen media"@,
    }
}

/// The title of an item with the name `name`, if it has one.
fn title(name: &Option<String>) -> (out: String)
    ensures
        out@ == title_of(opt_text(*name)),
{
    match name {
        Some(name) => name.clone(),
        None => "xscreen media".to_owned(),
    }
}

/// Why a source is not cast. A text in it is the message of another error.
#[derive(Debug, PartialEq, Eq)]
pub enum CastError {
    /// The source is neither a file nor a URL.
    NotFound(String),
    /// The source is a URL that is not of a web server.
    UnsupportedScheme,
    /// The file cannot be served.
    Serve(String),
    /// The renderer does not load the media.
    Load(String),
    /// The renderer does not start playing.
    Start(String),
}

/// What a `CastError` holds.
pub enum CastFault {
    NotFound(Seq<char>),
    UnsupportedScheme,
    Serve(Seq<char>),
    Load(Seq<char>),
    Start(Seq<char>),
}

impl View for CastError {
    type V = CastFault;

    open spec fn view(&self) -> CastFault {
        match self {
            CastError::NotFound(cause) => CastFault::NotFound(cause@),
            CastError::UnsupportedScheme => CastFault::UnsupportedScheme,
            CastError::Serve(cause) => CastFault::Serve(cause@),
            CastError::Load(cause) => CastFault::Load(cause@),
            CastError::Start(cause) => CastFault::Start(cause@),
        }
    }
}

impl CastFault {
    /// What the error is called on the command line, for the source `source`.
    pub open spec fn text(self, source: Seq<char>) -> Seq<char> {
        match self {
            CastFault::NotFound(cause) => "media file not found: "@ + source + ": "@ + cause,
            CastFault::UnsupportedScheme => "only local files and HTTP(S) URLs are supported"@,
            CastFault::Serve(cause) => cause,
            CastFault::Load(cause) => "the TV rejected the media URL: "@ + cause,
            CastFault::Start(cause) => "the TV could not start playback: "@ + cause,
        }
    }
}

impl CastError {
    /// The message of the error on the command line, for the source `source`.
    pub fn message(&self, source: &str) -> (out: String)
        ensures
            out@ == self@.text(source@),
    {
        match self {
            CastError::NotFound(cause) => {
                let mut out = "media file not found: ".to_owned();
                out.append(source);
                out.append(": ");
                out.append(cause.as_str());
                out
            },
            CastError::UnsupportedScheme =>
                "only local files and HTTP(S) URLs are supported".to_owned(),
            CastError::Serve(cause) => cause.clone(),
            CastError::Load(cause) => {
                let mut out = "the TV rejected the media URL: ".to_owned();
                out.append(cause.as_str());
                out
            },
            CastError::Start(cause) => {
                let mut out = "the TV could not start playback: ".to_owned();
                out.append(cause.as_str());
                out
            },
        }
    }
}

/// The item at a URL, if it is of a web server, and the media type that was guessed for it.
pub open spec fn item_at(url: UrlParts, guess: Option<Seq<char>>) -> Result<ItemModel, CastFault> {
    if http_scheme(url.scheme) {
        Ok(
            ItemModel {
                url: url.text,
                mime: mime_or(guess, "video/mp4"@),
                name: match url.name {
                    Some(name) => if name.len() > 0 {
                        Some(name)
                    } else {
                        None
                    },
                    None => None,
                },
            },
        )
    } else {
        Err(CastFault::UnsupportedScheme)
    }
}

/// The item that a source which is no file stands for.
pub open spec fn remote_item(source: Seq<char>) -> Result<ItemModel, CastFault> {
    match parsed_url(source) {
        Ok(url) => item_at(url, guessed_mime(url.path)),
        Err(cause) => Err(CastFault::NotFound(cause)),
    }
}

/// The view of an item or an error.
pub open spec fn item_view(out: Result<MediaItem, CastError>) -> Result<ItemModel, CastFault> {
    match out {
        Ok(item) => Ok(item@),
        Err(e) => Err(e@),
    }
}

/// The item at a URL, if it is of a web server, and the media type that was guessed for it.
pub fn item_from(url: WebUrl, guess: Option<String>) -> (out: Result<MediaItem, CastError>)
    ensures
        item_view(out) == item_at(url@, opt_text(guess)),
{
    if !url.is_http() {
        return Err(CastError::UnsupportedScheme);
    }
    let name = match url.name {
        Some(name) => if name.as_str().is_empty() {
            None
        } else {
            Some(name)
        },
        None => None,
    };
    Ok(MediaItem { url: url.text, mime: choose_mime(guess, "video/mp4"), name })
}

/// The item that a source which is no file stands for.
pub fn find_remote(source: &str) -> (out: Result<MediaItem, CastError>)
    ensures
        item_view(out) == remote_item(source@),
{
    match WebUrl::parse(source) {
        Ok(url) => {
            let guess = guess_mime(url.path.as_str());
            item_from(url, guess)
        },
        Err(cause) => Err(CastError::NotFound(cause)),
    }
}

/// What a job waits for.
#[derive(Debug, Clone, Copy, PartialEq, Eq, Structural)]
pub enum CastStage {
    /// To hear whether the source is a file.
    Probing,
    /// For the file to be served.
    Serving,
    /// For the renderer to load the media.
    Loading,
    /// For the renderer to start playing.
    Starting,
    /// For nothing: the source is cast.
    Done,
    /// For nothing: the source cannot be cast.
    Failed,
}

/// What happened.
#[derive(Debug)]
pub enum CastEvent {
    /// The source is a file, or is none.
    Probed(bool),
    /// The file is served as this item, or cannot be served.
    Served(Result<MediaItem, String>),
    /// The renderer granted the request, or refused it.
    Replied(Result<(), String>),
}

/// What is to be done next.
#[derive(Debug)]
pub enum CastAction {
    /// See whether the source is a file.
    Probe,
    /// Serve the file.
    Serve,
    /// Send a request to the renderer.
    Send(SoapRequest),
    /// Nothing: the source is cast.
    Done,
    /// Nothing: the source cannot be cast.
    Fail(CastError),
}

/// What a `CastEvent` holds.
pub enum EventModel {
    Probed(bool),
    Served(Result<ItemModel, Seq<char>>),
    Replied(Option<Seq<char>>),
}

/// What a `CastAction` holds.
pub enum ActionModel {
    Probe,
    Serve,
    Send(RequestModel),
    Done,
    Fail(CastFault),
}

impl View for CastEvent {
    type V = EventModel;

    open spec fn view(&self) -> EventModel {
        match self {
            CastEvent::Probed(is_file) => EventModel::Probed(*is_file),
            CastEvent::Served(Ok(item)) => EventModel::Served(Ok(item@)),
            CastEvent::Served(Err(cause)) => EventModel::Served(Err(cause@)),
            CastEvent::Replied(Ok(_)) => EventModel::Replied(None),
            CastEvent::Replied(Err(cause)) => EventModel::Replied(Some(cause@)),
        }
    }
}

impl View for CastAction {
    type V = ActionModel;

    open spec fn view(&self) -> ActionModel {
        match self {
            CastAction::Probe => ActionModel::Probe,
            CastAction::Serve => ActionModel::Serve,
            CastAction::Send(request) => ActionModel::Send(request@),
            CastAction::Done => ActionModel::Done,
            CastAction::Fail(e) => ActionModel::Fail(e@),
        }
    }
}

/// Casting a source to a renderer.
#[derive(Debug)]
pub struct CastJob {
    client: DlnaClient,
    source: String,
    autoplay: bool,
    served: bool,
    stage: CastStage,
}

/// What a `CastJob` holds.
pub struct JobModel {
    pub device: DeviceModel,
    pub source: Seq<char>,
    pub autoplay: bool,
    /// Whether the source is a file that is served.
    pub served: bool,
    pub stage: CastStage,
}

impl View for CastJob {
    type V = JobModel;

    closed spec fn view(&self) -> JobModel {
        JobModel {
            device: self.client@,
            source: self.source@,
            autoplay: self.autoplay,
            served: self.served,
            stage: self.stage,
        }
    }
}

/// Whether a job at `stage` waits for an event like `event`.
pub open spec fn awaits(stage: CastStage, event: EventModel) -> bool {
    match event {
        EventModel::Probed(_) => stage == CastStage::Probing,
        EventModel::Served(_) => stage == CastStage::Serving,
        EventModel::Replied(_) => stage == CastStage::Loading || stage == CastStage::Starting,
    }
}

/// `job` at another stage.
pub open spec fn at_stage(job: JobModel, stage: CastStage) -> JobModel {
    JobModel { stage, ..job }
}

/// The request that loads `item`.
pub open spec fn load_item(device: DeviceModel, item: ItemModel) -> RequestModel {
    load_request(device, item.url, metadata_of(item.url, item.mime, title_of(item.name)))
}

/// What `job` becomes, and what is to be done, after `event`. A source that is no file is looked
/// up as a URL. The renderer is asked to play only after it has loaded the media.
pub open spec fn job_after(job: JobModel, event: EventModel) -> (JobModel, ActionModel) {
    match event {
        EventModel::Probed(true) => (at_stage(job, CastStage::Serving), ActionModel::Serve),
        EventModel::Probed(false) => loading(job, remote_item(job.source)),
        EventModel::Served(Ok(item)) => loading(JobModel { served: true, ..job }, Ok(item)),
        EventModel::Served(Err(cause)) => loading(job, Err(CastFault::Serve(cause))),
        EventModel::Replied(None) => if job.stage == CastStage::Loading && job.autoplay {
            (
                at_stage(job, CastStage::Starting),
                ActionModel::Send(play_request(job.device, "1"@)),
            )
        } else {
            (at_stage(job, CastStage::Done), ActionModel::Done)
        },
        EventModel::Replied(Some(cause)) => (
            at_stage(job, CastStage::Failed),
            ActionModel::Fail(
                if job.stage == CastStage::Loading {
                    CastFault::Load(cause)
                } else {
                    CastFault::Start(cause)
                },
            ),
        ),
    }
}

/// What `job` becomes, and what is to be done, when its item has been found or not.
pub open spec fn loading(job: JobModel, item: Result<ItemModel, CastFault>) -> (
    JobModel,
    ActionModel,
) {
    match item {
        Ok(item) => (
            at_stage(job, CastStage::Loading),
            ActionModel::Send(load_item(job.device, item)),
        ),
        Err(e) => (at_stage(job, CastStage::Failed), ActionModel::Fail(e)),
    }
}

impl CastJob {
    /// A job that casts `source` to `device`, and plays it if `autoplay`. The first action is to
    /// probe the source.
    pub fn new(device: Device, source: String, autoplay: bool) -> (out: CastJob)
        ensures
            out@ == (JobModel {
                device: device@,
                source: source@,
                autoplay,
                served: false,
                stage: CastStage::Probing,
            }),
    {
        CastJob {
            client: DlnaClient::new(device),
            source,
            autoplay,
            served: false,
            stage: CastStage::Probing,
        }
    }

    /// Whether the job waits for an event like `event`.
    pub fn accepts(&self, event: &CastEvent) -> (yes: bool)
        ensures
            yes == awaits(self@.stage, event@),
    {
        match event {
            CastEvent::Probed(_) => self.stage == CastStage::Probing,
            CastEvent::Served(_) => self.stage == CastStage::Serving,
            CastEvent::Replied(_) => self.stage == CastStage::Loading || self.stage
                == CastStage::Starting,
        }
    }

    /// Goes on after `event`, and says what is to be done.
    pub fn step(&mut self, event: CastEvent) -> (out: CastAction)
        requires
            awaits(old(self)@.stage, event@),
        ensures
            (final(self)@, out@) == job_after(old(self)@, event@),
    {
        match event {
            CastEvent::Probed(is_file) => if is_file {
                self.stage = CastStage::Serving;
                CastAction::Serve
            } else {
                let item = find_remote(self.source.as_str());
                self.load(item)
            },
            CastEvent::Served(Ok(item)) => {
                self.served = true;
                self.load(Ok(item))
            },
            CastEvent::Served(Err(cause)) => self.load(Err(CastError::Serve(cause))),
            CastEvent::Replied(Ok(_)) => {
                if self.stage == CastStage::Loading && self.autoplay {
                    self.stage = CastStage::Starting;
                    CastAction::Send(self.client.play())
                } else {
                    self.stage = CastStage::Done;
                    CastAction::Done
                }
            },
            CastEvent::Replied(Err(cause)) => {
                let loading: bool = self.stage == CastStage::Loading;
                self.stage = CastStage::Failed;
                if loading {
                    CastAction::Fail(CastError::Load(cause))
                } else {
                    CastAction::Fail(CastError::Start(cause))
                }
            },
        }
    }

    /// Goes on when the item has been found or not.
    fn load(&mut self, item: Result<MediaItem, CastError>) -> (out: CastAction)
        ensures
            (final(self)@, out@) == loading(old(self)@, item_view(item)),
    {
        match item {
            Ok(item) => {
                let metadata = didl_metadata(
                    item.url.as_str(),
                    item.mime.as_str(),
                    title(&item.name).as_str(),
                );
                self.stage = CastStage::Loading;
                CastAction::Send(
                    self.client.set_transport_uri(item.url.as_str(), metadata.as_str()),
                )
            },
            Err(e) => {
                self.stage = CastStage::Failed;
                CastAction::Fail(e)
            },
        }
    }

    /// What the job waits for.
    pub fn stage(&self) -> (out: CastStage)
        ensures
            out == self@.stage,
    {
        self.stage
    }

    /// The client of the renderer.
    pub fn client(&self) -> (out: &DlnaClient)
        ensures
            out@ == self@.device,
    {
        &self.client
    }

    /// Whether the source is a file that is served.
    pub fn serves_file(&self) -> (yes: bool)
        ensures
            yes == self@.served,
    {
        self.served
    }

    /// The source that is cast.
    pub fn source(&self) -> (out: &str)
        ensures
            out@ == self@.source,
    {
        self.source.as_str()
    }
}

/// A job casts the source and to the renderer that it was made for. It is done exactly when
/// there is nothing left to do, which is only after the renderer granted a request: to play, if
/// it is to play. It has failed exactly when its action is to fail. It serves a file from when
/// the file is served.
pub proof fn lemma_job_keeps_its_aim(job: JobModel, event: EventModel)
    requires
        awaits(job.stage, event),
    ensures
        ({
            let (next, action) = job_after(job, event);
            &&& next.device == job.device
            &&& next.source == job.source
            &&& next.autoplay == job.autoplay
            &&& next.served <==> job.served || (event is Served && event->Served_0 is Ok)
            &&& next.stage == CastStage::Done <==> action is Done
            &&& next.stage == CastStage::Failed <==> action is Fail
            &&& action is Done ==> event == EventModel::Replied(None)
            &&& action is Done && job.autoplay ==> job.stage == CastStage::Starting
        }),
{
}

/// The message of an error gives its cause, and the source where nothing was found there. Errors
/// with different causes have different messages, and so have refusals to load and to play.
pub proof fn lemma_cast_messages(source: Seq<char>, cause: Seq<char>, other: Seq<char>)
    ensures
        has_part(CastFault::NotFound(cause).text(source), source),
        has_part(CastFault::NotFound(cause).text(source), cause),
        CastFault::Serve(cause).text(source) == cause,
        has_part(CastFault::Load(cause).text(source), cause),
        has_part(CastFault::Start(cause).text(source), cause),
        cause != other ==> CastFault::NotFound(cause).text(source) != CastFault::NotFound(
            other,
        ).text(source),
        cause != other ==> CastFault::Load(cause).text(source) != CastFault::Load(other).text(
            source,
        ),
        cause != other ==> CastFault::Start(cause).text(source) != CastFault::Start(other).text(
            source,
        ),
        CastFault::Load(cause).text(source) != CastFault::Start(other).text(source),
{
    let none = Seq::<char>::empty();
    let (a, b) = ("media file not found: "@, ": "@);
    let (c, d) = ("the TV rejected the media URL: "@, "the TV could not start playback: "@);
    lemma_part(a, source, b + cause);
    assert(a + source + (b + cause) =~= a + source + b + cause);
    lemma_part(a + source + b, cause, none);
    assert(a + source + b + cause + none =~= a + source + b + cause);
    lemma_part(c, cause, none);
    assert(c + cause + none =~= c + cause);
    lemma_part(d, cause, none);
    assert(d + cause + none =~= d + cause);
    let head = a + source + b;
    assert((head + cause).skip(head.len() as int) =~= cause);
    assert((head + other).skip(head.len() as int) =~= other);
    assert((c + cause).skip(c.len() as int) =~= cause);
    assert((c + other).skip(c.len() as int) =~= other);
    assert((d + cause).skip(d.len() as int) =~= cause);
    assert((d + other).skip(d.len() as int) =~= other);
    reveal_strlit("the TV rejected the media URL: ");
    reveal_strlit("the TV could not start playback: ");
    assert((c + cause)[7] == 'r');
    assert((d + other)[7] == 'c');
}

/// The jobs that `events` lead to, one after the other.
pub open spec fn job_after_all(job: JobModel, events: Seq<EventModel>) -> JobModel
    decreases events.len(),
{
    if events.len() == 0 {
        job
    } else {
        job_after(job_after_all(job, events.drop_last()), events.last()).0
    }
}

/// Whatever happens, a job casts the source and to the renderer that it was made for.
pub proof fn lemma_aim_is_kept(job: JobModel, events: Seq<EventModel>)
    ensures
        job_after_all(job, events).device == job.device,
        job_after_all(job, events).source == job.source,
        job_after_all(job, events).autoplay == job.autoplay,
    decreases events.len(),
{
    if events.len() > 0 {
        lemma_aim_is_kept(job, events.drop_last());
    }
}

/// Whether each of `events` is one that the job waits for when it comes.
pub open spec fn in_turn(job: JobModel, events: Seq<EventModel>) -> bool
    decreases events.len(),
{
    events.len() > 0 ==> {
        &&& in_turn(job, events.drop_last())
        &&& awaits(job_after_all(job, events.drop_last()).stage, events.last())
    }
}

/// How far a job can be from its end.
pub open spec fn steps_left(stage: CastStage) -> nat {
    match stage {
        CastStage::Probing => 4,
        CastStage::Serving => 3,
        CastStage::Loading => 2,
        CastStage::Starting => 1,
        CastStage::Done | CastStage::Failed => 0,
    }
}

/// A job ends after four events at most.
pub proof fn lemma_job_ends(job: JobModel, events: Seq<EventModel>)
    requires
        job.stage == CastStage::Probing,
        in_turn(job, events),
    ensures
        events.len() + steps_left(job_after_all(job, events).stage) <= 4,
    decreases events.len(),
{
    if events.len() > 0 {
        lemma_job_ends(job, events.drop_last());
    }
}

/// What a job that has heard of its source knows: it serves a file only if the source is one, and
/// once the renderer is asked for anything, exactly if it is one.
proof fn lemma_served_so_far(job: JobModel, events: Seq<EventModel>)
    requires
        job.stage == CastStage::Probing,
        !job.served,
        in_turn(job, events),
        events.len() > 0,
    ensures
        ({
            let next = job_after_all(job, events);
            let is_file = events[0] == EventModel::Probed(true);
            &&& next.stage != CastStage::Probing
            &&& next.stage == CastStage::Serving ==> is_file && !next.served
            &&& next.stage == CastStage::Loading || next.stage == CastStage::Starting || next.stage
                == CastStage::Done ==> (next.served <==> is_file)
        }),
    decreases events.len(),
{
    let before = events.drop_last();
    if before.len() > 0 {
        lemma_served_so_far(job, before);
        assert(before[0] == events[0]);
    } else {
        assert(events.last() == events[0]);
        assert(job_after_all(job, before) == job);
    }
}

/// A job that is done serves a file exactly if its source is one.
pub proof fn lemma_files_are_served(job: JobModel, events: Seq<EventModel>)
    requires
        job.stage == CastStage::Probing,
        !job.served,
        in_turn(job, events),
        job_after_all(job, events).stage == CastStage::Done,
    ensures
        events.len() > 0,
        job_after_all(job, events).served <==> events[0] == EventModel::Probed(true),
{
    lemma_served_so_far(job, events);
}

/// The action after the last of `events`.
pub open spec fn last_action(job: JobModel, events: Seq<EventModel>) -> ActionModel
    recommends
        events.len() > 0,
{
    job_after(job_after_all(job, events.drop_last()), events.last()).1
}

/// Whether `action` sends a request for the renderer's action `name`.
pub open spec fn sends(action: ActionModel, name: Seq<char>) -> bool {
    action is Send && action->Send_0.action == name
}

/// The names of the renderer's actions that a job asks for differ.
proof fn lemma_two_requests()
    ensures
        "Play"@ != "SetAVTransportURI"@,
{
    reveal_strlit("Play");
    reveal_strlit("SetAVTransportURI");
    assert("Play"@.len() != "SetAVTransportURI"@.len());
}

/// A job asks the renderer to play exactly if it is to play and the renderer has just granted
/// loading; it asks for the ordinary speed. A job that is not to play is done then, be the source
/// a file or a URL. It asks the renderer to load exactly when it has found what to play. A refusal
/// ends it, and the error tells a refusal to load from one to play.
pub proof fn lemma_play_follows_loading(job: JobModel, event: EventModel)
    requires
        awaits(job.stage, event),
    ensures
        ({
            let (next, action) = job_after(job, event);
            let loaded = job.stage == CastStage::Loading && event == EventModel::Replied(None);
            &&& sends(action, "Play"@) <==> loaded && job.autoplay
            &&& sends(action, "Play"@) ==> action == ActionModel::Send(
                play_request(job.device, "1"@),
            ) && next.stage == CastStage::Starting
            &&& loaded && !job.autoplay ==> action == ActionModel::Done && next.stage
                == CastStage::Done
            &&& job.stage == CastStage::Starting && event == EventModel::Replied(None) ==> action
                == ActionModel::Done
            &&& sends(action, "SetAVTransportURI"@) <==> next.stage == CastStage::Loading
            &&& action is Send ==> sends(action, "Play"@) || sends(action, "SetAVTransportURI"@)
            &&& event == EventModel::Probed(true) ==> action == ActionModel::Serve && next.stage
                == CastStage::Serving
            &&& event is Replied && event->Replied_0 is Some && job.stage == CastStage::Loading
                ==> action == ActionModel::Fail(CastFault::Load(event->Replied_0->0))
            &&& event is Replied && event->Replied_0 is Some && job.stage == CastStage::Starting
                ==> action == ActionModel::Fail(CastFault::Start(event->Replied_0->0))
            &&& event is Served && event->Served_0 is Err ==> action == ActionModel::Fail(
                CastFault::Serve(event->Served_0->Err_0),
            )
        }),
{
    lemma_two_requests();
}

/// A job that waits for its first reply waits for loading.
proof fn lemma_replies_so_far(job: JobModel, events: Seq<EventModel>)
    requires
        job.stage == CastStage::Probing,
        in_turn(job, events),
    ensures
        ({
            let stage = job_after_all(job, events).stage;
            let replied = exists|i: int| 0 <= i < events.len() && #[trigger] events[i] is Replied;
            &&& stage == CastStage::Probing || stage == CastStage::Serving || stage
                == CastStage::Loading ==> !replied
            &&& stage == CastStage::Starting ==> replied
        }),
    decreases events.len(),
{
    if events.len() > 0 {
        let before = events.drop_last();
        lemma_replies_so_far(job, before);
        assert forall|i: int| 0 <= i < before.len() implies before[i] == #[trigger] events[i] by {}
        assert(events[events.len() - 1] == events.last());
    }
}

/// Over all that happens to a job: it asks the renderer to play exactly if it is to play and the
/// first reply of the renderer has just come and grants what was asked, which was to load.
pub proof fn lemma_jobs_that_play(job: JobModel, events: Seq<EventModel>)
    requires
        job.stage == CastStage::Probing,
        events.len() > 0,
        in_turn(job, events),
    ensures
        sends(last_action(job, events), "Play"@) <==> {
            &&& job.autoplay
            &&& events.last() == EventModel::Replied(None)
            &&& forall|i: int| 0 <= i < events.len() - 1 ==> !(#[trigger] events[i] is Replied)
        },
        !job.autoplay && events.last() == EventModel::Replied(None) ==> last_action(job, events)
            == ActionModel::Done,
{
    let before = events.drop_last();
    lemma_replies_so_far(job, before);
    lemma_aim_is_kept(job, before);
    lemma_play_follows_loading(job_after_all(job, before), events.last());
    assert forall|i: int| 0 <= i < before.len() implies before[i] == #[trigger] events[i] by {}
    assert forall|i: int| 0 <= i < before.len() implies #[trigger] before[i] == events[i] by {}
    if !job.autoplay && events.last() == EventModel::Replied(None) {
        lemma_never_starts(job, before);
    }
}

/// A job that is not to play never waits for playing.
proof fn lemma_never_starts(job: JobModel, events: Seq<EventModel>)
    requires
        job.stage == CastStage::Probing,
        !job.autoplay,
        in_turn(job, events),
    ensures
        job_after_all(job, events).stage != CastStage::Starting,
    decreases events.len(),
{
    if events.len() > 0 {
        lemma_never_starts(job, events.drop_last());
        lemma_aim_is_kept(job, events.drop_last());
        lemma_play_follows_loading(job_after_all(job, events.drop_last()), events.last());
    }
}

/// A source that is no file is cast exactly if it is a URL with the scheme `http` or `https`. The
/// renderer is then given that URL, the media type that its path suggests, or `video/mp4` where it
/// suggests none, and its name if that is not empty.
pub proof fn lemma_remote_sources(source: Seq<char>)
    ensures
        parsed_url(source) is Err ==> remote_item(source) == Err::<ItemModel, CastFault>(
            CastFault::NotFound(parsed_url(source)->Err_0),
        ),
        remote_item(source) is Ok <==> parsed_url(source) is Ok && (parsed_url(source)->Ok_0.scheme
            == "http"@ || parsed_url(source)->Ok_0.scheme == "https"@),
        parsed_url(source) is Ok && remote_item(source) is Err ==> remote_item(source)->Err_0
            == CastFault::UnsupportedScheme,
        remote_item(source) is Ok ==> {
            let url = parsed_url(source)->Ok_0;
            let item = remote_item(source)->Ok_0;
            &&& item.url == url.text
            &&& guessed_mime(url.path) is Some ==> item.mime == guessed_mime(url.path)->0
            &&& guessed_mime(url.path) is None ==> item.mime == "video/mp4"@
            &&& item.name is Some <==> url.name is Some && url.name->0.len() > 0
            &&& item.name is Some ==> item.name == url.name
        },
{
}

/// What a job asks for when the source is no file, or when the file is served: to load what was
/// found, at its URL. It fails if nothing was found.
pub proof fn lemma_what_is_loaded(job: JobModel, item: ItemModel)
    ensures
        remote_item(job.source) is Ok ==> job_after(job, EventModel::Probed(false)).1
            == ActionModel::Send(load_item(job.device, remote_item(job.source)->Ok_0)),
        remote_item(job.source) is Err ==> job_after(job, EventModel::Probed(false)).1
            == ActionModel::Fail(remote_item(job.source)->Err_0),
        job_after(job, EventModel::Served(Ok(item))).1 == ActionModel::Send(
            load_item(job.device, item),
        ),
        load_item(job.device, item).url == job.device.av_transport.control_url,
        has_part(
            load_item(job.device, item).body,
            element("CurrentURI"@, escaped(item.url)),
        ),
        item.name is Some ==> has_part(
            load_item(job.device, item).body,
            element(
                "CurrentURIMetaData"@,
                escaped(metadata_of(item.url, item.mime, item.name->0)),
            ),
        ),
        item.name is None ==> has_part(
            load_item(job.device, item).body,
            element(
                "CurrentURIMetaData"@,
                escaped(metadata_of(item.url, item.mime, "xscreen media"@)),
            ),
        ),
{
    let metadata = metadata_of(item.url, item.mime, title_of(item.name));
    lemma_load_requests(job.device, item.url, metadata, item.url, metadata);
}

/// The request to load tells two named items apart.
pub proof fn lemma_items_are_told_apart(device: DeviceModel, a: ItemModel, b: ItemModel)
    requires
        a.name is Some && b.name is Some,
        load_item(device, a).body == load_item(device, b).body,
    ensures
        a == b,
{
    let (m, n) = (
        metadata_of(a.url, a.mime, title_of(a.name)),
        metadata_of(b.url, b.mime, title_of(b.name)),
    );
    lemma_load_requests(device, a.url, m, b.url, n);
    lemma_metadata_is_faithful(
        a.url,
        a.mime,
        title_of(a.name),
        b.url,
        b.mime,
        title_of(b.name),
    );
}

/// Audio is told to be a music track, an image to be a photo, and all else to be a video.
pub proof fn lemma_classes(subtype: Seq<char>, mime: Seq<char>)
    ensures
        item_class("audio/"@ + subtype) == "object.item.audioItem.musicTrack"@,
        item_class("image/"@ + subtype) == "object.item.imageItem.photo"@,
        !"audio/"@.is_prefix_of(mime) && !"image/"@.is_prefix_of(mime) ==> item_class(mime)
            == "object.item.videoItem"@,
{
    reveal_strlit("audio/");
    reveal_strlit("image/");
    assert("audio/"@.is_prefix_of("audio/"@ + subtype));
    assert("image/"@.is_prefix_of("image/"@ + subtype));
    assert(("image/"@ + subtype)[0] == 'i');
    assert(!"audio/"@.is_prefix_of("image/"@ + subtype)) by {
        if "audio/"@.is_prefix_of("image/"@ + subtype) {
            assert(("image/"@ + subtype).subrange(0, 6)[0] == "audio/"@[0]);
        }
    }
}

/// What a renderer is told of an item holds its title, its class, its media type and its URL, each
/// in the element where it belongs.
pub proof fn lemma_metadata_holds(uri: Seq<char>, mime: Seq<char>, title: Seq<char>)
    ensures
        has_part(metadata_of(uri, mime, title), element("dc:title"@, escaped(title))),
        has_part(metadata_of(uri, mime, title), element("upnp:class"@, item_class(mime))),
        has_part(
            metadata_of(uri, mime, title),
            r#"<res protocolInfo="http-get:*:"#@ + escaped(mime) + r#":*">"#@ + escaped(uri)
                + "</res>"@,
        ),
{
    let all = metadata_of(uri, mime, title);
    let head =
        r#"<DIDL-Lite xmlns="urn:schemas-upnp-org:metadata-1-0/DIDL-Lite/" xmlns:dc="http://purl.org/dc/elements/1.1/" xmlns:upnp="urn:schemas-upnp-org:metadata-1-0/upnp/"><item id="0" parentID="0" restricted="1">"#@;
    reveal_strlit(
        r#"<DIDL-Lite xmlns="urn:schemas-upnp-org:metadata-1-0/DIDL-Lite/" xmlns:dc="http://purl.org/dc/elements/1.1/" xmlns:upnp="urn:schemas-upnp-org:metadata-1-0/upnp/"><item id="0" parentID="0" restricted="1">"#,
    );
    reveal_strlit(
        r#"<DIDL-Lite xmlns="urn:schemas-upnp-org:metadata-1-0/DIDL-Lite/" xmlns:dc="http://purl.org/dc/elements/1.1/" xmlns:upnp="urn:schemas-upnp-org:metadata-1-0/upnp/"><item id="0" parentID="0" restricted="1"><dc:title>"#,
    );
    reveal_strlit("<dc:title>");
    assert(r#"<DIDL-Lite xmlns="urn:schemas-upnp-org:metadata-1-0/DIDL-Lite/" xmlns:dc="http://purl.org/dc/elements/1.1/" xmlns:upnp="urn:schemas-upnp-org:metadata-1-0/upnp/"><item id="0" parentID="0" restricted="1"><dc:title>"#@
        =~= head + "<dc:title>"@);
    reveal_strlit("<");
    reveal_strlit(">");
    reveal_strlit("</");
    reveal_strlit("dc:title");
    reveal_strlit("upnp:class");
    reveal_strlit("</dc:title><upnp:class>");
    reveal_strlit("</dc:title>");
    reveal_strlit("<upnp:class>");
    reveal_strlit("</upnp:class>");
    reveal_strlit("</res>");
    reveal_strlit("</item></DIDL-Lite>");
    reveal_strlit("</res></item></DIDL-Lite>");
    reveal_strlit(r#"</upnp:class><res protocolInfo="http-get:*:"#);
    reveal_strlit(r#"<res protocolInfo="http-get:*:"#);
    let (open_title, close_title) = ("<dc:title>"@, "</dc:title>"@);
    let (open_class, close_class) = ("<upnp:class>"@, "</upnp:class>"@);
    let (open_res, close_res) = (r#"<res protocolInfo="http-get:*:"#@, "</res>"@);
    let end = "</item></DIDL-Lite>"@;
    assert("</dc:title><upnp:class>"@ =~= close_title + open_class);
    assert(r#"</upnp:class><res protocolInfo="http-get:*:"#@ =~= close_class + open_res);
    assert("</res></item></DIDL-Lite>"@ =~= close_res + end);
    let one = open_title + escaped(title) + close_title;
    let two = open_class + item_class(mime) + close_class;
    let three = open_res + escaped(mime) + r#":*">"#@ + escaped(uri) + close_res;
    assert(element("dc:title"@, escaped(title)) =~= one);
    assert(element("upnp:class"@, item_class(mime)) =~= two);
    lemma_three_elements(
        head,
        open_title,
        escaped(title),
        close_title,
        open_class,
        item_class(mime),
        close_class,
        open_res,
        escaped(mime),
        r#":*">"#@,
        escaped(uri),
        close_res,
        end,
    );
    assert(all == head + one + two + three + end);
    assert(all =~= head + one + (two + three + end));
    lemma_part(head, one, two + three + end);
    assert(all =~= (head + one) + two + (three + end));
    lemma_part(head + one, two, three + end);
    lemma_part(head + one + two, three, end);
}

/// Three elements, one after the other, in two groupings.
proof fn lemma_three_elements(
    head: Seq<char>,
    a1: Seq<char>,
    a2: Seq<char>,
    a3: Seq<char>,
    b1: Seq<char>,
    b2: Seq<char>,
    b3: Seq<char>,
    c1: Seq<char>,
    c2: Seq<char>,
    c3: Seq<char>,
    c4: Seq<char>,
    c5: Seq<char>,
    end: Seq<char>,
)
    ensures
        (head + a1) + a2 + (a3 + b1) + b2 + (b3 + c1) + c2 + c3 + c4 + (c5 + end) == head + (a1 + a2
            + a3) + (b1 + b2 + b3) + (c1 + c2 + c3 + c4 + c5) + end,
{
    let x = (head + a1) + a2 + (a3 + b1);
    assert(x =~= head + (a1 + a2 + a3) + b1);
    let y = x + b2 + (b3 + c1);
    assert(y =~= head + (a1 + a2 + a3) + (b1 + b2 + b3) + c1);
    let z = head + (a1 + a2 + a3) + (b1 + b2 + b3);
    assert(z + c1 + c2 + c3 + c4 + (c5 + end) =~= z + (c1 + c2 + c3 + c4 + c5) + end);
}

} // verus!
