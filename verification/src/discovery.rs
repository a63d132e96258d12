//! Finding renderers: the search, the replies to it, and the list of what was found.

use vstd::prelude::*;

use crate::text::{
    ascii_lower, chars_of, cut, from_utf8_lossy, lemma_lines_are, lemma_split_after, line_list,
    lines, lossy_text, lower_ascii, parts_view, same_chars, same_text, split_once, starts_with,
    text_of, trim, trimmed,
};
use crate::weburl::{opt_text, parsed_url, url_view, UrlParts, WebUrl};

verus! {

/// Where a search is sent.
pub fn ssdp_address() -> (out: &'static str)
    ensures
        out@ == "239.255.255.250:1900"@,
{
    "239.255.255.250:1900"
}

/// The kinds of devices and services that are searched for.
pub open spec fn search_targets() -> Seq<Seq<char>> {
    seq![
        "urn:schemas-upnp-org:device:MediaRenderer:1"@,
        "urn:schemas-upnp-org:service:AVTransport:1"@,
    ]
}

/// The datagram that searches for `target`.
pub open spec fn search_text(target: Seq<char>) -> Seq<char> {
    "M-SEARCH * HTTP/1.1\r\nHOST: "@ + "239.255.255.250:1900"@
        + "\r\nMAN: \"ssdp:discover\"\r\nMX: 2\r\nST: "@ + target + "\r\n\r\n"@
}

/// Writes the datagram that searches for `target`.
pub fn search_request(target: &str) -> (out: String)
    ensures
        out@ == search_text(target@),
{
    let mut out = "M-SEARCH * HTTP/1.1\r\nHOST: ".to_owned();
    out.append(ssdp_address());
    out.append("\r\nMAN: \"ssdp:discover\"\r\nMX: 2\r\nST: ");
    out.append(target);
    out.append("\r\n\r\n");
    out
}

/// The datagrams of a search, in the order in which they are sent: each target twice.
pub fn search_requests() -> (out: Vec<String>)
    ensures
        crate::text::texts(out@) == seq![
            search_text(search_targets()[0]),
            search_text(search_targets()[1]),
            search_text(search_targets()[0]),
            search_text(search_targets()[1]),
        ],
{
    let mut out: Vec<String> = Vec::new();
    out.push(search_request("urn:schemas-upnp-org:device:MediaRenderer:1"));
    out.push(search_request("urn:schemas-upnp-org:service:AVTransport:1"));
    out.push(search_request("urn:schemas-upnp-org:device:MediaRenderer:1"));
    out.push(search_request("urn:schemas-upnp-org:service:AVTransport:1"));
    assert(crate::text::texts(out@) == seq![
        search_text(search_targets()[0]),
        search_text(search_targets()[1]),
        search_text(search_targets()[0]),
        search_text(search_targets()[1]),
    ]);
    out
}

/// A reply to a search.
#[derive(Debug, PartialEq, Eq)]
pub struct SsdpResponse {
    /// Where the description of the device is.
    pub location: WebUrl,
    pub usn: Option<String>,
    pub server: Option<String>,
}

/// What an `SsdpResponse` holds.
pub struct SsdpModel {
    pub location: UrlParts,
    pub usn: Option<Seq<char>>,
    pub server: Option<Seq<char>>,
}

impl View for SsdpResponse {
    type V = SsdpModel;

    open spec fn view(&self) -> SsdpModel {
        SsdpModel {
            location: self.location@,
            usn: opt_text(self.usn),
            server: opt_text(self.server),
        }
    }
}

/// The value of the last of the header lines `lines` with the name `name`, which is in lower
/// case.
pub open spec fn header_value(lines: Seq<Seq<char>>, name: Seq<char>) -> Option<Seq<char>>
    decreases lines.len(),
{
    if lines.len() == 0 {
        None
    } else {
        match split_once(lines.last(), ':') {
            Some((left, right)) => if ascii_lower(trimmed(left)) == name {
                Some(trimmed(right))
            } else {
                header_value(lines.drop_last(), name)
            },
            None => header_value(lines.drop_last(), name),
        }
    }
}

/// Whether two lines are the same header but for the case of its name and the white space around
/// name and value, or are both no header.
pub open spec fn same_header(a: Seq<char>, b: Seq<char>) -> bool {
    match (split_once(a, ':'), split_once(b, ':')) {
        (Some((name_a, value_a)), Some((name_b, value_b))) => {
            &&& ascii_lower(trimmed(name_a)) == ascii_lower(trimmed(name_b))
            &&& trimmed(value_a) == trimmed(value_b)
        },
        (None, None) => true,
        _ => false,
    }
}

/// The case of the names of headers does not count, nor the white space around names and values.
pub proof fn lemma_header_case_does_not_count(
    a: Seq<Seq<char>>,
    b: Seq<Seq<char>>,
    name: Seq<char>,
)
    requires
        a.len() == b.len(),
        forall|i: int| 0 <= i < a.len() ==> same_header(#[trigger] a[i], b[i]),
    ensures
        header_value(a, name) == header_value(b, name),
    decreases a.len(),
{
    if a.len() > 0 {
        assert(same_header(a[a.len() - 1], b[a.len() - 1]));
        lemma_header_case_does_not_count(a.drop_last(), b.drop_last(), name);
    }
}

/// Whether `line` is the first line of a reply that found something.
pub open spec fn is_success_line(line: Seq<char>) -> bool {
    "HTTP/1.1 200"@.is_prefix_of(trimmed(line)) || "HTTP/1.0 200"@.is_prefix_of(trimmed(line))
}

/// The headers of a reply that count.
#[derive(Debug, PartialEq, Eq)]
pub struct SsdpHeaders {
    pub location: String,
    pub usn: Option<String>,
    pub server: Option<String>,
}

/// What an `SsdpHeaders` holds.
pub struct SsdpHeadersModel {
    pub location: Seq<char>,
    pub usn: Option<Seq<char>>,
    pub server: Option<Seq<char>>,
}

impl View for SsdpHeaders {
    type V = SsdpHeadersModel;

    open spec fn view(&self) -> SsdpHeadersModel {
        SsdpHeadersModel {
            location: self.location@,
            usn: opt_text(self.usn),
            server: opt_text(self.server),
        }
    }
}

/// The headers of the reply `text` that count, if it found something and says where.
pub open spec fn ssdp_headers(text: Seq<char>) -> Option<SsdpHeadersModel> {
    let lines = line_list(text);
    if lines.len() == 0 || !is_success_line(lines[0]) {
        None
    } else {
        let headers = lines.drop_first();
        match header_value(headers, "location"@) {
            Some(location) => Some(
                SsdpHeadersModel {
                    location,
                    usn: header_value(headers, "usn"@),
                    server: header_value(headers, "server"@),
                },
            ),
            None => None,
        }
    }
}

/// A reply whose headers are `headers`, where the URL in them was read as `location`.
pub open spec fn response_with(
    headers: SsdpHeadersModel,
    location: Result<UrlParts, Seq<char>>,
) -> Option<SsdpModel> {
    match location {
        Ok(location) => Some(SsdpModel { location, usn: headers.usn, server: headers.server }),
        Err(_) => None,
    }
}

/// The reply that `text` is.
pub open spec fn ssdp_response(text: Seq<char>) -> Option<SsdpModel> {
    match ssdp_headers(text) {
        Some(headers) => response_with(headers, parsed_url(headers.location)),
        None => None,
    }
}

/// The value of the last of `lines`, from the second on, that is a header of the name `name`.
fn find_header(lines: &Vec<&[char]>, name: &str) -> (out: Option<String>)
    requires
        lines@.len() > 0,
    ensures
        opt_text(out) == header_value(parts_view(lines@).drop_first(), name@),
{
    let wanted = chars_of(name);
    let ghost headers = parts_view(lines@).drop_first();
    let mut i: usize = lines.len();
    assert(headers.take(i - 1) == headers);
    while i > 1
        invariant
            1 <= i <= lines@.len(),
            headers == parts_view(lines@).drop_first(),
            wanted@ == name@,
            header_value(headers, name@) == header_value(headers.take(i - 1), name@),
        decreases i,
    {
        i -= 1;
        assert(headers.take(i as int).last() == lines@[i as int]@);
        assert(headers.take(i as int).drop_last() == headers.take(i - 1));
        match cut(lines[i], ':') {
            Some((left, right)) => {
                if same_chars(&lower_ascii(trim(left)), &wanted) {
                    return Some(text_of(trim(right)));
                }
            },
            None => {},
        }
    }
    None
}

/// Reads the headers of a reply to a search.
pub fn read_ssdp_headers(text: &str) -> (out: Option<SsdpHeaders>)
    ensures
        match out {
            Some(headers) => ssdp_headers(text@) == Some(headers@),
            None => ssdp_headers(text@) is None,
        },
{
    let chars = chars_of(text);
    let lines = lines(&chars);
    if lines.len() == 0 {
        return None;
    }
    assert(parts_view(lines@)[0] == lines@[0]@);
    let status: &[char] = trim(lines[0]);
    if !starts_with(status, "HTTP/1.1 200") && !starts_with(status, "HTTP/1.0 200") {
        return None;
    }
    let location = match find_header(&lines, "location") {
        Some(location) => location,
        None => return None,
    };
    Some(
        SsdpHeaders {
            location,
            usn: find_header(&lines, "usn"),
            server: find_header(&lines, "server"),
        },
    )
}

/// Reads a reply to a search.
pub fn parse_ssdp_response(bytes: &[u8]) -> (out: Option<SsdpResponse>)
    ensures
        match out {
            Some(response) => ssdp_response(lossy_text(bytes@)) == Some(response@),
            None => ssdp_response(lossy_text(bytes@)) is None,
        },
{
    let text = from_utf8_lossy(bytes);
    match read_ssdp_headers(text.as_str()) {
        Some(headers) => {
            let location = WebUrl::parse(headers.location.as_str());
            response_from(headers, location)
        },
        None => None,
    }
}

/// A reply whose headers are `headers`, where the URL in them was read as `location`.
pub fn response_from(headers: SsdpHeaders, location: Result<WebUrl, String>) -> (out: Option<
    SsdpResponse,
>)
    ensures
        match out {
            Some(response) => response_with(headers@, url_view(location)) == Some(response@),
            None => response_with(headers@, url_view(location)) is None,
        },
{
    match location {
        Ok(location) => Some(
            SsdpResponse { location, usn: headers.usn, server: headers.server },
        ),
        Err(_) => None,
    }
}

/// The views of replies.
pub open spec fn response_views(list: Seq<SsdpResponse>) -> Seq<SsdpModel> {
    Seq::new(list.len(), |i: int| list[i]@)
}

/// Whether one of `list` is a reply of the device at `location`.
pub open spec fn has_location(list: Seq<SsdpModel>, location: Seq<char>) -> bool {
    exists|i: int| 0 <= i < list.len() && (#[trigger] list[i]).location.text == location
}

/// `list` and then `response`, unless the device at that location has replied before.
pub open spec fn offered(list: Seq<SsdpModel>, response: SsdpModel) -> Seq<SsdpModel> {
    if has_location(list, response.location.text) {
        list
    } else {
        list.push(response)
    }
}

/// Whether no two of `list` are at the same location.
pub open spec fn distinct_locations(list: Seq<SsdpModel>) -> bool {
    forall|i: int, j: int|
        0 <= i < j < list.len() ==> (#[trigger] list[i]).location.text != (
        #[trigger] list[j]).location.text
}

/// The first reply of each device.
#[derive(Debug)]
pub struct ResponseSet {
    list: Vec<SsdpResponse>,
}

impl View for ResponseSet {
    type V = Seq<SsdpModel>;

    closed spec fn view(&self) -> Seq<SsdpModel> {
        response_views(self.list@)
    }
}

impl ResponseSet {
    /// Whether no two replies are at the same location.
    pub open spec fn wf(&self) -> bool {
        distinct_locations(self@)
    }

    /// No replies.
    pub fn new() -> (out: ResponseSet)
        ensures
            out@ == Seq::<SsdpModel>::empty(),
            out.wf(),
    {
        let out = ResponseSet { list: Vec::new() };
        assert(out@ == Seq::<SsdpModel>::empty());
        out
    }

    /// Keeps `response`, unless the device at that location has replied before.
    pub fn offer(&mut self, response: SsdpResponse)
        requires
            old(self).wf(),
        ensures
            final(self)@ == offered(old(self)@, response@),
            final(self).wf(),
    {
        let mut i: usize = 0;
        while i < self.list.len()
            invariant
                self@ == old(self)@,
                self.wf(),
                i <= self.list@.len(),
                forall|k: int|
                    0 <= k < i ==> (#[trigger] self@[k]).location.text != response@.location.text,
            decreases self.list@.len() - i,
        {
            assert(self@[i as int] == self.list@[i as int]@);
            if same_text(self.list[i].location.as_str(), response.location.as_str()) {
                assert(has_location(self@, response@.location.text));
                return ;
            }
            i += 1;
        }
        assert(!has_location(self@, response@.location.text));
        self.list.push(response);
        assert(self@ == old(self)@.push(response@));
    }

    /// The replies, in the order in which they came.
    pub fn into_responses(self) -> (out: Vec<SsdpResponse>)
        ensures
            response_views(out@) == self@,
    {
        self.list
    }
}

/// What is kept of `replies`, one after the other.
pub open spec fn offered_all(replies: Seq<SsdpModel>) -> Seq<SsdpModel>
    decreases replies.len(),
{
    if replies.len() == 0 {
        seq![]
    } else {
        offered(offered_all(replies.drop_last()), replies.last())
    }
}

/// A location has replied exactly if a reply from there is kept.
proof fn lemma_locations_are_kept(replies: Seq<SsdpModel>, location: Seq<char>)
    ensures
        has_location(offered_all(replies), location) <==> has_location(replies, location),
    decreases replies.len(),
{
    if replies.len() > 0 {
        let kept = offered_all(replies);
        let before = replies.drop_last();
        let old_kept = offered_all(before);
        lemma_locations_are_kept(before, location);
        if has_location(replies, location) {
            let i = choose|i: int|
                0 <= i < replies.len() && (#[trigger] replies[i]).location.text == location;
            if i < before.len() {
                assert(before[i].location.text == location);
                let k = choose|k: int|
                    0 <= k < old_kept.len() && (#[trigger] old_kept[k]).location.text == location;
                assert(kept[k].location.text == location);
            } else if !has_location(old_kept, location) {
                assert(kept[old_kept.len() as int].location.text == location);
            }
        }
        if has_location(kept, location) {
            let k = choose|k: int|
                0 <= k < kept.len() && (#[trigger] kept[k]).location.text == location;
            if k < old_kept.len() {
                assert(old_kept[k].location.text == location);
                let i = choose|i: int|
                    0 <= i < before.len() && (#[trigger] before[i]).location.text == location;
                assert(replies[i].location.text == location);
            } else {
                assert(replies[replies.len() - 1].location.text == location);
            }
        }
    }
}

/// No two of the kept replies are at the same location.
proof fn lemma_kept_are_distinct(replies: Seq<SsdpModel>)
    ensures
        distinct_locations(offered_all(replies)),
    decreases replies.len(),
{
    if replies.len() > 0 {
        lemma_kept_are_distinct(replies.drop_last());
    }
}

/// A reply from a location that had not replied before is kept.
proof fn lemma_new_reply_is_kept(replies: Seq<SsdpModel>, i: int)
    requires
        0 <= i < replies.len(),
        !has_location(replies.take(i), replies[i].location.text),
    ensures
        offered_all(replies).contains(replies[i]),
    decreases replies.len(),
{
    let kept = offered_all(replies);
    let before = replies.drop_last();
    let old_kept = offered_all(before);
    if i < before.len() {
        assert(before.take(i) == replies.take(i));
        lemma_new_reply_is_kept(before, i);
        let k = choose|k: int| 0 <= k < old_kept.len() && old_kept[k] == before[i];
        assert(kept[k] == replies[i]);
    } else {
        assert(replies.take(i) == before);
        lemma_locations_are_kept(before, replies[i].location.text);
        assert(kept[old_kept.len() as int] == replies[i]);
    }
}

/// A kept reply is one of the replies.
proof fn lemma_kept_is_a_reply(replies: Seq<SsdpModel>, k: int)
    requires
        0 <= k < offered_all(replies).len(),
    ensures
        replies.contains(offered_all(replies)[k]),
    decreases replies.len(),
{
    let kept = offered_all(replies);
    let before = replies.drop_last();
    let old_kept = offered_all(before);
    if k < old_kept.len() {
        lemma_kept_is_a_reply(before, k);
        let i = choose|i: int| 0 <= i < before.len() && before[i] == old_kept[k];
        assert(replies[i] == kept[k]);
    } else {
        assert(replies[replies.len() - 1] == kept[k]);
    }
}

/// Of each device that replied, the first reply is kept, and nothing else.
pub proof fn lemma_first_reply_is_kept(replies: Seq<SsdpModel>)
    ensures
        distinct_locations(offered_all(replies)),
        forall|i: int|
            0 <= i < replies.len() && !has_location(
                replies.take(i),
                (#[trigger] replies[i]).location.text,
            ) ==> offered_all(replies).contains(replies[i]),
        forall|k: int|
            0 <= k < offered_all(replies).len() ==> replies.contains(
                #[trigger] offered_all(replies)[k],
            ),
        forall|location: Seq<char>|
            has_location(offered_all(replies), location) <==> #[trigger] has_location(
                replies,
                location,
            ),
{
    lemma_kept_are_distinct(replies);
    assert forall|i: int|
        0 <= i < replies.len() && !has_location(
            replies.take(i),
            (#[trigger] replies[i]).location.text,
        ) implies offered_all(replies).contains(replies[i]) by {
        lemma_new_reply_is_kept(replies, i);
    }
    assert forall|k: int| 0 <= k < offered_all(replies).len() implies replies.contains(
        #[trigger] offered_all(replies)[k],
    ) by {
        lemma_kept_is_a_reply(replies, k);
    }
    assert forall|location: Seq<char>|
        has_location(offered_all(replies), location) <==> #[trigger] has_location(
            replies,
            location,
        ) by {
        lemma_locations_are_kept(replies, location);
    }
}

/// A search names its address, what it is and the target, and other targets are searched for with
/// other datagrams. What is searched for are renderers, and what transports media.
pub proof fn lemma_searches(target: Seq<char>, other: Seq<char>)
    ensures
        line_list(search_text(target)) == seq![
            "M-SEARCH * HTTP/1.1"@,
            "HOST: 239.255.255.250:1900"@,
            "MAN: \"ssdp:discover\""@,
            "MX: 2"@,
        ] + line_list("ST: "@ + target + "\r\n\r\n"@),
        target != other ==> search_text(target) != search_text(other),
        search_targets().len() == 2,
        search_targets().contains("urn:schemas-upnp-org:device:MediaRenderer:1"@),
        search_targets().contains("urn:schemas-upnp-org:service:AVTransport:1"@),
{
    assert(search_targets()[0] == "urn:schemas-upnp-org:device:MediaRenderer:1"@);
    assert(search_targets()[1] == "urn:schemas-upnp-org:service:AVTransport:1"@);
    reveal_strlit("M-SEARCH * HTTP/1.1");
    reveal_strlit("HOST: 239.255.255.250:1900");
    reveal_strlit("MAN: \"ssdp:discover\"");
    reveal_strlit("MX: 2");
    reveal_strlit("ST: ");
    reveal_strlit("M-SEARCH * HTTP/1.1\r\nHOST: ");
    reveal_strlit("239.255.255.250:1900");
    reveal_strlit("\r\nMAN: \"ssdp:discover\"\r\nMX: 2\r\nST: ");
    let end = "\r\n\r\n"@;
    let stop = seq!['\r', '\n'];
    let (a, b, c, d) = (
        "M-SEARCH * HTTP/1.1"@,
        "HOST: 239.255.255.250:1900"@,
        "MAN: \"ssdp:discover\""@,
        "MX: 2"@,
    );
    let last = "ST: "@ + target + end;
    let head = "M-SEARCH * HTTP/1.1\r\nHOST: "@ + "239.255.255.250:1900"@
        + "\r\nMAN: \"ssdp:discover\"\r\nMX: 2\r\nST: "@;
    assert(head =~= a + stop + (b + stop + (c + stop + (d + stop + "ST: "@))));
    assert(search_text(target) == head + target + end);
    assert(search_text(target) =~= a + stop + (b + stop + (c + stop + (d + stop + last))));
    lemma_lines_are(a, b + stop + (c + stop + (d + stop + last)));
    lemma_lines_are(b, c + stop + (d + stop + last));
    lemma_lines_are(c, d + stop + last);
    lemma_lines_are(d, last);
    assert(line_list(search_text(target)) =~= seq![a, b, c, d] + line_list(last));
    if search_text(target) == search_text(other) {
        let (x, y) = (search_text(target), search_text(other));
        assert(x == head + target + end && y == head + other + end);
        assert(target.len() == other.len());
        assert(target =~= x.subrange(head.len() as int, (head.len() + target.len()) as int));
        assert(other =~= y.subrange(head.len() as int, (head.len() + target.len()) as int));
    }
}

/// Whether `line` is a header of the name `name`, which is in lower case.
pub open spec fn is_header(line: Seq<char>, name: Seq<char>) -> bool {
    match split_once(line, ':') {
        Some((left, _)) => ascii_lower(trimmed(left)) == name,
        None => false,
    }
}

/// Of several headers of one name the last counts, and its value is what follows the first colon,
/// without the white space around it; without such a header there is no value.
pub proof fn lemma_last_header_counts(
    lines: Seq<Seq<char>>,
    i: int,
    left: Seq<char>,
    right: Seq<char>,
    name: Seq<char>,
)
    requires
        forall|k: int| i < k < lines.len() ==> !is_header(#[trigger] lines[k], name),
        -1 <= i < lines.len(),
        i >= 0 ==> lines[i] == left + seq![':'] + right,
        i >= 0 ==> forall|k: int| 0 <= k < left.len() ==> left[k] != ':',
        i >= 0 ==> ascii_lower(trimmed(left)) == name,
    ensures
        i >= 0 ==> header_value(lines, name) == Some(trimmed(right)),
        i < 0 ==> header_value(lines, name) is None,
    decreases lines.len(),
{
    if lines.len() > 0 {
        if i == lines.len() - 1 {
            lemma_split_after(left, ':', right);
        } else {
            assert(!is_header(lines[lines.len() - 1], name));
            let before = lines.drop_last();
            assert forall|k: int| i < k < before.len() implies !is_header(
                #[trigger] before[k],
                name,
            ) by {
                assert(before[k] == lines[k]);
            }
            lemma_last_header_counts(before, i, left, right, name);
        }
    }
}

/// A reply counts exactly if its first line begins, after white space, with `HTTP/1.1 200` or
/// `HTTP/1.0 200` and it has a header `location` that is a URL. That URL is its location; `usn`
/// and `server` are taken over if they are there.
pub proof fn lemma_replies_that_count(text: Seq<char>)
    ensures
        ({
            let lines = line_list(text);
            let headers = lines.drop_first();
            let location = header_value(headers, "location"@);
            let found = ssdp_response(text);
            &&& found is Some <==> {
                &&& lines.len() > 0
                &&& "HTTP/1.1 200"@.is_prefix_of(trimmed(lines[0]))
                    || "HTTP/1.0 200"@.is_prefix_of(trimmed(lines[0]))
                &&& location is Some
                &&& parsed_url(location->0) is Ok
            }
            &&& found is Some ==> found->0.location == parsed_url(location->0)->Ok_0
            &&& found is Some ==> found->0.usn == header_value(headers, "usn"@)
            &&& found is Some ==> found->0.server == header_value(headers, "server"@)
        }),
{
}

/// What is kept stays, in its order; a reply from a new location is kept after it, and one from a
/// known location is not.
pub proof fn lemma_offers(list: Seq<SsdpModel>, response: SsdpModel)
    ensures
        list.is_prefix_of(offered(list, response)),
        has_location(list, response.location.text) ==> offered(list, response).len() == list.len(),
        !has_location(list, response.location.text) ==> offered(list, response).len() == list.len()
            + 1 && offered(list, response).last() == response,
{
}

} // verus!
