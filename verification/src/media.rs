//! Serving a local file to a renderer: ranges, replies, addresses and counters.

use vstd::prelude::*;

use crate::number::{
    decimal, is_digit, lemma_decimal, lemma_parse_decimal, parse_u64, push_number, read_u64,
};
use crate::text::{
    all_space, chars_of, cut, find_char, lemma_position, lemma_split_after, lemma_split_nowhere,
    lemma_trimmed_is, lemma_trimmed_parts, lemma_trimmed_twice, position, same_text, split_all,
    split_once, starts_with, trim, trimmed,
};
use crate::weburl::{opt_text, parsed_url, url_view, WebUrl};

verus! {

/// The first and the last byte that a range header asks for, of a file of `size` bytes.
pub open spec fn byte_range(value: Seq<char>, size: nat) -> Option<(nat, nat)> {
    let prefix = "bytes="@;
    let ranges = value.skip(prefix.len() as int);
    if size == 0 || !prefix.is_prefix_of(value) || position(ranges, ',') < ranges.len() {
        None
    } else {
        match split_once(ranges, '-') {
            None => None,
            Some((from, to)) => range_between(trimmed(from), trimmed(to), size),
        }
    }
}

/// The range from `from` to `to` in a file of `size` bytes. An empty `to` asks for all that
/// follows; an empty `from` asks for the last `to` bytes.
pub open spec fn range_between(from: Seq<char>, to: Seq<char>, size: nat) -> Option<(nat, nat)> {
    if from.len() == 0 {
        match parse_u64(to) {
            Ok(n) => if n == 0 {
                None
            } else if n <= size {
                Some(((size - n) as nat, (size - 1) as nat))
            } else {
                Some((0, (size - 1) as nat))
            },
            Err(_) => None,
        }
    } else {
        match (parse_u64(from), parse_u64(to)) {
            (Ok(first), Ok(last)) => if first < size && first <= last {
                Some(
                    (
                        first,
                        if last < size {
                            last
                        } else {
                            (size - 1) as nat
                        },
                    ),
                )
            } else {
                None
            },
            (Ok(first), Err(_)) => if to.len() == 0 && first < size {
                Some((first, (size - 1) as nat))
            } else {
                None
            },
            _ => None,
        }
    }
}

/// A pair of numbers as a pair of natural numbers.
pub open spec fn range_view(range: Option<(u64, u64)>) -> Option<(nat, nat)> {
    match range {
        Some((first, last)) => Some((first as nat, last as nat)),
        None => None,
    }
}

/// Reads a range header for a file of `size` bytes.
pub fn parse_range(value: &str, size: u64) -> (out: Option<(u64, u64)>)
    ensures
        range_view(out) == byte_range(value@, size as nat),
{
    if size == 0 {
        return None;
    }
    let chars = chars_of(value);
    if !starts_with(&chars, "bytes=") {
        return None;
    }
    proof {
        reveal_strlit("bytes=");
    }
    let ranges: &[char] = &chars[6..chars.len()];
    assert(ranges@ == value@.skip(6));
    if find_char(ranges, ',') < ranges.len() {
        return None;
    }
    let (from, to): (&[char], &[char]) = match cut(ranges, '-') {
        Some((from, to)) => (trim(from), trim(to)),
        None => return None,
    };
    if from.len() == 0 {
        let suffix: u64 = match read_u64(to) {
            Ok(n) => n,
            Err(_) => return None,
        };
        if suffix == 0 {
            return None;
        }
        let length: u64 = if suffix < size {
            suffix
        } else {
            size
        };
        return Some((size - length, size - 1));
    }
    let first: u64 = match read_u64(from) {
        Ok(n) => n,
        Err(_) => return None,
    };
    if to.len() == 0 {
        if first < size {
            Some((first, size - 1))
        } else {
            None
        }
    } else {
        let last: u64 = match read_u64(to) {
            Ok(n) => n,
            Err(_) => return None,
        };
        if first >= size || first > last {
            None
        } else {
            Some(
                (
                    first,
                    if last < size - 1 {
                        last
                    } else {
                        size - 1
                    },
                ),
            )
        }
    }
}

/// A range that a header asks for lies in the file and holds at least one byte.
pub proof fn lemma_range_in_file(value: Seq<char>, size: nat)
    ensures
        byte_range(value, size) matches Some((first, last)) ==> first <= last < size,
{
}

/// A header with one dash after `bytes=` asks for what stands around the dash.
proof fn lemma_header_parts(from: Seq<char>, to: Seq<char>, size: nat)
    requires
        size > 0,
        forall|k: int| 0 <= k < from.len() ==> from[k] != '-' && from[k] != ',',
        forall|k: int| 0 <= k < to.len() ==> to[k] != ',',
    ensures
        byte_range("bytes="@ + from + seq!['-'] + to, size) == range_between(
            trimmed(from),
            trimmed(to),
            size,
        ),
{
    let head = "bytes="@;
    let ranges = from + seq!['-'] + to;
    let value = head + from + seq!['-'] + to;
    assert(value == head + ranges);
    assert(value.skip(head.len() as int) == ranges);
    assert(value.take(head.len() as int) == head);
    assert(head.is_prefix_of(value));
    assert forall|k: int| 0 <= k < ranges.len() implies ranges[k] != ',' by {
        if k < from.len() {
            assert(ranges[k] == from[k]);
        } else if k > from.len() {
            assert(ranges[k] == to[k - from.len() - 1]);
        }
    }
    lemma_split_nowhere(ranges, ',');
    lemma_split_after(from, '-', to);
}

/// The digits of a number are neither a dash nor a comma, and no white space stands around them.
proof fn lemma_plain_number(n: nat)
    ensures
        forall|k: int| 0 <= k < decimal(n).len() ==> decimal(n)[k] != '-' && decimal(n)[k] != ',',
        trimmed(decimal(n)) == decimal(n),
        decimal(n).len() > 0,
{
    let s = decimal(n);
    lemma_decimal(n);
    assert forall|k: int| 0 <= k < s.len() implies s[k] != '-' && s[k] != ',' by {
        assert(is_digit(s[k]));
    }
    assert(is_digit(s[0]) && is_digit(s[s.len() - 1]));
    let none = Seq::<char>::empty();
    lemma_trimmed_is(none, s, none);
    assert(none + s + none == s);
}

/// Of a file of `size` bytes, `bytes=a-` asks for all from byte `a` on, and is refused if there
/// is no byte `a`.
pub proof fn lemma_open_range(a: nat, size: nat)
    requires
        a <= u64::MAX,
    ensures
        byte_range("bytes="@ + decimal(a) + seq!['-'], size) == (if a < size {
            Some((a, (size - 1) as nat))
        } else {
            None
        }),
{
    if size > 0 {
        let none = Seq::<char>::empty();
        lemma_plain_number(a);
        lemma_parse_decimal(a, u64::MAX as nat);
        lemma_header_parts(decimal(a), none, size);
        assert("bytes="@ + decimal(a) + seq!['-'] + none == "bytes="@ + decimal(a) + seq!['-']);
        assert(trimmed(none) == none);
    }
}

/// Of a file of `size` bytes, `bytes=a-b` asks for the bytes from `a` to `b`, or to the last one
/// if there is no byte `b`; it is refused if there is no byte `a`, or if `b` comes before it.
pub proof fn lemma_closed_range(a: nat, b: nat, size: nat)
    requires
        a <= u64::MAX,
        b <= u64::MAX,
    ensures
        byte_range("bytes="@ + decimal(a) + seq!['-'] + decimal(b), size) == (if a < size && a
            <= b {
            Some(
                (
                    a,
                    if b <= size - 1 {
                        b
                    } else {
                        (size - 1) as nat
                    },
                ),
            )
        } else {
            None
        }),
{
    if size > 0 {
        lemma_plain_number(a);
        lemma_plain_number(b);
        lemma_parse_decimal(a, u64::MAX as nat);
        lemma_parse_decimal(b, u64::MAX as nat);
        lemma_header_parts(decimal(a), decimal(b), size);
    }
}

/// Of a file of `size` bytes, `bytes=-n` asks for the last `n` bytes, or for all of it if it has
/// fewer; it is refused if that is none.
pub proof fn lemma_suffix_range(n: nat, size: nat)
    requires
        n <= u64::MAX,
    ensures
        byte_range("bytes="@ + seq!['-'] + decimal(n), size) == (if n > 0 && size > 0 {
            Some(
                (
                    if n <= size {
                        (size - n) as nat
                    } else {
                        0
                    },
                    (size - 1) as nat,
                ),
            )
        } else {
            None
        }),
{
    if size > 0 {
        let none = Seq::<char>::empty();
        lemma_plain_number(n);
        lemma_parse_decimal(n, u64::MAX as nat);
        lemma_header_parts(none, decimal(n), size);
        assert("bytes="@ + none + seq!['-'] + decimal(n) == "bytes="@ + seq!['-'] + decimal(n));
        assert(trimmed(none) == none);
    }
}

/// White space around the numbers of a range does not count.
pub proof fn lemma_range_spaces_do_not_count(from: Seq<char>, to: Seq<char>, size: nat)
    requires
        forall|k: int| 0 <= k < from.len() ==> from[k] != '-' && from[k] != ',',
        forall|k: int| 0 <= k < to.len() ==> to[k] != ',',
    ensures
        byte_range("bytes="@ + from + seq!['-'] + to, size) == byte_range(
            "bytes="@ + trimmed(from) + seq!['-'] + trimmed(to),
            size,
        ),
{
    if size > 0 {
        lemma_header_parts(from, to, size);
        lemma_trimmed_parts(from);
        lemma_trimmed_parts(to);
        let (l, r) = choose|l: Seq<char>, r: Seq<char>|
            all_space(l) && all_space(r) && from == #[trigger] (l + trimmed(from) + r);
        assert forall|k: int| 0 <= k < trimmed(from).len() implies trimmed(from)[k] != '-'
            && trimmed(from)[k] != ',' by {
            assert(from[l.len() + k] == trimmed(from)[k]);
        }
        let (p, q) = choose|p: Seq<char>, q: Seq<char>|
            all_space(p) && all_space(q) && to == #[trigger] (p + trimmed(to) + q);
        assert forall|k: int| 0 <= k < trimmed(to).len() implies trimmed(to)[k] != ',' by {
            assert(to[p.len() + k] == trimmed(to)[k]);
        }
        lemma_header_parts(trimmed(from), trimmed(to), size);
        lemma_trimmed_twice(from);
        lemma_trimmed_twice(to);
    }
}

/// A header is refused that does not begin with `bytes=`, that has a comma or no dash after that,
/// or in which what stands before or after the first dash is neither a number nor empty, and so
/// is one in which both are empty; and nothing can be asked of an empty file.
pub proof fn lemma_ranges_refused(value: Seq<char>, from: Seq<char>, to: Seq<char>, size: nat)
    ensures
        byte_range(value, 0) is None,
        !"bytes="@.is_prefix_of(value) ==> byte_range(value, size) is None,
        (exists|k: int| "bytes="@.len() <= k < value.len() && #[trigger] value[k] == ',')
            ==> byte_range(value, size) is None,
        (forall|k: int| "bytes="@.len() <= k < value.len() ==> #[trigger] value[k] != '-')
            ==> byte_range(value, size) is None,
        value == "bytes="@ + from + seq!['-'] + to && !from.contains('-') && ((trimmed(from).len()
            > 0 && parse_u64(trimmed(from)) is Err) || (trimmed(to).len() > 0 && parse_u64(
            trimmed(to),
        ) is Err) || (trimmed(from).len() == 0 && trimmed(to).len() == 0)) ==> byte_range(
            value,
            size,
        ) is None,
{
    let head = "bytes="@;
    let ranges = value.skip(head.len() as int);
    if head.is_prefix_of(value) {
        if exists|k: int| head.len() <= k < value.len() && #[trigger] value[k] == ',' {
            let k = choose|k: int| head.len() <= k < value.len() && #[trigger] value[k] == ',';
            assert(ranges[k - head.len()] == ',');
            lemma_position(ranges, ',');
        }
        if forall|k: int| head.len() <= k < value.len() ==> #[trigger] value[k] != '-' {
            assert forall|k: int| 0 <= k < ranges.len() implies ranges[k] != '-' by {
                assert(value[k + head.len()] != '-');
            }
            lemma_split_nowhere(ranges, '-');
        }
        if value == head + from + seq!['-'] + to && !from.contains('-') {
            assert(ranges == from + seq!['-'] + to);
            assert forall|k: int| 0 <= k < from.len() implies from[k] != '-' by {
                assert(from.contains(from[k]));
            }
            lemma_split_after(from, '-', to);
        }
    }
}

/// The media type that goes with the extension of the file at `path`.
pub uninterp spec fn guessed_mime(path: Seq<char>) -> Option<Seq<char>>;

/// `mime_guess::from_path` looks the extension of the path, as `Path::extension` gives it, up in a
/// table and reads no file; `guessed_mime` names the first media type that it finds, without
/// parameters.
#[verifier::external_body]
fn guess_with_mime_guess(path: &str) -> (out: Option<String>)
    ensures
        match out {
            Some(mime) => guessed_mime(path@) == Some(mime@),
            None => guessed_mime(path@) is None,
        },
{
    mime_guess::from_path(path).first().map(|mime| mime.essence_str().to_owned())
}

/// Guesses the media type of the file at `path`.
pub fn guess_mime(path: &str) -> (out: Option<String>)
    ensures
        opt_text(out) == guessed_mime(path@),
{
    guess_with_mime_guess(path)
}

/// `guess`, or `default` if there is none.
pub open spec fn mime_or(guess: Option<Seq<char>>, default: Seq<char>) -> Seq<char> {
    match guess {
        Some(mime) => mime,
        None => default,
    }
}

/// `guess`, or `default` if there is none.
pub fn choose_mime(guess: Option<String>, default: &str) -> (out: String)
    ensures
        out@ == mime_or(opt_text(guess), default@),
{
    match guess {
        Some(mime) => mime,
        None => default.to_owned(),
    }
}

/// Whether `c` is a hexadecimal digit in lower case.
pub open spec fn is_lower_hex(c: char) -> bool {
    '0' <= c <= '9' || 'a' <= c <= 'f'
}

/// Whether `s` is a random identifier: 32 hexadecimal digits, of which two give its version and
/// its variant.
pub open spec fn is_token(s: Seq<char>) -> bool {
    &&& s.len() == 32
    &&& forall|i: int| 0 <= i < 32 ==> is_lower_hex(#[trigger] s[i])
    &&& s[12] == '4'
    &&& s[16] == '8' || s[16] == '9' || s[16] == 'a' || s[16] == 'b'
}

/// `uuid::Uuid::new_v4` draws a random identifier, and its simple form writes it as 32
/// hexadecimal digits in lower case. Which identifier is drawn is left to chance, and the call
/// panics if the system has no random numbers.
#[verifier::external_body]
pub(crate) fn random_token() -> (out: String)
    ensures
        is_token(out@),
{
    uuid::Uuid::new_v4().simple().to_string()
}

/// Whether a byte stands for itself in a form.
pub open spec fn is_form_byte(b: u8) -> bool {
    ||| 0x30 <= b <= 0x39
    ||| 0x41 <= b <= 0x5a
    ||| 0x61 <= b <= 0x7a
    ||| b == 0x2a
    ||| b == 0x2d
    ||| b == 0x2e
    ||| b == 0x5f
}

/// The hexadecimal digit, in upper case, that counts `n`.
pub open spec fn upper_hex(n: int) -> char {
    if n < 10 {
        (0x30 + n) as char
    } else {
        (0x41 + (n - 10)) as char
    }
}

/// What stands for a byte in a form.
pub open spec fn form_byte(b: u8) -> Seq<char> {
    if is_form_byte(b) {
        seq![b as char]
    } else if b == 0x20 {
        seq!['+']
    } else {
        seq!['%', upper_hex(b as int / 16), upper_hex(b as int % 16)]
    }
}

/// What stands for `bytes` in a form.
pub open spec fn form_encoded(bytes: Seq<u8>) -> Seq<char>
    decreases bytes.len(),
{
    if bytes.len() == 0 {
        seq![]
    } else {
        form_byte(bytes.first()) + form_encoded(bytes.drop_first())
    }
}

/// `url::form_urlencoded::byte_serialize` keeps letters, digits and the bytes `*`, `-`, `.` and
/// `_`, writes a space as `+`, and every other byte as `%` and two hexadecimal digits.
#[verifier::external_body]
fn form_encode(bytes: &[u8]) -> (out: String)
    ensures
        out@ == form_encoded(bytes@),
{
    url::form_urlencoded::byte_serialize(bytes).collect()
}

/// Whether `c` is one of the characters that an encoded name is made of.
pub open spec fn is_form_char(c: char) -> bool {
    ||| '0' <= c <= '9'
    ||| 'A' <= c <= 'Z'
    ||| 'a' <= c <= 'z'
    ||| c == '*'
    ||| c == '-'
    ||| c == '.'
    ||| c == '_'
    ||| c == '+'
    ||| c == '%'
}

/// An encoded name is one segment of a path: it holds no slash, no question mark, no hash and
/// no character that is not ASCII.
pub proof fn lemma_form_encoded_is_a_segment(bytes: Seq<u8>)
    ensures
        forall|i: int| 0 <= i < form_encoded(bytes).len() ==> is_form_char(
            #[trigger] form_encoded(bytes)[i],
        ),
    decreases bytes.len(),
{
    if bytes.len() > 0 {
        let head = form_byte(bytes.first());
        let tail = form_encoded(bytes.drop_first());
        lemma_form_encoded_is_a_segment(bytes.drop_first());
        assert forall|i: int| 0 <= i < form_encoded(bytes).len() implies is_form_char(
            #[trigger] form_encoded(bytes)[i],
        ) by {
            if i < head.len() {
                assert(form_encoded(bytes)[i] == head[i]);
            } else {
                assert(form_encoded(bytes)[i] == tail[i - head.len()]);
            }
        }
    }
}

/// The address of a served file.
pub open spec fn media_address(
    local_ip: Seq<char>,
    port: u16,
    token: Seq<char>,
    file_name: Seq<char>,
) -> Seq<char> {
    "http://"@ + local_ip + seq![':'] + decimal(port as nat) + "/media/"@ + token + seq!['/']
        + form_encoded(vstd::utf8::encode_utf8(file_name))
}

/// Writes the address of a served file.
pub fn media_address_text(local_ip: &str, port: u16, token: &str, file_name: &str) -> (out: String)
    ensures
        out@ == media_address(local_ip@, port, token@, file_name@),
{
    let mut out = "http://".to_owned();
    out.append(local_ip);
    out.push(':');
    push_number(&mut out, port as u64);
    out.append("/media/");
    out.append(token);
    out.push('/');
    out.append(form_encode(file_name.as_bytes()).as_str());
    assert(out@ == media_address(local_ip@, port, token@, file_name@));
    out
}

/// What is known of a file that is to be served.
#[derive(Debug)]
pub struct MediaFile {
    /// Its path as it was given.
    pub given: String,
    /// Its path without links and relative parts.
    pub path: String,
    /// The last component of that path, if it is text.
    pub name: Option<String>,
    /// Whether it is a regular file.
    pub is_file: bool,
    /// How many bytes it holds.
    pub size: u64,
}

/// Why a file is not served.
#[derive(Debug, PartialEq, Eq)]
pub enum MediaError {
    /// What lies at the given path is not a regular file.
    NotAFile(String),
}

impl MediaError {
    /// What the error is called in messages.
    pub open spec fn text(self) -> Seq<char> {
        match self {
            MediaError::NotAFile(given) => "media source is not a regular file: "@ + given@,
        }
    }

    /// The message of the error.
    pub fn message(&self) -> (out: String)
        ensures
            out@ == self.text(),
    {
        match self {
            MediaError::NotAFile(given) => {
                let mut out = "media source is not a regular file: ".to_owned();
                out.append(given.as_str());
                out
            },
        }
    }
}

/// A file that is served to a renderer, under an address that holds a token.
#[derive(Debug)]
pub struct MediaServer {
    port: u16,
    token: String,
    file_name: String,
    mime: String,
    size: u64,
    stats: TransferStats,
}

/// What a `MediaServer` holds.
pub struct MediaModel {
    pub port: u16,
    pub token: Seq<char>,
    pub file_name: Seq<char>,
    pub mime: Seq<char>,
    pub size: u64,
    pub stats: StatsModel,
}

impl View for MediaServer {
    type V = MediaModel;

    closed spec fn view(&self) -> MediaModel {
        MediaModel {
            port: self.port,
            token: self.token@,
            file_name: self.file_name@,
            mime: self.mime@,
            size: self.size,
            stats: self.stats@,
        }
    }
}

/// A server of `file` with the given token, for a file whose media type was guessed, that has
/// sent nothing.
pub open spec fn server_of(
    file: MediaFile,
    port: u16,
    token: Seq<char>,
    guess: Option<Seq<char>>,
) -> MediaModel {
    MediaModel {
        port,
        token,
        file_name: match file.name {
            Some(name) => name@,
            None => "media"@,
        },
        mime: mime_or(guess, "application/octet-stream"@),
        size: file.size,
        stats: fresh_stats(file.size),
    }
}

impl MediaServer {
    /// A server of `file` with the given token and the media type that was guessed.
    pub fn with_token(file: &MediaFile, port: u16, token: String, guess: Option<String>) -> (out:
        Result<MediaServer, MediaError>)
        ensures
            match out {
                Ok(server) => file.is_file && server@ == server_of(
                    *file,
                    port,
                    token@,
                    opt_text(guess),
                ),
                Err(MediaError::NotAFile(given)) => !file.is_file && given@ == file.given@,
            },
    {
        if !file.is_file {
            return Err(MediaError::NotAFile(file.given.clone()));
        }
        let file_name = match &file.name {
            Some(name) => name.clone(),
            None => "media".to_owned(),
        };
        let mime = choose_mime(guess, "application/octet-stream");
        let stats = TransferStats::new(file.size);
        Ok(MediaServer { port, token, file_name, mime, size: file.size, stats })
    }

    /// A server of `file` on the port `port`, with a token that nobody knows.
    pub fn start(file: &MediaFile, port: u16) -> (out: Result<MediaServer, MediaError>)
        ensures
            match out {
                Ok(server) => {
                    &&& file.is_file
                    &&& is_token(server@.token)
                    &&& server@ == server_of(
                        *file,
                        port,
                        server@.token,
                        guessed_mime(file.path@),
                    )
                },
                Err(MediaError::NotAFile(given)) => !file.is_file && given@ == file.given@,
            },
    {
        let guess = guess_mime(file.path.as_str());
        MediaServer::with_token(file, port, random_token(), guess)
    }

    /// The address under which a renderer reaches the file, where this machine has the address
    /// `local_ip` in the renderer's network.
    pub fn url_for_device(&self, local_ip: &str) -> (out: Result<WebUrl, String>)
        ensures
            url_view(out) == parsed_url(
                media_address(local_ip@, self@.port, self@.token, self@.file_name),
            ),
    {
        let address = media_address_text(
            local_ip,
            self.port,
            self.token.as_str(),
            self.file_name.as_str(),
        );
        WebUrl::parse(address.as_str())
    }

    /// The media type of the file.
    pub fn mime(&self) -> (out: &str)
        ensures
            out@ == self@.mime,
    {
        self.mime.as_str()
    }

    /// How much of the file has been sent, and since when.
    pub fn stats(&self) -> (out: &TransferStats)
        ensures
            out@ == self@.stats,
    {
        &self.stats
    }

    /// Counts `bytes` of the file that were sent at the time `now`.
    pub fn count_sent(&mut self, bytes: u64, now: u64)
        ensures
            final(self)@ == (MediaModel {
                stats: stats_after(old(self)@.stats, bytes, now),
                ..old(self)@
            }),
    {
        self.stats.add_bytes(bytes, now);
    }

    /// Decides what is replied to a request for the address with `token`, whose range header is
    /// `range` if it has one.
    pub fn answer(&self, token: &str, range: Option<&str>) -> (out: MediaReply)
        ensures
            out@ == reply_to(self@, token@, opt_str(range)),
    {
        if !same_text(token, self.token.as_str()) {
            return self.refuse(404);
        }
        let size: u64 = self.size;
        let (status, first, last): (u16, u64, u64) = match range {
            Some(value) => match parse_range(value, size) {
                Some((first, last)) => (206, first, last),
                None => {
                    let mut headers = self.headers(None);
                    let ghost before = header_views(headers@);
                    let value = unsatisfied_text(size);
                    headers.push(Header { name: "content-range".to_owned(), value });
                    assert(header_views(headers@) == before.push(
                        ("content-range"@, unsatisfied(size as nat)),
                    ));
                    return MediaReply { status: 416, headers, first: 0, length: 0 };
                },
            },
            None => (200, 0, size.saturating_sub(1)),
        };
        proof {
            if range is Some {
                lemma_range_in_file(range->0@, size as nat);
            }
        }
        let length: u64 = if size == 0 {
            0
        } else {
            last - first + 1
        };
        let mut headers = self.headers(Some(length));
        if status == 206 {
            let ghost before = header_views(headers@);
            let value = content_range_text(first, last, size);
            headers.push(Header { name: "content-range".to_owned(), value });
            assert(header_views(headers@) == before.push(
                ("content-range"@, content_range(first as nat, last as nat, size as nat)),
            ));
        }
        MediaReply { status, headers, first, length }
    }

    /// A reply of the status `status` that sends nothing of the file; 500 is the status if the
    /// file cannot be read.
    pub fn refuse(&self, status: u16) -> (out: MediaReply)
        ensures
            out@ == refusal(self@, status),
    {
        MediaReply { status, headers: self.headers(None), first: 0, length: 0 }
    }

    /// The headers of every reply, with the length of the body if it has one.
    fn headers(&self, length: Option<u64>) -> (out: Vec<Header>)
        ensures
            header_views(out@) == reply_headers(self@.mime, length),
    {
        let mut out: Vec<Header> = Vec::new();
        out.push(header("accept-ranges", "bytes"));
        out.push(header("access-control-allow-origin", "*"));
        out.push(header("content-type", self.mime.as_str()));
        if let Some(length) = length {
            let mut value = String::new();
            push_number(&mut value, length);
            assert(value@ == decimal(length as nat));
            out.push(Header { name: "content-length".to_owned(), value });
        }
        out.push(header("transfermode.dlna.org", "Streaming"));
        out.push(
            header(
                "contentfeatures.dlna.org",
                "DLNA.ORG_OP=01;DLNA.ORG_CI=0;DLNA.ORG_FLAGS=01700000000000000000000000000000",
            ),
        );
        assert(header_views(out@) == reply_headers(self@.mime, length));
        out
    }
}

/// The view of an optional text.
pub open spec fn opt_str(s: Option<&str>) -> Option<Seq<char>> {
    match s {
        Some(s) => Some(s@),
        None => None,
    }
}

/// A header of a reply.
#[derive(Debug, PartialEq, Eq)]
pub struct Header {
    pub name: String,
    pub value: String,
}

/// The views of names and values of headers.
pub open spec fn header_views(headers: Seq<Header>) -> Seq<(Seq<char>, Seq<char>)> {
    Seq::new(headers.len(), |i: int| (headers[i].name@, headers[i].value@))
}

/// A header.
fn header(name: &str, value: &str) -> (out: Header)
    ensures
        out.name@ == name@,
        out.value@ == value@,
{
    Header { name: name.to_owned(), value: value.to_owned() }
}

/// What is replied to a request for a served file: a status, headers, and the bytes of the file
/// from `first` on, `length` of them.
#[derive(Debug, PartialEq, Eq)]
pub struct MediaReply {
    pub status: u16,
    pub headers: Vec<Header>,
    pub first: u64,
    pub length: u64,
}

/// What a `MediaReply` holds.
pub struct ReplyModel {
    pub status: u16,
    pub headers: Seq<(Seq<char>, Seq<char>)>,
    pub first: nat,
    pub length: nat,
}

impl View for MediaReply {
    type V = ReplyModel;

    open spec fn view(&self) -> ReplyModel {
        ReplyModel {
            status: self.status,
            headers: header_views(self.headers@),
            first: self.first as nat,
            length: self.length as nat,
        }
    }
}

/// The headers of every reply, with the length of the body if it has one.
pub open spec fn reply_headers(mime: Seq<char>, length: Option<u64>) -> Seq<
    (Seq<char>, Seq<char>),
> {
    seq![
        ("accept-ranges"@, "bytes"@),
        ("access-control-allow-origin"@, "*"@),
        ("content-type"@, mime),
    ] + (match length {
        Some(n) => seq![("content-length"@, decimal(n as nat))],
        None => seq![],
    }) + seq![
        ("transfermode.dlna.org"@, "Streaming"@),
        (
            "contentfeatures.dlna.org"@,
            "DLNA.ORG_OP=01;DLNA.ORG_CI=0;DLNA.ORG_FLAGS=01700000000000000000000000000000"@,
        ),
    ]
}

/// The range of a reply that sends a part of a file.
pub open spec fn content_range(first: nat, last: nat, size: nat) -> Seq<char> {
    "bytes "@ + decimal(first) + seq!['-'] + decimal(last) + seq!['/'] + decimal(size)
}

/// The range of a reply to a request for a part that a file of `size` bytes does not have.
pub open spec fn unsatisfied(size: nat) -> Seq<char> {
    "bytes */"@ + decimal(size)
}

/// Writes the range of a reply that sends a part of a file.
fn content_range_text(first: u64, last: u64, size: u64) -> (out: String)
    ensures
        out@ == content_range(first as nat, last as nat, size as nat),
{
    let mut out = "bytes ".to_owned();
    push_number(&mut out, first);
    out.push('-');
    push_number(&mut out, last);
    out.push('/');
    push_number(&mut out, size);
    assert(out@ == content_range(first as nat, last as nat, size as nat));
    out
}

/// Writes the range of a reply to a request for a part that the file does not have.
fn unsatisfied_text(size: u64) -> (out: String)
    ensures
        out@ == unsatisfied(size as nat),
{
    let mut out = "bytes */".to_owned();
    push_number(&mut out, size);
    out
}

/// A reply of the status `status` that sends nothing of the file.
pub open spec fn refusal(server: MediaModel, status: u16) -> ReplyModel {
    ReplyModel { status, headers: reply_headers(server.mime, None), first: 0, length: 0 }
}

/// What is replied to a request for the address with `token` and a range header or none.
pub open spec fn reply_to(
    server: MediaModel,
    token: Seq<char>,
    range: Option<Seq<char>>,
) -> ReplyModel {
    if token != server.token {
        refusal(server, 404)
    } else {
        match range {
            None => ReplyModel {
                status: 200,
                headers: reply_headers(server.mime, Some(server.size)),
                first: 0,
                length: server.size as nat,
            },
            Some(value) => match byte_range(value, server.size as nat) {
                None => ReplyModel {
                    status: 416,
                    headers: reply_headers(server.mime, None).push(
                        ("content-range"@, unsatisfied(server.size as nat)),
                    ),
                    first: 0,
                    length: 0,
                },
                Some((first, last)) => ReplyModel {
                    status: 206,
                    headers: reply_headers(server.mime, Some((last - first + 1) as u64)).push(
                        ("content-range"@, content_range(first, last, server.size as nat)),
                    ),
                    first,
                    length: (last - first + 1) as nat,
                },
            },
        }
    }
}

/// A reply never sends more than the file holds, and sends nothing of it to one who does not
/// know the token.
pub proof fn lemma_reply_stays_in_file(
    server: MediaModel,
    token: Seq<char>,
    range: Option<Seq<char>>,
)
    ensures
        ({
            let reply = reply_to(server, token, range);
            &&& reply.first + reply.length <= server.size
            &&& token != server.token ==> reply.status == 404 && reply.length == 0
        }),
{
    if range is Some {
        lemma_range_in_file(range->0, server.size as nat);
    }
}

/// The names of the headers differ.
proof fn lemma_header_names()
    ensures
        "accept-ranges"@.len() == 13,
        "access-control-allow-origin"@.len() == 27,
        "content-type"@.len() == 12,
        "content-length"@.len() == 14,
        "content-range"@.len() == 13,
        "transfermode.dlna.org"@.len() == 21,
        "contentfeatures.dlna.org"@.len() == 24,
        "accept-ranges"@ != "content-range"@,
{
    reveal_strlit("accept-ranges");
    reveal_strlit("access-control-allow-origin");
    reveal_strlit("content-type");
    reveal_strlit("content-length");
    reveal_strlit("content-range");
    reveal_strlit("transfermode.dlna.org");
    reveal_strlit("contentfeatures.dlna.org");
    assert("accept-ranges"@[0] == 'a' && "content-range"@[0] == 'c');
}

/// The headers of every reply are those.
proof fn lemma_common_headers(mime: Seq<char>, length: Option<u64>)
    ensures
        ({
            let headers = reply_headers(mime, length);
            &&& headers.contains(("accept-ranges"@, "bytes"@))
            &&& headers.contains(("access-control-allow-origin"@, "*"@))
            &&& headers.contains(("content-type"@, mime))
            &&& headers.contains(("transfermode.dlna.org"@, "Streaming"@))
            &&& headers.contains(
                (
                    "contentfeatures.dlna.org"@,
                    "DLNA.ORG_OP=01;DLNA.ORG_CI=0;DLNA.ORG_FLAGS=01700000000000000000000000000000"@,
                ),
            )
            &&& length is Some ==> headers.contains(
                ("content-length"@, decimal(length->0 as nat)),
            )
            &&& names_once(headers)
            &&& forall|i: int| 0 <= i < headers.len() ==> (#[trigger] headers[i]).0
                != "content-range"@
            &&& length is None ==> forall|i: int|
                0 <= i < headers.len() ==> (#[trigger] headers[i]).0 != "content-length"@
        }),
{
    lemma_header_names();
    let headers = reply_headers(mime, length);
    let n: int = if length is Some {
        4
    } else {
        3
    };
    assert(headers[0] == ("accept-ranges"@, "bytes"@));
    assert(headers[1] == ("access-control-allow-origin"@, "*"@));
    assert(headers[2] == ("content-type"@, mime));
    if length is Some {
        assert(headers[3] == ("content-length"@, decimal(length->0 as nat)));
    }
    assert(headers[n] == ("transfermode.dlna.org"@, "Streaming"@));
    assert(headers[n + 1] == (
        "contentfeatures.dlna.org"@,
        "DLNA.ORG_OP=01;DLNA.ORG_CI=0;DLNA.ORG_FLAGS=01700000000000000000000000000000"@,
    ));
    assert(headers.len() == n + 2);
    assert forall|i: int| 0 <= i < headers.len() implies (#[trigger] headers[i]).0
        != "content-range"@ && (length is None ==> headers[i].0 != "content-length"@) by {
        assert(i == 0 || i == 1 || i == 2 || i == n - 1 || i == n || i == n + 1);
    }
    assert forall|i: int, j: int| 0 <= i < j < headers.len() implies (#[trigger] headers[i]).0 != (
    #[trigger] headers[j]).0 by {
        assert(i == 0 || i == 1 || i == 2 || i == n - 1 || i == n || i == n + 1);
        assert(j == 0 || j == 1 || j == 2 || j == n - 1 || j == n || j == n + 1);
        assert(headers[i].0.len() != headers[j].0.len());
    }
    assert(names_once(headers));
}

/// Whether no two of `headers` have the same name.
pub open spec fn names_once(headers: Seq<(Seq<char>, Seq<char>)>) -> bool {
    forall|i: int, j: int|
        0 <= i < j < headers.len() ==> (#[trigger] headers[i]).0 != (#[trigger] headers[j]).0
}

/// Whether one of `headers` has the name `name`.
pub open spec fn has_header(headers: Seq<(Seq<char>, Seq<char>)>, name: Seq<char>) -> bool {
    exists|i: int| 0 <= i < headers.len() && (#[trigger] headers[i]).0 == name
}

/// Every reply says that ranges can be asked for, of which type the media is, that any page may
/// read it, and how a renderer may stream it; and it says nothing twice.
pub proof fn lemma_every_reply_says(server: MediaModel, token: Seq<char>, range: Option<Seq<char>>)
    ensures
        ({
            let headers = reply_to(server, token, range).headers;
            &&& headers.contains(("accept-ranges"@, "bytes"@))
            &&& headers.contains(("access-control-allow-origin"@, "*"@))
            &&& headers.contains(("content-type"@, server.mime))
            &&& headers.contains(("transfermode.dlna.org"@, "Streaming"@))
            &&& headers.contains(
                (
                    "contentfeatures.dlna.org"@,
                    "DLNA.ORG_OP=01;DLNA.ORG_CI=0;DLNA.ORG_FLAGS=01700000000000000000000000000000"@,
                ),
            )
            &&& names_once(headers)
        }),
{
    let headers = reply_to(server, token, range).headers;
    lemma_common_headers(server.mime, None);
    lemma_common_headers(server.mime, Some(server.size));
    if token == server.token && range is Some {
        match byte_range(range->0, server.size as nat) {
            None => {
                lemma_one_more_header(
                    reply_headers(server.mime, None),
                    ("content-range"@, unsatisfied(server.size as nat)),
                );
            },
            Some((first, last)) => {
                let length = (last - first + 1) as u64;
                lemma_common_headers(server.mime, Some(length));
                lemma_one_more_header(
                    reply_headers(server.mime, Some(length)),
                    ("content-range"@, content_range(first, last, server.size as nat)),
                );
            },
        }
    }
}

/// What headers have, they have with one more.
proof fn lemma_one_more_header(
    headers: Seq<(Seq<char>, Seq<char>)>,
    more: (Seq<char>, Seq<char>),
)
    requires
        names_once(headers),
        forall|i: int| 0 <= i < headers.len() ==> (#[trigger] headers[i]).0 != more.0,
    ensures
        names_once(headers.push(more)),
        headers.push(more).contains(more),
        forall|h: (Seq<char>, Seq<char>)|
            headers.contains(h) ==> #[trigger] headers.push(more).contains(h),
{
    let all = headers.push(more);
    assert(all[headers.len() as int] == more);
    assert forall|h: (Seq<char>, Seq<char>)| headers.contains(h) implies #[trigger] all.contains(
        h,
    ) by {
        let i = choose|i: int| 0 <= i < headers.len() && headers[i] == h;
        assert(all[i] == h);
    }
    assert forall|i: int, j: int| 0 <= i < j < all.len() implies (#[trigger] all[i]).0 != (
    #[trigger] all[j]).0 by {
        assert(all[i] == headers[i]);
        if j < headers.len() {
            assert(all[j] == headers[j]);
        }
    }
}

/// One who does not know the token is told that there is nothing. Without a range the whole file
/// is sent. A range that lies in the file is sent, from its first byte to its last, and named; one
/// that does not is refused with the size of the file. The length that is announced is that of
/// what is sent.
pub proof fn lemma_replies(
    server: MediaModel,
    token: Seq<char>,
    value: Seq<char>,
    range: Option<Seq<char>>,
)
    ensures
        token != server.token ==> {
            let reply = reply_to(server, token, range);
            &&& reply.status == 404
            &&& reply.length == 0
            &&& !has_header(reply.headers, "content-length"@)
            &&& !has_header(reply.headers, "content-range"@)
        },
        token == server.token ==> {
            let reply = reply_to(server, token, None);
            &&& reply.status == 200
            &&& reply.first == 0
            &&& reply.length == server.size
            &&& reply.headers.contains(("content-length"@, decimal(server.size as nat)))
            &&& !has_header(reply.headers, "content-range"@)
        },
        token == server.token && byte_range(value, server.size as nat) is None ==> {
            let reply = reply_to(server, token, Some(value));
            &&& reply.status == 416
            &&& reply.length == 0
            &&& reply.headers.contains(("content-range"@, "bytes */"@ + decimal(server.size as nat)))
        },
        token == server.token && byte_range(value, server.size as nat) is Some ==> {
            let reply = reply_to(server, token, Some(value));
            let (a, b) = byte_range(value, server.size as nat)->0;
            &&& reply.status == 206
            &&& reply.first == a
            &&& reply.first + reply.length - 1 == b
            &&& reply.headers.contains(("content-length"@, decimal(reply.length)))
            &&& reply.headers.contains(
                (
                    "content-range"@,
                    "bytes "@ + decimal(a) + "-"@ + decimal(b) + "/"@ + decimal(
                        server.size as nat,
                    ),
                ),
            )
        },
{
    lemma_common_headers(server.mime, None);
    lemma_common_headers(server.mime, Some(server.size));
    lemma_range_in_file(value, server.size as nat);
    reveal_strlit("-");
    reveal_strlit("/");
    assert("-"@ =~= seq!['-']);
    assert("/"@ =~= seq!['/']);
    match byte_range(value, server.size as nat) {
        None => {
            lemma_one_more_header(
                reply_headers(server.mime, None),
                ("content-range"@, unsatisfied(server.size as nat)),
            );
        },
        Some((first, last)) => {
            let length = (last - first + 1) as u64;
            lemma_common_headers(server.mime, Some(length));
            lemma_one_more_header(
                reply_headers(server.mime, Some(length)),
                ("content-range"@, content_range(first, last, server.size as nat)),
            );
        },
    }
}

/// A server is told apart by its token and serves the file under its name, or as `media` if it has
/// none, with the media type that was guessed, or as bytes of an unknown type if none was.
pub proof fn lemma_what_is_served(
    file: MediaFile,
    port: u16,
    token: Seq<char>,
    guess: Option<Seq<char>>,
)
    ensures
        ({
            let server = server_of(file, port, token, guess);
            &&& server.port == port
            &&& server.token == token
            &&& server.size == file.size
            &&& file.name is Some ==> server.file_name == file.name->0@
            &&& file.name is None ==> server.file_name == "media"@
            &&& guess is Some ==> server.mime == guess->0
            &&& guess is None ==> server.mime == "application/octet-stream"@
            &&& server.stats.bytes_sent == 0
            &&& server.stats.first_byte_at is None
            &&& server.stats.file_size == file.size
        }),
{
}

/// The fixed parts of an address.
proof fn lemma_address_literals()
    ensures
        "http://"@ == "http:"@ + seq!['/'] + ""@ + seq!['/'],
        ":"@ == seq![':'],
        "/media/"@ == seq!['/'] + "media"@ + seq!['/'],
        ""@.len() == 0,
        forall|k: int| 0 <= k < "http:"@.len() ==> "http:"@[k] != '/',
        forall|k: int| 0 <= k < "media"@.len() ==> "media"@[k] != '/',
{
    reveal_strlit("http://");
    reveal_strlit("http:");
    reveal_strlit("");
    reveal_strlit(":");
    reveal_strlit("/media/");
    reveal_strlit("media");
    assert("http://"@ =~= "http:"@ + seq!['/'] + ""@ + seq!['/']);
    assert(":"@ =~= seq![':']);
    assert("/media/"@ =~= seq!['/'] + "media"@ + seq!['/']);
}

/// Whether no slash stands in `s`.
#[verifier::opaque]
spec fn no_slash(s: Seq<char>) -> bool {
    forall|k: int| 0 <= k < s.len() ==> s[k] != '/'
}

/// The part before the first slash comes before the other parts.
proof fn lemma_one_part(left: Seq<char>, right: Seq<char>, parts: Seq<Seq<char>>)
    requires
        no_slash(left),
        split_all(right, '/') == parts,
    ensures
        split_all(left + seq!['/'] + right, '/') == seq![left] + parts,
{
    reveal(no_slash);
    lemma_split_after(left, '/', right);
}

/// Six texts with slashes between are parted there.
proof fn lemma_six_parts(
    a: Seq<char>,
    b: Seq<char>,
    c: Seq<char>,
    d: Seq<char>,
    e: Seq<char>,
    f: Seq<char>,
)
    requires
        no_slash(a) && no_slash(b) && no_slash(c) && no_slash(d) && no_slash(e) && no_slash(f),
    ensures
        ({
            let slash = seq!['/'];
            split_all(
                a + slash + (b + slash + (c + slash + (d + slash + (e + slash + f)))),
                '/',
            ) == seq![a, b, c, d, e, f]
        }),
{
    let slash = seq!['/'];
    let after_d = e + slash + f;
    let after_c = d + slash + after_d;
    let after_b = c + slash + after_c;
    let after_a = b + slash + after_b;
    assert(split_all(f, '/') == seq![f]) by {
        reveal(no_slash);
        lemma_split_nowhere(f, '/');
    }
    lemma_one_part(e, f, seq![f]);
    assert(seq![e] + seq![f] =~= seq![e, f]);
    lemma_one_part(d, after_d, seq![e, f]);
    assert(seq![d] + seq![e, f] =~= seq![d, e, f]);
    lemma_one_part(c, after_c, seq![d, e, f]);
    assert(seq![c] + seq![d, e, f] =~= seq![c, d, e, f]);
    lemma_one_part(b, after_b, seq![c, d, e, f]);
    assert(seq![b] + seq![c, d, e, f] =~= seq![b, c, d, e, f]);
    lemma_one_part(a, after_a, seq![b, c, d, e, f]);
    assert(seq![a] + seq![b, c, d, e, f] =~= seq![a, b, c, d, e, f]);
}

/// The parts of an address, in two groupings.
proof fn lemma_address_shape(
    scheme: Seq<char>,
    empty: Seq<char>,
    ip: Seq<char>,
    port: Seq<char>,
    media: Seq<char>,
    token: Seq<char>,
    name: Seq<char>,
)
    ensures
        ({
            let slash = seq!['/'];
            scheme + slash + empty + slash + ip + seq![':'] + port + (slash + media + slash) + token
                + slash + name == scheme + slash + (empty + slash + (ip + seq![':'] + port + slash
                + (media + slash + (token + slash + name))))
        }),
{
    let slash = seq!['/'];
    let tail = media + slash + (token + slash + name);
    let head = scheme + slash + empty + slash;
    let host = ip + seq![':'] + port;
    assert(head + ip + seq![':'] + port =~= head + host);
    assert(head + host + (slash + media + slash) + token + slash + name =~= head + host + (slash
        + tail));
    assert(head + host + (slash + tail) =~= scheme + slash + (empty + slash + (host + slash
        + tail)));
}

/// The address of a served file, parted at its slashes, is that of a web server: the machine and
/// the port, `media`, the token and the encoded name.
pub proof fn lemma_address_parts(
    local_ip: Seq<char>,
    port: u16,
    token: Seq<char>,
    file_name: Seq<char>,
)
    requires
        forall|k: int| 0 <= k < local_ip.len() ==> local_ip[k] != '/',
        forall|k: int| 0 <= k < token.len() ==> token[k] != '/',
    ensures
        split_all(media_address(local_ip, port, token, file_name), '/') == seq![
            "http:"@,
            ""@,
            local_ip + ":"@ + decimal(port as nat),
            "media"@,
            token,
            form_encoded(vstd::utf8::encode_utf8(file_name)),
        ],
{
    let name = form_encoded(vstd::utf8::encode_utf8(file_name));
    let host = local_ip + ":"@ + decimal(port as nat);
    lemma_address_literals();
    lemma_address_shape("http:"@, ""@, local_ip, decimal(port as nat), "media"@, token, name);
    lemma_decimal(port as nat);
    assert forall|k: int| 0 <= k < host.len() implies host[k] != '/' by {
        if k < local_ip.len() {
            assert(host[k] == local_ip[k]);
        } else if k > local_ip.len() {
            assert(is_digit(decimal(port as nat)[k - local_ip.len() - 1]));
        }
    }
    lemma_form_encoded_is_a_segment(vstd::utf8::encode_utf8(file_name));
    assert forall|k: int| 0 <= k < name.len() implies name[k] != '/' by {
        assert(is_form_char(name[k]));
    }
    reveal(no_slash);
    lemma_six_parts("http:"@, ""@, host, "media"@, token, name);
}

/// How much of a served file has been sent, and since when. Times are nanoseconds on the
/// caller's clock.
#[derive(Debug)]
pub struct TransferStats {
    bytes_sent: u64,
    first_byte_at: Option<u64>,
    file_size: u64,
}

/// What a `TransferStats` holds.
pub struct StatsModel {
    pub bytes_sent: u64,
    pub first_byte_at: Option<u64>,
    pub file_size: u64,
}

impl View for TransferStats {
    type V = StatsModel;

    closed spec fn view(&self) -> StatsModel {
        StatsModel {
            bytes_sent: self.bytes_sent,
            first_byte_at: self.first_byte_at,
            file_size: self.file_size,
        }
    }
}

/// How much of a served file had been sent at one moment.
#[derive(Debug, Clone, Copy, PartialEq, Eq)]
pub struct TransferSnapshot {
    pub bytes_sent: u64,
    pub file_size: u64,
    /// The nanoseconds since the first byte was sent.
    pub elapsed: u64,
}

/// Counters for a file of which nothing has been sent.
pub open spec fn fresh_stats(file_size: u64) -> StatsModel {
    StatsModel { bytes_sent: 0, first_byte_at: None, file_size }
}

/// Counters after `bytes` more were sent at the time `now`. The count starts again from zero
/// where it does not fit into 64 bits.
pub open spec fn stats_after(stats: StatsModel, bytes: u64, now: u64) -> StatsModel {
    if bytes == 0 {
        stats
    } else {
        StatsModel {
            bytes_sent: ((stats.bytes_sent + bytes) % 0x1_0000_0000_0000_0000) as u64,
            first_byte_at: match stats.first_byte_at {
                Some(at) => Some(at),
                None => Some(now),
            },
            file_size: stats.file_size,
        }
    }
}

impl TransferStats {
    /// Counters for a file of which nothing has been sent.
    pub fn new(file_size: u64) -> (out: TransferStats)
        ensures
            out@ == fresh_stats(file_size),
    {
        TransferStats { bytes_sent: 0, first_byte_at: None, file_size }
    }

    /// Counts `bytes` that were sent at the time `now`.
    pub fn add_bytes(&mut self, bytes: u64, now: u64)
        ensures
            final(self)@ == stats_after(old(self)@, bytes, now),
    {
        if bytes == 0 {
            return ;
        }
        if self.first_byte_at.is_none() {
            self.first_byte_at = Some(now);
        }
        self.bytes_sent = self.bytes_sent.wrapping_add(bytes);
    }

    /// What the counters say at the time `now`.
    pub fn snapshot(&self, now: u64) -> (out: TransferSnapshot)
        ensures
            out.bytes_sent == self@.bytes_sent,
            out.file_size == self@.file_size,
            out.elapsed == (match self@.first_byte_at {
                Some(at) => if at <= now {
                    now - at
                } else {
                    0
                },
                None => 0,
            }),
    {
        let elapsed: u64 = match self.first_byte_at {
            Some(at) => now.saturating_sub(at),
            None => 0,
        };
        TransferSnapshot { bytes_sent: self.bytes_sent, file_size: self.file_size, elapsed }
    }
}

/// Counters after each of `sent`, a number of bytes and a time, was counted.
pub open spec fn stats_after_all(stats: StatsModel, sent: Seq<(u64, u64)>) -> StatsModel
    decreases sent.len(),
{
    if sent.len() == 0 {
        stats
    } else {
        stats_after(stats_after_all(stats, sent.drop_last()), sent.last().0, sent.last().1)
    }
}

/// The sum of the bytes in `sent`.
pub open spec fn total_sent(sent: Seq<(u64, u64)>) -> nat
    decreases sent.len(),
{
    if sent.len() == 0 {
        0
    } else {
        total_sent(sent.drop_last()) + sent.last().0 as nat
    }
}

/// The counters of a file hold the sum of all that was counted, as far as it fits into 64 bits,
/// and the time of the first byte.
pub proof fn lemma_counters_sum(file_size: u64, sent: Seq<(u64, u64)>)
    ensures
        ({
            let stats = stats_after_all(fresh_stats(file_size), sent);
            &&& stats.file_size == file_size
            &&& stats.bytes_sent == total_sent(sent) % 0x1_0000_0000_0000_0000
            &&& stats.first_byte_at is None <==> total_sent(sent) == 0
            &&& forall|i: int|
                0 <= i < sent.len() && (#[trigger] sent[i]).0 > 0 && total_sent(sent.take(i)) == 0
                    ==> stats.first_byte_at == Some(sent[i].1)
        }),
    decreases sent.len(),
{
    if sent.len() > 0 {
        let before = sent.drop_last();
        let last = sent.last();
        lemma_counters_sum(file_size, before);
        let stats = stats_after_all(fresh_stats(file_size), sent);
        assert forall|i: int|
            0 <= i < sent.len() && (#[trigger] sent[i]).0 > 0 && total_sent(sent.take(i))
                == 0 implies stats.first_byte_at == Some(sent[i].1) by {
            if i < before.len() {
                assert(before[i] == sent[i]);
                assert(before.take(i) == sent.take(i));
            } else {
                assert(sent.take(i) == before);
            }
        }
    }
}

} // verus!
