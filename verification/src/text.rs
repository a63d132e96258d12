//! Reading and taking apart text as sequences of characters.

use vstd::prelude::*;

verus! {

/// `String::push` appends the given character to the end of the string.
pub assume_specification[ String::push ](s: &mut String, c: char)
    ensures
        final(s)@ == old(s)@.push(c),
;

/// Whether Unicode gives `c` the property `White_Space`.
pub open spec fn white_space(c: char) -> bool {
    ||| '\u{9}' <= c <= '\u{d}'
    ||| c == ' '
    ||| c == '\u{85}'
    ||| c == '\u{a0}'
    ||| c == '\u{1680}'
    ||| '\u{2000}' <= c <= '\u{200a}'
    ||| c == '\u{2028}'
    ||| c == '\u{2029}'
    ||| c == '\u{202f}'
    ||| c == '\u{205f}'
    ||| c == '\u{3000}'
}

/// `s` without the white space at its start.
pub open spec fn trim_start(s: Seq<char>) -> Seq<char>
    decreases s.len(),
{
    if s.len() > 0 && white_space(s.first()) {
        trim_start(s.drop_first())
    } else {
        s
    }
}

/// `s` without the white space at its end.
pub open spec fn trim_end(s: Seq<char>) -> Seq<char>
    decreases s.len(),
{
    if s.len() > 0 && white_space(s.last()) {
        trim_end(s.drop_last())
    } else {
        s
    }
}

/// `s` without the white space at both ends.
pub open spec fn trimmed(s: Seq<char>) -> Seq<char> {
    trim_end(trim_start(s))
}

/// Where `c` first occurs in `s`, or the length of `s` if it does not occur.
pub open spec fn position(s: Seq<char>, c: char) -> nat
    decreases s.len(),
{
    if s.len() == 0 || s.first() == c {
        0
    } else {
        1 + position(s.drop_first(), c)
    }
}

/// What stands before and after the first `c` of `s`.
pub open spec fn split_once(s: Seq<char>, c: char) -> Option<(Seq<char>, Seq<char>)> {
    let at = position(s, c) as int;
    if at < s.len() {
        Some((s.take(at), s.skip(at + 1)))
    } else {
        None
    }
}

/// The parts of `s` between the occurrences of `c`: one more than there are occurrences.
pub open spec fn split_all(s: Seq<char>, c: char) -> Seq<Seq<char>>
    decreases s.len(),
{
    let at = position(s, c) as int;
    if at < s.len() {
        seq![s.take(at)] + split_all(s.skip(at + 1), c)
    } else {
        seq![s]
    }
}

/// `line` without a carriage return at its end.
pub open spec fn without_cr(line: Seq<char>) -> Seq<char> {
    if line.len() > 0 && line.last() == '\r' {
        line.drop_last()
    } else {
        line
    }
}

/// The lines of `s`. A line ends with a line feed, or with a carriage return and a line feed;
/// the last one may also end with the text, and then keeps what it holds.
pub open spec fn line_list(s: Seq<char>) -> Seq<Seq<char>>
    decreases s.len(),
{
    if s.len() == 0 {
        seq![]
    } else {
        let at = position(s, '\n') as int;
        if at < s.len() {
            seq![without_cr(s.take(at))] + line_list(s.skip(at + 1))
        } else {
            seq![s]
        }
    }
}

/// How many characters at the start of `s` are white space (`space`), or are not.
pub open spec fn run_length(s: Seq<char>, space: bool) -> nat
    decreases s.len(),
{
    if s.len() > 0 && white_space(s.first()) == space {
        1 + run_length(s.drop_first(), space)
    } else {
        0
    }
}

/// The words of `s`: its longest parts without white space.
pub open spec fn word_list(s: Seq<char>) -> Seq<Seq<char>>
    decreases s.len(),
{
    let from = trim_start(s);
    if from.len() == 0 {
        seq![]
    } else {
        let end = run_length(from, false) as int;
        proof {
            lemma_trim_start(s);
            lemma_run_length(from, false);
        }
        seq![from.take(end)] + word_list(from.skip(end))
    }
}

/// Whether `part` stands somewhere in `s`.
pub open spec fn has_part(s: Seq<char>, part: Seq<char>) -> bool {
    exists|at: int| occurs_at(s, part, at)
}

/// Whether `part` stands in `s` at the index `at`.
pub open spec fn occurs_at(s: Seq<char>, part: Seq<char>, at: int) -> bool {
    0 <= at && at + part.len() <= s.len() && s.subrange(at, at + part.len()) == part
}

/// `c` in lower case if it is one of the letters `A` to `Z`, else `c`.
pub open spec fn ascii_lower_char(c: char) -> char {
    if 'A' <= c <= 'Z' {
        (c as u8 + 32) as u8 as char
    } else {
        c
    }
}

/// `s` with the letters `A` to `Z` in lower case.
pub open spec fn ascii_lower(s: Seq<char>) -> Seq<char> {
    Seq::new(s.len(), |i: int| ascii_lower_char(s[i]))
}

/// Whether every character of `s` is an ASCII character.
pub open spec fn all_ascii(s: Seq<char>) -> bool {
    forall|i: int| 0 <= i < s.len() ==> (#[trigger] s[i]) <= '\u{7f}'
}

/// The views of the strings in `list`.
pub open spec fn texts(list: Seq<String>) -> Seq<Seq<char>> {
    Seq::new(list.len(), |i: int| list[i]@)
}

/// The views of the slices in `list`.
pub open spec fn parts_view(list: Seq<&[char]>) -> Seq<Seq<char>> {
    Seq::new(list.len(), |i: int| list[i]@)
}

/// `s` in lower case, by the rules of Unicode for strings.
pub uninterp spec fn lowercase(s: Seq<char>) -> Seq<char>;

/// `str::to_lowercase` depends on its argument alone; `lowercase` names what it returns. On
/// ASCII text it changes the letters `A` to `Z` and nothing else.
#[verifier::external_body]
pub(crate) fn to_lowercase(s: &str) -> (out: String)
    ensures
        out@ == lowercase(s@),
        all_ascii(s@) ==> out@ == ascii_lower(s@),
{
    s.to_lowercase()
}

/// The text that `bytes` hold in UTF-8, with replacement characters where they are not UTF-8.
pub uninterp spec fn lossy_text(bytes: Seq<u8>) -> Seq<char>;

/// `String::from_utf8_lossy` depends on its argument alone; `lossy_text` names what it returns.
/// Valid UTF-8 is decoded as it stands.
#[verifier::external_body]
pub(crate) fn from_utf8_lossy(bytes: &[u8]) -> (out: String)
    ensures
        out@ == lossy_text(bytes@),
        vstd::utf8::valid_utf8(bytes@) ==> out@ == vstd::utf8::decode_utf8(bytes@),
{
    String::from_utf8_lossy(bytes).into_owned()
}

/// The characters of `s`, in order.
pub fn chars_of(s: &str) -> (out: Vec<char>)
    ensures
        out@ == s@,
{
    let mut out: Vec<char> = Vec::new();
    for c in it: s.chars()
        invariant
            out@ == it.seq().take(it.index() as int),
            it.seq() == s@,
    {
        out.push(c);
    }
    out
}

/// The string made of `chars`.
pub fn text_of(chars: &[char]) -> (out: String)
    ensures
        out@ == chars@,
{
    let mut out = String::new();
    let mut i: usize = 0;
    while i < chars.len()
        invariant
            i <= chars@.len(),
            out@ == chars@.take(i as int),
        decreases chars@.len() - i,
    {
        out.push(chars[i]);
        i += 1;
    }
    assert(chars@.take(i as int) == chars@);
    out
}

/// Whether `a` and `b` hold the same characters.
pub fn same_chars(a: &[char], b: &[char]) -> (same: bool)
    ensures
        same == (a@ == b@),
{
    if a.len() != b.len() {
        return false;
    }
    let mut i: usize = 0;
    while i < a.len()
        invariant
            i <= a@.len(),
            a@.len() == b@.len(),
            forall|k: int| 0 <= k < i ==> a@[k] == b@[k],
        decreases a@.len() - i,
    {
        if a[i] != b[i] {
            assert(a@[i as int] != b@[i as int]);
            return false;
        }
        i += 1;
    }
    assert(a@ =~= b@);
    true
}

/// Whether `a` and `b` are the same text.
pub fn same_text(a: &str, b: &str) -> (same: bool)
    ensures
        same == (a@ == b@),
{
    same_chars(&chars_of(a), &chars_of(b))
}

/// Whether `c` is white space.
pub fn is_white_space(c: char) -> (yes: bool)
    ensures
        yes == white_space(c),
{
    ('\u{9}' <= c && c <= '\u{d}') || c == ' ' || c == '\u{85}' || c == '\u{a0}' || c == '\u{1680}'
        || ('\u{2000}' <= c && c <= '\u{200a}') || c == '\u{2028}' || c == '\u{2029}'
        || c == '\u{202f}' || c == '\u{205f}' || c == '\u{3000}'
}

/// Drops the white space at both ends of `s`.
pub fn trim(s: &[char]) -> (out: &[char])
    ensures
        out@ == trimmed(s@),
{
    let mut from: usize = 0;
    assert(s@.skip(0) == s@);
    while from < s.len() && is_white_space(s[from])
        invariant
            from <= s@.len(),
            trim_start(s@) == trim_start(s@.skip(from as int)),
        decreases s@.len() - from,
    {
        assert(s@.skip(from as int).drop_first() == s@.skip(from + 1));
        from += 1;
    }
    assert(trim_start(s@) == s@.skip(from as int));
    let mut to: usize = s.len();
    assert(s@.subrange(from as int, to as int) == s@.skip(from as int));
    while from < to && is_white_space(s[to - 1])
        invariant
            from <= to <= s@.len(),
            trim_end(trim_start(s@)) == trim_end(s@.subrange(from as int, to as int)),
        decreases to,
    {
        assert(s@.subrange(from as int, to as int).drop_last() == s@.subrange(
            from as int,
            to - 1,
        ));
        to -= 1;
    }
    &s[from..to]
}

/// The text of `s` without the white space at its ends.
pub fn trim_text(s: &str) -> (out: String)
    ensures
        out@ == trimmed(s@),
{
    text_of(trim(&chars_of(s)))
}

pub proof fn lemma_position(s: Seq<char>, c: char)
    ensures
        position(s, c) <= s.len(),
        forall|k: int| 0 <= k < position(s, c) ==> s[k] != c,
        position(s, c) < s.len() ==> s[position(s, c) as int] == c,
    decreases s.len(),
{
    if s.len() > 0 && s.first() != c {
        lemma_position(s.drop_first(), c);
        assert forall|k: int| 0 <= k < position(s, c) implies s[k] != c by {
            if k > 0 {
                assert(s[k] == s.drop_first()[k - 1]);
            }
        }
    }
}

/// The position is the only index that `lemma_position` describes.
pub proof fn lemma_position_is(s: Seq<char>, c: char, at: int)
    requires
        0 <= at <= s.len(),
        forall|k: int| 0 <= k < at ==> s[k] != c,
        at < s.len() ==> s[at] == c,
    ensures
        position(s, c) == at,
{
    lemma_position(s, c);
    let p = position(s, c) as int;
    if p < at {
        assert(s[p] != c);
    } else if at < p {
        assert(s[at] != c);
    }
}

/// A text that begins with `left`, where `c` does not occur, and then `c`, is split there.
pub proof fn lemma_split_after(left: Seq<char>, c: char, right: Seq<char>)
    requires
        forall|k: int| 0 <= k < left.len() ==> left[k] != c,
    ensures
        split_once(left + seq![c] + right, c) == Some((left, right)),
        split_all(left + seq![c] + right, c) == seq![left] + split_all(right, c),
{
    let s = left + seq![c] + right;
    let at = left.len() as int;
    assert forall|k: int| 0 <= k < at implies s[k] != c by {
        assert(s[k] == left[k]);
    }
    assert(s[at] == c);
    lemma_position_is(s, c, at);
    assert(s.take(at) == left);
    assert(s.skip(at + 1) == right);
}

/// A text in which `c` does not occur is not split.
pub proof fn lemma_split_nowhere(s: Seq<char>, c: char)
    requires
        forall|k: int| 0 <= k < s.len() ==> s[k] != c,
    ensures
        position(s, c) == s.len(),
        split_once(s, c) is None,
        split_all(s, c) == seq![s],
{
    lemma_position_is(s, c, s.len() as int);
}

/// Where `c` first occurs in `s`, or the length of `s`.
pub fn find_char(s: &[char], c: char) -> (at: usize)
    ensures
        at == position(s@, c),
        at <= s@.len(),
{
    let mut at: usize = 0;
    while at < s.len() && s[at] != c
        invariant
            at <= s@.len(),
            forall|k: int| 0 <= k < at ==> s@[k] != c,
        decreases s@.len() - at,
    {
        at += 1;
    }
    proof {
        lemma_position_is(s@, c, at as int);
    }
    at
}

/// What stands before and after the first `c` of `s`.
pub fn cut(s: &[char], c: char) -> (out: Option<(&[char], &[char])>)
    ensures
        match out {
            Some((left, right)) => split_once(s@, c) == Some((left@, right@)),
            None => split_once(s@, c) is None,
        },
{
    let at = find_char(s, c);
    if at < s.len() {
        assert(s@.subrange(0, at as int) == s@.take(at as int));
        assert(s@.subrange(at + 1, s@.len() as int) == s@.skip(at + 1));
        Some((&s[0..at], &s[at + 1..s.len()]))
    } else {
        None
    }
}

/// The parts of `s` between the occurrences of `c`.
pub fn split(s: &[char], c: char) -> (out: Vec<&[char]>)
    ensures
        parts_view(out@) == split_all(s@, c),
{
    let mut out: Vec<&[char]> = Vec::new();
    let mut rest: &[char] = s;
    assert(parts_view(out@) + split_all(rest@, c) == split_all(s@, c));
    loop
        invariant
            parts_view(out@) + split_all(rest@, c) == split_all(s@, c),
        decreases rest@.len(),
    {
        match cut(rest, c) {
            Some((left, right)) => {
                let ghost before = parts_view(out@);
                proof {
                    lemma_position(rest@, c);
                }
                out.push(left);
                assert(parts_view(out@) == before + seq![left@]);
                assert((before + seq![left@]) + split_all(right@, c) == before + (seq![left@]
                    + split_all(right@, c)));
                rest = right;
            },
            None => {
                let ghost before = parts_view(out@);
                proof {
                    lemma_position(rest@, c);
                }
                out.push(rest);
                assert(parts_view(out@) == before + seq![rest@]);
                return out;
            },
        }
    }
}

/// The lines of `s`, without what ends them.
pub fn lines(s: &[char]) -> (out: Vec<&[char]>)
    ensures
        parts_view(out@) == line_list(s@),
{
    let mut out: Vec<&[char]> = Vec::new();
    let mut rest: &[char] = s;
    assert(parts_view(out@) + line_list(rest@) == line_list(s@));
    while rest.len() > 0
        invariant
            parts_view(out@) + line_list(rest@) == line_list(s@),
        decreases rest@.len(),
    {
        let ghost before = parts_view(out@);
        proof {
            lemma_position(rest@, '\n');
        }
        match cut(rest, '\n') {
            Some((left, right)) => {
                let ghost full = left@;
                let mut line: &[char] = left;
                if left.len() > 0 && left[left.len() - 1] == '\r' {
                    line = &left[0..left.len() - 1];
                    assert(line@ == full.drop_last());
                }
                assert(line@ == without_cr(full));
                out.push(line);
                assert(parts_view(out@) == before + seq![line@]);
                assert((before + seq![line@]) + line_list(right@) == before + (seq![line@]
                    + line_list(right@)));
                rest = right;
            },
            None => {
                out.push(rest);
                assert(parts_view(out@) == before + seq![rest@]);
                rest = &rest[0..0];
                assert(line_list(rest@) == Seq::<Seq<char>>::empty());
                assert(parts_view(out@) + line_list(rest@) == parts_view(out@));
            },
        }
    }
    assert(line_list(rest@) == Seq::<Seq<char>>::empty());
    assert(parts_view(out@) + line_list(rest@) == parts_view(out@));
    out
}

/// Whether `s` begins with `prefix`.
pub fn starts_with(s: &[char], prefix: &str) -> (yes: bool)
    ensures
        yes == prefix@.is_prefix_of(s@),
{
    let start = chars_of(prefix);
    if s.len() < start.len() {
        return false;
    }
    assert(s@.subrange(0, start@.len() as int) == s@.take(start@.len() as int));
    same_chars(&s[0..start.len()], &start)
}

/// Whether `part` stands somewhere in `s`.
pub fn contains(s: &[char], part: &[char]) -> (yes: bool)
    ensures
        yes == has_part(s@, part@),
{
    if s.len() < part.len() {
        assert forall|at: int| !occurs_at(s@, part@, at) by {}
        return false;
    }
    let len: usize = s.len();
    let last: usize = len - part.len();
    let mut at: usize = 0;
    while at <= last
        invariant
            len == s@.len(),
            last == len - part@.len(),
            at <= last + 1,
            forall|k: int| 0 <= k < at ==> !occurs_at(s@, part@, k),
        decreases last + 1 - at,
    {
        if same_chars(&s[at..at + part.len()], part) {
            assert(occurs_at(s@, part@, at as int));
            return true;
        }
        if at == last {
            assert forall|k: int| !occurs_at(s@, part@, k) by {}
            return false;
        }
        at += 1;
    }
    assert forall|k: int| !occurs_at(s@, part@, k) by {}
    false
}

/// Whether the text `part` stands somewhere in the text `s`.
pub fn text_contains(s: &str, part: &str) -> (yes: bool)
    ensures
        yes == has_part(s@, part@),
{
    contains(&chars_of(s), &chars_of(part))
}

/// `s` with the letters `A` to `Z` in lower case.
pub fn lower_ascii(s: &[char]) -> (out: Vec<char>)
    ensures
        out@ == ascii_lower(s@),
{
    let mut out: Vec<char> = Vec::new();
    let mut i: usize = 0;
    while i < s.len()
        invariant
            i <= s@.len(),
            out@.len() == i,
            forall|k: int| 0 <= k < i ==> out@[k] == ascii_lower_char(s@[k]),
        decreases s@.len() - i,
    {
        let c = s[i];
        if 'A' <= c && c <= 'Z' {
            out.push((c as u8 + 32) as char);
        } else {
            out.push(c);
        }
        i += 1;
    }
    out
}

pub proof fn lemma_trim_start(s: Seq<char>)
    ensures
        trim_start(s).len() <= s.len(),
        trim_start(s).len() > 0 ==> !white_space(trim_start(s).first()),
    decreases s.len(),
{
    if s.len() > 0 && white_space(s.first()) {
        lemma_trim_start(s.drop_first());
    }
}

pub proof fn lemma_run_length(s: Seq<char>, space: bool)
    ensures
        run_length(s, space) <= s.len(),
        forall|k: int| 0 <= k < run_length(s, space) ==> white_space(s[k]) == space,
        run_length(s, space) < s.len() ==> white_space(s[run_length(s, space) as int]) != space,
    decreases s.len(),
{
    if s.len() > 0 && white_space(s.first()) == space {
        lemma_run_length(s.drop_first(), space);
        assert forall|k: int| 0 <= k < run_length(s, space) implies white_space(s[k]) == space by {
            if k > 0 {
                assert(s[k] == s.drop_first()[k - 1]);
            }
        }
    }
}

/// The words of `s`.
pub fn words(s: &[char]) -> (out: Vec<&[char]>)
    ensures
        parts_view(out@) == word_list(s@),
{
    let mut out: Vec<&[char]> = Vec::new();
    let mut rest: &[char] = s;
    assert(parts_view(out@) + word_list(rest@) == word_list(s@));
    loop
        invariant
            parts_view(out@) + word_list(rest@) == word_list(s@),
        decreases rest@.len(),
    {
        let mut from: usize = 0;
        assert(rest@.skip(0) == rest@);
        while from < rest.len() && is_white_space(rest[from])
            invariant
                from <= rest@.len(),
                trim_start(rest@) == trim_start(rest@.skip(from as int)),
            decreases rest@.len() - from,
        {
            assert(rest@.skip(from as int).drop_first() == rest@.skip(from + 1));
            from += 1;
        }
        if from == rest.len() {
            assert(word_list(rest@) == Seq::<Seq<char>>::empty());
            assert(parts_view(out@) + word_list(rest@) == parts_view(out@));
            return out;
        }
        let ghost tail = rest@.skip(from as int);
        assert(trim_start(rest@) == tail);
        let mut to: usize = from;
        while to < rest.len() && !is_white_space(rest[to])
            invariant
                from <= to <= rest@.len(),
                forall|k: int| from <= k < to ==> !white_space(rest@[k]),
            decreases rest@.len() - to,
        {
            to += 1;
        }
        proof {
            lemma_run_length(tail, false);
            let end = run_length(tail, false) as int;
            if end < to - from {
                assert(white_space(rest@[from + end]));
            } else if to - from < end {
                assert(!white_space(tail[to - from]));
            }
            assert(end == to - from);
            assert(tail.take(end) == rest@.subrange(from as int, to as int));
            assert(tail.skip(end) == rest@.subrange(to as int, rest@.len() as int));
        }
        let ghost before = parts_view(out@);
        let word: &[char] = &rest[from..to];
        let next: &[char] = &rest[to..rest.len()];
        out.push(word);
        assert(parts_view(out@) == before + seq![word@]);
        assert((before + seq![word@]) + word_list(next@) == before + (seq![word@] + word_list(
            next@,
        )));
        rest = next;
    }
}

/// Whether every character of `s` is white space.
pub open spec fn all_space(s: Seq<char>) -> bool {
    forall|k: int| 0 <= k < s.len() ==> white_space(#[trigger] s[k])
}

/// Whether `s` neither begins nor ends with white space.
pub open spec fn is_tight(s: Seq<char>) -> bool {
    s.len() > 0 ==> !white_space(s.first()) && !white_space(s.last())
}

/// White space at the start goes, and nothing else.
proof fn lemma_trim_start_is(left: Seq<char>, rest: Seq<char>)
    requires
        all_space(left),
        rest.len() > 0 ==> !white_space(rest.first()),
    ensures
        trim_start(left + rest) == rest,
    decreases left.len(),
{
    if left.len() == 0 {
        assert(left + rest == rest);
    } else {
        assert(white_space(left[0]));
        let tail = left.drop_first();
        assert forall|k: int| 0 <= k < tail.len() implies white_space(#[trigger] tail[k]) by {
            assert(white_space(left[k + 1]));
        }
        lemma_trim_start_is(tail, rest);
        assert((left + rest).drop_first() == tail + rest);
    }
}

/// White space at the end goes, and nothing else.
proof fn lemma_trim_end_is(rest: Seq<char>, right: Seq<char>)
    requires
        all_space(right),
        rest.len() > 0 ==> !white_space(rest.last()),
    ensures
        trim_end(rest + right) == rest,
    decreases right.len(),
{
    if right.len() == 0 {
        assert(rest + right == rest);
    } else {
        assert(white_space(right[right.len() - 1]));
        let head = right.drop_last();
        assert forall|k: int| 0 <= k < head.len() implies white_space(#[trigger] head[k]) by {
            assert(white_space(right[k]));
        }
        lemma_trim_end_is(rest, head);
        assert((rest + right).drop_last() == rest + head);
    }
}

/// Of text with white space around it, the text is what is left.
pub proof fn lemma_trimmed_is(left: Seq<char>, text: Seq<char>, right: Seq<char>)
    requires
        all_space(left),
        is_tight(text),
        all_space(right),
    ensures
        trimmed(left + text + right) == text,
{
    if text.len() > 0 {
        assert(left + text + right == left + (text + right));
        assert((text + right).first() == text.first());
        lemma_trim_start_is(left, text + right);
        lemma_trim_end_is(text, right);
    } else {
        let all = left + right;
        assert(left + text + right == all + Seq::<char>::empty());
        assert forall|k: int| 0 <= k < all.len() implies white_space(#[trigger] all[k]) by {
            if k < left.len() {
                assert(white_space(left[k]));
            } else {
                assert(white_space(right[k - left.len()]));
            }
        }
        lemma_trim_start_is(all, Seq::empty());
        assert(text == Seq::<char>::empty());
    }
}

/// Every text is trimmed text with white space around it.
pub proof fn lemma_trimmed_parts(s: Seq<char>)
    ensures
        is_tight(trimmed(s)),
        exists|left: Seq<char>, right: Seq<char>|
            all_space(left) && all_space(right) && s == #[trigger] (left + trimmed(s) + right),
{
    let mid = trim_start(s);
    lemma_trim_start_part(s);
    lemma_trim_end_part(mid);
    let n = s.len() - mid.len();
    let (left, right) = (s.take(n), mid.skip(trimmed(s).len() as int));
    assert(s == left + trimmed(s) + right);
    lemma_trim_start(s);
}

proof fn lemma_trim_start_part(s: Seq<char>)
    ensures
        trim_start(s).len() <= s.len(),
        trim_start(s) == s.skip(s.len() - trim_start(s).len()),
        all_space(s.take(s.len() - trim_start(s).len())),
    decreases s.len(),
{
    if s.len() > 0 && white_space(s.first()) {
        let rest = s.drop_first();
        lemma_trim_start_part(rest);
        let n = s.len() - trim_start(s).len();
        assert(rest.skip(n - 1) == s.skip(n));
        assert forall|k: int| 0 <= k < n implies white_space(#[trigger] s.take(n)[k]) by {
            if k > 0 {
                assert(white_space(rest.take(n - 1)[k - 1]));
            }
        }
    } else {
        assert(s.skip(0) == s);
    }
}

proof fn lemma_trim_end_part(s: Seq<char>)
    ensures
        trim_end(s).len() <= s.len(),
        trim_end(s) == s.take(trim_end(s).len() as int),
        all_space(s.skip(trim_end(s).len() as int)),
        trim_end(s).len() > 0 ==> !white_space(trim_end(s).last()),
    decreases s.len(),
{
    if s.len() > 0 && white_space(s.last()) {
        let rest = s.drop_last();
        lemma_trim_end_part(rest);
        let n = trim_end(s).len() as int;
        assert(rest.take(n) == s.take(n));
        assert forall|k: int| 0 <= k < s.len() - n implies white_space(#[trigger] s.skip(n)[k]) by {
            if k < rest.len() - n {
                assert(white_space(rest.skip(n)[k]));
            }
        }
    } else {
        assert(s.take(s.len() as int) == s);
    }
}

/// Trimmed text is left as it is.
pub proof fn lemma_trimmed_twice(s: Seq<char>)
    ensures
        trimmed(trimmed(s)) == trimmed(s),
{
    lemma_trimmed_parts(s);
    let none = Seq::<char>::empty();
    lemma_trimmed_is(none, trimmed(s), none);
    assert(none + trimmed(s) + none == trimmed(s));
}

/// A line ends with a line feed, or with a carriage return and a line feed, which are no part of
/// it; the last one needs neither.
pub proof fn lemma_lines_are(line: Seq<char>, rest: Seq<char>)
    requires
        forall|k: int| 0 <= k < line.len() ==> line[k] != '\n',
    ensures
        line_list(line + seq!['\r', '\n'] + rest) == seq![line] + line_list(rest),
        (line.len() > 0 ==> line.last() != '\r') ==> line_list(line + seq!['\n'] + rest) == seq![
            line,
        ] + line_list(rest),
        line.len() > 0 ==> line_list(line) == seq![line],
        line_list(Seq::empty()) == Seq::<Seq<char>>::empty(),
{
    lemma_split_at_feed(line, rest);
    let with_cr = line.push('\r');
    assert forall|k: int| 0 <= k < with_cr.len() implies with_cr[k] != '\n' by {
        if k < line.len() {
            assert(with_cr[k] == line[k]);
        }
    }
    lemma_split_at_feed(with_cr, rest);
    assert(line + seq!['\r', '\n'] + rest == with_cr + seq!['\n'] + rest);
    assert(without_cr(with_cr) == line);
    lemma_position_is(line, '\n', line.len() as int);
}

proof fn lemma_split_at_feed(line: Seq<char>, rest: Seq<char>)
    requires
        forall|k: int| 0 <= k < line.len() ==> line[k] != '\n',
    ensures
        line_list(line + seq!['\n'] + rest) == seq![without_cr(line)] + line_list(rest),
{
    let s = line + seq!['\n'] + rest;
    assert forall|k: int| 0 <= k < line.len() implies s[k] != '\n' by {
        assert(s[k] == line[k]);
    }
    assert(s[line.len() as int] == '\n');
    lemma_position_is(s, '\n', line.len() as int);
    assert(s.take(line.len() as int) == line);
    assert(s.skip(line.len() as int + 1) == rest);
}

/// A word is what stands between white space, and what follows it has the other words.
pub proof fn lemma_words_are(left: Seq<char>, word: Seq<char>, rest: Seq<char>)
    requires
        all_space(left),
        word.len() > 0,
        forall|k: int| 0 <= k < word.len() ==> !white_space(#[trigger] word[k]),
        rest.len() > 0 ==> white_space(rest.first()),
    ensures
        word_list(left + word + rest) == seq![word] + word_list(rest),
        word_list(left) == Seq::<Seq<char>>::empty(),
{
    let from = word + rest;
    assert(left + word + rest == left + from);
    assert(from.first() == word[0]);
    lemma_trim_start_is(left, from);
    lemma_run_length(from, false);
    let end = run_length(from, false) as int;
    if end < word.len() {
        assert(from[end] == word[end]);
    } else if end > word.len() {
        assert(from[word.len() as int] == rest[0]);
    }
    assert(from.take(end) == word);
    assert(from.skip(end) == rest);
    lemma_trim_start_is(left, Seq::empty());
    assert(left + Seq::<char>::empty() == left);
}

/// The letters `A` to `Z` become small letters, and no other character changes.
pub proof fn lemma_ascii_lower(s: Seq<char>)
    ensures
        ascii_lower(s).len() == s.len(),
        forall|i: int|
            0 <= i < s.len() ==> (#[trigger] ascii_lower(s)[i]) as int == (if 'A' <= s[i]
                && s[i] <= 'Z' {
                s[i] as int + 32
            } else {
                s[i] as int
            }),
        ascii_lower(ascii_lower(s)) == ascii_lower(s),
{
    let low = ascii_lower(s);
    assert forall|i: int| 0 <= i < s.len() implies (#[trigger] low[i]) as int == (if 'A' <= s[i]
        && s[i] <= 'Z' {
        s[i] as int + 32
    } else {
        s[i] as int
    }) by {
        assert(low[i] == ascii_lower_char(s[i]));
    }
    assert(ascii_lower(low) =~= low);
}

/// Of the ASCII characters, the space and the five from the tab to the carriage return are white
/// space, and no letter, digit or sign is. Beyond ASCII there are the next line, the spaces that
/// do not break, and the spaces and separators of typography.
pub proof fn lemma_white_space(c: char)
    ensures
        c as int <= 0x7f ==> (white_space(c) <==> c as int == 0x20 || 9 <= c as int <= 13),
        0x80 <= c as int <= 0xff ==> (white_space(c) <==> c as int == 0x85 || c as int == 0xa0),
        0x100 <= c as int <= 0x1fff ==> (white_space(c) <==> c as int == 0x1680),
        0x2000 <= c as int <= 0x20ff ==> (white_space(c) <==> c as int <= 0x200a || c as int
            == 0x2028 || c as int == 0x2029 || c as int == 0x202f || c as int == 0x205f),
        c as int >= 0x2100 ==> (white_space(c) <==> c as int == 0x3000),
{
}

/// What stands between two texts is a part of the whole.
pub proof fn lemma_part(before: Seq<char>, part: Seq<char>, after: Seq<char>)
    ensures
        has_part(before + part + after, part),
{
    let s = before + part + after;
    let at = before.len() as int;
    assert(s.subrange(at, at + part.len()) == part);
    assert(occurs_at(s, part, at));
}

/// A part of a text stands in it, as it is, with something or nothing before and after it.
pub proof fn lemma_part_is_between(s: Seq<char>, part: Seq<char>)
    requires
        has_part(s, part),
    ensures
        exists|before: Seq<char>, after: Seq<char>| s == #[trigger] (before + part + after),
{
    let i = choose|i: int| occurs_at(s, part, i);
    let before = s.take(i);
    let after = s.skip(i + part.len());
    assert(s =~= before + part + after);
}

/// A part of a part is a part of the whole, and nothing is a part of what is shorter.
pub proof fn lemma_part_of_part(s: Seq<char>, middle: Seq<char>, part: Seq<char>)
    requires
        has_part(s, middle),
        has_part(middle, part),
    ensures
        has_part(s, part),
        part.len() <= s.len(),
{
    let i = choose|i: int| occurs_at(s, middle, i);
    let j = choose|j: int| occurs_at(middle, part, j);
    assert(s.subrange(i + j, i + j + part.len()) == middle.subrange(j, j + part.len()));
    assert(occurs_at(s, part, i + j));
}

} // verus!
