//! Escaping text for XML, and finding the text of an element.

use vstd::prelude::*;

verus! {

/// What stands for `c` in escaped text.
pub open spec fn escaped_char(c: char) -> Seq<char> {
    if c == '<' {
        "&lt;"@
    } else if c == '>' {
        "&gt;"@
    } else if c == '&' {
        "&amp;"@
    } else if c == '\'' {
        "&apos;"@
    } else if c == '"' {
        "&quot;"@
    } else {
        seq![c]
    }
}

/// `s` with the characters that mean something in XML replaced by references.
pub open spec fn escaped(s: Seq<char>) -> Seq<char>
    decreases s.len(),
{
    if s.len() == 0 {
        seq![]
    } else {
        escaped_char(s.first()) + escaped(s.drop_first())
    }
}

/// `quick_xml::escape::escape` replaces `<`, `>`, `&`, `'` and `"` by the five references that
/// XML has for them, and keeps every other character.
#[verifier::external_body]
fn escape_with_quick_xml(value: &str) -> (out: String)
    ensures
        out@ == escaped(value@),
{
    quick_xml::escape::escape(value).into_owned()
}

/// Escapes `value` for the text of an element or the value of an attribute.
pub fn escape_xml(value: &str) -> (out: String)
    ensures
        out@ == escaped(value@),
{
    escape_with_quick_xml(value)
}

/// Whether `s` begins with `prefix`.
pub open spec fn begins(s: Seq<char>, prefix: Seq<char>) -> bool {
    prefix.is_prefix_of(s)
}

/// The text that `s` stands for, with the five references resolved.
pub open spec fn unescaped(s: Seq<char>) -> Seq<char>
    decreases s.len(),
{
    proof {
        reveal_strlit("&lt;");
        reveal_strlit("&gt;");
        reveal_strlit("&amp;");
        reveal_strlit("&apos;");
        reveal_strlit("&quot;");
    }
    if s.len() == 0 {
        seq![]
    } else if begins(s, "&lt;"@) {
        seq!['<'] + unescaped(s.skip(4))
    } else if begins(s, "&gt;"@) {
        seq!['>'] + unescaped(s.skip(4))
    } else if begins(s, "&amp;"@) {
        seq!['&'] + unescaped(s.skip(5))
    } else if begins(s, "&apos;"@) {
        seq!['\''] + unescaped(s.skip(6))
    } else if begins(s, "&quot;"@) {
        seq!['"'] + unescaped(s.skip(6))
    } else {
        seq![s.first()] + unescaped(s.drop_first())
    }
}

/// Whether `c` can end or open markup, or an attribute's value.
pub open spec fn is_markup(c: char) -> bool {
    c == '<' || c == '>' || c == '\'' || c == '"'
}

/// Escaped text holds no character that could end or open markup.
pub proof fn lemma_escaped_has_no_markup(s: Seq<char>)
    ensures
        forall|i: int| 0 <= i < escaped(s).len() ==> !is_markup(#[trigger] escaped(s)[i]),
    decreases s.len(),
{
    if s.len() > 0 {
        lemma_escaped_has_no_markup(s.drop_first());
        reveal_strlit("&lt;");
        reveal_strlit("&gt;");
        reveal_strlit("&amp;");
        reveal_strlit("&apos;");
        reveal_strlit("&quot;");
        let head = escaped_char(s.first());
        let tail = escaped(s.drop_first());
        assert forall|i: int| 0 <= i < escaped(s).len() implies !is_markup(
            #[trigger] escaped(s)[i],
        ) by {
            if i < head.len() {
                assert(escaped(s)[i] == head[i]);
            } else {
                assert(escaped(s)[i] == tail[i - head.len()]);
            }
        }
    }
}

/// Resolving the references in escaped text gives the text back.
pub proof fn lemma_escape_round_trip(s: Seq<char>)
    ensures
        unescaped(escaped(s)) == s,
    decreases s.len(),
{
    if s.len() > 0 {
        lemma_escape_round_trip(s.drop_first());
        reveal_strlit("&lt;");
        reveal_strlit("&gt;");
        reveal_strlit("&amp;");
        reveal_strlit("&apos;");
        reveal_strlit("&quot;");
        let c = s.first();
        let head = escaped_char(c);
        let tail = escaped(s.drop_first());
        let all = escaped(s);
        assert(all == head + tail);
        assert(all.skip(head.len() as int) == tail);
        assert(begins(all, head));
        assert(all[0] == head[0]);
        assert(seq![c] + s.drop_first() == s);
        if c == '<' {
            assert(unescaped(all) == seq!['<'] + unescaped(tail));
        } else if c == '>' {
            assert(all[1] == 'g');
            assert(unescaped(all) == seq!['>'] + unescaped(tail));
        } else if c == '&' {
            assert(all[1] == 'a' && all[2] == 'm');
            assert(unescaped(all) == seq!['&'] + unescaped(tail));
        } else if c == '\'' {
            assert(all[1] == 'a' && all[2] == 'p');
            assert(unescaped(all) == seq!['\''] + unescaped(tail));
        } else if c == '"' {
            assert(all[1] == 'q');
            assert(unescaped(all) == seq!['"'] + unescaped(tail));
        } else {
            assert(all.drop_first() == tail);
            assert(unescaped(all) == seq![c] + unescaped(tail));
        }
    }
}

/// Text is escaped character by character: the five that mean something in XML become references,
/// and every other one stays.
pub proof fn lemma_escaped_piecewise(a: Seq<char>, b: Seq<char>, c: char)
    ensures
        escaped(a + b) == escaped(a) + escaped(b),
        escaped(seq!['<']) == "&lt;"@,
        escaped(seq!['>']) == "&gt;"@,
        escaped(seq!['&']) == "&amp;"@,
        escaped(seq!['\'']) == "&apos;"@,
        escaped(seq!['"']) == "&quot;"@,
        c != '<' && c != '>' && c != '&' && c != '\'' && c != '"' ==> escaped(seq![c]) == seq![c],
    decreases a.len(),
{
    let none = Seq::<char>::empty();
    assert forall|x: char| escaped(#[trigger] seq![x]) == escaped_char(x) by {
        assert(seq![x].drop_first() == none);
        assert(escaped(none) == none);
        assert(escaped_char(x) + none == escaped_char(x));
    }
    if a.len() == 0 {
        assert(a + b == b);
        assert(escaped(a) + escaped(b) == escaped(b));
    } else {
        lemma_escaped_piecewise(a.drop_first(), b, c);
        assert((a + b).drop_first() == a.drop_first() + b);
        assert((a + b).first() == a.first());
        assert(escaped_char(a.first()) + (escaped(a.drop_first()) + escaped(b)) == escaped_char(
            a.first(),
        ) + escaped(a.drop_first()) + escaped(b));
    }
}

/// Text without the five characters that mean something in XML is left as it is.
pub proof fn lemma_plain_text_stays(s: Seq<char>)
    requires
        forall|i: int| 0 <= i < s.len() ==> !is_markup(#[trigger] s[i]) && s[i] != '&',
    ensures
        escaped(s) == s,
    decreases s.len(),
{
    if s.len() > 0 {
        let rest = s.drop_first();
        assert(!is_markup(s[0]) && s[0] != '&');
        assert forall|i: int| 0 <= i < rest.len() implies !is_markup(#[trigger] rest[i]) && rest[i]
            != '&' by {
            assert(rest[i] == s[i + 1]);
        }
        lemma_plain_text_stays(rest);
        assert(seq![s[0]] + rest == s);
    }
}

/// What an XML reader hands out next.
#[derive(Debug, PartialEq, Eq)]
pub enum XmlEvent {
    /// A start tag, with the name in it.
    Start(Vec<u8>),
    /// The end of the document.
    Eof,
    /// The document is not well-formed here.
    Malformed,
    /// Anything else.
    Other,
}

/// An event, and for a start tag the text up to the end tag that belongs to it, if there is one.
pub enum XmlToken {
    Start { name: Seq<u8>, inner: Option<Seq<char>> },
    Eof,
    Malformed,
    Other,
}

/// The XML reader of the `quick_xml` crate.
#[verifier::external_type_specification]
#[verifier::external_body]
#[verifier::reject_recursive_types(R)]
pub struct ExReader<R>(quick_xml::Reader<R>);

/// The events of the document `xml`, up to the first one that ends it.
pub uninterp spec fn xml_tokens(xml: Seq<char>) -> Seq<XmlToken>;

/// The events that `reader` has not handed out.
pub uninterp spec fn pending(reader: quick_xml::Reader<&[u8]>) -> Seq<XmlToken>;

/// The text up to the end tag of the name `name` that belongs to the start tag just read.
pub uninterp spec fn text_ahead(reader: quick_xml::Reader<&[u8]>, name: Seq<u8>) -> Option<
    Seq<char>,
>;

/// Whether `token` ends a document.
pub open spec fn ends_document(token: XmlToken) -> bool {
    token is Eof || token is Malformed
}

/// Whether `tokens` are events up to the first one that ends the document.
pub open spec fn complete(tokens: Seq<XmlToken>) -> bool {
    &&& tokens.len() > 0
    &&& ends_document(tokens.last())
    &&& forall|i: int| 0 <= i < tokens.len() - 1 ==> !ends_document(#[trigger] tokens[i])
}

/// Whether `event` is the event of `token`.
pub open spec fn event_of(event: XmlEvent, token: XmlToken) -> bool {
    match event {
        XmlEvent::Start(name) => token matches XmlToken::Start { name: n, .. } && n == name@,
        XmlEvent::Eof => token is Eof,
        XmlEvent::Malformed => token is Malformed,
        XmlEvent::Other => token is Other,
    }
}

/// `quick_xml::Reader::from_str` makes a reader whose events depend on the document alone;
/// `xml_tokens` names them. A document is finite, so that they end with `Eof` or an error.
#[verifier::external_body]
fn reader_of(xml: &str) -> (out: quick_xml::Reader<&[u8]>)
    ensures
        pending(out) == xml_tokens(xml@),
        complete(pending(out)),
{
    quick_xml::Reader::from_str(xml)
}

/// `quick_xml::Reader::read_event` hands out the next event. After a start tag, `read_text` with
/// the name of that tag gives the text that goes with the event.
#[verifier::external_body]
fn next_event(reader: &mut quick_xml::Reader<&[u8]>) -> (out: XmlEvent)
    requires
        pending(*old(reader)).len() > 0,
    ensures
        event_of(out, pending(*old(reader))[0]),
        !ends_document(pending(*old(reader))[0]) ==> pending(*final(reader)) == pending(
            *old(reader),
        ).drop_first(),
        out matches XmlEvent::Start(name) ==> pending(*old(reader))[0] == (XmlToken::Start {
            name: name@,
            inner: text_ahead(*final(reader), name@),
        }),
{
    match reader.read_event() {
        Ok(quick_xml::events::Event::Start(start)) => XmlEvent::Start(start.name().0.to_vec()),
        Ok(quick_xml::events::Event::Eof) => XmlEvent::Eof,
        Ok(_) => XmlEvent::Other,
        Err(_) => XmlEvent::Malformed,
    }
}

/// `quick_xml::Reader::read_text` returns the text, as it stands in the document, up to the end
/// tag of the given name that belongs to the start tag just read; `text_ahead` names it.
#[verifier::external_body]
fn read_inner(reader: &mut quick_xml::Reader<&[u8]>, name: &Vec<u8>) -> (out: Option<String>)
    ensures
        match out {
            Some(text) => text_ahead(*old(reader), name@) == Some(text@),
            None => text_ahead(*old(reader), name@) is None,
        },
{
    reader.read_text(quick_xml::name::QName(name.as_slice())).ok().map(|text| text.into_owned())
}

/// Where the first colon stands in `name`, or its length.
pub open spec fn colon(name: Seq<u8>) -> nat
    decreases name.len(),
{
    if name.len() == 0 || name.first() == 0x3a {
        0
    } else {
        1 + colon(name.drop_first())
    }
}

/// `name` without the prefix of a namespace.
pub open spec fn local_name(name: Seq<u8>) -> Seq<u8> {
    if colon(name) < name.len() {
        name.skip(colon(name) as int + 1)
    } else {
        name
    }
}

/// The text in the first element of the local name `wanted`, as it stands in the document.
pub open spec fn first_text(tokens: Seq<XmlToken>, wanted: Seq<u8>) -> Option<Seq<char>>
    decreases tokens.len(),
{
    if tokens.len() == 0 {
        None
    } else {
        match tokens[0] {
            XmlToken::Start { name, inner } => if local_name(name) == wanted {
                inner
            } else {
                first_text(tokens.drop_first(), wanted)
            },
            XmlToken::Eof => None,
            XmlToken::Malformed => None,
            XmlToken::Other => first_text(tokens.drop_first(), wanted),
        }
    }
}

/// The text in the first element of the document `xml` with the local name `wanted`.
pub open spec fn element_text(xml: Seq<char>, wanted: Seq<u8>) -> Option<Seq<char>> {
    first_text(xml_tokens(xml), wanted)
}

/// Whether `name`, without the prefix of a namespace, is `wanted`.
pub fn has_local_name(name: &Vec<u8>, wanted: &[u8]) -> (yes: bool)
    ensures
        yes == (local_name(name@) == wanted@),
{
    let len: usize = name.len();
    let mut at: usize = 0;
    assert(name@.skip(0) == name@);
    while at < len && name[at] != 0x3a
        invariant
            len == name@.len(),
            at <= len,
            colon(name@) == at + colon(name@.skip(at as int)),
        decreases len - at,
    {
        assert(name@.skip(at as int).drop_first() == name@.skip(at + 1));
        at += 1;
    }
    let from: usize = if at < len {
        at + 1
    } else {
        0
    };
    assert(local_name(name@) == name@.skip(from as int));
    if len - from != wanted.len() {
        return false;
    }
    let mut i: usize = 0;
    while i < wanted.len()
        invariant
            len == name@.len(),
            len - from == wanted@.len(),
            i <= wanted@.len(),
            local_name(name@) == name@.skip(from as int),
            forall|k: int| 0 <= k < i ==> wanted@[k] == name@[from + k],
        decreases wanted@.len() - i,
    {
        if name[from + i] != wanted[i] {
            assert(name@.skip(from as int)[i as int] != wanted@[i as int]);
            return false;
        }
        i += 1;
    }
    assert(name@.skip(from as int) =~= wanted@);
    true
}

/// Finds the text in the first element of `xml` with the local name `wanted`.
pub fn xml_text(xml: &str, wanted: &[u8]) -> (out: Option<String>)
    ensures
        match out {
            Some(text) => element_text(xml@, wanted@) == Some(text@),
            None => element_text(xml@, wanted@) is None,
        },
{
    let mut reader = reader_of(xml);
    loop
        invariant
            complete(pending(reader)),
            first_text(pending(reader), wanted@) == element_text(xml@, wanted@),
        decreases pending(reader).len(),
    {
        let ghost tokens = pending(reader);
        match next_event(&mut reader) {
            XmlEvent::Start(name) => {
                if has_local_name(&name, wanted) {
                    return read_inner(&mut reader, &name);
                }
            },
            XmlEvent::Eof => return None,
            XmlEvent::Malformed => return None,
            XmlEvent::Other => {},
        }
        assert(!ends_document(tokens[0]));
        assert(tokens.drop_first().last() == tokens.last());
        assert forall|i: int| 0 <= i < tokens.drop_first().len() - 1 implies !ends_document(
            #[trigger] tokens.drop_first()[i],
        ) by {
            assert(!ends_document(tokens[i + 1]));
        }
    }
}

/// The first colon stands where it stands.
proof fn lemma_colon(left: Seq<u8>, right: Seq<u8>)
    requires
        forall|i: int| 0 <= i < left.len() ==> left[i] != 0x3a,
    ensures
        colon(left + seq![0x3au8] + right) == left.len(),
        colon(left) == left.len(),
    decreases left.len(),
{
    let all = left + seq![0x3au8] + right;
    if left.len() == 0 {
        assert(all.first() == 0x3a);
    } else {
        let rest = left.drop_first();
        assert(all.drop_first() == rest + seq![0x3au8] + right);
        assert(all.first() == left[0]);
        lemma_colon(rest, right);
    }
}

/// A name without a colon is its own local name; a prefix without a colon, and the colon after it,
/// do not count.
pub proof fn lemma_local_names(prefix: Seq<u8>, name: Seq<u8>)
    requires
        forall|i: int| 0 <= i < prefix.len() ==> prefix[i] != 0x3a,
    ensures
        local_name(prefix) == prefix,
        local_name(prefix + seq![0x3au8] + name) == name,
{
    lemma_colon(prefix, name);
    assert((prefix + seq![0x3au8] + name).skip(prefix.len() as int + 1) =~= name);
}

/// Whether `token` opens an element of the local name `wanted`.
pub open spec fn opens(token: XmlToken, wanted: Seq<u8>) -> bool {
    token is Start && local_name(token->Start_name) == wanted
}

/// The text that is found is that of the first element of the wanted name, if one opens before the
/// document ends; it is the text of that element and of no later one, even if it has none.
pub proof fn lemma_first_text(tokens: Seq<XmlToken>, wanted: Seq<u8>, at: int)
    requires
        0 <= at < tokens.len(),
        forall|i: int|
            0 <= i < at ==> !ends_document(#[trigger] tokens[i]) && !opens(tokens[i], wanted),
    ensures
        opens(tokens[at], wanted) ==> first_text(tokens, wanted) == tokens[at]->Start_inner,
        ends_document(tokens[at]) ==> first_text(tokens, wanted) is None,
    decreases at,
{
    if at > 0 {
        assert(!ends_document(tokens[0]) && !opens(tokens[0], wanted));
        let rest = tokens.drop_first();
        assert forall|i: int| 0 <= i < at - 1 implies !ends_document(#[trigger] rest[i]) && !opens(
            rest[i],
            wanted,
        ) by {
            assert(rest[i] == tokens[i + 1]);
        }
        lemma_first_text(rest, wanted, at - 1);
        assert(rest[at - 1] == tokens[at]);
    }
}

/// What is found in a document is the text of the first element of the wanted name.
pub proof fn lemma_element_text(xml: Seq<char>, wanted: Seq<u8>, at: int)
    requires
        0 <= at < xml_tokens(xml).len(),
        forall|i: int|
            0 <= i < at ==> !ends_document(#[trigger] xml_tokens(xml)[i]) && !opens(
                xml_tokens(xml)[i],
                wanted,
            ),
    ensures
        opens(xml_tokens(xml)[at], wanted) ==> element_text(xml, wanted) == xml_tokens(
            xml,
        )[at]->Start_inner,
        ends_document(xml_tokens(xml)[at]) ==> element_text(xml, wanted) is None,
{
    lemma_first_text(xml_tokens(xml), wanted, at);
}

} // verus!
