//! Choosing one of the renderers that were found.

use vstd::prelude::*;

use crate::device::{Device, DeviceModel};
use crate::listing::device_views;
use crate::number::{
    decimal, is_digit, lemma_decimal, lemma_parse_decimal, parse_number, read_number, NumberError,
};
use crate::text::{
    all_space, chars_of, has_part, lemma_part, lemma_trimmed_is, lowercase, text_contains,
    to_lowercase, trim, trimmed,
};

verus! {

/// What a renderer is found by, in lower case.
#[derive(Debug)]
pub struct SearchKeys {
    pub friendly_name: String,
    pub model_name: String,
    pub manufacturer: String,
    pub location: String,
}

/// What a `SearchKeys` holds.
pub struct KeysModel {
    pub friendly_name: Seq<char>,
    pub model_name: Seq<char>,
    pub manufacturer: Seq<char>,
    pub location: Seq<char>,
}

impl View for SearchKeys {
    type V = KeysModel;

    open spec fn view(&self) -> KeysModel {
        KeysModel {
            friendly_name: self.friendly_name@,
            model_name: self.model_name@,
            manufacturer: self.manufacturer@,
            location: self.location@,
        }
    }
}

/// The views of what renderers are found by.
pub open spec fn keys_views(list: Seq<SearchKeys>) -> Seq<KeysModel> {
    Seq::new(list.len(), |i: int| list[i]@)
}

/// What `device` is found by.
pub open spec fn keys_of(device: DeviceModel) -> KeysModel {
    KeysModel {
        friendly_name: lowercase(device.friendly_name),
        model_name: lowercase(device.model_name),
        manufacturer: lowercase(device.manufacturer),
        location: lowercase(device.location.text),
    }
}

/// What each of `devices` is found by.
pub open spec fn all_keys(devices: Seq<DeviceModel>) -> Seq<KeysModel> {
    Seq::new(devices.len(), |i: int| keys_of(devices[i]))
}

/// Whether `needle` is part of something that a renderer is found by.
pub open spec fn is_hit(keys: KeysModel, needle: Seq<char>) -> bool {
    ||| has_part(keys.friendly_name, needle)
    ||| has_part(keys.model_name, needle)
    ||| has_part(keys.manufacturer, needle)
    ||| has_part(keys.location, needle)
}

/// How many of a list a search found.
#[derive(Debug, Clone, Copy, PartialEq, Eq, Structural)]
pub enum Hits {
    Nothing,
    /// Exactly one, at this index.
    One(usize),
    Many,
}

/// Whether `hits` says which of `keys` the needle is found in.
pub open spec fn hits_are(hits: Hits, keys: Seq<KeysModel>, needle: Seq<char>) -> bool {
    match hits {
        Hits::Nothing => forall|i: int| 0 <= i < keys.len() ==> !is_hit(#[trigger] keys[i], needle),
        Hits::One(at) => {
            &&& at < keys.len()
            &&& is_hit(keys[at as int], needle)
            &&& forall|i: int|
                0 <= i < keys.len() && i != at ==> !is_hit(#[trigger] keys[i], needle)
        },
        Hits::Many => exists|i: int, j: int|
            0 <= i < j < keys.len() && is_hit(#[trigger] keys[i], needle) && is_hit(
                #[trigger] keys[j],
                needle,
            ),
    }
}

/// A search has one outcome.
pub proof fn lemma_hits_unique(a: Hits, b: Hits, keys: Seq<KeysModel>, needle: Seq<char>)
    requires
        hits_are(a, keys, needle),
        hits_are(b, keys, needle),
    ensures
        a == b,
{
    match (a, b) {
        (Hits::One(i), Hits::Nothing) => {
            assert(is_hit(keys[i as int], needle));
        },
        (Hits::Nothing, Hits::One(i)) => {
            assert(is_hit(keys[i as int], needle));
        },
        (Hits::One(i), Hits::One(j)) => {
            assert(is_hit(keys[j as int], needle));
        },
        _ => {},
    }
}

/// Searches `keys` for `needle`.
pub fn find_hits(keys: &Vec<SearchKeys>, needle: &str) -> (out: Hits)
    ensures
        hits_are(out, keys_views(keys@), needle@),
{
    let ghost views = keys_views(keys@);
    let mut found: Option<usize> = None;
    let mut i: usize = 0;
    while i < keys.len()
        invariant
            i <= keys@.len(),
            views == keys_views(keys@),
            match found {
                None => forall|k: int| 0 <= k < i ==> !is_hit(#[trigger] views[k], needle@),
                Some(at) => {
                    &&& at < i
                    &&& is_hit(views[at as int], needle@)
                    &&& forall|k: int|
                        0 <= k < i && k != at ==> !is_hit(#[trigger] views[k], needle@)
                },
            },
        decreases keys@.len() - i,
    {
        let entry: &SearchKeys = &keys[i];
        assert(views[i as int] == entry@);
        let hit: bool = text_contains(entry.friendly_name.as_str(), needle) || text_contains(
            entry.model_name.as_str(),
            needle,
        ) || text_contains(entry.manufacturer.as_str(), needle) || text_contains(
            entry.location.as_str(),
            needle,
        );
        assert(hit == is_hit(views[i as int], needle@));
        if hit {
            match found {
                Some(at) => {
                    assert(is_hit(views[at as int], needle@) && is_hit(views[i as int], needle@));
                    return Hits::Many;
                },
                None => {
                    found = Some(i);
                },
            }
        }
        i += 1;
    }
    match found {
        Some(at) => Hits::One(at),
        None => Hits::Nothing,
    }
}

/// What each of `devices` is found by.
fn search_keys(devices: &[Device]) -> (out: Vec<SearchKeys>)
    ensures
        keys_views(out@) == all_keys(device_views(devices@)),
{
    let ghost all = all_keys(device_views(devices@));
    let mut out: Vec<SearchKeys> = Vec::new();
    let mut i: usize = 0;
    while i < devices.len()
        invariant
            i <= devices@.len(),
            all == all_keys(device_views(devices@)),
            keys_views(out@) == all.take(i as int),
        decreases devices@.len() - i,
    {
        let ghost before = keys_views(out@);
        let device: &Device = &devices[i];
        let keys = SearchKeys {
            friendly_name: to_lowercase(device.friendly_name.as_str()),
            model_name: to_lowercase(device.model_name.as_str()),
            manufacturer: to_lowercase(device.manufacturer.as_str()),
            location: to_lowercase(device.location.as_str()),
        };
        assert(keys@ == all[i as int]);
        out.push(keys);
        assert(keys_views(out@) == before.push(all[i as int]));
        assert(all.take(i + 1) == all.take(i as int).push(all[i as int]));
        i += 1;
    }
    assert(all.take(i as int) == all);
    out
}

/// The index of the entry with the number that `selector` writes, in a list of `len` entries
/// that are counted from one.
pub open spec fn numbered(selector: Seq<char>, len: nat) -> Option<int> {
    match parse_number(selector, usize::MAX as nat) {
        Ok(n) => if 1 <= n <= len {
            Some(n - 1)
        } else {
            None
        },
        Err(_) => None,
    }
}

/// The index of the entry with the number that `selector` writes.
fn find_number(selector: &str, len: usize) -> (out: Option<usize>)
    ensures
        match out {
            Some(i) => i < len && numbered(selector@, len as nat) == Some(i as int),
            None => numbered(selector@, len as nat) is None,
        },
{
    match read_number(&chars_of(selector), usize::MAX as u64) {
        Ok(n) => if 1 <= n && n <= len as u64 {
            Some((n - 1) as usize)
        } else {
            None
        },
        Err(_) => None,
    }
}

/// Why no renderer is chosen.
#[derive(Debug, PartialEq, Eq)]
pub enum SelectError {
    /// There is none.
    NoDevices,
    /// None is found by the given text.
    NoMatch(String),
    /// More than one is found by the given text.
    Ambiguous(String),
}

/// What a `SelectError` holds.
pub enum SelectFault {
    NoDevices,
    NoMatch(Seq<char>),
    Ambiguous(Seq<char>),
}

impl View for SelectError {
    type V = SelectFault;

    open spec fn view(&self) -> SelectFault {
        match self {
            SelectError::NoDevices => SelectFault::NoDevices,
            SelectError::NoMatch(selector) => SelectFault::NoMatch(selector@),
            SelectError::Ambiguous(selector) => SelectFault::Ambiguous(selector@),
        }
    }
}

/// `s` between quotation marks, with references in place of what could not be read there.
pub uninterp spec fn quoted(s: Seq<char>) -> Seq<char>;

/// `format!` writes a string with `{:?}` between quotation marks and escapes some characters;
/// what it writes depends on the string alone, and `quoted` names it.
#[verifier::external_body]
fn quote(s: &str) -> (out: String)
    ensures
        out@ == quoted(s@),
{
    format!("{:?}", s)
}

impl SelectFault {
    /// What the error is called in messages.
    pub open spec fn text(self) -> Seq<char> {
        match self {
            SelectFault::NoDevices => "no DLNA media renderer found"@,
            SelectFault::NoMatch(selector) => "no discovered device matches "@ + quoted(selector),
            SelectFault::Ambiguous(selector) => "more than one device matches "@ + quoted(selector),
        }
    }
}

impl SelectError {
    /// The message of the error.
    pub fn message(&self) -> (out: String)
        ensures
            out@ == self@.text(),
    {
        match self {
            SelectError::NoDevices => "no DLNA media renderer found".to_owned(),
            SelectError::NoMatch(selector) => {
                let mut out = "no discovered device matches ".to_owned();
                out.append(quote(selector.as_str()).as_str());
                out
            },
            SelectError::Ambiguous(selector) => {
                let mut out = "more than one device matches ".to_owned();
                out.append(quote(selector.as_str()).as_str());
                out
            },
        }
    }

    /// The message of the error, with advice for the command line.
    pub fn command_message(&self) -> (out: String)
        ensures
            out@ == (if self@ is Ambiguous {
                self@.text() + "; use a more specific value"@
            } else {
                self@.text()
            }),
    {
        let mut out = self.message();
        match self {
            SelectError::Ambiguous(_) => {
                out.append("; use a more specific value");
            },
            _ => {},
        }
        out
    }
}

/// Whether `selector` chooses, of renderers found by `keys`, what `out` says: the one with that
/// number, or the only one that the selector in lower case, `needle`, is found in.
pub open spec fn chooses(
    out: Result<int, SelectFault>,
    keys: Seq<KeysModel>,
    selector: Seq<char>,
    needle: Seq<char>,
) -> bool {
    match numbered(selector, keys.len()) {
        Some(i) => out == Ok::<int, SelectFault>(i),
        None => match out {
            Ok(i) => 0 <= i <= usize::MAX && hits_are(Hits::One(i as usize), keys, needle),
            Err(SelectFault::NoDevices) => false,
            Err(SelectFault::NoMatch(s)) => s == selector && hits_are(Hits::Nothing, keys, needle),
            Err(SelectFault::Ambiguous(s)) => s == selector && hits_are(Hits::Many, keys, needle),
        },
    }
}

/// The view of the choice of an index.
pub open spec fn choice_view(out: Result<usize, SelectError>) -> Result<int, SelectFault> {
    match out {
        Ok(i) => Ok(i as int),
        Err(e) => Err(e@),
    }
}

/// Chooses one of the renderers that are found by `keys`; `needle` is the selector in lower
/// case.
pub fn choose_by_keys(keys: &Vec<SearchKeys>, selector: &str, needle: &str) -> (out: Result<
    usize,
    SelectError,
>)
    ensures
        chooses(choice_view(out), keys_views(keys@), selector@, needle@),
        out matches Ok(i) ==> i < keys@.len(),
{
    match find_number(selector, keys.len()) {
        Some(i) => return Ok(i),
        None => {},
    }
    match find_hits(keys, needle) {
        Hits::One(i) => Ok(i),
        Hits::Nothing => Err(SelectError::NoMatch(selector.to_owned())),
        Hits::Many => Err(SelectError::Ambiguous(selector.to_owned())),
    }
}

/// Chooses one of `devices` by its number in the list, or by a part of its name, its model, its
/// manufacturer or its location that no other has.
pub fn choose_device(devices: &[Device], selector: &str) -> (out: Result<usize, SelectError>)
    ensures
        chooses(
            choice_view(out),
            all_keys(device_views(devices@)),
            selector@,
            lowercase(selector@),
        ),
        out matches Ok(i) ==> i < devices@.len(),
{
    let keys = search_keys(devices);
    assert(keys_views(keys@).len() == devices@.len());
    let needle = to_lowercase(selector);
    choose_by_keys(&keys, selector, needle.as_str())
}

/// Whether `selector` selects, of `devices`, what `out` says. A single renderer needs no
/// selector.
pub open spec fn selects(
    out: Result<int, SelectFault>,
    devices: Seq<DeviceModel>,
    selector: Seq<char>,
) -> bool {
    if devices.len() == 0 {
        out == Err::<int, SelectFault>(SelectFault::NoDevices)
    } else if selector.len() == 0 && devices.len() == 1 {
        out == Ok::<int, SelectFault>(0)
    } else {
        chooses(out, all_keys(devices), selector, lowercase(selector))
    }
}

/// Selects one of `devices`. A single one needs no selector.
pub fn select_index(devices: &[Device], selector: &str) -> (out: Result<usize, SelectError>)
    ensures
        selects(choice_view(out), device_views(devices@), selector@),
        out matches Ok(i) ==> i < devices@.len(),
{
    if devices.len() == 0 {
        return Err(SelectError::NoDevices);
    }
    if selector.is_empty() && devices.len() == 1 {
        return Ok(0);
    }
    choose_device(devices, selector)
}

/// Selects one of `devices`. A single one needs no selector.
pub fn select_device<'a>(devices: &'a [Device], selector: &str) -> (out: Result<
    &'a Device,
    SelectError,
>)
    ensures
        match out {
            Ok(device) => exists|i: int|
                0 <= i < devices@.len() && *device == #[trigger] devices@[i] && selects(
                    Ok(i),
                    device_views(devices@),
                    selector@,
                ),
            Err(e) => selects(Err(e@), device_views(devices@), selector@),
        },
{
    match select_index(devices, selector) {
        Ok(i) => {
            assert(selects(Ok(i as int), device_views(devices@), selector@));
            Ok(&devices[i])
        },
        Err(e) => Err(e),
    }
}

/// A selector selects in one way only.
pub proof fn lemma_selection_unique(
    a: Result<int, SelectFault>,
    b: Result<int, SelectFault>,
    devices: Seq<DeviceModel>,
    selector: Seq<char>,
)
    requires
        selects(a, devices, selector),
        selects(b, devices, selector),
    ensures
        a == b,
{
    let keys = all_keys(devices);
    let needle = lowercase(selector);
    if devices.len() > 0 && !(selector.len() == 0 && devices.len() == 1) && numbered(
        selector,
        keys.len(),
    ) is None {
        lemma_hits_unique(hits_of(a), hits_of(b), keys, needle);
    }
}

spec fn hits_of(out: Result<int, SelectFault>) -> Hits {
    match out {
        Ok(i) => Hits::One(i as usize),
        Err(SelectFault::NoMatch(_)) => Hits::Nothing,
        Err(_) => Hits::Many,
    }
}

/// The number of a renderer in the list, counted from one, selects it, whatever the names are.
pub proof fn lemma_number_selects(devices: Seq<DeviceModel>, i: int)
    requires
        0 <= i < devices.len() <= usize::MAX,
    ensures
        selects(Ok(i), devices, decimal((i + 1) as nat)),
{
    lemma_decimal((i + 1) as nat);
    lemma_parse_decimal((i + 1) as nat, usize::MAX as nat);
}

/// What is done when the command line names no renderer.
#[derive(Debug, Clone, Copy, PartialEq, Eq, Structural)]
pub enum DefaultChoice {
    /// There is only this one.
    Only,
    /// The person at the terminal is asked.
    Ask,
    /// Nobody can be asked.
    Refuse,
}

/// Decides what is done when the command line names none of `count` renderers.
pub fn default_choice(count: usize, at_terminal: bool) -> (out: DefaultChoice)
    ensures
        out == (if count == 1 {
            DefaultChoice::Only
        } else if at_terminal {
            DefaultChoice::Ask
        } else {
            DefaultChoice::Refuse
        }),
{
    if count == 1 {
        DefaultChoice::Only
    } else if at_terminal {
        DefaultChoice::Ask
    } else {
        DefaultChoice::Refuse
    }
}

/// Why an answer chooses no renderer.
#[derive(Debug, Clone, Copy, PartialEq, Eq, Structural)]
pub enum AnswerError {
    /// It is no number.
    Number(NumberError),
    /// It is zero.
    Zero,
    /// The list is not that long.
    OutOfRange,
}

impl AnswerError {
    /// What the error is called in messages.
    pub open spec fn text(self) -> Seq<char> {
        match self {
            AnswerError::Number(cause) => "invalid device number: "@ + cause.text(),
            AnswerError::Zero => "device number must be at least 1"@,
            AnswerError::OutOfRange => "device number is out of range"@,
        }
    }

    /// The message of the error.
    pub fn message(&self) -> (out: String)
        ensures
            out@ == self.text(),
    {
        match self {
            AnswerError::Number(cause) => {
                let mut out = "invalid device number: ".to_owned();
                out.append(cause.message());
                out
            },
            AnswerError::Zero => "device number must be at least 1".to_owned(),
            AnswerError::OutOfRange => "device number is out of range".to_owned(),
        }
    }
}

/// The index of the renderer that an answer chooses from a list of `count`.
pub open spec fn answered(answer: Seq<char>, count: nat) -> Result<int, AnswerError> {
    match parse_number(trimmed(answer), usize::MAX as nat) {
        Err(e) => Err(AnswerError::Number(e)),
        Ok(n) => if n == 0 {
            Err(AnswerError::Zero)
        } else if n > count {
            Err(AnswerError::OutOfRange)
        } else {
            Ok(n - 1)
        },
    }
}

/// Reads the answer of a person who was asked for a number in a list of `count`.
pub fn read_answer(answer: &str, count: usize) -> (out: Result<usize, AnswerError>)
    ensures
        match out {
            Ok(i) => i < count && answered(answer@, count as nat) == Ok::<int, AnswerError>(
                i as int,
            ),
            Err(e) => answered(answer@, count as nat) == Err::<int, AnswerError>(e),
        },
{
    let chars = chars_of(answer);
    match read_number(trim(&chars), usize::MAX as u64) {
        Err(e) => Err(AnswerError::Number(e)),
        Ok(n) => if n == 0 {
            Err(AnswerError::Zero)
        } else if n > count as u64 {
            Err(AnswerError::OutOfRange)
        } else {
            Ok((n - 1) as usize)
        },
    }
}

/// Whether the text `selector` is, without regard to case, part of the name, the model, the
/// manufacturer or the location of `device`.
pub open spec fn mentions(device: DeviceModel, selector: Seq<char>) -> bool {
    ||| has_part(lowercase(device.friendly_name), lowercase(selector))
    ||| has_part(lowercase(device.model_name), lowercase(selector))
    ||| has_part(lowercase(device.manufacturer), lowercase(selector))
    ||| has_part(lowercase(device.location.text), lowercase(selector))
}

/// Text that is no number in the list selects the only renderer that mentions it; if none does or
/// several do, it selects none, and the error tells which and repeats the text. An empty text
/// selects a single renderer, and nothing can be selected from an empty list.
pub proof fn lemma_text_selects(
    out: Result<int, SelectFault>,
    devices: Seq<DeviceModel>,
    selector: Seq<char>,
)
    requires
        selects(out, devices, selector),
        devices.len() <= usize::MAX,
    ensures
        devices.len() == 0 <==> out == Err::<int, SelectFault>(SelectFault::NoDevices),
        devices.len() == 1 && selector.len() == 0 ==> out == Ok::<int, SelectFault>(0),
        devices.len() > 0 && (parse_number(selector, usize::MAX as nat) is Err || parse_number(
            selector,
            usize::MAX as nat,
        )->Ok_0 == 0 || parse_number(selector, usize::MAX as nat)->Ok_0 > devices.len()) && !(
        devices.len() == 1 && selector.len() == 0) ==> {
            &&& out is Ok ==> 0 <= out->Ok_0 < devices.len() && mentions(
                devices[out->Ok_0],
                selector,
            ) && forall|j: int|
                0 <= j < devices.len() && j != out->Ok_0 ==> !mentions(
                    #[trigger] devices[j],
                    selector,
                )
            &&& out is Err && out->Err_0 is NoMatch ==> out->Err_0->NoMatch_0 == selector && forall|
                j: int,
            |
                0 <= j < devices.len() ==> !mentions(#[trigger] devices[j], selector)
            &&& out is Err && out->Err_0 is Ambiguous ==> out->Err_0->Ambiguous_0 == selector
                && exists|i: int, j: int|
                0 <= i < j < devices.len() && mentions(#[trigger] devices[i], selector) && mentions(
                    #[trigger] devices[j],
                    selector,
                )
        },
{
    let keys = all_keys(devices);
    let needle = lowercase(selector);
    assert(forall|i: int|
        0 <= i < devices.len() ==> (is_hit(#[trigger] keys[i], needle) <==> mentions(
            devices[i],
            selector,
        )));
    if devices.len() > 0 && numbered(selector, devices.len()) is None && !(devices.len() == 1
        && selector.len() == 0) {
        if out is Ok {
            let at = out->Ok_0;
            assert(is_hit(keys[at], needle));
            assert forall|j: int| 0 <= j < devices.len() && j != at implies !mentions(
                #[trigger] devices[j],
                selector,
            ) by {
                assert(!is_hit(keys[j], needle));
            }
        } else if out->Err_0 is NoMatch {
            assert forall|j: int| 0 <= j < devices.len() implies !mentions(
                #[trigger] devices[j],
                selector,
            ) by {
                assert(!is_hit(keys[j], needle));
            }
        } else {
            let (i, j) = choose|i: int, j: int|
                0 <= i < j < keys.len() && is_hit(#[trigger] keys[i], needle) && is_hit(
                    #[trigger] keys[j],
                    needle,
                );
            assert(mentions(devices[i], selector) && mentions(devices[j], selector));
        }
    }
}

/// The answer of a person who was asked chooses by number, counted from one; white space around
/// the number does not count. Zero, a number beyond the list and text that is no number choose
/// nothing.
pub proof fn lemma_answers(left: Seq<char>, n: nat, right: Seq<char>, count: nat, other: Seq<char>)
    requires
        all_space(left),
        all_space(right),
        n <= usize::MAX,
    ensures
        1 <= n <= count ==> answered(left + decimal(n) + right, count) == Ok::<int, AnswerError>(
            n - 1,
        ),
        n == 0 ==> answered(left + decimal(n) + right, count) == Err::<int, AnswerError>(
            AnswerError::Zero,
        ),
        n > count && n > 0 ==> answered(left + decimal(n) + right, count) == Err::<
            int,
            AnswerError,
        >(AnswerError::OutOfRange),
        parse_number(trimmed(other), usize::MAX as nat) is Err ==> answered(other, count) == Err::<
            int,
            AnswerError,
        >(AnswerError::Number(parse_number(trimmed(other), usize::MAX as nat)->Err_0)),
{
    lemma_decimal(n);
    lemma_parse_decimal(n, usize::MAX as nat);
    let s = decimal(n);
    assert(is_digit(s[0]) && is_digit(s[s.len() - 1]));
    lemma_trimmed_is(left, s, right);
}

/// The message of an error gives the text that selects nothing, between quotation marks, or says
/// what is wrong with a number.
pub proof fn lemma_select_messages(selector: Seq<char>, cause: NumberError)
    ensures
        has_part(SelectFault::NoMatch(selector).text(), quoted(selector)),
        has_part(SelectFault::Ambiguous(selector).text(), quoted(selector)),
        SelectFault::NoMatch(selector).text() != SelectFault::Ambiguous(selector).text(),
        has_part(AnswerError::Number(cause).text(), cause.text()),
{
    let none = Seq::<char>::empty();
    let (a, b, c) = (
        "no discovered device matches "@,
        "more than one device matches "@,
        "invalid device number: "@,
    );
    let q = quoted(selector);
    lemma_part(a, q, none);
    assert(a + q + none =~= a + q);
    lemma_part(b, q, none);
    assert(b + q + none =~= b + q);
    lemma_part(c, cause.text(), none);
    assert(c + cause.text() + none =~= c + cause.text());
    reveal_strlit("no discovered device matches ");
    reveal_strlit("more than one device matches ");
    assert((a + q)[0] == 'n');
    assert((b + q)[0] == 'm');
}

} // verus!
