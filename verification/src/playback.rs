//! Playback times and speeds as they are written for a renderer and for a person.

use vstd::prelude::*;

use crate::number::{
    all_digits, decimal, digit_run, digits_value, gcd, greatest_common_divisor, is_digit,
    lemma_decimal, lemma_digit_run, lemma_gcd_one, lemma_lowest_terms, lemma_not_a_number,
    lemma_parse_decimal, lemma_parse_digits, lemma_parse_two_digits, parse_u64, push_number, push_two_digits, read_u64,
    two_digits, unsigned, NumberError,
};
use crate::text::{
    all_space, chars_of, cut, find_char, has_part, is_tight, lemma_part, lemma_position_is,
    lemma_split_after, lemma_split_nowhere, lemma_trimmed_is, position, split, split_all,
    split_once, trim, trimmed, white_space,
};

verus! {

/// Why a text is not a playback time.
#[derive(Debug, Clone, Copy, PartialEq, Eq, Structural)]
pub enum TimeError {
    /// It is neither a number of seconds nor hours, minutes and seconds.
    Invalid,
}

impl TimeError {
    /// What the error is called in messages.
    pub open spec fn text(self) -> Seq<char> {
        "invalid time; use seconds or HH:MM:SS"@
    }

    /// The message of the error.
    pub fn message(&self) -> (out: &'static str)
        ensures
            out@ == self.text(),
    {
        "invalid time; use seconds or HH:MM:SS"
    }
}

/// Hours, minutes and seconds with colons between, each with two digits at least.
pub open spec fn clock(hours: nat, minutes: nat, seconds: nat) -> Seq<char> {
    two_digits(hours) + seq![':'] + two_digits(minutes) + seq![':'] + two_digits(seconds)
}

/// `seconds` as hours, minutes and seconds.
pub open spec fn clock_of(seconds: nat) -> Seq<char> {
    clock(seconds / 3600, seconds % 3600 / 60, seconds % 60)
}

/// Hours, minutes and seconds from three numbers with colons between.
pub open spec fn three_numbers(s: Seq<char>) -> Option<(nat, nat, nat)> {
    let parts = split_all(s, ':');
    if parts.len() == 3 {
        match (parse_u64(parts[0]), parse_u64(parts[1]), parse_u64(parts[2])) {
            (Ok(h), Ok(m), Ok(s)) => Some((h, m, s)),
            _ => None,
        }
    } else {
        None
    }
}

/// The target of a seek that `s` asks for: seconds, or hours, minutes and seconds.
pub open spec fn seek_target(s: Seq<char>) -> Option<Seq<char>> {
    match parse_u64(s) {
        Ok(seconds) => Some(clock_of(seconds)),
        Err(_) => match three_numbers(s) {
            Some((h, m, s)) => if m < 60 && s < 60 {
                Some(clock(h, m, s))
            } else {
                None
            },
            None => None,
        },
    }
}

/// Hours, minutes and seconds that a renderer reports; a fraction of a second may follow.
pub open spec fn reported_time(s: Seq<char>) -> Option<(nat, nat, nat)> {
    let parts = split_all(s, ':');
    if parts.len() == 3 {
        match (
            parse_u64(parts[0]),
            parse_u64(parts[1]),
            parse_u64(parts[2].take(position(parts[2], '.') as int)),
        ) {
            (Ok(h), Ok(m), Ok(s)) => Some((h, m, s)),
            _ => None,
        }
    } else {
        None
    }
}

/// The seconds in a reported time; none in a text that is no time.
pub open spec fn reported_seconds(s: Seq<char>) -> nat {
    match reported_time(s) {
        Some((h, m, s)) => h * 3600 + m * 60 + s,
        None => 0,
    }
}

/// Appends hours, minutes and seconds to an empty text.
fn clock_text(hours: u64, minutes: u64, seconds: u64) -> (out: String)
    ensures
        out@ == clock(hours as nat, minutes as nat, seconds as nat),
{
    let mut out = String::new();
    push_two_digits(&mut out, hours);
    out.push(':');
    push_two_digits(&mut out, minutes);
    out.push(':');
    push_two_digits(&mut out, seconds);
    assert(out@ == clock(hours as nat, minutes as nat, seconds as nat));
    out
}

/// `seconds` as hours, minutes and seconds.
pub fn format_time(seconds: u64) -> (out: String)
    ensures
        out@ == clock_of(seconds as nat),
{
    clock_text(seconds / 3600, (seconds % 3600) / 60, seconds % 60)
}

/// Reads the target of a seek.
pub fn parse_time(value: &str) -> (out: Result<String, TimeError>)
    ensures
        match out {
            Ok(target) => seek_target(value@) == Some(target@),
            Err(_) => seek_target(value@) is None,
        },
{
    let chars = chars_of(value);
    match read_u64(&chars) {
        Ok(seconds) => {
            return Ok(format_time(seconds));
        },
        Err(_) => {},
    }
    let parts = split(&chars, ':');
    let ghost all = split_all(value@, ':');
    if parts.len() == 3 {
        assert(parts@[0]@ == all[0] && parts@[1]@ == all[1] && parts@[2]@ == all[2]);
        let hours = read_u64(parts[0]);
        let minutes = read_u64(parts[1]);
        let seconds = read_u64(parts[2]);
        match (hours, minutes, seconds) {
            (Ok(h), Ok(m), Ok(s)) => {
                if m < 60 && s < 60 {
                    return Ok(clock_text(h, m, s));
                }
            },
            _ => {},
        }
    }
    Err(TimeError::Invalid)
}

/// The seconds in a time that a renderer reports, unless they do not fit into 64 bits.
pub fn checked_upnp_time(value: &str) -> (out: Option<u64>)
    ensures
        match out {
            Some(n) => n == reported_seconds(value@),
            None => reported_seconds(value@) > u64::MAX,
        },
{
    let chars = chars_of(value);
    let parts = split(&chars, ':');
    let ghost all = split_all(value@, ':');
    if parts.len() != 3 {
        return Some(0);
    }
    assert(parts@[0]@ == all[0] && parts@[1]@ == all[1] && parts@[2]@ == all[2]);
    let last: &[char] = parts[2];
    let whole: &[char] = &last[0..find_char(last, '.')];
    assert(whole@ == all[2].take(position(all[2], '.') as int));
    match (read_u64(parts[0]), read_u64(parts[1]), read_u64(whole)) {
        (Ok(h), Ok(m), Ok(s)) => {
            let total: u128 = h as u128 * 3600 + m as u128 * 60 + s as u128;
            if total <= u64::MAX as u128 {
                Some(total as u64)
            } else {
                None
            }
        },
        _ => Some(0),
    }
}

/// The seconds in a time that a renderer reports.
pub fn parse_upnp_time(value: &str) -> (out: u64)
    requires
        reported_seconds(value@) <= u64::MAX,
    ensures
        out == reported_seconds(value@),
{
    match checked_upnp_time(value) {
        Some(seconds) => seconds,
        None => 0,
    }
}

/// Why a text is not a playback speed.
#[derive(Debug, Clone, Copy, PartialEq, Eq, Structural)]
pub enum SpeedError {
    /// A part of it that should be a number is none.
    Number(NumberError),
    /// It is neither a fraction nor a decimal number with at most six decimals.
    Malformed,
    /// It does not fit into 64 bits.
    TooLarge,
    /// It is zero, or divides by zero.
    NotPositive,
}

impl SpeedError {
    /// What the error is called in messages.
    pub open spec fn text(self) -> Seq<char> {
        match self {
            SpeedError::Number(cause) => "invalid playback speed: "@ + cause.text(),
            SpeedError::Malformed =>
                "invalid playback speed; use a positive number such as 1.5 or 2"@,
            SpeedError::TooLarge => "playback speed is too large"@,
            SpeedError::NotPositive => "playback speed must be greater than zero"@,
        }
    }

    /// The message of the error.
    pub fn message(&self) -> (out: String)
        ensures
            out@ == self.text(),
    {
        match self {
            SpeedError::Number(cause) => {
                let mut out = "invalid playback speed: ".to_owned();
                out.append(cause.message());
                out
            },
            SpeedError::Malformed =>
                "invalid playback speed; use a positive number such as 1.5 or 2".to_owned(),
            SpeedError::TooLarge => "playback speed is too large".to_owned(),
            SpeedError::NotPositive => "playback speed must be greater than zero".to_owned(),
        }
    }
}

/// Ten to the power `n`.
pub open spec fn ten_to(n: nat) -> nat
    decreases n,
{
    if n == 0 {
        1
    } else {
        10 * ten_to((n - 1) as nat)
    }
}

/// What stands before and after the decimal point of `s`.
pub open spec fn decimal_parts(s: Seq<char>) -> (Seq<char>, Seq<char>) {
    match split_once(s, '.') {
        Some(parts) => parts,
        None => (s, seq![]),
    }
}

/// The fraction that a text with a slash writes.
pub open spec fn slash_fraction(top: Seq<char>, bottom: Seq<char>) -> Result<
    (nat, nat),
    SpeedError,
> {
    match (parse_u64(top), parse_u64(bottom)) {
        (Err(e), _) => Err(SpeedError::Number(e)),
        (Ok(_), Err(e)) => Err(SpeedError::Number(e)),
        (Ok(n), Ok(d)) => if n == 0 || d == 0 {
            Err(SpeedError::NotPositive)
        } else {
            Ok((n, d))
        },
    }
}

/// The fraction that a decimal number writes.
pub open spec fn point_fraction(s: Seq<char>) -> Result<(nat, nat), SpeedError> {
    let (whole, decimals) = decimal_parts(s);
    let d = ten_to(decimals.len());
    let n = digits_value(whole) * d + digits_value(decimals);
    if whole.len() == 0 || !all_digits(whole) || !all_digits(decimals) || decimals.len() > 6 {
        Err(SpeedError::Malformed)
    } else if digits_value(whole) > u64::MAX {
        Err(SpeedError::Number(NumberError::TooLarge))
    } else if n > u64::MAX {
        Err(SpeedError::TooLarge)
    } else if n == 0 {
        Err(SpeedError::NotPositive)
    } else {
        Ok((n, d))
    }
}

/// The fraction that a playback speed writes, as it stands.
pub open spec fn speed_fraction(value: Seq<char>) -> Result<(nat, nat), SpeedError> {
    match split_once(trimmed(value), '/') {
        Some((top, bottom)) => slash_fraction(top, bottom),
        None => point_fraction(trimmed(value)),
    }
}

/// `n / d` in lowest terms, with a slash.
pub open spec fn reduced_fraction(n: nat, d: nat) -> Seq<char> {
    decimal(n / gcd(n, d)) + seq!['/'] + decimal(d / gcd(n, d))
}

/// `n / d` in lowest terms, with a slash unless it is a whole number.
pub open spec fn reduced_number(n: nat, d: nat) -> Seq<char> {
    if d / gcd(n, d) == 1 {
        decimal(n / gcd(n, d))
    } else {
        reduced_fraction(n, d)
    }
}

/// The playback speed that `value` asks for, as a renderer reads it. What was written with a
/// slash keeps it.
pub open spec fn play_speed(value: Seq<char>) -> Result<Seq<char>, SpeedError> {
    match speed_fraction(value) {
        Ok((n, d)) => Ok(
            if split_once(trimmed(value), '/') is Some {
                reduced_fraction(n, d)
            } else {
                reduced_number(n, d)
            },
        ),
        Err(e) => Err(e),
    }
}

/// Whether every character of `s` is a digit.
fn only_digits(s: &[char]) -> (yes: bool)
    ensures
        yes == all_digits(s@),
{
    let mut i: usize = 0;
    while i < s.len()
        invariant
            i <= s@.len(),
            forall|k: int| 0 <= k < i ==> is_digit(#[trigger] s@[k]),
        decreases s@.len() - i,
    {
        if !('0' <= s[i] && s[i] <= '9') {
            assert(!is_digit(s@[i as int]));
            return false;
        }
        i += 1;
    }
    true
}

/// Ten to the power `n`.
fn power_of_ten(n: usize) -> (out: u64)
    requires
        n <= 6,
    ensures
        out == ten_to(n as nat),
        0 < out <= 1_000_000,
{
    proof {
        reveal_with_fuel(ten_to, 7);
    }
    if n == 0 {
        1
    } else if n == 1 {
        10
    } else if n == 2 {
        100
    } else if n == 3 {
        1_000
    } else if n == 4 {
        10_000
    } else if n == 5 {
        100_000
    } else {
        1_000_000
    }
}

/// `numerator / denominator` with a slash.
fn fraction_text(numerator: u64, denominator: u64) -> (out: String)
    ensures
        out@ == decimal(numerator as nat) + seq!['/'] + decimal(denominator as nat),
{
    let mut out = String::new();
    push_number(&mut out, numerator);
    out.push('/');
    push_number(&mut out, denominator);
    assert(out@ == decimal(numerator as nat) + seq!['/'] + decimal(denominator as nat));
    out
}

/// Reads a playback speed and writes it as a rational number in lowest terms.
pub fn normalize_play_speed(value: &str) -> (out: Result<String, SpeedError>)
    ensures
        match out {
            Ok(speed) => play_speed(value@) == Ok::<Seq<char>, SpeedError>(speed@),
            Err(e) => play_speed(value@) == Err::<Seq<char>, SpeedError>(e),
        },
{
    let chars = chars_of(value);
    let value: &[char] = trim(&chars);
    match cut(value, '/') {
        Some((top, bottom)) => {
            let numerator: u64 = match read_u64(top) {
                Ok(n) => n,
                Err(e) => return Err(SpeedError::Number(e)),
            };
            let denominator: u64 = match read_u64(bottom) {
                Ok(n) => n,
                Err(e) => return Err(SpeedError::Number(e)),
            };
            if numerator == 0 || denominator == 0 {
                return Err(SpeedError::NotPositive);
            }
            let divisor: u64 = greatest_common_divisor(numerator, denominator);
            proof {
                lemma_lowest_terms(numerator as nat, denominator as nat);
            }
            return Ok(fraction_text(numerator / divisor, denominator / divisor));
        },
        None => {},
    }
    let (whole, decimals): (&[char], &[char]) = match cut(value, '.') {
        Some(parts) => parts,
        None => (value, &value[0..0]),
    };
    assert(decimal_parts(value@) == (whole@, decimals@));
    if whole.len() == 0 || !only_digits(whole) || !only_digits(decimals) || decimals.len() > 6 {
        return Err(SpeedError::Malformed);
    }
    let denominator: u64 = power_of_ten(decimals.len());
    proof {
        lemma_parse_digits(whole@, u64::MAX as nat);
    }
    let whole: u64 = match read_u64(whole) {
        Ok(n) => n,
        Err(e) => return Err(SpeedError::Number(e)),
    };
    proof {
        lemma_digits_bound(decimals@);
        lemma_ten_to_grows(decimals@.len(), 6);
        if decimals@.len() > 0 {
            lemma_parse_digits(decimals@, u64::MAX as nat);
        }
    }
    let decimals: u64 = if decimals.len() == 0 {
        0
    } else {
        match read_u64(decimals) {
            Ok(n) => n,
            Err(e) => return Err(SpeedError::Number(e)),
        }
    };
    let numerator: u64 = match whole.checked_mul(denominator) {
        Some(product) => match product.checked_add(decimals) {
            Some(sum) => sum,
            None => return Err(SpeedError::TooLarge),
        },
        None => return Err(SpeedError::TooLarge),
    };
    if numerator == 0 {
        return Err(SpeedError::NotPositive);
    }
    let divisor: u64 = greatest_common_divisor(numerator, denominator);
    proof {
        lemma_lowest_terms(numerator as nat, denominator as nat);
    }
    let numerator: u64 = numerator / divisor;
    let denominator: u64 = denominator / divisor;
    if denominator == 1 {
        let mut out = String::new();
        push_number(&mut out, numerator);
        assert(out@ == decimal(numerator as nat));
        Ok(out)
    } else {
        Ok(fraction_text(numerator, denominator))
    }
}

/// Digits write less than ten to the power of their number.
proof fn lemma_digits_bound(s: Seq<char>)
    requires
        all_digits(s),
    ensures
        digits_value(s) < ten_to(s.len()),
    decreases s.len(),
{
    if s.len() > 0 {
        assert forall|i: int| 0 <= i < s.drop_last().len() implies is_digit(
            #[trigger] s.drop_last()[i],
        ) by {
            assert(is_digit(s[i]));
        }
        lemma_digits_bound(s.drop_last());
        assert(is_digit(s[s.len() - 1]));
    }
}

proof fn lemma_ten_to_grows(m: nat, n: nat)
    requires
        m <= n,
    ensures
        ten_to(m) <= ten_to(n),
    decreases n,
{
    if m < n {
        lemma_ten_to_grows(m, (n - 1) as nat);
    }
}

/// The colons of a time part it into its three numbers.
proof fn lemma_clock_parts(h: nat, m: nat, s: nat)
    requires
        h <= u64::MAX,
        m <= u64::MAX,
        s <= u64::MAX,
    ensures
        split_all(clock(h, m, s), ':') == seq![two_digits(h), two_digits(m), two_digits(s)],
        three_numbers(clock(h, m, s)) == Some((h, m, s)),
        reported_time(clock(h, m, s)) == Some((h, m, s)),
        parse_u64(clock(h, m, s)) is Err,
{
    let max = u64::MAX as nat;
    lemma_parse_two_digits(h, max);
    lemma_parse_two_digits(m, max);
    lemma_parse_two_digits(s, max);
    let (a, b, c) = (two_digits(h), two_digits(m), two_digits(s));
    let all = clock(h, m, s);
    lemma_digits_are_not(a, ':');
    lemma_digits_are_not(b, ':');
    lemma_digits_are_not(c, ':');
    lemma_digits_are_not(c, '.');
    assert(all == a + seq![':'] + (b + seq![':'] + c));
    lemma_split_after(a, ':', b + seq![':'] + c);
    lemma_split_after(b, ':', c);
    lemma_split_nowhere(c, ':');
    assert(split_all(all, ':') == seq![a, b, c]);
    lemma_split_nowhere(c, '.');
    assert(c.take(c.len() as int) == c);
    assert(parse_u64(all) is Err) by {
        assert(is_digit(a[0]));
        assert(all[0] == a[0]);
        assert(all[a.len() as int] == ':');
        lemma_digit_run(all);
        if digit_run(all) == all.len() {
            assert(all.take(all.len() as int)[a.len() as int] == ':');
            assert(is_digit(':'));
        }
    }
}

/// No digit is a character that is no digit.
proof fn lemma_digits_are_not(s: Seq<char>, c: char)
    requires
        all_digits(s),
        !is_digit(c),
    ensures
        forall|k: int| 0 <= k < s.len() ==> s[k] != c,
{
    assert forall|k: int| 0 <= k < s.len() implies s[k] != c by {
        assert(is_digit(s[k]));
    }
}

/// A number of seconds, written as a time, is read back as the same number.
pub proof fn lemma_time_round_trip(seconds: nat)
    requires
        seconds <= u64::MAX,
    ensures
        reported_seconds(clock_of(seconds)) == seconds,
{
    let (h, m, s) = (seconds / 3600, seconds % 3600 / 60, seconds % 60);
    lemma_clock_parts(h, m, s);
    assert(h * 3600 + m * 60 + s == seconds);
}

/// The target of a seek is a time whose minutes and seconds are less than sixty, and asks for
/// itself. Of hours, minutes and seconds it is the same time; of a number it is as many seconds.
pub proof fn lemma_seek_target_is_stable(value: Seq<char>)
    requires
        seek_target(value) is Some,
    ensures
        seek_target(seek_target(value)->0) == seek_target(value),
        exists|h: nat, m: nat, s: nat|
            h <= u64::MAX && m < 60 && s < 60 && seek_target(value)->0 == #[trigger] clock(h, m, s),
        three_numbers(value) is Some ==> three_numbers(seek_target(value)->0) == three_numbers(
            value,
        ),
        parse_u64(value) is Ok ==> reported_seconds(seek_target(value)->0) == parse_u64(value)->Ok_0,
{
    lemma_parse_at_most(value);
    let parts = split_all(value, ':');
    if parts.len() == 3 {
        lemma_parse_at_most(parts[0]);
        lemma_parse_at_most(parts[1]);
        lemma_parse_at_most(parts[2]);
    }
    match parse_u64(value) {
        Ok(seconds) => {
            lemma_number_is_one_part(value);
            lemma_clock_parts(seconds / 3600, seconds % 3600 / 60, seconds % 60);
            lemma_time_round_trip(seconds);
        },
        Err(_) => {
            let (h, m, s) = three_numbers(value)->0;
            lemma_clock_parts(h, m, s);
            assert(seek_target(value)->0 == clock(h, m, s));
        },
    }
}

/// What is read as a number of 64 bits fits into 64 bits.
proof fn lemma_parse_at_most(s: Seq<char>)
    ensures
        parse_u64(s) is Ok ==> parse_u64(s)->Ok_0 <= u64::MAX,
{
    let body = unsigned(s);
    lemma_digit_run(body);
    assert(body.take(body.len() as int) == body);
}

/// No colon stands in a number.
proof fn lemma_number_is_one_part(s: Seq<char>)
    requires
        parse_u64(s) is Ok,
    ensures
        split_all(s, ':').len() == 1,
{
    let body = unsigned(s);
    lemma_digit_run(body);
    assert(body.take(body.len() as int) == body);
    lemma_digits_are_not(body, ':');
    assert forall|k: int| 0 <= k < s.len() implies s[k] != ':' by {
        if body != s {
            if k > 0 {
                assert(s[k] == body[k - 1]);
            }
        }
    }
    lemma_split_nowhere(s, ':');
}

/// Text that neither begins nor ends with white space is trimmed already.
proof fn lemma_trimmed_already(s: Seq<char>)
    requires
        s.len() > 0,
        is_digit(s.first()),
        is_digit(s.last()),
    ensures
        trimmed(s) == s,
{
}

/// A fraction in lowest terms, written with a slash, asks for itself.
proof fn lemma_fraction_is_stable(p: nat, q: nat)
    requires
        0 < p <= u64::MAX,
        0 < q <= u64::MAX,
        gcd(p, q) == 1,
    ensures
        speed_fraction(decimal(p) + seq!['/'] + decimal(q)) == Ok::<(nat, nat), SpeedError>((p, q)),
        play_speed(decimal(p) + seq!['/'] + decimal(q)) == Ok::<Seq<char>, SpeedError>(
            decimal(p) + seq!['/'] + decimal(q),
        ),
{
    let t = decimal(p) + seq!['/'] + decimal(q);
    lemma_decimal(p);
    lemma_decimal(q);
    assert(t.first() == decimal(p)[0] && is_digit(decimal(p)[0]));
    assert(t.last() == decimal(q)[decimal(q).len() - 1] && is_digit(
        decimal(q)[decimal(q).len() - 1],
    ));
    lemma_trimmed_already(t);
    lemma_digits_are_not(decimal(p), '/');
    lemma_split_after(decimal(p), '/', decimal(q));
    lemma_parse_decimal(p, u64::MAX as nat);
    lemma_parse_decimal(q, u64::MAX as nat);
    assert(p / 1 == p && q / 1 == q);
}

/// A whole number asks for itself.
proof fn lemma_whole_is_stable(p: nat)
    requires
        0 < p <= u64::MAX,
    ensures
        speed_fraction(decimal(p)) == Ok::<(nat, nat), SpeedError>((p, 1)),
        play_speed(decimal(p)) == Ok::<Seq<char>, SpeedError>(decimal(p)),
{
    let t = decimal(p);
    lemma_decimal(p);
    assert(is_digit(t[0]) && is_digit(t[t.len() - 1]));
    lemma_trimmed_already(t);
    lemma_digits_are_not(t, '/');
    lemma_digits_are_not(t, '.');
    lemma_split_nowhere(t, '/');
    lemma_split_nowhere(t, '.');
    assert(decimal_parts(t) == (t, Seq::<char>::empty()));
    assert(ten_to(0) == 1);
    assert(digits_value(Seq::<char>::empty()) == 0);
    lemma_gcd_one(p);
    assert(p / 1 == p);
}

/// The fraction that a speed writes fits into 64 bits above and below.
proof fn lemma_fraction_fits(value: Seq<char>)
    requires
        speed_fraction(value) is Ok,
    ensures
        ({
            let (n, d) = speed_fraction(value)->Ok_0;
            0 < n <= u64::MAX && 0 < d <= u64::MAX
        }),
{
    match split_once(trimmed(value), '/') {
        Some((top, bottom)) => {
            lemma_parse_at_most(top);
            lemma_parse_at_most(bottom);
        },
        None => {
            let decimals = decimal_parts(trimmed(value)).1;
            lemma_ten_to_grows(0, decimals.len());
            lemma_ten_to_grows(decimals.len(), 6);
            assert(ten_to(6) == 1_000_000) by {
                reveal_with_fuel(ten_to, 7);
            }
        },
    }
}

/// The speed that `value` asks for is a positive fraction `p / q` in lowest terms, of the value
/// that `value` writes. It is written with a slash, or without one if `q` is one, and asks for
/// itself.
pub proof fn lemma_speed_in_lowest_terms(value: Seq<char>)
    requires
        play_speed(value) is Ok,
    ensures
        ({
            let (n, d) = speed_fraction(value)->Ok_0;
            let (p, q) = (n / gcd(n, d), d / gcd(n, d));
            let speed = play_speed(value)->Ok_0;
            &&& p > 0 && q > 0
            &&& gcd(p, q) == 1
            &&& p * d == q * n
            &&& speed_fraction(speed) == Ok::<(nat, nat), SpeedError>((p, q))
            &&& speed == decimal(p) + seq!['/'] + decimal(q) || (q == 1 && speed == decimal(p))
            &&& play_speed(speed) == Ok::<Seq<char>, SpeedError>(speed)
        }),
{
    let (n, d) = speed_fraction(value)->Ok_0;
    lemma_fraction_fits(value);
    lemma_lowest_terms(n, d);
    let g = gcd(n, d);
    let (p, q) = (n / g, d / g);
    assert(p <= n && q <= d) by {
        vstd::arithmetic::div_mod::lemma_div_is_ordered_by_denominator(n as int, 1, g as int);
        vstd::arithmetic::div_mod::lemma_div_is_ordered_by_denominator(d as int, 1, g as int);
    }
    lemma_fraction_is_stable(p, q);
    lemma_whole_is_stable(p);
}

/// Hours, minutes and seconds are written with two digits at least and colons between, the
/// minutes and the seconds less than sixty.
pub proof fn lemma_clock_of(h: nat, m: nat, s: nat)
    requires
        m < 60,
        s < 60,
    ensures
        clock_of(h * 3600 + m * 60 + s) == two_digits(h) + ":"@ + two_digits(m) + ":"@ + two_digits(
            s,
        ),
{
    reveal_strlit(":");
    assert(":"@ =~= seq![':']);
    let n = h * 3600 + m * 60 + s;
    assert(n / 3600 == h && n % 3600 / 60 == m && n % 60 == s);
}

/// A number of seconds asks for the time after as many seconds.
pub proof fn lemma_seek_by_seconds(h: nat, m: nat, s: nat)
    requires
        m < 60,
        s < 60,
        h * 3600 + m * 60 + s <= u64::MAX,
    ensures
        seek_target(decimal(h * 3600 + m * 60 + s)) == Some(
            two_digits(h) + ":"@ + two_digits(m) + ":"@ + two_digits(s),
        ),
{
    lemma_clock_of(h, m, s);
    lemma_parse_decimal(h * 3600 + m * 60 + s, u64::MAX as nat);
}

/// The colons part three numbers.
proof fn lemma_numbers_with_colons(h: nat, m: nat, last: Seq<char>)
    requires
        h <= u64::MAX,
        m <= u64::MAX,
        forall|k: int| 0 <= k < last.len() ==> last[k] != ':',
    ensures
        ({
            let all = decimal(h) + ":"@ + decimal(m) + ":"@ + last;
            &&& split_all(all, ':') == seq![decimal(h), decimal(m), last]
            &&& parse_u64(all) is Err
        }),
{
    let (a, b) = (decimal(h), decimal(m));
    let all = a + ":"@ + b + ":"@ + last;
    let tail = b + seq![':'] + last;
    assert(all == a + seq![':'] + tail) by {
        reveal_strlit(":");
        assert(":"@ =~= seq![':']);
        assert(all =~= a + seq![':'] + tail);
    }
    assert(split_all(last, ':') == seq![last]) by {
        lemma_split_nowhere(last, ':');
    }
    assert(split_all(tail, ':') == seq![b, last]) by {
        lemma_decimal(m);
        lemma_digits_are_not(b, ':');
        lemma_split_after(b, ':', last);
        assert(seq![b] + seq![last] =~= seq![b, last]);
    }
    assert(split_all(all, ':') == seq![a, b, last]) by {
        lemma_decimal(h);
        lemma_digits_are_not(a, ':');
        lemma_split_after(a, ':', tail);
        assert(seq![a] + seq![b, last] =~= seq![a, b, last]);
    }
    assert(parse_u64(all) is Err) by {
        lemma_decimal(h);
        assert((a + seq![':'] + tail)[a.len() as int] == ':');
        lemma_not_a_number(all, a.len() as int, u64::MAX as nat);
    }
}

/// Hours, minutes and seconds ask for that time if the minutes and the seconds are less than
/// sixty, and for none if they are not.
pub proof fn lemma_seek_by_time(h: nat, m: nat, s: nat)
    requires
        h <= u64::MAX,
        m <= u64::MAX,
        s <= u64::MAX,
    ensures
        m < 60 && s < 60 ==> seek_target(decimal(h) + ":"@ + decimal(m) + ":"@ + decimal(s)) == Some(
            two_digits(h) + ":"@ + two_digits(m) + ":"@ + two_digits(s),
        ),
        m >= 60 || s >= 60 ==> seek_target(decimal(h) + ":"@ + decimal(m) + ":"@ + decimal(s)) is None,
{
    reveal_strlit(":");
    assert(":"@ =~= seq![':']);
    lemma_decimal(s);
    lemma_digits_are_not(decimal(s), ':');
    lemma_numbers_with_colons(h, m, decimal(s));
    lemma_parse_decimal(h, u64::MAX as nat);
    lemma_parse_decimal(m, u64::MAX as nat);
    lemma_parse_decimal(s, u64::MAX as nat);
}

/// Text without a colon that is no number, and text with one colon alone, ask for no time.
pub proof fn lemma_seek_refused(s: Seq<char>, a: Seq<char>, b: Seq<char>)
    requires
        forall|k: int| 0 <= k < s.len() ==> s[k] != ':',
        forall|k: int| 0 <= k < a.len() ==> a[k] != ':',
        forall|k: int| 0 <= k < b.len() ==> b[k] != ':',
    ensures
        parse_u64(s) is Err ==> seek_target(s) is None,
        seek_target(a + ":"@ + b) is None,
{
    reveal_strlit(":");
    assert(":"@ =~= seq![':']);
    lemma_split_nowhere(s, ':');
    lemma_split_after(a, ':', b);
    lemma_split_nowhere(b, ':');
    let all = a + seq![':'] + b;
    assert(split_all(all, ':').len() == 2);
    assert(all[a.len() as int] == ':');
    lemma_not_a_number(all, a.len() as int, u64::MAX as nat);
}

/// The seconds in a reported time are those of its hours, minutes and seconds. A fraction of a
/// second after a point does not count, whatever it is.
pub proof fn lemma_reported_seconds(h: nat, m: nat, s: nat, fraction: Seq<char>)
    requires
        h <= u64::MAX,
        m <= u64::MAX,
        s <= u64::MAX,
        forall|k: int| 0 <= k < fraction.len() ==> fraction[k] != ':',
    ensures
        reported_seconds(decimal(h) + ":"@ + decimal(m) + ":"@ + decimal(s)) == h * 3600 + m * 60
            + s,
        reported_seconds(
            decimal(h) + ":"@ + decimal(m) + ":"@ + (decimal(s) + "."@ + fraction),
        ) == h * 3600 + m * 60 + s,
{
    reveal_strlit(".");
    assert("."@ =~= seq!['.']);
    lemma_decimal(s);
    let plain = decimal(s);
    let long = plain + "."@ + fraction;
    lemma_digits_are_not(plain, ':');
    lemma_digits_are_not(plain, '.');
    assert forall|k: int| 0 <= k < long.len() implies long[k] != ':' by {
        if k < plain.len() {
            assert(long[k] == plain[k]);
        } else if k > plain.len() {
            assert(long[k] == fraction[k - plain.len() - 1]);
        }
    }
    lemma_numbers_with_colons(h, m, plain);
    lemma_numbers_with_colons(h, m, long);
    lemma_split_nowhere(plain, '.');
    lemma_position_is(long, '.', plain.len() as int);
    assert(plain.take(plain.len() as int) =~= plain);
    assert(long.take(plain.len() as int) =~= plain);
    lemma_parse_decimal(h, u64::MAX as nat);
    lemma_parse_decimal(m, u64::MAX as nat);
    lemma_parse_decimal(s, u64::MAX as nat);
}

/// What is no time counts no seconds: text without a colon, or with one alone.
pub proof fn lemma_no_reported_seconds(s: Seq<char>, a: Seq<char>, b: Seq<char>)
    requires
        forall|k: int| 0 <= k < s.len() ==> s[k] != ':',
        forall|k: int| 0 <= k < a.len() ==> a[k] != ':',
        forall|k: int| 0 <= k < b.len() ==> b[k] != ':',
    ensures
        reported_seconds(s) == 0,
        reported_seconds(a + ":"@ + b) == 0,
{
    reveal_strlit(":");
    assert(":"@ =~= seq![':']);
    lemma_split_nowhere(s, ':');
    lemma_split_after(a, ':', b);
    lemma_split_nowhere(b, ':');
    assert(split_all(a + seq![':'] + b, ':').len() == 2);
}

/// Whether `speed` writes the fraction `n / d`, which is positive, in lowest terms, with a slash
/// or, if `whole` and it is a whole number, without.
pub open spec fn writes_fraction(speed: Seq<char>, n: nat, d: nat, whole: bool) -> bool {
    exists|p: nat, q: nat|
        {
            &&& p > 0 && q > 0
            &&& #[trigger] gcd(p, q) == 1
            &&& p * d == q * n
            &&& if whole && q == 1 {
                speed == decimal(p)
            } else {
                speed == decimal(p) + "/"@ + decimal(q)
            }
        }
}

/// Two numbers with a slash between ask for their quotient, unless one of them is zero.
pub proof fn lemma_speed_of_a_fraction(n: nat, d: nat)
    requires
        n <= u64::MAX,
        d <= u64::MAX,
    ensures
        n > 0 && d > 0 ==> play_speed(decimal(n) + "/"@ + decimal(d)) is Ok && writes_fraction(
            play_speed(decimal(n) + "/"@ + decimal(d))->Ok_0,
            n,
            d,
            false,
        ),
        n == 0 || d == 0 ==> play_speed(decimal(n) + "/"@ + decimal(d)) == Err::<
            Seq<char>,
            SpeedError,
        >(SpeedError::NotPositive),
{
    reveal_strlit("/");
    assert("/"@ =~= seq!['/']);
    let t = decimal(n) + seq!['/'] + decimal(d);
    lemma_decimal(n);
    lemma_decimal(d);
    assert(t.first() == decimal(n)[0] && is_digit(decimal(n)[0]));
    assert(t.last() == decimal(d)[decimal(d).len() - 1] && is_digit(
        decimal(d)[decimal(d).len() - 1],
    ));
    lemma_trimmed_already(t);
    lemma_digits_are_not(decimal(n), '/');
    lemma_split_after(decimal(n), '/', decimal(d));
    lemma_parse_decimal(n, u64::MAX as nat);
    lemma_parse_decimal(d, u64::MAX as nat);
    if n > 0 && d > 0 {
        lemma_lowest_terms(n, d);
        let (p, q) = (n / gcd(n, d), d / gcd(n, d));
        assert(gcd(p, q) == 1);
    }
}

/// A whole number and at most six decimals, if they fit, are written in lowest terms.
pub proof fn lemma_decimal_is_reduced(whole: nat, decimals: Seq<char>)
    requires
        all_digits(decimals),
    ensures
        ({
            let speed = play_speed(decimal(whole) + "."@ + decimals);
            let d = ten_to(decimals.len());
            let n = whole * d + digits_value(decimals);
            &&& decimals.len() <= 6 && 0 < n <= u64::MAX ==> speed == Ok::<Seq<char>, SpeedError>(
                reduced_number(n, d),
            )
            &&& decimals.len() <= 6 && n == 0 ==> speed == Err::<Seq<char>, SpeedError>(
                SpeedError::NotPositive,
            )
            &&& decimals.len() <= 6 && n > u64::MAX && whole <= u64::MAX ==> speed == Err::<
                Seq<char>,
                SpeedError,
            >(SpeedError::TooLarge)
            &&& decimals.len() <= 6 && whole > u64::MAX ==> speed == Err::<Seq<char>, SpeedError>(
                SpeedError::Number(NumberError::TooLarge),
            )
            &&& decimals.len() > 6 ==> speed == Err::<Seq<char>, SpeedError>(SpeedError::Malformed)
        }),
{
    reveal_strlit(".");
    assert("."@ =~= seq!['.']);
    let w = decimal(whole);
    let t = w + seq!['.'] + decimals;
    let d = ten_to(decimals.len());
    let n = whole * d + digits_value(decimals);
    lemma_decimal(whole);
    lemma_digits_are_not(w, '/');
    lemma_digits_are_not(w, '.');
    lemma_digits_are_not(decimals, '/');
    assert(t.first() == w[0] && is_digit(w[0]));
    assert(t.last() == '.' || is_digit(t.last())) by {
        if decimals.len() > 0 {
            assert(t.last() == decimals[decimals.len() - 1]);
        }
    }
    assert(!white_space('.'));
    assert(trimmed(t) == t);
    assert forall|k: int| 0 <= k < t.len() implies t[k] != '/' by {
        if k < w.len() {
            assert(t[k] == w[k]);
        } else if k > w.len() {
            assert(t[k] == decimals[k - w.len() - 1]);
        }
    }
    lemma_split_nowhere(t, '/');
    lemma_split_after(w, '.', decimals);
    assert(decimal_parts(t) == (w, decimals));
    lemma_digits_bound(decimals);
    if decimals.len() <= 6 {
        lemma_ten_to_grows(0, decimals.len());
        assert(whole <= whole * d) by (nonlinear_arith)
            requires
                d >= 1,
        ;
    }
}

/// A whole number and decimals ask for the number that they write: the decimals count as many
/// tenths, hundredths and so on as they have digits. Decimals are at most six; zero is refused,
/// and what does not fit into 64 bits.
pub proof fn lemma_speed_of_a_decimal(whole: nat, decimals: Seq<char>)
    requires
        all_digits(decimals),
    ensures
        ({
            let speed = play_speed(decimal(whole) + "."@ + decimals);
            let d = ten_to(decimals.len());
            let n = whole * d + digits_value(decimals);
            &&& decimals.len() <= 6 && 0 < n <= u64::MAX ==> speed is Ok && writes_fraction(
                speed->Ok_0,
                n,
                d,
                true,
            )
            &&& decimals.len() <= 6 && n == 0 ==> speed == Err::<Seq<char>, SpeedError>(
                SpeedError::NotPositive,
            )
            &&& decimals.len() <= 6 && n > u64::MAX && whole <= u64::MAX ==> speed == Err::<
                Seq<char>,
                SpeedError,
            >(SpeedError::TooLarge)
            &&& decimals.len() <= 6 && whole > u64::MAX ==> speed == Err::<Seq<char>, SpeedError>(
                SpeedError::Number(NumberError::TooLarge),
            )
            &&& decimals.len() > 6 ==> speed == Err::<Seq<char>, SpeedError>(SpeedError::Malformed)
        }),
        ten_to(0) == 1,
        ten_to(decimals.len() + 1) == 10 * ten_to(decimals.len()),
{
    reveal_strlit("/");
    assert("/"@ =~= seq!['/']);
    let d = ten_to(decimals.len());
    let n = whole * d + digits_value(decimals);
    lemma_decimal_is_reduced(whole, decimals);
    if decimals.len() <= 6 && 0 < n <= u64::MAX {
        lemma_ten_to_grows(0, decimals.len());
        lemma_lowest_terms(n, d);
        let (p, q) = (n / gcd(n, d), d / gcd(n, d));
        assert(gcd(p, q) == 1);
    }
}

/// A whole number asks for itself; zero is refused. Space around a speed does not count.
pub proof fn lemma_speed_of_a_whole_number(n: nat, left: Seq<char>, text: Seq<char>, right: Seq<char>)
    requires
        n <= u64::MAX,
        all_space(left),
        is_tight(text),
        all_space(right),
    ensures
        n > 0 ==> play_speed(decimal(n)) == Ok::<Seq<char>, SpeedError>(decimal(n)),
        play_speed(decimal(0)) == Err::<Seq<char>, SpeedError>(SpeedError::NotPositive),
        play_speed(left + text + right) == play_speed(text),
{
    if n > 0 {
        lemma_whole_is_stable(n);
    }
    let zero = decimal(0);
    lemma_decimal(0);
    assert(is_digit(zero[0]) && is_digit(zero[zero.len() - 1]));
    lemma_trimmed_already(zero);
    lemma_digits_are_not(zero, '/');
    lemma_digits_are_not(zero, '.');
    lemma_split_nowhere(zero, '/');
    lemma_split_nowhere(zero, '.');
    assert(decimal_parts(zero) == (zero, Seq::<char>::empty()));
    assert(ten_to(0) == 1);
    assert(digits_value(Seq::<char>::empty()) == 0);
    lemma_trimmed_is(left, text, right);
    let none = Seq::<char>::empty();
    lemma_trimmed_is(none, text, none);
    assert(none + text + none =~= text);
}

/// The message for a part of a speed that is no number says what is wrong with it.
pub proof fn lemma_speed_messages(cause: NumberError)
    ensures
        has_part(SpeedError::Number(cause).text(), cause.text()),
{
    let none = Seq::<char>::empty();
    let head = "invalid playback speed: "@;
    lemma_part(head, cause.text(), none);
    assert(head + cause.text() + none =~= head + cause.text());
}

} // verus!
