//! Decimal numbers as text, and the arithmetic of fractions.

use vstd::arithmetic::div_mod::{lemma_fundamental_div_mod, lemma_mod_multiples_basic};
use vstd::prelude::*;

verus! {

/// Why a text is not a number.
#[derive(Debug, Clone, Copy, PartialEq, Eq, Structural)]
pub enum NumberError {
    /// The text is empty.
    Empty,
    /// A character is not a digit, or no digit follows the sign.
    InvalidDigit,
    /// The number is larger than the type can hold.
    TooLarge,
}

impl NumberError {
    /// What the error is called in messages.
    pub open spec fn text(self) -> Seq<char> {
        match self {
            NumberError::Empty => "cannot parse integer from empty string"@,
            NumberError::InvalidDigit => "invalid digit found in string"@,
            NumberError::TooLarge => "number too large to fit in target type"@,
        }
    }

    /// The message of the error.
    pub fn message(&self) -> (out: &'static str)
        ensures
            out@ == self.text(),
    {
        match self {
            NumberError::Empty => "cannot parse integer from empty string",
            NumberError::InvalidDigit => "invalid digit found in string",
            NumberError::TooLarge => "number too large to fit in target type",
        }
    }
}

pub open spec fn is_digit(c: char) -> bool {
    '0' <= c <= '9'
}

/// What the digit `c` counts.
pub open spec fn digit_value(c: char) -> nat {
    (c as int - '0' as int) as nat
}

/// The digit that counts `d`.
pub open spec fn digit_char(d: nat) -> char {
    ('0' as int + d) as char
}

pub open spec fn all_digits(s: Seq<char>) -> bool {
    forall|i: int| 0 <= i < s.len() ==> is_digit(#[trigger] s[i])
}

/// The number that the digits `s` write.
pub open spec fn digits_value(s: Seq<char>) -> nat
    decreases s.len(),
{
    if s.len() == 0 {
        0
    } else {
        digits_value(s.drop_last()) * 10 + digit_value(s.last())
    }
}

/// How many digits `s` begins with.
pub open spec fn digit_run(s: Seq<char>) -> nat
    decreases s.len(),
{
    if s.len() > 0 && is_digit(s.first()) {
        1 + digit_run(s.drop_first())
    } else {
        0
    }
}

/// `s` without a plus sign at its start.
pub open spec fn unsigned(s: Seq<char>) -> Seq<char> {
    if s.len() > 0 && s[0] == '+' {
        s.drop_first()
    } else {
        s
    }
}

/// The number that `s` writes, if it is at most `max`: digits, after a plus sign or none.
pub open spec fn parse_number(s: Seq<char>, max: nat) -> Result<nat, NumberError> {
    let body = unsigned(s);
    let run = digit_run(body) as int;
    if s.len() == 0 {
        Err(NumberError::Empty)
    } else if digits_value(body.take(run)) > max {
        Err(NumberError::TooLarge)
    } else if body.len() == 0 || run < body.len() {
        Err(NumberError::InvalidDigit)
    } else {
        Ok(digits_value(body))
    }
}

/// The number that `s` writes, if it fits into 64 bits.
pub open spec fn parse_u64(s: Seq<char>) -> Result<nat, NumberError> {
    parse_number(s, u64::MAX as nat)
}

/// `n` in decimal, without leading zeros.
pub open spec fn decimal(n: nat) -> Seq<char>
    decreases n,
{
    if n < 10 {
        seq![digit_char(n)]
    } else {
        decimal(n / 10).push(digit_char(n % 10))
    }
}

/// `n` in decimal, with a zero in front if it has one digit.
pub open spec fn two_digits(n: nat) -> Seq<char> {
    if n < 10 {
        seq!['0'] + decimal(n)
    } else {
        decimal(n)
    }
}

/// The greatest common divisor of `a` and `b`, by Euclid's algorithm. `lemma_gcd` says that it
/// is what its name says.
pub open spec fn gcd(a: nat, b: nat) -> nat
    decreases b,
{
    if b == 0 {
        a
    } else {
        gcd(b, a % b)
    }
}

pub proof fn lemma_digit_run(s: Seq<char>)
    ensures
        digit_run(s) <= s.len(),
        all_digits(s.take(digit_run(s) as int)),
        digit_run(s) < s.len() ==> !is_digit(s[digit_run(s) as int]),
    decreases s.len(),
{
    if s.len() > 0 && is_digit(s.first()) {
        let rest = s.drop_first();
        lemma_digit_run(rest);
        let run = digit_run(s) as int;
        assert forall|i: int| 0 <= i < run implies is_digit(#[trigger] s.take(run)[i]) by {
            if i > 0 {
                assert(s[i] == rest.take(run - 1)[i - 1]);
            }
        }
    }
}

/// The run is the only length that `lemma_digit_run` describes.
pub proof fn lemma_digit_run_is(s: Seq<char>, run: int)
    requires
        0 <= run <= s.len(),
        all_digits(s.take(run)),
        run < s.len() ==> !is_digit(s[run]),
    ensures
        digit_run(s) == run,
{
    lemma_digit_run(s);
    let r = digit_run(s) as int;
    if r < run {
        assert(is_digit(s.take(run)[r]));
    } else if run < r {
        assert(is_digit(s.take(r)[run]));
    }
}

/// A longer run of digits writes no smaller number.
pub proof fn lemma_digits_value_grows(s: Seq<char>, i: int, j: int)
    requires
        0 <= i <= j <= s.len(),
    ensures
        digits_value(s.take(i)) <= digits_value(s.take(j)),
    decreases j - i,
{
    if i < j {
        lemma_digits_value_grows(s, i, j - 1);
        assert(s.take(j).drop_last() == s.take(j - 1));
    }
}

pub proof fn lemma_decimal(n: nat)
    ensures
        decimal(n).len() > 0,
        all_digits(decimal(n)),
        digits_value(decimal(n)) == n,
        n > 0 ==> decimal(n)[0] != '0',
    decreases n,
{
    let d = digit_char(n % 10);
    assert(is_digit(d) && digit_value(d) == n % 10);
    if n < 10 {
        assert(decimal(n).drop_last() == Seq::<char>::empty());
        assert(digits_value(decimal(n).drop_last()) == 0);
    } else {
        lemma_decimal(n / 10);
        assert(decimal(n).drop_last() == decimal(n / 10));
    }
}

/// A number written in decimal is read back as itself.
pub proof fn lemma_parse_decimal(n: nat, max: nat)
    requires
        n <= max,
    ensures
        parse_number(decimal(n), max) == Ok::<nat, NumberError>(n),
{
    lemma_decimal(n);
    lemma_parse_digits(decimal(n), max);
}

/// A number written in decimal that is larger than what is asked for is refused as too large.
pub proof fn lemma_parse_too_large(n: nat, max: nat)
    requires
        n > max,
    ensures
        parse_number(decimal(n), max) == Err::<nat, NumberError>(NumberError::TooLarge),
{
    lemma_decimal(n);
    lemma_parse_digits(decimal(n), max);
}

/// Digits are read as the number that they write, unless it is too large.
pub proof fn lemma_parse_digits(s: Seq<char>, max: nat)
    requires
        s.len() > 0,
        all_digits(s),
    ensures
        parse_number(s, max) == if digits_value(s) <= max {
            Ok::<nat, NumberError>(digits_value(s))
        } else {
            Err::<nat, NumberError>(NumberError::TooLarge)
        },
{
    assert(is_digit(s[0]));
    assert(unsigned(s) == s);
    assert(s.take(s.len() as int) == s);
    lemma_digit_run_is(s, s.len() as int);
}

/// A number written with at least two digits is read back as itself.
pub proof fn lemma_parse_two_digits(n: nat, max: nat)
    requires
        n <= max,
    ensures
        parse_number(two_digits(n), max) == Ok::<nat, NumberError>(n),
        all_digits(two_digits(n)),
        two_digits(n).len() >= 2,
{
    lemma_decimal(n);
    let s = two_digits(n);
    if n < 10 {
        let one = seq!['0'];
        assert(s.drop_last() == one);
        assert(one.drop_last() == Seq::<char>::empty());
        assert(digits_value(one) == 0) by {
            assert(digits_value(one.drop_last()) == 0);
        }
        assert(s.last() == digit_char(n));
        assert(digits_value(s) == n);
    } else {
        assert(decimal(n).drop_last() == decimal(n / 10));
        lemma_decimal(n / 10);
    }
    lemma_parse_digits(s, max);
}

/// `gcd(a, b)` divides `a` and `b`, and every divisor of both divides it.
pub proof fn lemma_gcd(a: nat, b: nat)
    requires
        a > 0 || b > 0,
    ensures
        gcd(a, b) > 0,
        a % gcd(a, b) == 0,
        b % gcd(a, b) == 0,
        forall|d: nat| d > 0 && a % d == 0 && b % d == 0 ==> #[trigger] (gcd(a, b) % d) == 0,
    decreases b,
{
    if b == 0 {
        assert(a % a == 0) by {
            lemma_mod_multiples_basic(1, a as int);
        }
        assert(0nat % a == 0) by {
            lemma_mod_multiples_basic(0, a as int);
        }
    } else {
        let r = a % b;
        let g = gcd(b, r);
        lemma_gcd(b, r);
        lemma_fundamental_div_mod(a as int, b as int);
        assert(a % g == 0) by {
            lemma_divides_combination((a / b) as int, b as int, r as int, g as int);
        }
        assert forall|d: nat| d > 0 && a % d == 0 && b % d == 0 implies #[trigger] (gcd(a, b) % d)
            == 0 by {
            lemma_divides_combination(-((a / b) as int), b as int, a as int, d as int);
            assert(-((a / b) as int) * (b as int) + a == r) by (nonlinear_arith)
                requires
                    a == (b as int) * ((a / b) as int) + r,
            ;
            assert(g % d == 0);
        }
    }
}

/// A divisor of `x` and `y` divides `k * x + y`.
proof fn lemma_divides_combination(k: int, x: int, y: int, d: int)
    requires
        d > 0,
        x % d == 0,
        y % d == 0,
    ensures
        (k * x + y) % d == 0,
        (x * k + y) % d == 0,
{
    lemma_fundamental_div_mod(x, d);
    lemma_fundamental_div_mod(y, d);
    let m = k * (x / d) + y / d;
    assert(k * x + y == m * d) by (nonlinear_arith)
        requires
            x == d * (x / d),
            y == d * (y / d),
            m == k * (x / d) + y / d,
    ;
    assert(x * k == k * x) by (nonlinear_arith);
    lemma_mod_multiples_basic(m, d);
}

/// Division by the greatest common divisor leaves a fraction in lowest terms, of the same value.
pub proof fn lemma_lowest_terms(a: nat, b: nat)
    requires
        a > 0,
        b > 0,
    ensures
        gcd(a, b) > 0,
        gcd(a / gcd(a, b), b / gcd(a, b)) == 1,
        a / gcd(a, b) > 0,
        b / gcd(a, b) > 0,
        (a / gcd(a, b)) * b == (b / gcd(a, b)) * a,
{
    let g = gcd(a, b);
    lemma_gcd(a, b);
    let p = a / g;
    let q = b / g;
    lemma_fundamental_div_mod(a as int, g as int);
    lemma_fundamental_div_mod(b as int, g as int);
    assert(p > 0 && q > 0) by (nonlinear_arith)
        requires
            a == g * p,
            b == g * q,
            a > 0,
            b > 0,
    ;
    assert(p * b == q * a) by (nonlinear_arith)
        requires
            a == g * p,
            b == g * q,
    ;
    let h = gcd(p, q);
    lemma_gcd(p, q);
    lemma_fundamental_div_mod(p as int, h as int);
    lemma_fundamental_div_mod(q as int, h as int);
    let both = h * g;
    assert(both > 0) by (nonlinear_arith)
        requires
            both == h * g,
            h > 0,
            g > 0,
    ;
    assert(a == (p / h) * both && b == (q / h) * both) by (nonlinear_arith)
        requires
            a == g * p,
            b == g * q,
            p == h * (p / h),
            q == h * (q / h),
            both == h * g,
    ;
    lemma_mod_multiples_basic((p / h) as int, both as int);
    lemma_mod_multiples_basic((q / h) as int, both as int);
    assert(g % both == 0);
    if h > 1 {
        assert(g < both) by (nonlinear_arith)
            requires
                both == h * g,
                h > 1,
                g > 0,
        ;
        vstd::arithmetic::div_mod::lemma_small_mod(g, both);
    }
}

/// One is the only divisor that a number and one have in common.
pub proof fn lemma_gcd_one(n: nat)
    ensures
        gcd(n, 1) == 1,
{
    reveal_with_fuel(gcd, 2);
}

/// A number is written with two digits if two do, and else with as many as it has.
pub proof fn lemma_two_digits(n: nat)
    ensures
        n < 100 ==> two_digits(n).len() == 2,
        n >= 10 ==> two_digits(n) == decimal(n),
        all_digits(two_digits(n)),
        digits_value(two_digits(n)) == n,
{
    lemma_parse_two_digits(n, n);
    lemma_parse_digits(two_digits(n), n);
    if n < 10 {
        assert(decimal(n).len() == 1);
    } else if n < 100 {
        assert(decimal(n / 10).len() == 1);
    }
}

/// A digit at the end multiplies what stands before it by ten and adds what it counts, from `0`
/// on; and so a number is written.
pub proof fn lemma_digits_are_decimal(s: Seq<char>, n: nat, d: nat)
    requires
        d < 10,
        n > 0,
    ensures
        digits_value(Seq::empty()) == 0,
        digits_value(s.push(('0' as int + d) as char)) == 10 * digits_value(s) + d,
        decimal(d) == seq![('0' as int + d) as char],
        decimal(10 * n + d) == decimal(n).push(('0' as int + d) as char),
{
    let c = ('0' as int + d) as char;
    assert(s.push(c).drop_last() == s);
    assert((10 * n + d) / 10 == n && (10 * n + d) % 10 == d);
}

/// Text with a character that is no digit is no number, but for a plus sign before digits, which
/// does not count; nor is no text.
pub proof fn lemma_not_a_number(s: Seq<char>, i: int, max: nat)
    requires
        0 <= i < s.len(),
        s[i] < '0' || s[i] > '9',
        i > 0 || s[i] != '+' || s.len() == 1,
    ensures
        parse_number(s, max) is Err,
        parse_number(Seq::empty(), max) is Err,
{
    let body = unsigned(s);
    lemma_digit_run(body);
    let run = digit_run(body) as int;
    if body.len() > 0 && run == body.len() {
        let k = s.len() - body.len();
        assert(body == s.skip(k));
        assert(i >= k);
        assert(is_digit(body.take(run)[i - k]));
        assert(body[i - k] == s[i]);
    }
}

/// A plus sign before digits does not count.
pub proof fn lemma_plus_does_not_count(s: Seq<char>, max: nat)
    requires
        s.len() > 0,
        forall|i: int| 0 <= i < s.len() ==> '0' <= #[trigger] s[i] && s[i] <= '9',
    ensures
        parse_number(seq!['+'] + s, max) == parse_number(s, max),
        parse_number(s, max) is Ok <==> digits_value(s) <= max,
        parse_number(s, max) is Ok ==> parse_number(s, max)->Ok_0 == digits_value(s),
{
    assert(all_digits(s));
    lemma_parse_digits(s, max);
    assert((seq!['+'] + s).drop_first() == s);
    lemma_digit_run_is(s, s.len() as int);
    assert(s.take(s.len() as int) == s);
}

/// The digit that counts `d`.
fn digit(d: u8) -> (c: char)
    requires
        d < 10,
    ensures
        c == digit_char(d as nat),
{
    (48 + d) as char
}

/// Appends `n` in decimal to `out`.
pub fn push_number(out: &mut String, n: u64)
    ensures
        final(out)@ == old(out)@ + decimal(n as nat),
    decreases n,
{
    if n >= 10 {
        push_number(out, n / 10);
    }
    out.push(digit((n % 10) as u8));
}

/// Appends `n` to `out` in decimal, with a zero in front if it has one digit.
pub fn push_two_digits(out: &mut String, n: u64)
    ensures
        final(out)@ == old(out)@ + two_digits(n as nat),
{
    if n < 10 {
        out.push('0');
    }
    push_number(out, n);
    assert(out@ == old(out)@ + two_digits(n as nat));
}

/// `n` in decimal.
pub fn number_text(n: u64) -> (out: String)
    ensures
        out@ == decimal(n as nat),
{
    let mut out = String::new();
    push_number(&mut out, n);
    assert(out@ == decimal(n as nat));
    out
}

/// Reads a number of at most `max`.
pub fn read_number(s: &[char], max: u64) -> (out: Result<u64, NumberError>)
    ensures
        match out {
            Ok(n) => parse_number(s@, max as nat) == Ok::<nat, NumberError>(n as nat),
            Err(e) => parse_number(s@, max as nat) == Err::<nat, NumberError>(e),
        },
{
    if s.len() == 0 {
        return Err(NumberError::Empty);
    }
    let from: usize = if s[0] == '+' {
        1
    } else {
        0
    };
    let ghost body = unsigned(s@);
    assert(body == s@.skip(from as int));
    let mut value: u64 = 0;
    let mut i: usize = from;
    assert(body.take(0) == Seq::<char>::empty());
    while i < s.len() && '0' <= s[i] && s[i] <= '9'
        invariant
            from <= i <= s@.len(),
            body == s@.skip(from as int),
            body == unsigned(s@),
            s@.len() > 0,
            all_digits(body.take(i - from)),
            value == digits_value(body.take(i - from)),
            value <= max,
        decreases s@.len() - i,
    {
        let ghost k = i - from;
        let d: u64 = (s[i] as u8 - 48) as u64;
        assert(body.take(k + 1).drop_last() == body.take(k));
        assert(body.take(k + 1).last() == s@[i as int]);
        assert(digits_value(body.take(k + 1)) == value * 10 + d);
        assert forall|j: int| 0 <= j < k + 1 implies is_digit(#[trigger] body.take(k + 1)[j]) by {
            if j < k {
                assert(is_digit(body.take(k)[j]));
            }
        }
        let next: u128 = value as u128 * 10 + d as u128;
        if next > max as u128 {
            proof {
                lemma_digit_run(body);
                let run = digit_run(body) as int;
                if run < k + 1 {
                    assert(is_digit(body.take(k + 1)[run]));
                }
                lemma_digits_value_grows(body, k + 1, run);
            }
            return Err(NumberError::TooLarge);
        }
        value = next as u64;
        i += 1;
    }
    proof {
        lemma_digit_run_is(body, i - from);
        assert(body.take(body.len() as int) == body);
    }
    if i == from || i < s.len() {
        Err(NumberError::InvalidDigit)
    } else {
        Ok(value)
    }
}

/// Reads a number of at most 64 bits.
pub fn read_u64(s: &[char]) -> (out: Result<u64, NumberError>)
    ensures
        match out {
            Ok(n) => parse_u64(s@) == Ok::<nat, NumberError>(n as nat),
            Err(e) => parse_u64(s@) == Err::<nat, NumberError>(e),
        },
{
    read_number(s, u64::MAX)
}

/// The greatest common divisor of `left` and `right`.
pub fn greatest_common_divisor(left: u64, right: u64) -> (out: u64)
    ensures
        out == gcd(left as nat, right as nat),
{
    let mut a: u64 = left;
    let mut b: u64 = right;
    while b != 0
        invariant
            gcd(a as nat, b as nat) == gcd(left as nat, right as nat),
        decreases b,
    {
        let r: u64 = a % b;
        a = b;
        b = r;
    }
    a
}

} // verus!
