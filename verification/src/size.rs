//! Numbers of bytes as they are shown to a person.

use vstd::prelude::*;

use crate::number::{decimal, push_number, push_two_digits, two_digits};

verus! {

/// `n / d` rounded to a whole number; a half goes to the even one of its neighbours.
pub open spec fn rounded(n: nat, d: nat) -> nat {
    let q = n / d;
    let twice = 2 * (n % d);
    if twice < d || (twice == d && q % 2 == 0) {
        q
    } else {
        q + 1
    }
}

/// The distance between the numbers around `n` that a significand of 53 bits can write.
pub open spec fn spacing(n: nat) -> nat
    decreases n,
{
    if n < 0x20_0000_0000_0000 {
        1
    } else {
        2 * spacing(n / 2)
    }
}

/// `n` in double precision.
pub open spec fn in_double(n: nat) -> nat {
    rounded(n, spacing(n)) * spacing(n)
}

/// How many bytes a mebibyte has.
pub open spec fn mib() -> nat {
    0x10_0000
}

/// How many bytes a gibibyte has.
pub open spec fn gib() -> nat {
    0x4000_0000
}

/// `n` hundredths.
pub open spec fn hundredths(n: nat) -> Seq<char> {
    decimal(n / 100) + seq!['.'] + two_digits(n % 100)
}

/// `n` tenths.
pub open spec fn tenths(n: nat) -> Seq<char> {
    decimal(n / 10) + seq!['.'] + decimal(n % 10)
}

/// The text for `bytes` bytes: gibibytes from one on, else mebibytes, with two decimals.
pub open spec fn bytes_text(bytes: nat) -> Seq<char> {
    let n = in_double(bytes);
    if n >= gib() {
        hundredths(rounded(100 * n, gib())) + " GiB"@
    } else {
        hundredths(rounded(100 * n, mib())) + " MiB"@
    }
}

/// The text for `bytes` bytes: gibibytes from one on, with two decimals, else mebibytes, with
/// one.
pub open spec fn short_bytes_text(bytes: nat) -> Seq<char> {
    let n = in_double(bytes);
    if n >= gib() {
        hundredths(rounded(100 * n, gib())) + " GiB"@
    } else {
        tenths(rounded(10 * n, mib())) + " MiB"@
    }
}

/// Rounds `n / d`.
fn round(n: u128, d: u128) -> (out: u128)
    requires
        0 < d <= u64::MAX,
        n < u128::MAX,
    ensures
        out == rounded(n as nat, d as nat),
        out <= n / d + 1,
{
    let q: u128 = n / d;
    let twice: u128 = 2 * (n % d);
    if twice < d || (twice == d && q % 2 == 0) {
        q
    } else {
        assert(q <= n) by {
            vstd::arithmetic::div_mod::lemma_div_is_ordered_by_denominator(n as int, 1, d as int);
        }
        q + 1
    }
}

/// The distance between the numbers around `n` that a significand of 53 bits can write.
fn spacing_at(n: u64) -> (out: u64)
    ensures
        out == spacing(n as nat),
        0 < out,
        out == 1 || out * 0x10_0000_0000_0000 <= n,
    decreases n,
{
    if n < 0x20_0000_0000_0000 {
        1
    } else {
        let half: u64 = spacing_at(n / 2);
        2 * half
    }
}

/// `n` in double precision.
fn double_of(n: u64) -> (out: u128)
    ensures
        out == in_double(n as nat),
        out <= 2 * n,
{
    let unit: u64 = spacing_at(n);
    let count: u128 = round(n as u128, unit as u128);
    proof {
        let u = unit as int;
        let c = count as int;
        vstd::arithmetic::div_mod::lemma_fundamental_div_mod(n as int, u);
        assert(c * u <= 2 * n) by (nonlinear_arith)
            requires
                c <= n as int / u + 1,
                n == u * (n as int / u) + n as int % u,
                n as int % u >= 0,
                u > 0,
                u <= n || n == 0 && c == 0,
        ;
    }
    count * unit as u128
}

/// Appends gibibytes and their unit.
fn push_gib(out: &mut String, n: u128)
    requires
        n <= 2 * u64::MAX,
    ensures
        final(out)@ == old(out)@ + hundredths(rounded(100 * n as nat, gib())) + " GiB"@,
{
    push_hundredths(out, round(100 * n, 0x4000_0000));
    out.append(" GiB");
}

/// Appends `n` hundredths.
fn push_hundredths(out: &mut String, n: u128)
    requires
        n <= u64::MAX,
    ensures
        final(out)@ == old(out)@ + hundredths(n as nat),
{
    push_number(out, (n / 100) as u64);
    out.push('.');
    push_two_digits(out, (n % 100) as u64);
    assert(out@ == old(out)@ + hundredths(n as nat));
}

/// Writes a number of bytes, mebibytes with two decimals.
pub fn format_bytes(bytes: u64) -> (out: String)
    ensures
        out@ == bytes_text(bytes as nat),
{
    let n: u128 = double_of(bytes);
    let mut out = String::new();
    if n >= 0x4000_0000 {
        push_gib(&mut out, n);
        assert(out@ == bytes_text(bytes as nat));
    } else {
        push_hundredths(&mut out, round(100 * n, 0x10_0000));
        out.append(" MiB");
        assert(out@ == bytes_text(bytes as nat));
    }
    out
}

/// Writes a number of bytes, mebibytes with one decimal.
pub fn format_bytes_short(bytes: u64) -> (out: String)
    ensures
        out@ == short_bytes_text(bytes as nat),
{
    let n: u128 = double_of(bytes);
    let mut out = String::new();
    if n >= 0x4000_0000 {
        push_gib(&mut out, n);
        assert(out@ == short_bytes_text(bytes as nat));
    } else {
        let count: u128 = round(10 * n, 0x10_0000);
        push_number(&mut out, (count / 10) as u64);
        out.push('.');
        push_number(&mut out, (count % 10) as u64);
        out.append(" MiB");
        assert(out@ == short_bytes_text(bytes as nat));
    }
    out
}

/// Rounding changes a quotient by one half at most.
pub proof fn lemma_rounded_is_near(n: nat, d: nat)
    requires
        d > 0,
    ensures
        -(d as int) <= 2 * (rounded(n, d) * d - n) <= d,
{
    let q = n / d;
    let r = n % d;
    vstd::arithmetic::div_mod::lemma_fundamental_div_mod(n as int, d as int);
    assert(q * d == d * q) by (nonlinear_arith);
    assert((q + 1) * d == d * q + d) by (nonlinear_arith);
    assert(n == d * q + r);
}

/// Below 2^53 bytes, double precision loses nothing.
pub proof fn lemma_double_is_exact(n: nat)
    requires
        n < 0x20_0000_0000_0000,
    ensures
        in_double(n) == n,
{
    assert(spacing(n) == 1);
    assert(rounded(n, 1) == n) by {
        assert(n / 1 == n && n % 1 == 0);
    }
    assert(n * 1 == n);
}

/// A quotient is rounded to the nearest whole number, and to the even one where two are as near.
pub proof fn lemma_ties_go_to_even(n: nat, d: nat)
    requires
        d > 0,
        2 * (rounded(n, d) * d - n) == d || 2 * (n - rounded(n, d) * d) == d,
    ensures
        rounded(n, d) % 2 == 0,
{
    let q = n / d;
    let r = n % d;
    vstd::arithmetic::div_mod::lemma_fundamental_div_mod(n as int, d as int);
    assert(q * d == d * q) by (nonlinear_arith);
    assert((q + 1) * d == d * q + d) by (nonlinear_arith);
    assert(n == d * q + r);
    assert(2 * r == d);
}

/// A number of whole units is written before the point, and the hundredths or tenths after it.
pub proof fn lemma_decimals(whole: nat, part: nat)
    ensures
        part < 100 ==> hundredths(100 * whole + part) == decimal(whole) + "."@ + two_digits(part),
        part < 10 ==> tenths(10 * whole + part) == decimal(whole) + "."@ + decimal(part),
{
    reveal_strlit(".");
    assert("."@ =~= seq!['.']);
    if part < 100 {
        assert((100 * whole + part) / 100 == whole && (100 * whole + part) % 100 == part);
    }
    if part < 10 {
        assert((10 * whole + part) / 10 == whole && (10 * whole + part) % 10 == part);
    }
}

/// A number of bytes that is not huge is shown in gibibytes exactly if it is one gibibyte or more,
/// and else in mebibytes. What is shown is off by half a unit of its last place at most.
pub proof fn lemma_bytes_are_shown(bytes: nat)
    requires
        bytes < 0x20_0000_0000_0000,
    ensures
        bytes >= 0x4000_0000 ==> exists|k: nat|
            {
                &&& bytes_text(bytes) == #[trigger] hundredths(k) + " GiB"@
                &&& short_bytes_text(bytes) == hundredths(k) + " GiB"@
                &&& -0x4000_0000 <= 2 * (k * 0x4000_0000 - 100 * bytes) <= 0x4000_0000
            },
        bytes < 0x4000_0000 ==> exists|k: nat|
            {
                &&& bytes_text(bytes) == #[trigger] hundredths(k) + " MiB"@
                &&& -0x10_0000 <= 2 * (k * 0x10_0000 - 100 * bytes) <= 0x10_0000
            },
        bytes < 0x4000_0000 ==> exists|k: nat|
            {
                &&& short_bytes_text(bytes) == #[trigger] tenths(k) + " MiB"@
                &&& -0x10_0000 <= 2 * (k * 0x10_0000 - 10 * bytes) <= 0x10_0000
            },
{
    lemma_double_is_exact(bytes);
    lemma_rounded_is_near(100 * bytes, 0x4000_0000);
    lemma_rounded_is_near(100 * bytes, 0x10_0000);
    lemma_rounded_is_near(10 * bytes, 0x10_0000);
    if bytes >= 0x4000_0000 {
        let k = rounded(100 * bytes, 0x4000_0000);
        assert(bytes_text(bytes) == hundredths(k) + " GiB"@);
        assert(short_bytes_text(bytes) == hundredths(k) + " GiB"@);
    } else {
        let k = rounded(100 * bytes, 0x10_0000);
        assert(bytes_text(bytes) == hundredths(k) + " MiB"@);
        let j = rounded(10 * bytes, 0x10_0000);
        assert(short_bytes_text(bytes) == tenths(j) + " MiB"@);
    }
}

/// The spacing at a number leaves it 53 bits.
proof fn lemma_spacing(n: nat)
    requires
        n >= 0x10_0000_0000_0000,
    ensures
        spacing(n) > 0,
        spacing(n) * 0x10_0000_0000_0000 <= n < spacing(n) * 0x20_0000_0000_0000,
    decreases n,
{
    if n >= 0x20_0000_0000_0000 {
        lemma_spacing(n / 2);
    }
}

/// In double precision a number keeps 53 bits: it becomes a multiple of the spacing at it that is
/// no further away than half of that spacing.
pub proof fn lemma_double_is_near(n: nat)
    requires
        n >= 0x20_0000_0000_0000,
    ensures
        exists|unit: nat, count: nat|
            {
                &&& unit * 0x10_0000_0000_0000 <= n < unit * 0x20_0000_0000_0000
                &&& in_double(n) == #[trigger] (count * unit)
                &&& -(unit as int) <= 2 * (count * unit - n) <= unit
            },
{
    lemma_spacing(n);
    lemma_rounded_is_near(n, spacing(n));
    let (unit, count) = (spacing(n), rounded(n, spacing(n)));
    assert(in_double(n) == count * unit);
}

/// A number of bytes of any size is shown as its double is: in gibibytes exactly if that is one
/// gibibyte or more, off by half a hundredth at most.
pub proof fn lemma_any_bytes_are_shown(bytes: nat)
    requires
        in_double(bytes) >= 0x4000_0000,
    ensures
        exists|k: nat|
            {
                &&& bytes_text(bytes) == #[trigger] hundredths(k) + " GiB"@
                &&& short_bytes_text(bytes) == hundredths(k) + " GiB"@
                &&& -0x4000_0000 <= 2 * (k * 0x4000_0000 - 100 * in_double(bytes)) <= 0x4000_0000
            },
{
    let n = in_double(bytes);
    lemma_rounded_is_near(100 * n, 0x4000_0000);
    let k = rounded(100 * n, 0x4000_0000);
    assert(bytes_text(bytes) == hundredths(k) + " GiB"@);
}

} // verus!
