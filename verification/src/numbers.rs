//! Counts and sizes in a form for people.
//!
//! A scaled number is written with one decimal place. It is computed as double-precision
//! arithmetic computes it, so that `1_250` gives `1.2K` (a tie, to even) and `1_350` gives `1.4K`
//! (the double next to 1.35 is above it). The model below does this on integers.

use vstd::prelude::*;
use crate::chars::{decimal, digit, digits};

verus! {

/// The first integer past those that a double holds without gaps: 2 to the 53.
pub const DOUBLE_LIMIT: u64 = 0x20_0000_0000_0000;

/// The first integer that fills the digits of a double: 2 to the 52.
pub const DOUBLE_FULL: u64 = 0x10_0000_0000_0000;

/// `a / b` to the nearest integer, a tie to the even one.
pub open spec fn round_half_even(a: nat, b: nat) -> nat {
    let quotient = a / b;
    let rest = a % b;
    if 2 * rest < b || (2 * rest == b && quotient % 2 == 0) {
        quotient
    } else {
        quotient + 1
    }
}

/// The distance between doubles at `n`, where it is an integer.
pub open spec fn double_gap(n: nat) -> nat
    decreases n,
{
    if n < DOUBLE_LIMIT {
        1
    } else {
        2 * double_gap(n / 2)
    }
}

/// The double nearest to `n`.
pub open spec fn nearest_double(n: nat) -> nat {
    round_half_even(n, double_gap(n)) * double_gap(n)
}

/// The power of two by which `a / b` has to be scaled to fill the digits of a double.
pub open spec fn double_scale(a: nat, b: nat) -> nat
    decreases
            if a < b * DOUBLE_FULL {
                b * DOUBLE_FULL - a
            } else {
                0
            },
{
    if a == 0 || a >= b * DOUBLE_FULL {
        1
    } else {
        2 * double_scale(2 * a, b)
    }
}

/// The tenths in the double nearest to `a / b`, to the nearest tenth.
pub open spec fn quotient_tenths(a: nat, b: nat) -> nat {
    let scale = double_scale(a, b);
    round_half_even(10 * round_half_even(a * scale, b), scale)
}

/// A number of tenths with one decimal place.
pub open spec fn tenths_text(tenths: nat) -> Seq<char> {
    digits(tenths / 10) + seq!['.', digit(tenths % 10)]
}

/// `a / b` to the nearest integer, a tie to the even one.
fn divide_half_even(a: u128, b: u128) -> (r: u128)
    requires
        0 < b,
        a < u128::MAX / 4,
        b < u128::MAX / 4,
    ensures
        r == round_half_even(a as nat, b as nat),
        r * b < a + b,
        a < r * b + b,
{
    let quotient: u128 = a / b;
    let rest: u128 = a % b;
    assert(quotient * b + rest == a && rest < b && quotient <= a) by (nonlinear_arith)
        requires
            quotient == a / b,
            rest == a % b,
            0 < b,
    ;
    assert((quotient + 1) * b == quotient * b + b) by (nonlinear_arith);
    if 2 * rest < b || (2 * rest == b && quotient % 2 == 0) {
        quotient
    } else {
        quotient + 1
    }
}

/// The distance between doubles at `n`.
fn gap_at(n: u64) -> (r: u64)
    ensures
        r == double_gap(n as nat),
        0 < r <= 4096,
        n >= DOUBLE_LIMIT ==> r * (DOUBLE_LIMIT / 2) <= n,
        n < DOUBLE_LIMIT ==> r == 1,
    decreases n,
{
    if n < DOUBLE_LIMIT {
        1
    } else {
        2 * gap_at(n / 2)
    }
}

/// The double nearest to `n`.
fn to_double(n: u64) -> (r: u128)
    ensures
        r == nearest_double(n as nat),
        n < DOUBLE_LIMIT ==> r == n,
        n >= DOUBLE_LIMIT ==> DOUBLE_LIMIT / 2 <= r,
        r <= n + 4096,
{
    let gap: u64 = gap_at(n);
    let steps: u128 = divide_half_even(n as u128, gap as u128);
    steps * (gap as u128)
}

/// The tenths in `a / b`.
fn divide_to_tenths(a: u128, b: u128) -> (r: u64)
    requires
        0 < b <= 1_000_000,
        b <= a < b * DOUBLE_FULL,
    ensures
        r == quotient_tenths(a as nat, b as nat),
{
    let full: u128 = b * (DOUBLE_FULL as u128);
    let mut scaled: u128 = a;
    let mut scale: u128 = 1;
    assert(a * 1 == a) by (nonlinear_arith);
    assert(1 * double_scale(a as nat, b as nat) == double_scale(a as nat, b as nat))
        by (nonlinear_arith);
    while scaled < full
        invariant
            0 < b <= 1_000_000,
            b <= a,
            full == b * DOUBLE_FULL,
            scaled == a * scale,
            0 < scale <= DOUBLE_LIMIT,
            0 < scaled < 2 * full,
            double_scale(a as nat, b as nat) == scale * double_scale(scaled as nat, b as nat),
        decreases 2 * full - scaled,
    {
        assert(scale < DOUBLE_FULL) by (nonlinear_arith)
            requires
                a * scale < b * DOUBLE_FULL,
                0 < b <= a,
                0 < scale,
        ;
        assert(a * (2 * scale) == 2 * (a * scale)) by (nonlinear_arith);
        let ghost rest = double_scale((2 * scaled) as nat, b as nat);
        assert(double_scale(scaled as nat, b as nat) == 2 * rest);
        assert(scale * (2 * rest) == (2 * scale) * rest) by (nonlinear_arith);
        scaled = 2 * scaled;
        scale = 2 * scale;
    }
    assert(double_scale(scaled as nat, b as nat) == 1);
    assert(scale * 1 == scale) by (nonlinear_arith);
    let digits: u128 = divide_half_even(scaled, b);
    assert(digits <= DOUBLE_LIMIT) by (nonlinear_arith)
        requires
            digits * b < scaled + b,
            0 < b,
            scaled < 2 * (b * DOUBLE_FULL),
    ;
    let tenths: u128 = divide_half_even(10 * digits, scale);
    assert(tenths <= 10 * digits + 1) by (nonlinear_arith)
        requires
            tenths * scale < 10 * digits + scale,
            0 < scale,
    ;
    tenths as u64
}

/// A number of tenths with one decimal place.
fn tenths_to_text(tenths: u64) -> (r: String)
    ensures
        r@ == tenths_text(tenths as nat),
{
    let mut out = decimal(tenths / 10);
    out.push('.');
    out.append(decimal(tenths % 10).as_str());
    assert(out@ =~= tenths_text(tenths as nat));
    out
}

/// A token count with a suffix for thousands and millions.
pub open spec fn tokens_text(n: nat) -> Seq<char> {
    if n >= 1_000_000 {
        tenths_text(quotient_tenths(nearest_double(n), 1_000_000)).push('M')
    } else if n >= 1_000 {
        tenths_text(quotient_tenths(n, 1_000)).push('K')
    } else {
        digits(n)
    }
}

/// Formats a token count with a suffix for readability: `1.2M`, `59.2K`, `694`.
pub fn format_tokens(n: usize) -> (r: String)
    ensures
        r@ == tokens_text(n as nat),
{
    let count: u64 = n as u64;
    if count >= 1_000_000 {
        let mut out = tenths_to_text(divide_to_tenths(to_double(count), 1_000_000));
        out.push('M');
        out
    } else if count >= 1_000 {
        let mut out = tenths_to_text(divide_to_tenths(count as u128, 1_000));
        out.push('K');
        out
    } else {
        decimal(count)
    }
}

/// The tenths of `unit`, a power of two, in the double nearest to `n`.
pub open spec fn unit_tenths(n: nat, unit: nat) -> nat {
    round_half_even(10 * nearest_double(n), unit)
}

/// A size in bytes with the largest unit that it reaches.
pub open spec fn size_text(n: nat) -> Seq<char> {
    if n >= TB {
        tenths_text(unit_tenths(n, TB as nat)) + " TB"@
    } else if n >= GB {
        tenths_text(unit_tenths(n, GB as nat)) + " GB"@
    } else if n >= MB {
        tenths_text(unit_tenths(n, MB as nat)) + " MB"@
    } else if n >= KB {
        tenths_text(unit_tenths(n, KB as nat)) + " KB"@
    } else {
        digits(n) + " B"@
    }
}

pub const KB: u64 = 1024;

pub const MB: u64 = 1_048_576;

pub const GB: u64 = 1_073_741_824;

pub const TB: u64 = 1_099_511_627_776;

/// `n` in units of `unit` with one decimal place, and the name of the unit.
fn in_units(n: u64, unit: u64, name: &str) -> (r: String)
    requires
        1024 <= unit,
    ensures
        r@ == tenths_text(unit_tenths(n as nat, unit as nat)) + name@,
{
    let rounded: u128 = to_double(n);
    let tenths: u128 = divide_half_even(10 * rounded, unit as u128);
    assert(tenths <= u64::MAX) by (nonlinear_arith)
        requires
            tenths * unit < 10 * rounded + unit,
            1024 <= unit,
            rounded <= n + 4096,
            n <= u64::MAX,
    ;
    let mut out = tenths_to_text(tenths as u64);
    out.append(name);
    out
}

/// Converts bytes to a readable size: `512 B`, `1.5 KB`, up to `TB`.
pub fn human_bytes(bytes: u64) -> (r: String)
    ensures
        r@ == size_text(bytes as nat),
{
    if bytes >= TB {
        in_units(bytes, TB, " TB")
    } else if bytes >= GB {
        in_units(bytes, GB, " GB")
    } else if bytes >= MB {
        in_units(bytes, MB, " MB")
    } else if bytes >= KB {
        in_units(bytes, KB, " KB")
    } else {
        let mut out = decimal(bytes);
        out.append(" B");
        out
    }
}

/// What is divided with rounding is off by half of the divisor at most.
proof fn lemma_round_half_even(a: nat, b: nat)
    requires
        0 < b,
    ensures
        -(b as int) <= 2 * (a - round_half_even(a, b) * b) <= b,
{
    let quotient = a / b;
    let rest = a % b;
    assert(quotient * b + rest == a && rest < b) by (nonlinear_arith)
        requires
            quotient == a / b,
            rest == a % b,
            0 < b,
    ;
    assert((quotient + 1) * b == quotient * b + b) by (nonlinear_arith);
}

/// The scaled dividend fills the digits of a double.
proof fn lemma_double_scale(a: nat, b: nat)
    requires
        0 < a,
    ensures
        0 < double_scale(a, b),
        a * double_scale(a, b) >= b * DOUBLE_FULL,
    decreases
            if a < b * DOUBLE_FULL {
                b * DOUBLE_FULL - a
            } else {
                0
            },
{
    if a < b * DOUBLE_FULL {
        lemma_double_scale(2 * a, b);
        let rest = double_scale(2 * a, b);
        assert(a * (2 * rest) == (2 * a) * rest) by (nonlinear_arith);
    } else {
        assert(a * 1 == a) by (nonlinear_arith);
    }
}

/// The tenths shown of a token count are the nearest ones, although the division is rounded
/// too: for every count below 900 trillion.
pub proof fn law_tokens_are_the_nearest_tenth(n: nat, unit: nat)
    requires
        0 < n,
        5 * n < DOUBLE_FULL,
        unit == 1_000 || unit == 1_000_000,
    ensures
        nearest_double(n) == n,
        -(unit as int) <= 2 * (10 * n - quotient_tenths(n, unit) * unit) <= unit,
{
    assert(double_gap(n) == 1);
    let scale = double_scale(n, unit);
    let digits = round_half_even(n * scale, unit);
    let tenths = round_half_even(10 * digits, scale);
    lemma_double_scale(n, unit);
    lemma_round_half_even(n * scale, unit);
    lemma_round_half_even(10 * digits, scale);
    assert(scale > 5 * unit) by (nonlinear_arith)
        requires
            n * scale >= unit * DOUBLE_FULL,
            5 * n < DOUBLE_FULL,
            0 < n,
            0 < unit,
    ;
    let off = 10 * n - tenths * unit;
    assert(scale * (2 * off) == 10 * (2 * (n * scale - digits * unit)) + unit * (2 * (10 * digits
        - tenths * scale))) by (nonlinear_arith)
        requires
            off == 10 * n - tenths * unit,
    ;
    let half_off = if off < 0 {
        -off
    } else {
        off
    };
    assert(scale * (2 * half_off) <= 10 * unit + unit * scale) by (nonlinear_arith)
        requires
            scale * (2 * off) == 10 * (2 * (n * scale - digits * unit)) + unit * (2 * (10 * digits
                - tenths * scale)),
            -(unit as int) <= 2 * (n * scale - digits * unit) <= unit,
            -(scale as int) <= 2 * (10 * digits - tenths * scale) <= scale,
            half_off == off || half_off == -off,
            0 < unit,
    ;
    assert(2 * half_off < unit + 2) by (nonlinear_arith)
        requires
            scale * (2 * half_off) <= 10 * unit + unit * scale,
            scale > 5 * unit,
            0 < unit,
    ;
}

/// The tenths shown of a size that a double holds exactly are the nearest ones.
pub proof fn law_size_is_the_nearest_tenth(n: nat, unit: nat)
    requires
        n < DOUBLE_LIMIT,
        0 < unit,
    ensures
        -(unit as int) <= 2 * (10 * n - unit_tenths(n, unit) * unit) <= unit,
{
    assert(double_gap(n) == 1);
    assert(nearest_double(n) == n);
    lemma_round_half_even(10 * n, unit);
}

} // verus!
