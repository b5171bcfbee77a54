//! Laws of numbers in a form for people.

use vstd::prelude::*;
use crate::chars::{digit, digits};
use crate::laws::text::{is_number, law_digits, value};
use crate::numbers::{
    double_gap, double_scale, format_tokens, human_bytes, nearest_double, quotient_tenths,
    round_half_even, tenths_text, unit_tenths, DOUBLE_FULL, DOUBLE_LIMIT,
};

verus! {

/// Whether `n` is a power of two.
pub open spec fn power_of_two(n: nat) -> bool
    decreases n,
{
    n == 1 || (n > 1 && n % 2 == 0 && power_of_two(n / 2))
}

/// Whether `q` is `a / b` to the nearest integer, a tie to the even one.
pub open spec fn nearest(q: nat, a: nat, b: nat) -> bool {
    &&& -(b as int) <= 2 * (a - q * b) <= b
    &&& 2 * (a - q * b) == b || 2 * (a - q * b) == -(b as int) ==> q % 2 == 0
}

/// Whether `m / s` is the double nearest to `a / b`: with 53 binary digits, a tie to the even
/// ones.
pub open spec fn double_quotient(m: nat, s: nat, a: nat, b: nat) -> bool {
    &&& power_of_two(s)
    &&& 0x10_0000_0000_0000 <= m <= 0x20_0000_0000_0000
    &&& b * 0x10_0000_0000_0000 <= a * s
    &&& nearest(m, a * s, b)
}

/// Whether `d` is the double nearest to the integer `n`, which is up to 64 bits long.
pub open spec fn double_of(d: nat, n: nat) -> bool {
    exists|m: nat, gap: nat|
        {
            &&& d == m * gap
            &&& #[trigger] power_of_two(gap)
            &&& #[trigger] nearest(m, n, gap)
            &&& gap == 1 ==> n < 0x20_0000_0000_0000
            &&& gap > 1 ==> gap * 0x10_0000_0000_0000 <= n < gap * 0x20_0000_0000_0000
        }
}

/// Whether `text` is a number of tenths with one decimal place.
pub open spec fn one_decimal(text: Seq<char>, tenths: nat) -> bool {
    &&& text.len() >= 3
    &&& text[text.len() - 2] == '.'
    &&& '0' <= text.last() <= '9'
    &&& is_number(text.take(text.len() - 2))
    &&& 10 * value(text.take(text.len() - 2)) + (text.last() as u32 - '0' as u32) == tenths
}

/// Dividing with rounding gives the nearest integer.
proof fn lemma_nearest(a: nat, b: nat)
    requires
        0 < b,
    ensures
        nearest(round_half_even(a, b), a, b),
{
    let quotient = a / b;
    let rest = a % b;
    assert(quotient * b + rest == a && rest < b) by (nonlinear_arith)
        requires
            quotient == a / b,
            rest == a % b,
            0 < b,
    ;
    assert((quotient + 1) * b == quotient * b + b) by (nonlinear_arith);
}

/// The gap between doubles is a power of two, and fits the number.
proof fn lemma_gap(n: nat)
    ensures
        power_of_two(double_gap(n)),
        n < DOUBLE_LIMIT ==> double_gap(n) == 1,
        n >= DOUBLE_LIMIT ==> double_gap(n) > 1 && double_gap(n) * DOUBLE_FULL <= n < double_gap(n)
            * DOUBLE_LIMIT,
    decreases n,
{
    if n >= DOUBLE_LIMIT {
        lemma_gap(n / 2);
        let half = double_gap(n / 2);
        assert(double_gap(n) == 2 * half);
        assert((2 * half) / 2 == half);
        assert((2 * half) * DOUBLE_FULL == 2 * (half * DOUBLE_FULL)) by (nonlinear_arith);
        assert((2 * half) * DOUBLE_LIMIT == 2 * (half * DOUBLE_LIMIT)) by (nonlinear_arith);
    }
}

/// The nearest double is the nearest double.
proof fn lemma_double_of(n: nat)
    ensures
        double_of(nearest_double(n), n),
        n < DOUBLE_LIMIT ==> nearest_double(n) == n,
{
    lemma_gap(n);
    let gap = double_gap(n);
    lemma_nearest(n, gap);
    assert(power_of_two(gap) && nearest(round_half_even(n, gap), n, gap));
}

/// The scale fills the digits of a double, and no more.
proof fn lemma_scale(a: nat, b: nat)
    requires
        0 < a < 2 * (b * DOUBLE_FULL),
    ensures
        power_of_two(double_scale(a, b)),
        b * DOUBLE_FULL <= a * double_scale(a, b) < 2 * (b * DOUBLE_FULL),
    decreases
            if a < b * DOUBLE_FULL {
                b * DOUBLE_FULL - a
            } else {
                0
            },
{
    if a < b * DOUBLE_FULL {
        lemma_scale(2 * a, b);
        let rest = double_scale(2 * a, b);
        assert((2 * rest) / 2 == rest);
        assert(a * (2 * rest) == (2 * a) * rest) by (nonlinear_arith);
    } else {
        assert(a * 1 == a) by (nonlinear_arith);
    }
}

/// The tenths of a quotient are those of the nearest double.
proof fn lemma_quotient(a: nat, b: nat)
    requires
        0 < b,
        0 < a < 2 * (b * DOUBLE_FULL),
    ensures
        exists|m: nat, s: nat|
            #[trigger] double_quotient(m, s, a, b) && nearest(quotient_tenths(a, b), 10 * m, s),
{
    let s = double_scale(a, b);
    let m = round_half_even(a * s, b);
    lemma_scale(a, b);
    lemma_nearest(a * s, b);
    lemma_nearest(10 * m, s);
    assert(m >= DOUBLE_FULL) by (nonlinear_arith)
        requires
            2 * (a * s - m * b) <= b,
            b * DOUBLE_FULL <= a * s,
            0 < b,
    ;
    assert(m <= DOUBLE_LIMIT) by (nonlinear_arith)
        requires
            -(b as int) <= 2 * (a * s - m * b),
            a * s < 2 * (b * DOUBLE_FULL),
            0 < b,
    ;
    assert(double_quotient(m, s, a, b));
}

/// Tenths are shown with one decimal place.
proof fn lemma_one_decimal(tenths: nat)
    ensures
        one_decimal(tenths_text(tenths), tenths),
{
    law_digits(tenths / 10);
    let text = tenths_text(tenths);
    assert(text.take(text.len() - 2) =~= digits(tenths / 10));
    assert(text.last() == digit(tenths % 10));
}

/// A count below a thousand is shown in full. From there on thousands are shown, and from a
/// million on millions, with one decimal place: the tenths nearest to the double nearest to the
/// quotient.
pub proof fn law_format_tokens(n: usize, r: String)
    requires
        call_ensures(format_tokens, (n,), r),
    ensures
        n < 1_000 ==> is_number(r@) && value(r@) == n,
        1_000 <= n < 1_000_000 ==> exists|tenths: nat, m: nat, s: nat|
            {
                &&& r@.last() == 'K'
                &&& #[trigger] one_decimal(r@.drop_last(), tenths)
                &&& #[trigger] double_quotient(m, s, n as nat, 1_000)
                &&& nearest(tenths, 10 * m, s)
            },
        n >= 1_000_000 ==> exists|tenths: nat, d: nat, m: nat, s: nat|
            {
                &&& r@.last() == 'M'
                &&& #[trigger] one_decimal(r@.drop_last(), tenths)
                &&& double_of(d, n as nat)
                &&& #[trigger] double_quotient(m, s, d, 1_000_000)
                &&& nearest(tenths, 10 * m, s)
            },
{
    law_digits(n as nat);
    if 1_000 <= n < 1_000_000 {
        let tenths = quotient_tenths(n as nat, 1_000);
        lemma_quotient(n as nat, 1_000);
        lemma_one_decimal(tenths);
        assert(r@.drop_last() =~= tenths_text(tenths));
    } else if n >= 1_000_000 {
        let d = nearest_double(n as nat);
        lemma_double_of(n as nat);
        lemma_double_is_near(n as nat);
        let tenths = quotient_tenths(d, 1_000_000);
        lemma_quotient(d, 1_000_000);
        lemma_one_decimal(tenths);
        assert(r@.drop_last() =~= tenths_text(tenths));
    }
}

/// The nearest double is at most half a gap away.
proof fn lemma_double_is_near(n: nat)
    requires
        0 < n <= u64::MAX,
    ensures
        0 < nearest_double(n) < 2 * (1_000_000 * DOUBLE_FULL),
{
    lemma_gap(n);
    let gap = double_gap(n);
    let m = round_half_even(n, gap);
    lemma_nearest(n, gap);
    assert(m * gap > 0 && m * gap <= 2 * n) by (nonlinear_arith)
        requires
            -(gap as int) <= 2 * (n - m * gap) <= gap,
            0 < gap <= n,
    ;
}

/// Whether `r` shows `n` in units of `unit`, a power of two, under the name of the unit: with
/// the tenths nearest to the double nearest to `n`.
pub open spec fn shown_in(r: Seq<char>, n: nat, unit: nat, name: Seq<char>) -> bool {
    exists|number: Seq<char>, tenths: nat, d: nat|
        {
            &&& r == number + name
            &&& #[trigger] one_decimal(number, tenths)
            &&& #[trigger] double_of(d, n)
            &&& nearest(tenths, 10 * d, unit)
        }
}

/// A size is shown in the largest of the units that it reaches, each 1024 times the one before.
pub proof fn law_human_bytes(bytes: u64, r: String)
    requires
        call_ensures(human_bytes, (bytes,), r),
    ensures
        bytes < 1024 ==> exists|number: Seq<char>|
            #[trigger] is_number(number) && value(number) == bytes && r@ == number + " B"@,
        1024 <= bytes < 1024 * 1024 ==> shown_in(r@, bytes as nat, 1024, " KB"@),
        1024 * 1024 <= bytes < 1024 * 1024 * 1024 ==> shown_in(
            r@,
            bytes as nat,
            1024 * 1024,
            " MB"@,
        ),
        1024 * 1024 * 1024 <= bytes < 1024 * 1024 * 1024 * 1024 ==> shown_in(
            r@,
            bytes as nat,
            1024 * 1024 * 1024,
            " GB"@,
        ),
        1024 * 1024 * 1024 * 1024 <= bytes ==> shown_in(
            r@,
            bytes as nat,
            1024 * 1024 * 1024 * 1024,
            " TB"@,
        ),
{
    law_digits(bytes as nat);
    assert(is_number(digits(bytes as nat)));
    lemma_shown(bytes as nat, 1024);
    lemma_shown(bytes as nat, 1024 * 1024);
    lemma_shown(bytes as nat, 1024 * 1024 * 1024);
    lemma_shown(bytes as nat, 1024 * 1024 * 1024 * 1024);
}

/// What is written of a size in a unit.
proof fn lemma_shown(n: nat, unit: nat)
    requires
        0 < unit,
    ensures
        forall|name: Seq<char>|
            shown_in(#[trigger] (tenths_text(unit_tenths(n, unit)) + name), n, unit, name),
{
    let tenths = unit_tenths(n, unit);
    lemma_double_of(n);
    lemma_nearest(10 * nearest_double(n), unit);
    lemma_one_decimal(tenths);
    assert forall|name: Seq<char>| shown_in(#[trigger] (tenths_text(tenths) + name), n, unit, name) by {
        assert(one_decimal(tenths_text(tenths), tenths) && double_of(nearest_double(n), n));
    }
}

} // verus!
