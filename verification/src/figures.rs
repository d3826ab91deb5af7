//! Exact decimal figures, rounded as a reader expects.

use crate::text;
use vstd::prelude::*;

verus! {

/// The whole number nearest to `n / d`; halfway, the even one.
pub open spec fn rounded(n: nat, d: nat) -> nat {
    let q = n / d;
    let twice = 2 * (n % d);
    if twice > d || (twice == d && q % 2 == 1) {
        q + 1
    } else {
        q
    }
}

/// `n / d` written with one decimal.
pub open spec fn one_decimal(n: nat, d: nat) -> Seq<char> {
    let q = rounded(n * 10, d);
    text::dec(q / 10) + "."@ + text::dec(q % 10)
}

/// The whole number nearest to `n / d`.
pub fn round(n: u128, d: u128) -> (r: u128)
    requires
        0 < d < 0x8000_0000_0000_0000_0000_0000_0000_0000,
        n < u128::MAX,
    ensures
        r == rounded(n as nat, d as nat),
{
    let q: u128 = n / d;
    let twice: u128 = 2 * (n % d);
    assert(q <= n) by (nonlinear_arith)
        requires
            q == n / d,
            d > 0,
    ;
    if twice > d || (twice == d && q % 2 == 1) {
        q + 1
    } else {
        q
    }
}

/// `n / d` with one decimal.
pub fn with_one_decimal(n: u64, d: u64) -> (r: String)
    requires
        d > 0,
    ensures
        r@ == one_decimal(n as nat, d as nat),
{
    let q: u128 = round(n as u128 * 10, d as u128);
    proof {
        lemma_rounded(n as nat * 10, d as nat);
    }
    let mut out = String::new();
    text::push_dec(&mut out, (q / 10) as u64);
    out.append(".");
    text::push_dec(&mut out, (q % 10) as u64);
    assert(out@ =~= one_decimal(n as nat, d as nat));
    out
}

/// Rounding moves a quotient by at most one.
proof fn lemma_rounded(n: nat, d: nat)
    requires
        d > 0,
    ensures
        n / d <= rounded(n, d) <= n / d + 1,
        n / d <= n,
{
    assert(n / d <= n) by (nonlinear_arith)
        requires
            d > 0,
    ;
}

/// Mebibytes as gibibytes with one decimal and the unit.
pub open spec fn gib_text(mib: nat) -> Seq<char> {
    one_decimal(mib, 1024) + " GiB"@
}

/// Mebibytes as gibibytes.
pub fn gib(mib: u64) -> (r: String)
    ensures
        r@ == gib_text(mib as nat),
{
    let mut out = with_one_decimal(mib, 1024);
    out.append(" GiB");
    out
}

/// A figure is rounded to the nearest: it is off by half at most, and where it is
/// off by half it is even.
pub proof fn figures_are_the_nearest(n: nat, d: nat)
    requires
        d > 0,
    ensures
        2 * (rounded(n, d) * d) <= 2 * n + d,
        2 * n <= 2 * (rounded(n, d) * d) + d,
        2 * (rounded(n, d) * d) == 2 * n + d || 2 * n == 2 * (rounded(n, d) * d) + d ==> rounded(
            n,
            d,
        ) % 2 == 0,
{
    let q = n / d;
    let m = n % d;
    assert(n == q * d + m && m < d) by (nonlinear_arith)
        requires
            q == n / d,
            m == n % d,
            d > 0,
    ;
    assert((q + 1) * d == q * d + d) by (nonlinear_arith);
}

/// What is written with one decimal is a whole number of tenths: digits, a point,
/// and one digit.
pub proof fn one_decimal_is_tenths(n: nat, d: nat)
    ensures
        ({
            let s = one_decimal(n, d);
            let k = s.len() - 2;
            &&& s.len() >= 3
            &&& s[k] == '.'
            &&& text::all_digits(s.take(k))
            &&& text::is_digit(s[k + 1])
            &&& text::dec_val(s.take(k)) * 10 + (s[k + 1] as int - '0' as int) == rounded(
                n * 10,
                d,
            )
        }),
{
    reveal_strlit(".");
    let q = rounded(n * 10, d);
    text::lemma_dec(q / 10);
    text::lemma_dec(q % 10);
    let s = one_decimal(n, d);
    let w = text::dec(q / 10);
    let t = text::dec(q % 10);
    assert(t.len() == 1);
    assert(s.take(s.len() - 2) =~= w);
    assert(s[s.len() - 1] == t[0]);
}

/// Gibibytes are told to the nearest tenth, with the unit behind.
pub proof fn gibibytes_are_told_in_tenths(mib: nat)
    ensures
        exists|tenths: nat|
            gib_text(mib) == #[trigger] text::dec(tenths / 10) + "."@ + text::dec(tenths % 10)
                + " GiB"@ && 2 * (tenths * 1024) <= 2 * (mib * 10) + 1024 && 2 * (mib * 10) <= 2 * (
            tenths * 1024) + 1024,
{
    let tenths = rounded(mib * 10, 1024);
    figures_are_the_nearest(mib * 10, 1024);
    assert(gib_text(mib) == text::dec(tenths / 10) + "."@ + text::dec(tenths % 10) + " GiB"@);
}

} // verus!
