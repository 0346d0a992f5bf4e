//! Rounding to the nearest integer, ties away from zero, on exact integers.

use vstd::prelude::*;
use vstd::arithmetic::div_mod::lemma_div_pos_is_pos;
use vstd::arithmetic::div_mod::lemma_fundamental_div_mod;
use vstd::arithmetic::div_mod::lemma_fundamental_div_mod_converse;

verus! {

/// Number of millidegrees in a tenth of a degree.
pub const MILLIS_PER_TENTH: u64 = 100;

/// The integer nearest to `n / d`; a tie goes to the neighbour farther from
/// zero. Meant for `d > 0`.
pub open spec fn round_half_away(n: int, d: int) -> int {
    if n >= 0 {
        (2 * n + d) / (2 * d)
    } else {
        -((2 * (-n) + d) / (2 * d))
    }
}

/// A reading of `milli` millidegrees, rounded to tenths of a degree.
pub open spec fn tenths_of(milli: int) -> int {
    round_half_away(milli, MILLIS_PER_TENTH as int)
}

/// An optional reading as a mathematical integer.
pub open spec fn as_int(reading: Option<i64>) -> Option<int> {
    match reading {
        Some(value) => Some(value as int),
        None => None,
    }
}

/// Rounding a non-negative `n = q * d + r` with `0 <= r < d`: the quotient is
/// bumped exactly when the remainder is at least half of `d`.
pub proof fn lemma_round_from_quotient(n: int, d: int, q: int, r: int)
    requires
        d > 0,
        0 <= r < d,
        n == q * d + r,
        n >= 0,
    ensures
        round_half_away(n, d) == if 2 * r >= d { q + 1 } else { q },
{
    let c: int = if 2 * r >= d { 1 } else { 0 };
    let rest = 2 * r + d - c * (2 * d);
    assert(2 * n + d == (q + c) * (2 * d) + rest) by (nonlinear_arith)
        requires
            n == q * d + r,
            rest == 2 * r + d - c * (2 * d),
    ;
    lemma_fundamental_div_mod_converse(2 * n + d, 2 * d, q + c, rest);
}

/// The rounded quotient is a nearest integer: it is off by at most one half.
pub proof fn lemma_round_is_nearest(n: int, d: int)
    requires
        d > 0,
    ensures
        -d <= 2 * (n - round_half_away(n, d) * d) <= d,
        n >= 0 ==> 2 * (n - round_half_away(n, d) * d) < d,
        n <= 0 ==> -d < 2 * (n - round_half_away(n, d) * d),
{
    let m = if n >= 0 { n } else { -n };
    let q = m / d;
    let r = m % d;
    lemma_fundamental_div_mod(m, d);
    assert(m == q * d + r) by (nonlinear_arith)
        requires
            m == d * q + r,
    ;
    lemma_round_from_quotient(m, d, q, r);
    let k = round_half_away(m, d);
    assert(k * d == if 2 * r >= d { q * d + d } else { q * d }) by (nonlinear_arith)
        requires
            k == if 2 * r >= d { q + 1 } else { q },
    ;
    if n < 0 {
        assert(round_half_away(n, d) == -k);
        assert((-k) * d == -(k * d)) by (nonlinear_arith);
    }
}

/// Rounding is odd: the sign of the numerator carries over to the result.
pub proof fn lemma_round_is_odd(n: int, d: int)
    requires
        d > 0,
    ensures
        round_half_away(-n, d) == -round_half_away(n, d),
{
    if n == 0 {
        lemma_round_from_quotient(0, d, 0, 0);
    }
}

/// Cutting a fraction down to its whole part first does not change what it
/// rounds to in units of an even `d`: `n / t` without its fractional part,
/// divided by `d`, rounds like `n / (d * t)`.
pub proof fn lemma_round_of_whole_part(n: int, t: int, d: int)
    requires
        n >= 0,
        t > 0,
        d > 0,
        d % 2 == 0,
    ensures
        round_half_away(n / t, d) == round_half_away(n, d * t),
{
    let w = n / t;
    let r = n % t;
    lemma_fundamental_div_mod(n, t);
    lemma_div_pos_is_pos(n, t);
    let q = (2 * w + d) / (2 * d);
    let s = (2 * w + d) % (2 * d);
    lemma_fundamental_div_mod(2 * w + d, 2 * d);
    let half = d / 2;
    let turns = d * q;
    assert((2 * d) * q == 2 * turns) by (nonlinear_arith)
        requires
            turns == d * q,
    ;
    // Both sides of `2 * w + d == 2 * turns + s` are even but for `s`.
    assert(s == 2 * (w + half - turns));
    assert(s <= 2 * d - 2);
    let rest = s * t + 2 * r;
    assert(2 * n + d * t == (q * (2 * (d * t))) + rest) by (nonlinear_arith)
        requires
            n == t * w + r,
            2 * w + d == (2 * d) * q + s,
            rest == s * t + 2 * r,
    ;
    assert(0 <= rest < 2 * (d * t)) by (nonlinear_arith)
        requires
            rest == s * t + 2 * r,
            0 <= s <= 2 * d - 2,
            0 <= r < t,
            t > 0,
            d > 0,
    ;
    assert(d * t > 0) by (nonlinear_arith)
        requires
            d > 0,
            t > 0,
    ;
    lemma_fundamental_div_mod_converse(2 * n + d * t, 2 * (d * t), q, rest);
}

/// An exact multiple is its own rounding: `k * d / d` rounds to `k`.
pub proof fn lemma_round_of_multiple(k: int, d: int)
    requires
        d > 0,
    ensures
        round_half_away(k * d, d) == k,
{
    if k >= 0 {
        assert(k * d >= 0) by (nonlinear_arith)
            requires
                k >= 0,
                d > 0,
        ;
        lemma_round_from_quotient(k * d, d, k, 0);
    } else {
        assert((-k) * d == -(k * d) && k * d < 0) by (nonlinear_arith)
            requires
                k < 0,
                d > 0,
        ;
        lemma_round_from_quotient((-k) * d, d, -k, 0);
    }
}

/// Rounding never decreases when the numerator grows.
pub proof fn lemma_round_is_monotonic(a: int, b: int, d: int)
    requires
        d > 0,
        a <= b,
    ensures
        round_half_away(a, d) <= round_half_away(b, d),
{
    lemma_round_is_nearest(a, d);
    lemma_round_is_nearest(b, d);
    let x = round_half_away(a, d);
    let y = round_half_away(b, d);
    if x > y {
        assert(x * d >= y * d + d) by (nonlinear_arith)
            requires
                x >= y + 1,
                d > 0,
        ;
        if a >= 0 {
            // 0 <= a <= b, so neither rounding sits a full half above its numerator.
            assert(false);
        } else if b <= 0 {
            assert(false);
        } else {
            // a < 0 < b: the roundings have the signs of their numerators.
            assert(y * d >= 0 ==> y >= 0) by (nonlinear_arith)
                requires
                    d > 0,
            ;
            assert(x * d <= 0 ==> x <= 0) by (nonlinear_arith)
                requires
                    d > 0,
            ;
            assert(false);
        }
    }
}

/// A numerator between `lo * d` and `hi * d` rounds to a value between `lo`
/// and `hi`.
pub proof fn lemma_round_within(n: int, d: int, lo: int, hi: int)
    requires
        d > 0,
        lo * d <= n <= hi * d,
    ensures
        lo <= round_half_away(n, d) <= hi,
{
    lemma_round_is_monotonic(lo * d, n, d);
    lemma_round_is_monotonic(n, hi * d, d);
    lemma_round_of_multiple(lo, d);
    lemma_round_of_multiple(hi, d);
}

/// Computes `round_half_away(n, d)`.
pub fn round_div(n: i128, d: u64) -> (r: i128)
    requires
        d > 0,
    ensures
        r == round_half_away(n as int, d as int),
{
    let negative = n < 0;
    let magnitude: u128 = if negative {
        (-(n + 1)) as u128 + 1
    } else {
        n as u128
    };
    let divisor: u128 = d as u128;
    let quotient: u128 = magnitude / divisor;
    let remainder: u128 = magnitude % divisor;
    let rounded: u128 = if remainder >= divisor - remainder {
        quotient + 1
    } else {
        quotient
    };
    proof {
        lemma_fundamental_div_mod(magnitude as int, d as int);
        assert(magnitude as int == quotient as int * d as int + remainder as int)
            by (nonlinear_arith)
            requires
                magnitude as int == d as int * quotient as int + remainder as int,
        ;
        lemma_round_from_quotient(
            magnitude as int,
            d as int,
            quotient as int,
            remainder as int,
        );
        assert(0 * d as int <= magnitude as int <= magnitude as int * d as int)
            by (nonlinear_arith)
            requires
                d >= 1,
                magnitude >= 0,
        ;
        lemma_round_within(magnitude as int, d as int, 0, magnitude as int);
    }
    if negative {
        if rounded > i128::MAX as u128 {
            i128::MIN
        } else {
            -(rounded as i128)
        }
    } else {
        rounded as i128
    }
}

/// Rounds a reading in millidegrees to tenths of a degree.
pub fn to_tenths(milli: i64) -> (t: i64)
    ensures
        t == tenths_of(milli as int),
{
    let rounded = round_div(milli as i128, MILLIS_PER_TENTH);
    proof {
        lemma_round_within(milli as int, 100, i64::MIN as int, i64::MAX as int);
    }
    rounded as i64
}

} // verus!
