//! The numeric domain shared by the calculators: exact fixed-point numbers.
//!
//! A `Fixed` stores an `i64` count of units of `1 / SCALE`, so every sample
//! and every computed average is an exact integer of raw units, and the
//! contracts of the calculators can state results exactly instead of up to a
//! rounding error.

use vstd::prelude::*;

verus! {

use vstd::arithmetic::div_mod::lemma_div_is_ordered;
use vstd::arithmetic::div_mod::lemma_div_multiples_vanish;
use vstd::arithmetic::div_mod::lemma_div_pos_is_pos;

/// Number of raw units in one whole: a `Fixed` with `raw == SCALE` is one.
pub const SCALE: i64 = 1_000_000_000;

/// Largest whole number `v` such that `v * SCALE` still fits in an `i64`.
pub const MAX_WHOLE: i64 = 9_223_372_036;

/// A fixed-point number whose value is `raw / SCALE`.
#[derive(Clone, Copy, Debug, PartialEq, Eq, Structural)]
pub struct Fixed {
    pub raw: i64,
}

impl View for Fixed {
    type V = int;

    open spec fn view(&self) -> int {
        self.raw as int
    }
}

impl Fixed {
    /// The zero value.
    pub fn zero() -> (r: Fixed)
        ensures
            r@ == 0,
    {
        Fixed { raw: 0 }
    }

    /// The whole number `v`, for `v` small enough that `v * SCALE` fits.
    pub fn from_int(v: i64) -> (r: Fixed)
        requires
            -MAX_WHOLE <= v <= MAX_WHOLE,
        ensures
            r@ == v * SCALE,
    {
        Fixed { raw: v * SCALE }
    }

    /// The number `raw / SCALE`.
    pub fn from_raw(raw: i64) -> (r: Fixed)
        ensures
            r@ == raw,
    {
        Fixed { raw }
    }
}

/// Division truncated toward zero (the rounding of Rust's `/` operator),
/// defined for a positive divisor.
pub open spec fn tdiv(a: int, b: int) -> int
    recommends
        b > 0,
{
    if a >= 0 {
        a / b
    } else {
        -((-a) / b)
    }
}

/// Dividing an exact multiple of the divisor loses nothing to rounding:
/// `(k * v) / k == v` for every `v`, of either sign.
pub proof fn lemma_tdiv_exact(k: int, v: int)
    requires
        k >= 1,
    ensures
        tdiv(k * v, k) == v,
{
    if v >= 0 {
        assert(k * v >= 0) by (nonlinear_arith)
            requires
                k >= 1,
                v >= 0,
        ;
        lemma_div_multiples_vanish(v, k);
    } else {
        assert(k * v < 0 && -(k * v) == k * (-v)) by (nonlinear_arith)
            requires
                k >= 1,
                v < 0,
        ;
        lemma_div_multiples_vanish(-v, k);
    }
}

/// A truncated quotient lies between any bounds the dividend respects:
/// if `k * lo <= s <= k * hi` then `lo <= tdiv(s, k) <= hi`.
pub proof fn lemma_tdiv_bounds(s: int, k: int, lo: int, hi: int)
    requires
        k >= 1,
        k * lo <= s,
        s <= k * hi,
    ensures
        lo <= tdiv(s, k) <= hi,
{
    if s >= 0 {
        lemma_div_is_ordered(k * lo, s, k);
        lemma_div_is_ordered(s, k * hi, k);
        lemma_div_multiples_vanish(lo, k);
        lemma_div_multiples_vanish(hi, k);
    } else {
        let m = -s;
        assert(k * (-lo) == -(k * lo) && k * (-hi) == -(k * hi)) by (nonlinear_arith);
        lemma_div_is_ordered(m, k * (-lo), k);
        lemma_div_is_ordered(k * (-hi), m, k);
        lemma_div_multiples_vanish(-lo, k);
        lemma_div_multiples_vanish(-hi, k);
    }
}

/// Scaling `d` by a coefficient `0 < a <= s` and dividing by `s`, truncated,
/// yields a value between `0` and `d` (in either order of sign).
pub proof fn lemma_tdiv_scale_between(d: int, a: int, s: int)
    requires
        0 < a <= s,
    ensures
        d >= 0 ==> 0 <= tdiv(d * a, s) <= d,
        d < 0 ==> d <= tdiv(d * a, s) <= 0,
{
    if d >= 0 {
        assert(0 <= d * a <= d * s) by (nonlinear_arith)
            requires
                d >= 0,
                0 < a <= s,
        ;
        lemma_div_is_ordered(d * a, d * s, s);
        assert(d * s == s * d);
        lemma_div_multiples_vanish(d, s);
        if d * a > 0 {
            lemma_div_pos_is_pos(d * a, s);
        }
    } else {
        let m = -(d * a);
        assert(d * a < 0 && m == (-d) * a && 0 <= m <= (-d) * s) by (nonlinear_arith)
            requires
                d < 0,
                0 < a <= s,
                m == -(d * a),
        ;
        lemma_div_is_ordered(m, (-d) * s, s);
        assert((-d) * s == s * (-d));
        lemma_div_multiples_vanish(-d, s);
        if m > 0 {
            lemma_div_pos_is_pos(m, s);
        }
    }
}

/// Quotient of `a` by the positive divisor `b`, truncated toward zero.
pub fn div_trunc(a: i128, b: i128) -> (r: i128)
    requires
        b > 0,
        a > i128::MIN,
    ensures
        r == tdiv(a as int, b as int),
{
    if a >= 0 {
        let q: u128 = (a as u128) / (b as u128);
        proof {
            assert(q <= a as u128) by (nonlinear_arith)
                requires
                    q == (a as u128) / (b as u128),
                    b as u128 >= 1,
            ;
        }
        q as i128
    } else {
        let m: u128 = (-a) as u128;
        let q: u128 = m / (b as u128);
        proof {
            assert(q <= m) by (nonlinear_arith)
                requires
                    q == m / (b as u128),
                    b as u128 >= 1,
            ;
        }
        -(q as i128)
    }
}

} // verus!
