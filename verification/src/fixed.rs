//! Exact fixed-point arithmetic for the codec's real-valued samples.
//!
//! A sample is an `i64` counting millionths of a unit. Every coefficient of
//! the color transform and the quantizer limit have at most six decimal
//! places, so they are exact millionth counts; each pipeline stage is a
//! linear map computed exactly in `i64` and rounded half-up once.

use vstd::arithmetic::div_mod::{lemma_fundamental_div_mod, lemma_fundamental_div_mod_converse};
use vstd::prelude::*;

verus! {

/// Millionths in one unit: the denominator of every fixed-point sample.
pub const SCALE: i64 = 1_000_000;

/// Magnitude bound accepted by the fixed-point helpers, far beyond any sample
/// the codec produces, yet small enough that no intermediate overflows.
pub const FIXED_BOUND: i64 = 0x2000_0000_0000_0000;

/// `n / d` rounded half-up: the integer `floor(n/d + 1/2)`.
pub open spec fn round_half_up(n: int, d: int) -> int
    recommends
        d >= 1,
{
    (2 * n + d) / (2 * d)
}

/// `x` saturated into `[-max, max]`.
pub open spec fn clamped(x: int, max: int) -> int
    recommends
        max >= 1,
{
    if x > max {
        max
    } else if x < -max {
        -max
    } else {
        x
    }
}

/// Rounding half-up keeps `n / d` within `[-m, m]` whenever `n` is within
/// `[-d * m, d * m]`, and hits the bounds exactly at the endpoints.
pub proof fn lemma_round_half_up_bounds(n: int, d: int, m: int)
    requires
        d >= 1,
        m >= 0,
        -(d * m) <= n <= d * m,
    ensures
        -m <= round_half_up(n, d) <= m,
        n == d * m ==> round_half_up(n, d) == m,
        n == -(d * m) ==> round_half_up(n, d) == -m,
{
    let hi: int = 2 * d * m + d;
    let lo: int = -(2 * d * m) + d;
    assert(2 * n + d <= hi && lo <= 2 * n + d) by (nonlinear_arith)
        requires
            -(d * m) <= n <= d * m,
            hi == 2 * d * m + d,
            lo == -(2 * d * m) + d,
    ;
    assert(hi == m * (2 * d) + d && lo == (-m) * (2 * d) + d) by (nonlinear_arith)
        requires
            hi == 2 * d * m + d,
            lo == -(2 * d * m) + d,
    ;
    lemma_fundamental_div_mod_converse(hi, 2 * d, m, d);
    lemma_fundamental_div_mod_converse(lo, 2 * d, -m, d);
    vstd::arithmetic::div_mod::lemma_div_is_ordered(2 * n + d, hi, 2 * d);
    vstd::arithmetic::div_mod::lemma_div_is_ordered(lo, 2 * n + d, 2 * d);
    if n == d * m {
        assert(2 * n + d == hi) by (nonlinear_arith)
            requires
                n == d * m,
                hi == 2 * d * m + d,
        ;
    }
    if n == -(d * m) {
        assert(2 * n + d == lo) by (nonlinear_arith)
            requires
                n == -(d * m),
                lo == -(2 * d * m) + d,
        ;
    }
}

/// `n / d` rounded half-up, exactly.
pub fn round_div(n: i64, d: i64) -> (r: i64)
    requires
        1 <= d <= FIXED_BOUND,
        -FIXED_BOUND <= n <= FIXED_BOUND,
    ensures
        r == round_half_up(n as int, d as int),
{
    let num: i64 = 2 * n + d;
    let den: i64 = 2 * d;
    if num >= 0 {
        let q: u64 = (num as u64) / (den as u64);
        proof {
            lemma_fundamental_div_mod(num as int, den as int);
        }
        q as i64
    } else {
        let neg: u64 = (-num) as u64;
        let q: u64 = neg / (den as u64);
        let rem: u64 = neg % (den as u64);
        proof {
            lemma_fundamental_div_mod(neg as int, den as int);
            assert(q as int == (neg as int) / (den as int));
            assert(rem as int == (neg as int) % (den as int));
            assert(neg as int == (q as int) * (den as int) + rem as int);
            if rem == 0 {
                assert(num as int == (-(q as int)) * (den as int) + 0) by (nonlinear_arith)
                    requires
                        neg as int == (q as int) * (den as int) + rem as int,
                        rem == 0,
                        num as int == -(neg as int),
                ;
                lemma_fundamental_div_mod_converse(num as int, den as int, -(q as int), 0);
            } else {
                assert(num as int == (-(q as int) - 1) * (den as int) + (den - rem))
                    by (nonlinear_arith)
                    requires
                        neg as int == (q as int) * (den as int) + rem as int,
                        num as int == -(neg as int),
                ;
                lemma_fundamental_div_mod_converse(
                    num as int,
                    den as int,
                    -(q as int) - 1,
                    den - rem,
                );
            }
        }
        if rem == 0 {
            -(q as i64)
        } else {
            -(q as i64) - 1
        }
    }
}

/// `x` saturated into `[-max, max]`.
pub fn clamp_magnitude(x: i64, max: i64) -> (r: i64)
    requires
        1 <= max,
        -i64::MAX <= x,
    ensures
        r == clamped(x as int, max as int),
{
    if x > max {
        max
    } else if x < -max {
        -max
    } else {
        x
    }
}

} // verus!
