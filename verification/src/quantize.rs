//! Quantizing fixed-point transform coefficients into narrow integer codes.
//!
//! A coefficient is first saturated into `[-limit, limit]`, scaled so that
//! the limit maps onto the largest code of the declared bit width, and
//! rounded half-up. Saturation guarantees that every code fits its width:
//! a coefficient at or beyond the limit yields exactly the extreme code.

use crate::fixed::{clamp_magnitude, clamped, lemma_round_half_up_bounds, round_div, round_half_up, SCALE};
use vstd::arithmetic::power2::{lemma2_to64, lemma_pow2_adds, lemma_pow2_pos, pow2};
use vstd::bits::lemma_u64_shl_is_mul;
use vstd::prelude::*;

verus! {

/// The largest code of a `bits`-wide quantizer: `(2^bits) / 2 - 1`.
pub open spec fn smax_spec(bits: u32) -> int
    recommends
        1 <= bits <= 32,
{
    pow2((bits - 1) as nat) - 1
}

/// The quantized code of `x` for a `bits`-wide signed quantizer with the
/// given saturation limit: `x` clamped into `[-limit, limit]`, scaled by
/// `smax / limit` and rounded half-up.
pub open spec fn quantized_signed(x: int, bits: u32, limit: int) -> int
    recommends
        1 <= bits <= 32,
        limit >= 1,
{
    round_half_up(clamped(x, limit) * smax_spec(bits), limit)
}

/// As [`quantized_signed`], with negative codes saturated to zero: luma is
/// never negative, so the unsigned quantizer floors at code zero.
pub open spec fn quantized_unsigned(x: int, bits: u32, limit: int) -> int
    recommends
        1 <= bits <= 32,
        limit >= 1,
{
    let q = quantized_signed(x, bits, limit);
    if q < 0 {
        0
    } else {
        q
    }
}

proof fn lemma_smax(bits: u32)
    requires
        1 <= bits <= 32,
    ensures
        (1u64 << bits) as int == pow2(bits as nat),
        pow2(bits as nat) == 2 * pow2((bits - 1) as nat),
        0 <= smax_spec(bits) < 0x8000_0000,
        bits <= 16 ==> smax_spec(bits) <= 0x8000,
        bits >= 2 ==> smax_spec(bits) >= 1,
{
    if bits >= 2 {
        vstd::arithmetic::power2::lemma_pow2_strictly_increases(0, (bits - 1) as nat);
    }
    lemma2_to64();
    lemma_pow2_adds((bits - 1) as nat, 1);
    lemma_pow2_pos((bits - 1) as nat);
    lemma_u64_shl_is_mul(1u64, bits as u64);
    if bits <= 16 {
        if bits <= 15 {
            vstd::arithmetic::power2::lemma_pow2_strictly_increases((bits - 1) as nat, 15);
        }
    } else if bits <= 31 {
        vstd::arithmetic::power2::lemma_pow2_strictly_increases((bits - 1) as nat, 31);
    }
}

/// The largest code of a `bits`-wide signed quantizer.
pub fn smaxs(bits: u32) -> (r: i32)
    requires
        1 <= bits <= 32,
    ensures
        r == smax_spec(bits),
{
    proof {
        lemma_smax(bits);
    }
    ((1u64 << bits) / 2 - 1) as i32
}

/// The largest code of a `bits`-wide unsigned quantizer.
pub fn smaxu(bits: u32) -> (r: u32)
    requires
        1 <= bits <= 32,
    ensures
        r == smax_spec(bits),
{
    proof {
        lemma_smax(bits);
    }
    ((1u64 << bits) / 2 - 1) as u32
}

/// Saturate `x` into `[-max_magnitude, max_magnitude]` and scale it to a
/// fixed-point ratio of the magnitude: the limit itself maps to one unit.
pub fn scale_sat(x: i64, max_magnitude: i64) -> (r: i64)
    requires
        1 <= max_magnitude <= 1_000_000_000_000,
        -i64::MAX <= x,
    ensures
        r == round_half_up(clamped(x as int, max_magnitude as int) * SCALE, max_magnitude as int),
        -SCALE <= r <= SCALE,
{
    let cl = clamp_magnitude(x, max_magnitude);
    proof {
        assert(-(max_magnitude * (SCALE as int)) <= cl * SCALE <= max_magnitude * (SCALE as int))
            by (nonlinear_arith)
            requires
                -max_magnitude <= cl <= max_magnitude,
                max_magnitude >= 1,
        ;
        lemma_round_half_up_bounds(cl as int * SCALE, max_magnitude as int, SCALE as int);
    }
    round_div(cl * SCALE, max_magnitude)
}

/// Quantize the fixed-point coefficient `x` to a signed `bits`-wide code.
/// The code never leaves `[-smax, smax]`: a coefficient at or beyond the
/// saturation limit yields exactly the extreme code.
pub fn encodes(x: i64, bits: u32, limit: i64) -> (r: i32)
    requires
        1 <= bits <= 16,
        1 <= limit <= 1_000_000_000_000,
        -i64::MAX <= x,
    ensures
        r == quantized_signed(x as int, bits, limit as int),
        -smax_spec(bits) <= r as int <= smax_spec(bits),
        x >= limit ==> r == smax_spec(bits),
        x <= -limit ==> r as int == -smax_spec(bits),
{
    proof {
        lemma_smax(bits);
    }
    let smax: i64 = smaxs(bits) as i64;
    let cl = clamp_magnitude(x, limit);
    proof {
        assert(-(limit * smax) <= cl * smax <= limit * smax) by (nonlinear_arith)
            requires
                -limit <= cl <= limit,
                smax >= 0,
        ;
        assert(limit * smax <= 0x2000_0000_0000_0000i64) by (nonlinear_arith)
            requires
                0 <= limit <= 1_000_000_000_000,
                0 <= smax <= 0x8000,
        ;
        lemma_round_half_up_bounds(cl as int * smax, limit as int, smax as int);
        if x >= limit {
            assert(cl * smax == limit * smax);
        }
        if x <= -limit {
            assert(cl as int * smax == -(limit * smax)) by (nonlinear_arith)
                requires
                    cl == -limit,
            ;
        }
    }
    let q = round_div(cl * smax, limit);
    q as i32
}

/// Quantize the fixed-point coefficient `x` to an unsigned `bits`-wide code,
/// flooring negative codes at zero. The code never exceeds `smax`: a
/// coefficient at or beyond the saturation limit yields exactly `smax`.
pub fn encodeu(x: i64, bits: u32, limit: i64) -> (r: u32)
    requires
        1 <= bits <= 16,
        1 <= limit <= 1_000_000_000_000,
        -i64::MAX <= x,
    ensures
        r == quantized_unsigned(x as int, bits, limit as int),
        r as int <= smax_spec(bits),
        x >= limit ==> r == smax_spec(bits),
{
    proof {
        lemma_smax(bits);
    }
    let smax: i64 = smaxs(bits) as i64;
    let cl = clamp_magnitude(x, limit);
    proof {
        assert(-(limit * smax) <= cl * smax <= limit * smax) by (nonlinear_arith)
            requires
                -limit <= cl <= limit,
                smax >= 0,
        ;
        assert(limit * smax <= 0x2000_0000_0000_0000i64) by (nonlinear_arith)
            requires
                0 <= limit <= 1_000_000_000_000,
                0 <= smax <= 0x8000,
        ;
        lemma_round_half_up_bounds(cl as int * smax, limit as int, smax as int);
        if x >= limit {
            assert(cl * smax == limit * smax);
        }
    }
    let q = round_div(cl * smax, limit);
    if q < 0 {
        0
    } else {
        q as u32
    }
}

/// Quantizing a coefficient within the saturation limit and decoding its code
/// again moves the coefficient by no more than half a quantization step and
/// half a fixed-point unit in either direction: the error, scaled by twice
/// `smax`, stays within `smax + limit`.
pub proof fn lemma_quantizer_round_trip_error(x: int, bits: u32, limit: int)
    requires
        2 <= bits <= 16,
        1 <= limit,
        -limit <= x <= limit,
    ensures
        ({
            let q = quantized_signed(x, bits, limit);
            let back = round_half_up(q * limit, smax_spec(bits));
            let m = smax_spec(bits);
            -(m + limit) < 2 * m * (back - x) <= m + limit
        }),
{
    lemma_smax(bits);
    let m = smax_spec(bits);
    let q = quantized_signed(x, bits, limit);
    let back = round_half_up(q * limit, m);
    assert(clamped(x, limit) == x);

    let n1 = 2 * (x * m) + limit;
    let r1 = n1 % (2 * limit);
    vstd::arithmetic::div_mod::lemma_fundamental_div_mod(n1, 2 * limit);
    vstd::arithmetic::div_mod::lemma_mod_bound(n1, 2 * limit);
    assert(n1 == (2 * limit) * q + r1);

    let n2 = 2 * (q * limit) + m;
    let r2 = n2 % (2 * m);
    vstd::arithmetic::div_mod::lemma_fundamental_div_mod(n2, 2 * m);
    vstd::arithmetic::div_mod::lemma_mod_bound(n2, 2 * m);
    assert(n2 == (2 * m) * back + r2);

    assert(2 * m * (back - x) == m + limit - r1 - r2) by (nonlinear_arith)
        requires
            2 * (x * m) + limit == (2 * limit) * q + r1,
            2 * (q * limit) + m == (2 * m) * back + r2,
    ;
}

/// The fixed-point value a signed `bits`-wide code stands for:
/// `code / smax`, scaled back by the saturation limit.
pub fn decodes(code: i32, bits: u32, limit: i64) -> (r: i64)
    requires
        2 <= bits <= 16,
        1 <= limit <= 1_000_000_000_000,
        -0x1_0000 <= code <= 0x1_0000,
    ensures
        r == round_half_up(code * limit, smax_spec(bits)),
{
    proof {
        lemma_smax(bits);
        assert(-0x2000_0000_0000_0000i64 <= (code as i64) * limit <= 0x2000_0000_0000_0000i64)
            by (nonlinear_arith)
            requires
                -0x1_0000 <= code <= 0x1_0000,
                1 <= limit <= 1_000_000_000_000,
        ;
    }
    let smax: i64 = smaxs(bits) as i64;
    round_div((code as i64) * limit, smax)
}

/// The fixed-point value an unsigned `bits`-wide code stands for.
pub fn decodeu(code: u32, bits: u32, limit: i64) -> (r: i64)
    requires
        2 <= bits <= 16,
        1 <= limit <= 1_000_000_000_000,
        code <= 0x1_0000,
    ensures
        r == round_half_up(code * limit, smax_spec(bits)),
{
    proof {
        lemma_smax(bits);
        assert((code as i64) * limit <= 0x2000_0000_0000_0000i64) by (nonlinear_arith)
            requires
                0 <= code <= 0x1_0000,
                1 <= limit <= 1_000_000_000_000,
        ;
    }
    let smax: i64 = smaxs(bits) as i64;
    round_div((code as i64) * limit, smax)
}

} // verus!
