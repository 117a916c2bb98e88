//! Packing one quantized block into a 32-bit codeword and back.
//!
//! The layout is fixed, most to least significant: the unsigned luma average
//! `a` in 9 bits at bit 23, the signed luma differences `b`, `c`, `d` in 5
//! bits each at bits 18, 13 and 8, and the two unsigned chroma indices in 4
//! bits each at bits 4 and 0. The six spans are disjoint and tile the low 32
//! bits, so the six fields determine the codeword completely.

use crate::bitfield::{
    fits_signed, fits_unsigned, fitss, fitsu, gets, getu, news, newu, signed_field,
    unsigned_field,
};
use vstd::arithmetic::power2::{lemma2_to64, lemma2_to64_rest, pow2};
use vstd::prelude::*;

verus! {

/// All six quantized fields fit their declared widths.
pub open spec fn block_fits(a: u32, b: i32, c: i32, d: i32, pb: u32, pr: u32) -> bool {
    a < 512 && -16 <= b <= 15 && -16 <= c <= 15 && -16 <= d <= 15 && pb < 16 && pr < 16
}

/// The six fields of a codeword, at the fixed layout, as one spec tuple:
/// `(a, b, c, d, pb index, pr index)`.
pub open spec fn codeword_fields(w: u32) -> (u64, int, int, int, u64, u64) {
    (
        unsigned_field(w as u64, 9, 23),
        signed_field(w as u64, 5, 18),
        signed_field(w as u64, 5, 13),
        signed_field(w as u64, 5, 8),
        unsigned_field(w as u64, 4, 4),
        unsigned_field(w as u64, 4, 0),
    )
}

/// A word whose bits above the low 32 read zero is below `2^32`.
proof fn lemma_low_32_bits(w: u64)
    requires
        unsigned_field(w, 32, 32) == 0,
    ensures
        w <= u32::MAX as u64,
{
    lemma2_to64();
    lemma2_to64_rest();
    let d = pow2(32) as int;
    let q = (w as int) / d;
    vstd::arithmetic::div_mod::lemma_fundamental_div_mod(w as int, d);
    assert(q < d) by (nonlinear_arith)
        requires
            d > 0,
            (w as int) < d * d,
            q == (w as int) / d,
            (w as int) == q * d + (w as int) % d,
            (w as int) % d >= 0,
    ;
    vstd::arithmetic::div_mod::lemma_small_mod(q as nat, pow2(32));
    assert(q == 0);
}

/// Assemble the six quantized fields of one block into a 32-bit codeword,
/// or `None` iff some field does not fit its declared width. The fields of
/// the returned word read back exactly as the inputs.
pub fn bitpack(a: u32, b: i32, c: i32, d: i32, pb: u32, pr: u32) -> (r: Option<u32>)
    ensures
        r is Some <==> block_fits(a, b, c, d, pb, pr),
        r matches Some(w) ==> codeword_fields(w) == (
            a as u64,
            b as int,
            c as int,
            d as int,
            pb as u64,
            pr as u64,
        ),
{
    proof {
        lemma2_to64();
        assert(unsigned_field(0u64, 32, 32) == 0) by {
            vstd::arithmetic::div_mod::lemma_small_mod(0nat, pow2(32));
            assert((0u64 as nat) / pow2(32) == 0) by {
                vstd::arithmetic::div_mod::lemma_div_of0(pow2(32) as int);
            }
        }
    }
    let v0: u64 = 0;

    if !fitsu(a as u64, 9) {
        return None;
    }
    let v1 = match newu(v0, 9, 23, a as u64) {
        Some(v) => v,
        None => return None,
    };
    proof {
        assert(unsigned_field(v1, 32, 32) == unsigned_field(v0, 32, 32));
    }

    if !fitss(b as i64, 5) {
        return None;
    }
    let v2 = match news(v1, 5, 18, b as i64) {
        Some(v) => v,
        None => return None,
    };
    proof {
        assert(unsigned_field(v2, 9, 23) == unsigned_field(v1, 9, 23));
        assert(unsigned_field(v2, 32, 32) == unsigned_field(v1, 32, 32));
    }

    if !fitss(c as i64, 5) {
        return None;
    }
    let v3 = match news(v2, 5, 13, c as i64) {
        Some(v) => v,
        None => return None,
    };
    proof {
        assert(unsigned_field(v3, 9, 23) == unsigned_field(v2, 9, 23));
        assert(unsigned_field(v3, 5, 18) == unsigned_field(v2, 5, 18));
        assert(unsigned_field(v3, 32, 32) == unsigned_field(v2, 32, 32));
    }

    if !fitss(d as i64, 5) {
        return None;
    }
    let v4 = match news(v3, 5, 8, d as i64) {
        Some(v) => v,
        None => return None,
    };
    proof {
        assert(unsigned_field(v4, 9, 23) == unsigned_field(v3, 9, 23));
        assert(unsigned_field(v4, 5, 18) == unsigned_field(v3, 5, 18));
        assert(unsigned_field(v4, 5, 13) == unsigned_field(v3, 5, 13));
        assert(unsigned_field(v4, 32, 32) == unsigned_field(v3, 32, 32));
    }

    if !fitsu(pb as u64, 4) {
        return None;
    }
    let v5 = match newu(v4, 4, 4, pb as u64) {
        Some(v) => v,
        None => return None,
    };
    proof {
        assert(unsigned_field(v5, 9, 23) == unsigned_field(v4, 9, 23));
        assert(unsigned_field(v5, 5, 18) == unsigned_field(v4, 5, 18));
        assert(unsigned_field(v5, 5, 13) == unsigned_field(v4, 5, 13));
        assert(unsigned_field(v5, 5, 8) == unsigned_field(v4, 5, 8));
        assert(unsigned_field(v5, 32, 32) == unsigned_field(v4, 32, 32));
    }

    if !fitsu(pr as u64, 4) {
        return None;
    }
    let v6 = match newu(v5, 4, 0, pr as u64) {
        Some(v) => v,
        None => return None,
    };
    proof {
        assert(unsigned_field(v6, 9, 23) == unsigned_field(v5, 9, 23));
        assert(unsigned_field(v6, 5, 18) == unsigned_field(v5, 5, 18));
        assert(unsigned_field(v6, 5, 13) == unsigned_field(v5, 5, 13));
        assert(unsigned_field(v6, 5, 8) == unsigned_field(v5, 5, 8));
        assert(unsigned_field(v6, 4, 4) == unsigned_field(v5, 4, 4));
        assert(unsigned_field(v6, 32, 32) == unsigned_field(v5, 32, 32));
        lemma_low_32_bits(v6);
        assert((v6 as u32) as u64 == v6);
    }
    Some(v6 as u32)
}

/// Split a 32-bit codeword into its six quantized fields
/// `(a, b, c, d, pb index, pr index)` at the fixed layout. Total: any 32-bit
/// pattern decodes, whether or not an encoder produced it.
pub fn unpack_bits(packed_value: u32) -> (r: (u32, i32, i32, i32, usize, usize))
    ensures
        (r.0 as u64, r.1 as int, r.2 as int, r.3 as int, r.4 as u64, r.5 as u64)
            == codeword_fields(packed_value),
        block_fits(r.0, r.1, r.2, r.3, r.4 as u32, r.5 as u32),
{
    proof {
        lemma2_to64();
    }
    let a = getu(packed_value as u64, 9, 23) as u32;
    let b = gets(packed_value as u64, 5, 18) as i32;
    let c = gets(packed_value as u64, 5, 13) as i32;
    let d = gets(packed_value as u64, 5, 8) as i32;
    let pb = getu(packed_value as u64, 4, 4) as usize;
    let pr = getu(packed_value as u64, 4, 0) as usize;

    (a, b, c, d, pb, pr)
}

} // verus!
