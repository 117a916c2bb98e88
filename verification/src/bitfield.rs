//! Signed and unsigned bit fields over a 64-bit word.
//!
//! A field is `width` bits starting at the least-significant bit `lsb`, with
//! `1 <= width <= 64` and `lsb + width <= 64`. Its unsigned value is the
//! arithmetic quantity `(word / 2^lsb) % 2^width`; its signed value is the
//! two's-complement reading of the same bits. Writing a field leaves every
//! bit outside the span untouched and fails, rather than truncating, when the
//! value does not fit the declared width.

use vstd::arithmetic::power2::{
    lemma2_to64, lemma2_to64_rest, lemma_pow2_adds, lemma_pow2_pos, lemma_pow2_strictly_increases,
    pow2,
};
use vstd::bits::{
    lemma_u64_low_bits_mask_is_mod, lemma_u64_shl_is_mul, lemma_u64_shr_is_div,
    low_bits_mask,
};
use vstd::prelude::*;

verus! {

/// A field spans `width` bits of a 64-bit word starting at bit `lsb`.
pub open spec fn span_ok(width: u64, lsb: u64) -> bool {
    1 <= width <= 64 && lsb + width <= 64
}

/// True iff `n` is representable in `width` unsigned bits.
pub open spec fn fits_unsigned(n: u64, width: u64) -> bool {
    (n as nat) < pow2(width as nat)
}

/// True iff `n` is representable in `width`-bit two's complement.
pub open spec fn fits_signed(n: i64, width: u64) -> bool
    recommends
        1 <= width <= 64,
{
    -(pow2((width - 1) as nat) as int) <= n as int && n < pow2((width - 1) as nat) as int
}

/// The unsigned value of the field: the bits at `lsb .. lsb + width`, read as
/// a plain binary number.
pub open spec fn unsigned_field(word: u64, width: u64, lsb: u64) -> u64
    recommends
        span_ok(width, lsb),
{
    (((word as nat) / pow2(lsb as nat)) % pow2(width as nat)) as u64
}

/// The signed value of the field: the same bits read as `width`-bit two's
/// complement, so `2^width` below the unsigned reading when the top bit of
/// the field is set.
pub open spec fn signed_field(word: u64, width: u64, lsb: u64) -> int
    recommends
        span_ok(width, lsb),
{
    let u = unsigned_field(word, width, lsb);
    if (u as nat) < pow2((width - 1) as nat) {
        u as int
    } else {
        u - pow2(width as nat)
    }
}

/// The `width`-bit two's-complement bit pattern of a fitting signed value.
pub open spec fn signed_pattern(n: i64, width: u64) -> u64
    recommends
        1 <= width <= 64,
        fits_signed(n, width),
{
    if n >= 0 {
        n as u64
    } else {
        (n + pow2(width as nat)) as u64
    }
}

/// Mask with the low `width` bits set.
pub open spec fn mask_bits(width: u64) -> u64
    recommends
        1 <= width <= 64,
{
    u64::MAX >> ((64 - width) as u64)
}

proof fn lemma_mask_bits(width: u64)
    requires
        1 <= width <= 64,
    ensures
        mask_bits(width) as nat == low_bits_mask(width as nat),
        mask_bits(width) as int + 1 == pow2(width as nat),
{
    lemma2_to64();
    lemma2_to64_rest();
    if width == 64 {
        assert(u64::MAX >> 0u64 == u64::MAX) by (bit_vector);
    } else {
        let s = (64 - width) as u64;
        assert(u64::MAX >> s == (1u64 << ((64 - s) as u64)) - 1) by (bit_vector)
            requires
                1 <= s < 64,
        ;
        lemma_pow2_strictly_increases(width as nat, 64);
        lemma_u64_shl_is_mul(1u64, width);
    }
}

/// `1 << (width - 1)` is the weight of the field's top bit.
proof fn lemma_half_bit(width: u64)
    requires
        1 <= width <= 64,
    ensures
        1u64 << ((width - 1) as u64) == pow2((width - 1) as nat),
        pow2((width - 1) as nat) * 2 == pow2(width as nat),
{
    lemma_pow2_adds((width - 1) as nat, 1);
    lemma2_to64();
    if width == 64 {
        assert(1u64 << 63u64 == 0x8000_0000_0000_0000u64) by (bit_vector);
        lemma2_to64_rest();
    } else {
        lemma_pow2_strictly_increases((width - 1) as nat, 63);
        lemma2_to64_rest();
        lemma_u64_shl_is_mul(1u64, (width - 1) as u64);
    }
}

/// Extracting with shift and mask yields the arithmetic field value.
proof fn lemma_extract_is_field(word: u64, width: u64, lsb: u64)
    requires
        span_ok(width, lsb),
    ensures
        (word >> lsb) & mask_bits(width) == unsigned_field(word, width, lsb),
        unsigned_field(word, width, lsb) <= mask_bits(width),
{
    lemma_mask_bits(width);
    lemma_u64_shr_is_div(word, lsb);
    lemma_pow2_pos(width as nat);
    lemma_pow2_pos(lsb as nat);
    if width == 64 {
        lemma2_to64();
        lemma2_to64_rest();
        assert(lsb == 0);
        assert(word >> 0u64 == word) by (bit_vector);
        assert(word & 0xffff_ffff_ffff_ffffu64 == word) by (bit_vector);
        vstd::arithmetic::div_mod::lemma_div_basics(word as int);
        vstd::arithmetic::div_mod::lemma_small_mod(word as nat, pow2(64));
    } else {
        lemma_pow2_strictly_increases(width as nat, 64);
        lemma2_to64_rest();
        lemma_u64_low_bits_mask_is_mod(word >> lsb, width as nat);
    }
}

/// Returns true iff the signed value `n` fits into `width` signed bits.
pub fn fitss(n: i64, width: u64) -> (r: bool)
    requires
        1 <= width <= 64,
    ensures
        r == fits_signed(n, width),
{
    proof {
        lemma_half_bit(width);
        lemma_pow2_pos((width - 1) as nat);
    }
    let half: u64 = 1u64 << (width - 1);
    if n >= 0 {
        (n as u64) < half
    } else {
        // -n would overflow at i64::MIN; -(n + 1) never does.
        let neg_minus_one: u64 = (-(n + 1)) as u64;
        neg_minus_one < half
    }
}

/// Returns true iff the unsigned value `n` fits into `width` unsigned bits.
pub fn fitsu(n: u64, width: u64) -> (r: bool)
    requires
        1 <= width <= 64,
    ensures
        r == fits_unsigned(n, width),
{
    let mask: u64 = u64::MAX >> (64 - width);
    proof {
        lemma_mask_bits(width);
    }
    n <= mask
}

/// Two spans of bits do not overlap.
pub open spec fn spans_disjoint(width: u64, lsb: u64, width2: u64, lsb2: u64) -> bool {
    lsb2 + width2 <= lsb || lsb + width <= lsb2
}

/// Retrieve the unsigned value of the `width`-bit field of `word` starting at
/// least-significant bit `lsb`.
pub fn getu(word: u64, width: u64, lsb: u64) -> (r: u64)
    requires
        span_ok(width, lsb),
    ensures
        r == unsigned_field(word, width, lsb),
        fits_unsigned(r, width),
{
    let mask: u64 = u64::MAX >> (64 - width);
    proof {
        lemma_mask_bits(width);
        lemma_extract_is_field(word, width, lsb);
    }
    (word >> lsb) & mask
}

/// Retrieve the signed value of the `width`-bit field of `word` starting at
/// least-significant bit `lsb`: the field's bits, sign-extended.
pub fn gets(word: u64, width: u64, lsb: u64) -> (r: i64)
    requires
        span_ok(width, lsb),
    ensures
        r == signed_field(word, width, lsb),
        fits_signed(r, width),
{
    let u = getu(word, width, lsb);
    let mask: u64 = u64::MAX >> (64 - width);
    let half: u64 = 1u64 << (width - 1);
    proof {
        lemma_mask_bits(width);
        lemma_half_bit(width);
        lemma_pow2_pos((width - 1) as nat);
    }
    if u < half {
        u as i64
    } else {
        // u - 2^width, computed without leaving the i64 range.
        -((mask - u) as i64) - 1
    }
}

/// `word` with the `width`-bit field at `lsb` replaced by the low `width`
/// bits of `value`: the span is cleared and the value written into it.
pub open spec fn word_with_field(word: u64, width: u64, lsb: u64, value: u64) -> u64
    recommends
        span_ok(width, lsb),
{
    (word & !(mask_bits(width) << lsb)) | ((value & mask_bits(width)) << lsb)
}

/// Storing a fitting value into a span writes exactly that value into the
/// field and leaves every disjoint span unchanged.
proof fn lemma_store_field(word: u64, width: u64, lsb: u64, value: u64)
    requires
        span_ok(width, lsb),
        fits_unsigned(value, width),
    ensures
        unsigned_field(word_with_field(word, width, lsb, value), width, lsb) == value,
        forall|width2: u64, lsb2: u64|
            span_ok(width2, lsb2) && spans_disjoint(width, lsb, width2, lsb2)
                ==> #[trigger] unsigned_field(word_with_field(word, width, lsb, value), width2, lsb2)
                == unsigned_field(word, width2, lsb2),
{
    let mask = mask_bits(width);
    lemma_mask_bits(width);
    let packed = word_with_field(word, width, lsb, value);
    lemma_extract_is_field(packed, width, lsb);
    assert(((word & !(mask << lsb)) | ((value & mask) << lsb)) >> lsb & mask == value)
        by (bit_vector)
        requires
            1 <= width <= 64,
            lsb + width <= 64,
            mask == u64::MAX >> ((64 - width) as u64),
            value <= mask,
    ;
    assert forall|width2: u64, lsb2: u64|
        span_ok(width2, lsb2) && spans_disjoint(width, lsb, width2, lsb2)
        implies unsigned_field(packed, width2, lsb2) == unsigned_field(word, width2, lsb2) by {
        lemma_extract_is_field(packed, width2, lsb2);
        lemma_extract_is_field(word, width2, lsb2);
        let mask2 = mask_bits(width2);
        assert(((word & !(mask << lsb)) | ((value & mask) << lsb)) >> lsb2 & mask2 == word >> lsb2
            & mask2) by (bit_vector)
            requires
                1 <= width <= 64,
                lsb + width <= 64,
                1 <= width2 <= 64,
                lsb2 + width2 <= 64,
                lsb2 + width2 <= lsb || lsb + width <= lsb2,
                mask == u64::MAX >> ((64 - width) as u64),
                mask2 == u64::MAX >> ((64 - width2) as u64),
                value <= mask,
        ;
    }
}

/// Writing a fitting unsigned value into any span of any word and reading
/// the same span back yields the value unchanged.
pub proof fn lemma_unsigned_round_trip(word: u64, width: u64, lsb: u64, value: u64)
    requires
        span_ok(width, lsb),
        fits_unsigned(value, width),
    ensures
        unsigned_field(word_with_field(word, width, lsb, value), width, lsb) == value,
{
    lemma_store_field(word, width, lsb, value);
}

/// Writing the two's-complement pattern of a fitting signed value into any
/// span of any word and reading the same span back, sign-extended, yields
/// the value unchanged.
pub proof fn lemma_signed_round_trip(word: u64, width: u64, lsb: u64, value: i64)
    requires
        span_ok(width, lsb),
        fits_signed(value, width),
    ensures
        signed_field(
            word_with_field(word, width, lsb, signed_pattern(value, width)),
            width,
            lsb,
        ) == value,
{
    lemma_mask_bits(width);
    lemma_half_bit(width);
    lemma_pow2_pos((width - 1) as nat);
    lemma_store_field(word, width, lsb, signed_pattern(value, width));
    if value < 0 {
        assert((signed_pattern(value, width) as nat) >= pow2((width - 1) as nat));
    }
}

/// Return `word` with the `width`-bit field at `lsb` holding the unsigned
/// `value`, or `None` iff the value does not fit in `width` unsigned bits.
/// The field of the new word reads back exactly `value`, and every bit
/// outside the span keeps its old value: any field of a disjoint span reads
/// the same before and after.
pub fn newu(word: u64, width: u64, lsb: u64, value: u64) -> (r: Option<u64>)
    requires
        span_ok(width, lsb),
    ensures
        r is Some <==> fits_unsigned(value, width),
        r matches Some(w) ==> w == word_with_field(word, width, lsb, value),
        r matches Some(w) ==> unsigned_field(w, width, lsb) == value,
        r matches Some(w) ==> forall|width2: u64, lsb2: u64|
            span_ok(width2, lsb2) && spans_disjoint(width, lsb, width2, lsb2)
                ==> #[trigger] unsigned_field(w, width2, lsb2) == unsigned_field(
                word,
                width2,
                lsb2,
            ),
{
    let mask: u64 = u64::MAX >> (64 - width);
    proof {
        lemma_mask_bits(width);
    }
    if value <= mask {
        let packed: u64 = (word & !(mask << lsb)) | ((value & mask) << lsb);
        proof {
            lemma_store_field(word, width, lsb, value);
        }
        Some(packed)
    } else {
        None
    }
}

/// Return `word` with the `width`-bit field at `lsb` holding the
/// two's-complement pattern of the signed `value`, or `None` iff the value
/// does not fit in `width` signed bits. The field of the new word reads back
/// exactly `value`, and bits outside the span are untouched, as in [`newu`].
pub fn news(word: u64, width: u64, lsb: u64, value: i64) -> (r: Option<u64>)
    requires
        span_ok(width, lsb),
    ensures
        r is Some <==> fits_signed(value, width),
        r matches Some(w) ==> w == word_with_field(word, width, lsb, signed_pattern(value, width)),
        r matches Some(w) ==> signed_field(w, width, lsb) == value,
        r matches Some(w) ==> forall|width2: u64, lsb2: u64|
            span_ok(width2, lsb2) && spans_disjoint(width, lsb, width2, lsb2)
                ==> #[trigger] unsigned_field(w, width2, lsb2) == unsigned_field(
                word,
                width2,
                lsb2,
            ),
{
    proof {
        lemma_mask_bits(width);
        lemma_half_bit(width);
        lemma_pow2_pos((width - 1) as nat);
    }
    if !fitss(value, width) {
        return None;
    }
    let mask: u64 = u64::MAX >> (64 - width);
    let pattern: u64 = if value >= 0 {
        value as u64
    } else {
        // value + 2^width, computed without leaving the u64 range.
        mask - ((-(value + 1)) as u64)
    };
    let r = newu(word, width, lsb, pattern);
    proof {
        assert(pattern == signed_pattern(value, width));
        assert(fits_unsigned(pattern, width));
        lemma_signed_round_trip(word, width, lsb, value);
    }
    r
}

} // verus!
