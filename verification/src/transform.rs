//! The 2x2 block transform of luma and the chroma block averages.
//!
//! Within a block holding luma `y1 y2 y3 y4` (top-left, top-right,
//! bottom-left, bottom-right), the forward transform takes the average `a`
//! and the three differences `b`, `c`, `d`; each is a quarter of a signed sum
//! of the four samples. The inverse recombines them by plain addition and
//! subtraction, so apart from the single rounding of the quarter it is exact:
//! [`lemma_transform_round_trip`] states the matrix identity.

use crate::color::{ypbpr_bounded, YPbPr, SAMPLE_BOUND};
use crate::fixed::{round_div, round_half_up};
use crate::grid::Block2x2;
use vstd::prelude::*;

verus! {

/// Four times coefficient `a`: the plain sum of the four luma samples.
pub open spec fn quad_a(y1: int, y2: int, y3: int, y4: int) -> int {
    y4 + y3 + y2 + y1
}

/// Four times coefficient `b`: bottom row minus top row.
pub open spec fn quad_b(y1: int, y2: int, y3: int, y4: int) -> int {
    y4 + y3 - y2 - y1
}

/// Four times coefficient `c`: right column minus left column.
pub open spec fn quad_c(y1: int, y2: int, y3: int, y4: int) -> int {
    y4 - y3 + y2 - y1
}

/// Four times coefficient `d`: main diagonal minus the other diagonal.
pub open spec fn quad_d(y1: int, y2: int, y3: int, y4: int) -> int {
    y4 - y3 - y2 + y1
}

/// The top-left luma recovered from the four coefficients.
pub open spec fn inv_y1(a: int, b: int, c: int, d: int) -> int {
    a - b - c + d
}

/// The top-right luma recovered from the four coefficients.
pub open spec fn inv_y2(a: int, b: int, c: int, d: int) -> int {
    a - b + c - d
}

/// The bottom-left luma recovered from the four coefficients.
pub open spec fn inv_y3(a: int, b: int, c: int, d: int) -> int {
    a + b - c - d
}

/// The bottom-right luma recovered from the four coefficients.
pub open spec fn inv_y4(a: int, b: int, c: int, d: int) -> int {
    a + b + c + d
}

/// The forward block transform followed by its inverse reproduces the four
/// luma samples exactly: applying the inverse rows to the quadrupled forward
/// coefficients yields each sample quadrupled, for every choice of samples.
/// Stated over the sums themselves, so that the quarter in the forward
/// transform introduces no rounding.
pub proof fn lemma_transform_round_trip(y1: int, y2: int, y3: int, y4: int)
    ensures
        inv_y1(
            quad_a(y1, y2, y3, y4),
            quad_b(y1, y2, y3, y4),
            quad_c(y1, y2, y3, y4),
            quad_d(y1, y2, y3, y4),
        ) == 4 * y1,
        inv_y2(
            quad_a(y1, y2, y3, y4),
            quad_b(y1, y2, y3, y4),
            quad_c(y1, y2, y3, y4),
            quad_d(y1, y2, y3, y4),
        ) == 4 * y2,
        inv_y3(
            quad_a(y1, y2, y3, y4),
            quad_b(y1, y2, y3, y4),
            quad_c(y1, y2, y3, y4),
            quad_d(y1, y2, y3, y4),
        ) == 4 * y3,
        inv_y4(
            quad_a(y1, y2, y3, y4),
            quad_b(y1, y2, y3, y4),
            quad_c(y1, y2, y3, y4),
            quad_d(y1, y2, y3, y4),
        ) == 4 * y4,
{
}

/// The forward transform of one block's luma: the average `a` and the three
/// difference coefficients `b`, `c`, `d`, each a quarter of a signed sum,
/// rounded half-up.
pub fn get_luminosity_coeffs(group: &Block2x2<YPbPr>) -> (r: (i64, i64, i64, i64))
    requires
        ypbpr_bounded(group.tl),
        ypbpr_bounded(group.tr),
        ypbpr_bounded(group.bl),
        ypbpr_bounded(group.br),
    ensures
        ({
            let y1 = group.tl.y as int;
            let y2 = group.tr.y as int;
            let y3 = group.bl.y as int;
            let y4 = group.br.y as int;
            &&& r.0 == round_half_up(quad_a(y1, y2, y3, y4), 4)
            &&& r.1 == round_half_up(quad_b(y1, y2, y3, y4), 4)
            &&& r.2 == round_half_up(quad_c(y1, y2, y3, y4), 4)
            &&& r.3 == round_half_up(quad_d(y1, y2, y3, y4), 4)
        }),
        -SAMPLE_BOUND <= r.0 <= SAMPLE_BOUND,
        -SAMPLE_BOUND <= r.1 <= SAMPLE_BOUND,
        -SAMPLE_BOUND <= r.2 <= SAMPLE_BOUND,
        -SAMPLE_BOUND <= r.3 <= SAMPLE_BOUND,
{
    let y1 = group.tl.y;
    let y2 = group.tr.y;
    let y3 = group.bl.y;
    let y4 = group.br.y;

    proof {
        crate::fixed::lemma_round_half_up_bounds(quad_a(y1 as int, y2 as int, y3 as int, y4 as int), 4, SAMPLE_BOUND as int);
        crate::fixed::lemma_round_half_up_bounds(quad_b(y1 as int, y2 as int, y3 as int, y4 as int), 4, SAMPLE_BOUND as int);
        crate::fixed::lemma_round_half_up_bounds(quad_c(y1 as int, y2 as int, y3 as int, y4 as int), 4, SAMPLE_BOUND as int);
        crate::fixed::lemma_round_half_up_bounds(quad_d(y1 as int, y2 as int, y3 as int, y4 as int), 4, SAMPLE_BOUND as int);
    }
    let a = round_div(y4 + y3 + y2 + y1, 4);
    let b = round_div(y4 + y3 - y2 - y1, 4);
    let c = round_div(y4 - y3 + y2 - y1, 4);
    let d = round_div(y4 - y3 - y2 + y1, 4);

    (a, b, c, d)
}

/// The mean chroma of one block: the averages of the four `pb` and of the
/// four `pr` samples, each rounded half-up. This 4:1 chroma subsampling is
/// one of the codec's two sources of loss.
pub fn average_pbpr(group: &Block2x2<YPbPr>) -> (r: (i64, i64))
    requires
        ypbpr_bounded(group.tl),
        ypbpr_bounded(group.tr),
        ypbpr_bounded(group.bl),
        ypbpr_bounded(group.br),
    ensures
        r.0 == round_half_up(
            group.tl.pb + group.tr.pb + group.bl.pb + group.br.pb,
            4,
        ),
        r.1 == round_half_up(
            group.tl.pr + group.tr.pr + group.bl.pr + group.br.pr,
            4,
        ),
        -SAMPLE_BOUND <= r.0 <= SAMPLE_BOUND,
        -SAMPLE_BOUND <= r.1 <= SAMPLE_BOUND,
{
    proof {
        crate::fixed::lemma_round_half_up_bounds(
            group.tl.pb + group.tr.pb + group.bl.pb + group.br.pb,
            4,
            SAMPLE_BOUND as int,
        );
        crate::fixed::lemma_round_half_up_bounds(
            group.tl.pr + group.tr.pr + group.bl.pr + group.br.pr,
            4,
            SAMPLE_BOUND as int,
        );
    }
    let pb = round_div(group.tl.pb + group.tr.pb + group.bl.pb + group.br.pb, 4);
    let pr = round_div(group.tl.pr + group.tr.pr + group.bl.pr + group.br.pr, 4);
    (pb, pr)
}

/// The inverse block transform on fixed-point coefficients: plain signed
/// sums, exact.
pub fn reverse_luminosity_coeffs_fixed(a: i64, b: i64, c: i64, d: i64) -> (r: (i64, i64, i64, i64))
    requires
        -SAMPLE_BOUND <= a <= SAMPLE_BOUND,
        -SAMPLE_BOUND <= b <= SAMPLE_BOUND,
        -SAMPLE_BOUND <= c <= SAMPLE_BOUND,
        -SAMPLE_BOUND <= d <= SAMPLE_BOUND,
    ensures
        r.0 == inv_y1(a as int, b as int, c as int, d as int),
        r.1 == inv_y2(a as int, b as int, c as int, d as int),
        r.2 == inv_y3(a as int, b as int, c as int, d as int),
        r.3 == inv_y4(a as int, b as int, c as int, d as int),
{
    let y1 = a - b - c + d;
    let y2 = a - b + c - d;
    let y3 = a + b - c - d;
    let y4 = a + b + c + d;

    (y1, y2, y3, y4)
}

/// The inverse block transform on quantized integer codes, as unpacked from
/// a codeword: the same signed sums, with the average reading unsigned.
pub fn reverse_luminosity_coeffs(a: u32, b: i32, c: i32, d: i32) -> (r: (u32, i32, i32, i32))
    requires
        a <= 0x1000_0000,
        -0x1000_0000 <= b <= 0x1000_0000,
        -0x1000_0000 <= c <= 0x1000_0000,
        -0x1000_0000 <= d <= 0x1000_0000,
        inv_y1(a as int, b as int, c as int, d as int) >= 0,
    ensures
        r.0 == inv_y1(a as int, b as int, c as int, d as int),
        r.1 == inv_y2(a as int, b as int, c as int, d as int),
        r.2 == inv_y3(a as int, b as int, c as int, d as int),
        r.3 == inv_y4(a as int, b as int, c as int, d as int),
{
    let y1 = a as i32 - b - c + d;
    let y2 = a as i32 - b + c - d;
    let y3 = a as i32 + b - c - d;
    let y4 = a as i32 + b + c + d;

    (y1 as u32, y2, y3, y4)
}

} // verus!
