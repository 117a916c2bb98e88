//! The codec pipeline on whole blocks and codeword streams.
//!
//! Compression quantizes each transformed block and packs it into one
//! codeword; the stream carries one big-endian 32-bit word per 2x2 block.
//! Decompression validates the word count against the declared dimensions,
//! unpacks each word and undoes quantization and the luma transform. Chroma
//! averages travel as fixed-point values: turning them into table indices
//! and back belongs to the chroma-table collaborator outside this library.

use crate::codeword::{bitpack, block_fits, codeword_fields, unpack_bits};
use crate::color::{
    blue_of, denormalized, from_rgb_fixed, from_ypbpr, green_of, luma_of, normalized, pb_of,
    pr_of, red_of, to_rgb_fixed, to_ypbpr, ypbpr_bounded, Rgb, YPbPr,
};
use crate::fixed::{lemma_round_half_up_bounds, round_half_up};
use crate::grid::{scatter_2x2, scattered_cell, Block2x2, Grid};
use crate::quantize::{
    decodes, decodeu, encodes, encodeu, quantized_signed, quantized_unsigned, smax_spec,
};
use crate::transform::{
    average_pbpr, get_luminosity_coeffs, inv_y1, inv_y2, inv_y3, inv_y4, quad_a, quad_b, quad_c,
    quad_d, reverse_luminosity_coeffs_fixed,
};
use vstd::arithmetic::power2::lemma2_to64;
use vstd::prelude::*;

verus! {

/// Bits of the unsigned luma average in a codeword.
pub const LUMA_DC_BITS: u32 = 9;

/// Bits of each signed luma difference in a codeword.
pub const LUMA_AC_BITS: u32 = 5;

/// The quantizer's saturation limit for luma coefficients: `0.3`, in
/// millionths.
pub const QUANT_LIMIT: i64 = 300_000;

/// One block after transform and quantization: integer luma codes, and the
/// two chroma averages still as fixed-point values awaiting the chroma
/// table.
#[derive(Clone, Copy, Debug, PartialEq, Eq, Structural)]
pub struct QuantizedBlock {
    pub a: u32,
    pub b: i32,
    pub c: i32,
    pub d: i32,
    pub pb_avg: i64,
    pub pr_avg: i64,
}

/// One block ready for packing: the luma codes and the two chroma table
/// indices.
#[derive(Clone, Copy, Debug, PartialEq, Eq, Structural)]
pub struct CodedBlock {
    pub a: u32,
    pub b: i32,
    pub c: i32,
    pub d: i32,
    pub pb_index: u32,
    pub pr_index: u32,
}

/// `q` is the block `g` transformed and quantized: luma codes from the
/// quartered signed sums under the codec's widths and limit, chroma averages
/// exact.
pub open spec fn quantized_block_ok(q: QuantizedBlock, g: Block2x2<YPbPr>) -> bool {
    let y1 = g.tl.y as int;
    let y2 = g.tr.y as int;
    let y3 = g.bl.y as int;
    let y4 = g.br.y as int;
    &&& q.a == quantized_unsigned(
        round_half_up(quad_a(y1, y2, y3, y4), 4),
        LUMA_DC_BITS,
        QUANT_LIMIT as int,
    )
    &&& q.b == quantized_signed(
        round_half_up(quad_b(y1, y2, y3, y4), 4),
        LUMA_AC_BITS,
        QUANT_LIMIT as int,
    )
    &&& q.c == quantized_signed(
        round_half_up(quad_c(y1, y2, y3, y4), 4),
        LUMA_AC_BITS,
        QUANT_LIMIT as int,
    )
    &&& q.d == quantized_signed(
        round_half_up(quad_d(y1, y2, y3, y4), 4),
        LUMA_AC_BITS,
        QUANT_LIMIT as int,
    )
    &&& q.pb_avg == round_half_up(g.tl.pb + g.tr.pb + g.bl.pb + g.br.pb, 4)
    &&& q.pr_avg == round_half_up(g.tl.pr + g.tr.pr + g.bl.pr + g.br.pr, 4)
    &&& q.a <= 255
    &&& -15 <= q.b <= 15
    &&& -15 <= q.c <= 15
    &&& -15 <= q.d <= 15
}

/// Transform and quantize one block: luma through the 2x2 transform and the
/// fixed-width quantizers, chroma averaged. Saturation keeps every luma code
/// within its codeword field.
pub fn quantize_block(group: &Block2x2<YPbPr>) -> (q: QuantizedBlock)
    requires
        ypbpr_bounded(group.tl),
        ypbpr_bounded(group.tr),
        ypbpr_bounded(group.bl),
        ypbpr_bounded(group.br),
    ensures
        quantized_block_ok(q, *group),
{
    proof {
        lemma2_to64();
    }
    let (ca, cb, cc, cd) = get_luminosity_coeffs(group);
    let (pb_avg, pr_avg) = average_pbpr(group);
    QuantizedBlock {
        a: encodeu(ca, LUMA_DC_BITS, QUANT_LIMIT),
        b: encodes(cb, LUMA_AC_BITS, QUANT_LIMIT),
        c: encodes(cc, LUMA_AC_BITS, QUANT_LIMIT),
        d: encodes(cd, LUMA_AC_BITS, QUANT_LIMIT),
        pb_avg,
        pr_avg,
    }
}

/// Transform and quantize every block of a compressed image, in block order.
pub fn quantize_blocks(blocks: &Vec<Block2x2<YPbPr>>) -> (r: Vec<QuantizedBlock>)
    requires
        forall|i: int|
            0 <= i < blocks.len() ==> {
                let g = #[trigger] blocks[i];
                ypbpr_bounded(g.tl) && ypbpr_bounded(g.tr) && ypbpr_bounded(g.bl)
                    && ypbpr_bounded(g.br)
            },
    ensures
        r.len() == blocks.len(),
        forall|i: int| 0 <= i < blocks.len() ==> quantized_block_ok(#[trigger] r[i], blocks[i]),
{
    let mut out: Vec<QuantizedBlock> = Vec::new();
    let mut i: usize = 0;
    while i < blocks.len()
        invariant
            forall|j: int|
                0 <= j < blocks.len() ==> {
                    let g = #[trigger] blocks[j];
                    ypbpr_bounded(g.tl) && ypbpr_bounded(g.tr) && ypbpr_bounded(g.bl)
                        && ypbpr_bounded(g.br)
                },
            i <= blocks.len(),
            out.len() == i,
            forall|j: int| 0 <= j < i ==> quantized_block_ok(#[trigger] out[j], blocks[j]),
        decreases blocks.len() - i,
    {
        let q = quantize_block(&blocks[i]);
        out.push(q);
        i += 1;
    }
    out
}

/// Pack every coded block into its codeword, in block order; `None` iff some
/// field of some block does not fit its declared width — which quantizer
/// saturation rules out, but the packer checks rather than trusts.
pub fn pack_codewords(blocks: &Vec<CodedBlock>) -> (r: Option<Vec<u32>>)
    ensures
        r is Some <==> forall|i: int|
            0 <= i < blocks.len() ==> {
                let q = #[trigger] blocks[i];
                block_fits(q.a, q.b, q.c, q.d, q.pb_index, q.pr_index)
            },
        r matches Some(ws) ==> {
            &&& ws.len() == blocks.len()
            &&& forall|i: int|
                0 <= i < blocks.len() ==> {
                    let q = blocks[i];
                    codeword_fields(#[trigger] ws[i]) == (
                        q.a as u64,
                        q.b as int,
                        q.c as int,
                        q.d as int,
                        q.pb_index as u64,
                        q.pr_index as u64,
                    )
                }
        },
{
    let mut out: Vec<u32> = Vec::new();
    let mut i: usize = 0;
    while i < blocks.len()
        invariant
            i <= blocks.len(),
            out.len() == i,
            forall|j: int|
                0 <= j < i ==> {
                    let q = #[trigger] blocks[j];
                    block_fits(q.a, q.b, q.c, q.d, q.pb_index, q.pr_index)
                },
            forall|j: int|
                0 <= j < i ==> {
                    let q = blocks[j];
                    codeword_fields(#[trigger] out[j]) == (
                        q.a as u64,
                        q.b as int,
                        q.c as int,
                        q.d as int,
                        q.pb_index as u64,
                        q.pr_index as u64,
                    )
                },
        decreases blocks.len() - i,
    {
        let q = blocks[i];
        let w = match bitpack(q.a, q.b, q.c, q.d, q.pb_index, q.pr_index) {
            Some(w) => w,
            None => {
                return None;
            },
        };
        out.push(w);
        i += 1;
    }
    Some(out)
}

/// Codewords a stream of the declared dimensions must hold: one per 2x2
/// block of the image trimmed to even dimensions.
pub open spec fn expected_word_count(width: int, height: int) -> int
    recommends
        width >= 0,
        height >= 0,
{
    ((width + 1) / 2) * ((height + 1) / 2)
}

/// For even dimensions the expected word count is exactly one word per
/// block, and halving then doubling the dimensions gives them back: the
/// decoded raster of a compressed image has the compressed image's
/// dimensions.
pub proof fn lemma_even_dimensions_round_trip(w: int, h: int)
    requires
        w >= 0,
        h >= 0,
        w % 2 == 0,
        h % 2 == 0,
    ensures
        expected_word_count(w, h) == (w / 2) * (h / 2),
        2 * (w / 2) == w,
        2 * (h / 2) == h,
{
    assert((w + 1) / 2 == w / 2 && (h + 1) / 2 == h / 2);
}

/// Unpack a codeword stream for an image of the declared dimensions; `None`
/// iff the word count is not one per 2x2 block — a malformed stream. Every
/// word splits into the six fields of [`codeword_fields`].
pub fn unpack_codewords(words: &Vec<u32>, width: usize, height: usize) -> (r: Option<
    Vec<(u32, i32, i32, i32, usize, usize)>,
>)
    ensures
        r is Some <==> words.len() == expected_word_count(width as int, height as int),
        r matches Some(v) ==> {
            &&& v.len() == words.len()
            &&& forall|i: int|
                0 <= i < words.len() ==> {
                    let t = #[trigger] v[i];
                    (t.0 as u64, t.1 as int, t.2 as int, t.3 as int, t.4 as u64, t.5 as u64)
                        == codeword_fields(words[i])
                }
        },
{
    let bw = width / 2 + width % 2;
    let bh = height / 2 + height % 2;
    let expected = match bw.checked_mul(bh) {
        Some(n) => n,
        None => {
            proof {
                assert(words.len() < (bw as int) * (bh as int));
            }
            return None;
        },
    };
    if words.len() != expected {
        return None;
    }
    let mut out: Vec<(u32, i32, i32, i32, usize, usize)> = Vec::new();
    let mut i: usize = 0;
    while i < words.len()
        invariant
            i <= words.len(),
            out.len() == i,
            forall|j: int|
                0 <= j < i ==> {
                    let t = #[trigger] out[j];
                    (t.0 as u64, t.1 as int, t.2 as int, t.3 as int, t.4 as u64, t.5 as u64)
                        == codeword_fields(words[j])
                },
        decreases words.len() - i,
    {
        let t = unpack_bits(words[i]);
        out.push(t);
        i += 1;
    }
    Some(out)
}

/// Undo quantization and the luma transform for one unpacked block: the four
/// luma codes become fixed-point coefficients, which the inverse transform
/// recombines into the block's four luma samples.
pub fn decode_block_luma(a: u32, b: i32, c: i32, d: i32) -> (r: (i64, i64, i64, i64))
    requires
        a < 512,
        -16 <= b <= 15,
        -16 <= c <= 15,
        -16 <= d <= 15,
    ensures
        ({
            let am = round_half_up(a * (QUANT_LIMIT as int), smax_spec(LUMA_DC_BITS));
            let bm = round_half_up(b * (QUANT_LIMIT as int), smax_spec(LUMA_AC_BITS));
            let cm = round_half_up(c * (QUANT_LIMIT as int), smax_spec(LUMA_AC_BITS));
            let dm = round_half_up(d * (QUANT_LIMIT as int), smax_spec(LUMA_AC_BITS));
            &&& r.0 == inv_y1(am, bm, cm, dm)
            &&& r.1 == inv_y2(am, bm, cm, dm)
            &&& r.2 == inv_y3(am, bm, cm, dm)
            &&& r.3 == inv_y4(am, bm, cm, dm)
        }),
        -2_000_000 <= r.0 <= 2_000_000,
        -2_000_000 <= r.1 <= 2_000_000,
        -2_000_000 <= r.2 <= 2_000_000,
        -2_000_000 <= r.3 <= 2_000_000,
{
    proof {
        lemma2_to64();
    }
    let am = decodeu(a, LUMA_DC_BITS, QUANT_LIMIT);
    let bm = decodes(b, LUMA_AC_BITS, QUANT_LIMIT);
    let cm = decodes(c, LUMA_AC_BITS, QUANT_LIMIT);
    let dm = decodes(d, LUMA_AC_BITS, QUANT_LIMIT);
    proof {
        lemma_round_half_up_bounds(a * (QUANT_LIMIT as int), 255, 610_000);
        lemma_round_half_up_bounds(b * (QUANT_LIMIT as int), 15, 330_000);
        lemma_round_half_up_bounds(c * (QUANT_LIMIT as int), 15, 330_000);
        lemma_round_half_up_bounds(d * (QUANT_LIMIT as int), 15, 330_000);
    }
    reverse_luminosity_coeffs_fixed(am, bm, cm, dm)
}

/// The component-video sample of one integer pixel: each channel normalized
/// by the denominator, then the forward color matrix.
pub open spec fn sample_of_pixel(p: Rgb, den: int) -> YPbPr
    recommends
        den >= 1,
{
    let r = normalized(p.red as int, den);
    let g = normalized(p.green as int, den);
    let b = normalized(p.blue as int, den);
    YPbPr {
        y: luma_of(r, g, b) as i64,
        pb: pb_of(r, g, b) as i64,
        pr: pr_of(r, g, b) as i64,
    }
}

/// The integer pixel of one component-video sample: the inverse color
/// matrix, then each channel scaled to the denominator and clamped.
pub open spec fn pixel_of_sample(s: YPbPr, den: int) -> Rgb
    recommends
        den >= 1,
{
    Rgb {
        red: denormalized(red_of(s.y as int, s.pb as int, s.pr as int), den) as u16,
        green: denormalized(green_of(s.y as int, s.pb as int, s.pr as int), den) as u16,
        blue: denormalized(blue_of(s.y as int, s.pb as int, s.pr as int), den) as u16,
    }
}

/// The compression front: trim the raster to even dimensions, normalize,
/// recode as component video, gather 2x2 blocks and quantize each. Returns
/// the quantized blocks in row-major block order with the trimmed pixel
/// dimensions — what the stream header carries. Only the chroma table lookup
/// and the packing of codewords remain.
pub fn compress_to_quantized(pixels: &Grid<Rgb>, denominator: u16) -> (r: (
    Vec<QuantizedBlock>,
    usize,
    usize,
))
    requires
        pixels.wf(),
        denominator >= 1,
        forall|x: int, y: int|
            0 <= x < pixels.spec_width() && 0 <= y < pixels.spec_height() ==> {
                let c = #[trigger] pixels.at(x, y);
                c.red <= denominator && c.green <= denominator && c.blue <= denominator
            },
    ensures
        r.1 == pixels.spec_width() - pixels.spec_width() % 2,
        r.2 == pixels.spec_height() - pixels.spec_height() % 2,
        r.0.len() == ((r.1 as int) / 2) * ((r.2 as int) / 2),
        forall|bx: int, by: int|
            0 <= bx < (r.1 as int) / 2 && 0 <= by < (r.2 as int) / 2 ==> quantized_block_ok(
                #[trigger] r.0[by * ((r.1 as int) / 2) + bx],
                (Block2x2 {
                    tl: sample_of_pixel(pixels.at(2 * bx, 2 * by), denominator as int),
                    tr: sample_of_pixel(pixels.at(2 * bx + 1, 2 * by), denominator as int),
                    bl: sample_of_pixel(pixels.at(2 * bx, 2 * by + 1), denominator as int),
                    br: sample_of_pixel(pixels.at(2 * bx + 1, 2 * by + 1), denominator as int),
                }),
            ),
{
    let trimmed = pixels.trim_to_even_dimensions();
    let width = trimmed.width();
    let height = trimmed.height();
    let fixed = to_rgb_fixed(&trimmed, denominator);
    let samples = to_ypbpr(&fixed);
    proof {
        assert forall|x: int, y: int|
            0 <= x < samples.spec_width() && 0 <= y < samples.spec_height() implies #[trigger]
        samples.at(x, y) == sample_of_pixel(pixels.at(x, y), denominator as int) by {
            assert(trimmed.at(x, y) == pixels.at(x, y));
            assert(crate::color::rgb_fixed_ok(fixed.at(x, y), trimmed.at(x, y), denominator as int));
            assert(crate::color::ypbpr_ok(samples.at(x, y), fixed.at(x, y)));
        }
    }
    let blocks = samples.group_2x2();
    proof {
        let bw = (width as int) / 2;
        let bh = (height as int) / 2;
        assert forall|i: int| 0 <= i < blocks.len() implies {
            let g = #[trigger] blocks[i];
            ypbpr_bounded(g.tl) && ypbpr_bounded(g.tr) && ypbpr_bounded(g.bl) && ypbpr_bounded(
                g.br,
            )
        } by {
            assert(bw >= 1) by (nonlinear_arith)
                requires
                    0 <= i < bw * bh,
                    bw >= 0,
            ;
            let bx = i % bw;
            let by = i / bw;
            vstd::arithmetic::div_mod::lemma_fundamental_div_mod(i, bw);
            vstd::arithmetic::div_mod::lemma_mod_pos_bound(i, bw);
            assert(by < bh) by (nonlinear_arith)
                requires
                    i < bw * bh,
                    i == bw * by + bx,
                    0 <= bx < bw,
            ;
            assert(by >= 0) by (nonlinear_arith)
                requires
                    i >= 0,
                    i == bw * by + bx,
                    0 <= bx < bw,
            ;
            assert(by * bw + bx == i) by (nonlinear_arith)
                requires
                    i == bw * by + bx,
            ;
            assert(blocks[by * bw + bx].tl == samples.at(2 * bx, 2 * by));
        }
    }
    let quantized = quantize_blocks(&blocks);
    proof {
        let bw = (width as int) / 2;
        let bh = (height as int) / 2;
        assert forall|bx: int, by: int| 0 <= bx < bw && 0 <= by < bh implies quantized_block_ok(
            #[trigger] quantized[by * bw + bx],
            (Block2x2 {
                tl: sample_of_pixel(pixels.at(2 * bx, 2 * by), denominator as int),
                tr: sample_of_pixel(pixels.at(2 * bx + 1, 2 * by), denominator as int),
                bl: sample_of_pixel(pixels.at(2 * bx, 2 * by + 1), denominator as int),
                br: sample_of_pixel(pixels.at(2 * bx + 1, 2 * by + 1), denominator as int),
            }),
        ) by {
            crate::grid::lemma_row_major_order(bx, by, 0, bh, bw);
            assert(bh * bw == bw * bh) by (nonlinear_arith);
            assert(blocks[by * bw + bx].tl == samples.at(2 * bx, 2 * by));
        }
    }
    (quantized, width, height)
}

/// The decompression back end: scatter the reconstructed sample blocks into
/// the raster, undo the color transform and scale each channel back to the
/// denominator. Everything before — unpacking words, dequantizing luma and
/// looking chroma indices up — feeds the blocks in.
pub fn decompress_blocks(
    blocks: &Vec<Block2x2<YPbPr>>,
    block_width: usize,
    block_height: usize,
    denominator: u16,
) -> (r: Grid<Rgb>)
    requires
        blocks.len() == block_width * block_height,
        2 * block_width <= usize::MAX,
        2 * block_height <= usize::MAX,
        denominator >= 1,
        forall|i: int|
            0 <= i < blocks.len() ==> {
                let g = #[trigger] blocks[i];
                ypbpr_bounded(g.tl) && ypbpr_bounded(g.tr) && ypbpr_bounded(g.bl)
                    && ypbpr_bounded(g.br)
            },
    ensures
        r.wf(),
        r.spec_width() == 2 * block_width,
        r.spec_height() == 2 * block_height,
        forall|x: int, y: int|
            0 <= x < 2 * block_width && 0 <= y < 2 * block_height ==> #[trigger] r.at(x, y)
                == pixel_of_sample(
                scattered_cell(blocks@, block_width as int, x, y),
                denominator as int,
            ),
{
    let samples = scatter_2x2(blocks, block_width, block_height);
    proof {
        assert forall|x: int, y: int|
            0 <= x < samples.spec_width() && 0 <= y < samples.spec_height() implies ypbpr_bounded(
            #[trigger] samples.at(x, y),
        ) by {
            if block_width > 0 {
                crate::grid::lemma_row_major_order(
                    x / 2,
                    y / 2,
                    0,
                    block_height as int,
                    block_width as int,
                );
                assert((block_height as int) * (block_width as int) == (block_width as int) * (
                block_height as int)) by (nonlinear_arith);
            }
        }
    }
    let fixed = from_ypbpr(&samples);
    let out = from_rgb_fixed(&fixed, denominator);
    proof {
        assert forall|x: int, y: int|
            0 <= x < 2 * block_width && 0 <= y < 2 * block_height implies #[trigger] out.at(x, y)
            == pixel_of_sample(
            scattered_cell(blocks@, block_width as int, x, y),
            denominator as int,
        ) by {
            assert(crate::color::rgb_of_ypbpr_ok(fixed.at(x, y), samples.at(x, y)));
            assert(crate::color::rgb_denorm_ok(out.at(x, y), fixed.at(x, y), denominator as int));
        }
    }
    out
}

/// The four bytes of one codeword, most significant first: the wire order of
/// the stream.
pub fn word_to_be_bytes(w: u32) -> (r: (u8, u8, u8, u8))
    ensures
        r.0 == w / 0x100_0000,
        r.1 == (w / 0x1_0000) % 0x100,
        r.2 == (w / 0x100) % 0x100,
        r.3 == w % 0x100,
{
    proof {
        assert(w >> 24u32 == w / 0x100_0000 && (w >> 16u32) % 0x100 == (w / 0x1_0000) % 0x100 && (w
            >> 8u32) % 0x100 == (w / 0x100) % 0x100) by (bit_vector);
    }
    let b0 = (w >> 24) as u8;
    let b1 = ((w >> 16) % 0x100) as u8;
    let b2 = ((w >> 8) % 0x100) as u8;
    let b3 = (w % 0x100) as u8;
    (b0, b1, b2, b3)
}

/// One codeword from its four bytes, most significant first: inverts
/// [`word_to_be_bytes`] byte for byte.
pub fn word_from_be_bytes(b0: u8, b1: u8, b2: u8, b3: u8) -> (r: u32)
    ensures
        r == b0 * 0x100_0000 + b1 * 0x1_0000 + b2 * 0x100 + b3,
{
    proof {
        assert(((b0 as u32) << 24u32) | ((b1 as u32) << 16u32) | ((b2 as u32) << 8u32) | (
        b3 as u32) == (b0 as u32) * 0x100_0000 + (b1 as u32) * 0x1_0000 + (b2 as u32) * 0x100 + (
        b3 as u32)) by (bit_vector);
    }
    ((b0 as u32) << 24) | ((b1 as u32) << 16) | ((b2 as u32) << 8) | (b3 as u32)
}

/// Splitting a codeword into big-endian bytes and reassembling them gives
/// the word back: the stream's byte order is invertible byte for byte.
pub proof fn lemma_be_bytes_round_trip(w: u32)
    ensures
        (w / 0x100_0000) * 0x100_0000 + ((w / 0x1_0000) % 0x100) * 0x1_0000 + ((w / 0x100) % 0x100)
            * 0x100 + (w % 0x100) == w,
{
    assert((w / 0x100_0000) * 0x100_0000 + ((w / 0x1_0000) % 0x100) * 0x1_0000 + ((w / 0x100)
        % 0x100) * 0x100 + (w % 0x100) == w) by (bit_vector);
}

} // verus!
