use rpeg::codec::{
    compress_to_quantized, decode_block_luma, decompress_blocks, pack_codewords, quantize_block,
    unpack_codewords, CodedBlock, QuantizedBlock,
};
use rpeg::color::{from_rgb_fixed, from_ypbpr, to_rgb_fixed, to_ypbpr, Rgb, RgbFixed, YPbPr};
use rpeg::grid::{scatter_2x2, Block2x2, Grid};
use rpeg::quantize::{decodes, decodeu, encodes, encodeu, scale_sat, smaxs, smaxu};
use rpeg::transform::{
    average_pbpr, get_luminosity_coeffs, reverse_luminosity_coeffs, reverse_luminosity_coeffs_fixed,
};

#[test]
fn test_encodes() {
    assert_eq!(encodes(300_000, 5, 300_000), 15);
    assert_eq!(encodes(100_000, 5, 300_000), 5);
    assert_eq!(encodes(-200_000, 5, 300_000), -10);
}

#[test]
fn quantizer_saturates() {
    // Any coefficient at or beyond the limit gives the extreme code.
    assert_eq!(encodes(300_000, 5, 300_000), 15);
    assert_eq!(encodes(5_000_000, 5, 300_000), 15);
    assert_eq!(encodes(-300_000, 5, 300_000), -15);
    assert_eq!(encodes(-5_000_000, 5, 300_000), -15);
    assert_eq!(encodeu(300_000, 9, 300_000), 255);
    assert_eq!(encodeu(5_000_000, 9, 300_000), 255);
    assert_eq!(encodeu(-100_000, 9, 300_000), 0);
}

#[test]
fn quantizer_formulas() {
    assert_eq!(smaxs(5), 15);
    assert_eq!(smaxu(9), 255);
    assert_eq!(smaxu(4), 7);
    assert_eq!(smaxs(32), i32::MAX);
    assert_eq!(encodeu(150_000, 9, 300_000), 128);
    assert_eq!(scale_sat(600_000, 300_000), 1_000_000);
    assert_eq!(scale_sat(-600_000, 300_000), -1_000_000);
    assert_eq!(scale_sat(100_000, 300_000), 333_333);
    assert_eq!(decodes(15, 5, 300_000), 300_000);
    assert_eq!(decodes(-10, 5, 300_000), -200_000);
    assert_eq!(decodeu(128, 9, 300_000), 150_588);
}

fn luma(y: i64) -> YPbPr {
    YPbPr { y, pb: 0, pr: 0 }
}

#[test]
fn transform_round_trip() {
    // Luma sums divisible by four make the forward quarter exact, so the
    // inverse reproduces the block exactly.
    let group = Block2x2 {
        tl: luma(400_000),
        tr: luma(800_000),
        bl: luma(1_200_000),
        br: luma(1_600_000),
    };
    let (a, b, c, d) = get_luminosity_coeffs(&group);
    assert_eq!((a, b, c, d), (1_000_000, 400_000, 200_000, 0));
    let (y1, y2, y3, y4) = reverse_luminosity_coeffs_fixed(a, b, c, d);
    assert_eq!((y1, y2, y3, y4), (400_000, 800_000, 1_200_000, 1_600_000));
}

#[test]
fn transform_averages_chroma() {
    let group = Block2x2 {
        tl: YPbPr { y: 0, pb: 100_000, pr: -100_000 },
        tr: YPbPr { y: 0, pb: 200_000, pr: -100_000 },
        bl: YPbPr { y: 0, pb: 300_000, pr: -100_000 },
        br: YPbPr { y: 0, pb: 400_000, pr: -300_000 },
    };
    let (pb_avg, pr_avg) = average_pbpr(&group);
    assert_eq!(pb_avg, 250_000);
    assert_eq!(pr_avg, -150_000);
}

#[test]
fn reverse_coeffs_integer_domain() {
    assert_eq!(reverse_luminosity_coeffs(10, 2, 1, 0), (7, 9, 11, 13));
}

#[test]
fn grid_construction() {
    let g = Grid::from_row_major(2, 2, vec![1u32, 2, 3, 4]).unwrap();
    assert_eq!(*g.get(0, 0), 1);
    assert_eq!(*g.get(1, 1), 4);
    assert!(Grid::from_row_major(2, 2, vec![1u32, 2, 3]).is_none());
}

#[test]
fn trim_drops_odd_row_and_column() {
    let g = Grid::from_row_major(3, 3, vec![0u32, 1, 2, 3, 4, 5, 6, 7, 8]).unwrap();
    let t = g.trim_to_even_dimensions();
    assert_eq!((t.width(), t.height()), (2, 2));
    assert_eq!(
        (*t.get(0, 0), *t.get(1, 0), *t.get(0, 1), *t.get(1, 1)),
        (0, 1, 3, 4)
    );
    let even = Grid::from_row_major(2, 2, vec![9u32, 8, 7, 6]).unwrap();
    let t = even.trim_to_even_dimensions();
    assert_eq!((t.width(), t.height()), (2, 2));
    assert_eq!(*t.get(1, 1), 6);
}

#[test]
fn group_and_scatter_invert() {
    let g = Grid::from_row_major(4, 2, vec![0u32, 1, 2, 3, 4, 5, 6, 7]).unwrap();
    let blocks = g.group_2x2();
    assert_eq!(blocks.len(), 2);
    assert_eq!(
        (blocks[0].tl, blocks[0].tr, blocks[0].bl, blocks[0].br),
        (0, 1, 4, 5)
    );
    assert_eq!(
        (blocks[1].tl, blocks[1].tr, blocks[1].bl, blocks[1].br),
        (2, 3, 6, 7)
    );
    let back = scatter_2x2(&blocks, 2, 1);
    assert_eq!((back.width(), back.height()), (4, 2));
    for y in 0..2 {
        for x in 0..4 {
            assert_eq!(*back.get(x, y), *g.get(x, y));
        }
    }
}

#[test]
fn color_conversion_values() {
    let pixels = vec![Rgb { red: 255, green: 255, blue: 255 }];
    let g = Grid::from_row_major(1, 1, pixels).unwrap();
    let f = to_rgb_fixed(&g, 255);
    let c = *f.get(0, 0);
    assert_eq!((c.red, c.green, c.blue), (1_000_000, 1_000_000, 1_000_000));
    // White has full luma and no chroma.
    let s = to_ypbpr(&f);
    let v = *s.get(0, 0);
    assert_eq!((v.y, v.pb, v.pr), (1_000_000, 0, 0));
    // The inverse map takes it back.
    let rf = from_ypbpr(&s);
    let c = *rf.get(0, 0);
    assert_eq!((c.red, c.green, c.blue), (1_000_000, 1_000_000, 1_000_000));
    let p = from_rgb_fixed(&rf, 255);
    let c = *p.get(0, 0);
    assert_eq!((c.red, c.green, c.blue), (255, 255, 255));
}

#[test]
fn denormalize_rounds_and_clamps() {
    let cells = vec![
        RgbFixed { red: 1_000_000, green: 500_000, blue: -100_000 },
        RgbFixed { red: 1_100_000, green: 298_039, blue: 0 },
    ];
    let g = Grid::from_row_major(2, 1, cells).unwrap();
    let p = from_rgb_fixed(&g, 255);
    let c0 = *p.get(0, 0);
    assert_eq!((c0.red, c0.green, c0.blue), (255, 128, 0));
    let c1 = *p.get(1, 0);
    assert_eq!((c1.red, c1.green, c1.blue), (255, 76, 0));
}

#[test]
fn quantize_block_values() {
    let group = Block2x2 {
        tl: luma(200_000),
        tr: luma(200_000),
        bl: luma(200_000),
        br: luma(200_000),
    };
    let q = quantize_block(&group);
    assert_eq!(
        q,
        QuantizedBlock { a: 170, b: 0, c: 0, d: 0, pb_avg: 0, pr_avg: 0 }
    );
}

#[test]
fn decode_block_luma_values() {
    // A uniform block: only the average contributes.
    let (y1, y2, y3, y4) = decode_block_luma(170, 0, 0, 0);
    // 170 / 255 of the 0.3 limit is 0.2.
    assert_eq!((y1, y2, y3, y4), (200_000, 200_000, 200_000, 200_000));
}

#[test]
fn pack_codewords_checks_fields() {
    let good = CodedBlock { a: 170, b: 0, c: -3, d: 2, pb_index: 7, pr_index: 8 };
    let words = pack_codewords(&vec![good]).unwrap();
    assert_eq!(words.len(), 1);
    assert_eq!(
        rpeg::codeword::unpack_bits(words[0]),
        (170, 0, -3, 2, 7, 8)
    );
    let bad = CodedBlock { a: 512, b: 0, c: 0, d: 0, pb_index: 0, pr_index: 0 };
    assert!(pack_codewords(&vec![good, bad]).is_none());
}

#[test]
fn unpack_codewords_validates_word_count() {
    let words = vec![
        rpeg::codeword::bitpack(1, 2, 3, 4, 5, 6).unwrap(),
        rpeg::codeword::bitpack(7, -8, 9, -10, 11, 12).unwrap(),
    ];
    // A 4 by 2 image has exactly two blocks.
    let v = unpack_codewords(&words, 4, 2).unwrap();
    assert_eq!(v.len(), 2);
    assert_eq!(v[0], (1, 2, 3, 4, 5, 6));
    assert_eq!(v[1], (7, -8, 9, -10, 11, 12));
    // A malformed stream: the count does not match the dimensions.
    assert!(unpack_codewords(&words, 5, 2).is_none());
    assert!(unpack_codewords(&words, 4, 4).is_none());
}

fn compress_to_words(pixels: &Grid<Rgb>, denominator: u16) -> (Vec<u32>, usize, usize) {
    let (quantized, width, height) = compress_to_quantized(pixels, denominator);
    let mut coded: Vec<CodedBlock> = Vec::new();
    for q in &quantized {
        let pb_index = csc411_arith::index_of_chroma(q.pb_avg as f32 / 1e6) as u32;
        let pr_index = csc411_arith::index_of_chroma(q.pr_avg as f32 / 1e6) as u32;
        coded.push(CodedBlock { a: q.a, b: q.b, c: q.c, d: q.d, pb_index, pr_index });
    }
    (pack_codewords(&coded).unwrap(), width, height)
}

fn decompress_from_words(words: &Vec<u32>, width: usize, height: usize, denominator: u16) -> Grid<Rgb> {
    let tuples = unpack_codewords(words, width, height).unwrap();
    let mut blocks: Vec<Block2x2<YPbPr>> = Vec::new();
    for t in &tuples {
        let (y1, y2, y3, y4) = decode_block_luma(t.0, t.1, t.2, t.3);
        let pb = (csc411_arith::chroma_of_index(t.4) * 1e6).round() as i64;
        let pr = (csc411_arith::chroma_of_index(t.5) * 1e6).round() as i64;
        blocks.push(Block2x2 {
            tl: YPbPr { y: y1, pb, pr },
            tr: YPbPr { y: y2, pb, pr },
            bl: YPbPr { y: y3, pb, pr },
            br: YPbPr { y: y4, pb, pr },
        });
    }
    decompress_blocks(&blocks, width / 2, height / 2, denominator)
}

#[test]
fn lossy_round_trip_is_bounded_and_stable() {
    // A gentle gray ramp: luma stays under the quantizer limit and chroma is
    // zero, so the loss comes from luma quantization alone.
    let mut pixels: Vec<Rgb> = Vec::new();
    for y in 0..4u16 {
        for x in 0..4u16 {
            let v = 10 + 4 * (y * 4 + x);
            pixels.push(Rgb { red: v, green: v, blue: v });
        }
    }
    let image = Grid::from_row_major(4, 4, pixels).unwrap();
    let (words, w, h) = compress_to_words(&image, 255);
    assert_eq!((w, h), (4, 4));
    assert_eq!(words.len(), 4);

    let out = decompress_from_words(&words, w, h, 255);
    assert_eq!((out.width(), out.height()), (4, 4));
    for y in 0..4 {
        for x in 0..4 {
            let a = *image.get(x, y);
            let b = *out.get(x, y);
            assert!((a.red as i32 - b.red as i32).abs() <= 35);
            assert!((a.green as i32 - b.green as i32).abs() <= 35);
            assert!((a.blue as i32 - b.blue as i32).abs() <= 35);
        }
    }

    // Deterministic: a second run gives the same stream and the same image.
    let (words2, _, _) = compress_to_words(&image, 255);
    assert_eq!(words, words2);
    let out2 = decompress_from_words(&words2, w, h, 255);
    for y in 0..4 {
        for x in 0..4 {
            assert_eq!(*out.get(x, y), *out2.get(x, y));
        }
    }
}

#[test]
fn odd_dimensions_are_trimmed() {
    // A 5 by 4 image is compressed as 4 by 4: the trimmed dimensions go into
    // the stream, and the word count matches them.
    let mut pixels: Vec<Rgb> = Vec::new();
    for i in 0..20u16 {
        let v = 10 + 3 * i;
        pixels.push(Rgb { red: v, green: v, blue: v });
    }
    let image = Grid::from_row_major(5, 4, pixels).unwrap();
    let (words, w, h) = compress_to_words(&image, 255);
    assert_eq!((w, h), (4, 4));
    assert_eq!(words.len(), 4);
    let out = decompress_from_words(&words, w, h, 255);
    assert_eq!((out.width(), out.height()), (4, 4));
}

#[test]
fn quantizer_round_trip_error_is_small() {
    // Encode then decode moves a coefficient by at most half a quantization
    // step: scaled by twice smax, the error stays within smax + limit.
    let x = 250_000i64;
    let q = encodes(x, 5, 300_000);
    assert_eq!(q, 13);
    let back = decodes(q, 5, 300_000);
    assert_eq!(back, 260_000);
    assert!((back - x).abs() * 2 * 15 <= 15 + 300_000);
}
