//! Pixel types and the linear maps between RGB and luma/chroma samples.
//!
//! An integer pixel holds channel values on the scale of its image's
//! denominator. Normalizing divides by the denominator; the color transform
//! and its inverse are the fixed 3x3 linear maps of the codec, whose
//! coefficients all have six decimal places and are therefore exact counts of
//! millionths. Each sample is rounded half-up once per stage.

use crate::fixed::{lemma_round_half_up_bounds, round_div, round_half_up, SCALE};
use crate::grid::Grid;
use vstd::prelude::*;

verus! {

/// Channel magnitude accepted by the color maps, far beyond the nominal
/// `[0, 1]` range of a normalized sample.
pub const SAMPLE_BOUND: i64 = 4_000_000_000;

/// An integer pixel: channel values on the scale of the image denominator.
#[derive(Clone, Copy, Debug, PartialEq, Eq, Structural)]
pub struct Rgb {
    pub red: u16,
    pub green: u16,
    pub blue: u16,
}

/// A pixel of fixed-point channels, each a count of millionths of a unit.
#[derive(Clone, Copy, Debug, PartialEq, Eq, Structural)]
pub struct RgbFixed {
    pub red: i64,
    pub green: i64,
    pub blue: i64,
}

impl RgbFixed {
    pub fn new(red: i64, green: i64, blue: i64) -> (r: RgbFixed)
        ensures
            r == (RgbFixed { red, green, blue }),
    {
        RgbFixed { red, green, blue }
    }

    pub fn red(&self) -> (r: i64)
        ensures
            r == self.red,
    {
        self.red
    }

    pub fn green(&self) -> (r: i64)
        ensures
            r == self.green,
    {
        self.green
    }

    pub fn blue(&self) -> (r: i64)
        ensures
            r == self.blue,
    {
        self.blue
    }
}

/// A component-video sample: luma `y` nominally in `[0, 1]`, chroma `pb` and
/// `pr` nominally in `[-1/2, 1/2]`, all counts of millionths.
#[derive(Clone, Copy, Debug, PartialEq, Eq, Structural)]
pub struct YPbPr {
    pub y: i64,
    pub pb: i64,
    pub pr: i64,
}

impl Default for YPbPr {
    /// The zero sample: black luma and neutral chroma.
    fn default() -> (r: YPbPr)
        ensures
            r == (YPbPr { y: 0, pb: 0, pr: 0 }),
    {
        YPbPr { y: 0, pb: 0, pr: 0 }
    }
}

impl YPbPr {
    pub fn new(y: i64, pb: i64, pr: i64) -> (r: YPbPr)
        ensures
            r == (YPbPr { y, pb, pr }),
    {
        YPbPr { y, pb, pr }
    }

    pub fn y(&self) -> (r: i64)
        ensures
            r == self.y,
    {
        self.y
    }

    pub fn pb(&self) -> (r: i64)
        ensures
            r == self.pb,
    {
        self.pb
    }

    pub fn pr(&self) -> (r: i64)
        ensures
            r == self.pr,
    {
        self.pr
    }
}

/// `y = 0.299 r + 0.587 g + 0.114 b`, in millionths.
pub open spec fn luma_of(r: int, g: int, b: int) -> int {
    round_half_up(299_000 * r + 587_000 * g + 114_000 * b, SCALE as int)
}

/// `pb = -0.168736 r - 0.331264 g + 0.5 b`, in millionths.
pub open spec fn pb_of(r: int, g: int, b: int) -> int {
    round_half_up(-168_736 * r - 331_264 * g + 500_000 * b, SCALE as int)
}

/// `pr = 0.5 r - 0.418688 g - 0.081312 b`, in millionths.
pub open spec fn pr_of(r: int, g: int, b: int) -> int {
    round_half_up(500_000 * r - 418_688 * g - 81_312 * b, SCALE as int)
}

/// `r = y + 1.402 pr`, in millionths.
pub open spec fn red_of(y: int, pb: int, pr: int) -> int {
    round_half_up(1_000_000 * y + 1_402_000 * pr, SCALE as int)
}

/// `g = y - 0.344136 pb - 0.714136 pr`, in millionths.
pub open spec fn green_of(y: int, pb: int, pr: int) -> int {
    round_half_up(1_000_000 * y - 344_136 * pb - 714_136 * pr, SCALE as int)
}

/// `b = y + 1.772 pb`, in millionths.
pub open spec fn blue_of(y: int, pb: int, pr: int) -> int {
    round_half_up(1_000_000 * y + 1_772_000 * pb, SCALE as int)
}

/// A channel value on the denominator scale, as millionths of a unit.
pub open spec fn normalized(v: int, denominator: int) -> int
    recommends
        denominator >= 1,
{
    round_half_up(v * SCALE, denominator)
}

/// A fixed-point channel scaled back to the denominator scale, rounded
/// half-up and clamped into `[0, denominator]`.
pub open spec fn denormalized(v: int, denominator: int) -> int
    recommends
        denominator >= 1,
{
    let q = round_half_up(v * denominator, SCALE as int);
    if q < 0 {
        0
    } else if q > denominator {
        denominator
    } else {
        q
    }
}

/// Every channel of the fixed-point pixel is within `SAMPLE_BOUND`.
pub open spec fn rgb_fixed_bounded(c: RgbFixed) -> bool {
    &&& -SAMPLE_BOUND <= c.red <= SAMPLE_BOUND
    &&& -SAMPLE_BOUND <= c.green <= SAMPLE_BOUND
    &&& -SAMPLE_BOUND <= c.blue <= SAMPLE_BOUND
}

/// Every component of the sample is within `SAMPLE_BOUND`.
pub open spec fn ypbpr_bounded(c: YPbPr) -> bool {
    &&& -SAMPLE_BOUND <= c.y <= SAMPLE_BOUND
    &&& -SAMPLE_BOUND <= c.pb <= SAMPLE_BOUND
    &&& -SAMPLE_BOUND <= c.pr <= SAMPLE_BOUND
}

/// Normalize an integer raster: every channel becomes its share of the
/// denominator, in millionths, so a full channel reads one unit.
pub fn to_rgb_fixed(arr: &Grid<Rgb>, denominator: u16) -> (r: Grid<RgbFixed>)
    requires
        arr.wf(),
        denominator >= 1,
        forall|x: int, y: int|
            0 <= x < arr.spec_width() && 0 <= y < arr.spec_height() ==> {
                let c = #[trigger] arr.at(x, y);
                c.red <= denominator && c.green <= denominator && c.blue <= denominator
            },
    ensures
        r.wf(),
        r.spec_width() == arr.spec_width(),
        r.spec_height() == arr.spec_height(),
        forall|x: int, y: int|
            0 <= x < arr.spec_width() && 0 <= y < arr.spec_height() ==> rgb_fixed_ok(
                #[trigger] r.at(x, y),
                arr.at(x, y),
                denominator as int,
            ),
{
    let den: i64 = denominator as i64;
    let w = arr.width();
    let h = arr.height();
    let mut out: Vec<RgbFixed> = Vec::new();
    let mut y: usize = 0;
    while y < h
        invariant
            arr.wf(),
            denominator >= 1,
            den == denominator,
            w == arr.spec_width(),
            h == arr.spec_height(),
            forall|xx: int, yy: int|
                0 <= xx < w && 0 <= yy < h ==> {
                    let c = #[trigger] arr.at(xx, yy);
                    c.red <= denominator && c.green <= denominator && c.blue <= denominator
                },
            y <= h,
            out.len() == y * w,
            forall|xx: int, yy: int|
                0 <= xx < w && 0 <= yy < y ==> rgb_fixed_ok(
                    #[trigger] out[yy * (w as int) + xx],
                    arr.at(xx, yy),
                    denominator as int,
                ),
        decreases h - y,
    {
        let mut x: usize = 0;
        while x < w
            invariant
                arr.wf(),
                denominator >= 1,
                den == denominator,
                w == arr.spec_width(),
                h == arr.spec_height(),
                forall|xx: int, yy: int|
                    0 <= xx < w && 0 <= yy < h ==> {
                        let c = #[trigger] arr.at(xx, yy);
                        c.red <= denominator && c.green <= denominator && c.blue <= denominator
                    },
                y < h,
                x <= w,
                out.len() == y * w + x,
                forall|xx: int, yy: int|
                    0 <= xx < w && 0 <= yy < y ==> rgb_fixed_ok(
                        #[trigger] out[yy * (w as int) + xx],
                        arr.at(xx, yy),
                        denominator as int,
                    ),
                forall|xx: int|
                    0 <= xx < x ==> rgb_fixed_ok(
                        #[trigger] out[y * (w as int) + xx],
                        arr.at(xx, y as int),
                        denominator as int,
                    ),
            decreases w - x,
        {
            let c = *arr.get(x, y);
            proof {
                norm_bound(c.red as int, denominator as int);
                norm_bound(c.green as int, denominator as int);
                norm_bound(c.blue as int, denominator as int);
            }
            let f = RgbFixed {
                red: round_div(c.red as i64 * SCALE, den),
                green: round_div(c.green as i64 * SCALE, den),
                blue: round_div(c.blue as i64 * SCALE, den),
            };
            out.push(f);
            x += 1;
            proof {
                assert forall|xx: int, yy: int| 0 <= xx < w && 0 <= yy < y implies rgb_fixed_ok(
                    #[trigger] out[yy * (w as int) + xx],
                    arr.at(xx, yy),
                    denominator as int,
                ) by {
                    crate::grid::lemma_row_major_order(xx, yy, x - 1, y as int, w as int);
                }
            }
        }
        y += 1;
        proof {
            assert(y * w == (y - 1) * w + w) by (nonlinear_arith);
        }
    }
    proof {
        assert((w as int) * (h as int) == (h as int) * (w as int)) by (nonlinear_arith);
    }
    Grid::from_parts(w, h, out)
}

/// The fixed-point pixel `f` is pixel `c` normalized by the denominator.
pub open spec fn rgb_fixed_ok(f: RgbFixed, c: Rgb, denominator: int) -> bool {
    &&& f.red == normalized(c.red as int, denominator)
    &&& f.green == normalized(c.green as int, denominator)
    &&& f.blue == normalized(c.blue as int, denominator)
    &&& 0 <= f.red <= SCALE
    &&& 0 <= f.green <= SCALE
    &&& 0 <= f.blue <= SCALE
}

/// The sample `s` is the fixed-point pixel `c` under the forward color map.
pub open spec fn ypbpr_ok(s: YPbPr, c: RgbFixed) -> bool {
    &&& s.y == luma_of(c.red as int, c.green as int, c.blue as int)
    &&& s.pb == pb_of(c.red as int, c.green as int, c.blue as int)
    &&& s.pr == pr_of(c.red as int, c.green as int, c.blue as int)
    &&& ypbpr_bounded(s)
}

/// The fixed-point pixel `c` is the sample `s` under the inverse color map.
pub open spec fn rgb_of_ypbpr_ok(c: RgbFixed, s: YPbPr) -> bool {
    &&& c.red == red_of(s.y as int, s.pb as int, s.pr as int)
    &&& c.green == green_of(s.y as int, s.pb as int, s.pr as int)
    &&& c.blue == blue_of(s.y as int, s.pb as int, s.pr as int)
    &&& -RGB_OUT_BOUND <= c.red <= RGB_OUT_BOUND
    &&& -RGB_OUT_BOUND <= c.green <= RGB_OUT_BOUND
    &&& -RGB_OUT_BOUND <= c.blue <= RGB_OUT_BOUND
}

/// The integer pixel `p` is the fixed-point pixel `c` scaled back to the
/// denominator and clamped into range.
pub open spec fn rgb_denorm_ok(p: Rgb, c: RgbFixed, denominator: int) -> bool {
    &&& p.red == denormalized(c.red as int, denominator)
    &&& p.green == denormalized(c.green as int, denominator)
    &&& p.blue == denormalized(c.blue as int, denominator)
}

/// Channel magnitude that the inverse color map can produce from bounded
/// samples: three times `SAMPLE_BOUND`.
pub const RGB_OUT_BOUND: i64 = 12_000_000_000;

/// The forward color map keeps bounded channels bounded: each coefficient
/// row of the matrix sums to one in magnitude.
proof fn forward_bound(r: int, g: int, b: int)
    requires
        -SAMPLE_BOUND <= r <= SAMPLE_BOUND,
        -SAMPLE_BOUND <= g <= SAMPLE_BOUND,
        -SAMPLE_BOUND <= b <= SAMPLE_BOUND,
    ensures
        -SAMPLE_BOUND <= luma_of(r, g, b) <= SAMPLE_BOUND,
        -SAMPLE_BOUND <= pb_of(r, g, b) <= SAMPLE_BOUND,
        -SAMPLE_BOUND <= pr_of(r, g, b) <= SAMPLE_BOUND,
        -(SCALE as int) * SAMPLE_BOUND <= 299_000 * r + 587_000 * g + 114_000 * b <= (
        SCALE as int) * SAMPLE_BOUND,
        -(SCALE as int) * SAMPLE_BOUND <= -168_736 * r - 331_264 * g + 500_000 * b <= (
        SCALE as int) * SAMPLE_BOUND,
        -(SCALE as int) * SAMPLE_BOUND <= 500_000 * r - 418_688 * g - 81_312 * b <= (
        SCALE as int) * SAMPLE_BOUND,
{
    lemma_round_half_up_bounds(
        299_000 * r + 587_000 * g + 114_000 * b,
        SCALE as int,
        SAMPLE_BOUND as int,
    );
    lemma_round_half_up_bounds(
        -168_736 * r - 331_264 * g + 500_000 * b,
        SCALE as int,
        SAMPLE_BOUND as int,
    );
    lemma_round_half_up_bounds(
        500_000 * r - 418_688 * g - 81_312 * b,
        SCALE as int,
        SAMPLE_BOUND as int,
    );
}

/// The inverse color map keeps bounded samples within `RGB_OUT_BOUND`: no
/// coefficient row of the inverse matrix sums to more than three in
/// magnitude.
proof fn inverse_bound(y: int, pb: int, pr: int)
    requires
        -SAMPLE_BOUND <= y <= SAMPLE_BOUND,
        -SAMPLE_BOUND <= pb <= SAMPLE_BOUND,
        -SAMPLE_BOUND <= pr <= SAMPLE_BOUND,
    ensures
        -RGB_OUT_BOUND <= red_of(y, pb, pr) <= RGB_OUT_BOUND,
        -RGB_OUT_BOUND <= green_of(y, pb, pr) <= RGB_OUT_BOUND,
        -RGB_OUT_BOUND <= blue_of(y, pb, pr) <= RGB_OUT_BOUND,
        -(SCALE as int) * RGB_OUT_BOUND <= 1_000_000 * y + 1_402_000 * pr <= (SCALE as int)
            * RGB_OUT_BOUND,
        -(SCALE as int) * RGB_OUT_BOUND <= 1_000_000 * y - 344_136 * pb - 714_136 * pr <= (
        SCALE as int) * RGB_OUT_BOUND,
        -(SCALE as int) * RGB_OUT_BOUND <= 1_000_000 * y + 1_772_000 * pb <= (SCALE as int)
            * RGB_OUT_BOUND,
{
    lemma_round_half_up_bounds(1_000_000 * y + 1_402_000 * pr, SCALE as int, RGB_OUT_BOUND as int);
    lemma_round_half_up_bounds(
        1_000_000 * y - 344_136 * pb - 714_136 * pr,
        SCALE as int,
        RGB_OUT_BOUND as int,
    );
    lemma_round_half_up_bounds(1_000_000 * y + 1_772_000 * pb, SCALE as int, RGB_OUT_BOUND as int);
}

/// Recode a normalized raster as component video, pixel by pixel, with the
/// forward color matrix.
pub fn to_ypbpr(arr: &Grid<RgbFixed>) -> (r: Grid<YPbPr>)
    requires
        arr.wf(),
        forall|x: int, y: int|
            0 <= x < arr.spec_width() && 0 <= y < arr.spec_height() ==> rgb_fixed_bounded(
                #[trigger] arr.at(x, y),
            ),
    ensures
        r.wf(),
        r.spec_width() == arr.spec_width(),
        r.spec_height() == arr.spec_height(),
        forall|x: int, y: int|
            0 <= x < arr.spec_width() && 0 <= y < arr.spec_height() ==> ypbpr_ok(
                #[trigger] r.at(x, y),
                arr.at(x, y),
            ),
{
    let w = arr.width();
    let h = arr.height();
    let mut out: Vec<YPbPr> = Vec::new();
    let mut y: usize = 0;
    while y < h
        invariant
            arr.wf(),
            w == arr.spec_width(),
            h == arr.spec_height(),
            forall|xx: int, yy: int|
                0 <= xx < w && 0 <= yy < h ==> rgb_fixed_bounded(#[trigger] arr.at(xx, yy)),
            y <= h,
            out.len() == y * w,
            forall|xx: int, yy: int|
                0 <= xx < w && 0 <= yy < y ==> ypbpr_ok(
                    #[trigger] out[yy * (w as int) + xx],
                    arr.at(xx, yy),
                ),
        decreases h - y,
    {
        let mut x: usize = 0;
        while x < w
            invariant
                arr.wf(),
                w == arr.spec_width(),
                h == arr.spec_height(),
                forall|xx: int, yy: int|
                    0 <= xx < w && 0 <= yy < h ==> rgb_fixed_bounded(#[trigger] arr.at(xx, yy)),
                y < h,
                x <= w,
                out.len() == y * w + x,
                forall|xx: int, yy: int|
                    0 <= xx < w && 0 <= yy < y ==> ypbpr_ok(
                        #[trigger] out[yy * (w as int) + xx],
                        arr.at(xx, yy),
                    ),
                forall|xx: int|
                    0 <= xx < x ==> ypbpr_ok(
                        #[trigger] out[y * (w as int) + xx],
                        arr.at(xx, y as int),
                    ),
            decreases w - x,
        {
            let c = *arr.get(x, y);
            proof {
                forward_bound(c.red as int, c.green as int, c.blue as int);
            }
            let s = YPbPr {
                y: round_div(299_000 * c.red + 587_000 * c.green + 114_000 * c.blue, SCALE),
                pb: round_div(-168_736 * c.red - 331_264 * c.green + 500_000 * c.blue, SCALE),
                pr: round_div(500_000 * c.red - 418_688 * c.green - 81_312 * c.blue, SCALE),
            };
            out.push(s);
            x += 1;
            proof {
                assert forall|xx: int, yy: int| 0 <= xx < w && 0 <= yy < y implies ypbpr_ok(
                    #[trigger] out[yy * (w as int) + xx],
                    arr.at(xx, yy),
                ) by {
                    crate::grid::lemma_row_major_order(xx, yy, x - 1, y as int, w as int);
                }
            }
        }
        y += 1;
        proof {
            assert(y * w == (y - 1) * w + w) by (nonlinear_arith);
        }
    }
    proof {
        assert((w as int) * (h as int) == (h as int) * (w as int)) by (nonlinear_arith);
    }
    Grid::from_parts(w, h, out)
}

/// Recode component video back to normalized RGB, pixel by pixel, with the
/// inverse color matrix.
pub fn from_ypbpr(arr: &Grid<YPbPr>) -> (r: Grid<RgbFixed>)
    requires
        arr.wf(),
        forall|x: int, y: int|
            0 <= x < arr.spec_width() && 0 <= y < arr.spec_height() ==> ypbpr_bounded(
                #[trigger] arr.at(x, y),
            ),
    ensures
        r.wf(),
        r.spec_width() == arr.spec_width(),
        r.spec_height() == arr.spec_height(),
        forall|x: int, y: int|
            0 <= x < arr.spec_width() && 0 <= y < arr.spec_height() ==> rgb_of_ypbpr_ok(
                #[trigger] r.at(x, y),
                arr.at(x, y),
            ),
{
    let w = arr.width();
    let h = arr.height();
    let mut out: Vec<RgbFixed> = Vec::new();
    let mut y: usize = 0;
    while y < h
        invariant
            arr.wf(),
            w == arr.spec_width(),
            h == arr.spec_height(),
            forall|xx: int, yy: int|
                0 <= xx < w && 0 <= yy < h ==> ypbpr_bounded(#[trigger] arr.at(xx, yy)),
            y <= h,
            out.len() == y * w,
            forall|xx: int, yy: int|
                0 <= xx < w && 0 <= yy < y ==> rgb_of_ypbpr_ok(
                    #[trigger] out[yy * (w as int) + xx],
                    arr.at(xx, yy),
                ),
        decreases h - y,
    {
        let mut x: usize = 0;
        while x < w
            invariant
                arr.wf(),
                w == arr.spec_width(),
                h == arr.spec_height(),
                forall|xx: int, yy: int|
                    0 <= xx < w && 0 <= yy < h ==> ypbpr_bounded(#[trigger] arr.at(xx, yy)),
                y < h,
                x <= w,
                out.len() == y * w + x,
                forall|xx: int, yy: int|
                    0 <= xx < w && 0 <= yy < y ==> rgb_of_ypbpr_ok(
                        #[trigger] out[yy * (w as int) + xx],
                        arr.at(xx, yy),
                    ),
                forall|xx: int|
                    0 <= xx < x ==> rgb_of_ypbpr_ok(
                        #[trigger] out[y * (w as int) + xx],
                        arr.at(xx, y as int),
                    ),
            decreases w - x,
        {
            let s = *arr.get(x, y);
            proof {
                inverse_bound(s.y as int, s.pb as int, s.pr as int);
            }
            let c = RgbFixed {
                red: round_div(1_000_000 * s.y + 1_402_000 * s.pr, SCALE),
                green: round_div(1_000_000 * s.y - 344_136 * s.pb - 714_136 * s.pr, SCALE),
                blue: round_div(1_000_000 * s.y + 1_772_000 * s.pb, SCALE),
            };
            out.push(c);
            x += 1;
            proof {
                assert forall|xx: int, yy: int| 0 <= xx < w && 0 <= yy < y implies rgb_of_ypbpr_ok(
                    #[trigger] out[yy * (w as int) + xx],
                    arr.at(xx, yy),
                ) by {
                    crate::grid::lemma_row_major_order(xx, yy, x - 1, y as int, w as int);
                }
            }
        }
        y += 1;
        proof {
            assert(y * w == (y - 1) * w + w) by (nonlinear_arith);
        }
    }
    proof {
        assert((w as int) * (h as int) == (h as int) * (w as int)) by (nonlinear_arith);
    }
    Grid::from_parts(w, h, out)
}

/// Scale a normalized raster back to integer pixels on the denominator
/// scale, rounding half-up and clamping each channel into `[0, denominator]`.
pub fn from_rgb_fixed(arr: &Grid<RgbFixed>, denominator: u16) -> (r: Grid<Rgb>)
    requires
        arr.wf(),
        denominator >= 1,
        forall|x: int, y: int|
            0 <= x < arr.spec_width() && 0 <= y < arr.spec_height() ==> {
                let c = #[trigger] arr.at(x, y);
                &&& -RGB_OUT_BOUND <= c.red <= RGB_OUT_BOUND
                &&& -RGB_OUT_BOUND <= c.green <= RGB_OUT_BOUND
                &&& -RGB_OUT_BOUND <= c.blue <= RGB_OUT_BOUND
            },
    ensures
        r.wf(),
        r.spec_width() == arr.spec_width(),
        r.spec_height() == arr.spec_height(),
        forall|x: int, y: int|
            0 <= x < arr.spec_width() && 0 <= y < arr.spec_height() ==> rgb_denorm_ok(
                #[trigger] r.at(x, y),
                arr.at(x, y),
                denominator as int,
            ),
{
    let den: i64 = denominator as i64;
    let w = arr.width();
    let h = arr.height();
    let mut out: Vec<Rgb> = Vec::new();
    let mut y: usize = 0;
    while y < h
        invariant
            arr.wf(),
            denominator >= 1,
            den == denominator,
            w == arr.spec_width(),
            h == arr.spec_height(),
            forall|xx: int, yy: int|
                0 <= xx < w && 0 <= yy < h ==> {
                    let c = #[trigger] arr.at(xx, yy);
                    &&& -RGB_OUT_BOUND <= c.red <= RGB_OUT_BOUND
                    &&& -RGB_OUT_BOUND <= c.green <= RGB_OUT_BOUND
                    &&& -RGB_OUT_BOUND <= c.blue <= RGB_OUT_BOUND
                },
            y <= h,
            out.len() == y * w,
            forall|xx: int, yy: int|
                0 <= xx < w && 0 <= yy < y ==> rgb_denorm_ok(
                    #[trigger] out[yy * (w as int) + xx],
                    arr.at(xx, yy),
                    denominator as int,
                ),
        decreases h - y,
    {
        let mut x: usize = 0;
        while x < w
            invariant
                arr.wf(),
                denominator >= 1,
                den == denominator,
                w == arr.spec_width(),
                h == arr.spec_height(),
                forall|xx: int, yy: int|
                    0 <= xx < w && 0 <= yy < h ==> {
                        let c = #[trigger] arr.at(xx, yy);
                        &&& -RGB_OUT_BOUND <= c.red <= RGB_OUT_BOUND
                        &&& -RGB_OUT_BOUND <= c.green <= RGB_OUT_BOUND
                        &&& -RGB_OUT_BOUND <= c.blue <= RGB_OUT_BOUND
                    },
                y < h,
                x <= w,
                out.len() == y * w + x,
                forall|xx: int, yy: int|
                    0 <= xx < w && 0 <= yy < y ==> rgb_denorm_ok(
                        #[trigger] out[yy * (w as int) + xx],
                        arr.at(xx, yy),
                        denominator as int,
                    ),
                forall|xx: int|
                    0 <= xx < x ==> rgb_denorm_ok(
                        #[trigger] out[y * (w as int) + xx],
                        arr.at(xx, y as int),
                        denominator as int,
                    ),
            decreases w - x,
        {
            let c = *arr.get(x, y);
            let p = Rgb {
                red: denorm_channel(c.red, den),
                green: denorm_channel(c.green, den),
                blue: denorm_channel(c.blue, den),
            };
            out.push(p);
            x += 1;
            proof {
                assert forall|xx: int, yy: int| 0 <= xx < w && 0 <= yy < y implies rgb_denorm_ok(
                    #[trigger] out[yy * (w as int) + xx],
                    arr.at(xx, yy),
                    denominator as int,
                ) by {
                    crate::grid::lemma_row_major_order(xx, yy, x - 1, y as int, w as int);
                }
            }
        }
        y += 1;
        proof {
            assert(y * w == (y - 1) * w + w) by (nonlinear_arith);
        }
    }
    proof {
        assert((w as int) * (h as int) == (h as int) * (w as int)) by (nonlinear_arith);
    }
    Grid::from_parts(w, h, out)
}

/// One channel scaled back to the denominator, rounded and clamped.
fn denorm_channel(v: i64, den: i64) -> (r: u16)
    requires
        1 <= den <= 0xffff,
        -RGB_OUT_BOUND <= v <= RGB_OUT_BOUND,
    ensures
        r == denormalized(v as int, den as int),
{
    proof {
        assert(-(RGB_OUT_BOUND as int) * 0xffff <= (v as int) * (den as int) <= (
        RGB_OUT_BOUND as int) * 0xffff) by (nonlinear_arith)
            requires
                -RGB_OUT_BOUND <= v <= RGB_OUT_BOUND,
                1 <= den <= 0xffff,
        ;
    }
    let q = round_div(v * den, SCALE);
    if q < 0 {
        0
    } else if q > den {
        den as u16
    } else {
        q as u16
    }
}

/// A channel within its denominator normalizes into `[0, SCALE]`.
proof fn norm_bound(v: int, denominator: int)
    requires
        denominator >= 1,
        0 <= v <= denominator,
    ensures
        0 <= normalized(v, denominator) <= SCALE,
        -(denominator * (SCALE as int)) <= v * SCALE <= denominator * (SCALE as int),
{
    assert(0 * (SCALE as int) <= v * SCALE <= denominator * (SCALE as int)) by (nonlinear_arith)
        requires
            0 <= v <= denominator,
    ;
    lemma_round_half_up_bounds(v * SCALE, denominator, SCALE as int);
    lemma_round_half_up_bounds(v * SCALE, denominator, SCALE as int);
    assert(2 * (v * SCALE) + denominator > 0) by (nonlinear_arith)
        requires
            v >= 0,
            denominator >= 1,
    ;
    vstd::arithmetic::div_mod::lemma_div_is_ordered(0, 2 * (v * SCALE) + denominator, 2
        * denominator);
}

} // verus!
