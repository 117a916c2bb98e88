//! A rectangular raster held as a flat row-major buffer.
//!
//! The codec works on non-overlapping 2x2 pixel blocks, so the grid knows how
//! to trim itself to even dimensions, gather its cells into blocks in
//! row-major block order, and scatter such blocks back into a raster.

use vstd::prelude::*;

verus! {

/// One 2x2 block of cells: top-left, top-right, bottom-left, bottom-right.
#[derive(Clone, Copy)]
pub struct Block2x2<T> {
    pub tl: T,
    pub tr: T,
    pub bl: T,
    pub br: T,
}

/// A `width` by `height` raster of cells, stored row-major.
pub struct Grid<T> {
    width: usize,
    height: usize,
    cells: Vec<T>,
}

/// Cells of row `y1` come before cells of row `y2 > y1` in row-major order,
/// and within a row the column orders them.
pub proof fn lemma_row_major_order(x: int, y: int, x2: int, y2: int, w: int)
    by (nonlinear_arith)
    requires
        0 <= x < w,
        0 <= x2 < w,
        0 <= y,
        0 <= y2,
        y < y2 || (y == y2 && x < x2),
    ensures
        0 <= y * w + x < y2 * w + x2,
{
}

impl<T> Grid<T> {
    /// The stored buffer holds exactly one cell per coordinate.
    pub closed spec fn wf(&self) -> bool {
        self.cells.len() == self.width * self.height
    }

    pub closed spec fn spec_width(&self) -> int {
        self.width as int
    }

    pub closed spec fn spec_height(&self) -> int {
        self.height as int
    }

    /// The cell at column `x` of row `y`.
    pub closed spec fn at(&self, x: int, y: int) -> T
        recommends
            self.wf(),
            0 <= x < self.spec_width(),
            0 <= y < self.spec_height(),
    {
        self.cells[y * self.spec_width() + x]
    }

    /// Build a grid from a row-major buffer; `None` iff the buffer length is
    /// not `width * height`.
    pub fn from_row_major(width: usize, height: usize, cells: Vec<T>) -> (r: Option<Grid<T>>)
        ensures
            r is Some <==> cells.len() == width * height,
            r matches Some(g) ==> {
                &&& g.wf()
                &&& g.spec_width() == width
                &&& g.spec_height() == height
                &&& forall|x: int, y: int|
                    0 <= x < width && 0 <= y < height ==> g.at(x, y) == cells[y * width + x]
            },
    {
        let expected = match width.checked_mul(height) {
            Some(n) => n,
            None => {
                proof {
                    assert(cells.len() < width * height);
                }
                return None;
            },
        };
        if cells.len() != expected {
            return None;
        }
        Some(Grid { width, height, cells })
    }

    /// Build a grid from a row-major buffer already known to have one cell
    /// per coordinate.
    pub(crate) fn from_parts(width: usize, height: usize, cells: Vec<T>) -> (g: Grid<T>)
        requires
            cells.len() == width * height,
        ensures
            g.wf(),
            g.spec_width() == width,
            g.spec_height() == height,
            forall|x: int, y: int|
                0 <= x < width && 0 <= y < height ==> g.at(x, y) == cells[y * width + x],
    {
        Grid { width, height, cells }
    }

    /// The number of columns.
    pub fn width(&self) -> (r: usize)
        ensures
            r == self.spec_width(),
    {
        self.width
    }

    /// The number of rows.
    pub fn height(&self) -> (r: usize)
        ensures
            r == self.spec_height(),
    {
        self.height
    }

    /// The cell at column `x` of row `y`.
    pub fn get(&self, x: usize, y: usize) -> (r: &T)
        requires
            self.wf(),
            x < self.spec_width(),
            y < self.spec_height(),
        ensures
            *r == self.at(x as int, y as int),
    {
        proof {
            lemma_row_major_order(x as int, y as int, 0, self.spec_height(), self.spec_width());
            assert(self.spec_height() * self.spec_width() == self.spec_width()
                * self.spec_height()) by (nonlinear_arith);
        }
        &self.cells[y * self.width + x]
    }

    /// The whole raster, row-major: row `y` occupies `y * width ..
    /// (y + 1) * width`.
    pub fn data(&self) -> (r: &Vec<T>)
        requires
            self.wf(),
        ensures
            r.len() == self.spec_width() * self.spec_height(),
            forall|x: int, y: int|
                0 <= x < self.spec_width() && 0 <= y < self.spec_height()
                    ==> r[y * self.spec_width() + x] == self.at(x, y),
    {
        &self.cells
    }
}

impl<T: Copy> Grid<T> {
    /// Drop the last column if the width is odd, and the last row if the
    /// height is odd; every remaining cell keeps its value and position.
    pub fn trim_to_even_dimensions(&self) -> (r: Grid<T>)
        requires
            self.wf(),
        ensures
            r.wf(),
            r.spec_width() == self.spec_width() - self.spec_width() % 2,
            r.spec_height() == self.spec_height() - self.spec_height() % 2,
            forall|x: int, y: int|
                0 <= x < r.spec_width() && 0 <= y < r.spec_height() ==> r.at(x, y) == self.at(x, y),
    {
        let new_width = self.width - self.width % 2;
        let new_height = self.height - self.height % 2;
        let mut cells: Vec<T> = Vec::new();
        let mut y: usize = 0;
        while y < new_height
            invariant
                self.wf(),
                new_width == self.spec_width() - self.spec_width() % 2,
                new_height == self.spec_height() - self.spec_height() % 2,
                y <= new_height,
                cells.len() == y * new_width,
                forall|xx: int, yy: int|
                    0 <= xx < new_width && 0 <= yy < y ==> cells[yy * new_width + xx] == self.at(
                        xx,
                        yy,
                    ),
            decreases new_height - y,
        {
            let mut x: usize = 0;
            while x < new_width
                invariant
                    self.wf(),
                    new_width == self.spec_width() - self.spec_width() % 2,
                    new_height == self.spec_height() - self.spec_height() % 2,
                    y < new_height,
                    x <= new_width,
                    cells.len() == y * new_width + x,
                    forall|xx: int, yy: int|
                        0 <= xx < new_width && 0 <= yy < y ==> cells[yy * new_width + xx]
                            == self.at(xx, yy),
                    forall|xx: int| 0 <= xx < x ==> cells[y * new_width + xx] == self.at(xx, y as int),
                decreases new_width - x,
            {
                cells.push(*self.get(x, y));
                x += 1;
                proof {
                    assert forall|xx: int, yy: int|
                        0 <= xx < new_width && 0 <= yy < y implies cells[yy * new_width + xx]
                        == self.at(xx, yy) by {
                        lemma_row_major_order(xx, yy, x - 1, y as int, new_width as int);
                    }
                }
            }
            y += 1;
            proof {
                assert(y * new_width == (y - 1) * new_width + new_width) by (nonlinear_arith);
            }
        }
        proof {
            assert(new_width * new_height == new_height * new_width) by (nonlinear_arith);
        }
        Grid { width: new_width, height: new_height, cells }
    }

    /// Gather an even-dimensioned raster into 2x2 blocks, in row-major block
    /// order: block `(bx, by)` holds the four cells whose top-left corner is
    /// pixel `(2 * bx, 2 * by)`.
    pub fn group_2x2(&self) -> (r: Vec<Block2x2<T>>)
        requires
            self.wf(),
            self.spec_width() % 2 == 0,
            self.spec_height() % 2 == 0,
        ensures
            r.len() == (self.spec_width() / 2) * (self.spec_height() / 2),
            forall|bx: int, by: int|
                0 <= bx < self.spec_width() / 2 && 0 <= by < self.spec_height() / 2 ==> {
                    let b = #[trigger] r[by * (self.spec_width() / 2) + bx];
                    &&& b.tl == self.at(2 * bx, 2 * by)
                    &&& b.tr == self.at(2 * bx + 1, 2 * by)
                    &&& b.bl == self.at(2 * bx, 2 * by + 1)
                    &&& b.br == self.at(2 * bx + 1, 2 * by + 1)
                },
    {
        let bw = self.width / 2;
        let bh = self.height / 2;
        let mut blocks: Vec<Block2x2<T>> = Vec::new();
        let mut by: usize = 0;
        while by < bh
            invariant
                self.wf(),
                self.spec_width() % 2 == 0,
                self.spec_height() % 2 == 0,
                bw == self.spec_width() / 2,
                bh == self.spec_height() / 2,
                by <= bh,
                blocks.len() == by * bw,
                forall|bxx: int, byy: int|
                    0 <= bxx < bw && 0 <= byy < by ==> {
                        let b = #[trigger] blocks[byy * (bw as int) + bxx];
                        &&& b.tl == self.at(2 * bxx, 2 * byy)
                        &&& b.tr == self.at(2 * bxx + 1, 2 * byy)
                        &&& b.bl == self.at(2 * bxx, 2 * byy + 1)
                        &&& b.br == self.at(2 * bxx + 1, 2 * byy + 1)
                    },
            decreases bh - by,
        {
            let mut bx: usize = 0;
            while bx < bw
                invariant
                    self.wf(),
                    self.spec_width() % 2 == 0,
                    self.spec_height() % 2 == 0,
                    bw == self.spec_width() / 2,
                    bh == self.spec_height() / 2,
                    by < bh,
                    bx <= bw,
                    blocks.len() == by * bw + bx,
                    forall|bxx: int, byy: int|
                        0 <= bxx < bw && 0 <= byy < by ==> {
                            let b = #[trigger] blocks[byy * (bw as int) + bxx];
                            &&& b.tl == self.at(2 * bxx, 2 * byy)
                            &&& b.tr == self.at(2 * bxx + 1, 2 * byy)
                            &&& b.bl == self.at(2 * bxx, 2 * byy + 1)
                            &&& b.br == self.at(2 * bxx + 1, 2 * byy + 1)
                        },
                    forall|bxx: int|
                        0 <= bxx < bx ==> {
                            let b = #[trigger] blocks[by * (bw as int) + bxx];
                            &&& b.tl == self.at(2 * bxx, 2 * (by as int))
                            &&& b.tr == self.at(2 * bxx + 1, 2 * (by as int))
                            &&& b.bl == self.at(2 * bxx, 2 * (by as int) + 1)
                            &&& b.br == self.at(2 * bxx + 1, 2 * (by as int) + 1)
                        },
                decreases bw - bx,
            {
                let block = Block2x2 {
                    tl: *self.get(2 * bx, 2 * by),
                    tr: *self.get(2 * bx + 1, 2 * by),
                    bl: *self.get(2 * bx, 2 * by + 1),
                    br: *self.get(2 * bx + 1, 2 * by + 1),
                };
                blocks.push(block);
                bx += 1;
                proof {
                    assert forall|bxx: int, byy: int|
                        0 <= bxx < bw && 0 <= byy < by implies {
                        let b = #[trigger] blocks[byy * (bw as int) + bxx];
                        &&& b.tl == self.at(2 * bxx, 2 * byy)
                        &&& b.tr == self.at(2 * bxx + 1, 2 * byy)
                        &&& b.bl == self.at(2 * bxx, 2 * byy + 1)
                        &&& b.br == self.at(2 * bxx + 1, 2 * byy + 1)
                    } by {
                        lemma_row_major_order(bxx, byy, bx - 1, by as int, bw as int);
                    }
                }
            }
            by += 1;
            proof {
                assert(by * bw == (by - 1) * bw + bw) by (nonlinear_arith);
            }
        }
        proof {
            assert(bw * bh == bh * bw) by (nonlinear_arith);
        }
        blocks
    }
}

/// The cell that block scattering puts at pixel `(x, y)`: the corner of block
/// `(x / 2, y / 2)` selected by the parities of `x` and `y`.
pub open spec fn scattered_cell<T>(blocks: Seq<Block2x2<T>>, block_width: int, x: int, y: int) -> T
    recommends
        block_width >= 1,
        0 <= x < 2 * block_width,
        0 <= y,
        (y / 2) * block_width + x / 2 < blocks.len(),
{
    let b = blocks[(y / 2) * block_width + x / 2];
    if y % 2 == 0 {
        if x % 2 == 0 {
            b.tl
        } else {
            b.tr
        }
    } else {
        if x % 2 == 0 {
            b.bl
        } else {
            b.br
        }
    }
}

/// Scattering undoes gathering: for an even-dimensioned raster, any block
/// sequence holding what [`Grid::group_2x2`] promises puts every cell back in
/// its place — the cell scattering selects at `(x, y)` is the raster's own.
pub proof fn lemma_scatter_inverts_group<T>(g: Grid<T>, blocks: Seq<Block2x2<T>>, x: int, y: int)
    requires
        g.wf(),
        g.spec_width() % 2 == 0,
        g.spec_height() % 2 == 0,
        blocks.len() == (g.spec_width() / 2) * (g.spec_height() / 2),
        forall|bx: int, by: int|
            0 <= bx < g.spec_width() / 2 && 0 <= by < g.spec_height() / 2 ==> {
                let b = #[trigger] blocks[by * (g.spec_width() / 2) + bx];
                &&& b.tl == g.at(2 * bx, 2 * by)
                &&& b.tr == g.at(2 * bx + 1, 2 * by)
                &&& b.bl == g.at(2 * bx, 2 * by + 1)
                &&& b.br == g.at(2 * bx + 1, 2 * by + 1)
            },
        0 <= x < g.spec_width(),
        0 <= y < g.spec_height(),
    ensures
        scattered_cell(blocks, g.spec_width() / 2, x, y) == g.at(x, y),
{
    let bw = g.spec_width() / 2;
    let bx = x / 2;
    let by = y / 2;
    assert(0 <= bx < bw && 0 <= by < g.spec_height() / 2);
    let b = blocks[by * bw + bx];
    assert(b.tl == g.at(2 * bx, 2 * by));
    assert(2 * (x / 2) + x % 2 == x && 2 * (y / 2) + y % 2 == y);
}

/// Scatter 2x2 blocks, in row-major block order, back into the raster of
/// twice the block-grid dimensions: the inverse of [`Grid::group_2x2`].
pub fn scatter_2x2<T: Copy>(blocks: &Vec<Block2x2<T>>, block_width: usize, block_height: usize) -> (r:
    Grid<T>)
    requires
        blocks.len() == block_width * block_height,
        2 * block_width <= usize::MAX,
        2 * block_height <= usize::MAX,
    ensures
        r.wf(),
        r.spec_width() == 2 * block_width,
        r.spec_height() == 2 * block_height,
        forall|x: int, y: int|
            0 <= x < 2 * block_width && 0 <= y < 2 * block_height ==> r.at(x, y) == scattered_cell(
                blocks@,
                block_width as int,
                x,
                y,
            ),
{
    let w: usize = 2 * block_width;
    let h: usize = 2 * block_height;
    let mut cells: Vec<T> = Vec::new();
    let mut y: usize = 0;
    while y < h
        invariant
            blocks.len() == block_width * block_height,
            w == 2 * block_width,
            h == 2 * block_height,
            y <= h,
            cells.len() == y * w,
            forall|xx: int, yy: int|
                0 <= xx < w && 0 <= yy < y ==> #[trigger] cells[yy * (w as int) + xx]
                    == scattered_cell(blocks@, block_width as int, xx, yy),
        decreases h - y,
    {
        let mut x: usize = 0;
        while x < w
            invariant
                blocks.len() == block_width * block_height,
                w == 2 * block_width,
                h == 2 * block_height,
                y < h,
                x <= w,
                cells.len() == y * w + x,
                forall|xx: int, yy: int|
                    0 <= xx < w && 0 <= yy < y ==> #[trigger] cells[yy * (w as int) + xx]
                        == scattered_cell(blocks@, block_width as int, xx, yy),
                forall|xx: int|
                    0 <= xx < x ==> #[trigger] cells[y * (w as int) + xx] == scattered_cell(
                        blocks@,
                        block_width as int,
                        xx,
                        y as int,
                    ),
            decreases w - x,
        {
            proof {
                if block_width > 0 {
                    lemma_row_major_order(
                        x as int / 2,
                        y as int / 2,
                        0,
                        block_height as int,
                        block_width as int,
                    );
                    assert(block_height * block_width == block_width * block_height)
                        by (nonlinear_arith);
                }
            }
            let b = &blocks[(y / 2) * block_width + x / 2];
            let cell = if y % 2 == 0 {
                if x % 2 == 0 {
                    b.tl
                } else {
                    b.tr
                }
            } else {
                if x % 2 == 0 {
                    b.bl
                } else {
                    b.br
                }
            };
            cells.push(cell);
            x += 1;
            proof {
                assert forall|xx: int, yy: int|
                    0 <= xx < w && 0 <= yy < y implies #[trigger] cells[yy * (w as int) + xx]
                    == scattered_cell(blocks@, block_width as int, xx, yy) by {
                    lemma_row_major_order(xx, yy, x - 1, y as int, w as int);
                }
            }
        }
        y += 1;
        proof {
            assert(y * w == (y - 1) * w + w) by (nonlinear_arith);
        }
    }
    proof {
        assert((2 * block_width) * (2 * block_height) == (2 * block_height) * (2 * block_width))
            by (nonlinear_arith);
    }
    Grid { width: w, height: h, cells }
}

} // verus!
