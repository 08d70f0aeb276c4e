//! The raster canvas: a grid of cells that are ink or background, and the
//! forms in which a finished grid is handed on.

use vstd::prelude::*;
use crate::arith::lemma_product_bound;
use crate::config::{MAX_CANVAS_CELLS, MAX_CANVAS_WIDTH};

verus! {

/// A binary ink mask of `rows() x cols()` cells, blank when made. A cell is
/// either ink or background; filling a cell twice leaves it ink.
#[derive(Debug)]
pub struct RasterCanvas {
    height: usize,
    width: usize,
    cells: Vec<bool>,
}

/// The place of cell `(row, col)` in a row-major grid with `cols` columns.
pub open spec fn cell_index(row: int, col: int, cols: int) -> int {
    row * cols + col
}

/// A cell of the grid has its place within the grid.
pub proof fn lemma_cell_index_in_grid(row: int, col: int, rows: int, cols: int)
    by (nonlinear_arith)
    requires
        0 <= row < rows,
        0 <= col < cols,
    ensures
        0 <= cell_index(row, col, cols) < rows * cols,
{
}

/// Two cells of the grid with one place are one cell.
pub proof fn lemma_cell_index_injective(r1: int, c1: int, r2: int, c2: int, cols: int)
    by (nonlinear_arith)
    requires
        0 <= c1 < cols,
        0 <= c2 < cols,
        cell_index(r1, c1, cols) == cell_index(r2, c2, cols),
    ensures
        r1 == r2,
        c1 == c2,
{
}

/// A place in the grid is the place of the cell at its quotient and
/// remainder by the number of columns.
pub proof fn lemma_index_of_cell(i: int, rows: int, cols: int)
    requires
        0 <= i < rows * cols,
        0 <= rows,
        0 <= cols,
    ensures
        0 <= i / cols < rows,
        0 <= i % cols < cols,
        cell_index(i / cols, i % cols, cols) == i,
{
    assert(cols > 0) by (nonlinear_arith)
        requires
            0 <= i < rows * cols,
            0 <= rows,
            0 <= cols,
    ;
    vstd::arithmetic::div_mod::lemma_fundamental_div_mod(i, cols);
    vstd::arithmetic::div_mod::lemma_mod_bound(i, cols);
    let q = i / cols;
    assert(cols * q == q * cols) by (nonlinear_arith);
    assert(0 <= q < rows) by (nonlinear_arith)
        requires
            0 <= i < rows * cols,
            q * cols <= i < q * cols + cols,
            cols > 0,
    ;
}

/// The cell at a place is the one whose row and column are the place's
/// quotient and remainder by the number of columns.
pub proof fn lemma_cell_of_index(i: int, row: int, col: int, cols: int)
    requires
        0 <= col < cols,
        i == cell_index(row, col, cols),
    ensures
        i / cols == row,
        i % cols == col,
{
    vstd::arithmetic::div_mod::lemma_fundamental_div_mod_converse(i, cols, row, col);
}

impl View for RasterCanvas {
    type V = Seq<Seq<bool>>;

    /// The grid as rows of cells, `true` for ink.
    closed spec fn view(&self) -> Seq<Seq<bool>> {
        Seq::new(
            self.height as nat,
            |r: int|
                Seq::new(
                    self.width as nat,
                    |c: int| self.cells@[cell_index(r, c, self.width as int)],
                ),
        )
    }
}

impl RasterCanvas {
    /// The cell storage matches the grid's sides, and the grid is within
    /// the limits on a canvas's width and on its number of cells.
    pub closed spec fn wf(&self) -> bool {
        &&& self.height <= MAX_CANVAS_CELLS
        &&& self.width <= MAX_CANVAS_WIDTH
        &&& self.height * self.width <= MAX_CANVAS_CELLS
        &&& self.cells@.len() == self.height * self.width
    }

    /// A canvas is within its limits.
    pub proof fn lemma_within_limits(&self)
        requires
            self.wf(),
        ensures
            0 <= self.rows() <= MAX_CANVAS_CELLS,
            0 <= self.cols() <= MAX_CANVAS_WIDTH,
            0 <= self.rows() * self.cols() <= MAX_CANVAS_CELLS,
    {
        lemma_product_bound(
            self.height as int,
            self.width as int,
            self.height as int,
            self.width as int,
        );
    }

    /// The number of rows.
    pub closed spec fn rows(&self) -> int {
        self.height as int
    }

    /// The number of columns.
    pub closed spec fn cols(&self) -> int {
        self.width as int
    }

    /// Whether `(row, col)` is a cell of the grid.
    pub open spec fn in_bounds(&self, row: int, col: int) -> bool {
        0 <= row < self.rows() && 0 <= col < self.cols()
    }

    /// Whether `(row, col)` is a cell of the grid that holds ink. No place
    /// outside the grid holds ink.
    pub open spec fn ink(&self, row: int, col: int) -> bool {
        self.in_bounds(row, col) && self@[row][col]
    }

    /// The view has `rows()` rows of `cols()` cells each.
    pub proof fn lemma_view_shape(&self)
        ensures
            self@.len() == self.rows(),
            forall|r: int| 0 <= r < self.rows() ==> (#[trigger] self@[r]).len() == self.cols(),
            0 <= self.rows(),
            0 <= self.cols(),
    {
    }

    /// Ink lies on the grid only: nothing is ever filled outside
    /// `[0, rows()) x [0, cols())`.
    pub proof fn lemma_ink_within_grid(&self, row: int, col: int)
        requires
            self.ink(row, col),
        ensures
            0 <= row < self.rows(),
            0 <= col < self.cols(),
    {
    }

    /// Two canvases of one shape with ink in the same cells are the same
    /// grid.
    pub proof fn lemma_same_ink_same_grid(&self, other: &RasterCanvas)
        requires
            self.rows() == other.rows(),
            self.cols() == other.cols(),
            forall|r: int, c: int| self.ink(r, c) == other.ink(r, c),
        ensures
            self@ == other@,
    {
        assert forall|r: int| 0 <= r < self.rows() implies self@[r] =~= other@[r] by {
            assert forall|c: int| 0 <= c < self.cols() implies self@[r][c] == other@[r][c] by {
                assert(self.ink(r, c) == other.ink(r, c));
            }
        }
        assert(self@ =~= other@);
    }

    /// A blank canvas, if it has no more than `MAX_CANVAS_CELLS` cells.
    pub fn blank(height: u32, width: u16) -> (r: Option<RasterCanvas>)
        ensures
            r.is_some() <==> height * width <= MAX_CANVAS_CELLS,
            r.is_some() ==> {
                let canvas = r.unwrap();
                &&& canvas.wf()
                &&& canvas.rows() == height
                &&& canvas.cols() == width
                &&& forall|row: int, col: int| !canvas.ink(row, col)
            },
    {
        proof {
            lemma_product_bound(height as int, width as int, 4294967295, 65535);
        }
        let count: u64 = height as u64 * width as u64;
        if count > 4294967295 {
            return None;
        }
        let h: usize = height as usize;
        let w: usize = width as usize;
        let cells: Vec<bool> = vec![false; count as usize];
        let canvas = RasterCanvas { height: h, width: w, cells };
        assert forall|row: int, col: int| !canvas.ink(row, col) by {
            if canvas.in_bounds(row, col) {
                lemma_cell_index_in_grid(row, col, h as int, w as int);
            }
        }
        Some(canvas)
    }

    /// The number of rows.
    pub fn height(&self) -> (h: usize)
        requires
            self.wf(),
        ensures
            h == self.rows(),
            h <= MAX_CANVAS_CELLS,
    {
        self.height
    }

    /// The number of columns.
    pub fn width(&self) -> (w: usize)
        requires
            self.wf(),
        ensures
            w == self.cols(),
            w <= MAX_CANVAS_WIDTH,
    {
        self.width
    }

    /// Whether the cell at `(row, col)` holds ink; no cell outside the grid
    /// does.
    pub fn is_ink(&self, row: usize, col: usize) -> (b: bool)
        requires
            self.wf(),
        ensures
            b == self.ink(row as int, col as int),
    {
        if row < self.height && col < self.width {
            proof {
                lemma_cell_index_in_grid(
                    row as int,
                    col as int,
                    self.height as int,
                    self.width as int,
                );
                lemma_cell_index_in_grid(row as int, 0, self.height as int, self.width as int);
            }
            self.cells[row * self.width + col]
        } else {
            false
        }
    }

    /// Fills the cells of column `col` from row `first_row` to row
    /// `last_row`, both included, as far as they lie on the canvas. Rows and
    /// columns off the canvas are clipped away, whatever their values.
    pub fn fill_column(&mut self, col: i64, first_row: i64, last_row: i64)
        requires
            old(self).wf(),
        ensures
            final(self).wf(),
            final(self).rows() == old(self).rows(),
            final(self).cols() == old(self).cols(),
            forall|r: int, c: int|
                final(self).ink(r, c) == (old(self).ink(r, c) || (old(self).in_bounds(r, c) && c
                    == col && first_row <= r <= last_row)),
    {
        if col < 0 || col >= self.width as i64 || last_row < 0 || self.height == 0 {
            return ;
        }
        let c: usize = col as usize;
        let start: usize = if first_row < 0 {
            0
        } else if first_row >= self.height as i64 {
            self.height
        } else {
            first_row as usize
        };
        let stop: usize = if last_row >= self.height as i64 {
            self.height
        } else {
            last_row as usize + 1
        };
        if start >= stop {
            return ;
        }
        let mut r: usize = start;
        while r < stop
            invariant
                self.wf(),
                self.height == old(self).height,
                self.width == old(self).width,
                c < self.width,
                c == col,
                stop <= self.height,
                start <= r <= stop,
                forall|rr: int, cc: int|
                    self.ink(rr, cc) == (old(self).ink(rr, cc) || (old(self).in_bounds(rr, cc)
                        && cc == col && start <= rr < r)),
            decreases stop - r,
        {
            let ghost before = *self;
            proof {
                lemma_cell_index_in_grid(r as int, c as int, self.height as int, self.width as int);
                lemma_cell_index_in_grid(r as int, 0, self.height as int, self.width as int);
            }
            let idx: usize = r * self.width + c;
            self.cells.set(idx, true);
            proof {
                assert forall|rr: int, cc: int|
                    self.ink(rr, cc) == (old(self).ink(rr, cc) || (old(self).in_bounds(rr, cc)
                        && cc == col && start <= rr < r + 1)) by {
                    if self.in_bounds(rr, cc) {
                        lemma_cell_index_in_grid(rr, cc, self.height as int, self.width as int);
                        if cell_index(rr, cc, self.width as int) == idx {
                            lemma_cell_index_injective(
                                rr,
                                cc,
                                r as int,
                                c as int,
                                self.width as int,
                            );
                        } else {
                            assert(self.ink(rr, cc) == before.ink(rr, cc));
                        }
                    }
                }
            }
            r = r + 1;
        }
    }

    /// The shape of the grid as a tensor of one channel: one, rows, columns.
    pub fn tensor_shape(&self) -> (shape: [usize; 3])
        requires
            self.wf(),
        ensures
            shape[0] == 1,
            shape[1] == self.rows(),
            shape[2] == self.cols(),
    {
        [1, self.height, self.width]
    }

    /// The grid in row-major order with one value for ink and one for
    /// background: cell `(r, c)` stands at `cell_index(r, c, cols())`.
    pub open spec fn shaded(&self, ink: u8, background: u8) -> Seq<u8> {
        Seq::new(
            (self.rows() * self.cols()) as nat,
            |i: int|
                if self.ink(i / self.cols(), i % self.cols()) {
                    ink
                } else {
                    background
                },
        )
    }

    /// Where cell `(row, col)` stands in `shaded`, and what stands there.
    pub proof fn lemma_shaded_cell(&self, ink: u8, background: u8, row: int, col: int)
        requires
            self.in_bounds(row, col),
        ensures
            0 <= cell_index(row, col, self.cols()) < self.shaded(ink, background).len(),
            self.shaded(ink, background)[cell_index(row, col, self.cols())] == (if self.ink(
                row,
                col,
            ) {
                ink
            } else {
                background
            }),
    {
        let i = cell_index(row, col, self.cols());
        lemma_cell_index_in_grid(row, col, self.rows(), self.cols());
        lemma_cell_of_index(i, row, col, self.cols());
    }

    /// The grid in row-major order as intensities: 1 for ink, 0 for
    /// background.
    pub fn intensities(&self) -> (data: Vec<u8>)
        requires
            self.wf(),
        ensures
            data@ == self.shaded(1, 0),
    {
        self.pixels(1, 0)
    }

    /// The grid in row-major order as an 8-bit greyscale image of `cols()`
    /// by `rows()` pixels, dark on light: 0 for ink, 255 for background.
    pub fn to_luma8(&self) -> (pixels: Vec<u8>)
        requires
            self.wf(),
        ensures
            pixels@ == self.shaded(0, 255),
    {
        self.pixels(0, 255)
    }

    /// The grid in row-major order, with one value for ink and one for
    /// background.
    pub fn pixels(&self, ink: u8, background: u8) -> (out: Vec<u8>)
        requires
            self.wf(),
        ensures
            out@ == self.shaded(ink, background),
            out@.len() == self.rows() * self.cols(),
    {
        let n: usize = self.cells.len();
        let mut out: Vec<u8> = Vec::new();
        let mut k: usize = 0;
        while k < n
            invariant
                k <= n,
                n == self.cells@.len(),
                out@.len() == k,
                forall|i: int|
                    0 <= i < k ==> #[trigger] out@[i] == (if self.cells@[i] {
                        ink
                    } else {
                        background
                    }),
            decreases n - k,
        {
            out.push(if self.cells[k] { ink } else { background });
            k = k + 1;
        }
        proof {
            let want = self.shaded(ink, background);
            assert(want.len() == n);
            assert forall|i: int| 0 <= i < n implies out@[i] == want[i] by {
                lemma_index_of_cell(i, self.height as int, self.width as int);
            }
            assert(out@ =~= want);
        }
        out
    }
}

} // verus!
