//! The aspect-preserving map from device space onto the canvas.
//!
//! Canvas positions are exact: they are counted in sub-cell units, of which
//! `unit` make one cell, so that no position is ever rounded before a cell
//! is chosen for it.

use vstd::prelude::*;
use crate::arith::{
    lemma_floor_ratio_magnitude,
    lemma_floor_ratio_monotonic,
    lemma_floor_ratio_unique,
    lemma_product_bound,
    lemma_product_magnitude,
    round_ratio,
};
use crate::config::{RasterConfig, RasterError, MAX_CANVAS_CELLS};
use crate::extent::BoundingBox;
use crate::sample::PointSample;

verus! {

/// Canvas positions stay within this many units of the origin.
pub const COORD_LIMIT: i64 = 288230376151711744;

/// A cell is divided into at most this many units.
pub const UNIT_LIMIT: i64 = 2199023255552;

/// A line's half-width is at most this many units.
pub const HALF_LIMIT: i64 = 144115188075855872;

/// The scale takes one device unit to at most this many units.
pub const SCALE_LIMIT: i64 = 33554432;

/// An offset is at most this many units.
pub const OFFSET_LIMIT: i64 = 72057594037927936;

/// No extent asks for more canvas rows than this.
pub const ROWS_LIMIT: i64 = 562945658322946;

/// A sample in canvas space. `x` and `y` count units; the sample lies in
/// the cell of column `floor(x / unit)` and row `floor(y / unit)`.
#[derive(Clone, Copy, Debug, PartialEq, Eq, Structural)]
pub struct TransformedPoint {
    pub x: i64,
    pub y: i64,
    pub starts_new_stroke: bool,
}

/// The pen in canvas space: how many units make a cell, and the line's
/// half-width along each axis, in units.
#[derive(Clone, Copy, Debug, PartialEq, Eq, Structural)]
pub struct Brush {
    pub unit: i64,
    pub half_x: i64,
    pub half_y: i64,
}

/// The map from device space to canvas space, with the canvas size that
/// goes with it. A sample at `(x, y)` lands at
/// `(x - origin_x) * x_scale + x_offset` units across and
/// `(y - origin_y) * y_scale + y_offset` units down.
#[derive(Clone, Copy, Debug, PartialEq, Eq, Structural)]
pub struct ScaleParameters {
    pub origin_x: i32,
    pub origin_y: i32,
    pub x_scale: i64,
    pub y_scale: i64,
    pub x_offset: i64,
    pub y_offset: i64,
    pub brush: Brush,
    pub canvas_width: u16,
    pub canvas_height: u32,
}

/// Whether point `i` continues the stroke of point `i - 1`, so that the two
/// are joined by a segment.
pub open spec fn continues_stroke(points: Seq<TransformedPoint>, i: int) -> bool {
    1 <= i < points.len() && !points[i].starts_new_stroke
}

impl TransformedPoint {
    /// The point lies within `COORD_LIMIT` of the origin along both axes.
    pub open spec fn wf(&self) -> bool {
        -COORD_LIMIT <= self.x <= COORD_LIMIT && -COORD_LIMIT <= self.y <= COORD_LIMIT
    }

    /// A canvas-space point, if it lies within `COORD_LIMIT` of the origin.
    pub fn new(x: i64, y: i64, starts_new_stroke: bool) -> (r: Option<TransformedPoint>)
        ensures
            r.is_some() <==> (TransformedPoint { x, y, starts_new_stroke }).wf(),
            r.is_some() ==> r.unwrap() == (TransformedPoint { x, y, starts_new_stroke }),
    {
        if -COORD_LIMIT <= x && x <= COORD_LIMIT && -COORD_LIMIT <= y && y <= COORD_LIMIT {
            Some(TransformedPoint { x, y, starts_new_stroke })
        } else {
            None
        }
    }
}

impl Brush {
    /// A cell has at least one unit and at most `UNIT_LIMIT`; the
    /// half-widths are not negative and at most `HALF_LIMIT`.
    pub open spec fn wf(&self) -> bool {
        &&& 1 <= self.unit <= UNIT_LIMIT
        &&& 0 <= self.half_x <= HALF_LIMIT
        &&& 0 <= self.half_y <= HALF_LIMIT
    }

    /// A brush, if its resolution and half-widths are within their limits.
    pub fn new(unit: i64, half_x: i64, half_y: i64) -> (r: Option<Brush>)
        ensures
            r.is_some() <==> (Brush { unit, half_x, half_y }).wf(),
            r.is_some() ==> r.unwrap() == (Brush { unit, half_x, half_y }),
    {
        if 1 <= unit && unit <= UNIT_LIMIT && 0 <= half_x && half_x <= HALF_LIMIT && 0 <= half_y
            && half_y <= HALF_LIMIT {
            Some(Brush { unit, half_x, half_y })
        } else {
            None
        }
    }
}

/// The number of canvas rows for an extent: the canvas width times the
/// extent's aspect ratio, rounded to nearest, and one more, so that a flat
/// stroke still has a row.
pub open spec fn canvas_rows(b: BoundingBox, c: RasterConfig) -> int {
    round_ratio(c.canvas_width * b.y_extent(), b.x_extent()) + 1
}

/// The number of cells of the canvas for an extent.
pub open spec fn canvas_cells(b: BoundingBox, c: RasterConfig) -> int {
    canvas_rows(b, c) * c.canvas_width
}

/// An extent asks for a row or more; a canvas without columns has one row.
pub proof fn lemma_canvas_rows(b: BoundingBox, c: RasterConfig)
    requires
        b.wf(),
    ensures
        1 <= canvas_rows(b, c) <= ROWS_LIMIT,
        canvas_rows(b, c) <= canvas_cells(b, c) || c.canvas_width == 0,
        c.canvas_width == 0 ==> canvas_rows(b, c) == 1,
        0 <= canvas_cells(b, c),
{
    let w = c.canvas_width as int;
    let x = b.x_extent();
    let y = b.y_extent();
    lemma_product_bound(w, y, 65535, 4294967295);
    lemma_floor_ratio_monotonic(0, 2 * (w * y) + x, 2 * x);
    lemma_floor_ratio_magnitude(2 * (w * y) + x, 2 * x, ROWS_LIMIT - 1);
    if w == 0 {
        assert(w * y == 0) by (nonlinear_arith)
            requires
                w == 0,
        ;
        lemma_floor_ratio_unique(x, 2 * x, 0);
    }
    let rows = canvas_rows(b, c);
    assert(rows * w >= 0 && (w >= 1 ==> rows <= rows * w)) by (nonlinear_arith)
        requires
            rows >= 1,
            w >= 0,
    ;
}

impl ScaleParameters {
    /// Scales, offsets and brush are within their limits, so that every
    /// sample lands within `COORD_LIMIT` of the origin; the canvas has a
    /// row, and no more than `MAX_CANVAS_CELLS` cells.
    pub open spec fn wf(&self) -> bool {
        &&& 0 <= self.x_scale <= SCALE_LIMIT
        &&& 0 <= self.y_scale <= SCALE_LIMIT
        &&& 0 <= self.x_offset <= OFFSET_LIMIT
        &&& 0 <= self.y_offset <= OFFSET_LIMIT
        &&& self.brush.wf()
        &&& 1 <= self.canvas_height
        &&& self.canvas_height * self.canvas_width <= MAX_CANVAS_CELLS
    }

    /// Whether these are the parameters for extent `b` under `c`.
    ///
    /// With `W` the canvas width, `f = fill_num / fill_den` the fill ratio,
    /// `X` and `Y` the extent's sides and `L` the line width, in cells:
    /// both scales are `f * W / X`, the offsets are `(1 - f) / 2 * W` across
    /// and that times `Y / X` down, the half-widths are `L / 2` across and
    /// that times `Y / X` down. All are held over the common denominator
    /// `unit = 2 * fill_den * X`.
    pub open spec fn is_scale_for(&self, b: BoundingBox, c: RasterConfig) -> bool {
        &&& self.origin_x == b.min_x
        &&& self.origin_y == b.min_y
        &&& self.x_scale == 2 * c.fill_num * c.canvas_width
        &&& self.y_scale == self.x_scale
        &&& self.x_offset == (c.fill_den - c.fill_num) * c.canvas_width * b.x_extent()
        &&& self.y_offset == (c.fill_den - c.fill_num) * c.canvas_width * b.y_extent()
        &&& self.brush.unit == 2 * c.fill_den * b.x_extent()
        &&& self.brush.half_x == c.line_width * c.fill_den * b.x_extent()
        &&& self.brush.half_y == c.line_width * c.fill_den * b.y_extent()
        &&& self.canvas_width == c.canvas_width
        &&& self.canvas_height == canvas_rows(b, c)
    }

    /// The parameters for extent `b` under `c`, where the canvas is not too
    /// tall for them to exist.
    pub open spec fn scale_for(b: BoundingBox, c: RasterConfig) -> ScaleParameters {
        choose|s: ScaleParameters| s.is_scale_for(b, c)
    }

    /// How many units across a device `x` lands.
    pub open spec fn x_units(&self, x: int) -> int {
        (x - self.origin_x) * self.x_scale + self.x_offset
    }

    /// How many units down a device `y` lands.
    pub open spec fn y_units(&self, y: int) -> int {
        (y - self.origin_y) * self.y_scale + self.y_offset
    }

    /// Where a sample lands in canvas space.
    pub open spec fn place(&self, p: PointSample) -> TransformedPoint {
        TransformedPoint {
            x: self.x_units(p.x as int) as i64,
            y: self.y_units(p.y as int) as i64,
            starts_new_stroke: p.starts_new_stroke,
        }
    }

    /// Where each sample of a stroke set lands, in the same order.
    pub open spec fn place_all(&self, samples: Seq<PointSample>) -> Seq<TransformedPoint> {
        Seq::new(samples.len(), |i: int| self.place(samples[i]))
    }

    /// Derives the parameters for an extent. Fails where the canvas would
    /// have more than `MAX_CANVAS_CELLS` cells.
    pub fn derive(b: &BoundingBox, c: &RasterConfig) -> (r: Result<ScaleParameters, RasterError>)
        requires
            b.wf(),
            c.wf(),
        ensures
            r.is_ok() <==> canvas_cells(*b, *c) <= MAX_CANVAS_CELLS,
            r.is_ok() ==> r.unwrap().is_scale_for(*b, *c) && r.unwrap().wf() && r.unwrap()
                == Self::scale_for(*b, *c),
            r.is_err() ==> r.unwrap_err() == RasterError::CanvasTooLarge,
    {
        let x_extent: i64 = b.max_x as i64 - b.min_x as i64;
        let y_extent: i64 = b.max_y as i64 - b.min_y as i64;
        let width: i64 = c.canvas_width as i64;
        let num: i64 = c.fill_num as i64;
        let den: i64 = c.fill_den as i64;
        let line: i64 = c.line_width as i64;
        proof {
            lemma_product_bound(width as int, y_extent as int, 65535, 4294967295);
            lemma_product_bound(width as int, x_extent as int, 65535, 4294967295);
            lemma_product_bound(num as int, width as int, 255, 65535);
            lemma_product_bound(den as int, x_extent as int, 255, 4294967295);
            lemma_product_bound(den as int, y_extent as int, 255, 4294967295);
        }
        let wy: i64 = width * y_extent;
        let wx: i64 = width * x_extent;
        let dx: i64 = den * x_extent;
        let dy: i64 = den * y_extent;
        let rows: i64 = (2 * wy + x_extent) / (2 * x_extent) + 1;
        proof {
            lemma_canvas_rows(*b, *c);
            lemma_product_bound(
                rows as int,
                width as int,
                ROWS_LIMIT as int,
                65535,
            );
        }
        if rows as i128 * width as i128 > 4294967295 {
            return Err(RasterError::CanvasTooLarge);
        }
        proof {
            lemma_product_bound(den as int - num as int, wx as int, 255, 281470681677825);
            lemma_product_bound(den as int - num as int, wy as int, 255, 281470681677825);
            lemma_product_bound(line as int, dx as int, 65535, 1095216660225);
            lemma_product_bound(line as int, dy as int, 65535, 1095216660225);
            assert((den - num) * wx == (c.fill_den - c.fill_num) * c.canvas_width * b.x_extent())
                by (nonlinear_arith)
                requires
                    wx == c.canvas_width * b.x_extent(),
                    den - num == c.fill_den - c.fill_num,
            ;
            assert((den - num) * wy == (c.fill_den - c.fill_num) * c.canvas_width * b.y_extent())
                by (nonlinear_arith)
                requires
                    wy == c.canvas_width * b.y_extent(),
                    den - num == c.fill_den - c.fill_num,
            ;
            assert(line * dx == c.line_width * c.fill_den * b.x_extent()) by (nonlinear_arith)
                requires
                    dx == c.fill_den * b.x_extent(),
                    line == c.line_width,
            ;
            assert(line * dy == c.line_width * c.fill_den * b.y_extent()) by (nonlinear_arith)
                requires
                    dy == c.fill_den * b.y_extent(),
                    line == c.line_width,
            ;
        }
        let s = ScaleParameters {
            origin_x: b.min_x,
            origin_y: b.min_y,
            x_scale: 2 * (num * width),
            y_scale: 2 * (num * width),
            x_offset: (den - num) * wx,
            y_offset: (den - num) * wy,
            brush: Brush { unit: 2 * dx, half_x: line * dx, half_y: line * dy },
            canvas_width: c.canvas_width,
            canvas_height: rows as u32,
        };
        proof {
            assert(2 * (num * width) == 2 * c.fill_num * c.canvas_width) by (nonlinear_arith)
                requires
                    num == c.fill_num,
                    width == c.canvas_width,
            ;
            assert(2 * dx == 2 * c.fill_den * b.x_extent()) by (nonlinear_arith)
                requires
                    dx == c.fill_den * b.x_extent(),
            ;
            assert(dx >= 1) by (nonlinear_arith)
                requires
                    dx == den * x_extent,
                    den >= 1,
                    x_extent >= 1,
            ;
            assert(rows >= 1);
            assert(s.brush.wf());
            assert(s.is_scale_for(*b, *c));
            assert(s.wf());
            lemma_scale_unique(s, s, *b, *c);
        }
        Ok(s)
    }

    /// Maps one sample into canvas space.
    pub fn apply(&self, p: &PointSample) -> (t: TransformedPoint)
        requires
            self.wf(),
        ensures
            t == self.place(*p),
            t.wf(),
            t.x == self.x_units(p.x as int),
            t.y == self.y_units(p.y as int),
    {
        let dx: i64 = p.x as i64 - self.origin_x as i64;
        let dy: i64 = p.y as i64 - self.origin_y as i64;
        proof {
            lemma_product_magnitude(dx as int, self.x_scale as int, 4294967295, SCALE_LIMIT as int);
            lemma_product_magnitude(dy as int, self.y_scale as int, 4294967295, SCALE_LIMIT as int);
        }
        TransformedPoint {
            x: dx * self.x_scale + self.x_offset,
            y: dy * self.y_scale + self.y_offset,
            starts_new_stroke: p.starts_new_stroke,
        }
    }

    /// Maps a stroke set into canvas space, sample by sample and in order.
    pub fn transform(&self, samples: &[PointSample]) -> (out: Vec<TransformedPoint>)
        requires
            self.wf(),
        ensures
            out@ == self.place_all(samples@),
            out@.len() == samples@.len(),
            forall|i: int| 0 <= i < out@.len() ==> (#[trigger] out@[i]).wf(),
    {
        let n: usize = samples.len();
        let mut out: Vec<TransformedPoint> = Vec::new();
        let mut k: usize = 0;
        while k < n
            invariant
                k <= n,
                n == samples@.len(),
                self.wf(),
                out@.len() == k,
                forall|i: int| 0 <= i < k ==> (#[trigger] out@[i]) == self.place(samples@[i]),
                forall|i: int| 0 <= i < k ==> (#[trigger] out@[i]).wf(),
            decreases n - k,
        {
            let t: TransformedPoint = self.apply(&samples[k]);
            out.push(t);
            k = k + 1;
        }
        assert(out@ =~= self.place_all(samples@));
        out
    }
}

/// The extent lands on the centred part of the canvas that the fill ratio
/// asks for, and keeps its shape.
///
/// Across, the extent's near side lands at the offset and its far side as
/// far from the canvas's far border; between them lies the fill ratio's
/// share of the canvas width. Down, the near side lands at the vertical
/// offset. Both axes are scaled alike, so the image of the extent has the
/// extent's aspect ratio.
pub proof fn lemma_extent_lands_centred(s: ScaleParameters, b: BoundingBox, c: RasterConfig)
    requires
        s.is_scale_for(b, c),
    ensures
        s.x_scale == s.y_scale,
        s.x_units(b.min_x as int) == s.x_offset,
        s.y_units(b.min_y as int) == s.y_offset,
        s.x_units(b.max_x as int) == c.canvas_width * s.brush.unit - s.x_offset,
        (s.x_units(b.max_x as int) - s.x_units(b.min_x as int)) * c.fill_den == c.fill_num * (
        c.canvas_width * s.brush.unit),
        (s.y_units(b.max_y as int) - s.y_units(b.min_y as int)) * b.x_extent() == (s.x_units(
            b.max_x as int,
        ) - s.x_units(b.min_x as int)) * b.y_extent(),
{
    let n = c.fill_num as int;
    let d = c.fill_den as int;
    let w = c.canvas_width as int;
    let x = b.x_extent();
    let y = b.y_extent();
    assert((b.min_x - s.origin_x) * s.x_scale == 0 && (b.min_y - s.origin_y) * s.y_scale == 0)
        by (nonlinear_arith)
        requires
            b.min_x == s.origin_x,
            b.min_y == s.origin_y,
    ;
    assert(x * (2 * n * w) + (d - n) * w * x == w * (2 * d * x) - (d - n) * w * x)
        by (nonlinear_arith);
    assert((x * (2 * n * w)) * d == n * (w * (2 * d * x))) by (nonlinear_arith);
    assert((y * (2 * n * w)) * x == (x * (2 * n * w)) * y) by (nonlinear_arith);
}

/// Within their limits the parameters place every sample exactly, and
/// within `COORD_LIMIT` of the origin.
pub proof fn lemma_place_is_exact(s: ScaleParameters, p: PointSample)
    requires
        s.wf(),
    ensures
        s.place(p).x == s.x_units(p.x as int),
        s.place(p).y == s.y_units(p.y as int),
        s.place(p).wf(),
{
    lemma_product_magnitude(p.x - s.origin_x, s.x_scale as int, 4294967295, SCALE_LIMIT as int);
    lemma_product_magnitude(p.y - s.origin_y, s.y_scale as int, 4294967295, SCALE_LIMIT as int);
}

/// Where the canvas is not too tall, an extent has its parameters, and they
/// are within their limits.
pub proof fn lemma_scale_exists(b: BoundingBox, c: RasterConfig)
    requires
        b.wf(),
        c.wf(),
        canvas_cells(b, c) <= MAX_CANVAS_CELLS,
    ensures
        ScaleParameters::scale_for(b, c).is_scale_for(b, c),
        ScaleParameters::scale_for(b, c).wf(),
{
    let n = c.fill_num as int;
    let d = c.fill_den as int;
    let w = c.canvas_width as int;
    let line = c.line_width as int;
    let x = b.x_extent();
    let y = b.y_extent();
    lemma_product_bound(n, w, 255, 65535);
    lemma_product_bound(w, x, 65535, 4294967295);
    lemma_product_bound(w, y, 65535, 4294967295);
    lemma_product_bound(d, x, 255, 4294967295);
    lemma_product_bound(d, y, 255, 4294967295);
    lemma_product_bound(d - n, w * x, 255, 281470681677825);
    lemma_product_bound(d - n, w * y, 255, 281470681677825);
    lemma_product_bound(line, d * x, 65535, 1095216660225);
    lemma_product_bound(line, d * y, 65535, 1095216660225);
    assert(2 * n * w == 2 * (n * w) && (d - n) * w * x == (d - n) * (w * x) && (d - n) * w * y == (d
        - n) * (w * y) && 2 * d * x == 2 * (d * x) && line * d * x == line * (d * x) && line * d * y
        == line * (d * y) && d * x >= 1) by (nonlinear_arith)
        requires
            d >= 1,
            x >= 1,
    ;
    lemma_canvas_rows(b, c);
    let s = ScaleParameters {
        origin_x: b.min_x,
        origin_y: b.min_y,
        x_scale: (2 * n * w) as i64,
        y_scale: (2 * n * w) as i64,
        x_offset: ((d - n) * w * x) as i64,
        y_offset: ((d - n) * w * y) as i64,
        brush: Brush {
            unit: (2 * d * x) as i64,
            half_x: (line * d * x) as i64,
            half_y: (line * d * y) as i64,
        },
        canvas_width: c.canvas_width,
        canvas_height: canvas_rows(b, c) as u32,
    };
    assert(s.is_scale_for(b, c));
    assert(s.wf());
    lemma_scale_unique(s, s, b, c);
}

/// An extent and a configuration have at most one set of parameters.
pub proof fn lemma_scale_unique(
    s: ScaleParameters,
    t: ScaleParameters,
    b: BoundingBox,
    c: RasterConfig,
)
    requires
        s.is_scale_for(b, c),
        t.is_scale_for(b, c),
    ensures
        s == t,
        s == ScaleParameters::scale_for(b, c),
{
}

} // verus!
