//! From a stroke set to a finished canvas: extent, scale, segments.

use vstd::prelude::*;
use crate::arith::{lemma_floor_ratio_monotonic, lemma_floor_ratio_scaling};
use crate::canvas::RasterCanvas;
use crate::config::{RasterConfig, RasterError, MAX_CANVAS_CELLS};
use crate::extent::{
    bounding_box,
    extent_of,
    is_degenerate,
    is_extent,
    lemma_extent_exists,
    lemma_extent_unique,
    lemma_extent_wf,
    BoundingBox,
};
use crate::sample::{joins_previous, PointSample};
use crate::scale::{
    canvas_cells,
    canvas_rows,
    lemma_canvas_rows,
    continues_stroke,
    lemma_place_is_exact,
    lemma_scale_exists,
    Brush,
    ScaleParameters,
    TransformedPoint,
};
use crate::segment::{
    col_of,
    draw_strokes,
    is_refined_brush,
    is_refined_point,
    lemma_cover_is_independent_of_resolution,
    lemma_segment_covers_its_ends,
    row_of,
    segment_covers,
    strokes_cover,
};

verus! {

/// The number of rows of the canvas that a stroke set is rasterized onto.
pub open spec fn raster_rows(samples: Seq<PointSample>, c: RasterConfig) -> int {
    canvas_rows(extent_of(samples), c)
}

/// The number of cells of the canvas that a stroke set is rasterized onto.
pub open spec fn raster_cells(samples: Seq<PointSample>, c: RasterConfig) -> int {
    canvas_cells(extent_of(samples), c)
}

/// Whether a stroke set can be rasterized: it is not degenerate, and its
/// canvas has no more cells than a machine is sure to hold.
pub open spec fn is_rasterizable(samples: Seq<PointSample>, c: RasterConfig) -> bool {
    !is_degenerate(samples) && raster_cells(samples, c) <= MAX_CANVAS_CELLS
}

/// The scale that a stroke set is rasterized with.
pub open spec fn raster_scale(samples: Seq<PointSample>, c: RasterConfig) -> ScaleParameters {
    ScaleParameters::scale_for(extent_of(samples), c)
}

/// Whether one of the stroke set's segments, mapped onto the canvas, puts
/// ink at `(row, col)`.
pub open spec fn stroke_set_covers(
    samples: Seq<PointSample>,
    c: RasterConfig,
    row: int,
    col: int,
) -> bool {
    let scale = raster_scale(samples, c);
    strokes_cover(scale.place_all(samples), scale.brush, row, col)
}

/// Whether `canvas` is the raster of `samples` under `c`: it has the shape
/// that the extent's aspect ratio gives, and a cell holds ink exactly where
/// a segment of the stroke set covers it.
pub open spec fn is_raster_of(
    canvas: RasterCanvas,
    samples: Seq<PointSample>,
    c: RasterConfig,
) -> bool {
    &&& canvas.wf()
    &&& canvas.rows() == raster_rows(samples, c)
    &&& canvas.cols() == c.canvas_width
    &&& forall|row: int, col: int|
        canvas.ink(row, col) == (canvas.in_bounds(row, col) && stroke_set_covers(
            samples,
            c,
            row,
            col,
        ))
}

/// Rasterizes a stroke set onto a fresh canvas.
///
/// Fails on a degenerate stroke set, and on one whose canvas would have
/// more than `MAX_CANVAS_CELLS` cells; in both cases no canvas is made. The
/// samples are only read.
pub fn rasterize(samples: &[PointSample], config: &RasterConfig) -> (r: Result<
    RasterCanvas,
    RasterError,
>)
    requires
        config.wf(),
    ensures
        match r {
            Ok(canvas) => is_rasterizable(samples@, *config) && is_raster_of(
                canvas,
                samples@,
                *config,
            ),
            Err(RasterError::DegenerateInput) => is_degenerate(samples@),
            Err(RasterError::CanvasTooLarge) => !is_degenerate(samples@) && raster_cells(
                samples@,
                *config,
            ) > MAX_CANVAS_CELLS,
        },
{
    let extent: BoundingBox = match bounding_box(samples) {
        Ok(b) => b,
        Err(e) => {
            return Err(e);
        },
    };
    let scale: ScaleParameters = match ScaleParameters::derive(&extent, config) {
        Ok(s) => s,
        Err(e) => {
            return Err(e);
        },
    };
    let points: Vec<TransformedPoint> = scale.transform(samples);
    let mut canvas: RasterCanvas = match RasterCanvas::blank(
        scale.canvas_height,
        scale.canvas_width,
    ) {
        Some(canvas) => canvas,
        None => {
            return Err(RasterError::CanvasTooLarge);
        },
    };
    draw_strokes(&mut canvas, points.as_slice(), &scale.brush);
    Ok(canvas)
}

/// When a canvas is owed: a stroke set that is not degenerate can be
/// rasterized if its extent is at most `k` times as tall as it is wide and
/// a canvas of `k` times the width and one row more, by the width, is
/// within the limit on cells. At a width of 800 that is every drawing up to
/// 6710 times as tall as wide.
pub proof fn lemma_rasterizable_up_to_aspect(samples: Seq<PointSample>, c: RasterConfig, k: int)
    requires
        !is_degenerate(samples),
        k >= 0,
        extent_of(samples).y_extent() <= k * extent_of(samples).x_extent(),
        (k * c.canvas_width + 1) * c.canvas_width <= MAX_CANVAS_CELLS,
    ensures
        raster_rows(samples, c) <= k * c.canvas_width + 1,
        is_rasterizable(samples, c),
{
    let extent = extent_of(samples);
    lemma_extent_exists(samples);
    lemma_extent_wf(extent, samples);
    let w = c.canvas_width as int;
    let x = extent.x_extent();
    let y = extent.y_extent();
    assert(2 * (w * y) + x <= x * (2 * (k * w) + 1)) by (nonlinear_arith)
        requires
            0 <= y <= k * x,
            x >= 1,
            w >= 0,
    ;
    lemma_floor_ratio_monotonic(2 * (w * y) + x, x * (2 * (k * w) + 1), 2 * x);
    lemma_floor_ratio_scaling(2 * (k * w) + 1, 2, x);
    assert(x * 2 == 2 * x);
    let rows = raster_rows(samples, c);
    assert(rows <= k * w + 1);
    lemma_canvas_rows(extent, c);
    assert(rows * w <= (k * w + 1) * w) by (nonlinear_arith)
        requires
            rows <= k * w + 1,
            w >= 0,
    ;
}

/// Rasterizing is a function of the stroke set and the configuration: any
/// two rasters of one stroke set under one configuration are the same grid,
/// cell for cell.
pub proof fn lemma_raster_unique(
    a: RasterCanvas,
    b: RasterCanvas,
    samples: Seq<PointSample>,
    c: RasterConfig,
)
    requires
        is_raster_of(a, samples, c),
        is_raster_of(b, samples, c),
    ensures
        a@ == b@,
{
    a.lemma_same_ink_same_grid(&b);
}

/// Strokes are drawn without gaps at their samples: with a line two cells
/// wide or more, the cell of every sample that is joined to its neighbour
/// holds ink, as far as it lies on the canvas. Sample `i` continues a
/// stroke; its cell and that of sample `i - 1` are covered by the segment
/// between the two.
pub proof fn lemma_joined_samples_are_ink(
    canvas: RasterCanvas,
    samples: Seq<PointSample>,
    c: RasterConfig,
    i: int,
)
    requires
        c.wf(),
        c.line_width >= 2,
        is_rasterizable(samples, c),
        is_raster_of(canvas, samples, c),
        joins_previous(samples, i),
    ensures
        ({
            let scale = raster_scale(samples, c);
            let here = scale.place(samples[i]);
            let row = row_of(here, scale.brush);
            let col = col_of(here, scale.brush);
            canvas.in_bounds(row, col) ==> canvas.ink(row, col)
        }),
        ({
            let scale = raster_scale(samples, c);
            let before = scale.place(samples[i - 1]);
            let row = row_of(before, scale.brush);
            let col = col_of(before, scale.brush);
            canvas.in_bounds(row, col) ==> canvas.ink(row, col)
        }),
{
    let extent = extent_of(samples);
    lemma_extent_exists(samples);
    lemma_extent_wf(extent, samples);
    lemma_scale_exists(extent, c);
    let scale = raster_scale(samples, c);
    let points = scale.place_all(samples);
    let brush = scale.brush;
    assert(brush.half_x >= brush.unit) by (nonlinear_arith)
        requires
            brush.unit == 2 * c.fill_den * extent.x_extent(),
            brush.half_x == c.line_width * c.fill_den * extent.x_extent(),
            c.line_width >= 2,
            c.fill_den >= 1,
            extent.x_extent() >= 1,
    ;
    assert(continues_stroke(points, i));
    assert(points[i] == scale.place(samples[i]) && points[i - 1] == scale.place(samples[i - 1]));
    lemma_segment_covers_its_ends(points[i - 1], points[i], brush);
}

/// Whether `fine` is the stroke set `coarse` with every coordinate counted
/// in units `k` times as fine and from another origin: each coordinate is
/// `k` times what it was, plus an offset per axis.
pub open spec fn is_recounted(
    fine: Seq<PointSample>,
    coarse: Seq<PointSample>,
    k: int,
    dx: int,
    dy: int,
) -> bool {
    &&& fine.len() == coarse.len()
    &&& forall|i: int|
        0 <= i < coarse.len() ==> (#[trigger] fine[i]).x == k * coarse[i].x + dx && fine[i].y == k
            * coarse[i].y + dy && fine[i].starts_new_stroke == coarse[i].starts_new_stroke
}

/// The extent of a recounted stroke set is the recounted extent.
proof fn lemma_extent_of_recounted(
    fine: Seq<PointSample>,
    coarse: Seq<PointSample>,
    k: int,
    dx: int,
    dy: int,
    fine_extent: BoundingBox,
    coarse_extent: BoundingBox,
)
    requires
        k >= 1,
        is_recounted(fine, coarse, k, dx, dy),
        is_extent(fine_extent, fine),
        is_extent(coarse_extent, coarse),
    ensures
        fine_extent.min_x == k * coarse_extent.min_x + dx,
        fine_extent.max_x == k * coarse_extent.max_x + dx,
        fine_extent.min_y == k * coarse_extent.min_y + dy,
        fine_extent.max_y == k * coarse_extent.max_y + dy,
{
    let n = coarse.len() as int;
    assert forall|i: int| 0 <= i < n implies k * coarse_extent.min_x + dx <= (#[trigger] fine[i]).x
        <= k * coarse_extent.max_x + dx && k * coarse_extent.min_y + dy <= fine[i].y <= k
        * coarse_extent.max_y + dy by {
        let p = coarse[i];
        assert(k * coarse_extent.min_x <= k * p.x <= k * coarse_extent.max_x && k
            * coarse_extent.min_y <= k * p.y <= k * coarse_extent.max_y) by (nonlinear_arith)
            requires
                k >= 1,
                coarse_extent.min_x <= p.x <= coarse_extent.max_x,
                coarse_extent.min_y <= p.y <= coarse_extent.max_y,
        ;
    }
    let i0 = choose|i: int| 0 <= i < n && (#[trigger] coarse[i]).x == coarse_extent.min_x;
    let i1 = choose|i: int| 0 <= i < n && (#[trigger] coarse[i]).x == coarse_extent.max_x;
    let i2 = choose|i: int| 0 <= i < n && (#[trigger] coarse[i]).y == coarse_extent.min_y;
    let i3 = choose|i: int| 0 <= i < n && (#[trigger] coarse[i]).y == coarse_extent.max_y;
    assert(fine[i0].x == k * coarse_extent.min_x + dx);
    assert(fine[i1].x == k * coarse_extent.max_x + dx);
    assert(fine[i2].y == k * coarse_extent.min_y + dy);
    assert(fine[i3].y == k * coarse_extent.max_y + dy);
    let j0 = choose|i: int| 0 <= i < n && (#[trigger] fine[i]).x == fine_extent.min_x;
    let j1 = choose|i: int| 0 <= i < n && (#[trigger] fine[i]).x == fine_extent.max_x;
    let j2 = choose|i: int| 0 <= i < n && (#[trigger] fine[i]).y == fine_extent.min_y;
    let j3 = choose|i: int| 0 <= i < n && (#[trigger] fine[i]).y == fine_extent.max_y;
    assert(fine[j0].x >= k * coarse_extent.min_x + dx);
    assert(fine[j1].x <= k * coarse_extent.max_x + dx);
    assert(fine[j2].y >= k * coarse_extent.min_y + dy);
    assert(fine[j3].y <= k * coarse_extent.max_y + dy);
}

/// A recounted extent is as valid as the extent, and asks for as many canvas
/// rows.
proof fn lemma_rows_of_recounted(
    c: RasterConfig,
    k: int,
    dx: int,
    dy: int,
    fine_extent: BoundingBox,
    coarse_extent: BoundingBox,
)
    requires
        k >= 1,
        coarse_extent.wf(),
        fine_extent.min_x == k * coarse_extent.min_x + dx,
        fine_extent.max_x == k * coarse_extent.max_x + dx,
        fine_extent.min_y == k * coarse_extent.min_y + dy,
        fine_extent.max_y == k * coarse_extent.max_y + dy,
    ensures
        fine_extent.wf(),
        fine_extent.x_extent() == k * coarse_extent.x_extent(),
        fine_extent.y_extent() == k * coarse_extent.y_extent(),
        canvas_rows(fine_extent, c) == canvas_rows(coarse_extent, c),
{
    let w = c.canvas_width as int;
    let xe = coarse_extent.x_extent();
    let ye = coarse_extent.y_extent();
    assert(fine_extent.x_extent() == k * xe && fine_extent.y_extent() == k * ye && k * xe >= 1 && k
        * ye >= 0) by (nonlinear_arith)
        requires
            k >= 1,
            xe >= 1,
            ye >= 0,
            fine_extent.x_extent() == (k * coarse_extent.max_x + dx) - (k * coarse_extent.min_x
                + dx),
            fine_extent.y_extent() == (k * coarse_extent.max_y + dy) - (k * coarse_extent.min_y
                + dy),
            xe == coarse_extent.max_x - coarse_extent.min_x,
            ye == coarse_extent.max_y - coarse_extent.min_y,
    ;
    assert(2 * (w * (k * ye)) + k * xe == k * (2 * (w * ye) + xe) && 2 * (k * xe) == k * (2 * xe))
        by (nonlinear_arith);
    lemma_floor_ratio_scaling(2 * (w * ye) + xe, 2 * xe, k);
}

/// The scale of a recounted stroke set puts a device position where the
/// scale of the stroke set puts it, on a grid `k` times as fine.
proof fn lemma_scale_of_recounted(
    c: RasterConfig,
    k: int,
    dx: int,
    dy: int,
    fine_extent: BoundingBox,
    coarse_extent: BoundingBox,
    fine_scale: ScaleParameters,
    coarse_scale: ScaleParameters,
    x: int,
    y: int,
)
    requires
        k >= 1,
        coarse_extent.wf(),
        fine_extent.min_x == k * coarse_extent.min_x + dx,
        fine_extent.max_x == k * coarse_extent.max_x + dx,
        fine_extent.min_y == k * coarse_extent.min_y + dy,
        fine_extent.max_y == k * coarse_extent.max_y + dy,
        fine_scale.is_scale_for(fine_extent, c),
        coarse_scale.is_scale_for(coarse_extent, c),
    ensures
        is_refined_brush(fine_scale.brush, coarse_scale.brush, k),
        fine_scale.x_units(k * x + dx) == k * coarse_scale.x_units(x),
        fine_scale.y_units(k * y + dy) == k * coarse_scale.y_units(y),
{
    let n = c.fill_num as int;
    let d = c.fill_den as int;
    let w = c.canvas_width as int;
    let line = c.line_width as int;
    let xe = coarse_extent.x_extent();
    let ye = coarse_extent.y_extent();
    lemma_rows_of_recounted(c, k, dx, dy, fine_extent, coarse_extent);
    assert(2 * d * (k * xe) == k * (2 * d * xe) && line * d * (k * xe) == k * (line * d * xe)
        && line * d * (k * ye) == k * (line * d * ye) && (d - n) * w * (k * xe) == k * ((d - n) * w
        * xe) && (d - n) * w * (k * ye) == k * ((d - n) * w * ye)) by (nonlinear_arith);
    let s = coarse_scale.x_scale as int;
    let ox = coarse_scale.x_offset as int;
    let oy = coarse_scale.y_offset as int;
    let ax = x - coarse_extent.min_x;
    let ay = y - coarse_extent.min_y;
    assert((k * x + dx) - fine_extent.min_x == k * ax && (k * y + dy) - fine_extent.min_y == k * ay)
        by (nonlinear_arith)
        requires
            fine_extent.min_x == k * coarse_extent.min_x + dx,
            fine_extent.min_y == k * coarse_extent.min_y + dy,
            ax == x - coarse_extent.min_x,
            ay == y - coarse_extent.min_y,
    ;
    assert((k * ax) * s + k * ox == k * (ax * s + ox) && (k * ay) * s + k * oy == k * (ay * s + oy))
        by (nonlinear_arith);
}

/// The raster does not depend on the device's unit or origin: a stroke set
/// whose coordinates are counted `k` times as finely and from another
/// origin has the same raster, cell for cell.
pub proof fn lemma_raster_is_independent_of_device_unit(
    fine_canvas: RasterCanvas,
    coarse_canvas: RasterCanvas,
    fine: Seq<PointSample>,
    coarse: Seq<PointSample>,
    c: RasterConfig,
    k: int,
    dx: int,
    dy: int,
)
    requires
        c.wf(),
        k >= 1,
        is_recounted(fine, coarse, k, dx, dy),
        is_rasterizable(coarse, c),
        is_raster_of(fine_canvas, fine, c),
        is_raster_of(coarse_canvas, coarse, c),
    ensures
        is_rasterizable(fine, c),
        fine_canvas@ == coarse_canvas@,
{
    let fine_extent = extent_of(fine);
    let coarse_extent = extent_of(coarse);
    lemma_extent_exists(fine);
    lemma_extent_exists(coarse);
    lemma_extent_wf(coarse_extent, coarse);
    lemma_extent_of_recounted(fine, coarse, k, dx, dy, fine_extent, coarse_extent);
    lemma_rows_of_recounted(c, k, dx, dy, fine_extent, coarse_extent);
    lemma_extent_wf(fine_extent, fine);
    lemma_scale_exists(fine_extent, c);
    lemma_scale_exists(coarse_extent, c);
    let fine_scale = raster_scale(fine, c);
    let coarse_scale = raster_scale(coarse, c);
    lemma_scale_of_recounted(
        c,
        k,
        dx,
        dy,
        fine_extent,
        coarse_extent,
        fine_scale,
        coarse_scale,
        0,
        0,
    );
    let fine_points = fine_scale.place_all(fine);
    let coarse_points = coarse_scale.place_all(coarse);
    assert forall|i: int| 0 <= i < coarse.len() implies is_refined_point(
        #[trigger] fine_points[i],
        coarse_points[i],
        k,
    ) by {
        lemma_place_is_exact(fine_scale, fine[i]);
        lemma_place_is_exact(coarse_scale, coarse[i]);
        lemma_scale_of_recounted(
            c,
            k,
            dx,
            dy,
            fine_extent,
            coarse_extent,
            fine_scale,
            coarse_scale,
            coarse[i].x as int,
            coarse[i].y as int,
        );
    }
    assert forall|row: int, col: int|
        strokes_cover(fine_points, fine_scale.brush, row, col) == strokes_cover(
            coarse_points,
            coarse_scale.brush,
            row,
            col,
        ) by {
        if strokes_cover(fine_points, fine_scale.brush, row, col) {
            let i = choose|i: int| #[trigger]
                continues_stroke(fine_points, i) && segment_covers(
                    fine_points[i - 1],
                    fine_points[i],
                    fine_scale.brush,
                    row,
                    col,
                );
            assert(is_refined_point(fine_points[i - 1], coarse_points[i - 1], k));
            assert(is_refined_point(fine_points[i], coarse_points[i], k));
            lemma_cover_is_independent_of_resolution(
                coarse_points[i - 1],
                coarse_points[i],
                coarse_scale.brush,
                fine_points[i - 1],
                fine_points[i],
                fine_scale.brush,
                k,
                row,
                col,
            );
            assert(continues_stroke(coarse_points, i));
        }
        if strokes_cover(coarse_points, coarse_scale.brush, row, col) {
            let i = choose|i: int| #[trigger]
                continues_stroke(coarse_points, i) && segment_covers(
                    coarse_points[i - 1],
                    coarse_points[i],
                    coarse_scale.brush,
                    row,
                    col,
                );
            assert(is_refined_point(fine_points[i - 1], coarse_points[i - 1], k));
            assert(is_refined_point(fine_points[i], coarse_points[i], k));
            lemma_cover_is_independent_of_resolution(
                coarse_points[i - 1],
                coarse_points[i],
                coarse_scale.brush,
                fine_points[i - 1],
                fine_points[i],
                fine_scale.brush,
                k,
                row,
                col,
            );
            assert(continues_stroke(fine_points, i));
        }
    }
    assert forall|row: int, col: int| fine_canvas.ink(row, col) == coarse_canvas.ink(
        row,
        col,
    ) by {
        assert(stroke_set_covers(fine, c, row, col) == stroke_set_covers(coarse, c, row, col));
    }
    fine_canvas.lemma_same_ink_same_grid(&coarse_canvas);
}

/// Whether `more` is the stroke set `fewer` with more strokes started: the
/// same positions in the same order, and every sample that starts a stroke
/// in `fewer` starts one in `more`.
pub open spec fn has_more_breaks(more: Seq<PointSample>, fewer: Seq<PointSample>) -> bool {
    &&& more.len() == fewer.len()
    &&& forall|i: int|
        0 <= i < fewer.len() ==> (#[trigger] more[i]).x == fewer[i].x && more[i].y == fewer[i].y
            && (fewer[i].starts_new_stroke ==> more[i].starts_new_stroke)
}

/// A stroke break can take ink away and never adds any: where more samples
/// start a stroke, the canvas has the same shape, and every cell that is
/// ink there is ink on the raster with fewer breaks. The extent takes no
/// note of which stroke a sample belongs to.
pub proof fn lemma_breaks_add_no_ink(
    more_canvas: RasterCanvas,
    fewer_canvas: RasterCanvas,
    more: Seq<PointSample>,
    fewer: Seq<PointSample>,
    c: RasterConfig,
    row: int,
    col: int,
)
    requires
        has_more_breaks(more, fewer),
        is_raster_of(more_canvas, more, c),
        is_raster_of(fewer_canvas, fewer, c),
        fewer.len() >= 1,
    ensures
        extent_of(more) == extent_of(fewer),
        more_canvas.rows() == fewer_canvas.rows(),
        more_canvas.cols() == fewer_canvas.cols(),
        more_canvas.ink(row, col) ==> fewer_canvas.ink(row, col),
{
    lemma_extent_exists(more);
    lemma_extent_exists(fewer);
    let extent = extent_of(more);
    assert(is_extent(extent, fewer)) by {
        let n = more.len() as int;
        let i0 = choose|i: int| 0 <= i < n && (#[trigger] more[i]).x == extent.min_x;
        let i1 = choose|i: int| 0 <= i < n && (#[trigger] more[i]).x == extent.max_x;
        let i2 = choose|i: int| 0 <= i < n && (#[trigger] more[i]).y == extent.min_y;
        let i3 = choose|i: int| 0 <= i < n && (#[trigger] more[i]).y == extent.max_y;
        assert(fewer[i0].x == extent.min_x && fewer[i1].x == extent.max_x && fewer[i2].y
            == extent.min_y && fewer[i3].y == extent.max_y);
        assert forall|i: int| 0 <= i < n implies extent.min_x <= (#[trigger] fewer[i]).x
            <= extent.max_x && extent.min_y <= fewer[i].y <= extent.max_y by {
            assert(more[i].x == fewer[i].x && more[i].y == fewer[i].y);
        }
    }
    lemma_extent_unique(extent, extent_of(fewer), fewer);
    if more_canvas.ink(row, col) {
        let scale = raster_scale(more, c);
        let more_points = scale.place_all(more);
        let fewer_points = scale.place_all(fewer);
        let i = choose|i: int| #[trigger]
            continues_stroke(more_points, i) && segment_covers(
                more_points[i - 1],
                more_points[i],
                scale.brush,
                row,
                col,
            );
        assert(more[i].x == fewer[i].x && more[i].y == fewer[i].y);
        assert(more[i - 1].x == fewer[i - 1].x && more[i - 1].y == fewer[i - 1].y);
        assert(continues_stroke(fewer_points, i));
        assert(segment_covers(fewer_points[i - 1], fewer_points[i], scale.brush, row, col));
    }
}

/// Separate strokes stay apart: where a point starts a new stroke, the ink
/// of the whole is the ink of the points before it together with the ink of
/// the points from it on. The path from the last point of the one stroke to
/// the first point of the next adds nothing.
pub proof fn lemma_stroke_break_adds_no_ink(
    points: Seq<TransformedPoint>,
    brush: Brush,
    k: int,
    row: int,
    col: int,
)
    requires
        0 <= k < points.len(),
        points[k].starts_new_stroke,
    ensures
        strokes_cover(points, brush, row, col) == (strokes_cover(points.take(k), brush, row, col)
            || strokes_cover(points.skip(k), brush, row, col)),
{
    let head = points.take(k);
    let tail = points.skip(k);
    if strokes_cover(points, brush, row, col) {
        let i = choose|i: int| #[trigger]
            continues_stroke(points, i) && segment_covers(
                points[i - 1],
                points[i],
                brush,
                row,
                col,
            );
        if i < k {
            assert(continues_stroke(head, i));
            assert(head[i - 1] == points[i - 1] && head[i] == points[i]);
        } else {
            assert(i > k);
            assert(continues_stroke(tail, i - k));
            assert(tail[i - k - 1] == points[i - 1] && tail[i - k] == points[i]);
        }
    }
    if strokes_cover(head, brush, row, col) {
        let i = choose|i: int| #[trigger]
            continues_stroke(head, i) && segment_covers(head[i - 1], head[i], brush, row, col);
        assert(head[i - 1] == points[i - 1] && head[i] == points[i]);
        assert(continues_stroke(points, i));
    }
    if strokes_cover(tail, brush, row, col) {
        let i = choose|i: int| #[trigger]
            continues_stroke(tail, i) && segment_covers(tail[i - 1], tail[i], brush, row, col);
        assert(tail[i - 1] == points[i + k - 1] && tail[i] == points[i + k]);
        assert(continues_stroke(points, i + k));
    }
}

/// The same for a stroke set: a sample that starts a new stroke splits the
/// set in two, and under the scale of the whole set the ink of the whole is
/// the ink of its two parts.
pub proof fn lemma_stroke_sets_stay_apart(
    samples: Seq<PointSample>,
    c: RasterConfig,
    k: int,
    row: int,
    col: int,
)
    requires
        0 <= k < samples.len(),
        samples[k].starts_new_stroke,
    ensures
        stroke_set_covers(samples, c, row, col) == ({
            let scale = raster_scale(samples, c);
            strokes_cover(scale.place_all(samples.take(k)), scale.brush, row, col) || strokes_cover(
                scale.place_all(samples.skip(k)),
                scale.brush,
                row,
                col,
            )
        }),
{
    let scale = raster_scale(samples, c);
    let points = scale.place_all(samples);
    assert(points.take(k) =~= scale.place_all(samples.take(k)));
    assert(points.skip(k) =~= scale.place_all(samples.skip(k)));
    lemma_stroke_break_adds_no_ink(points, scale.brush, k, row, col);
}

/// The path between two strokes stays blank: on the raster of a stroke set
/// in which sample `k` starts a new stroke, a cell that no segment of the
/// samples before `k` and no segment of the samples from `k` on covers holds
/// no ink, though the straight path from sample `k - 1` to sample `k` may
/// pass over it.
pub proof fn lemma_path_between_strokes_stays_blank(
    canvas: RasterCanvas,
    samples: Seq<PointSample>,
    c: RasterConfig,
    k: int,
    row: int,
    col: int,
)
    requires
        is_raster_of(canvas, samples, c),
        0 <= k < samples.len(),
        samples[k].starts_new_stroke,
        !strokes_cover(
            raster_scale(samples, c).place_all(samples.take(k)),
            raster_scale(samples, c).brush,
            row,
            col,
        ),
        !strokes_cover(
            raster_scale(samples, c).place_all(samples.skip(k)),
            raster_scale(samples, c).brush,
            row,
            col,
        ),
    ensures
        !canvas.ink(row, col),
{
    lemma_stroke_sets_stay_apart(samples, c, k, row, col);
}

} // verus!
