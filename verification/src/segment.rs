//! Filling thick line segments into the canvas.
//!
//! A segment joins two canvas-space points. Its ink is the area between two
//! copies of the segment's line, one shifted left and one shifted right by
//! the brush's half-width, cut off above and below at the brush's vertical
//! half-width beyond the segment's ends. A cell takes part by its column's
//! left border: the two lines are evaluated there, and the cells from the
//! lower to the upper of the two heights are filled.

use vstd::prelude::*;
use crate::arith::{
    clamp,
    floor_div,
    floor_ratio,
    lemma_floor_ratio_bounds,
    lemma_floor_ratio_magnitude,
    lemma_floor_ratio_monotonic,
    lemma_floor_ratio_scaling,
    lemma_product_bound,
    lemma_product_magnitude,
    lemma_scaled_product,
    max_int,
    min_int,
};
use crate::canvas::RasterCanvas;
use crate::scale::{continues_stroke, Brush, TransformedPoint, COORD_LIMIT, HALF_LIMIT, UNIT_LIMIT};

verus! {

/// An end of a shifted line lies within this many units of the origin.
pub const EDGE_LIMIT: i64 = 432345564227567616;

/// A column border lies within this many units of an end of a shifted line.
pub const REACH_LIMIT: i64 = 576460752303423488;

/// The row in which the line through `(x0, y0)` and `(x1, y1)`, given in
/// units, passes the left border of column `col`: the floor, in cells, of
/// `y0 + (y1 - y0) * (col * unit - x0) / (x1 - x0)`.
pub open spec fn line_row(col: int, x0: int, y0: int, x1: int, y1: int, unit: int) -> int
    recommends
        x0 < x1,
        unit > 0,
{
    floor_ratio(y0 * (x1 - x0) + (y1 - y0) * (col * unit - x0), (x1 - x0) * unit)
}

/// The first row a segment may fill: where the smaller `y` of its two ends
/// less the vertical half-width lies.
pub open spec fn low_row(prev: TransformedPoint, curr: TransformedPoint, brush: Brush) -> int {
    floor_ratio(min_int(prev.y as int, curr.y as int) - brush.half_y, brush.unit as int)
}

/// The last row a segment may fill: where the larger `y` of its two ends
/// plus the vertical half-width lies.
pub open spec fn high_row(prev: TransformedPoint, curr: TransformedPoint, brush: Brush) -> int {
    floor_ratio(max_int(prev.y as int, curr.y as int) + brush.half_y, brush.unit as int)
}

/// The first column a sloped segment reaches.
pub open spec fn first_col(prev: TransformedPoint, curr: TransformedPoint, brush: Brush) -> int {
    floor_ratio(min_int(prev.x as int, curr.x as int) - brush.half_x, brush.unit as int)
}

/// The last column a sloped segment reaches.
pub open spec fn last_col(prev: TransformedPoint, curr: TransformedPoint, brush: Brush) -> int {
    floor_ratio(max_int(prev.x as int, curr.x as int) + brush.half_x, brush.unit as int)
}

/// The end of the segment with the smaller `x`.
pub open spec fn west_end(prev: TransformedPoint, curr: TransformedPoint) -> TransformedPoint {
    if prev.x < curr.x {
        prev
    } else {
        curr
    }
}

/// The end of the segment with the larger `x`.
pub open spec fn east_end(prev: TransformedPoint, curr: TransformedPoint) -> TransformedPoint {
    if prev.x < curr.x {
        curr
    } else {
        prev
    }
}

/// The row of the left-shifted line at column `col`, for a sloped segment.
pub open spec fn left_edge_row(
    prev: TransformedPoint,
    curr: TransformedPoint,
    brush: Brush,
    col: int,
) -> int {
    let a = west_end(prev, curr);
    let b = east_end(prev, curr);
    line_row(col, a.x - brush.half_x, a.y as int, b.x - brush.half_x, b.y as int, brush.unit as int)
}

/// The row of the right-shifted line at column `col`, for a sloped segment.
pub open spec fn right_edge_row(
    prev: TransformedPoint,
    curr: TransformedPoint,
    brush: Brush,
    col: int,
) -> int {
    let a = west_end(prev, curr);
    let b = east_end(prev, curr);
    line_row(col, a.x + brush.half_x, a.y as int, b.x + brush.half_x, b.y as int, brush.unit as int)
}

/// The first row a sloped segment fills in column `col`: the lower of the
/// two shifted lines, kept within the segment's vertical envelope.
pub open spec fn bottom_row(
    prev: TransformedPoint,
    curr: TransformedPoint,
    brush: Brush,
    col: int,
) -> int {
    clamp(
        min_int(left_edge_row(prev, curr, brush, col), right_edge_row(prev, curr, brush, col)),
        low_row(prev, curr, brush),
        high_row(prev, curr, brush),
    )
}

/// The last row a sloped segment fills in column `col`: the upper of the
/// two shifted lines, kept within the segment's vertical envelope.
pub open spec fn top_row(
    prev: TransformedPoint,
    curr: TransformedPoint,
    brush: Brush,
    col: int,
) -> int {
    clamp(
        max_int(left_edge_row(prev, curr, brush, col), right_edge_row(prev, curr, brush, col)),
        low_row(prev, curr, brush),
        high_row(prev, curr, brush),
    )
}

/// Whether the segment from `prev` to `curr` puts ink at `(row, col)`, on a
/// canvas without borders.
///
/// A vertical segment has no slope: it fills the one column that holds it,
/// over its vertical envelope. Any other segment fills, in each column from
/// its first to its last, the rows from `bottom_row` to `top_row`.
pub open spec fn segment_covers(
    prev: TransformedPoint,
    curr: TransformedPoint,
    brush: Brush,
    row: int,
    col: int,
) -> bool {
    if prev.x == curr.x {
        &&& col == floor_ratio(prev.x as int, brush.unit as int)
        &&& low_row(prev, curr, brush) <= row <= high_row(prev, curr, brush)
    } else {
        &&& first_col(prev, curr, brush) <= col <= last_col(prev, curr, brush)
        &&& bottom_row(prev, curr, brush, col) <= row <= top_row(prev, curr, brush, col)
    }
}

/// The row of the cell that a point lies in.
pub open spec fn row_of(p: TransformedPoint, brush: Brush) -> int {
    floor_ratio(p.y as int, brush.unit as int)
}

/// The column of the cell that a point lies in.
pub open spec fn col_of(p: TransformedPoint, brush: Brush) -> int {
    floor_ratio(p.x as int, brush.unit as int)
}

/// Whether some segment of the strokes puts ink at `(row, col)`. Only
/// points that continue a stroke are joined to the point before them.
pub open spec fn strokes_cover(
    points: Seq<TransformedPoint>,
    brush: Brush,
    row: int,
    col: int,
) -> bool {
    exists|i: int| #[trigger]
        continues_stroke(points, i) && segment_covers(points[i - 1], points[i], brush, row, col)
}

/// Whether one of the segments that end before point `limit` puts ink at
/// `(row, col)`.
pub open spec fn strokes_cover_before(
    points: Seq<TransformedPoint>,
    brush: Brush,
    limit: int,
    row: int,
    col: int,
) -> bool {
    exists|i: int| #[trigger]
        continues_stroke(points, i) && i < limit && segment_covers(
            points[i - 1],
            points[i],
            brush,
            row,
            col,
        )
}

/// Whether `after` is `before` with the segment from `prev` to `curr`
/// filled in: the shape is kept, ink stays ink, and the cells of the canvas
/// that the segment covers are ink as well.
pub open spec fn is_filled_with(
    after: RasterCanvas,
    before: RasterCanvas,
    prev: TransformedPoint,
    curr: TransformedPoint,
    brush: Brush,
) -> bool {
    &&& after.rows() == before.rows()
    &&& after.cols() == before.cols()
    &&& forall|r: int, c: int|
        after.ink(r, c) == (before.ink(r, c) || (before.in_bounds(r, c) && segment_covers(
            prev,
            curr,
            brush,
            r,
            c,
        )))
}

/// The row of a line at a column border is the floor of the point-slope
/// value there: with `x` the border in units, the line's height
/// `y0 + (y1 - y0) * (x - x0) / (x1 - x0)` lies in that row. At the column
/// border of either of its two points the line passes through that point.
/// The line is given by two points of different `x`, so its slope is a
/// ratio with a divisor other than zero.
pub proof fn lemma_line_row_is_point_slope(
    col: int,
    x0: int,
    y0: int,
    x1: int,
    y1: int,
    unit: int,
)
    requires
        x0 < x1,
        unit >= 1,
    ensures
        ({
            let row = line_row(col, x0, y0, x1, y1, unit);
            let run = x1 - x0;
            let height_times_run = y0 * run + (y1 - y0) * (col * unit - x0);
            row * (unit * run) <= height_times_run < (row + 1) * (unit * run)
        }),
        col * unit == x0 ==> line_row(col, x0, y0, x1, y1, unit) == floor_ratio(y0, unit),
        col * unit == x1 ==> line_row(col, x0, y0, x1, y1, unit) == floor_ratio(y1, unit),
{
    let run = x1 - x0;
    let span = run * unit;
    let num = y0 * run + (y1 - y0) * (col * unit - x0);
    let row = line_row(col, x0, y0, x1, y1, unit);
    assert(span >= 1 && span == unit * run) by (nonlinear_arith)
        requires
            span == run * unit,
            run >= 1,
            unit >= 1,
    ;
    lemma_floor_ratio_bounds(num, span);
    assert((row + 1) * (unit * run) == row * span + span) by (nonlinear_arith)
        requires
            span == unit * run,
    ;
    if col * unit == x0 {
        assert(num == run * y0) by (nonlinear_arith)
            requires
                num == y0 * run + (y1 - y0) * (col * unit - x0),
                col * unit == x0,
        ;
        lemma_floor_ratio_scaling(y0, unit, run);
    }
    if col * unit == x1 {
        assert(num == run * y1) by (nonlinear_arith)
            requires
                num == y0 * run + (y1 - y0) * (col * unit - x0),
                col * unit == x1,
                run == x1 - x0,
        ;
        lemma_floor_ratio_scaling(y1, unit, run);
    }
}

/// A vertical segment has no slope and is given none: it fills one
/// column, the one that holds it, in one unbroken run of rows that reaches
/// from the vertical half-width before its one end to the vertical
/// half-width after its other, whichever way it is drawn.
pub proof fn lemma_vertical_segment_is_one_column(
    prev: TransformedPoint,
    curr: TransformedPoint,
    brush: Brush,
    row: int,
    col: int,
)
    requires
        brush.wf(),
        prev.x == curr.x,
    ensures
        segment_covers(prev, curr, brush, row, col) <==> col == col_of(prev, brush) && low_row(
            prev,
            curr,
            brush,
        ) <= row <= high_row(prev, curr, brush),
        segment_covers(prev, curr, brush, row, col) == segment_covers(curr, prev, brush, row, col),
        low_row(prev, curr, brush) <= row_of(prev, brush) <= high_row(prev, curr, brush),
        low_row(prev, curr, brush) <= row_of(curr, brush) <= high_row(prev, curr, brush),
{
    let unit = brush.unit as int;
    let least = min_int(prev.y as int, curr.y as int) - brush.half_y;
    let most = max_int(prev.y as int, curr.y as int) + brush.half_y;
    lemma_floor_ratio_monotonic(least, prev.y as int, unit);
    lemma_floor_ratio_monotonic(prev.y as int, most, unit);
    lemma_floor_ratio_monotonic(least, curr.y as int, unit);
    lemma_floor_ratio_monotonic(curr.y as int, most, unit);
}

/// Whether `fine` is the point `p` on a grid with `k` times as many units
/// to the cell.
pub open spec fn is_refined_point(fine: TransformedPoint, p: TransformedPoint, k: int) -> bool {
    &&& fine.x == k * p.x
    &&& fine.y == k * p.y
    &&& fine.starts_new_stroke == p.starts_new_stroke
}

/// Whether `fine` is the brush `b` on a grid with `k` times as many units
/// to the cell.
pub open spec fn is_refined_brush(fine: Brush, b: Brush, k: int) -> bool {
    &&& fine.unit == k * b.unit
    &&& fine.half_x == k * b.half_x
    &&& fine.half_y == k * b.half_y
}

/// A line passes a column border in the same row on a finer grid.
proof fn lemma_line_row_on_finer_grid(
    col: int,
    x0: int,
    y0: int,
    x1: int,
    y1: int,
    unit: int,
    k: int,
)
    requires
        x0 < x1,
        unit >= 1,
        k >= 1,
    ensures
        line_row(col, k * x0, k * y0, k * x1, k * y1, k * unit) == line_row(
            col,
            x0,
            y0,
            x1,
            y1,
            unit,
        ),
{
    let run = x1 - x0;
    let rise = y1 - y0;
    let reach = col * unit - x0;
    let num = y0 * run + rise * reach;
    let den = run * unit;
    assert(k * x1 - k * x0 == k * run && k * y1 - k * y0 == k * rise && col * (k * unit) - k * x0
        == k * reach) by (nonlinear_arith)
        requires
            run == x1 - x0,
            rise == y1 - y0,
            reach == col * unit - x0,
    ;
    lemma_scaled_product(k, y0, run);
    lemma_scaled_product(k, rise, reach);
    lemma_scaled_product(k, run, unit);
    assert((k * k) * (y0 * run) + (k * k) * (rise * reach) == (k * k) * num) by (nonlinear_arith)
        requires
            num == y0 * run + rise * reach,
    ;
    assert(den >= 1 && k * k >= 1) by (nonlinear_arith)
        requires
            den == run * unit,
            run >= 1,
            unit >= 1,
            k >= 1,
    ;
    assert(line_row(col, k * x0, k * y0, k * x1, k * y1, k * unit) == floor_ratio(
        (k * k) * num,
        (k * k) * den,
    ));
    lemma_floor_ratio_scaling(num, den, k * k);
}

/// The cells that a segment covers depend on where its ends lie, not on
/// how finely positions are counted: with `k` times as many units to the
/// cell, and points and brush counted in those, the same cells are covered.
pub proof fn lemma_cover_is_independent_of_resolution(
    prev: TransformedPoint,
    curr: TransformedPoint,
    brush: Brush,
    fine_prev: TransformedPoint,
    fine_curr: TransformedPoint,
    fine_brush: Brush,
    k: int,
    row: int,
    col: int,
)
    requires
        brush.wf(),
        k >= 1,
        is_refined_point(fine_prev, prev, k),
        is_refined_point(fine_curr, curr, k),
        is_refined_brush(fine_brush, brush, k),
    ensures
        segment_covers(fine_prev, fine_curr, fine_brush, row, col) == segment_covers(
            prev,
            curr,
            brush,
            row,
            col,
        ),
{
    let unit = brush.unit as int;
    let hx = brush.half_x as int;
    let hy = brush.half_y as int;
    let y_least = min_int(prev.y as int, curr.y as int);
    let y_most = max_int(prev.y as int, curr.y as int);
    let x_least = min_int(prev.x as int, curr.x as int);
    let x_most = max_int(prev.x as int, curr.x as int);
    assert(min_int(fine_prev.y as int, fine_curr.y as int) - fine_brush.half_y == k * (y_least
        - hy) && max_int(fine_prev.y as int, fine_curr.y as int) + fine_brush.half_y == k * (y_most
        + hy) && min_int(fine_prev.x as int, fine_curr.x as int) - fine_brush.half_x == k * (x_least
        - hx) && max_int(fine_prev.x as int, fine_curr.x as int) + fine_brush.half_x == k * (x_most
        + hx) && (fine_prev.x < fine_curr.x <==> prev.x < curr.x) && (fine_prev.x == fine_curr.x
        <==> prev.x == curr.x)) by (nonlinear_arith)
        requires
            k >= 1,
            is_refined_point(fine_prev, prev, k),
            is_refined_point(fine_curr, curr, k),
            is_refined_brush(fine_brush, brush, k),
            y_least == min_int(prev.y as int, curr.y as int),
            y_most == max_int(prev.y as int, curr.y as int),
            x_least == min_int(prev.x as int, curr.x as int),
            x_most == max_int(prev.x as int, curr.x as int),
            hx == brush.half_x,
            hy == brush.half_y,
    ;
    lemma_floor_ratio_scaling(y_least - hy, unit, k);
    lemma_floor_ratio_scaling(y_most + hy, unit, k);
    lemma_floor_ratio_scaling(x_least - hx, unit, k);
    lemma_floor_ratio_scaling(x_most + hx, unit, k);
    lemma_floor_ratio_scaling(prev.x as int, unit, k);
    assert(low_row(fine_prev, fine_curr, fine_brush) == low_row(prev, curr, brush));
    assert(high_row(fine_prev, fine_curr, fine_brush) == high_row(prev, curr, brush));
    assert(first_col(fine_prev, fine_curr, fine_brush) == first_col(prev, curr, brush));
    assert(last_col(fine_prev, fine_curr, fine_brush) == last_col(prev, curr, brush));
    if prev.x != curr.x {
        let a = west_end(prev, curr);
        let b = east_end(prev, curr);
        let fine_a = west_end(fine_prev, fine_curr);
        let fine_b = east_end(fine_prev, fine_curr);
        assert(is_refined_point(fine_a, a, k) && is_refined_point(fine_b, b, k));
        lemma_line_row_on_finer_grid(col, a.x - hx, a.y as int, b.x - hx, b.y as int, unit, k);
        lemma_line_row_on_finer_grid(col, a.x + hx, a.y as int, b.x + hx, b.y as int, unit, k);
        assert(fine_a.x - fine_brush.half_x == k * (a.x - hx) && fine_b.x - fine_brush.half_x == k
            * (b.x - hx) && fine_a.x + fine_brush.half_x == k * (a.x + hx) && fine_b.x
            + fine_brush.half_x == k * (b.x + hx)) by (nonlinear_arith)
            requires
                is_refined_point(fine_a, a, k),
                is_refined_point(fine_b, b, k),
                is_refined_brush(fine_brush, brush, k),
                hx == brush.half_x,
        ;
        assert(left_edge_row(fine_prev, fine_curr, fine_brush, col) == left_edge_row(
            prev,
            curr,
            brush,
            col,
        ));
        assert(right_edge_row(fine_prev, fine_curr, fine_brush, col) == right_edge_row(
            prev,
            curr,
            brush,
            col,
        ));
    }
}

/// At the column of an end of a sloped segment, the two shifted lines pass
/// on either side of that end, or through it, if the half-width is a cell
/// or more. `(ex, ey)` is either end of the segment from `(ax, ay)` west to
/// `(bx, by)` east.
proof fn lemma_shifted_lines_straddle_end(
    ax: int,
    ay: int,
    bx: int,
    by: int,
    hx: int,
    unit: int,
    ex: int,
    ey: int,
)
    requires
        ax < bx,
        1 <= unit <= hx,
        (ex == ax && ey == ay) || (ex == bx && ey == by),
    ensures
        ({
            let col = floor_ratio(ex, unit);
            let left = line_row(col, ax - hx, ay, bx - hx, by, unit);
            let right = line_row(col, ax + hx, ay, bx + hx, by, unit);
            min_int(left, right) <= floor_ratio(ey, unit) <= max_int(left, right)
        }),
{
    let col = floor_ratio(ex, unit);
    let run = bx - ax;
    let rise = by - ay;
    let border = col * unit;
    let span = run * unit;
    let left_num = ay * run + rise * (border - (ax - hx));
    let right_num = ay * run + rise * (border - (ax + hx));
    let end_num = ey * run;
    lemma_floor_ratio_bounds(ex, unit);
    assert(span >= 1) by (nonlinear_arith)
        requires
            span == run * unit,
            run >= 1,
            unit >= 1,
    ;
    assert(left_num - end_num == rise * (border - ex + hx)) by (nonlinear_arith)
        requires
            left_num == ay * run + rise * (border - (ax - hx)),
            end_num == ey * run,
            run == bx - ax,
            rise == by - ay,
            (ex == ax && ey == ay) || (ex == bx && ey == by),
    ;
    assert(right_num - end_num == rise * (border - ex - hx)) by (nonlinear_arith)
        requires
            right_num == ay * run + rise * (border - (ax + hx)),
            end_num == ey * run,
            run == bx - ax,
            rise == by - ay,
            (ex == ax && ey == ay) || (ex == bx && ey == by),
    ;
    let ahead = border - ex + hx;
    let behind = border - ex - hx;
    assert(ahead >= 0 && behind <= 0);
    assert((rise >= 0 ==> rise * ahead >= 0 && rise * behind <= 0) && (rise <= 0 ==> rise * ahead
        <= 0 && rise * behind >= 0)) by (nonlinear_arith)
        requires
            ahead >= 0,
            behind <= 0,
    ;
    assert(floor_ratio(end_num, span) == floor_ratio(ey, unit)) by {
        lemma_floor_ratio_scaling(ey, unit, run);
        assert(run * ey == ey * run) by (nonlinear_arith);
    }
    assert(line_row(col, ax - hx, ay, bx - hx, by, unit) == floor_ratio(left_num, span));
    assert(line_row(col, ax + hx, ay, bx + hx, by, unit) == floor_ratio(right_num, span));
    if rise >= 0 {
        lemma_floor_ratio_monotonic(right_num, end_num, span);
        lemma_floor_ratio_monotonic(end_num, left_num, span);
    } else {
        lemma_floor_ratio_monotonic(left_num, end_num, span);
        lemma_floor_ratio_monotonic(end_num, right_num, span);
    }
}

/// A segment covers the cells of its two ends, if the brush's horizontal
/// half-width is a cell or more. So the segments of a stroke hang together:
/// each covers the cell in which the next one starts.
pub proof fn lemma_segment_covers_its_ends(
    prev: TransformedPoint,
    curr: TransformedPoint,
    brush: Brush,
)
    requires
        brush.wf(),
        brush.half_x >= brush.unit,
    ensures
        segment_covers(prev, curr, brush, row_of(prev, brush), col_of(prev, brush)),
        segment_covers(prev, curr, brush, row_of(curr, brush), col_of(curr, brush)),
{
    let unit = brush.unit as int;
    let hx = brush.half_x as int;
    let hy = brush.half_y as int;
    let least = min_int(prev.y as int, curr.y as int) - hy;
    let most = max_int(prev.y as int, curr.y as int) + hy;
    lemma_floor_ratio_monotonic(least, prev.y as int, unit);
    lemma_floor_ratio_monotonic(prev.y as int, most, unit);
    lemma_floor_ratio_monotonic(least, curr.y as int, unit);
    lemma_floor_ratio_monotonic(curr.y as int, most, unit);
    if prev.x != curr.x {
        let a = west_end(prev, curr);
        let b = east_end(prev, curr);
        lemma_floor_ratio_monotonic(a.x - hx, a.x as int, unit);
        lemma_floor_ratio_monotonic(a.x as int, b.x as int, unit);
        lemma_floor_ratio_monotonic(b.x as int, b.x + hx, unit);
        lemma_shifted_lines_straddle_end(
            a.x as int,
            a.y as int,
            b.x as int,
            b.y as int,
            hx,
            unit,
            prev.x as int,
            prev.y as int,
        );
        lemma_shifted_lines_straddle_end(
            a.x as int,
            a.y as int,
            b.x as int,
            b.y as int,
            hx,
            unit,
            curr.x as int,
            curr.y as int,
        );
    }
}

/// Whatever its slope, a segment fills nothing beyond its own envelope: its
/// ink lies within the vertical half-width of the rows of its ends, and
/// within the horizontal half-width of their columns.
pub proof fn lemma_ink_within_envelope(
    prev: TransformedPoint,
    curr: TransformedPoint,
    brush: Brush,
    row: int,
    col: int,
)
    requires
        brush.wf(),
        segment_covers(prev, curr, brush, row, col),
    ensures
        low_row(prev, curr, brush) <= row <= high_row(prev, curr, brush),
        first_col(prev, curr, brush) <= col <= last_col(prev, curr, brush),
{
    let unit = brush.unit as int;
    lemma_floor_ratio_monotonic(
        min_int(prev.y as int, curr.y as int) - brush.half_y,
        max_int(prev.y as int, curr.y as int) + brush.half_y,
        unit,
    );
    if prev.x == curr.x {
        lemma_floor_ratio_monotonic(prev.x - brush.half_x, prev.x as int, unit);
        lemma_floor_ratio_monotonic(prev.x as int, prev.x + brush.half_x, unit);
    }
}

/// Filling is idempotent: a segment filled a second time changes nothing.
pub proof fn lemma_fill_is_idempotent(
    blank: RasterCanvas,
    once: RasterCanvas,
    twice: RasterCanvas,
    prev: TransformedPoint,
    curr: TransformedPoint,
    brush: Brush,
)
    requires
        is_filled_with(once, blank, prev, curr, brush),
        is_filled_with(twice, once, prev, curr, brush),
    ensures
        twice@ == once@,
{
    twice.lemma_same_ink_same_grid(&once);
}

/// Ink does not add up or blend: two segments filled in either order give
/// the same grid.
pub proof fn lemma_fill_order_is_immaterial(
    start: RasterCanvas,
    first: RasterCanvas,
    first_then_second: RasterCanvas,
    second: RasterCanvas,
    second_then_first: RasterCanvas,
    a: (TransformedPoint, TransformedPoint),
    b: (TransformedPoint, TransformedPoint),
    brush: Brush,
)
    requires
        is_filled_with(first, start, a.0, a.1, brush),
        is_filled_with(first_then_second, first, b.0, b.1, brush),
        is_filled_with(second, start, b.0, b.1, brush),
        is_filled_with(second_then_first, second, a.0, a.1, brush),
    ensures
        first_then_second@ == second_then_first@,
{
    first_then_second.lemma_same_ink_same_grid(&second_then_first);
}

/// Evaluates a line at the left border of a column and gives the row it
/// passes there. The line is never vertical: its ends are given west first.
pub fn row_of_line(col: u16, x0: i64, y0: i64, x1: i64, y1: i64, unit: i64) -> (row: i128)
    requires
        x0 < x1,
        -EDGE_LIMIT <= x0 <= EDGE_LIMIT,
        -EDGE_LIMIT <= x1 <= EDGE_LIMIT,
        -COORD_LIMIT <= y0 <= COORD_LIMIT,
        -COORD_LIMIT <= y1 <= COORD_LIMIT,
        1 <= unit <= UNIT_LIMIT,
    ensures
        row == line_row(col as int, x0 as int, y0 as int, x1 as int, y1 as int, unit as int),
{
    let run: i128 = x1 as i128 - x0 as i128;
    let rise: i128 = y1 as i128 - y0 as i128;
    proof {
        lemma_product_bound(col as int, unit as int, 65535, UNIT_LIMIT as int);
    }
    let reach: i128 = col as i128 * unit as i128 - x0 as i128;
    proof {
        lemma_product_magnitude(y0 as int, run as int, COORD_LIMIT as int, 2 * EDGE_LIMIT);
        lemma_product_magnitude(rise as int, reach as int, 2 * COORD_LIMIT, REACH_LIMIT as int);
        lemma_product_bound(run as int, unit as int, 2 * EDGE_LIMIT, UNIT_LIMIT as int);
        assert(run * unit >= 1) by (nonlinear_arith)
            requires
                run >= 1,
                unit >= 1,
        ;
    }
    floor_div(y0 as i128 * run + rise * reach, run * unit as i128)
}

/// Fills the thick segment from `prev` to `curr` into the canvas. Whatever
/// part of it lies off the canvas is clipped away.
pub fn fill_segment(
    canvas: &mut RasterCanvas,
    prev: &TransformedPoint,
    curr: &TransformedPoint,
    brush: &Brush,
)
    requires
        old(canvas).wf(),
        prev.wf(),
        curr.wf(),
        brush.wf(),
    ensures
        final(canvas).wf(),
        is_filled_with(*final(canvas), *old(canvas), *prev, *curr, *brush),
{
    let unit: i128 = brush.unit as i128;
    let least: i128 = (if prev.y < curr.y { prev.y } else { curr.y }) as i128
        - brush.half_y as i128;
    let most: i128 = (if prev.y < curr.y { curr.y } else { prev.y }) as i128 + brush.half_y as i128;
    proof {
        lemma_floor_ratio_magnitude(least as int, unit as int, EDGE_LIMIT as int);
        lemma_floor_ratio_magnitude(most as int, unit as int, EDGE_LIMIT as int);
        lemma_floor_ratio_monotonic(least as int, most as int, unit as int);
    }
    let low: i64 = floor_div(least, unit) as i64;
    let high: i64 = floor_div(most, unit) as i64;
    if prev.x == curr.x {
        proof {
            lemma_floor_ratio_magnitude(prev.x as int, unit as int, COORD_LIMIT as int);
        }
        let col: i64 = floor_div(prev.x as i128, unit) as i64;
        canvas.fill_column(col, low, high);
        return ;
    }
    let west: TransformedPoint = if prev.x < curr.x { *prev } else { *curr };
    let east: TransformedPoint = if prev.x < curr.x { *curr } else { *prev };
    proof {
        lemma_floor_ratio_magnitude(west.x - brush.half_x, unit as int, EDGE_LIMIT as int);
        lemma_floor_ratio_magnitude(east.x + brush.half_x, unit as int, EDGE_LIMIT as int);
    }
    let first: i64 = floor_div(west.x as i128 - brush.half_x as i128, unit) as i64;
    let last: i64 = floor_div(east.x as i128 + brush.half_x as i128, unit) as i64;
    let width: usize = canvas.width();
    if last < 0 || first >= width as i64 || width == 0 {
        return ;
    }
    let start: u16 = if first < 0 { 0 } else { first as u16 };
    let stop: u16 = if last >= width as i64 { (width - 1) as u16 } else { last as u16 };
    if start > stop {
        return ;
    }
    let mut col: u16 = start;
    loop
        invariant_except_break
            start <= col <= stop,
            forall|r: int, c: int|
                canvas.ink(r, c) == (old(canvas).ink(r, c) || (old(canvas).in_bounds(r, c) && c
                    < col && segment_covers(*prev, *curr, *brush, r, c))),
        invariant
            canvas.wf(),
            canvas.rows() == old(canvas).rows(),
            canvas.cols() == old(canvas).cols(),
            prev.wf(),
            curr.wf(),
            brush.wf(),
            prev.x != curr.x,
            west == west_end(*prev, *curr),
            east == east_end(*prev, *curr),
            low == low_row(*prev, *curr, *brush),
            high == high_row(*prev, *curr, *brush),
            low <= high,
            first == first_col(*prev, *curr, *brush),
            last == last_col(*prev, *curr, *brush),
            width == canvas.cols(),
            start == (if first < 0 { 0 } else { first as int }),
            stop == (if last >= width { width - 1 } else { last as int }),
            stop < width,
        ensures
            forall|r: int, c: int|
                canvas.ink(r, c) == (old(canvas).ink(r, c) || (old(canvas).in_bounds(r, c)
                    && segment_covers(*prev, *curr, *brush, r, c))),
        decreases stop - col,
    {
        let left: i128 = row_of_line(
            col,
            west.x - brush.half_x,
            west.y,
            east.x - brush.half_x,
            east.y,
            brush.unit,
        );
        let right: i128 = row_of_line(
            col,
            west.x + brush.half_x,
            west.y,
            east.x + brush.half_x,
            east.y,
            brush.unit,
        );
        let lower: i128 = if left < right { left } else { right };
        let upper: i128 = if left < right { right } else { left };
        let bottom: i64 = if lower < low as i128 {
            low
        } else if lower > high as i128 {
            high
        } else {
            lower as i64
        };
        let top: i64 = if upper < low as i128 {
            low
        } else if upper > high as i128 {
            high
        } else {
            upper as i64
        };
        assert(bottom == bottom_row(*prev, *curr, *brush, col as int));
        assert(top == top_row(*prev, *curr, *brush, col as int));
        canvas.fill_column(col as i64, bottom, top);
        if col == stop {
            break ;
        }
        col = col + 1;
    }
}

/// Walks the points and fills the segment before every point that continues
/// a stroke. A point that starts a new stroke is joined to nothing before
/// it, which keeps separate strokes apart.
pub fn draw_strokes(canvas: &mut RasterCanvas, points: &[TransformedPoint], brush: &Brush)
    requires
        old(canvas).wf(),
        brush.wf(),
        forall|i: int| 0 <= i < points@.len() ==> (#[trigger] points@[i]).wf(),
    ensures
        final(canvas).wf(),
        final(canvas).rows() == old(canvas).rows(),
        final(canvas).cols() == old(canvas).cols(),
        forall|r: int, c: int|
            final(canvas).ink(r, c) == (old(canvas).ink(r, c) || (old(canvas).in_bounds(r, c)
                && strokes_cover(points@, *brush, r, c))),
{
    let n: usize = points.len();
    let mut i: usize = 1;
    while i < n
        invariant
            1 <= i,
            n == points@.len(),
            canvas.wf(),
            brush.wf(),
            canvas.rows() == old(canvas).rows(),
            canvas.cols() == old(canvas).cols(),
            forall|k: int| 0 <= k < points@.len() ==> (#[trigger] points@[k]).wf(),
            forall|r: int, c: int|
                canvas.ink(r, c) == (old(canvas).ink(r, c) || (old(canvas).in_bounds(r, c)
                    && strokes_cover_before(points@, *brush, i as int, r, c))),
        decreases n - i,
    {
        if !points[i].starts_new_stroke {
            fill_segment(canvas, &points[i - 1], &points[i], brush);
        }
        proof {
            assert forall|r: int, c: int|
                canvas.ink(r, c) == (old(canvas).ink(r, c) || (old(canvas).in_bounds(r, c)
                    && strokes_cover_before(points@, *brush, i + 1, r, c))) by {
                let here = continues_stroke(points@, i as int) && segment_covers(
                    points@[i - 1],
                    points@[i as int],
                    *brush,
                    r,
                    c,
                );
                assert(strokes_cover_before(points@, *brush, i + 1, r, c) == (
                strokes_cover_before(points@, *brush, i as int, r, c) || here));
            }
        }
        i = i + 1;
    }
    proof {
        assert forall|r: int, c: int|
            strokes_cover_before(points@, *brush, i as int, r, c) == strokes_cover(
                points@,
                *brush,
                r,
                c,
            ) by {}
    }
}

} // verus!
