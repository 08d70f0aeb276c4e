use stroke_raster::canvas::RasterCanvas;
use stroke_raster::scale::{Brush, TransformedPoint, COORD_LIMIT, HALF_LIMIT, UNIT_LIMIT};
use stroke_raster::segment::{draw_strokes, fill_segment, row_of_line};

fn point(x: i64, y: i64, starts_new_stroke: bool) -> TransformedPoint {
    TransformedPoint::new(x, y, starts_new_stroke).unwrap()
}

fn picture(canvas: &RasterCanvas) -> Vec<String> {
    (0..canvas.height())
        .map(|r| (0..canvas.width()).map(|c| if canvas.is_ink(r, c) { '#' } else { '.' }).collect())
        .collect()
}

fn ink_count(canvas: &RasterCanvas) -> usize {
    canvas.intensities().iter().filter(|v| **v == 1).count()
}

#[test]
fn vertical_segment_fills_a_single_contiguous_column() {
    let mut canvas = RasterCanvas::blank(50, 20).unwrap();
    let brush = Brush::new(1, 5, 2).unwrap();
    fill_segment(&mut canvas, &point(5, 0, true), &point(5, 40, false), &brush);
    for r in 0..50 {
        for c in 0..20 {
            assert_eq!(canvas.is_ink(r, c), c == 5 && r <= 42);
        }
    }
}

#[test]
fn vertical_segment_drawn_upwards_fills_the_same_column() {
    let mut down = RasterCanvas::blank(50, 20).unwrap();
    let mut up = RasterCanvas::blank(50, 20).unwrap();
    let brush = Brush::new(1, 5, 2).unwrap();
    fill_segment(&mut down, &point(5, 3, true), &point(5, 40, false), &brush);
    fill_segment(&mut up, &point(5, 40, true), &point(5, 3, false), &brush);
    assert_eq!(down.intensities(), up.intensities());
    assert_eq!(ink_count(&down), 42);
    assert!(down.is_ink(1, 5));
    assert!(!down.is_ink(0, 5));
    assert!(down.is_ink(42, 5));
    assert!(!down.is_ink(43, 5));
}

#[test]
fn vertical_segment_between_cell_borders_lies_in_the_cell_that_holds_it() {
    let mut canvas = RasterCanvas::blank(4, 4).unwrap();
    let brush = Brush::new(10, 0, 0).unwrap();
    fill_segment(&mut canvas, &point(29, 5, true), &point(29, 25, false), &brush);
    assert_eq!(picture(&canvas), vec!["..#.", "..#.", "..#.", "...."]);
}

#[test]
fn each_tent_segment_covers_the_shared_point() {
    let brush = Brush::new(800, 4000, 1000).unwrap();
    let a = point(160000, 40000, true);
    let b = point(320000, 120000, false);
    let c = point(480000, 40000, false);
    let mut first = RasterCanvas::blank(201, 800).unwrap();
    fill_segment(&mut first, &a, &b, &brush);
    let mut second = RasterCanvas::blank(201, 800).unwrap();
    fill_segment(&mut second, &b, &c, &brush);
    assert!(first.is_ink(150, 400));
    assert!(second.is_ink(150, 400));
    assert_eq!(ink_count(&first), 1238);
    assert_eq!(ink_count(&second), 1238);
    let mut both = RasterCanvas::blank(201, 800).unwrap();
    draw_strokes(&mut both, &[a, b, c], &brush);
    assert_eq!(ink_count(&both), 2443);
}

#[test]
fn sloped_segment_is_clipped_at_the_canvas_borders() {
    let mut canvas = RasterCanvas::blank(10, 10).unwrap();
    let brush = Brush::new(4, 6, 3).unwrap();
    fill_segment(&mut canvas, &point(-10, -6, true), &point(30, 20, false), &brush);
    let expected = vec![
        "###.......",
        "#####.....",
        "..####....",
        "...#####..",
        ".....####.",
        "......####",
        "..........",
        "..........",
        "..........",
        "..........",
    ];
    assert_eq!(picture(&canvas), expected);
}

#[test]
fn segment_direction_does_not_matter() {
    let brush = Brush::new(4, 6, 3).unwrap();
    let mut forth = RasterCanvas::blank(10, 10).unwrap();
    let mut back = RasterCanvas::blank(10, 10).unwrap();
    fill_segment(&mut forth, &point(-10, -6, true), &point(30, 20, false), &brush);
    fill_segment(&mut back, &point(30, 20, true), &point(-10, -6, false), &brush);
    assert_eq!(forth.intensities(), back.intensities());
}

#[test]
fn segment_off_the_canvas_fills_nothing() {
    let brush = Brush::new(1, 2, 2).unwrap();
    let mut canvas = RasterCanvas::blank(10, 10).unwrap();
    fill_segment(&mut canvas, &point(100, 100, true), &point(200, 150, false), &brush);
    fill_segment(&mut canvas, &point(-100, -100, true), &point(-50, -20, false), &brush);
    fill_segment(&mut canvas, &point(-100, 5, true), &point(-100, 6, false), &brush);
    fill_segment(&mut canvas, &point(3, -100, true), &point(3, -50, false), &brush);
    fill_segment(&mut canvas, &point(3, 100, true), &point(4, 150, false), &brush);
    assert_eq!(ink_count(&canvas), 0);
}

#[test]
fn segment_at_the_coordinate_limits_is_clipped() {
    let brush = Brush::new(UNIT_LIMIT, HALF_LIMIT, HALF_LIMIT).unwrap();
    let mut canvas = RasterCanvas::blank(3, 3).unwrap();
    fill_segment(
        &mut canvas,
        &point(-COORD_LIMIT, -COORD_LIMIT, true),
        &point(COORD_LIMIT, COORD_LIMIT, false),
        &brush,
    );
    assert_eq!(canvas.height(), 3);
    assert_eq!(canvas.width(), 3);
    assert_eq!(picture(&canvas), vec!["###", "###", "###"]);
}

#[test]
fn filling_a_segment_twice_changes_nothing_more() {
    let brush = Brush::new(4, 6, 3).unwrap();
    let mut once = RasterCanvas::blank(10, 10).unwrap();
    let mut twice = RasterCanvas::blank(10, 10).unwrap();
    fill_segment(&mut once, &point(-10, -6, true), &point(30, 20, false), &brush);
    fill_segment(&mut twice, &point(-10, -6, true), &point(30, 20, false), &brush);
    fill_segment(&mut twice, &point(-10, -6, true), &point(30, 20, false), &brush);
    assert_eq!(once.intensities(), twice.intensities());
}

#[test]
fn order_of_filling_does_not_matter() {
    let brush = Brush::new(4, 6, 3).unwrap();
    let a = (point(-10, -6, true), point(30, 20, false));
    let b = (point(36, 2, true), point(4, 30, false));
    let mut ab = RasterCanvas::blank(10, 10).unwrap();
    fill_segment(&mut ab, &a.0, &a.1, &brush);
    fill_segment(&mut ab, &b.0, &b.1, &brush);
    let mut ba = RasterCanvas::blank(10, 10).unwrap();
    fill_segment(&mut ba, &b.0, &b.1, &brush);
    fill_segment(&mut ba, &a.0, &a.1, &brush);
    assert_eq!(ab.intensities(), ba.intensities());
    assert!(ink_count(&ab) > 25);
}

#[test]
fn finer_units_cover_the_same_cells() {
    let mut coarse = RasterCanvas::blank(10, 10).unwrap();
    fill_segment(
        &mut coarse,
        &point(-10, -6, true),
        &point(30, 20, false),
        &Brush::new(4, 6, 3).unwrap(),
    );
    let mut fine = RasterCanvas::blank(10, 10).unwrap();
    fill_segment(
        &mut fine,
        &point(-70, -42, true),
        &point(210, 140, false),
        &Brush::new(28, 42, 21).unwrap(),
    );
    assert_eq!(coarse.intensities(), fine.intensities());
}

#[test]
fn segment_covers_the_cells_of_its_ends() {
    let brush = Brush::new(4, 4, 0).unwrap();
    let mut canvas = RasterCanvas::blank(12, 12).unwrap();
    fill_segment(&mut canvas, &point(9, 42, true), &point(38, 5, false), &brush);
    assert!(canvas.is_ink(10, 2));
    assert!(canvas.is_ink(1, 9));
}

#[test]
fn horizontal_segment_is_one_row_thick() {
    let brush = Brush::new(2, 2, 0).unwrap();
    let mut canvas = RasterCanvas::blank(4, 8).unwrap();
    fill_segment(&mut canvas, &point(4, 3, true), &point(10, 3, false), &brush);
    assert_eq!(picture(&canvas), vec!["........", ".######.", "........", "........"]);
}

#[test]
fn strokes_keep_earlier_ink() {
    let brush = Brush::new(1, 0, 0).unwrap();
    let mut canvas = RasterCanvas::blank(3, 6).unwrap();
    canvas.fill_column(5, 0, 2);
    draw_strokes(&mut canvas, &[point(0, 1, true), point(3, 1, false)], &brush);
    assert_eq!(picture(&canvas), vec![".....#", "####.#", ".....#"]);
}

#[test]
fn stroke_start_is_not_joined_to_the_point_before_it() {
    let brush = Brush::new(1, 0, 0).unwrap();
    let mut canvas = RasterCanvas::blank(1, 10).unwrap();
    let points = [point(0, 0, true), point(2, 0, false), point(6, 0, true), point(8, 0, false)];
    draw_strokes(&mut canvas, &points, &brush);
    assert_eq!(picture(&canvas), vec!["###...###."]);
}

#[test]
fn line_gives_the_row_at_a_column_border() {
    assert_eq!(row_of_line(400, 156000, 40000, 316000, 120000, 800), 152);
    assert_eq!(row_of_line(400, 164000, 40000, 324000, 120000, 800), 147);
    assert_eq!(row_of_line(0, 1, 0, 3, -3, 1), 1);
    assert_eq!(row_of_line(0, 1, 0, 3, 3, 1), -2);
    assert_eq!(row_of_line(5, 0, 0, 10, 10, 1), 5);
    assert_eq!(row_of_line(5, 0, 0, 20, 10, 2), 2);
}

#[test]
fn points_and_brushes_beyond_their_limits_are_refused() {
    assert!(TransformedPoint::new(COORD_LIMIT, -COORD_LIMIT, false).is_some());
    assert!(TransformedPoint::new(COORD_LIMIT + 1, 0, false).is_none());
    assert!(TransformedPoint::new(0, -COORD_LIMIT - 1, false).is_none());
    assert!(Brush::new(1, 0, 0).is_some());
    assert!(Brush::new(0, 0, 0).is_none());
    assert!(Brush::new(UNIT_LIMIT + 1, 0, 0).is_none());
    assert!(Brush::new(1, -1, 0).is_none());
    assert!(Brush::new(1, 0, HALF_LIMIT + 1).is_none());
    assert_eq!(Brush::new(8, 3, 2).unwrap(), Brush { unit: 8, half_x: 3, half_y: 2 });
}
