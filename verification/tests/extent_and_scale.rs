use stroke_raster::config::{RasterConfig, RasterError, MAX_CANVAS_CELLS};
use stroke_raster::extent::{bounding_box, BoundingBox};
use stroke_raster::sample::PointSample;
use stroke_raster::scale::{Brush, ScaleParameters, TransformedPoint};

fn sample(x: i32, y: i32, starts_new_stroke: bool) -> PointSample {
    PointSample { x, y, starts_new_stroke }
}

#[test]
fn extent_is_the_min_and_max_of_each_coordinate() {
    let samples = [sample(4, -2, true), sample(-7, 9, false), sample(12, 3, true), sample(0, 0, false)];
    let b = bounding_box(&samples).unwrap();
    assert_eq!(b, BoundingBox { min_x: -7, min_y: -2, max_x: 12, max_y: 9 });
}

#[test]
fn extent_takes_no_note_of_stroke_membership() {
    let a = [sample(1, 1, true), sample(5, 2, true), sample(3, 8, true)];
    let b = [sample(1, 1, false), sample(5, 2, false), sample(3, 8, false)];
    assert_eq!(bounding_box(&a).unwrap(), bounding_box(&b).unwrap());
}

#[test]
fn extent_of_a_flat_stroke_is_valid() {
    let b = bounding_box(&[sample(0, 7, true), sample(9, 7, false)]).unwrap();
    assert_eq!(b, BoundingBox { min_x: 0, min_y: 7, max_x: 9, max_y: 7 });
}

#[test]
fn extent_fails_on_fewer_than_two_samples() {
    assert_eq!(bounding_box(&[]).unwrap_err(), RasterError::DegenerateInput);
    assert_eq!(bounding_box(&[sample(1, 2, true)]).unwrap_err(), RasterError::DegenerateInput);
}

#[test]
fn extent_fails_without_horizontal_spread() {
    let samples = [sample(5, 0, true), sample(5, 40, false), sample(5, 20, true)];
    assert_eq!(bounding_box(&samples).unwrap_err(), RasterError::DegenerateInput);
}

#[test]
fn extent_reaches_the_ends_of_the_coordinate_range() {
    let b = bounding_box(&[sample(i32::MAX, i32::MIN, true), sample(i32::MIN, i32::MAX, false)])
        .unwrap();
    assert_eq!(b, BoundingBox { min_x: i32::MIN, min_y: i32::MIN, max_x: i32::MAX, max_y: i32::MAX });
}

#[test]
fn scale_of_the_tent() {
    let b = BoundingBox { min_x: 0, min_y: 0, max_x: 200, max_y: 50 };
    let s = ScaleParameters::derive(&b, &RasterConfig::default()).unwrap();
    let expected = ScaleParameters {
        origin_x: 0,
        origin_y: 0,
        x_scale: 1600,
        y_scale: 1600,
        x_offset: 160000,
        y_offset: 40000,
        brush: Brush { unit: 800, half_x: 4000, half_y: 1000 },
        canvas_width: 800,
        canvas_height: 201,
    };
    assert_eq!(s, expected);
}

#[test]
fn scale_is_shared_by_both_axes() {
    let b = BoundingBox { min_x: -30, min_y: 4, max_x: 70, max_y: 504 };
    let s = ScaleParameters::derive(&b, &RasterConfig::new(300, 4, 5, 7).unwrap()).unwrap();
    assert_eq!(s.x_scale, s.y_scale);
    assert_eq!(s.x_scale, 2400);
    assert_eq!(s.brush.unit, 1000);
    assert_eq!(s.x_offset, 30000);
    assert_eq!(s.y_offset, 150000);
    assert_eq!(s.brush.half_x, 3500);
    assert_eq!(s.brush.half_y, 17500);
    assert_eq!(s.canvas_height, 1501);
    assert_eq!(s.canvas_width, 300);
}

#[test]
fn extent_maps_onto_the_centred_part_of_the_canvas() {
    let b = BoundingBox { min_x: -30, min_y: 4, max_x: 70, max_y: 504 };
    let s = ScaleParameters::derive(&b, &RasterConfig::new(300, 4, 5, 7).unwrap()).unwrap();
    let low = s.apply(&sample(-30, 4, true));
    let high = s.apply(&sample(70, 504, false));
    // 30 and 270 cells across, 150 and 1350 cells down, in thousandths
    assert_eq!(low, TransformedPoint { x: 30000, y: 150000, starts_new_stroke: true });
    assert_eq!(high, TransformedPoint { x: 270000, y: 1350000, starts_new_stroke: false });
}

#[test]
fn flat_extent_has_one_row_and_no_vertical_half_width() {
    let b = BoundingBox { min_x: 0, min_y: 3, max_x: 10, max_y: 3 };
    let s = ScaleParameters::derive(&b, &RasterConfig::default()).unwrap();
    assert_eq!(s.canvas_height, 1);
    assert_eq!(s.y_offset, 0);
    assert_eq!(s.brush.half_y, 0);
    assert_eq!(s.apply(&sample(10, 3, false)).y, 0);
}

#[test]
fn scale_refuses_a_canvas_with_too_many_cells() {
    let config = RasterConfig::default();
    let just = BoundingBox { min_x: 0, min_y: 0, max_x: 800, max_y: 5368708 };
    let s = ScaleParameters::derive(&just, &config).unwrap();
    assert_eq!(s.canvas_height, 5368709);
    assert!(s.canvas_height as usize * 800 <= MAX_CANVAS_CELLS);
    let over = BoundingBox { min_x: 0, min_y: 0, max_x: 800, max_y: 5368709 };
    assert_eq!(ScaleParameters::derive(&over, &config).unwrap_err(), RasterError::CanvasTooLarge);
}

#[test]
fn scale_allows_as_many_rows_as_there_may_be_cells() {
    let config = RasterConfig::new(1, 1, 1, 0).unwrap();
    let just = BoundingBox { min_x: 0, min_y: i32::MIN, max_x: 1, max_y: i32::MAX - 1 };
    assert_eq!(ScaleParameters::derive(&just, &config).unwrap().canvas_height, 4294967295);
    let over = BoundingBox { min_x: 0, min_y: i32::MIN, max_x: 1, max_y: i32::MAX };
    assert_eq!(ScaleParameters::derive(&over, &config).unwrap_err(), RasterError::CanvasTooLarge);
}

#[test]
fn scale_for_a_canvas_without_columns_has_one_row() {
    let config = RasterConfig::new(0, 1, 1, 3).unwrap();
    let b = BoundingBox { min_x: 0, min_y: i32::MIN, max_x: 1, max_y: i32::MAX };
    let s = ScaleParameters::derive(&b, &config).unwrap();
    assert_eq!(s.canvas_height, 1);
    assert_eq!(s.canvas_width, 0);
}

#[test]
fn drawing_up_to_6710_times_as_tall_as_wide_has_a_canvas_at_width_800() {
    let config = RasterConfig::default();
    let tall = BoundingBox { min_x: 0, min_y: 0, max_x: 1, max_y: 6710 };
    assert_eq!(ScaleParameters::derive(&tall, &config).unwrap().canvas_height, 5368001);
    let taller = BoundingBox { min_x: 0, min_y: 0, max_x: 1, max_y: 6711 };
    assert_eq!(ScaleParameters::derive(&taller, &config).unwrap_err(), RasterError::CanvasTooLarge);
}

#[test]
fn scale_of_an_upright_stroke_is_not_refused() {
    let b = BoundingBox { min_x: 0, min_y: 0, max_x: 1600, max_y: 131069 };
    let s = ScaleParameters::derive(&b, &RasterConfig::default()).unwrap();
    assert_eq!(s.canvas_height, 65536);
}

#[test]
fn scale_of_the_widest_extent() {
    let b = BoundingBox { min_x: i32::MIN, min_y: i32::MIN, max_x: i32::MAX, max_y: i32::MAX };
    let config = RasterConfig::new(65535, 255, 255, 65535).unwrap();
    let s = ScaleParameters::derive(&b, &config).unwrap();
    assert_eq!(s.canvas_height, 65536);
    assert_eq!(s.x_offset, 0);
    let config = RasterConfig::new(65534, 1, 255, 65535).unwrap();
    let s = ScaleParameters::derive(&b, &config).unwrap();
    assert_eq!(s.canvas_height, 65535);
    assert_eq!(s.brush.unit, 2190433320450);
    assert_eq!(s.brush.half_x, 71775023827845375);
    assert_eq!(s.x_offset, 71492462224474620);
}

#[test]
fn transform_keeps_order_length_and_stroke_starts() {
    let b = BoundingBox { min_x: 0, min_y: 0, max_x: 200, max_y: 50 };
    let s = ScaleParameters::derive(&b, &RasterConfig::default()).unwrap();
    let samples = [sample(0, 0, true), sample(100, 50, false), sample(200, 0, false), sample(7, 7, true)];
    let points = s.transform(&samples);
    assert_eq!(
        points,
        vec![
            TransformedPoint { x: 160000, y: 40000, starts_new_stroke: true },
            TransformedPoint { x: 320000, y: 120000, starts_new_stroke: false },
            TransformedPoint { x: 480000, y: 40000, starts_new_stroke: false },
            TransformedPoint { x: 171200, y: 51200, starts_new_stroke: true },
        ]
    );
    assert_eq!(s.transform(&[]), vec![]);
}

#[test]
fn samples_outside_the_extent_are_placed_too() {
    let b = BoundingBox { min_x: 0, min_y: 0, max_x: 200, max_y: 50 };
    let s = ScaleParameters::derive(&b, &RasterConfig::default()).unwrap();
    let p = s.apply(&sample(-100, 300, false));
    assert_eq!(p, TransformedPoint { x: 0, y: 520000, starts_new_stroke: false });
    let far = s.apply(&sample(i32::MIN, i32::MAX, true));
    assert_eq!(far.x, -2147483648 * 1600 + 160000);
    assert_eq!(far.y, 2147483647 * 1600 + 40000);
}

#[test]
fn configuration_needs_a_fill_ratio_above_zero_and_at_most_one() {
    assert!(RasterConfig::new(800, 0, 2, 10).is_none());
    assert!(RasterConfig::new(800, 3, 2, 10).is_none());
    assert!(RasterConfig::new(800, 0, 0, 10).is_none());
    assert_eq!(
        RasterConfig::new(800, 2, 2, 10).unwrap(),
        RasterConfig { canvas_width: 800, fill_num: 2, fill_den: 2, line_width: 10 }
    );
    assert_eq!(
        RasterConfig::new(640, 4, 5, 0).unwrap(),
        RasterConfig { canvas_width: 640, fill_num: 4, fill_den: 5, line_width: 0 }
    );
}

#[test]
fn default_configuration() {
    assert_eq!(
        RasterConfig::default(),
        RasterConfig { canvas_width: 800, fill_num: 1, fill_den: 2, line_width: 10 }
    );
}

#[test]
fn pen_samples() {
    assert_eq!(PointSample::pen_down(3, -4), sample(3, -4, true));
    assert_eq!(PointSample::pen_move(3, -4), sample(3, -4, false));
}
