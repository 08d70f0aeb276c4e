use stroke_raster::canvas::RasterCanvas;

#[test]
fn blank_canvas_holds_no_ink() {
    let canvas = RasterCanvas::blank(3, 5).unwrap();
    assert_eq!(canvas.height(), 3);
    assert_eq!(canvas.width(), 5);
    assert_eq!(canvas.intensities(), vec![0u8; 15]);
    assert_eq!(canvas.to_luma8(), vec![255u8; 15]);
    for r in 0..3 {
        for c in 0..5 {
            assert!(!canvas.is_ink(r, c));
        }
    }
}

#[test]
fn canvas_with_too_many_cells_is_not_made() {
    assert!(RasterCanvas::blank(u32::MAX, 2).is_none());
    assert!(RasterCanvas::blank(65538, 65535).is_none());
    assert!(RasterCanvas::blank(u32::MAX, 0).is_some());
    assert_eq!(RasterCanvas::blank(u32::MAX, 0).unwrap().tensor_shape(), [1, 4294967295, 0]);
    assert_eq!(RasterCanvas::blank(70000, 3).unwrap().height(), 70000);
}

#[test]
fn tensor_shape_is_one_by_rows_by_columns() {
    assert_eq!(RasterCanvas::blank(201, 800).unwrap().tensor_shape(), [1, 201, 800]);
    assert_eq!(RasterCanvas::blank(0, 7).unwrap().tensor_shape(), [1, 0, 7]);
}

#[test]
fn fill_column_fills_the_rows_given() {
    let mut canvas = RasterCanvas::blank(4, 3).unwrap();
    canvas.fill_column(1, 1, 2);
    assert_eq!(canvas.intensities(), vec![0, 0, 0, 0, 1, 0, 0, 1, 0, 0, 0, 0]);
    assert!(canvas.is_ink(1, 1));
    assert!(canvas.is_ink(2, 1));
    assert!(!canvas.is_ink(0, 1));
    assert!(!canvas.is_ink(3, 1));
}

#[test]
fn fill_column_clips_rows_and_columns() {
    let mut canvas = RasterCanvas::blank(4, 3).unwrap();
    canvas.fill_column(2, -5, 1);
    canvas.fill_column(0, 3, 1000);
    canvas.fill_column(-1, 0, 3);
    canvas.fill_column(3, 0, 3);
    canvas.fill_column(1, 4, 9);
    canvas.fill_column(1, -9, -1);
    canvas.fill_column(1, 2, 1);
    canvas.fill_column(i64::MAX, i64::MIN, i64::MAX);
    canvas.fill_column(i64::MIN, i64::MIN, i64::MAX);
    assert_eq!(canvas.intensities(), vec![0, 0, 1, 0, 0, 1, 0, 0, 0, 1, 0, 0]);
}

#[test]
fn fill_column_over_the_whole_range_fills_the_column() {
    let mut canvas = RasterCanvas::blank(3, 2).unwrap();
    canvas.fill_column(1, i64::MIN, i64::MAX);
    assert_eq!(canvas.intensities(), vec![0, 1, 0, 1, 0, 1]);
}

#[test]
fn filling_is_idempotent() {
    let mut canvas = RasterCanvas::blank(2, 2).unwrap();
    canvas.fill_column(0, 0, 0);
    let once = canvas.intensities();
    canvas.fill_column(0, 0, 0);
    assert_eq!(canvas.intensities(), once);
    assert_eq!(once, vec![1, 0, 0, 0]);
}

#[test]
fn image_is_dark_ink_on_light_background() {
    let mut canvas = RasterCanvas::blank(2, 3).unwrap();
    canvas.fill_column(2, 0, 0);
    canvas.fill_column(0, 1, 1);
    assert_eq!(canvas.to_luma8(), vec![255, 255, 0, 0, 255, 255]);
    assert_eq!(canvas.intensities(), vec![0, 0, 1, 1, 0, 0]);
}

#[test]
fn nothing_outside_the_grid_is_ink() {
    let mut canvas = RasterCanvas::blank(2, 2).unwrap();
    canvas.fill_column(0, 0, 1);
    canvas.fill_column(1, 0, 1);
    assert!(!canvas.is_ink(2, 0));
    assert!(!canvas.is_ink(0, 2));
    assert!(!canvas.is_ink(usize::MAX, usize::MAX));
    assert_eq!(canvas.intensities().len(), 4);
}

#[test]
fn largest_canvas_row_can_be_made() {
    let mut canvas = RasterCanvas::blank(1, 65535).unwrap();
    canvas.fill_column(65534, 0, 0);
    assert!(canvas.is_ink(0, 65534));
    assert_eq!(canvas.width(), 65535);
}
