use stroke_raster::canvas::RasterCanvas;
use stroke_raster::config::RasterConfig;
use stroke_raster::export::{diagnostic_png, ExportError};
use stroke_raster::pipeline::rasterize;
use stroke_raster::sample::PointSample;

#[test]
fn diagnostic_image_is_a_png_of_the_canvas() {
    let mut canvas = RasterCanvas::blank(3, 5).unwrap();
    canvas.fill_column(1, 0, 1);
    canvas.fill_column(4, 2, 2);
    let bytes = diagnostic_png(&canvas).unwrap();
    assert_eq!(&bytes[..8], &[0x89, b'P', b'N', b'G', 0x0d, 0x0a, 0x1a, 0x0a]);
    let decoded = image::load_from_memory(&bytes).unwrap();
    assert_eq!(decoded.color(), image::ColorType::L8);
    let grey = decoded.into_luma8();
    assert_eq!(grey.dimensions(), (5, 3));
    assert_eq!(
        grey.into_raw(),
        vec![255, 0, 255, 255, 255, 255, 0, 255, 255, 255, 255, 255, 255, 255, 0]
    );
}

#[test]
fn diagnostic_image_of_a_raster_has_ink_dark_on_light() {
    let samples = [
        PointSample { x: 0, y: 0, starts_new_stroke: true },
        PointSample { x: 100, y: 50, starts_new_stroke: false },
        PointSample { x: 200, y: 0, starts_new_stroke: false },
    ];
    let canvas = rasterize(&samples, &RasterConfig::default()).unwrap();
    let bytes = diagnostic_png(&canvas).unwrap();
    let grey = image::load_from_memory(&bytes).unwrap().into_luma8();
    assert_eq!(grey.dimensions(), (800, 201));
    assert_eq!(grey.get_pixel(400, 150).0, [0]);
    assert_eq!(grey.get_pixel(0, 0).0, [255]);
    assert_eq!(grey.into_raw(), canvas.to_luma8());
}

#[test]
fn same_canvas_same_file() {
    let mut canvas = RasterCanvas::blank(4, 4).unwrap();
    canvas.fill_column(2, 0, 3);
    assert_eq!(diagnostic_png(&canvas).unwrap(), diagnostic_png(&canvas).unwrap());
}

#[test]
fn canvas_without_cells_has_no_image() {
    let r = diagnostic_png(&RasterCanvas::blank(0, 5).unwrap());
    assert!(matches!(r, Err(ExportError::Encoding(_))));
    let r = diagnostic_png(&RasterCanvas::blank(5, 0).unwrap());
    assert!(matches!(r, Err(ExportError::Encoding(_))));
}
