use ocrs::{OcrEngine, OcrEngineParams, TextChar, TextLine};
use rten_imageproc::{PointF, Rect, RotatedRect, Vec2};
use stroke_raster::canvas::RasterCanvas;
use stroke_raster::recognition::{
    is_noise, lines_with_words, prepare_canvas, shown_lines, surfaced_lines, PrepareError,
};

fn engine_without_models() -> OcrEngine {
    OcrEngine::new(OcrEngineParams::default()).unwrap()
}

fn word(y: f32, x: f32) -> RotatedRect {
    RotatedRect::new(PointF::from_yx(y, x), Vec2::from_yx(-1., 0.), 20., 10.)
}

fn line(text: &str) -> TextLine {
    TextLine::new(
        text.chars().map(|c| TextChar { char: c, rect: Rect::from_tlbr(0, 0, 10, 10) }).collect(),
    )
}

#[test]
fn single_characters_are_noise() {
    assert!(is_noise(""));
    assert!(is_noise("a"));
    assert!(!is_noise("ab"));
    assert!(!is_noise("hello world"));
}

#[test]
fn single_character_is_noise_whatever_its_length_in_bytes() {
    assert!(is_noise("\u{e9}"));
    assert!(is_noise("\u{20ac}"));
    assert!(is_noise("\u{1f600}"));
    assert!(!is_noise("\u{e9}\u{e9}"));
    assert!(!is_noise("a\u{20ac}"));
}

#[test]
fn lines_that_were_read_and_are_long_enough_are_shown_in_order() {
    let lines = vec![
        Some(String::from("hello")),
        None,
        Some(String::from("a")),
        Some(String::new()),
        Some(String::from("\u{e9}")),
        Some(String::from("ab")),
        None,
        Some(String::from("hello")),
    ];
    assert_eq!(surfaced_lines(&lines), vec!["hello", "ab", "hello"]);
}

#[test]
fn nothing_read_nothing_shown() {
    assert_eq!(surfaced_lines(&vec![]), Vec::<String>::new());
    assert_eq!(surfaced_lines(&vec![None, None]), Vec::<String>::new());
    assert_eq!(surfaced_lines(&vec![Some(String::from("x"))]), Vec::<String>::new());
}

#[test]
fn recognized_lines_are_shown_by_their_text() {
    let recognized = vec![
        Some(line("first line")),
        None,
        Some(line("x")),
        Some(line("\u{20ac}")),
        Some(line("\u{20ac}5")),
        Some(line("ok")),
    ];
    assert_eq!(shown_lines(&recognized), vec!["first line", "\u{20ac}5", "ok"]);
    assert_eq!(shown_lines(&vec![]), Vec::<String>::new());
    assert_eq!(shown_lines(&vec![None]), Vec::<String>::new());
}

#[test]
fn canvas_with_cells_is_prepared_for_the_engine() {
    let engine = engine_without_models();
    let mut canvas = RasterCanvas::blank(8, 16).unwrap();
    canvas.fill_column(3, 1, 6);
    assert!(prepare_canvas(&engine, &canvas).is_ok());
    assert!(prepare_canvas(&engine, &RasterCanvas::blank(1, 1).unwrap()).is_ok());
    assert!(prepare_canvas(&engine, &RasterCanvas::blank(1, 65535).unwrap()).is_ok());
    assert!(prepare_canvas(&engine, &RasterCanvas::blank(70000, 2).unwrap()).is_ok());
}

#[test]
fn canvas_without_cells_is_not_handed_to_the_engine() {
    let engine = engine_without_models();
    let r = prepare_canvas(&engine, &RasterCanvas::blank(0, 16).unwrap());
    assert!(matches!(r, Err(PrepareError::Image(ocrs::ImageSourceError::UnsupportedChannelCount))));
    let r = prepare_canvas(&engine, &RasterCanvas::blank(4, 0).unwrap());
    assert!(matches!(r, Err(PrepareError::Image(ocrs::ImageSourceError::UnsupportedChannelCount))));
}

#[test]
fn prepared_canvas_is_the_engines_input() {
    let engine = engine_without_models();
    let mut canvas = RasterCanvas::blank(2, 3).unwrap();
    canvas.fill_column(1, 0, 0);
    canvas.fill_column(2, 1, 1);
    let input = prepare_canvas(&engine, &canvas).unwrap();
    let e = engine.detect_words(&input).unwrap_err();
    assert_eq!(format!("{}", e), "Detection model not loaded");
}

#[test]
fn lines_without_words_are_passed_over() {
    let lines = vec![vec![], vec![word(1., 2.)], vec![], vec![word(3., 4.), word(5., 6.)], vec![]];
    let kept = lines_with_words(lines);
    assert_eq!(kept.len(), 2);
    assert_eq!(kept[0].len(), 1);
    assert_eq!(kept[0][0].center(), PointF::from_yx(1., 2.));
    assert_eq!(kept[1].len(), 2);
    assert_eq!(kept[1][1].center(), PointF::from_yx(5., 6.));
    assert!(lines_with_words(vec![vec![], vec![]]).is_empty());
}
