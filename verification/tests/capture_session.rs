use stroke_raster::capture::{stroke_segments, CaptureInput, CaptureSession, SurfaceAction};
use stroke_raster::sample::PointSample;

fn sample(x: i32, y: i32, starts_new_stroke: bool) -> PointSample {
    PointSample { x, y, starts_new_stroke }
}

#[test]
fn new_session_is_empty() {
    let s = CaptureSession::new();
    assert!(s.samples().is_empty());
    assert_eq!(s.counter(), 0);
    assert_eq!(s.generation(), 0);
}

#[test]
fn pen_inputs_add_samples_in_order() {
    let mut s = CaptureSession::new();
    assert_eq!(s.update(CaptureInput::NewLine(1, 2)), SurfaceAction::Repaint);
    assert_eq!(s.update(CaptureInput::AddPoint(3, 4)), SurfaceAction::Repaint);
    assert_eq!(s.update(CaptureInput::NewLine(5, 6)), SurfaceAction::Repaint);
    assert_eq!(s.samples().to_vec(), vec![sample(1, 2, true), sample(3, 4, false), sample(5, 6, true)]);
    assert_eq!(s.generation(), 0);
}

#[test]
fn reset_clears_and_starts_the_next_generation() {
    let mut s = CaptureSession::new();
    s.update(CaptureInput::NewLine(1, 2));
    s.update(CaptureInput::Increment);
    let requested = s.generation();
    assert!(s.is_current(requested));
    assert_eq!(s.update(CaptureInput::Reset), SurfaceAction::ClearThenRepaint);
    assert!(s.samples().is_empty());
    assert_eq!(s.generation(), 1);
    assert_eq!(s.counter(), 1);
    assert!(!s.is_current(requested));
    assert!(s.is_current(1));
}

#[test]
fn counter_wraps_around() {
    let mut s = CaptureSession::new();
    for _ in 0..255 {
        assert_eq!(s.update(CaptureInput::Increment), SurfaceAction::Repaint);
    }
    assert_eq!(s.counter(), 255);
    s.update(CaptureInput::Increment);
    assert_eq!(s.counter(), 0);
    assert!(s.samples().is_empty());
}

#[test]
fn append_and_clear() {
    let mut s = CaptureSession::new();
    s.append(sample(9, 9, false));
    s.append(sample(8, 8, true));
    assert_eq!(s.samples().to_vec(), vec![sample(9, 9, false), sample(8, 8, true)]);
    s.clear();
    assert!(s.samples().is_empty());
    s.clear();
    assert_eq!(s.generation(), 2);
}

#[test]
fn segments_end_at_samples_that_continue_a_stroke() {
    let samples = [
        sample(0, 0, true),
        sample(1, 1, false),
        sample(2, 2, false),
        sample(9, 9, true),
        sample(8, 8, false),
        sample(7, 7, true),
    ];
    assert_eq!(stroke_segments(&samples), vec![1, 2, 4]);
}

#[test]
fn first_sample_ends_no_segment() {
    assert_eq!(stroke_segments(&[sample(0, 0, false), sample(1, 1, false)]), vec![1]);
    assert_eq!(stroke_segments(&[sample(0, 0, false)]), vec![]);
    assert_eq!(stroke_segments(&[]), vec![]);
}
