//! Pen samples as the capture layer delivers them.

use vstd::prelude::*;

verus! {

/// One pen sample in device units. A sample that starts a new stroke is the
/// first point after the pen was lifted and set down again; it is never
/// joined to the sample before it.
#[derive(Clone, Copy, Debug, PartialEq, Eq, Structural)]
pub struct PointSample {
    pub x: i32,
    pub y: i32,
    pub starts_new_stroke: bool,
}

/// Whether sample `i` continues the stroke of sample `i - 1`, so that the two
/// are joined by a segment.
pub open spec fn joins_previous(samples: Seq<PointSample>, i: int) -> bool {
    1 <= i < samples.len() && !samples[i].starts_new_stroke
}

impl PointSample {
    /// The first sample of a stroke.
    pub fn pen_down(x: i32, y: i32) -> (p: PointSample)
        ensures
            p == (PointSample { x, y, starts_new_stroke: true }),
    {
        PointSample { x, y, starts_new_stroke: true }
    }

    /// A sample that continues the current stroke.
    pub fn pen_move(x: i32, y: i32) -> (p: PointSample)
        ensures
            p == (PointSample { x, y, starts_new_stroke: false }),
    {
        PointSample { x, y, starts_new_stroke: false }
    }
}

} // verus!
