//! The capture session: the stroke set as it grows sample by sample, and
//! what the drawing surface has to do after each input.

use vstd::prelude::*;
use crate::sample::{joins_previous, PointSample};

verus! {

/// What the capture surface reports.
#[derive(Clone, Copy, Debug, PartialEq, Eq, Structural)]
pub enum CaptureInput {
    /// The counter button was pressed.
    Increment,
    /// The pen was set down at a device position.
    NewLine(i32, i32),
    /// The pen moved to a device position while down.
    AddPoint(i32, i32),
    /// The drawing is to be discarded.
    Reset,
}

/// What the drawing surface does after an input.
#[derive(Clone, Copy, Debug, PartialEq, Eq, Structural)]
pub enum SurfaceAction {
    /// Paint the segments of the stroke set over what is there.
    Repaint,
    /// Wipe the surface, then paint the segments of the stroke set.
    ClearThenRepaint,
}

/// One capture session. It owns the stroke set, which only grows until it
/// is cleared; each clearing starts a new generation, by which the result of
/// a request made earlier can be told to be stale.
#[derive(Debug)]
pub struct CaptureSession {
    counter: u8,
    generation: u64,
    samples: Vec<PointSample>,
}

/// The generation after `g`; the count starts over after the last one.
pub open spec fn next_generation(g: u64) -> u64 {
    if g == u64::MAX {
        0
    } else {
        (g + 1) as u64
    }
}

/// The counter after `n`; it wraps around.
pub open spec fn next_count(n: u8) -> u8 {
    if n == u8::MAX {
        0
    } else {
        (n + 1) as u8
    }
}

/// What a capture session holds: the stroke set captured so far, the value
/// of the counter, and the generation, which counts the clearings with
/// `next_generation`.
pub struct SessionState {
    pub samples: Seq<PointSample>,
    pub counter: u8,
    pub generation: u64,
}

impl View for CaptureSession {
    type V = SessionState;

    closed spec fn view(&self) -> SessionState {
        SessionState {
            samples: self.samples@,
            counter: self.counter,
            generation: self.generation,
        }
    }
}

impl SessionState {
    /// What an input makes of a session.
    pub open spec fn after(self, input: CaptureInput) -> SessionState {
        match input {
            CaptureInput::Increment => SessionState { counter: next_count(self.counter), ..self },
            CaptureInput::NewLine(x, y) => SessionState {
                samples: self.samples.push(PointSample { x, y, starts_new_stroke: true }),
                ..self
            },
            CaptureInput::AddPoint(x, y) => SessionState {
                samples: self.samples.push(PointSample { x, y, starts_new_stroke: false }),
                ..self
            },
            CaptureInput::Reset => SessionState {
                samples: Seq::empty(),
                generation: next_generation(self.generation),
                ..self
            },
        }
    }
}

impl CaptureSession {
    /// A session with no samples, in generation zero.
    pub fn new() -> (s: CaptureSession)
        ensures
            s@ == (SessionState { samples: Seq::empty(), counter: 0, generation: 0 }),
    {
        CaptureSession { counter: 0, generation: 0, samples: Vec::new() }
    }

    /// Adds a sample at the end of the stroke set.
    pub fn append(&mut self, sample: PointSample)
        ensures
            final(self)@ == (SessionState {
                samples: old(self)@.samples.push(sample),
                ..old(self)@
            }),
    {
        self.samples.push(sample);
    }

    /// Discards the stroke set and starts the next generation.
    pub fn clear(&mut self)
        ensures
            final(self)@ == old(self)@.after(CaptureInput::Reset),
    {
        self.samples.clear();
        self.generation = if self.generation == u64::MAX {
            0
        } else {
            self.generation + 1
        };
    }

    /// Takes one input: the counter button counts, pen inputs add a sample,
    /// a reset clears. Says what the drawing surface has to do then: it is
    /// wiped first after a reset, and repainted in any case.
    pub fn update(&mut self, input: CaptureInput) -> (action: SurfaceAction)
        ensures
            final(self)@ == old(self)@.after(input),
            action == (if input == CaptureInput::Reset {
                SurfaceAction::ClearThenRepaint
            } else {
                SurfaceAction::Repaint
            }),
    {
        match input {
            CaptureInput::Increment => {
                self.counter = if self.counter == u8::MAX {
                    0
                } else {
                    self.counter + 1
                };
                SurfaceAction::Repaint
            },
            CaptureInput::NewLine(x, y) => {
                self.append(PointSample::pen_down(x, y));
                SurfaceAction::Repaint
            },
            CaptureInput::AddPoint(x, y) => {
                self.append(PointSample::pen_move(x, y));
                SurfaceAction::Repaint
            },
            CaptureInput::Reset => {
                self.clear();
                SurfaceAction::ClearThenRepaint
            },
        }
    }

    /// The stroke set captured so far, for reading only.
    pub fn samples(&self) -> (s: &[PointSample])
        ensures
            s@ == self@.samples,
    {
        self.samples.as_slice()
    }

    /// The value of the counter.
    pub fn counter(&self) -> (n: u8)
        ensures
            n == self@.counter,
    {
        self.counter
    }

    /// The generation the session is in; a request carries it along.
    pub fn generation(&self) -> (g: u64)
        ensures
            g == self@.generation,
    {
        self.generation
    }

    /// Whether a result that was requested in generation `generation` still
    /// belongs to this session's stroke set; a stale result is discarded.
    pub fn is_current(&self, generation: u64) -> (fresh: bool)
        ensures
            fresh == (generation == self@.generation),
    {
        generation == self.generation
    }
}

/// The segments of a stroke set, each named by the index of the sample it
/// ends at, in ascending order. Sample `i` ends a segment if it is not the
/// first sample and does not start a new stroke; the segment then runs from
/// sample `i - 1` to sample `i`.
pub fn stroke_segments(samples: &[PointSample]) -> (ends: Vec<usize>)
    ensures
        forall|k: int|
            0 <= k < ends@.len() ==> joins_previous(samples@, #[trigger] ends@[k] as int),
        forall|k: int, l: int| 0 <= k < l < ends@.len() ==> ends@[k] < ends@[l],
        forall|i: int| joins_previous(samples@, i) ==> ends@.contains(i as usize),
{
    let n: usize = samples.len();
    let mut ends: Vec<usize> = Vec::new();
    let mut i: usize = 1;
    while i < n
        invariant
            1 <= i,
            n == samples@.len(),
            forall|k: int|
                0 <= k < ends@.len() ==> joins_previous(samples@, #[trigger] ends@[k] as int)
                    && ends@[k] < i,
            forall|k: int, l: int| 0 <= k < l < ends@.len() ==> ends@[k] < ends@[l],
            forall|j: int| joins_previous(samples@, j) && j < i ==> ends@.contains(j as usize),
        decreases n - i,
    {
        if !samples[i].starts_new_stroke {
            let ghost before = ends@;
            ends.push(i);
            proof {
                assert(ends@[before.len() as int] == i);
                assert forall|j: int|
                    joins_previous(samples@, j) && j < i + 1 implies ends@.contains(
                    j as usize,
                ) by {
                    if j < i {
                        let k = choose|k: int| 0 <= k < before.len() && before[k] == j as usize;
                        assert(ends@[k] == j as usize);
                    }
                }
            }
        }
        i = i + 1;
    }
    ends
}

} // verus!
