//! The rasterizer's configuration and its errors.

use vstd::prelude::*;

verus! {

/// A canvas has at most this many cells, so that its cells can be indexed
/// on every machine and its sides multiplied as 32-bit numbers.
pub const MAX_CANVAS_CELLS: usize = 4294967295;

/// A canvas has at most this many columns: the widest that a configuration
/// can ask for.
pub const MAX_CANVAS_WIDTH: usize = 65535;

/// What the rasterizer is configured with: the canvas width in cells, the
/// fraction `fill_num / fill_den` of that width which the content occupies,
/// and the stroke's line width in cells.
#[derive(Clone, Copy, Debug, PartialEq, Eq, Structural)]
pub struct RasterConfig {
    pub canvas_width: u16,
    pub fill_num: u8,
    pub fill_den: u8,
    pub line_width: u16,
}

/// Why a stroke set was not rasterized.
#[derive(Clone, Copy, Debug, PartialEq, Eq, Structural)]
pub enum RasterError {
    /// Fewer than two samples, or all samples share one `x`.
    DegenerateInput,
    /// The canvas would have more than `MAX_CANVAS_CELLS` cells.
    CanvasTooLarge,
}

impl RasterConfig {
    /// The fill ratio lies in `(0, 1]`.
    pub open spec fn wf(&self) -> bool {
        0 < self.fill_num <= self.fill_den
    }

    /// A configuration, if the fill ratio `fill_num / fill_den` lies in
    /// `(0, 1]`.
    pub fn new(canvas_width: u16, fill_num: u8, fill_den: u8, line_width: u16) -> (r: Option<
        RasterConfig,
    >)
        ensures
            r.is_some() <==> 0 < fill_num <= fill_den,
            r.is_some() ==> r.unwrap() == (RasterConfig {
                canvas_width,
                fill_num,
                fill_den,
                line_width,
            }),
    {
        if 0 < fill_num && fill_num <= fill_den {
            Some(RasterConfig { canvas_width, fill_num, fill_den, line_width })
        } else {
            None
        }
    }
}

impl Default for RasterConfig {
    /// An 800-cell canvas, half of it filled, with lines 10 cells wide.
    fn default() -> (c: RasterConfig)
        ensures
            c == (RasterConfig { canvas_width: 800, fill_num: 1, fill_den: 2, line_width: 10 }),
            c.wf(),
    {
        RasterConfig { canvas_width: 800, fill_num: 1, fill_den: 2, line_width: 10 }
    }
}

} // verus!
