//! Rasterizing freehand pen strokes for text recognition.
//!
//! A stroke set is a sequence of pen samples in device units. [`pipeline`]
//! turns one into a canvas of ink and background cells: [`extent`] finds
//! its bounding box, [`scale`] maps it onto the centred part of a canvas of
//! fixed width without changing its shape, and [`segment`] fills a thick
//! line between every two samples of one stroke. [`canvas`] holds the grid
//! and hands it out as intensities or as an image, [`export`] encodes the
//! image, [`recognition`] prepares the grid for the engine that reads the
//! text and picks the lines to show, and [`capture`] keeps the stroke set
//! while it is drawn.
//!
//! All positions are integers. Canvas positions count sub-cell units, so
//! that scaling is exact and a cell is chosen by one flooring division.

pub mod arith;
pub mod canvas;
pub mod capture;
pub mod config;
pub mod export;
pub mod extent;
pub mod pipeline;
pub mod recognition;
pub mod sample;
pub mod scale;
pub mod segment;
