//! An escape-time renderer for the Mandelbrot set.
//!
//! Points of the complex plane are held in fixed-point arithmetic: a
//! coordinate is an `i64` holding the real value scaled by
//! [`complex::SCALE`].  The escape evaluator, the pixel-to-point mapping
//! and the raster renderer are verified against exact integer
//! specifications; the PNG encoding of the finished raster is the
//! `image` crate's work behind a trusted wrapper.

pub mod complex;
pub mod escape;
pub mod geometry;
pub mod parse;
pub mod render;
pub mod writer;

pub use complex::{Complex, SCALE};
pub use escape::escape_time;
pub use geometry::{ImageShape, PixelPosition, pixel_to_point};
pub use parse::{complex_of_pair, pair_of_parts, parse_complex, parse_pair};
pub use render::{render_buffer, render_raster, render_rows, ESCAPE_LIMIT};
pub use writer::{encode_raster, render_image, RenderError};
