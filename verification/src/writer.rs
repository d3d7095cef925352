//! The image writer.
//!
//! The rendered raster is encoded as the bytes of an 8-bit single-channel
//! grayscale PNG image.  The encoding itself is the `image` crate's work
//! and stands behind a trusted wrapper; everything up to the encoder's
//! input — which raster bytes are handed over, and at which dimensions —
//! is verified.

use vstd::prelude::*;
use image::ImageEncoder;
use crate::complex::Complex;
use crate::geometry::ImageShape;
use crate::render::{render_raster, raster_spec};

verus! {

/// The `image` crate's error type, carried through opaquely.
#[verifier::external_type_specification]
#[verifier::external_body]
pub struct ExImageError(image::ImageError);

/// Why a raster could not be turned into an image file's bytes.
#[derive(Debug)]
pub enum RenderError {
    /// The PNG encoder refused the raster.
    Encoding(image::ImageError),
}

/// The PNG encoding of an 8-bit grayscale raster of the given width and
/// height: the encoder's output depends on these arguments alone.
pub uninterp spec fn png_gray_of(raster: Seq<u8>, width: int, height: int) -> Seq<u8>;

/// Relies on image's `PngEncoder::write_image` with color type `L8`: on
/// a buffer of length `width * height` it writes one encoding of the
/// raster, determined by the raster and the dimensions; on a buffer of
/// any other length it panics, which the precondition rules out.  For
/// this color type the underlying png encoder refuses only a zero width
/// or height, and every other failure path only propagates an I/O error
/// of the writer, which a `Vec` writer never produces — so on nonzero
/// dimensions the call succeeds.
#[verifier::external_body]
fn encode_gray_png(pixels: &Vec<u8>, width: u32, height: u32) -> (r: Result<
    Vec<u8>,
    image::ImageError,
>)
    requires
        pixels@.len() == width * height,
    ensures
        r matches Ok(png) ==> png@ == png_gray_of(pixels@, width as int, height as int),
        width > 0 && height > 0 ==> r is Ok,
{
    let mut out: Vec<u8> = Vec::new();
    let encoder = image::codecs::png::PngEncoder::new(&mut out);
    match encoder.write_image(pixels.as_slice(), width, height, image::ExtendedColorType::L8) {
        Ok(()) => Ok(out),
        Err(e) => Err(e),
    }
}

/// A finished raster of the given shape, encoded as the bytes of an
/// 8-bit grayscale PNG image.  A valid shape has positive dimensions,
/// which the encoder never refuses, so the call succeeds.
pub fn encode_raster(raster: &Vec<u8>, bounds: ImageShape) -> (r: Result<Vec<u8>, RenderError>)
    requires
        bounds.valid(),
        raster@.len() == bounds.width * bounds.height,
    ensures
        r is Ok,
        r matches Ok(png) ==> png@ == png_gray_of(
            raster@,
            bounds.width as int,
            bounds.height as int,
        ),
{
    match encode_gray_png(raster, bounds.width as u32, bounds.height as u32) {
        Ok(png) => Ok(png),
        Err(e) => Err(RenderError::Encoding(e)),
    }
}

/// The raster rendered between the given corners, encoded as the bytes
/// of an 8-bit grayscale PNG image of exactly `bounds.width` by
/// `bounds.height` pixels.  A valid shape has positive dimensions, which
/// the encoder never refuses, so the call succeeds and returns the
/// encoding of the one raster the specification allows.
pub fn render_image(
    bounds: ImageShape,
    upper_left: Complex<i64>,
    lower_right: Complex<i64>,
) -> (r: Result<Vec<u8>, RenderError>)
    requires
        bounds.valid(),
    ensures
        r is Ok,
        r matches Ok(png) ==> png@ == png_gray_of(
            raster_spec(bounds, upper_left, lower_right),
            bounds.width as int,
            bounds.height as int,
        ),
{
    let raster = render_raster(bounds, upper_left, lower_right, 16);
    encode_raster(&raster, bounds)
}

} // verus!
