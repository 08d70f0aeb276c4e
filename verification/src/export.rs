//! The diagnostic image of a canvas, encoded with the `image` crate.

use vstd::prelude::*;
use crate::canvas::RasterCanvas;

verus! {

/// `image::ImageError`, why an image was not encoded.
#[verifier::external_type_specification]
#[verifier::external_body]
pub struct ExImageError(image::ImageError);

/// What `image::write_buffer_with_format` writes for 8-bit greyscale pixels
/// in the PNG format: the bytes of the file, or `None` where it fails.
pub uninterp spec fn png_encoding(pixels: Seq<u8>, width: u32, height: u32) -> Option<Seq<u8>>;

/// Why no diagnostic image was made.
#[derive(Debug)]
pub enum ExportError {
    /// The encoder refused the image.
    Encoding(image::ImageError),
}

/// Calls `image::write_buffer_with_format` for 8-bit greyscale pixels and
/// the PNG format, with a buffer in memory as the writer. The encoder
/// demands a byte for each of `width` by `height` pixels, and refuses only
/// an image with a side of zero. What it writes depends on the pixels and
/// the two sides alone.
#[verifier::external_body]
fn encode_png(pixels: &[u8], width: u32, height: u32) -> (r: Result<Vec<u8>, image::ImageError>)
    requires
        pixels@.len() == width * height,
    ensures
        match r {
            Ok(bytes) => png_encoding(pixels@, width, height) == Some(bytes@),
            Err(_) => png_encoding(pixels@, width, height).is_none(),
        },
        width > 0 && height > 0 ==> r.is_ok(),
{
    let mut out = std::io::Cursor::new(Vec::new());
    match image::write_buffer_with_format(
        &mut out,
        pixels,
        width,
        height,
        image::ColorType::L8,
        image::ImageFormat::Png,
    ) {
        Ok(()) => Ok(out.into_inner()),
        Err(e) => Err(e),
    }
}

/// The PNG file of the diagnostic image of a canvas: `cols()` by `rows()`
/// pixels, ink dark on a light ground.
pub open spec fn diagnostic_png_of(canvas: RasterCanvas) -> Option<Seq<u8>> {
    png_encoding(canvas.shaded(0, 255), canvas.cols() as u32, canvas.rows() as u32)
}

/// Encodes the diagnostic image of a canvas as a PNG file. The bytes are
/// returned, not written anywhere. A canvas with cells always has its
/// image.
pub fn diagnostic_png(canvas: &RasterCanvas) -> (r: Result<Vec<u8>, ExportError>)
    requires
        canvas.wf(),
    ensures
        match r {
            Ok(bytes) => diagnostic_png_of(*canvas) == Some(bytes@),
            Err(ExportError::Encoding(_)) => diagnostic_png_of(*canvas).is_none(),
        },
        canvas.rows() * canvas.cols() > 0 ==> r.is_ok(),
{
    let pixels: Vec<u8> = canvas.to_luma8();
    let width: u32 = canvas.width() as u32;
    let height: u32 = canvas.height() as u32;
    proof {
        canvas.lemma_within_limits();
        assert(width * height == canvas.rows() * canvas.cols() && (width * height > 0 ==> width > 0
            && height > 0)) by (nonlinear_arith)
            requires
                width == canvas.cols(),
                height == canvas.rows(),
        ;
    }
    match encode_png(pixels.as_slice(), width, height) {
        Ok(bytes) => Ok(bytes),
        Err(e) => Err(ExportError::Encoding(e)),
    }
}

} // verus!
