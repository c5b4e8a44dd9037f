//! PNG encoding of the finished pixel buffer.
//!
//! The encoding itself is done by the image library; this module wraps
//! that call and names its output, so that callers can state exactly
//! which byte stream a given buffer produces.

use vstd::prelude::*;

verus! {

#[verifier::external_type_specification]
#[verifier::external_body]
pub struct ExImageError(image::ImageError);

/// The PNG stream that the image library produces for a row-major RGB
/// buffer of the given dimensions.
pub uninterp spec fn png_of(pixels: Seq<u8>, width: u32, height: u32) -> Seq<u8>;

/// Relies on `image::codecs::png::PngEncoder::write_image` (through the
/// `image::ImageEncoder` trait): encodes an RGB8 buffer as a PNG stream
/// into the given writer, and its output is a function of the buffer and
/// the dimensions alone.  It panics when the buffer length is not
/// `width * height * 3`, which the precondition rules out.  Writing into
/// a `Vec` cannot fail, so the encoder rejects exactly the images with a
/// zero dimension and succeeds on every other buffer of the right
/// length.
#[verifier::external_body]
fn encode_png(pixels: &Vec<u8>, width: u32, height: u32) -> (r: Result<
    Vec<u8>,
    image::ImageError,
>)
    requires
        pixels@.len() == width * height * 3,
    ensures
        r matches Ok(out) ==> out@ == png_of(pixels@, width, height),
        width >= 1 && height >= 1 ==> r is Ok,
{
    let mut out: Vec<u8> = Vec::new();
    let encoder = image::codecs::png::PngEncoder::new(&mut out);
    match image::ImageEncoder::write_image(
        encoder,
        pixels.as_slice(),
        width,
        height,
        image::ExtendedColorType::Rgb8,
    ) {
        Ok(()) => Ok(out),
        Err(e) => Err(e),
    }
}

/// The pixel buffer could not be encoded.
#[derive(Clone, Copy, PartialEq, Eq, Structural, Debug)]
pub enum EncodeError {
    /// The image library reported a failure while producing the stream.
    Encoding,
}

/// Encode a row-major RGB pixel buffer of the given dimensions as a PNG
/// stream.  Every image with positive dimensions is encoded, and the
/// result is exactly the stream the image library produces for this
/// buffer; only a zero dimension fails, reported as
/// `EncodeError::Encoding`.
pub fn encode_image(pixels: &Vec<u8>, width: u32, height: u32) -> (r: Result<
    Vec<u8>,
    EncodeError,
>)
    requires
        pixels@.len() == width * height * 3,
    ensures
        r matches Ok(out) ==> out@ == png_of(pixels@, width, height),
        width >= 1 && height >= 1 ==> r is Ok,
        r matches Err(e) ==> e == EncodeError::Encoding && (width == 0 || height == 0),
{
    match encode_png(pixels, width, height) {
        Ok(v) => Ok(v),
        Err(_) => Err(EncodeError::Encoding),
    }
}

} // verus!
