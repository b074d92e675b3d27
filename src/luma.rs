//! Decoding of an encoded raster image into 8-bit grayscale pixels.

use vstd::prelude::*;

verus! {

#[verifier::external_type_specification]
#[verifier::external_body]
pub struct ExImageError(image::ImageError);

/// The grayscale pixels, in row-major order, of the image that `encoded`
/// holds, or `None` where `encoded` is no image in a recognized format.
pub uninterp spec fn luma_of(encoded: Seq<u8>) -> Option<Seq<u8>>;

/// Relies on `image::load_from_memory`, which guesses the format from the bytes
/// and decodes them, and on `DynamicImage::to_luma8` and `ImageBuffer::into_raw`,
/// which convert the result to one byte of luminance per pixel.
#[verifier::external_body]
pub(crate) fn decode_luma(encoded: &[u8]) -> (r: Result<Vec<u8>, image::ImageError>)
    ensures
        match r {
            Ok(p) => luma_of(encoded@) == Some(p@),
            Err(_) => luma_of(encoded@) is None,
        },
{
    match image::load_from_memory(encoded) {
        Ok(img) => Ok(img.to_luma8().into_raw()),
        Err(e) => Err(e),
    }
}

} // verus!
