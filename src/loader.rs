use crate::texture::{pixels_of_rgba, Image, ImageView};
use vstd::prelude::*;

verus! {

/// Why an asset could not be read.
#[derive(Clone, Copy, Debug, PartialEq, Eq, Structural)]
pub enum AssetError {
    /// The bytes are not a picture in a format that the decoder knows.
    MalformedImage,
    /// A line of a mesh file, counted from zero, that cannot be read.
    MalformedMesh(usize),
}

#[verifier::external_type_specification]
#[verifier::external_body]
pub struct ExImageError(image::ImageError);

/// The picture that a file's bytes decode to: width, height and RGBA bytes
/// row by row; none when the bytes do not decode.
pub uninterp spec fn decoded_rgba8(data: Seq<u8>) -> Option<(nat, nat, Seq<u8>)>;

/// Relies on `image::guess_format`, which picks a format from the built-in
/// table of magic bytes, on `image::load_from_memory_with_format`, which runs
/// that format's built-in decoder, and on `DynamicImage::to_rgba8` with
/// `ImageBuffer::into_raw`: the pixels as RGBA bytes, row by row, with at
/// least four bytes per pixel. Neither step reads the crate's process-wide
/// format or decoder hooks, so the outcome depends on the bytes alone.
#[verifier::external_body]
fn decode_rgba8(data: &[u8]) -> (r: Result<(u32, u32, Vec<u8>), image::ImageError>)
    ensures
        match r {
            Ok((w, h, bytes)) => decoded_rgba8(data@) == Some((w as nat, h as nat, bytes@))
                && bytes@.len() >= 4 * w * h,
            Err(_) => decoded_rgba8(data@) is None,
        },
{
    let format = image::guess_format(data)?;
    let rgba = image::load_from_memory_with_format(data, format)?.to_rgba8();
    Ok((rgba.width(), rgba.height(), rgba.into_raw()))
}

/// Decodes a picture file (PNG or JPEG) into an image.
pub fn load_image(data: &[u8]) -> (r: Result<Image, AssetError>)
    ensures
        match decoded_rgba8(data@) {
            None => r == Err::<Image, AssetError>(AssetError::MalformedImage),
            Some((w, h, bytes)) => r is Ok && r->Ok_0@ == (ImageView {
                width: w,
                height: h,
                pixels: pixels_of_rgba(bytes, w * h),
            }),
        },
{
    match decode_rgba8(data) {
        Ok((width, height, bytes)) => Ok(Image::from_rgba8(width, height, bytes.as_slice())),
        Err(_) => Err(AssetError::MalformedImage),
    }
}

} // verus!
