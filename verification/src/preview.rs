//! Encoding of rasters for display in the frontend and for export.
//!
//! Previews are downscaled to fit a [`MAX_PREVIEW_DIM`] square (a floating
//! point computation done outside the verified library) and PNG-encoded here.

use std::io::Cursor;

use image::codecs::png::PngEncoder;
use image::{ExtendedColorType, ImageEncoder};
use vstd::prelude::*;

use crate::watermark::{RasterView, RgbaImage};

verus! {

/// Maximum size, in pixels, of any preview dimension.
pub const MAX_PREVIEW_DIM: u32 = 2000;

/// The PNG file that the `image` crate's PNG encoder writes for a straight
/// RGBA8 raster, or `None` when it fails.
pub uninterp spec fn png_encoding(width: u32, height: u32, data: Seq<u8>) -> Option<Seq<u8>>;

/// `PngEncoder::write_image` of an RGBA8 buffer into a fresh vector. Claimed:
/// the bytes written are a function of the arguments (named `png_encoding`).
/// The encoder panics on a buffer whose length is not `4 * width * height`,
/// so such a buffer is excluded.
#[verifier::external_body]
fn encode_rgba8_png(width: u32, height: u32, data: &[u8]) -> (r: Result<Vec<u8>, image::ImageError>)
    requires
        data@.len() == 4 * width * height,
    ensures
        r matches Ok(v) ==> png_encoding(width, height, data@) == Some(v@),
        r is Err ==> png_encoding(width, height, data@) is None,
{
    let mut buf = Cursor::new(Vec::new());
    PngEncoder::new(&mut buf).write_image(data, width, height, ExtendedColorType::Rgba8)?;
    Ok(buf.into_inner())
}

/// The PNG encoding of a raster.
pub open spec fn encoded_png(v: RasterView) -> Option<Seq<u8>> {
    png_encoding(v.width as u32, v.height as u32, v.data)
}

/// Encode a raster to PNG bytes.
pub fn encode_png(img: &RgbaImage) -> (r: Result<Vec<u8>, image::ImageError>)
    ensures
        match r {
            Ok(v) => encoded_png(img.view()) == Some(v@),
            Err(_) => encoded_png(img.view()) is None,
        },
{
    encode_rgba8_png(img.width(), img.height(), img.as_raw().as_slice())
}

/// Encode an image to the preview wire format (PNG).
pub fn encode_preview(img: &RgbaImage) -> (r: Result<Vec<u8>, image::ImageError>)
    ensures
        match r {
            Ok(v) => encoded_png(img.view()) == Some(v@),
            Err(_) => encoded_png(img.view()) is None,
        },
{
    encode_png(img)
}

} // verus!
