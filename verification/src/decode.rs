//! Decoding of supported source images: which files are accepted, and the
//! decode of in-memory images into the library's RGBA raster.

use std::io::Cursor;

use image::metadata::Orientation;
use image::{DynamicImage, ImageDecoder, ImageReader, Limits};
use vstd::prelude::*;

use crate::paths::{ext_reading, net_prefix, path_extension};
use crate::text::{chars_of, eq_chars, lower_chars, lower_seq};
use crate::watermark::{RasterView, RgbaImage};

verus! {

/// File extensions accepted as image inputs (lowercase, without dot).
pub const SUPPORTED_INPUTS: [&'static str; 6] = ["png", "jpg", "jpeg", "tiff", "tif", "webp"];

/// The lower-cased extension `e` is one of [`SUPPORTED_INPUTS`].
pub open spec fn supported_ext(e: Seq<char>) -> bool {
    exists|i: int| 0 <= i < 6 && SUPPORTED_INPUTS@[i]@ == lower_seq(e)
}

/// Every listed extension is made of small ASCII letters.
proof fn lemma_supported_lowercase(i: int, k: int)
    requires
        0 <= i < 6,
        0 <= k < SUPPORTED_INPUTS@[i]@.len(),
    ensures
        'a' <= SUPPORTED_INPUTS@[i]@[k] <= 'z',
{
    reveal_strlit("png");
    reveal_strlit("jpg");
    reveal_strlit("jpeg");
    reveal_strlit("tiff");
    reveal_strlit("tif");
    reveal_strlit("webp");
}

/// Extensions are matched ignoring ASCII case: an extension that equals a
/// listed one once its capital letters are read as small ones is supported.
pub proof fn supported_ignores_case(e: Seq<char>, i: int)
    requires
        0 <= i < 6,
        e.len() == SUPPORTED_INPUTS@[i]@.len(),
        forall|k: int|
            0 <= k < e.len() ==> e[k] == SUPPORTED_INPUTS@[i]@[k] || e[k] as u32 + 32
                == SUPPORTED_INPUTS@[i]@[k] as u32,
    ensures
        supported_ext(e),
{
    let l = SUPPORTED_INPUTS@[i]@;
    assert forall|k: int| 0 <= k < e.len() implies lower_seq(e)[k] == l[k] by {
        lemma_supported_lowercase(i, k);
        crate::text::lower_is_ascii_lowercase(e[k]);
        crate::text::lower_is_ascii_lowercase(l[k]);
    }
    assert(lower_seq(e) =~= l);
}

/// Whether the extension `ext` (any case) is a supported image input.
pub fn is_supported_extension(ext: &[char]) -> (r: bool)
    ensures
        r == supported_ext(ext@),
{
    let lowered = lower_chars(ext);
    let mut i: usize = 0;
    while i < 6
        invariant
            i <= 6,
            lowered@ == lower_seq(ext@),
            forall|j: int| 0 <= j < i ==> SUPPORTED_INPUTS@[j]@ != lowered@,
        decreases 6 - i,
    {
        let cand = chars_of(SUPPORTED_INPUTS[i]);
        if eq_chars(cand.as_slice(), lowered.as_slice()) {
            return true;
        }
        i = i + 1;
    }
    false
}

/// The answer for `path` in one reading of its file name: whether it has an
/// extension that is supported.
pub open spec fn supported_reading(path: Seq<char>, win: bool) -> bool {
    match ext_reading(path, win) {
        Some(e) => supported_ext(e),
        None => false,
    }
}

/// Whether `path`'s extension is a supported image input: the extension of
/// its final component, lower-cased, is listed (the platform's reading of
/// that component). A path without any `.` is never accepted.
pub fn is_supported_input(path: &str) -> (r: bool)
    ensures
        !net_prefix(path@) ==> r == supported_reading(path@, false) || r == supported_reading(
            path@,
            true,
        ),
        r ==> path@.contains('.'),
{
    match path_extension(path) {
        Some(ext) => is_supported_extension(ext.as_slice()),
        None => false,
    }
}

/// Largest width or height, in pixels, that a decode accepts.
pub const MAX_DECODE_DIM: u32 = 30000;

/// Largest allocation, in bytes, that a decode may make.
pub const MAX_DECODE_ALLOC: u64 = 2147483648;

#[verifier::external_type_specification]
#[verifier::external_body]
pub struct ExIoError(std::io::Error);

#[verifier::external_type_specification]
#[verifier::external_body]
pub struct ExImageError(image::ImageError);

/// Why an image could not be decoded.
#[derive(Debug)]
pub enum DecodeError {
    Io(std::io::Error),
    Image(image::ImageError),
}

/// The upright straight-RGBA image (width, height, bytes) that the `image`
/// crate decodes from `bytes` under the given limits, or `None` when it
/// rejects them.
pub uninterp spec fn decoded_rgba(bytes: Seq<u8>, max_dim: u32, max_alloc: u64) -> Option<
    (u32, u32, Seq<u8>),
>;

/// Guesses the format of `bytes` (`ImageReader::with_guessed_format`), decodes
/// them with the given limits, applies the decoder's EXIF orientation and
/// converts to RGBA8. Claimed: the result is a function of the arguments
/// (named `decoded_rgba`), and an RGBA8 buffer holds 4 bytes per pixel.
#[verifier::external_body]
fn decode_oriented(bytes: &[u8], max_dim: u32, max_alloc: u64) -> (r: Result<
    (u32, u32, Vec<u8>),
    DecodeError,
>)
    ensures
        r matches Ok(t) ==> decoded_rgba(bytes@, max_dim, max_alloc) == Some((t.0, t.1, t.2@))
            && t.2@.len() == 4 * t.0 * t.1,
        r is Err ==> decoded_rgba(bytes@, max_dim, max_alloc) is None,
{
    let mut reader = ImageReader::new(Cursor::new(bytes)).with_guessed_format().map_err(DecodeError::Io)?;
    let mut limits = Limits::default();
    limits.max_image_width = Some(max_dim);
    limits.max_image_height = Some(max_dim);
    limits.max_alloc = Some(max_alloc);
    reader.limits(limits);
    let mut decoder = reader.into_decoder().map_err(DecodeError::Image)?;
    let orientation = decoder.orientation().unwrap_or(Orientation::NoTransforms);
    let mut img = DynamicImage::from_decoder(decoder).map_err(DecodeError::Image)?;
    img.apply_orientation(orientation);
    let rgba = img.to_rgba8();
    Ok((rgba.width(), rgba.height(), rgba.into_raw()))
}

/// What decoding `bytes` gives: the raster the `image` crate decodes under
/// [`MAX_DECODE_DIM`] and [`MAX_DECODE_ALLOC`], or `None`.
pub open spec fn decoded_view(bytes: Seq<u8>) -> Option<RasterView> {
    match decoded_rgba(bytes, MAX_DECODE_DIM, MAX_DECODE_ALLOC) {
        Some(t) => Some(RasterView { width: t.0 as nat, height: t.1 as nat, data: t.2 }),
        None => None,
    }
}

/// Decode an in-memory image (e.g. a drag-dropped file or raw bitmap) into
/// straight RGBA, upright (EXIF orientation applied to the pixels), under the
/// decode limits that guard against decompression bombs.
pub fn load_rgba_from_bytes(bytes: &[u8]) -> (r: Result<RgbaImage, DecodeError>)
    ensures
        match r {
            Ok(img) => decoded_view(bytes@) == Some(img.view()),
            Err(_) => decoded_view(bytes@) is None,
        },
{
    match decode_oriented(bytes, MAX_DECODE_DIM, MAX_DECODE_ALLOC) {
        Ok((w, h, data)) => Ok(RgbaImage::from_exact(w, h, data)),
        Err(e) => Err(e),
    }
}

} // verus!
