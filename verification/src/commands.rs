//! Decisions behind the command surface: what the frontend is told about
//! images and watermarks, preview cache keys, recognising SVG watermarks and
//! preparing raster ones.

use vstd::prelude::*;

use crate::decode::{decoded_view, load_rgba_from_bytes, DecodeError};
use crate::paths::{ext_of, ext_reading, extension_lower, net_prefix};
use crate::text::{
    chars_of, contains, find_chars, lossy_chars, starts_with, starts_with_chars, trim_start,
    trim_start_chars, lossy_text,
};
use std::sync::Arc;

use crate::state::WatermarkData;
use crate::watermark::{from_svg_bytes, is_trim_of, svg_parses, trim_transparent, RgbaImage, WatermarkError};

verus! {

/// Metadata for an imported source image.
pub struct ImageMeta {
    pub id: String,
    pub name: String,
    pub width: u32,
    pub height: u32,
}

/// Metadata for the current watermark.
pub struct WatermarkMeta {
    /// `"svg"` or `"raster"`.
    pub kind: String,
    pub width: u32,
    pub height: u32,
}

/// Watermark metadata plus the managed path the logo was copied to, so the
/// frontend can persist a reference that survives the original file moving.
pub struct WatermarkMetaStored {
    pub kind: String,
    pub width: u32,
    pub height: u32,
    pub stored_path: String,
}

/// Cache key of an image's base preview: `base:<id>`.
pub open spec fn spec_base_key(id: Seq<char>) -> Seq<char> {
    "base:"@ + id
}

/// Cache key of an image's base preview.
pub fn base_key(id: &str) -> (r: String)
    ensures
        r@ == spec_base_key(id@),
{
    let mut key = String::from_str("base:");
    key.append(id);
    key
}

/// The text that sniffing looks at: the first 256 bytes (or fewer), decoded
/// lossily, without leading whitespace.
pub open spec fn sniffed_head(bytes: Seq<u8>) -> Seq<char> {
    let n = if bytes.len() < 256 {
        bytes.len() as int
    } else {
        256
    };
    trim_start(lossy_text(bytes.subrange(0, n)))
}

/// Heuristic: the head of the byte stream opens an XML declaration or an
/// `<svg` element, or mentions `<svg` anywhere.
pub open spec fn spec_looks_like_svg(bytes: Seq<u8>) -> bool {
    let t = sniffed_head(bytes);
    starts_with(t, "<?xml"@) || starts_with(t, "<svg"@) || contains(t, "<svg"@)
}

/// Does this byte stream look like an SVG document?
pub fn looks_like_svg(bytes: &[u8]) -> (r: bool)
    ensures
        r == spec_looks_like_svg(bytes@),
{
    let n = if bytes.len() < 256 {
        bytes.len()
    } else {
        256
    };
    let head = lossy_chars(bytes, 0, n);
    let t = trim_start_chars(head.as_slice());
    let svg = chars_of("<svg");
    starts_with_chars(t.as_slice(), chars_of("<?xml").as_slice()) || starts_with_chars(
        t.as_slice(),
        svg.as_slice(),
    ) || find_chars(t.as_slice(), svg.as_slice()).is_some()
}

/// Whether a watermark named `name` (in one reading of the name) with these
/// bytes is treated as SVG.
pub open spec fn svg_reading(name: Seq<char>, bytes: Seq<u8>, win: bool) -> bool {
    extension_lower(ext_reading(name, win)) == "svg"@ || spec_looks_like_svg(bytes)
}

/// A watermark is treated as SVG when its name has the `svg` extension (any
/// case) or its bytes look like SVG.
pub fn is_svg_watermark(name: &str, bytes: &[u8]) -> (r: bool)
    ensures
        !net_prefix(name@) ==> r == svg_reading(name@, bytes@, false) || r == svg_reading(
            name@,
            bytes@,
            true,
        ),
        spec_looks_like_svg(bytes@) ==> r,
{
    let ext = ext_of(name);
    let svg = String::from_str("svg");
    ext == svg || looks_like_svg(bytes)
}

/// The stored extension in one reading of the path: its lower-cased
/// extension, or `svg`/`png` by sniffing when it has none.
pub open spec fn stored_reading(path: Seq<char>, bytes: Seq<u8>, win: bool) -> Seq<char> {
    if extension_lower(ext_reading(path, win)).len() > 0 {
        extension_lower(ext_reading(path, win))
    } else if spec_looks_like_svg(bytes) {
        "svg"@
    } else {
        "png"@
    }
}

/// Extension under which a persisted watermark copy is stored: the source's
/// lower-cased extension, or `svg`/`png` by sniffing when it has none.
pub fn stored_extension(path: &str, bytes: &[u8]) -> (r: String)
    ensures
        !net_prefix(path@) ==> r@ == stored_reading(path@, bytes@, false) || r@ == stored_reading(
            path@,
            bytes@,
            true,
        ),
{
    let ext = ext_of(path);
    if ext.as_str().is_empty() {
        if looks_like_svg(bytes) {
            String::from_str("svg")
        } else {
            String::from_str("png")
        }
    } else {
        ext
    }
}

/// Decode a raster watermark and trim its transparent borders, so that the
/// watermark box is the actual content.
pub fn raster_watermark(bytes: &[u8]) -> (r: Result<RgbaImage, DecodeError>)
    ensures
        match r {
            Ok(img) => decoded_view(bytes@) matches Some(v) && is_trim_of(img.view(), v),
            Err(_) => decoded_view(bytes@) is None,
        },
{
    match load_rgba_from_bytes(bytes) {
        Ok(img) => Ok(trim_transparent(&img)),
        Err(e) => Err(e),
    }
}

/// Why bytes could not become a watermark.
#[derive(Debug)]
pub enum WatermarkDataError {
    Svg(WatermarkError),
    Decode(DecodeError),
}

/// What building a watermark from `bytes` gives when it is taken as SVG
/// (`svg`) or as a raster: the SVG bytes themselves, once they parse, or the
/// decoded raster with its transparent borders trimmed.
pub open spec fn watermark_outcome(
    bytes: Seq<u8>,
    svg: bool,
    r: Result<(WatermarkData, &'static str), WatermarkDataError>,
) -> bool {
    if svg {
        match r {
            Ok((WatermarkData::Svg(b), k)) => svg_parses(bytes) && b@ == bytes && k@ == "svg"@,
            Ok(_) => false,
            Err(e) => !svg_parses(bytes) && e is Svg,
        }
    } else {
        match r {
            Ok((WatermarkData::Raster(img), k)) => decoded_view(bytes) matches Some(v)
                && is_trim_of(img.view(), v) && k@ == "raster"@,
            Ok(_) => false,
            Err(e) => decoded_view(bytes) is None && e is Decode,
        }
    }
}

/// Build a raster or SVG watermark from a name and bytes: SVG (chosen by the
/// name's extension or by sniffing the bytes) is checked to parse and kept as
/// bytes; a raster is decoded and its transparent borders are trimmed so
/// that the watermark box is the actual content.
pub fn watermark_data_from(name: &str, bytes: Vec<u8>) -> (r: Result<
    (WatermarkData, &'static str),
    WatermarkDataError,
>)
    ensures
        !net_prefix(name@) ==> watermark_outcome(bytes@, svg_reading(name@, bytes@, false), r)
            || watermark_outcome(bytes@, svg_reading(name@, bytes@, true), r),
        spec_looks_like_svg(bytes@) ==> watermark_outcome(bytes@, true, r),
{
    proof {
        reveal_strlit("svg");
        reveal_strlit("raster");
    }
    if is_svg_watermark(name, bytes.as_slice()) {
        match from_svg_bytes(bytes.as_slice()) {
            Ok(_) => Ok((WatermarkData::Svg(bytes), "svg")),
            Err(e) => Err(WatermarkDataError::Svg(e)),
        }
    } else {
        match raster_watermark(bytes.as_slice()) {
            Ok(img) => Ok((WatermarkData::Raster(Arc::new(img)), "raster")),
            Err(e) => Err(WatermarkDataError::Decode(e)),
        }
    }
}

/// The text of an optional string.
pub open spec fn opt_text(o: Option<String>) -> Option<Seq<char>> {
    match o {
        Some(x) => Some(x@),
        None => None,
    }
}

/// What `urlencoding::decode` gives for `s`: the percent-decoded text, or
/// `None` when the decoded bytes are not UTF-8.
pub uninterp spec fn url_decoded(s: Seq<char>) -> Option<Seq<char>>;

/// `urlencoding::decode`, as an owned string (`None` for its UTF-8 error).
/// Claimed of its source: the result is a function of the input (named
/// `url_decoded`), and text holding no `%` decodes to itself.
#[verifier::external_body]
fn url_decode(s: &str) -> (r: Option<String>)
    ensures
        opt_text(r) == url_decoded(s@),
        !s@.contains('%') ==> opt_text(r) == Some(s@),
{
    urlencoding::decode(s).ok().map(|c| c.into_owned())
}

/// The name that an uploaded file carries: its URI-encoded `name` header,
/// decoded (kept as sent when it does not decode to UTF-8), or
/// `default_name` when there is no header.
pub fn upload_name(header: Option<&str>, default_name: &str) -> (r: String)
    ensures
        header is None ==> r@ == default_name@,
        header matches Some(h) ==> r@ == match url_decoded(h@) {
            Some(d) => d,
            None => h@,
        },
{
    match header {
        Some(h) => match url_decode(h) {
            Some(d) => d,
            None => String::from_str(h),
        },
        None => String::from_str(default_name),
    }
}

} // verus!
