//! What the application registers: image sources, imported images and the
//! current watermark, and the identifiers handed out for them.

use std::sync::Arc;

use vstd::prelude::*;

use crate::text::{decimal, decimal_chars, lemma_decimal_injective, string_from_chars};
use crate::watermark::RgbaImage;

verus! {

/// Where a registered image's full-resolution pixels come from: a file on
/// disk (re-decoded on demand) or in-memory bytes (a drag-dropped file or raw
/// bitmap).
pub enum ImageSource {
    Path(String),
    Bytes(Arc<Vec<u8>>),
}

/// A registered source image: its source, kept for re-decoding, and its name,
/// kept for output naming.
pub struct ImageEntry {
    pub source: ImageSource,
    pub name: String,
}

/// Watermark payload in a shareable form: a decoded raster, or the raw bytes
/// of an SVG document (parsed per use).
pub enum WatermarkData {
    Raster(Arc<RgbaImage>),
    Svg(Vec<u8>),
}

/// The id numbered `n` under `prefix`: the prefix followed by `n` in decimal.
pub open spec fn spec_prefixed_id(prefix: Seq<char>, n: u64) -> Seq<char> {
    prefix + decimal(n as nat)
}

/// The id numbered `n` under `prefix` (the counter itself is kept by the
/// application state).
pub fn prefixed_id(prefix: &str, n: u64) -> (r: String)
    ensures
        r@ == spec_prefixed_id(prefix@, n),
{
    let mut id = String::from_str(prefix);
    let digits = string_from_chars(decimal_chars(n).as_slice());
    id.append(digits.as_str());
    id
}

/// Ids are unique per counter value: under one prefix, distinct counter
/// values give distinct ids.
pub proof fn distinct_counts_give_distinct_ids(prefix: Seq<char>, m: u64, n: u64)
    requires
        m != n,
    ensures
        spec_prefixed_id(prefix, m) != spec_prefixed_id(prefix, n),
{
    if spec_prefixed_id(prefix, m) == spec_prefixed_id(prefix, n) {
        let k = prefix.len() as int;
        assert(spec_prefixed_id(prefix, m).skip(k) =~= decimal(m as nat));
        assert(spec_prefixed_id(prefix, n).skip(k) =~= decimal(n as nat));
        lemma_decimal_injective(m as nat, n as nat);
    }
}

} // verus!
