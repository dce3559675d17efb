//! Best-effort metadata preservation from source into the exported PNG.
//!
//! The ICC colour profile and EXIF block are read from the source container
//! (JPEG, PNG or WebP) with `img_parts`, and re-embedded into the output PNG
//! (as `iCCP` / `eXIf` chunks) together with a standard `Software` tag naming
//! the editor. Containers that `img_parts` cannot read (e.g. TIFF) carry no
//! transplanted metadata.
//!
//! A PNG is modelled by its chunk list: a sequence of `(type, contents)`
//! pairs. The trusted items below state what `img_parts` does to that list;
//! what this module decides on top of them (where the `Software` chunk goes,
//! what it holds, which container parser reads which extension) is proved.

use vstd::prelude::*;
use vstd::string::StringSliceAdditionalSpecFns;

use img_parts::{ImageEXIF, ImageICC};

use crate::text::{chars_of, eq_chars, lower_chars, lower_seq};
use crate::vrchat::png_signature;

verus! {

/// The editor identifier written into exports as the PNG `Software` tag.
pub const SOFTWARE: &'static str = "Watermarker (https://github.com/hhvrc)";

/// ICC profile and EXIF blocks extracted from a source image.
#[derive(Default, Clone)]
pub struct Metadata {
    pub icc: Option<Vec<u8>>,
    pub exif: Option<Vec<u8>>,
}

/// The bytes held by an optional vector.
pub open spec fn opt_bytes(o: Option<Vec<u8>>) -> Option<Seq<u8>> {
    match o {
        Some(v) => Some(v@),
        None => None,
    }
}

impl Metadata {
    /// Neither an ICC profile nor an EXIF block is present.
    pub fn is_empty(&self) -> (r: bool)
        ensures
            r == (self.icc is None && self.exif is None),
    {
        self.icc.is_none() && self.exif.is_none()
    }

    /// The `(icc, exif)` blocks as byte sequences.
    pub open spec fn blocks(&self) -> (Option<Seq<u8>>, Option<Seq<u8>>) {
        (opt_bytes(self.icc), opt_bytes(self.exif))
    }
}

/// Copy of an optional byte block.
fn copy_block(o: &Option<Vec<u8>>) -> (r: Option<Vec<u8>>)
    ensures
        opt_bytes(r) == opt_bytes(*o),
{
    match o {
        Some(v) => Some(vstd::slice::slice_to_vec(v.as_slice())),
        None => None,
    }
}

// ---------------------------------------------------------------------------
// Source containers
// ---------------------------------------------------------------------------

/// What `Jpeg::icc_profile` returns for the JPEG parsed from `b`
/// (`None` when `b` does not parse as a JPEG).
pub uninterp spec fn jpeg_icc(b: Seq<u8>) -> Option<Seq<u8>>;

/// What `Jpeg::exif` returns for the JPEG parsed from `b`
/// (`None` when `b` does not parse as a JPEG).
pub uninterp spec fn jpeg_exif(b: Seq<u8>) -> Option<Seq<u8>>;

/// What `WebP::icc_profile` returns for the WebP parsed from `b`
/// (`None` when `b` does not parse as a WebP).
pub uninterp spec fn webp_icc(b: Seq<u8>) -> Option<Seq<u8>>;

/// What `WebP::exif` returns for the WebP parsed from `b`
/// (`None` when `b` does not parse as a WebP).
pub uninterp spec fn webp_exif(b: Seq<u8>) -> Option<Seq<u8>>;

/// Parses `bytes` with `img_parts::jpeg::Jpeg::from_bytes` and reads its ICC
/// profile (`ImageICC::icc_profile`) and EXIF block (`ImageEXIF::exif`); a
/// parse error gives neither. Claimed: both results are functions of the
/// bytes, named `jpeg_icc` and `jpeg_exif`.
#[verifier::external_body]
fn jpeg_blocks(bytes: &[u8]) -> (r: (Option<Vec<u8>>, Option<Vec<u8>>))
    ensures
        opt_bytes(r.0) == jpeg_icc(bytes@),
        opt_bytes(r.1) == jpeg_exif(bytes@),
{
    match img_parts::jpeg::Jpeg::from_bytes(img_parts::Bytes::copy_from_slice(bytes)) {
        Ok(j) => (j.icc_profile().map(|b| b.to_vec()), j.exif().map(|b| b.to_vec())),
        Err(_) => (None, None),
    }
}

/// Parses `bytes` with `img_parts::webp::WebP::from_bytes` and reads its ICC
/// profile and EXIF block; a parse error gives neither. Claimed: both results
/// are functions of the bytes, named `webp_icc` and `webp_exif`.
#[verifier::external_body]
fn webp_blocks(bytes: &[u8]) -> (r: (Option<Vec<u8>>, Option<Vec<u8>>))
    ensures
        opt_bytes(r.0) == webp_icc(bytes@),
        opt_bytes(r.1) == webp_exif(bytes@),
{
    match img_parts::webp::WebP::from_bytes(img_parts::Bytes::copy_from_slice(bytes)) {
        Ok(w) => (w.icc_profile().map(|b| b.to_vec()), w.exif().map(|b| b.to_vec())),
        Err(_) => (None, None),
    }
}

// ---------------------------------------------------------------------------
// PNG chunk lists
// ---------------------------------------------------------------------------

/// A PNG as its list of `(type, contents)` chunks.
pub type ChunkSeq = Seq<(Seq<u8>, Seq<u8>)>;

#[verifier::external_type_specification]
#[verifier::external_body]
pub struct ExPng(img_parts::png::Png);

/// The chunks held by an `img_parts` PNG, in order.
pub uninterp spec fn png_chunks(p: img_parts::png::Png) -> ChunkSeq;

/// The chunk list `img_parts::png::Png::from_bytes` reads from `b`, or `None`
/// when it rejects `b` (bad signature, truncation or a CRC mismatch).
pub uninterp spec fn png_parse(b: Seq<u8>) -> Option<ChunkSeq>;

/// The contents of the `iCCP` chunk that `set_icc_profile` writes for a
/// profile (a name, then the zlib-compressed profile).
pub uninterp spec fn iccp_payload(profile: Seq<u8>) -> Seq<u8>;

/// What `ImageICC::icc_profile` reads from a PNG with these chunks.
pub uninterp spec fn png_icc(cs: ChunkSeq) -> Option<Seq<u8>>;

/// The CRC bytes written after a chunk's contents.
pub uninterp spec fn png_crc(kind: Seq<u8>, contents: Seq<u8>) -> Seq<u8>;

/// Chunk type `eXIf`.
pub open spec fn kind_exif() -> Seq<u8> {
    seq![0x65u8, 0x58u8, 0x49u8, 0x66u8]
}

/// Chunk type `iCCP`.
pub open spec fn kind_iccp() -> Seq<u8> {
    seq![0x69u8, 0x43u8, 0x43u8, 0x50u8]
}

/// Chunk type `sRGB`.
pub open spec fn kind_srgb() -> Seq<u8> {
    seq![0x73u8, 0x52u8, 0x47u8, 0x42u8]
}

/// Chunk type `IEND`.
pub open spec fn kind_iend() -> Seq<u8> {
    seq![0x49u8, 0x45u8, 0x4eu8, 0x44u8]
}

/// Chunk type `iTXt`.
pub open spec fn kind_itxt() -> Seq<u8> {
    seq![0x69u8, 0x54u8, 0x58u8, 0x74u8]
}

/// Every chunk has a 4-byte type and contents whose length fits the 32-bit
/// length field, and `IEND` can only be the last chunk.
pub open spec fn chunks_wf(cs: ChunkSeq) -> bool {
    forall|i: int|
        0 <= i < cs.len() ==> {
            &&& (#[trigger] cs[i]).0.len() == 4
            &&& cs[i].1.len() <= 0xffff_ffff
            &&& cs[i].0 == kind_iend() ==> i == cs.len() - 1
        }
}

/// Index of the first chunk of type `k` at or after `i`.
pub open spec fn first_index_from(cs: ChunkSeq, k: Seq<u8>, i: int) -> Option<int>
    decreases cs.len() - i,
{
    if i < 0 || i >= cs.len() {
        None
    } else if cs[i].0 == k {
        Some(i)
    } else {
        first_index_from(cs, k, i + 1)
    }
}

/// A first index found is a chunk of type `k`, with none before it.
pub proof fn lemma_first_index_from(cs: ChunkSeq, k: Seq<u8>, i: int)
    requires
        0 <= i,
    ensures
        first_index_from(cs, k, i) matches Some(j) ==> i <= j < cs.len() && cs[j].0 == k && forall|
            m: int,
        | i <= m < j ==> cs[m].0 != k,
        first_index_from(cs, k, i) is None ==> forall|m: int| i <= m < cs.len() ==> cs[m].0 != k,
    decreases cs.len() - i,
{
    if i < cs.len() && cs[i].0 != k {
        lemma_first_index_from(cs, k, i + 1);
    }
}

/// Contents of the first chunk of type `k`.
pub open spec fn first_contents(cs: ChunkSeq, k: Seq<u8>) -> Option<Seq<u8>> {
    match first_index_from(cs, k, 0) {
        Some(i) => Some(cs[i].1),
        None => None,
    }
}

/// `cs` without its chunks of type `k` (`Vec::retain`).
pub open spec fn remove_kind(cs: ChunkSeq, k: Seq<u8>) -> ChunkSeq
    decreases cs.len(),
{
    if cs.len() == 0 {
        cs
    } else {
        let rest = remove_kind(cs.drop_last(), k);
        if cs.last().0 == k {
            rest
        } else {
            rest.push(cs.last())
        }
    }
}

/// `c` inserted right after the first chunk (the `IHDR`), or first when
/// there is none.
pub open spec fn insert_after_first(cs: ChunkSeq, c: (Seq<u8>, Seq<u8>)) -> ChunkSeq {
    cs.insert(if cs.len() < 1 {
        cs.len() as int
    } else {
        1
    }, c)
}

/// `set_exif`: every `eXIf` chunk removed, and the new block (if any) stored
/// right after the first chunk.
pub open spec fn with_exif(cs: ChunkSeq, exif: Option<Seq<u8>>) -> ChunkSeq {
    let r = remove_kind(cs, kind_exif());
    match exif {
        Some(x) => insert_after_first(r, (kind_exif(), x)),
        None => r,
    }
}

/// `set_icc_profile`: every `iCCP` chunk removed; for a new profile the
/// conflicting `sRGB` chunks go too and an `iCCP` chunk is stored right after
/// the first chunk.
pub open spec fn with_icc(cs: ChunkSeq, icc: Option<Seq<u8>>) -> ChunkSeq {
    let r = remove_kind(cs, kind_iccp());
    match icc {
        Some(x) => insert_after_first(remove_kind(r, kind_srgb()), (kind_iccp(), iccp_payload(x))),
        None => r,
    }
}

/// Big-endian bytes of a 32-bit length.
pub open spec fn be32(n: nat) -> Seq<u8> {
    seq![
        ((n / 16777216) % 256) as u8,
        ((n / 65536) % 256) as u8,
        ((n / 256) % 256) as u8,
        (n % 256) as u8,
    ]
}

/// The bytes of a chunk: length, type, contents, then the check value
/// `crc(type, contents)`.
pub open spec fn chunk_bytes(
    c: (Seq<u8>, Seq<u8>),
    crc: spec_fn(Seq<u8>, Seq<u8>) -> Seq<u8>,
) -> Seq<u8> {
    be32(c.1.len()) + c.0 + c.1 + crc(c.0, c.1)
}

/// The bytes of a chunk list, in order.
pub open spec fn chunks_bytes(cs: ChunkSeq, crc: spec_fn(Seq<u8>, Seq<u8>) -> Seq<u8>) -> Seq<u8>
    decreases cs.len(),
{
    if cs.len() == 0 {
        Seq::empty()
    } else {
        chunks_bytes(cs.drop_last(), crc) + chunk_bytes(cs.last(), crc)
    }
}

/// The bytes of a PNG with these chunks: the signature, then each chunk.
pub open spec fn png_file_bytes(cs: ChunkSeq, crc: spec_fn(Seq<u8>, Seq<u8>) -> Seq<u8>) -> Seq<u8> {
    png_signature() + chunks_bytes(cs, crc)
}

/// `img_parts::png::Png::from_bytes` on a copy of `bytes`. Claimed of its
/// source: the chunk list read is named `png_parse`; every chunk read has a
/// 4-byte type and a length read from 32 bits, and reading stops after
/// `IEND`. The error is rendered with its `Display` text, left unstated.
#[verifier::external_body]
fn png_from_bytes(bytes: &[u8]) -> (r: Result<img_parts::png::Png, String>)
    ensures
        match r {
            Ok(p) => png_parse(bytes@) == Some(png_chunks(p)) && chunks_wf(png_chunks(p)),
            Err(_) => png_parse(bytes@) is None,
        },
{
    img_parts::png::Png::from_bytes(img_parts::Bytes::copy_from_slice(bytes)).map_err(
        |e| e.to_string(),
    )
}

/// `ImageICC::icc_profile` of a PNG. Claimed of its source: the result is a
/// function of the chunk list (named `png_icc`); there is none without an
/// `iCCP` chunk; and when the first `iCCP`
/// chunk is one that `set_icc_profile` wrote for a profile smaller than the
/// 16 MiB decompression limit, the profile is read back.
#[verifier::external_body]
fn png_icc_profile(p: &img_parts::png::Png) -> (r: Option<Vec<u8>>)
    ensures
        opt_bytes(r) == png_icc(png_chunks(*p)),
        first_contents(png_chunks(*p), kind_iccp()) is None ==> r is None,
        forall|q: Seq<u8>|
            #![trigger iccp_payload(q)]
            first_contents(png_chunks(*p), kind_iccp()) == Some(iccp_payload(q)) && q.len()
                < 16777216 ==> opt_bytes(r) == Some(q),
{
    p.icc_profile().map(|b| b.to_vec())
}

/// `ImageEXIF::exif` of a PNG: the contents of its first `eXIf` chunk.
#[verifier::external_body]
fn png_exif(p: &img_parts::png::Png) -> (r: Option<Vec<u8>>)
    ensures
        opt_bytes(r) == first_contents(png_chunks(*p), kind_exif()),
{
    p.exif().map(|b| b.to_vec())
}

/// `ImageICC::set_icc_profile` on a PNG: its effect on the chunk list is
/// [`with_icc`].
#[verifier::external_body]
fn png_set_icc_profile(p: &mut img_parts::png::Png, profile: Option<Vec<u8>>)
    ensures
        png_chunks(*final(p)) == with_icc(png_chunks(*old(p)), opt_bytes(profile)),
{
    p.set_icc_profile(profile.map(img_parts::Bytes::from))
}

/// `ImageEXIF::set_exif` on a PNG: its effect on the chunk list is
/// [`with_exif`].
#[verifier::external_body]
fn png_set_exif(p: &mut img_parts::png::Png, exif: Option<Vec<u8>>)
    ensures
        png_chunks(*final(p)) == with_exif(png_chunks(*old(p)), opt_bytes(exif)),
{
    p.set_exif(exif.map(img_parts::Bytes::from))
}

/// The type and contents length of each chunk (`Png::chunks`).
#[verifier::external_body]
fn png_chunk_kinds(p: &img_parts::png::Png) -> (r: Vec<([u8; 4], usize)>)
    ensures
        r@.len() == png_chunks(*p).len(),
        forall|i: int|
            0 <= i < r@.len() ==> (#[trigger] r@[i]).0@ == png_chunks(*p)[i].0 && r@[i].1
                == png_chunks(*p)[i].1.len(),
{
    p.chunks().iter().map(|c| (c.kind(), c.contents().len())).collect()
}

/// `Png::chunks_mut().insert(idx, PngChunk::new(kind, contents))`.
#[verifier::external_body]
fn png_insert_chunk(p: &mut img_parts::png::Png, idx: usize, kind: [u8; 4], contents: Vec<u8>)
    requires
        idx <= png_chunks(*old(p)).len(),
    ensures
        png_chunks(*final(p)) == png_chunks(*old(p)).insert(idx as int, (kind@, contents@)),
{
    p.chunks_mut().insert(idx, img_parts::png::PngChunk::new(kind, img_parts::Bytes::from(contents)))
}

/// Every chunk's contents fit the 32-bit length field.
pub open spec fn chunks_fit(cs: ChunkSeq) -> bool {
    forall|i: int| 0 <= i < cs.len() ==> (#[trigger] cs[i]).1.len() <= 0xffff_ffff
}

/// `Png::encoder().bytes()`, copied into a vector. Claimed of its source: the
/// bytes are the signature followed by each chunk's length, type, contents
/// and CRC; and such bytes read back (`Png::from_bytes`) as the same chunk
/// list when the list is well formed. The length field is written from 32
/// bits, so lists with longer contents are excluded.
#[verifier::external_body]
fn png_encode(p: img_parts::png::Png) -> (r: Vec<u8>)
    requires
        chunks_fit(png_chunks(p)),
    ensures
        r@ == png_file_bytes(png_chunks(p), |k: Seq<u8>, c: Seq<u8>| png_crc(k, c)),
        chunks_wf(png_chunks(p)) ==> png_parse(r@) == Some(png_chunks(p)),
{
    p.encoder().bytes().to_vec()
}

// ---------------------------------------------------------------------------
// Extraction
// ---------------------------------------------------------------------------

/// The `(icc, exif)` blocks read from a source container chosen by its
/// lower-cased extension `ext`.
pub open spec fn container_blocks(b: Seq<u8>, ext: Seq<char>) -> (
    Option<Seq<u8>>,
    Option<Seq<u8>>,
) {
    if ext == "jpg"@ || ext == "jpeg"@ {
        (jpeg_icc(b), jpeg_exif(b))
    } else if ext == "png"@ {
        match png_parse(b) {
            Some(cs) => (png_icc(cs), first_contents(cs, kind_exif())),
            None => (None, None),
        }
    } else if ext == "webp"@ {
        (webp_icc(b), webp_exif(b))
    } else {
        (None, None)
    }
}

/// `b` reads as a PNG whose first `iCCP` chunk is the one `set_icc_profile`
/// writes for the profile `q`, of a size its reader accepts.
pub open spec fn holds_written_icc(b: Seq<u8>, q: Seq<u8>) -> bool {
    &&& png_parse(b) matches Some(cs) && first_contents(cs, kind_iccp()) == Some(iccp_payload(q))
    &&& q.len() < 16777216
}

/// Extract metadata from in-memory source bytes, using `ext` (any case) to
/// pick the container parser. Never fails: unreadable or unsupported
/// containers give empty metadata.
pub fn extract_from_bytes(bytes: &[u8], ext: &str) -> (r: Metadata)
    ensures
        r.blocks() == container_blocks(bytes@, lower_seq(ext@)),
        lower_seq(ext@) == "jpg"@ || lower_seq(ext@) == "jpeg"@ ==> opt_bytes(r.icc) == jpeg_icc(bytes@)
            && opt_bytes(r.exif) == jpeg_exif(bytes@),
        lower_seq(ext@) == "webp"@ ==> opt_bytes(r.icc) == webp_icc(bytes@) && opt_bytes(r.exif)
            == webp_exif(bytes@),
        lower_seq(ext@) == "png"@ ==> match png_parse(bytes@) {
            Some(cs) => opt_bytes(r.icc) == png_icc(cs) && opt_bytes(r.exif) == first_contents(
                cs,
                kind_exif(),
            ),
            None => r.icc is None && r.exif is None,
        },
        forall|q: Seq<u8>|
            #![trigger holds_written_icc(bytes@, q)]
            lower_seq(ext@) == "png"@ && holds_written_icc(bytes@, q) ==> opt_bytes(r.icc) == Some(q),
{
    proof {
        reveal_strlit("webp");
        reveal_strlit("jpg");
        reveal_strlit("jpeg");
        reveal_strlit("png");
        assert("png"@[0] != "jpg"@[0]);
        assert("png"@.len() != "jpeg"@.len());
        assert("png"@[0] != "webp"@[0]);
    }
    let e = lower_chars(chars_of(ext).as_slice());
    let (icc, exif) = if eq_chars(e.as_slice(), chars_of("jpg").as_slice()) || eq_chars(
        e.as_slice(),
        chars_of("jpeg").as_slice(),
    ) {
        jpeg_blocks(bytes)
    } else if eq_chars(e.as_slice(), chars_of("png").as_slice()) {
        match png_from_bytes(bytes) {
            Ok(p) => {
                let icc = png_icc_profile(&p);
                proof {
                    assert forall|q: Seq<u8>| #[trigger]
                        holds_written_icc(bytes@, q) implies opt_bytes(icc) == Some(q) by {
                        assert(iccp_payload(q) == iccp_payload(q));
                    }
                }
                (icc, png_exif(&p))
            },
            Err(_) => (None, None),
        }
    } else if eq_chars(e.as_slice(), chars_of("webp").as_slice()) {
        webp_blocks(bytes)
    } else {
        (None, None)
    };
    Metadata { icc, exif }
}

// ---------------------------------------------------------------------------
// Finalizing an exported PNG
// ---------------------------------------------------------------------------

/// Contents of an uncompressed `iTXt` chunk: the keyword, its NUL, the
/// compression flag and method (both 0), an empty language tag and an empty
/// translated keyword (each NUL-terminated), then the UTF-8 text.
pub open spec fn itxt_contents(keyword: Seq<u8>, text: Seq<u8>) -> Seq<u8> {
    keyword + seq![0u8, 0u8, 0u8, 0u8, 0u8] + text
}

/// The `Software` chunk recording the editor.
pub open spec fn software_chunk() -> (Seq<u8>, Seq<u8>) {
    (kind_itxt(), itxt_contents("Software".spec_bytes(), SOFTWARE.spec_bytes()))
}

/// Where the `Software` chunk goes: before the first `IEND`, or at the end.
pub open spec fn software_position(cs: ChunkSeq) -> int {
    match first_index_from(cs, kind_iend(), 0) {
        Some(i) => i,
        None => cs.len() as int,
    }
}

/// The chunk list with the `Software` chunk added.
pub open spec fn with_software(cs: ChunkSeq) -> ChunkSeq {
    cs.insert(software_position(cs), software_chunk())
}

/// The chunks of an exported PNG: the source's ICC profile and EXIF block
/// transplanted when `meta` is given, then the `Software` chunk when tagging.
pub open spec fn finalized(
    cs: ChunkSeq,
    meta: Option<(Option<Seq<u8>>, Option<Seq<u8>>)>,
    tag_software: bool,
) -> ChunkSeq {
    let m = match meta {
        Some(b) => with_exif(with_icc(cs, b.0), b.1),
        None => cs,
    };
    if tag_software {
        with_software(m)
    } else {
        m
    }
}

/// A PNG file `v` written from source bytes `b` reads back as the finalized
/// chunk list, whenever the source's chunk list is editable.
pub open spec fn reads_back(
    b: Seq<u8>,
    v: Seq<u8>,
    meta: Option<(Option<Seq<u8>>, Option<Seq<u8>>)>,
    tag_software: bool,
) -> bool {
    match png_parse(b) {
        Some(cs) => editable(cs) ==> png_parse(v) == Some(finalized(cs, meta, tag_software)),
        None => true,
    }
}

/// The blocks of optional metadata.
pub open spec fn meta_blocks(meta: Option<&Metadata>) -> Option<(Option<Seq<u8>>, Option<Seq<u8>>)> {
    match meta {
        Some(m) => Some(m.blocks()),
        None => None,
    }
}

/// The CRC function of the PNG encoder, as a spec closure.
pub open spec fn crc_fn() -> spec_fn(Seq<u8>, Seq<u8>) -> Seq<u8> {
    |k: Seq<u8>, c: Seq<u8>| png_crc(k, c)
}

/// Append the bytes of `b` to `out`.
fn append_bytes(out: &mut Vec<u8>, b: &[u8])
    ensures
        final(out)@ == old(out)@ + b@,
{
    let mut i: usize = 0;
    while i < b.len()
        invariant
            i <= b@.len(),
            out@ == old(out)@ + b@.take(i as int),
        decreases b@.len() - i,
    {
        out.push(b[i]);
        proof {
            assert(b@.take(i + 1) =~= b@.take(i as int).push(b@[i as int]));
        }
        i = i + 1;
    }
    proof {
        assert(b@.take(i as int) =~= b@);
    }
}

/// Build an uncompressed iTXt chunk body (UTF-8 text under an ASCII keyword).
fn itxt_chunk(keyword: &str, text: &str) -> (r: Vec<u8>)
    ensures
        r@ == itxt_contents(keyword.spec_bytes(), text.spec_bytes()),
{
    let mut data: Vec<u8> = Vec::new();
    append_bytes(&mut data, keyword.as_bytes());
    data.push(0);
    data.push(0);
    data.push(0);
    data.push(0);
    data.push(0);
    append_bytes(&mut data, text.as_bytes());
    proof {
        assert(data@ =~= itxt_contents(keyword.spec_bytes(), text.spec_bytes()));
    }
    data
}

/// The chunk type `t` is `IEND`.
fn is_iend(t: [u8; 4]) -> (r: bool)
    ensures
        r == (t@ == kind_iend()),
{
    let r = t[0] == 0x49 && t[1] == 0x45 && t[2] == 0x4e && t[3] == 0x44;
    proof {
        if r {
            assert(t@ =~= kind_iend());
        }
        if t@ == kind_iend() {
            assert(t@[0] == kind_iend()[0]);
            assert(t@[1] == kind_iend()[1]);
            assert(t@[2] == kind_iend()[2]);
            assert(t@[3] == kind_iend()[3]);
        }
    }
    r
}

/// Re-embed source `meta` (ICC/EXIF) into exported PNG bytes and, when
/// `tag_software` is set, record the [`SOFTWARE`] identifier as the PNG
/// `Software` tag. Returns new PNG bytes.
///
/// Input that `img_parts` does not read as a PNG is an error; so is a chunk
/// whose contents would not fit the 32-bit length field.
pub fn finalize_png(png_bytes: &[u8], meta: Option<&Metadata>, tag_software: bool) -> (r: Result<
    Vec<u8>,
    String,
>)
    ensures
        r is Ok <==> (png_parse(png_bytes@) matches Some(cs) && chunks_fit(
            finalized(cs, meta_blocks(meta), tag_software),
        )),
        r matches Ok(v) ==> png_parse(png_bytes@) matches Some(cs) && {
            let out = finalized(cs, meta_blocks(meta), tag_software);
            &&& v@ == png_file_bytes(out, crc_fn())
            &&& chunks_wf(out) ==> png_parse(v@) == Some(out)
        },
        png_parse(png_bytes@) is Some ==> (r matches Err(e) ==> e@ == "chunk too large to encode"@),
        r matches Ok(v) ==> reads_back(png_bytes@, v@, meta_blocks(meta), tag_software),
{
    let mut png = match png_from_bytes(png_bytes) {
        Ok(p) => p,
        Err(e) => return Err(e),
    };
    let ghost cs = png_chunks(png);
    match meta {
        Some(m) => {
            png_set_icc_profile(&mut png, copy_block(&m.icc));
            png_set_exif(&mut png, copy_block(&m.exif));
        },
        None => {},
    }
    let ghost mid = png_chunks(png);
    assert(mid == match meta_blocks(meta) {
        Some(b) => with_exif(with_icc(cs, b.0), b.1),
        None => cs,
    });
    if tag_software {
        let kinds = png_chunk_kinds(&png);
        let mut idx: usize = kinds.len();
        let mut i: usize = 0;
        while i < kinds.len()
            invariant_except_break
                idx == kinds@.len(),
                first_index_from(mid, kind_iend(), 0) == first_index_from(mid, kind_iend(), i as int),
            invariant
                i <= kinds@.len(),
                kinds@.len() == mid.len(),
                mid == png_chunks(png),
                forall|j: int|
                    0 <= j < kinds@.len() ==> (#[trigger] kinds@[j]).0@ == mid[j].0 && kinds@[j].1
                        == mid[j].1.len(),
            ensures
                idx as int == software_position(mid),
            decreases kinds@.len() - i,
        {
            if is_iend(kinds[i].0) {
                idx = i;
                break;
            }
            i = i + 1;
        }
        assert(idx as int == software_position(mid));
        proof {
            lemma_first_index_from(mid, kind_iend(), 0);
        }
        let data = itxt_chunk("Software", SOFTWARE);
        png_insert_chunk(&mut png, idx, [0x69u8, 0x54u8, 0x58u8, 0x74u8], data);
        proof {
            let k: [u8; 4] = [0x69u8, 0x54u8, 0x58u8, 0x74u8];
            assert(k@ =~= kind_itxt());
        }
    }
    let ghost out = png_chunks(png);
    assert(out == finalized(cs, meta_blocks(meta), tag_software));
    let sizes = png_chunk_kinds(&png);
    let mut j: usize = 0;
    while j < sizes.len()
        invariant
            j <= sizes@.len(),
            png_parse(png_bytes@) == Some(cs),
            out == finalized(cs, meta_blocks(meta), tag_software),
            sizes@.len() == out.len(),
            out == png_chunks(png),
            forall|k: int|
                0 <= k < sizes@.len() ==> (#[trigger] sizes@[k]).1 == out[k].1.len(),
            forall|k: int| 0 <= k < j ==> (#[trigger] out[k]).1.len() <= 0xffff_ffff,
        decreases sizes@.len() - j,
    {
        if sizes[j].1 > 0xffff_ffff {
            proof {
                assert(sizes@[j as int].1 == out[j as int].1.len());
                assert(!chunks_fit(out));
            }
            return Err(String::from_str("chunk too large to encode"));
        }
        j = j + 1;
    }
    proof {
        if editable(cs) {
            lemma_export_fits(cs, meta_blocks(meta), tag_software);
        }
    }
    Ok(png_encode(png))
}

// ---------------------------------------------------------------------------
// Laws
// ---------------------------------------------------------------------------

/// No chunk of `cs` has type `k`.
pub open spec fn lacks(cs: ChunkSeq, k: Seq<u8>) -> bool {
    forall|i: int| 0 <= i < cs.len() ==> (#[trigger] cs[i]).0 != k
}

/// `cs` has a chunk of type `k`, and every such chunk holds `v`.
pub open spec fn holds_only(cs: ChunkSeq, k: Seq<u8>, v: Seq<u8>) -> bool {
    &&& exists|i: int| 0 <= i < cs.len() && (#[trigger] cs[i]).0 == k
    &&& forall|i: int| 0 <= i < cs.len() && (#[trigger] cs[i]).0 == k ==> cs[i].1 == v
}

/// `IEND`, if present, is the last chunk.
pub open spec fn iend_last(cs: ChunkSeq) -> bool {
    forall|i: int| 0 <= i < cs.len() && (#[trigger] cs[i]).0 == kind_iend() ==> i == cs.len() - 1
}

/// What `first_contents` gives when the type is absent, or present with one
/// contents throughout.
proof fn lemma_first_contents(cs: ChunkSeq, k: Seq<u8>, v: Seq<u8>)
    ensures
        lacks(cs, k) ==> first_contents(cs, k) is None,
        holds_only(cs, k, v) ==> first_contents(cs, k) == Some(v),
{
    lemma_first_index_from(cs, k, 0);
    if lacks(cs, k) {
        if let Some(j) = first_index_from(cs, k, 0) {
            assert(cs[j].0 == k);
        }
    }
    if holds_only(cs, k, v) {
        let i = choose|i: int| 0 <= i < cs.len() && (#[trigger] cs[i]).0 == k;
        assert(cs[i].0 == k);
    }
}

/// Removing the chunks of type `k` keeps the others, in order, and nothing
/// else.
proof fn lemma_remove_kind(cs: ChunkSeq, k: Seq<u8>)
    ensures
        ({
            let r = remove_kind(cs, k);
            &&& r.len() <= cs.len()
            &&& lacks(r, k)
            &&& forall|i: int| 0 <= i < r.len() ==> cs.contains(#[trigger] r[i])
            &&& forall|i: int| 0 <= i < cs.len() && (#[trigger] cs[i]).0 != k ==> r.contains(cs[i])
            &&& cs.len() > 0 && cs[0].0 != k ==> r.len() > 0 && r[0] == cs[0]
            &&& iend_last(cs) ==> iend_last(r)
        }),
    decreases cs.len(),
{
    if cs.len() > 0 {
        let init = cs.drop_last();
        let rest = remove_kind(init, k);
        lemma_remove_kind(init, k);
        let r = remove_kind(cs, k);
        assert forall|i: int| 0 <= i < rest.len() implies cs.contains(#[trigger] rest[i]) by {
            assert(init.contains(rest[i]));
            let j = choose|j: int| 0 <= j < init.len() && init[j] == rest[i];
            assert(cs[j] == rest[i]);
        }
        assert forall|i: int| 0 <= i < cs.len() && (#[trigger] cs[i]).0 != k implies r.contains(
            cs[i],
        ) by {
            if i < cs.len() - 1 {
                assert(init[i] == cs[i]);
                assert(rest.contains(cs[i]));
                let j = choose|j: int| 0 <= j < rest.len() && rest[j] == cs[i];
                if cs.last().0 != k {
                    assert(r[j] == cs[i]);
                }
            } else {
                assert(r[r.len() - 1] == cs[i]);
            }
        }
        if cs.last().0 != k {
            assert forall|i: int| 0 <= i < r.len() implies cs.contains(#[trigger] r[i]) by {
                if i < rest.len() {
                    assert(r[i] == rest[i]);
                } else {
                    assert(r[i] == cs[cs.len() - 1]);
                }
            }
            assert forall|i: int| 0 <= i < r.len() implies (#[trigger] r[i]).0 != k by {
                if i < rest.len() {
                    assert(r[i] == rest[i]);
                }
            }
        }
        if cs.len() > 1 && cs[0].0 != k {
            assert(init[0] == cs[0]);
        }
        if iend_last(cs) {
            assert forall|i: int| 0 <= i < init.len() && (#[trigger] init[i]).0 == kind_iend()
                implies i == init.len() - 1 by {
                assert(cs[i] == init[i]);
            }
            assert forall|i: int| 0 <= i < rest.len() implies (#[trigger] rest[i]).0 != kind_iend() by {
                assert(init.contains(rest[i]));
                let j = choose|j: int| 0 <= j < init.len() && init[j] == rest[i];
                assert(cs[j] == init[j]);
            }
            if cs.last().0 != k {
                assert forall|i: int| 0 <= i < r.len() && (#[trigger] r[i]).0 == kind_iend()
                    implies i == r.len() - 1 by {
                    if i < rest.len() {
                        assert(r[i] == rest[i]);
                    }
                }
            }
        }
    }
}

/// Inserting `c` keeps every chunk and adds `c`.
proof fn lemma_insert(cs: ChunkSeq, p: int, c: (Seq<u8>, Seq<u8>))
    requires
        0 <= p <= cs.len(),
    ensures
        ({
            let r = cs.insert(p, c);
            &&& r.len() == cs.len() + 1
            &&& r[p] == c
            &&& forall|i: int| 0 <= i < r.len() ==> (#[trigger] r[i]) == c || cs.contains(r[i])
            &&& forall|i: int| 0 <= i < cs.len() ==> r.contains(#[trigger] cs[i])
            &&& p > 0 ==> r[0] == cs[0]
        }),
{
    cs.insert_ensures(p, c);
    let r = cs.insert(p, c);
    assert forall|i: int| 0 <= i < r.len() implies (#[trigger] r[i]) == c || cs.contains(r[i]) by {
        if i < p {
            assert(r[i] == cs[i]);
        } else if i > p {
            assert(r[i] == cs[i - 1]);
        }
    }
    assert forall|i: int| 0 <= i < cs.len() implies r.contains(#[trigger] cs[i]) by {
        if i < p {
            assert(r[i] == cs[i]);
        } else {
            assert(r[i + 1] == cs[i]);
        }
    }
}

/// A chunk list whose first chunk is a header none of the edits touch.
pub open spec fn starts_with_header(cs: ChunkSeq) -> bool {
    &&& cs.len() >= 1
    &&& cs[0].0 != kind_iend()
    &&& cs[0].0 != kind_exif()
    &&& cs[0].0 != kind_iccp()
    &&& cs[0].0 != kind_srgb()
}

/// Well formed, starting with a header: the shape every edit keeps.
pub open spec fn editable(cs: ChunkSeq) -> bool {
    &&& chunks_wf(cs)
    &&& starts_with_header(cs)
}

/// Removing a chunk type keeps a list editable, with the same header.
proof fn lemma_remove_editable(cs: ChunkSeq, k: Seq<u8>)
    requires
        editable(cs),
        k == kind_exif() || k == kind_iccp() || k == kind_srgb(),
    ensures
        editable(remove_kind(cs, k)),
        remove_kind(cs, k)[0] == cs[0],
{
    lemma_remove_kind(cs, k);
    let r = remove_kind(cs, k);
    assert forall|i: int| 0 <= i < r.len() implies (#[trigger] r[i]).0.len() == 4 && r[i].1.len()
        <= 0xffff_ffff by {
        assert(cs.contains(r[i]));
        let j = choose|j: int| 0 <= j < cs.len() && cs[j] == r[i];
        assert(cs[j] == r[i]);
    }
}

/// Inserting a non-`IEND` chunk right after the header keeps a list editable.
proof fn lemma_insert_after_first_editable(cs: ChunkSeq, c: (Seq<u8>, Seq<u8>))
    requires
        editable(cs),
        c.0.len() == 4,
        c.1.len() <= 0xffff_ffff,
        c.0 != kind_iend(),
    ensures
        editable(insert_after_first(cs, c)),
        insert_after_first(cs, c)[0] == cs[0],
        insert_after_first(cs, c)[1] == c,
{
    let r = insert_after_first(cs, c);
    cs.insert_ensures(1, c);
    assert forall|i: int| 0 <= i < r.len() implies (#[trigger] r[i]).0.len() == 4 && r[i].1.len()
        <= 0xffff_ffff && (r[i].0 == kind_iend() ==> i == r.len() - 1) by {
        if i > 1 {
            assert(r[i] == cs[i - 1]);
        } else if i == 0 {
            assert(r[i] == cs[0]);
        }
    }
}

/// The ICC edit leaves exactly the new profile's `iCCP` chunk (or none); on
/// an editable list it keeps the list editable and keeps the header.
proof fn lemma_with_icc(cs: ChunkSeq, icc: Option<Seq<u8>>)
    ensures
        editable(cs) && (icc matches Some(q) ==> iccp_payload(q).len() <= 0xffff_ffff) ==> editable(
            with_icc(cs, icc),
        ) && with_icc(cs, icc)[0] == cs[0],
        icc is None ==> lacks(with_icc(cs, icc), kind_iccp()),
        icc matches Some(q) ==> holds_only(with_icc(cs, icc), kind_iccp(), iccp_payload(q)),
{
    let r = remove_kind(cs, kind_iccp());
    lemma_remove_kind(cs, kind_iccp());
    if editable(cs) {
        lemma_remove_editable(cs, kind_iccp());
    }
    if let Some(q) = icc {
        let r2 = remove_kind(r, kind_srgb());
        lemma_remove_kind(r, kind_srgb());
        let c = (kind_iccp(), iccp_payload(q));
        if editable(cs) {
            lemma_remove_editable(r, kind_srgb());
            if iccp_payload(q).len() <= 0xffff_ffff {
                assert(kind_iccp()[0] != kind_iend()[0]);
                lemma_insert_after_first_editable(r2, c);
            }
        }
        let p: int = if r2.len() < 1 {
            r2.len() as int
        } else {
            1
        };
        lemma_insert(r2, p, c);
        let out = insert_after_first(r2, c);
        assert(out == r2.insert(p, c));
        assert(lacks(r2, kind_iccp())) by {
            assert forall|i: int| 0 <= i < r2.len() implies (#[trigger] r2[i]).0 != kind_iccp() by {
                assert(r.contains(r2[i]));
                let j = choose|j: int| 0 <= j < r.len() && r[j] == r2[i];
                assert(r[j] == r2[i]);
            }
        }
        assert(out[p] == c);
        assert(out[p].0 == kind_iccp());
        assert forall|i: int| 0 <= i < out.len() && (#[trigger] out[i]).0 == kind_iccp() implies out[i].1
            == iccp_payload(q) by {
            if out[i] != c {
                assert(r2.contains(out[i]));
                let j = choose|j: int| 0 <= j < r2.len() && r2[j] == out[i];
                assert(r2[j] == out[i]);
            }
        }
    }
}

/// The EXIF edit leaves exactly the new block's `eXIf` chunk (or none) and
/// keeps what holds of `iCCP`; on an editable list it keeps the list
/// editable and keeps the header.
proof fn lemma_with_exif(cs: ChunkSeq, exif: Option<Seq<u8>>, icc: Option<Seq<u8>>)
    requires
        icc is None ==> lacks(cs, kind_iccp()),
        icc matches Some(v) ==> holds_only(cs, kind_iccp(), v),
    ensures
        editable(cs) && (exif matches Some(e) ==> e.len() <= 0xffff_ffff) ==> editable(
            with_exif(cs, exif),
        ) && with_exif(cs, exif)[0] == cs[0],
        exif is None ==> lacks(with_exif(cs, exif), kind_exif()),
        exif matches Some(e) ==> holds_only(with_exif(cs, exif), kind_exif(), e),
        icc is None ==> lacks(with_exif(cs, exif), kind_iccp()),
        icc matches Some(v) ==> holds_only(with_exif(cs, exif), kind_iccp(), v),
{
    let r = remove_kind(cs, kind_exif());
    lemma_remove_kind(cs, kind_exif());
    if editable(cs) {
        lemma_remove_editable(cs, kind_exif());
    }
    if let Some(v) = icc {
        let i = choose|i: int| 0 <= i < cs.len() && (#[trigger] cs[i]).0 == kind_iccp();
        assert(cs[i].0 == kind_iccp());
        assert(kind_iccp()[0] != kind_exif()[0]);
        assert(r.contains(cs[i]));
        let j = choose|j: int| 0 <= j < r.len() && r[j] == cs[i];
        assert(r[j].0 == kind_iccp());
    }
    assert forall|i: int| 0 <= i < r.len() && (#[trigger] r[i]).0 == kind_iccp() implies (icc
        matches Some(v) ==> r[i].1 == v) && icc is Some by {
        assert(cs.contains(r[i]));
        let j = choose|j: int| 0 <= j < cs.len() && cs[j] == r[i];
        assert(cs[j] == r[i]);
    }
    if let Some(e) = exif {
        let c = (kind_exif(), e);
        if editable(cs) && e.len() <= 0xffff_ffff {
            assert(kind_exif()[0] != kind_iend()[0]);
            lemma_insert_after_first_editable(r, c);
        }
        let p: int = if r.len() < 1 {
            r.len() as int
        } else {
            1
        };
        lemma_insert(r, p, c);
        let out = insert_after_first(r, c);
        assert(out == r.insert(p, c));
        assert(out[p] == c);
        assert(out[p].0 == kind_exif());
        assert(kind_iccp()[0] != kind_exif()[0]);
        assert forall|i: int| 0 <= i < out.len() && (#[trigger] out[i]).0 == kind_exif() implies out[i].1
            == e by {
            if out[i] != c {
                assert(r.contains(out[i]));
                let j = choose|j: int| 0 <= j < r.len() && r[j] == out[i];
                assert(r[j] == out[i]);
            }
        }
        assert forall|i: int| 0 <= i < out.len() && (#[trigger] out[i]).0 == kind_iccp() implies (icc
            matches Some(v) ==> out[i].1 == v) && icc is Some by {
            assert(out[i] != c);
            assert(r.contains(out[i]));
            let j = choose|j: int| 0 <= j < r.len() && r[j] == out[i];
            assert(r[j] == out[i]);
        }
        if let Some(v) = icc {
            let j = choose|j: int| 0 <= j < r.len() && (#[trigger] r[j]).0 == kind_iccp();
            assert(r.contains(r[j]));
            assert(out.contains(r[j]));
            let m = choose|m: int| 0 <= m < out.len() && out[m] == r[j];
            assert(out[m].0 == kind_iccp());
        }
    }
}

/// The `Software` chunk has a 4-byte type other than `IEND`, and short contents.
proof fn lemma_software_chunk()
    ensures
        software_chunk().0.len() == 4,
        software_chunk().0 != kind_iend(),
        software_chunk().1.len() <= 0xffff_ffff,
{
    reveal_strlit("Software");
    reveal_strlit("Watermarker (https://github.com/hhvrc)");
    assert(vstd::utf8::is_ascii_chars("Software"@));
    assert(vstd::utf8::is_ascii_chars(SOFTWARE@));
    vstd::utf8::is_ascii_chars_encode_utf8("Software"@);
    vstd::utf8::is_ascii_chars_encode_utf8(SOFTWARE@);
    assert(kind_itxt()[1] != kind_iend()[1]);
}

/// The `Software` chunk is added before `IEND` (or at the end), every other
/// chunk stays, and a well formed list stays well formed.
proof fn lemma_with_software(cs: ChunkSeq)
    ensures
        chunks_wf(cs) ==> chunks_wf(with_software(cs)),
        with_software(cs).contains(software_chunk()),
        forall|k: Seq<u8>| k != kind_itxt() && lacks(cs, k) ==> lacks(with_software(cs), k),
        forall|k: Seq<u8>, v: Seq<u8>|
            k != kind_itxt() && holds_only(cs, k, v) ==> holds_only(with_software(cs), k, v),
{
    lemma_first_index_from(cs, kind_iend(), 0);
    let p = software_position(cs);
    let c = software_chunk();
    let out = with_software(cs);
    lemma_insert(cs, p, c);
    cs.insert_ensures(p, c);
    assert(out[p] == c);
    lemma_software_chunk();
    if chunks_wf(cs) {
        assert forall|i: int| 0 <= i < out.len() implies (#[trigger] out[i]).0.len() == 4
            && out[i].1.len() <= 0xffff_ffff && (out[i].0 == kind_iend() ==> i == out.len() - 1) by {
            if i < p {
                assert(out[i] == cs[i]);
                if out[i].0 == kind_iend() {
                    assert(first_index_from(cs, kind_iend(), 0) is Some);
                }
            } else if i > p {
                assert(out[i] == cs[i - 1]);
            }
        }
    }
    assert forall|k: Seq<u8>| k != kind_itxt() && lacks(cs, k) implies lacks(out, k) by {
        assert forall|i: int| 0 <= i < out.len() implies (#[trigger] out[i]).0 != k by {
            if i < p {
                assert(out[i] == cs[i]);
            } else if i > p {
                assert(out[i] == cs[i - 1]);
            }
        }
    }
    assert forall|k: Seq<u8>, v: Seq<u8>| k != kind_itxt() && holds_only(cs, k, v) implies holds_only(
        out,
        k,
        v,
    ) by {
        let j = choose|j: int| 0 <= j < cs.len() && (#[trigger] cs[j]).0 == k;
        if j < p {
            assert(out[j] == cs[j]);
        } else {
            assert(out[j + 1] == cs[j]);
        }
        assert forall|i: int| 0 <= i < out.len() && (#[trigger] out[i]).0 == k implies out[i].1 == v by {
            if i < p {
                assert(out[i] == cs[i]);
            } else if i > p {
                assert(out[i] == cs[i - 1]);
            }
        }
    }
}

/// The profile as `set_icc_profile` stores it, for an optional profile.
pub open spec fn stored_icc(icc: Option<Seq<u8>>) -> Option<Seq<u8>> {
    match icc {
        Some(q) => Some(iccp_payload(q)),
        None => None,
    }
}

/// Exporting with source metadata transplants it: the first `eXIf` chunk of
/// the result holds exactly the source EXIF block (there is none when the
/// source had none), and its first `iCCP` chunk holds the source profile as
/// `set_icc_profile` stores it (none when the source had none). A tagged
/// export carries the `Software` chunk; an untagged export without metadata
/// keeps the chunk list unchanged.
pub proof fn export_carries_metadata(
    cs: ChunkSeq,
    meta: Option<(Option<Seq<u8>>, Option<Seq<u8>>)>,
    tag_software: bool,
)
    ensures
        ({
            let out = finalized(cs, meta, tag_software);
            &&& meta matches Some(b) ==> first_contents(out, kind_exif()) == b.1
                && first_contents(out, kind_iccp()) == stored_icc(b.0)
            &&& tag_software ==> out.contains(software_chunk())
            &&& !tag_software && meta is None ==> out == cs
        }),
{
    let out = finalized(cs, meta, tag_software);
    if let Some(b) = meta {
        let m1 = with_icc(cs, b.0);
        lemma_with_icc(cs, b.0);
        let m2 = with_exif(m1, b.1);
        lemma_with_exif(m1, b.1, stored_icc(b.0));
        let m3 = if tag_software {
            with_software(m2)
        } else {
            m2
        };
        if tag_software {
            lemma_with_software(m2);
            lemma_software_chunk();
            assert(kind_itxt()[1] != kind_exif()[1]);
            assert(kind_itxt()[1] != kind_iccp()[1]);
        }
        assert(out == m3);
        match b.1 {
            Some(e) => lemma_first_contents(m3, kind_exif(), e),
            None => lemma_first_contents(m3, kind_exif(), Seq::empty()),
        }
        match b.0 {
            Some(q) => lemma_first_contents(m3, kind_iccp(), iccp_payload(q)),
            None => lemma_first_contents(m3, kind_iccp(), Seq::empty()),
        }
    } else if tag_software {
        lemma_with_software(cs);
    }
}

/// An export of a well formed PNG whose first chunk is a header (as `IHDR`
/// always is) stays well formed, provided the transplanted blocks fit a
/// chunk's 32-bit length field; the encoder's output then reads back as the
/// same chunk list.
pub proof fn export_stays_well_formed(
    cs: ChunkSeq,
    meta: Option<(Option<Seq<u8>>, Option<Seq<u8>>)>,
    tag_software: bool,
)
    requires
        editable(cs),
        meta matches Some(b) ==> (b.0 matches Some(q) ==> iccp_payload(q).len() <= 0xffff_ffff) && (
        b.1 matches Some(e) ==> e.len() <= 0xffff_ffff),
    ensures
        chunks_wf(finalized(cs, meta, tag_software)),
{
    let m = match meta {
        Some(b) => with_exif(with_icc(cs, b.0), b.1),
        None => cs,
    };
    if let Some(b) = meta {
        lemma_with_icc(cs, b.0);
        lemma_with_exif(with_icc(cs, b.0), b.1, stored_icc(b.0));
    }
    assert(chunks_wf(m));
    if tag_software {
        lemma_with_software(m);
    }
}

/// When the finalized chunks of an editable list fit the length field, they
/// are well formed.
proof fn lemma_export_fits(
    cs: ChunkSeq,
    meta: Option<(Option<Seq<u8>>, Option<Seq<u8>>)>,
    tag_software: bool,
)
    requires
        editable(cs),
        chunks_fit(finalized(cs, meta, tag_software)),
    ensures
        chunks_wf(finalized(cs, meta, tag_software)),
{
    let out = finalized(cs, meta, tag_software);
    export_carries_metadata(cs, meta, tag_software);
    lemma_first_index_from(out, kind_exif(), 0);
    lemma_first_index_from(out, kind_iccp(), 0);
    if let Some(b) = meta {
        if let Some(q) = b.0 {
            let j = first_index_from(out, kind_iccp(), 0)->Some_0;
            assert(out[j].1 == iccp_payload(q));
        }
        if let Some(e) = b.1 {
            let j = first_index_from(out, kind_exif(), 0)->Some_0;
            assert(out[j].1 == e);
        }
    }
    export_stays_well_formed(cs, meta, tag_software);
}

/// What reading a finalized export gives back: its EXIF block is the source's
/// (none when the source had none), so extracting metadata from the written
/// PNG returns the EXIF block that was transplanted.
pub proof fn exported_exif_reads_back(
    cs: ChunkSeq,
    blocks: (Option<Seq<u8>>, Option<Seq<u8>>),
    tag_software: bool,
    v: Seq<u8>,
)
    requires
        png_parse(v) == Some(finalized(cs, Some(blocks), tag_software)),
    ensures
        container_blocks(v, "png"@).1 == blocks.1,
{
    export_carries_metadata(cs, Some(blocks), tag_software);
    reveal_strlit("png");
    reveal_strlit("jpg");
    reveal_strlit("jpeg");
    assert("png"@[0] != "jpg"@[0]);
    assert("png"@.len() != "jpeg"@.len());
}

/// What reading a finalized export gives back of ICC: its first `iCCP`
/// chunk is the one written for the source profile, so extracting metadata
/// from the written PNG returns that profile (for profiles under the
/// reader's 16 MiB limit).
pub proof fn exported_icc_reads_back(
    cs: ChunkSeq,
    blocks: (Option<Seq<u8>>, Option<Seq<u8>>),
    tag_software: bool,
    v: Seq<u8>,
    q: Seq<u8>,
)
    requires
        png_parse(v) == Some(finalized(cs, Some(blocks), tag_software)),
        blocks.0 == Some(q),
        q.len() < 16777216,
    ensures
        holds_written_icc(v, q),
{
    export_carries_metadata(cs, Some(blocks), tag_software);
}

/// Each container keeps both of its blocks: for a JPEG or WebP extension
/// (any case) the blocks read are exactly what that container's reader
/// returns for the bytes, for a PNG the ICC profile and the first `eXIf`
/// chunk of the chunks read, and any other extension gives neither.
pub proof fn containers_keep_their_blocks(b: Seq<u8>, ext: Seq<char>)
    ensures
        ext == "jpg"@ || ext == "jpeg"@ ==> container_blocks(b, ext) == (jpeg_icc(b), jpeg_exif(b)),
        ext == "webp"@ ==> container_blocks(b, ext) == (webp_icc(b), webp_exif(b)),
        ext == "png"@ ==> container_blocks(b, ext) == match png_parse(b) {
            Some(cs) => (png_icc(cs), first_contents(cs, kind_exif())),
            None => (None, None),
        },
        ext != "jpg"@ && ext != "jpeg"@ && ext != "png"@ && ext != "webp"@ ==> container_blocks(b, ext)
            == (None::<Seq<u8>>, None::<Seq<u8>>),
{
    reveal_strlit("png");
    reveal_strlit("jpg");
    reveal_strlit("jpeg");
    reveal_strlit("webp");
    assert("png"@[0] != "jpg"@[0]);
    assert("png"@.len() != "jpeg"@.len());
    assert("webp"@[0] != "jpeg"@[0]);
    assert("webp"@.len() != "jpg"@.len());
    assert("webp"@.len() != "png"@.len());
}

} // verus!
