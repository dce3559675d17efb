//! Best-effort parsing of VRChat screenshot metadata, for display only.
//!
//! VRChat (and the companion tool VRCX) embed capture metadata into PNG text
//! chunks in one of three shapes:
//!
//!   * **line**: a pipe-delimited record under the `Description` keyword, e.g.
//!     `lfs|2|author:usr_x,Alice|world:wrld_y,inst,Cool World|pos:...`.
//!   * **json**: a VRCX JSON object under `Description`, with `world`/`author`.
//!   * **xmp**: an Adobe XMP packet under `XML:com.adobe.xmp`, carrying the
//!     `vrc:` namespace (and a real `xmp:CreateDate`).
//!
//! Only the few human-facing fields the UI shows are extracted (world, author,
//! capture date). Parsing never fails: a non-VRChat or malformed PNG yields
//! `None`.
//!
//! [`spec_parse_png`] states the whole parse over byte and character
//! sequences; [`parse_png`] is proved to compute it.

use vstd::prelude::*;
use vstd::slice::slice_subrange;
use vstd::slice::slice_to_vec;

use crate::text::{
    after_nth, after_nth_chars, chars_of, eq_chars, find, find_any, find_any_from, find_char,
    find_char_from, find_chars, lemma_find_any_from, lemma_find_char_from, lemma_find_from,
    matches_at, occurs_at,
    lossy_chars, map_char, string_from_chars, replace, replace_chars, replace_first, seqs_view, split, split_chars,
    split_once, split_once_chars, starts_with, starts_with_chars, trim, trim_chars, trim_start,
    trim_start_chars, lossy_text,
};

verus! {

// ---------------------------------------------------------------------------
// Data
// ---------------------------------------------------------------------------

/// Which embedded form supplied the identifying fields.
#[derive(Clone, Copy, Debug, PartialEq, Eq)]
pub enum Format {
    Unknown,
    Line,
    Json,
    Xmp,
}

/// The label under which a [`Format`] is reported.
pub open spec fn format_name(f: Format) -> Seq<char> {
    match f {
        Format::Unknown => ""@,
        Format::Line => "line"@,
        Format::Json => "json"@,
        Format::Xmp => "xmp"@,
    }
}

/// Executable label of a [`Format`].
pub fn format_label(f: Format) -> (r: &'static str)
    ensures
        r@ == format_name(f),
{
    match f {
        Format::Unknown => "",
        Format::Line => "line",
        Format::Json => "json",
        Format::Xmp => "xmp",
    }
}

/// Fields recovered so far, as character sequences.
pub struct FieldsSpec {
    pub world: Option<Seq<char>>,
    pub author: Option<Seq<char>>,
    pub captured: Option<Seq<char>>,
    pub format: Format,
}

/// Fields recovered from one chunk (or accumulated over several).
pub struct Fields {
    pub world: Option<Vec<char>>,
    pub author: Option<Vec<char>>,
    pub captured: Option<Vec<char>>,
    pub format: Format,
}

/// The characters held by an optional vector.
pub open spec fn opt_chars(o: Option<Vec<char>>) -> Option<Seq<char>> {
    match o {
        Some(v) => Some(v@),
        None => None,
    }
}

/// The characters held by an optional string.
pub open spec fn opt_string(o: Option<String>) -> Option<Seq<char>> {
    match o {
        Some(v) => Some(v@),
        None => None,
    }
}

impl View for Fields {
    type V = FieldsSpec;

    open spec fn view(&self) -> FieldsSpec {
        FieldsSpec {
            world: opt_chars(self.world),
            author: opt_chars(self.author),
            captured: opt_chars(self.captured),
            format: self.format,
        }
    }
}

/// Key VRChat fields extracted for display. Every field is best-effort and may
/// be absent.
#[derive(Clone, Debug, Default, PartialEq, Eq)]
pub struct VrcMetadata {
    /// Name of the world the photo was taken in.
    pub world_name: Option<String>,
    /// Display name of the photographer.
    pub author_name: Option<String>,
    /// Capture timestamp, display-ready (`YYYY-MM-DD HH:MM:SS`).
    pub captured_at: Option<String>,
    /// Which embedded format the data came from: `"line"`, `"json"`, or `"xmp"`.
    pub source_format: &'static str,
}

/// `m` shows exactly the fields `f`.
pub open spec fn shows(m: VrcMetadata, f: FieldsSpec) -> bool {
    &&& opt_string(m.world_name) == f.world
    &&& opt_string(m.author_name) == f.author
    &&& opt_string(m.captured_at) == f.captured
    &&& m.source_format@ == format_name(f.format)
}

/// No field recovered yet.
pub open spec fn no_fields() -> FieldsSpec {
    FieldsSpec { world: None, author: None, captured: None, format: Format::Unknown }
}

/// An identifying field (world or author) is present: this really is a VRChat
/// image.
pub open spec fn is_vrchat(f: FieldsSpec) -> bool {
    f.world is Some || f.author is Some
}

impl Fields {
    /// Executable [`is_vrchat`].
    pub fn is_vrchat(&self) -> (r: bool)
        ensures
            r == is_vrchat(self@),
    {
        self.world.is_some() || self.author.is_some()
    }
}

// ---------------------------------------------------------------------------
// Merging
// ---------------------------------------------------------------------------

/// Fill an empty slot with the trimmed value, unless that is empty.
pub open spec fn fill(slot: Option<Seq<char>>, value: Option<Seq<char>>) -> Option<Seq<char>> {
    match slot {
        Some(s) => Some(s),
        None => match value {
            Some(v) => if trim(v).len() > 0 {
                Some(trim(v))
            } else {
                None
            },
            None => None,
        },
    }
}

/// Fill the empty fields of `out` from `f` (first writer wins), and take `f`'s
/// format when `f` supplies the first identifying field.
pub open spec fn merge(out: FieldsSpec, f: FieldsSpec) -> FieldsSpec {
    let world = fill(out.world, f.world);
    let author = fill(out.author, f.author);
    let captured = fill(out.captured, f.captured);
    let filled = FieldsSpec { world, author, captured, format: out.format };
    FieldsSpec {
        format: if !is_vrchat(out) && is_vrchat(filled) {
            f.format
        } else {
            out.format
        },
        ..filled
    }
}

/// Executable [`fill`].
fn fill_slot(slot: Option<Vec<char>>, value: Option<Vec<char>>) -> (r: Option<Vec<char>>)
    ensures
        opt_chars(r) == fill(opt_chars(slot), opt_chars(value)),
{
    match slot {
        Some(s) => Some(s),
        None => match value {
            Some(v) => {
                let t = trim_chars(v.as_slice());
                if t.len() > 0 {
                    Some(t)
                } else {
                    None
                }
            },
            None => None,
        },
    }
}

/// Executable [`merge`].
fn merge_fields(out: Fields, f: Fields) -> (r: Fields)
    ensures
        r@ == merge(out@, f@),
{
    let had_id = out.is_vrchat();
    let filled = Fields {
        world: fill_slot(out.world, f.world),
        author: fill_slot(out.author, f.author),
        captured: fill_slot(out.captured, f.captured),
        format: out.format,
    };
    let format = if !had_id && filled.is_vrchat() {
        f.format
    } else {
        out.format
    };
    Fields { format, ..filled }
}

// ---------------------------------------------------------------------------
// PNG text chunks
// ---------------------------------------------------------------------------

/// The PNG 8-byte signature.
pub open spec fn png_signature() -> Seq<u8> {
    seq![0x89u8, 0x50u8, 0x4eu8, 0x47u8, 0x0du8, 0x0au8, 0x1au8, 0x0au8]
}

/// Chunk type `IEND`.
pub open spec fn kind_iend() -> Seq<u8> {
    seq![0x49u8, 0x45u8, 0x4eu8, 0x44u8]
}

/// Chunk type `tEXt`.
pub open spec fn kind_text() -> Seq<u8> {
    seq![0x74u8, 0x45u8, 0x58u8, 0x74u8]
}

/// Chunk type `iTXt`.
pub open spec fn kind_itxt() -> Seq<u8> {
    seq![0x69u8, 0x54u8, 0x58u8, 0x74u8]
}

/// Big-endian 32-bit value of `b[i..i + 4]`.
pub open spec fn be_u32(b: Seq<u8>, i: int) -> int {
    b[i] * 16777216 + b[i + 1] * 65536 + b[i + 2] * 256 + b[i + 3]
}

/// First index `k >= i` with `s[k] == x`.
pub open spec fn find_byte_from(s: Seq<u8>, x: u8, i: int) -> Option<int>
    decreases s.len() - i,
{
    if i < 0 || i >= s.len() {
        None
    } else if s[i] == x {
        Some(i)
    } else {
        find_byte_from(s, x, i + 1)
    }
}

/// Facts about `find_byte_from`.
pub proof fn lemma_find_byte_from(s: Seq<u8>, x: u8, i: int)
    requires
        0 <= i,
    ensures
        find_byte_from(s, x, i) matches Some(k) ==> i <= k < s.len() && s[k] == x,
    decreases s.len() - i,
{
    if i < s.len() && s[i] != x {
        lemma_find_byte_from(s, x, i + 1);
    }
}

/// First index at or after `from` holding `x`.
fn find_byte(s: &[u8], x: u8, from: usize) -> (r: Option<usize>)
    ensures
        match r {
            Some(k) => find_byte_from(s@, x, from as int) == Some(k as int) && from <= k < s@.len(),
            None => find_byte_from(s@, x, from as int) is None,
        },
{
    let mut i = from;
    while i < s.len()
        invariant
            from <= i,
            find_byte_from(s@, x, i as int) == find_byte_from(s@, x, from as int),
        decreases s@.len() - i,
    {
        if s[i] == x {
            return Some(i);
        }
        i = i + 1;
    }
    None
}

/// A `tEXt` chunk body: `keyword \0 text`, both decoded lossily.
pub open spec fn text_chunk(data: Seq<u8>) -> Option<(Seq<char>, Seq<char>)> {
    match find_byte_from(data, 0, 0) {
        Some(nul) => Some(
            (
                lossy_text(data.subrange(0, nul)),
                lossy_text(data.subrange(nul + 1, data.len() as int)),
            ),
        ),
        None => None,
    }
}

/// An uncompressed `iTXt` chunk body:
/// `keyword \0 comp_flag comp_method lang \0 translated \0 text`.
/// Compressed bodies (`comp_flag != 0`) are skipped.
pub open spec fn itxt_chunk(data: Seq<u8>) -> Option<(Seq<char>, Seq<char>)> {
    match find_byte_from(data, 0, 0) {
        Some(nul) => if nul + 2 >= data.len() || data[nul + 1] != 0 {
            None
        } else {
            match find_byte_from(data, 0, nul + 3) {
                Some(lang_end) => match find_byte_from(data, 0, lang_end + 1) {
                    Some(trans_end) => Some(
                        (
                            lossy_text(data.subrange(0, nul)),
                            lossy_text(data.subrange(trans_end + 1, data.len() as int)),
                        ),
                    ),
                    None => None,
                },
                None => None,
            }
        },
        None => None,
    }
}

/// An optional pair as a sequence of zero or one pairs.
pub open spec fn opt_seq<A>(o: Option<A>) -> Seq<A> {
    match o {
        Some(a) => seq![a],
        None => Seq::empty(),
    }
}

/// The readable text chunks of the chunk stream starting at `pos`: stops at
/// `IEND`, at a truncated header, or at a chunk whose declared length runs
/// past the buffer.
pub open spec fn chunks_from(b: Seq<u8>, pos: int) -> Seq<(Seq<char>, Seq<char>)>
    decreases b.len() + 4 - pos,
{
    if pos < 0 || pos + 8 > b.len() {
        Seq::empty()
    } else {
        let de = pos + 8 + be_u32(b, pos);
        if de > b.len() {
            Seq::empty()
        } else {
            let kind = b.subrange(pos + 4, pos + 8);
            let data = b.subrange(pos + 8, de);
            if kind == kind_iend() {
                Seq::empty()
            } else {
                let here = if kind == kind_text() {
                    opt_seq(text_chunk(data))
                } else if kind == kind_itxt() {
                    opt_seq(itxt_chunk(data))
                } else {
                    Seq::empty()
                };
                here + chunks_from(b, de + 4)
            }
        }
    }
}

/// `(keyword, text)` for each readable text chunk of a PNG; empty for a
/// stream without the PNG signature.
pub open spec fn text_chunks(b: Seq<u8>) -> Seq<(Seq<char>, Seq<char>)> {
    if b.len() < 8 || b.take(8) != png_signature() {
        Seq::empty()
    } else {
        chunks_from(b, 8)
    }
}

/// In `keyword \0 rest`, the first NUL at or after any `i` up to the
/// keyword's end is the one after the keyword.
proof fn lemma_first_nul(k: Seq<u8>, rest: Seq<u8>, i: int)
    requires
        !k.contains(0u8),
        0 <= i <= k.len(),
    ensures
        find_byte_from(k + seq![0u8] + rest, 0u8, i) == Some(k.len() as int),
    decreases k.len() - i,
{
    let d = k + seq![0u8] + rest;
    if i < k.len() {
        assert(d[i] == k[i]);
        assert(k[i] != 0u8) by {
            assert(k.contains(k[i]));
        }
        lemma_first_nul(k, rest, i + 1);
    } else {
        assert(d[i] == 0u8);
    }
}

/// A `tEXt` body `keyword \0 text` reads as the pair of its keyword and its
/// text (each decoded lossily), whatever the text holds.
pub proof fn text_chunk_reads_keyword_and_text(k: Seq<u8>, t: Seq<u8>)
    requires
        !k.contains(0u8),
    ensures
        text_chunk(k + seq![0u8] + t) == Some((lossy_text(k), lossy_text(t))),
{
    let d = k + seq![0u8] + t;
    lemma_first_nul(k, t, 0);
    assert(d.subrange(0, k.len() as int) =~= k);
    assert(d.subrange(k.len() as int + 1, d.len() as int) =~= t);
}

/// A `tEXt` chunk in the stream contributes its `(keyword, text)` pair, in
/// stream order: the pairs read from a well-formed `tEXt` chunk at `pos`
/// are that pair followed by the pairs read after the chunk.
pub proof fn text_chunks_include_text(b: Seq<u8>, pos: int, k: Seq<u8>, t: Seq<u8>)
    requires
        0 <= pos,
        !k.contains(0u8),
        pos + 8 + k.len() + 1 + t.len() <= b.len(),
        be_u32(b, pos) == k.len() + 1 + t.len(),
        b.subrange(pos + 4, pos + 8) == kind_text(),
        b.subrange(pos + 8, pos + 8 + k.len() + 1 + t.len()) == k + seq![0u8] + t,
    ensures
        chunks_from(b, pos) == seq![(lossy_text(k), lossy_text(t))] + chunks_from(
            b,
            pos + 12 + k.len() + 1 + t.len(),
        ),
{
    text_chunk_reads_keyword_and_text(k, t);
    assert(kind_text()[0] != kind_iend()[0]);
    assert(kind_text() != kind_itxt()) by {
        assert(kind_text()[0] != kind_itxt()[0]);
    }
}

/// The first NUL at or after `i`, for `i` up to the end of a NUL-free `k`
/// followed by a NUL, is the one after `k`, wherever `k` starts.
proof fn lemma_nul_after(d: Seq<u8>, start: int, k: Seq<u8>, i: int)
    requires
        !k.contains(0u8),
        0 <= start <= i <= start + k.len(),
        start + k.len() < d.len(),
        d.subrange(start, start + k.len()) == k,
        d[start + k.len()] == 0u8,
    ensures
        find_byte_from(d, 0u8, i) == Some(start + k.len()),
    decreases start + k.len() - i,
{
    if i < start + k.len() {
        assert(d[i] == k[i - start]) by {
            assert(d.subrange(start, start + k.len())[i - start] == d[i]);
        }
        assert(k[i - start] != 0u8) by {
            assert(k.contains(k[i - start]));
        }
        lemma_nul_after(d, start, k, i + 1);
    }
}

/// An uncompressed `iTXt` body (`keyword \0`, compression flag 0, a method
/// byte, `language \0 translated \0 text`) reads as the pair of its keyword
/// and its text, as a `tEXt` body does.
pub proof fn itxt_chunk_reads_keyword_and_text(
    k: Seq<u8>,
    method: u8,
    lang: Seq<u8>,
    trans: Seq<u8>,
    t: Seq<u8>,
)
    requires
        !k.contains(0u8),
        !lang.contains(0u8),
        !trans.contains(0u8),
    ensures
        itxt_chunk(k + seq![0u8, 0u8, method] + lang + seq![0u8] + trans + seq![0u8] + t) == Some(
            (lossy_text(k), lossy_text(t)),
        ),
{
    let d = k + seq![0u8, 0u8, method] + lang + seq![0u8] + trans + seq![0u8] + t;
    let n = k.len() as int;
    let l = n + 3 + lang.len();
    let m = l + 1 + trans.len();
    assert(d.subrange(0, n) =~= k);
    assert(d[n] == 0u8);
    lemma_nul_after(d, 0, k, 0);
    assert(d[n + 1] == 0u8);
    assert(d.subrange(n + 3, l) =~= lang);
    assert(d[l] == 0u8);
    lemma_nul_after(d, n + 3, lang, n + 3);
    assert(d.subrange(l + 1, m) =~= trans);
    assert(d[m] == 0u8);
    lemma_nul_after(d, l + 1, trans, l + 1);
    assert(d.subrange(m + 1, d.len() as int) =~= t);
}

/// The character view of a list of `(keyword, text)` pairs.
pub open spec fn pairs_view(v: Seq<(Vec<char>, Vec<char>)>) -> Seq<(Seq<char>, Seq<char>)> {
    v.map_values(|p: (Vec<char>, Vec<char>)| (p.0@, p.1@))
}

/// Parse a `tEXt` body.
fn parse_text_chunk(data: &[u8]) -> (r: Option<(Vec<char>, Vec<char>)>)
    ensures
        match r {
            Some(p) => text_chunk(data@) == Some((p.0@, p.1@)),
            None => text_chunk(data@) is None,
        },
{
    let nul = match find_byte(data, 0, 0) {
        Some(n) => n,
        None => return None,
    };
    let n = data.len();
    assert(nul < n);
    let keyword = lossy_chars(data, 0, nul);
    let text = lossy_chars(data, nul + 1, n);
    Some((keyword, text))
}

/// Parse an `iTXt` body.
fn parse_itxt_chunk(data: &[u8]) -> (r: Option<(Vec<char>, Vec<char>)>)
    ensures
        match r {
            Some(p) => itxt_chunk(data@) == Some((p.0@, p.1@)),
            None => itxt_chunk(data@) is None,
        },
{
    let nul = match find_byte(data, 0, 0) {
        Some(n) => n,
        None => return None,
    };
    let n = data.len();
    assert(nul < n);
    if n - nul <= 2 {
        return None;
    }
    let keyword = lossy_chars(data, 0, nul);
    if data[nul + 1] != 0 {
        return None;
    }
    let lang_end = match find_byte(data, 0, nul + 3) {
        Some(n) => n,
        None => return None,
    };
    let trans_end = match find_byte(data, 0, lang_end + 1) {
        Some(n) => n,
        None => return None,
    };
    let text = lossy_chars(data, trans_end + 1, data.len());
    Some((keyword, text))
}

/// Scan a PNG and return `(keyword, text)` for each readable text chunk.
fn read_text_chunks(bytes: &[u8]) -> (r: Vec<(Vec<char>, Vec<char>)>)
    ensures
        pairs_view(r@) == text_chunks(bytes@),
{
    let mut out: Vec<(Vec<char>, Vec<char>)> = Vec::new();
    proof {
        assert(pairs_view(out@) =~= Seq::<(Seq<char>, Seq<char>)>::empty());
    }
    let n = bytes.len();
    if n < 8 {
        return out;
    }
    let sig: [u8; 8] = [0x89, 0x50, 0x4e, 0x47, 0x0d, 0x0a, 0x1a, 0x0a];
    let mut k: usize = 0;
    while k < 8
        invariant
            k <= 8,
            n == bytes@.len(),
            8 <= n,
            sig@ == png_signature(),
            out@ == Seq::<(Vec<char>, Vec<char>)>::empty(),
            forall|j: int| 0 <= j < k ==> bytes@[j] == sig@[j],
        decreases 8 - k,
    {
        if bytes[k] != sig[k] {
            proof {
                assert(bytes@.take(8)[k as int] != png_signature()[k as int]);
                assert(pairs_view(out@) =~= Seq::<(Seq<char>, Seq<char>)>::empty());
            }
            return out;
        }
        k = k + 1;
    }
    proof {
        assert(bytes@.take(8) =~= png_signature());
    }
    let mut pos: usize = 8;
    loop
        invariant
            n == bytes@.len(),
            pos <= n,
            pairs_view(out@) + chunks_from(bytes@, pos as int) == text_chunks(bytes@),
        decreases n - pos,
    {
        if n - pos < 8 {
            proof {
                assert(pairs_view(out@) + Seq::<(Seq<char>, Seq<char>)>::empty() =~= pairs_view(
                    out@,
                ));
            }
            return out;
        }
        let len: u64 = (bytes[pos] as u64) * 16777216 + (bytes[pos + 1] as u64) * 65536 + (
        bytes[pos + 2] as u64) * 256 + (bytes[pos + 3] as u64);
        let data_start = pos + 8;
        if len > (n - data_start) as u64 {
            proof {
                assert(pairs_view(out@) + Seq::<(Seq<char>, Seq<char>)>::empty() =~= pairs_view(
                    out@,
                ));
            }
            return out;
        }
        let data_end = data_start + len as usize;
        let ghost kind = bytes@.subrange(pos + 4, pos + 8);
        let ghost data = bytes@.subrange(data_start as int, data_end as int);
        let data_slice = slice_subrange(bytes, data_start, data_end);
        let k0 = bytes[pos + 4];
        let k1 = bytes[pos + 5];
        let k2 = bytes[pos + 6];
        let k3 = bytes[pos + 7];
        proof {
            assert(kind =~= seq![k0, k1, k2, k3]);
        }
        if k0 == 0x49 && k1 == 0x45 && k2 == 0x4e && k3 == 0x44 {
            proof {
                assert(kind =~= kind_iend());
                assert(pairs_view(out@) + Seq::<(Seq<char>, Seq<char>)>::empty() =~= pairs_view(
                    out@,
                ));
            }
            return out;
        }
        proof {
            assert(kind != kind_iend()) by {
                if kind == kind_iend() {
                    assert(kind[0] == kind_iend()[0]);
                    assert(kind[1] == kind_iend()[1]);
                    assert(kind[2] == kind_iend()[2]);
                    assert(kind[3] == kind_iend()[3]);
                }
            }
        }
        let is_text = k0 == 0x74 && k1 == 0x45 && k2 == 0x58 && k3 == 0x74;
        let is_itxt = k0 == 0x69 && k1 == 0x54 && k2 == 0x58 && k3 == 0x74;
        proof {
            assert(is_text == (kind == kind_text())) by {
                if kind == kind_text() {
                    assert(kind[0] == kind_text()[0]);
                    assert(kind[1] == kind_text()[1]);
                    assert(kind[2] == kind_text()[2]);
                    assert(kind[3] == kind_text()[3]);
                }
                if is_text {
                    assert(kind =~= kind_text());
                }
            }
            assert(is_itxt == (kind == kind_itxt())) by {
                if kind == kind_itxt() {
                    assert(kind[0] == kind_itxt()[0]);
                    assert(kind[1] == kind_itxt()[1]);
                    assert(kind[2] == kind_itxt()[2]);
                    assert(kind[3] == kind_itxt()[3]);
                }
                if is_itxt {
                    assert(kind =~= kind_itxt());
                }
            }
        }
        let ghost here: Seq<(Seq<char>, Seq<char>)> = if kind == kind_text() {
            opt_seq(text_chunk(data))
        } else if kind == kind_itxt() {
            opt_seq(itxt_chunk(data))
        } else {
            Seq::empty()
        };
        let ghost before = out@;
        let parsed = if is_text {
            parse_text_chunk(data_slice)
        } else if is_itxt {
            parse_itxt_chunk(data_slice)
        } else {
            None
        };
        match parsed {
            Some(p) => {
                out.push(p);
                proof {
                    assert(pairs_view(out@) =~= pairs_view(before) + here);
                }
            },
            None => {
                proof {
                    assert(here =~= Seq::<(Seq<char>, Seq<char>)>::empty());
                    assert(pairs_view(out@) =~= pairs_view(before) + here);
                }
            },
        }
        proof {
            assert(chunks_from(bytes@, pos as int) == here + chunks_from(bytes@, data_end + 4));
            assert(pairs_view(out@) + chunks_from(bytes@, data_end + 4) =~= pairs_view(before)
                + chunks_from(bytes@, pos as int));
        }
        if n - data_end < 12 {
            proof {
                assert(chunks_from(bytes@, data_end + 4) =~= Seq::<(Seq<char>, Seq<char>)>::empty());
                assert(pairs_view(out@) + Seq::<(Seq<char>, Seq<char>)>::empty() =~= pairs_view(
                    out@,
                ));
            }
            return out;
        }
        pos = data_end + 4;
    }
}

// ---------------------------------------------------------------------------
// Line form
// ---------------------------------------------------------------------------

/// An optional value as `Some` only when non-empty.
pub open spec fn nonempty(v: Seq<char>) -> Option<Seq<char>> {
    if v.len() > 0 {
        Some(v)
    } else {
        None
    }
}

/// The world and author named by the segments `segs[i..]` of a line record,
/// starting from `world` and `author` (later segments override earlier ones).
pub open spec fn line_fields(
    segs: Seq<Seq<char>>,
    i: int,
    world: Option<Seq<char>>,
    author: Option<Seq<char>>,
) -> (Option<Seq<char>>, Option<Seq<char>>)
    decreases segs.len() - i,
{
    if i < 0 || i >= segs.len() {
        (world, author)
    } else {
        let seg = trim(segs[i]);
        if starts_with(seg, "wrld_"@) {
            line_fields(segs, i + 1, after_nth(seg.skip("wrld_"@.len() as int), ',', 2), author)
        } else {
            match split_once(seg, ':') {
                Some(kv) => if kv.0 == "author"@ {
                    let named = match split_once(kv.1, ',') {
                        Some(p) => Some(p.1),
                        None => None,
                    };
                    line_fields(segs, i + 1, world, named)
                } else if kv.0 == "world"@ {
                    line_fields(segs, i + 1, after_nth(kv.1, ',', 2), author)
                } else {
                    line_fields(segs, i + 1, world, author)
                },
                None => line_fields(segs, i + 1, world, author),
            }
        }
    }
}

/// In `a c b` with no `c` in `a`, the first `c` is the one after `a`.
proof fn lemma_first_char_after(a: Seq<char>, c: char, b: Seq<char>)
    requires
        !a.contains(c),
    ensures
        find_char_from(a + seq![c] + b, c, 0) == Some(a.len() as int),
{
    let s = a + seq![c] + b;
    lemma_find_char_from(s, c, 0);
    assert(s[a.len() as int] == c);
    if let Some(k) = find_char_from(s, c, 0) {
        if k < a.len() {
            assert(s[k] == a[k]);
            assert(a.contains(a[k]));
        }
    }
}

/// `id,inst,name` with a comma-free id and instance: what follows the second
/// comma is the name.
proof fn lemma_world_name(id: Seq<char>, inst: Seq<char>, name: Seq<char>)
    requires
        !id.contains(','),
        !inst.contains(','),
    ensures
        after_nth(id + seq![','] + inst + seq![','] + name, ',', 2) == Some(name),
{
    let rest = inst + seq![','] + name;
    assert(id + seq![','] + inst + seq![','] + name =~= id + seq![','] + rest);
    lemma_first_char_after(id, ',', rest);
    assert((id + seq![','] + rest).skip(id.len() as int + 1) =~= rest);
    lemma_first_char_after(inst, ',', name);
    assert(rest.skip(inst.len() as int + 1) =~= name);
    reveal_with_fuel(after_nth, 3);
}

/// A bare world segment `wrld_<id>,<inst>,<name>` (id and instance free of
/// commas) names the world `<name>`: everything after the second comma, not
/// the instance.
pub proof fn bare_world_segment_names_world(
    segs: Seq<Seq<char>>,
    i: int,
    id: Seq<char>,
    inst: Seq<char>,
    name: Seq<char>,
    world: Option<Seq<char>>,
    author: Option<Seq<char>>,
)
    requires
        0 <= i < segs.len(),
        trim(segs[i]) == "wrld_"@ + id + seq![','] + inst + seq![','] + name,
        !id.contains(','),
        !inst.contains(','),
    ensures
        line_fields(segs, i, world, author) == line_fields(segs, i + 1, Some(name), author),
{
    reveal_strlit("wrld_");
    let seg = trim(segs[i]);
    let body = id + seq![','] + inst + seq![','] + name;
    assert(seg.take(5) =~= "wrld_"@);
    assert(seg.skip(5) =~= body);
    lemma_world_name(id, inst, name);
}

/// A `world:<id>,<inst>,<name>` segment (id and instance free of commas)
/// names the world `<name>`, as the bare form does.
pub proof fn world_segment_names_world(
    segs: Seq<Seq<char>>,
    i: int,
    id: Seq<char>,
    inst: Seq<char>,
    name: Seq<char>,
    world: Option<Seq<char>>,
    author: Option<Seq<char>>,
)
    requires
        0 <= i < segs.len(),
        trim(segs[i]) == "world:"@ + id + seq![','] + inst + seq![','] + name,
        !id.contains(','),
        !inst.contains(','),
    ensures
        line_fields(segs, i, world, author) == line_fields(segs, i + 1, Some(name), author),
{
    reveal_strlit("wrld_");
    reveal_strlit("world");
    reveal_strlit("world:");
    reveal_strlit("author");
    let seg = trim(segs[i]);
    let body = id + seq![','] + inst + seq![','] + name;
    assert(seg[1] == 'o');
    assert(!starts_with(seg, "wrld_"@)) by {
        if starts_with(seg, "wrld_"@) {
            assert(seg.take(5)[1] == 'r');
        }
    }
    assert(!"world"@.contains(':')) by {
        if "world"@.contains(':') {
            let k = choose|k: int| 0 <= k < "world"@.len() && "world"@[k] == ':';
        }
    }
    assert(seg =~= "world"@ + seq![':'] + body);
    lemma_first_char_after("world"@, ':', body);
    assert(seg.take(5) =~= "world"@);
    assert(seg.skip(6) =~= body);
    assert("world"@ != "author"@);
    lemma_world_name(id, inst, name);
}

/// An `author:<id>,<name>` segment (id free of commas) names the author
/// `<name>`: everything after the first comma.
pub proof fn author_segment_names_author(
    segs: Seq<Seq<char>>,
    i: int,
    id: Seq<char>,
    name: Seq<char>,
    world: Option<Seq<char>>,
    author: Option<Seq<char>>,
)
    requires
        0 <= i < segs.len(),
        trim(segs[i]) == "author:"@ + id + seq![','] + name,
        !id.contains(','),
    ensures
        line_fields(segs, i, world, author) == line_fields(segs, i + 1, world, Some(name)),
{
    reveal_strlit("wrld_");
    reveal_strlit("author");
    reveal_strlit("author:");
    let seg = trim(segs[i]);
    let body = id + seq![','] + name;
    assert(!starts_with(seg, "wrld_"@)) by {
        if starts_with(seg, "wrld_"@) {
            assert(seg.take(5)[0] == 'w');
        }
    }
    assert(!"author"@.contains(':')) by {
        if "author"@.contains(':') {
            let k = choose|k: int| 0 <= k < "author"@.len() && "author"@[k] == ':';
        }
    }
    assert(seg =~= "author"@ + seq![':'] + body);
    lemma_first_char_after("author"@, ':', body);
    assert(seg.take(6) =~= "author"@);
    assert(seg.skip(7) =~= body);
    lemma_first_char_after(id, ',', name);
    assert(body.skip(id.len() as int + 1) =~= name);
}

/// The line form `type|index|author:id,Name|world:id,inst,Name|...` (bare
/// `wrld_...` segments are accepted too). `None` unless the record type is
/// `screenshotmanager` or `lfs` and it names a world or an author.
pub open spec fn spec_parse_line(text: Seq<char>) -> Option<FieldsSpec> {
    let parts = split(trim(text), '|');
    let meta_type = trim(parts[0]);
    if meta_type != "screenshotmanager"@ && meta_type != "lfs"@ {
        None
    } else {
        let wa = line_fields(parts, 1, None, None);
        if wa.0 is Some || wa.1 is Some {
            Some(FieldsSpec { world: wa.0, author: wa.1, captured: None, format: Format::Line })
        } else {
            None
        }
    }
}

/// The fields of an optional [`Fields`].
pub open spec fn opt_fields(o: Option<Fields>) -> Option<FieldsSpec> {
    match o {
        Some(f) => Some(f@),
        None => None,
    }
}

/// Executable [`spec_parse_line`].
fn parse_line(text: &[char]) -> (r: Option<Fields>)
    ensures
        opt_fields(r) == spec_parse_line(text@),
{
    let line = trim_chars(text);
    let parts = split_chars(line.as_slice(), '|');
    let ghost segs = seqs_view(parts@);
    let meta_type = trim_chars(parts[0].as_slice());
    proof {
        assert(parts@[0]@ == segs[0]);
    }
    let sm = chars_of("screenshotmanager");
    let lfs = chars_of("lfs");
    if !eq_chars(meta_type.as_slice(), sm.as_slice()) && !eq_chars(
        meta_type.as_slice(),
        lfs.as_slice(),
    ) {
        return None;
    }
    let wrld = chars_of("wrld_");
    let author_key = chars_of("author");
    let world_key = chars_of("world");
    let mut world: Option<Vec<char>> = None;
    let mut author: Option<Vec<char>> = None;
    let mut i: usize = 1;
    while i < parts.len()
        invariant
            1 <= i <= parts@.len(),
            segs == seqs_view(parts@),
            segs == split(trim(text@), '|'),
            wrld@ == "wrld_"@,
            author_key@ == "author"@,
            world_key@ == "world"@,
            line_fields(segs, 1, None, None) == line_fields(
                segs,
                i as int,
                opt_chars(world),
                opt_chars(author),
            ),
        decreases parts@.len() - i,
    {
        proof {
            assert(parts@[i as int]@ == segs[i as int]);
        }
        let seg = trim_chars(parts[i].as_slice());
        if starts_with_chars(seg.as_slice(), wrld.as_slice()) {
            let rest = slice_subrange(seg.as_slice(), wrld.len(), seg.len());
            proof {
                assert(rest@ =~= seg@.skip("wrld_"@.len() as int));
            }
            world = after_nth_chars(rest, ',', 2);
        } else {
            match split_once_chars(seg.as_slice(), ':') {
                Some(kv) => {
                    if eq_chars(kv.0.as_slice(), author_key.as_slice()) {
                        author =
                        match split_once_chars(kv.1.as_slice(), ',') {
                            Some(p) => Some(p.1),
                            None => None,
                        };
                    } else if eq_chars(kv.0.as_slice(), world_key.as_slice()) {
                        world = after_nth_chars(kv.1.as_slice(), ',', 2);
                    }
                },
                None => {},
            }
        }
        i = i + 1;
    }
    if world.is_some() || author.is_some() {
        Some(Fields { world, author, captured: None, format: Format::Line })
    } else {
        None
    }
}

// ---------------------------------------------------------------------------
// VRCX JSON
// ---------------------------------------------------------------------------

/// What `serde_json` finds at JSON pointer `pointer` in the document `text`:
/// `None` when `text` is not a JSON document or nothing is at the pointer,
/// `Some(None)` when the value there is not a string, and `Some(Some(s))` for
/// the string `s`.
pub uninterp spec fn json_pointer_text(text: Seq<char>, pointer: Seq<char>) -> Option<
    Option<Seq<char>>,
>;

/// The outcome of one JSON pointer lookup.
pub enum JsonText {
    Absent,
    NotText,
    Text(Vec<char>),
}

/// The outcome of a lookup as nested options (see [`json_pointer_text`]).
pub open spec fn json_text_view(j: JsonText) -> Option<Option<Seq<char>>> {
    match j {
        JsonText::Absent => None,
        JsonText::NotText => Some(None),
        JsonText::Text(v) => Some(Some(v@)),
    }
}

/// Parses `text` with `serde_json::from_str` into a `serde_json::Value` and
/// looks `pointer` up with `Value::pointer`, reporting whether the value there
/// is a string (`Value::as_str`). Claimed: the outcome is a function of `text`
/// and `pointer` alone, named `json_pointer_text`; a parse error reads as
/// absent.
#[verifier::external_body]
fn json_pointer_lookup(text: &[char], pointer: &str) -> (r: JsonText)
    ensures
        json_text_view(r) == json_pointer_text(text@, pointer@),
{
    let doc: String = text.iter().collect();
    match serde_json::from_str::<serde_json::Value>(&doc) {
        Ok(v) => match v.pointer(pointer) {
            Some(found) => match found.as_str() {
                Some(t) => JsonText::Text(t.chars().collect()),
                None => JsonText::NotText,
            },
            None => JsonText::Absent,
        },
        Err(_) => JsonText::Absent,
    }
}

/// The string found by a lookup, if any.
pub open spec fn as_text(o: Option<Option<Seq<char>>>) -> Option<Seq<char>> {
    match o {
        Some(Some(s)) => Some(s),
        _ => None,
    }
}

/// VRCX JSON: `{ "world": {"name": ...}, "author": {"displayName": ...} }`,
/// where the author's `name` stands in only when `displayName` is absent.
/// `None` unless a world or author string is found.
pub open spec fn spec_parse_json(text: Seq<char>) -> Option<FieldsSpec> {
    let t = trim(text);
    let world = as_text(json_pointer_text(t, "/world/name"@));
    let display = json_pointer_text(t, "/author/displayName"@);
    let author = if display is None {
        as_text(json_pointer_text(t, "/author/name"@))
    } else {
        as_text(display)
    };
    if world is Some || author is Some {
        Some(FieldsSpec { world, author, captured: None, format: Format::Json })
    } else {
        None
    }
}

/// The string of a lookup, if it found one.
fn text_of(j: JsonText) -> (r: Option<Vec<char>>)
    ensures
        opt_chars(r) == as_text(json_text_view(j)),
{
    match j {
        JsonText::Text(v) => Some(v),
        _ => None,
    }
}

/// Executable [`spec_parse_json`].
fn parse_json(text: &[char]) -> (r: Option<Fields>)
    ensures
        opt_fields(r) == spec_parse_json(text@),
{
    let t = trim_chars(text);
    let world = text_of(json_pointer_lookup(t.as_slice(), "/world/name"));
    let display = json_pointer_lookup(t.as_slice(), "/author/displayName");
    let author = match display {
        JsonText::Absent => text_of(json_pointer_lookup(t.as_slice(), "/author/name")),
        other => text_of(other),
    };
    if world.is_some() || author.is_some() {
        Some(Fields { world, author, captured: None, format: Format::Json })
    } else {
        None
    }
}

// ---------------------------------------------------------------------------
// XMP
// ---------------------------------------------------------------------------

/// The five predefined XML entities decoded, each once: `&lt;`, `&gt;`,
/// `&quot;` and `&apos;` are replaced first (none of their replacements holds
/// a `&`), and `&amp;` last, so that an escaped `&` never starts another
/// entity.
pub open spec fn decode_entities(s: Seq<char>) -> Seq<char> {
    replace(
        replace(
            replace(replace(replace(s, "&lt;"@, "<"@), "&gt;"@, ">"@), "&quot;"@, "\""@),
            "&apos;"@,
            "'"@,
        ),
        "&amp;"@,
        "&"@,
    )
}

/// One replacement pass over `a e b`, where `e` is the only `&`-led part:
/// the pass for `e` itself turns it into `t`, a pass for another entity
/// (differing from `e` at `k`) changes nothing.
proof fn lemma_entity_pass(
    a: Seq<char>,
    e: Seq<char>,
    b: Seq<char>,
    p: Seq<char>,
    t: Seq<char>,
    k: int,
)
    requires
        !a.contains('&'),
        !b.contains('&'),
        e.len() > 0,
        e[0] == '&',
        !e.skip(1).contains('&'),
        p.len() > 0,
        p[0] == '&',
        p == e || (0 <= k < e.len() && k < p.len() && e[k] != p[k]),
    ensures
        replace(a + e + b, p, t) == (if p == e {
            a + t + b
        } else {
            a + e + b
        }),
{
    assert(a + e + b =~= a + (e + b));
    crate::text::lemma_replace_prefix(a, e + b, p, t);
    let s = e + b;
    crate::text::lemma_replace_absent(b, p, t);
    if p == e {
        assert(starts_with(s, p)) by {
            assert(s.take(p.len() as int) =~= p);
        }
        assert(s.skip(p.len() as int) =~= b);
        assert(a + (t + b) =~= a + t + b);
    } else {
        assert(!starts_with(s, p)) by {
            if starts_with(s, p) {
                assert(s.take(p.len() as int)[k] == p[k]);
                assert(s[k] == e[k]);
            }
        }
        let r = s.skip(1);
        assert(r =~= e.skip(1) + b);
        assert(!r.contains('&')) by {
            if r.contains('&') {
                let i = choose|i: int| 0 <= i < r.len() && r[i] == '&';
                if i < e.len() - 1 {
                    assert(e.skip(1)[i] == '&');
                } else {
                    assert(b[i - (e.len() - 1)] == '&');
                }
            }
        }
        crate::text::lemma_replace_absent(r, p, t);
        assert(seq![s[0]] + r =~= s);
        assert(a + (e + b) =~= a + e + b);
    }
}

/// `a c b` holds no `&` when neither part does and `c` is not `&`.
proof fn lemma_amp_free(a: Seq<char>, c: char, b: Seq<char>)
    requires
        !a.contains('&'),
        !b.contains('&'),
        c != '&',
    ensures
        !(a + seq![c] + b).contains('&'),
{
    let s = a + seq![c] + b;
    if s.contains('&') {
        let i = choose|i: int| 0 <= i < s.len() && s[i] == '&';
        if i < a.len() {
            assert(a[i] == '&');
        } else if i > a.len() {
            assert(b[i - a.len() - 1] == '&');
        }
    }
}

/// Entities are decoded once each: text without `&` comes out unchanged, and
/// each of the five predefined entities placed in such text becomes its
/// character (`&lt;` to `<`, `&gt;` to `>`, `&quot;` to `"`, `&apos;` to `'`,
/// `&amp;` to `&`), with the text around it kept as it is.
pub proof fn entities_decode_to_their_characters(a: Seq<char>, b: Seq<char>)
    requires
        !a.contains('&'),
        !b.contains('&'),
    ensures
        decode_entities(a) == a,
        decode_entities(a + "&lt;"@ + b) == a + seq!['<'] + b,
        decode_entities(a + "&gt;"@ + b) == a + seq!['>'] + b,
        decode_entities(a + "&quot;"@ + b) == a + seq!['"'] + b,
        decode_entities(a + "&apos;"@ + b) == a + seq!['\''] + b,
        decode_entities(a + "&amp;"@ + b) == a + seq!['&'] + b,
{
    reveal_strlit("&lt;");
    reveal_strlit("&gt;");
    reveal_strlit("&quot;");
    reveal_strlit("&apos;");
    reveal_strlit("&amp;");
    reveal_strlit("<");
    reveal_strlit(">");
    reveal_strlit("\"");
    reveal_strlit("'");
    reveal_strlit("&");
    let lt = "&lt;"@;
    let gt = "&gt;"@;
    let qu = "&quot;"@;
    let ap = "&apos;"@;
    let am = "&amp;"@;
    let ghost ents: Seq<Seq<char>> = seq![lt, gt, qu, ap, am];
    assert forall|j: int| 0 <= j < 5 implies !(#[trigger] ents[j]).skip(1).contains('&') by {
        let e = ents[j];
        if e.skip(1).contains('&') {
            let i = choose|i: int| 0 <= i < e.skip(1).len() && e.skip(1)[i] == '&';
        }
    }
    assert(!ents[0].skip(1).contains('&') && !ents[1].skip(1).contains('&') && !ents[2].skip(
        1,
    ).contains('&') && !ents[3].skip(1).contains('&') && !ents[4].skip(1).contains('&'));
    // No `&` at all.
    crate::text::lemma_replace_absent(a, lt, "<"@);
    crate::text::lemma_replace_absent(a, gt, ">"@);
    crate::text::lemma_replace_absent(a, qu, "\""@);
    crate::text::lemma_replace_absent(a, ap, "'"@);
    crate::text::lemma_replace_absent(a, am, "&"@);
    // `&lt;`
    let x = a + seq!['<'] + b;
    lemma_entity_pass(a, lt, b, lt, "<"@, 0);
    assert(a + "<"@ + b =~= x);
    lemma_amp_free(a, '<', b);
    crate::text::lemma_replace_absent(x, gt, ">"@);
    crate::text::lemma_replace_absent(x, qu, "\""@);
    crate::text::lemma_replace_absent(x, ap, "'"@);
    crate::text::lemma_replace_absent(x, am, "&"@);
    // `&gt;`
    let x = a + seq!['>'] + b;
    lemma_entity_pass(a, gt, b, lt, "<"@, 1);
    lemma_entity_pass(a, gt, b, gt, ">"@, 0);
    assert(a + ">"@ + b =~= x);
    lemma_amp_free(a, '>', b);
    crate::text::lemma_replace_absent(x, qu, "\""@);
    crate::text::lemma_replace_absent(x, ap, "'"@);
    crate::text::lemma_replace_absent(x, am, "&"@);
    // `&quot;`
    let x = a + seq!['"'] + b;
    lemma_entity_pass(a, qu, b, lt, "<"@, 1);
    lemma_entity_pass(a, qu, b, gt, ">"@, 1);
    lemma_entity_pass(a, qu, b, qu, "\""@, 0);
    assert(a + "\""@ + b =~= x);
    lemma_amp_free(a, '"', b);
    crate::text::lemma_replace_absent(x, ap, "'"@);
    crate::text::lemma_replace_absent(x, am, "&"@);
    // `&apos;`
    let x = a + seq!['\''] + b;
    lemma_entity_pass(a, ap, b, lt, "<"@, 1);
    lemma_entity_pass(a, ap, b, gt, ">"@, 1);
    lemma_entity_pass(a, ap, b, qu, "\""@, 1);
    lemma_entity_pass(a, ap, b, ap, "'"@, 0);
    assert(a + "'"@ + b =~= x);
    lemma_amp_free(a, '\'', b);
    crate::text::lemma_replace_absent(x, am, "&"@);
    // `&amp;`
    lemma_entity_pass(a, am, b, lt, "<"@, 1);
    lemma_entity_pass(a, am, b, gt, ">"@, 1);
    lemma_entity_pass(a, am, b, qu, "\""@, 1);
    lemma_entity_pass(a, am, b, ap, "'"@, 2);
    lemma_entity_pass(a, am, b, am, "&"@, 0);
    assert(a + "&"@ + b =~= a + seq!['&'] + b);
}

/// Executable [`decode_entities`].
fn decode_entities_chars(s: &[char]) -> (r: Vec<char>)
    ensures
        r@ == decode_entities(s@),
{
    proof {
        reveal_strlit("&amp;");
        reveal_strlit("&lt;");
        reveal_strlit("&gt;");
        reveal_strlit("&quot;");
        reveal_strlit("&apos;");
    }
    let a = replace_chars(s, chars_of("&lt;").as_slice(), chars_of("<").as_slice());
    let b = replace_chars(a.as_slice(), chars_of("&gt;").as_slice(), chars_of(">").as_slice());
    let c = replace_chars(b.as_slice(), chars_of("&quot;").as_slice(), chars_of("\"").as_slice());
    let d = replace_chars(c.as_slice(), chars_of("&apos;").as_slice(), chars_of("'").as_slice());
    replace_chars(d.as_slice(), chars_of("&amp;").as_slice(), chars_of("&").as_slice())
}

/// The value between `xml[start..]` and the first `close` after it, trimmed
/// and entity-decoded, when non-empty.
pub open spec fn value_until(xml: Seq<char>, start: int, close: char) -> Option<Seq<char>> {
    match find_char_from(xml, close, start) {
        Some(e) => nonempty(decode_entities(trim(xml.subrange(start, e)))),
        None => None,
    }
}

/// The first index at or after `i` where `key` occurs right after a `b1` or
/// `b2` character: an occurrence of a local name that is not the tail of a
/// longer name.
pub open spec fn name_occurrence_from(xml: Seq<char>, key: Seq<char>, b1: char, b2: char, i: int) -> Option<int>
    decreases xml.len() + 1 - i,
{
    if i < 0 || i + key.len() > xml.len() {
        None
    } else if occurs_at(xml, key, i) && i > 0 && (xml[i - 1] == b1 || xml[i - 1] == b2) {
        Some(i)
    } else {
        name_occurrence_from(xml, key, b1, b2, i + 1)
    }
}

/// A found occurrence lies within `xml`.
proof fn lemma_name_occurrence_from(xml: Seq<char>, key: Seq<char>, b1: char, b2: char, i: int)
    ensures
        name_occurrence_from(xml, key, b1, b2, i) matches Some(k) ==> 0 <= k && k + key.len()
            <= xml.len(),
    decreases xml.len() + 1 - i,
{
    if !(i < 0 || i + key.len() > xml.len()) {
        if !(occurs_at(xml, key, i) && i > 0 && (xml[i - 1] == b1 || xml[i - 1] == b2)) {
            lemma_name_occurrence_from(xml, key, b1, b2, i + 1);
        }
    }
}

/// The value of XML local name `local` in the form ending in `tail`: at the
/// first occurrence of `local + tail` preceded by `b1` or `b2` (so that a
/// longer name ending in `local` is passed over), the value runs up to the
/// first `close`.
pub open spec fn tagged_value(
    xml: Seq<char>,
    local: Seq<char>,
    tail: Seq<char>,
    b1: char,
    b2: char,
    close: char,
) -> Option<Seq<char>> {
    let key = local + tail;
    match name_occurrence_from(xml, key, b1, b2, 0) {
        Some(i) => value_until(xml, i + key.len(), close),
        None => None,
    }
}

/// The first value of XML local name `local`: the element form
/// (`<ns:Local>VALUE</ns:Local>`) at the first element named `Local`, else
/// the attribute form (`ns:Local="VALUE"`) at the first attribute named
/// `Local`.
pub open spec fn xmp_value(xml: Seq<char>, local: Seq<char>) -> Option<Seq<char>> {
    match tagged_value(xml, local, ">"@, ':', '<', '<') {
        Some(v) => Some(v),
        None => tagged_value(xml, local, "=\""@, ':', ' ', '"'),
    }
}

/// Executable [`value_until`].
fn value_until_chars(xml: &[char], start: usize, close: char) -> (r: Option<Vec<char>>)
    requires
        start <= xml@.len(),
    ensures
        opt_chars(r) == value_until(xml@, start as int, close),
{
    match find_char(xml, close, start) {
        Some(e) => {
            proof {
                lemma_find_char_from(xml@, close, start as int);
            }
            let raw = trim_chars(slice_subrange(xml, start, e));
            let val = decode_entities_chars(raw.as_slice());
            if val.len() > 0 {
                Some(val)
            } else {
                None
            }
        },
        None => None,
    }
}

/// Executable [`tagged_value`].
fn tagged_value_chars(
    xml: &[char],
    local: &[char],
    tail: &[char],
    b1: char,
    b2: char,
    close: char,
) -> (r: Option<Vec<char>>)
    ensures
        opt_chars(r) == tagged_value(xml@, local@, tail@, b1, b2, close),
{
    let mut key = slice_to_vec(local);
    key.extend_from_slice(tail);
    proof {
        assert(key@ =~= local@ + tail@);
    }
    let mut i: usize = 0;
    loop
        invariant
            key@ == local@ + tail@,
            i <= xml@.len(),
            name_occurrence_from(xml@, key@, b1, b2, i as int) == name_occurrence_from(
                xml@,
                key@,
                b1,
                b2,
                0,
            ),
        decreases xml@.len() + 1 - i,
    {
        if i > xml.len() || key.len() > xml.len() - i {
            return None;
        }
        if matches_at(xml, key.as_slice(), i) && i > 0 && (xml[i - 1] == b1 || xml[i - 1] == b2) {
            proof {
                lemma_name_occurrence_from(xml@, key@, b1, b2, 0);
            }
            return value_until_chars(xml, i + key.len(), close);
        }
        if i == xml.len() {
            assert(name_occurrence_from(xml@, key@, b1, b2, i + 1) is None);
            return None;
        }
        i = i + 1;
    }
}

/// Executable [`xmp_value`].
fn xmp_value_chars(xml: &[char], local: &str) -> (r: Option<Vec<char>>)
    ensures
        opt_chars(r) == xmp_value(xml@, local@),
{
    let l = chars_of(local);
    match tagged_value_chars(xml, l.as_slice(), chars_of(">").as_slice(), ':', '<', '<') {
        Some(v) => Some(v),
        None => tagged_value_chars(xml, l.as_slice(), chars_of("=\"").as_slice(), ':', ' ', '"'),
    }
}

/// Where a negative zone offset (`-hh:mm`) starts: the first `-` after the
/// first `:`, that is after the date.
pub open spec fn offset_start(s: Seq<char>) -> Option<int> {
    match find_char_from(s, ':', 0) {
        Some(c) => find_char_from(s, '-', c + 1),
        None => None,
    }
}

/// The earlier of two optional cut points, or `n` when there is neither.
pub open spec fn earliest(a: Option<int>, b: Option<int>, n: int) -> int {
    match (a, b) {
        (Some(x), Some(y)) => if x <= y {
            x
        } else {
            y
        },
        (Some(x), None) => x,
        (None, Some(y)) => y,
        (None, None) => n,
    }
}

/// Reduce an ISO-8601 timestamp to `YYYY-MM-DD HH:MM:SS`, dropping fractional
/// seconds and timezone: trim, turn the first `T` into a space, cut at the
/// first `.`, `+` or `Z` or at a `-` zone offset after the time, whichever
/// comes first, and trim again.
pub open spec fn clean_datetime(iso: Seq<char>) -> Seq<char> {
    let s = replace_first(trim(iso), 'T', ' ');
    let cut = earliest(find_any_from(s, ".+Z"@, 0), offset_start(s), s.len() as int);
    trim(s.take(cut))
}

/// Executable [`clean_datetime`].
fn clean_datetime_chars(iso: &[char]) -> (r: Vec<char>)
    ensures
        r@ == clean_datetime(iso@),
{
    let mut s = trim_chars(iso);
    let ghost t = s@;
    match find_char(s.as_slice(), 'T', 0) {
        Some(i) => {
            proof {
                lemma_find_char_from(t, 'T', 0);
            }
            s.set(i, ' ');
        },
        None => {},
    }
    proof {
        assert(s@ =~= replace_first(t, 'T', ' '));
    }
    let frac = find_any(s.as_slice(), chars_of(".+Z").as_slice());
    proof {
        lemma_find_any_from(s@, ".+Z"@, 0);
    }
    let offset = match find_char(s.as_slice(), ':', 0) {
        Some(c) => {
            proof {
                lemma_find_char_from(s@, ':', 0);
            }
            find_char(s.as_slice(), '-', c + 1)
        },
        None => None,
    };
    proof {
        if let Some(c) = find_char_from(s@, ':', 0) {
            lemma_find_char_from(s@, '-', c + 1);
        }
    }
    let cut = match (frac, offset) {
        (Some(x), Some(y)) => if x <= y {
            x
        } else {
            y
        },
        (Some(x), None) => x,
        (None, Some(y)) => y,
        (None, None) => s.len(),
    };
    trim_chars(slice_subrange(s.as_slice(), 0, cut))
}

/// What `parse_xmp` recovers from an XMP packet.
pub open spec fn spec_parse_xmp(xml: Seq<char>) -> FieldsSpec {
    FieldsSpec {
        world: xmp_value(xml, "WorldDisplayName"@),
        author: xmp_value(xml, "Author"@),
        captured: match xmp_value(xml, "CreateDate"@) {
            Some(d) => Some(clean_datetime(d)),
            None => None,
        },
        format: Format::Xmp,
    }
}

/// Executable [`spec_parse_xmp`].
fn parse_xmp(xml: &[char]) -> (r: Fields)
    ensures
        r@ == spec_parse_xmp(xml@),
{
    let world = xmp_value_chars(xml, "WorldDisplayName");
    let author = xmp_value_chars(xml, "Author");
    let captured = match xmp_value_chars(xml, "CreateDate") {
        Some(d) => Some(clean_datetime_chars(d.as_slice())),
        None => None,
    };
    Fields { world, author, captured, format: Format::Xmp }
}

/// The text opens like an XML/XMP document.
pub open spec fn looks_like_xml(text: Seq<char>) -> bool {
    let t = trim_start(text);
    starts_with(t, "<?xpacket"@) || starts_with(t, "<x:xmpmeta"@) || starts_with(t, "<?xml"@)
}

/// Executable [`looks_like_xml`].
fn looks_like_xml_chars(text: &[char]) -> (r: bool)
    ensures
        r == looks_like_xml(text@),
{
    let t = trim_start_chars(text);
    starts_with_chars(t.as_slice(), chars_of("<?xpacket").as_slice()) || starts_with_chars(
        t.as_slice(),
        chars_of("<x:xmpmeta").as_slice(),
    ) || starts_with_chars(t.as_slice(), chars_of("<?xml").as_slice())
}

// ---------------------------------------------------------------------------
// Capture date from the file name
// ---------------------------------------------------------------------------

/// Character `c` fits position `k` of a `YYYY-MM-DD_HH-MM-SS` stamp.
pub open spec fn stamp_char_ok(k: int, c: char) -> bool {
    if k == 4 || k == 7 || k == 13 || k == 16 {
        c == '-'
    } else if k == 10 {
        c == '_'
    } else {
        '0' <= c <= '9'
    }
}

/// `st` is a `YYYY-MM-DD_HH-MM-SS` stamp.
pub open spec fn stamp_ok(st: Seq<char>) -> bool {
    st.len() == 19 && forall|k: int| 0 <= k < 19 ==> #[trigger] stamp_char_ok(k, st[k])
}

/// The capture time in a `VRChat_YYYY-MM-DD_HH-MM-SS...` file name, as
/// `YYYY-MM-DD HH:MM:SS`; the stamp follows the first `VRChat_`.
pub open spec fn date_from_filename(name: Seq<char>) -> Option<Seq<char>> {
    match find(name, "VRChat_"@) {
        Some(i) => {
            let rest = name.skip(i + "VRChat_"@.len());
            if rest.len() < 19 {
                None
            } else {
                let st = rest.take(19);
                if stamp_ok(st) {
                    Some(st.take(10) + seq![' '] + map_char(st.subrange(11, 19), '-', ':'))
                } else {
                    None
                }
            }
        },
        None => None,
    }
}

/// Executable [`date_from_filename`].
fn date_from_filename_chars(name: &[char]) -> (r: Option<Vec<char>>)
    ensures
        opt_chars(r) == date_from_filename(name@),
{
    let marker = chars_of("VRChat_");
    let i = match find_chars(name, marker.as_slice()) {
        Some(i) => i,
        None => return None,
    };
    proof {
        lemma_find_from(name@, marker@, 0);
    }
    let n = name.len();
    let mlen = marker.len();
    assert(i + mlen <= n);
    let start = i + mlen;
    if n - start < 19 {
        return None;
    }
    proof {
        assert(name@.skip(start as int).len() >= 19);
    }
    let ghost st = name@.skip(start as int).take(19);
    let mut k: usize = 0;
    while k < 19
        invariant
            k <= 19,
            start + 19 <= n,
            n == name@.len(),
            st == name@.skip(start as int).take(19),
            start == i + "VRChat_"@.len(),
            find(name@, "VRChat_"@) == Some(i as int),
            forall|j: int| 0 <= j < k ==> #[trigger] stamp_char_ok(j, st[j]),
        decreases 19 - k,
    {
        let c = name[start + k];
        assert(st[k as int] == c);
        let ok = if k == 4 || k == 7 || k == 13 || k == 16 {
            c == '-'
        } else if k == 10 {
            c == '_'
        } else {
            '0' <= c && c <= '9'
        };
        if !ok {
            proof {
                assert(!stamp_char_ok(k as int, st[k as int]));
                assert(!stamp_ok(st));
                assert(st == name@.skip(i + "VRChat_"@.len()).take(19));
            }
            return None;
        }
        k = k + 1;
    }
    let mut out: Vec<char> = Vec::new();
    let mut j: usize = 0;
    while j < 19
        invariant
            j <= 19,
            start + 19 <= n,
            n == name@.len(),
            st == name@.skip(start as int).take(19),
            out@ =~= (st.take(10) + seq![' '] + map_char(st.subrange(11, 19), '-', ':')).take(
                j as int,
            ),
        decreases 19 - j,
    {
        let c = name[start + j];
        assert(st[j as int] == c);
        if j == 10 {
            out.push(' ');
        } else if j > 10 && c == '-' {
            out.push(':');
        } else {
            out.push(c);
        }
        j = j + 1;
    }
    proof {
        assert(out@ =~= st.take(10) + seq![' '] + map_char(st.subrange(11, 19), '-', ':'));
    }
    Some(out)
}

// ---------------------------------------------------------------------------
// The whole parse
// ---------------------------------------------------------------------------

/// Pass 1: the first `Description` chunk whose text reads as VRCX JSON or,
/// failing that, as a line record, merged into `out`.
pub open spec fn description_pass(
    chunks: Seq<(Seq<char>, Seq<char>)>,
    i: int,
    out: FieldsSpec,
) -> FieldsSpec
    decreases chunks.len() - i,
{
    if i < 0 || i >= chunks.len() {
        out
    } else if chunks[i].0 != "Description"@ {
        description_pass(chunks, i + 1, out)
    } else {
        match spec_parse_json(chunks[i].1) {
            Some(f) => merge(out, f),
            None => match spec_parse_line(chunks[i].1) {
                Some(f) => merge(out, f),
                None => description_pass(chunks, i + 1, out),
            },
        }
    }
}

/// Pass 2: every XMP chunk (by keyword or by content) merged in order, so XMP
/// only fills fields that are still empty.
pub open spec fn xmp_pass(chunks: Seq<(Seq<char>, Seq<char>)>, i: int, out: FieldsSpec) -> FieldsSpec
    decreases chunks.len() - i,
{
    if i < 0 || i >= chunks.len() {
        out
    } else {
        let next = if chunks[i].0 == "XML:com.adobe.xmp"@ || looks_like_xml(chunks[i].1) {
            merge(out, spec_parse_xmp(chunks[i].1))
        } else {
            out
        };
        xmp_pass(chunks, i + 1, next)
    }
}

/// The fields gathered from the text chunks of a PNG, before the file name
/// is consulted.
pub open spec fn gathered(bytes: Seq<u8>) -> FieldsSpec {
    let chunks = text_chunks(bytes);
    xmp_pass(chunks, 0, description_pass(chunks, 0, no_fields()))
}

/// VRChat metadata of a PNG: the gathered fields when they identify a VRChat
/// image, with the capture date taken from the file name when no chunk gave
/// one; `None` otherwise.
pub open spec fn spec_parse_png(bytes: Seq<u8>, file_name: Seq<char>) -> Option<FieldsSpec> {
    let m = gathered(bytes);
    if !is_vrchat(m) {
        None
    } else if m.captured is None {
        Some(FieldsSpec { captured: date_from_filename(file_name), ..m })
    } else {
        Some(m)
    }
}

/// Executable [`description_pass`] from index 0 and no fields.
fn run_description_pass(chunks: &Vec<(Vec<char>, Vec<char>)>) -> (r: Fields)
    ensures
        r@ == description_pass(pairs_view(chunks@), 0, no_fields()),
{
    let ghost cs = pairs_view(chunks@);
    let key = chars_of("Description");
    let mut i: usize = 0;
    while i < chunks.len()
        invariant
            i <= chunks@.len(),
            cs == pairs_view(chunks@),
            key@ == "Description"@,
            description_pass(cs, 0, no_fields()) == description_pass(cs, i as int, no_fields()),
        decreases chunks@.len() - i,
    {
        let pair = &chunks[i];
        proof {
            assert(cs[i as int] == (pair.0@, pair.1@));
        }
        if eq_chars(pair.0.as_slice(), key.as_slice()) {
            let empty = Fields { world: None, author: None, captured: None, format: Format::Unknown };
            match parse_json(pair.1.as_slice()) {
                Some(f) => {
                    return merge_fields(empty, f);
                },
                None => {},
            }
            match parse_line(pair.1.as_slice()) {
                Some(f) => {
                    return merge_fields(empty, f);
                },
                None => {},
            }
        }
        i = i + 1;
    }
    Fields { world: None, author: None, captured: None, format: Format::Unknown }
}

/// Executable [`xmp_pass`] from index 0.
fn run_xmp_pass(chunks: &Vec<(Vec<char>, Vec<char>)>, start: Fields) -> (r: Fields)
    ensures
        r@ == xmp_pass(pairs_view(chunks@), 0, start@),
{
    let ghost cs = pairs_view(chunks@);
    let key = chars_of("XML:com.adobe.xmp");
    let mut out = start;
    let mut i: usize = 0;
    while i < chunks.len()
        invariant
            i <= chunks@.len(),
            cs == pairs_view(chunks@),
            key@ == "XML:com.adobe.xmp"@,
            xmp_pass(cs, 0, start@) == xmp_pass(cs, i as int, out@),
        decreases chunks@.len() - i,
    {
        let pair = &chunks[i];
        proof {
            assert(cs[i as int] == (pair.0@, pair.1@));
        }
        if eq_chars(pair.0.as_slice(), key.as_slice()) || looks_like_xml_chars(pair.1.as_slice()) {
            out = merge_fields(out, parse_xmp(pair.1.as_slice()));
        }
        i = i + 1;
    }
    out
}

/// A `String` for each present character vector.
fn opt_string_of(o: Option<Vec<char>>) -> (r: Option<String>)
    ensures
        opt_string(r) == opt_chars(o),
{
    match o {
        Some(v) => Some(string_from_chars(v.as_slice())),
        None => None,
    }
}

/// Parse VRChat metadata out of PNG `bytes`. `file_name` is used only as a
/// fallback source for the capture date (VRChat encodes it in the filename).
/// Returns `None` for non-PNG, non-VRChat, or unparseable input.
pub fn parse_png(bytes: &[u8], file_name: &str) -> (r: Option<VrcMetadata>)
    ensures
        match r {
            Some(m) => spec_parse_png(bytes@, file_name@) matches Some(f) && shows(m, f),
            None => spec_parse_png(bytes@, file_name@) is None,
        },
{
    let chunks = read_text_chunks(bytes);
    let first = run_description_pass(&chunks);
    let out = run_xmp_pass(&chunks, first);
    if !out.is_vrchat() {
        return None;
    }
    let captured = match out.captured {
        Some(c) => Some(c),
        None => date_from_filename_chars(chars_of(file_name).as_slice()),
    };
    Some(
        VrcMetadata {
            world_name: opt_string_of(out.world),
            author_name: opt_string_of(out.author),
            captured_at: opt_string_of(captured),
            source_format: format_label(out.format),
        },
    )
}

// ---------------------------------------------------------------------------
// Laws
// ---------------------------------------------------------------------------

/// Input that does not open with the PNG signature never yields metadata.
pub proof fn non_png_yields_nothing(bytes: Seq<u8>, file_name: Seq<char>)
    requires
        bytes.len() < 8 || bytes.take(8) != png_signature(),
    ensures
        spec_parse_png(bytes, file_name) is None,
{
    let chunks = text_chunks(bytes);
    assert(chunks.len() == 0);
    assert(description_pass(chunks, 0, no_fields()) == no_fields());
    assert(xmp_pass(chunks, 0, no_fields()) == no_fields());
}

/// Merging is first-writer-wins: a filled field is never replaced, and the
/// format is fixed once an identifying field is present.
pub proof fn merge_keeps_filled_fields(out: FieldsSpec, f: FieldsSpec)
    ensures
        out.world is Some ==> merge(out, f).world == out.world,
        out.author is Some ==> merge(out, f).author == out.author,
        out.captured is Some ==> merge(out, f).captured == out.captured,
        is_vrchat(out) ==> merge(out, f).format == out.format,
        is_vrchat(out) ==> is_vrchat(merge(out, f)),
{
}

/// A field filled by merging is the trimmed, non-empty value it came from.
pub proof fn merge_fills_with_trimmed_values(out: FieldsSpec, f: FieldsSpec)
    ensures
        out.world is None ==> merge(out, f).world == match f.world {
            Some(v) => nonempty(trim(v)),
            None => None,
        },
        out.author is None ==> merge(out, f).author == match f.author {
            Some(v) => nonempty(trim(v)),
            None => None,
        },
        out.captured is None ==> merge(out, f).captured == match f.captured {
            Some(v) => nonempty(trim(v)),
            None => None,
        },
{
}

/// The XMP pass only fills gaps: whatever is already present survives it.
pub proof fn xmp_pass_keeps_filled_fields(chunks: Seq<(Seq<char>, Seq<char>)>, i: int, out: FieldsSpec)
    requires
        0 <= i,
    ensures
        out.world is Some ==> xmp_pass(chunks, i, out).world == out.world,
        out.author is Some ==> xmp_pass(chunks, i, out).author == out.author,
        out.captured is Some ==> xmp_pass(chunks, i, out).captured == out.captured,
        is_vrchat(out) ==> xmp_pass(chunks, i, out).format == out.format,
        is_vrchat(out) ==> is_vrchat(xmp_pass(chunks, i, out)),
    decreases chunks.len() - i,
{
    if i < chunks.len() {
        let next = if chunks[i].0 == "XML:com.adobe.xmp"@ || looks_like_xml(chunks[i].1) {
            merge(out, spec_parse_xmp(chunks[i].1))
        } else {
            out
        };
        merge_keeps_filled_fields(out, spec_parse_xmp(chunks[i].1));
        xmp_pass_keeps_filled_fields(chunks, i + 1, next);
    }
}

/// Fields recovered from the `Description` record (VRCX JSON or the line
/// form) take precedence: XMP never overrides them, and a record that names a
/// world or an author makes the image a VRChat image reported in the record's
/// format.
pub proof fn description_record_takes_precedence(bytes: Seq<u8>, file_name: Seq<char>)
    ensures
        ({
            let chunks = text_chunks(bytes);
            let d = description_pass(chunks, 0, no_fields());
            &&& d.world is Some ==> (spec_parse_png(bytes, file_name) matches Some(f) && f.world
                == d.world)
            &&& d.author is Some ==> (spec_parse_png(bytes, file_name) matches Some(f) && f.author
                == d.author)
            &&& is_vrchat(d) ==> (spec_parse_png(bytes, file_name) matches Some(f) && f.format
                == d.format)
        }),
{
    let chunks = text_chunks(bytes);
    let d = description_pass(chunks, 0, no_fields());
    xmp_pass_keeps_filled_fields(chunks, 0, d);
}

/// Reported metadata identifies a VRChat image, every reported field is
/// non-empty, and the capture date comes from the file name only when no
/// chunk supplied one.
pub proof fn reported_metadata_is_meaningful(bytes: Seq<u8>, file_name: Seq<char>)
    ensures
        spec_parse_png(bytes, file_name) matches Some(f) ==> {
            &&& is_vrchat(f)
            &&& f.world matches Some(w) ==> w.len() > 0
            &&& f.author matches Some(a) ==> a.len() > 0
            &&& f.captured matches Some(c) ==> c.len() > 0
            &&& f.captured == (if gathered(bytes).captured is Some {
                gathered(bytes).captured
            } else {
                date_from_filename(file_name)
            })
        },
{
    let chunks = text_chunks(bytes);
    lemma_fields_nonempty_description(chunks, 0);
    lemma_fields_nonempty_xmp(chunks, 0, description_pass(chunks, 0, no_fields()));
    if let Some(f) = spec_parse_png(bytes, file_name) {
        if gathered(bytes).captured is None {
            if let Some(c) = date_from_filename(file_name) {
                assert(c.len() == 19);
            }
        }
    }
}

/// Every field present in `f` is non-empty.
pub open spec fn fields_nonempty(f: FieldsSpec) -> bool {
    &&& f.world matches Some(w) ==> w.len() > 0
    &&& f.author matches Some(a) ==> a.len() > 0
    &&& f.captured matches Some(c) ==> c.len() > 0
}

/// Merging keeps fields non-empty.
proof fn lemma_merge_nonempty(out: FieldsSpec, f: FieldsSpec)
    requires
        fields_nonempty(out),
    ensures
        fields_nonempty(merge(out, f)),
{
}

/// The description pass yields non-empty fields.
proof fn lemma_fields_nonempty_description(chunks: Seq<(Seq<char>, Seq<char>)>, i: int)
    requires
        0 <= i,
    ensures
        fields_nonempty(description_pass(chunks, i, no_fields())),
    decreases chunks.len() - i,
{
    if i < chunks.len() {
        if chunks[i].0 != "Description"@ {
            lemma_fields_nonempty_description(chunks, i + 1);
        } else {
            match spec_parse_json(chunks[i].1) {
                Some(f) => lemma_merge_nonempty(no_fields(), f),
                None => match spec_parse_line(chunks[i].1) {
                    Some(f) => lemma_merge_nonempty(no_fields(), f),
                    None => lemma_fields_nonempty_description(chunks, i + 1),
                },
            }
        }
    }
}

/// The XMP pass keeps fields non-empty.
proof fn lemma_fields_nonempty_xmp(chunks: Seq<(Seq<char>, Seq<char>)>, i: int, out: FieldsSpec)
    requires
        0 <= i,
        fields_nonempty(out),
    ensures
        fields_nonempty(xmp_pass(chunks, i, out)),
    decreases chunks.len() - i,
{
    if i < chunks.len() {
        let next = if chunks[i].0 == "XML:com.adobe.xmp"@ || looks_like_xml(chunks[i].1) {
            merge(out, spec_parse_xmp(chunks[i].1))
        } else {
            out
        };
        lemma_merge_nonempty(out, spec_parse_xmp(chunks[i].1));
        lemma_fields_nonempty_xmp(chunks, i + 1, next);
    }
}

} // verus!
