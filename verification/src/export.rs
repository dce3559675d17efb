//! Naming rules for exported files.
//!
//! An export writes `<out_dir>/<stem><suffix><tag>.png`, where the suffix is
//! user-editable and the tag tells the watermarked and clean versions apart
//! when both are written.

use vstd::prelude::*;

use crate::metadata::{
    chunks_fit, container_blocks, crc_fn, extract_from_bytes, finalize_png, finalized, meta_blocks, png_file_bytes,
    png_parse, Metadata,
};
use crate::paths::{
    ext_of, ext_reading, extension_lower, has_drive, is_sep, lemma_stem_reading, net_prefix,
    ends_with, joined_after, may_replace, opt_view, path_file_stem, path_join, sep_free,
    stem_reading, verbatim,
};
use crate::preview::{encode_png, encoded_png};
use crate::watermark::RgbaImage;
use crate::text::{chars_of, contains, find_char, find_chars, lower_seq, string_from_chars};

verus! {

/// The suffix could escape the output directory: it holds `/`, `\` or `..`.
pub open spec fn suffix_escapes(suffix: Seq<char>) -> bool {
    suffix.contains('/') || suffix.contains('\\') || contains(suffix, ".."@)
}

/// The message given for a rejected suffix.
pub open spec fn suffix_error() -> Seq<char> {
    "output suffix must not contain path separators or '..'"@
}

/// Reject output suffixes that contain path separators or `..`, which would let
/// the concatenated file name escape the output directory.
pub fn validate_suffix(suffix: &str) -> (r: Result<(), String>)
    ensures
        r is Ok <==> !suffix_escapes(suffix@),
        r matches Err(e) ==> e@ == suffix_error(),
{
    let s = chars_of(suffix);
    let slash = find_char(s.as_slice(), '/', 0);
    let backslash = find_char(s.as_slice(), '\\', 0);
    let dots = find_chars(s.as_slice(), chars_of("..").as_slice());
    proof {
        crate::text::lemma_find_char_from(s@, '/', 0);
        crate::text::lemma_find_char_from(s@, '\\', 0);
        if s@.contains('/') {
            let k = choose|k: int| 0 <= k < s@.len() && s@[k] == '/';
            assert(s@[k] == '/');
        }
        if s@.contains('\\') {
            let k = choose|k: int| 0 <= k < s@.len() && s@[k] == '\\';
            assert(s@[k] == '\\');
        }
    }
    if slash.is_some() || backslash.is_some() || dots.is_some() {
        return Err(String::from_str("output suffix must not contain path separators or '..'"));
    }
    Ok(())
}

/// The tags that tell the two exported versions apart: `(_watermarked, _clean)`
/// when the clean copy is written too, none otherwise.
pub open spec fn spec_export_tags(export_clean: bool) -> (Seq<char>, Seq<char>) {
    if export_clean {
        ("_watermarked"@, "_clean"@)
    } else {
        (""@, ""@)
    }
}

/// Type tags for the watermarked and the clean output.
pub fn export_tags(export_clean: bool) -> (r: (&'static str, &'static str))
    ensures
        (r.0@, r.1@) == spec_export_tags(export_clean),
{
    if export_clean {
        ("_watermarked", "_clean")
    } else {
        ("", "")
    }
}

/// `<stem><suffix><tag>.png` for a stem.
pub open spec fn file_name_for(stem: Seq<char>, suffix: Seq<char>, tag: Seq<char>) -> Seq<char> {
    stem + suffix + tag + ".png"@
}

/// The output file name for a source named `name` in one reading of the
/// name: its stem (or `image` when it has none), then `suffix`, `tag` and
/// `.png`.
pub open spec fn output_name(name: Seq<char>, suffix: Seq<char>, tag: Seq<char>, win: bool) -> Seq<
    char,
> {
    file_name_for(
        match stem_reading(name, win) {
            Some(st) => st,
            None => "image"@,
        },
        suffix,
        tag,
    )
}

/// `f` is an output name that the Windows reading gives for `name`: the
/// exact one for names without a network prefix, and for network names
/// (which Windows splits by rules left unstated) one whose stem holds no
/// separator.
pub open spec fn windows_output_name(name: Seq<char>, suffix: Seq<char>, tag: Seq<char>, f: Seq<char>) -> bool {
    ||| !net_prefix(name) && f == output_name(name, suffix, tag, true)
    ||| net_prefix(name) && !verbatim(name) && exists|st: Seq<char>|
        sep_free(st) && f == file_name_for(st, suffix, tag)
}

/// `f` is an output name for `name` in the Unix reading or the Windows one.
pub open spec fn output_name_of(name: Seq<char>, suffix: Seq<char>, tag: Seq<char>, f: Seq<char>) -> bool {
    f == output_name(name, suffix, tag, false) || windows_output_name(name, suffix, tag, f)
}

/// The output file name for a source named `name`: the stem of its final
/// component (or `image` when it has none), then `suffix`, `tag` and `.png`.
pub fn output_file_name(name: &str, suffix: &str, tag: &str) -> (r: String)
    ensures
        !verbatim(name@) ==> output_name_of(name@, suffix@, tag@, r@),
{
    let found = path_file_stem(name);
    let ghost seen = opt_view(found);
    let stem = match found {
        Some(x) => x,
        None => chars_of("image"),
    };
    proof {
        reveal_strlit("image");
        assert(sep_free("image"@)) by {
            if "image"@.contains('/') || "image"@.contains('\\') {
                let i = choose|i: int|
                    0 <= i < "image"@.len() && ("image"@[i] == '/' || "image"@[i] == '\\');
            }
        }
    }
    let mut out = string_from_chars(stem.as_slice());
    out.append(suffix);
    out.append(tag);
    out.append(".png");
    proof {
        assert(out@ =~= file_name_for(stem@, suffix@, tag@));
        if net_prefix(name@) && !verbatim(name@) && seen != stem_reading(name@, false) {
            assert(sep_free(stem@) && out@ == file_name_for(stem@, suffix@, tag@));
        }
    }
    out
}

/// Build `<out_dir>/<stem><suffix><tag>.png` from a source file name. `tag`
/// is an export-type marker (e.g. `_watermarked`) used only when both versions
/// are written. The result extends `out_dir` with an output name of `name`
/// (see [`accepted_suffix_stays_in_dir`] for why it stays in `out_dir`).
pub fn output_path(name: &str, out_dir: &str, suffix: &str, tag: &str) -> (r: String)
    ensures
        !verbatim(name@) && !verbatim(out_dir@) ==> exists|f: Seq<char>|
            #![trigger output_name_of(name@, suffix@, tag@, f)]
            output_name_of(name@, suffix@, tag@, f) && (joined_after(out_dir@, f, r@) || (may_replace(
                f,
            ) && ends_with(r@, f))),
{
    let file = output_file_name(name, suffix, tag);
    let r = path_join(out_dir, file.as_str());
    proof {
        if !verbatim(name@) && !verbatim(out_dir@) {
            assert(output_name_of(name@, suffix@, tag@, file@) && (joined_after(out_dir@, file@, r@) || (
            may_replace(file@) && ends_with(r@, file@))));
        }
    }
    r
}

/// What an export carries, as `(metadata, tag_software)`: with
/// `strip_metadata` nothing (no transplanted ICC/EXIF and no `Software` tag);
/// otherwise the source's metadata when it has any, and the `Software` tag.
pub fn export_metadata(strip_metadata: bool, source: Metadata) -> (r: (Option<Metadata>, bool))
    ensures
        r.1 == !strip_metadata,
        r.0 is Some <==> !strip_metadata && !(source.icc is None && source.exif is None),
        r.0 matches Some(m) ==> m.blocks() == source.blocks(),
{
    let tag_software = !strip_metadata;
    if strip_metadata || source.is_empty() {
        (None, tag_software)
    } else {
        (Some(source), tag_software)
    }
}

/// The message for a destination that already exists.
pub open spec fn exists_error(dest: Seq<char>) -> Seq<char> {
    "output already exists: "@ + dest
}

/// A destination may be written when it does not exist yet or overwriting is
/// allowed; otherwise the export of that item fails.
pub fn check_destination(dest_exists: bool, overwrite: bool, dest: &str) -> (r: Result<(), String>)
    ensures
        r is Ok <==> (!dest_exists || overwrite),
        r matches Err(e) ==> e@ == exists_error(dest@),
{
    if dest_exists && !overwrite {
        let mut msg = String::from_str("output already exists: ");
        msg.append(dest);
        return Err(msg);
    }
    Ok(())
}

/// Both destinations of an item are checked before either is written: the
/// watermarked one first, then the clean one when it is written too. The
/// first that already exists without overwriting allowed fails the item.
pub fn check_destinations(
    dest: &str,
    dest_exists: bool,
    clean: Option<&str>,
    clean_exists: bool,
    overwrite: bool,
) -> (r: Result<(), String>)
    ensures
        r is Ok <==> overwrite || (!dest_exists && (clean is None || !clean_exists)),
        r matches Err(e) ==> e@ == exists_error(if dest_exists {
            dest@
        } else {
            clean->0@
        }),
{
    match check_destination(dest_exists, overwrite, dest) {
        Err(e) => return Err(e),
        Ok(()) => {},
    }
    match clean {
        Some(c) => check_destination(clean_exists, overwrite, c),
        None => Ok(()),
    }
}

/// The source metadata of an in-memory image, read by the container parser
/// that its name's extension picks.
pub fn bytes_metadata(bytes: &[u8], name: &str) -> (r: Metadata)
    ensures
        !net_prefix(name@) ==> r.blocks() == container_blocks(
            bytes@,
            lower_seq(extension_lower(ext_reading(name@, false))),
        ) || r.blocks() == container_blocks(bytes@, lower_seq(extension_lower(ext_reading(name@, true)))),
{
    let ext = ext_of(name);
    extract_from_bytes(bytes, ext.as_str())
}

/// What is written for a PNG encoding `e`: the finalized file when
/// finalizing succeeds, `e` itself otherwise.
pub open spec fn written_bytes(
    e: Seq<u8>,
    meta: Option<(Option<Seq<u8>>, Option<Seq<u8>>)>,
    tag_software: bool,
) -> Seq<u8> {
    match png_parse(e) {
        Some(cs) => if chunks_fit(finalized(cs, meta, tag_software)) {
            png_file_bytes(finalized(cs, meta, tag_software), crc_fn())
        } else {
            e
        },
        None => e,
    }
}

/// The bytes written for an exported raster: its PNG encoding, with `meta`
/// transplanted and the `Software` tag recorded when `tag_software` is set.
/// When that finalizing step fails the plain encoding is written instead.
pub fn export_png_bytes(pixels: &RgbaImage, meta: Option<&Metadata>, tag_software: bool) -> (r: Result<
    Vec<u8>,
    image::ImageError,
>)
    ensures
        match r {
            Ok(v) => encoded_png(pixels.view()) matches Some(e) && v@ == written_bytes(
                e,
                meta_blocks(meta),
                tag_software,
            ),
            Err(_) => encoded_png(pixels.view()) is None,
        },
{
    let png = match encode_png(pixels) {
        Ok(b) => b,
        Err(e) => return Err(e),
    };
    match finalize_png(png.as_slice(), meta, tag_software) {
        Ok(v) => Ok(v),
        Err(_) => Ok(png),
    }
}

/// Counts reported when a batch finishes.
pub struct BatchSummary {
    pub total: usize,
    pub succeeded: usize,
    pub failed: usize,
}

/// The summary of a batch of `total` items of which `succeeded` succeeded.
pub fn summarize(total: usize, succeeded: usize) -> (r: BatchSummary)
    requires
        succeeded <= total,
    ensures
        r.total == total,
        r.succeeded == succeeded,
        r.failed == total - succeeded,
{
    BatchSummary { total, succeeded, failed: total - succeeded }
}

/// A character of a concatenation comes from one of its parts.
proof fn lemma_concat_contains(a: Seq<char>, b: Seq<char>, c: char)
    ensures
        (a + b).contains(c) ==> a.contains(c) || b.contains(c),
{
    if (a + b).contains(c) {
        let i = choose|i: int| 0 <= i < (a + b).len() && (a + b)[i] == c;
        if i < a.len() {
            assert(a[i] == c);
        } else {
            assert(b[i - a.len()] == c);
        }
    }
}

/// An output name holds none of the characters that neither the stem, the
/// suffix nor the tag holds.
proof fn lemma_output_name_chars(
    name: Seq<char>,
    suffix: Seq<char>,
    tag: Seq<char>,
    win: bool,
    c: char,
)
    requires
        is_sep(c, win),
        !suffix.contains(c),
        !tag.contains(c),
    ensures
        !output_name(name, suffix, tag, win).contains(c),
{
    reveal_strlit("image");
    reveal_strlit(".png");
    lemma_stem_reading(name, win, c);
    let stem = match stem_reading(name, win) {
        Some(st) => st,
        None => "image"@,
    };
    assert(!stem.contains(c)) by {
        if stem_reading(name, win) is None && stem.contains(c) {
            let i = choose|i: int| 0 <= i < stem.len() && stem[i] == c;
        }
    }
    assert(!".png"@.contains(c)) by {
        if ".png"@.contains(c) {
            let i = choose|i: int| 0 <= i < ".png"@.len() && ".png"@[i] == c;
        }
    }
    lemma_concat_contains(stem, suffix, c);
    lemma_concat_contains(stem + suffix, tag, c);
    lemma_concat_contains(stem + suffix + tag, ".png"@, c);
}

/// No source name or accepted suffix puts an export outside the output
/// directory. Take either export tag and any output name `f` that
/// [`output_path`] may extend the directory with. `f` holds no `/`, so on
/// Unix, where only `/` separates, extending `out_dir` with it names a file
/// directly in `out_dir`. Every name of the Windows reading holds no
/// separator at all, and unless it opens like a drive it does not replace
/// the directory either. Left out: verbatim names (under `\\?\` Windows keeps
/// `/` inside a component, so a stem can hold one), and Windows names that
/// open like a drive (such as the stem `b:c` of `C:b:c.jpg`, or a one-letter
/// stem followed by a suffix starting with `:`), which Windows joins by
/// replacing `out_dir`.
pub proof fn accepted_suffix_stays_in_dir(
    name: Seq<char>,
    suffix: Seq<char>,
    export_clean: bool,
    clean: bool,
    f: Seq<char>,
)
    requires
        !verbatim(name),
        !suffix_escapes(suffix),
        output_name_of(
            name,
            suffix,
            if clean {
                spec_export_tags(export_clean).1
            } else {
                spec_export_tags(export_clean).0
            },
            f,
        ),
    ensures
        f.len() > 0,
        !f.contains('/'),
        windows_output_name(
            name,
            suffix,
            if clean {
                spec_export_tags(export_clean).1
            } else {
                spec_export_tags(export_clean).0
            },
            f,
        ) ==> sep_free(f) && (!has_drive(f) ==> !may_replace(f)),
{
    reveal_strlit("_watermarked");
    reveal_strlit("_clean");
    reveal_strlit("");
    reveal_strlit(".png");
    let tags = spec_export_tags(export_clean);
    let tag = if clean {
        tags.1
    } else {
        tags.0
    };
    let ghost chars: Seq<char> = seq!['/', '\\'];
    assert forall|k: int| 0 <= k < 2 implies !tag.contains(#[trigger] chars[k]) by {
        let c = chars[k];
        if tag.contains(c) {
            let i = choose|i: int| 0 <= i < tag.len() && tag[i] == c;
        }
    }
    assert(chars[0] == '/');
    assert(chars[1] == '\\');
    assert(!".png"@.contains('/') && !".png"@.contains('\\')) by {
        if ".png"@.contains('/') || ".png"@.contains('\\') {
            let i = choose|i: int| 0 <= i < ".png"@.len() && (".png"@[i] == '/' || ".png"@[i] == '\\');
        }
    }
    assert(f.len() > 0) by {
        assert(f[f.len() - 1] == 'g');
    }
    if f == output_name(name, suffix, tag, false) {
        lemma_output_name_chars(name, suffix, tag, false, '/');
    }
    if windows_output_name(name, suffix, tag, f) {
        if !net_prefix(name) {
            lemma_output_name_chars(name, suffix, tag, true, '/');
            lemma_output_name_chars(name, suffix, tag, true, '\\');
        } else {
            let st = choose|st: Seq<char>| sep_free(st) && f == file_name_for(st, suffix, tag);
            lemma_concat_contains(st, suffix, '/');
            lemma_concat_contains(st + suffix, tag, '/');
            lemma_concat_contains(st + suffix + tag, ".png"@, '/');
            lemma_concat_contains(st, suffix, '\\');
            lemma_concat_contains(st + suffix, tag, '\\');
            lemma_concat_contains(st + suffix + tag, ".png"@, '\\');
        }
        assert(f.contains(f[0]));
    }
}

/// When both versions are written, the watermarked and the clean file names
/// share stem and suffix and still differ.
pub proof fn both_exports_have_distinct_names(stem: Seq<char>, suffix: Seq<char>)
    ensures
        ({
            let tags = spec_export_tags(true);
            file_name_for(stem, suffix, tags.0) != file_name_for(stem, suffix, tags.1)
        }),
{
    reveal_strlit("_watermarked");
    reveal_strlit("_clean");
    let tags = spec_export_tags(true);
    assert(file_name_for(stem, suffix, tags.0).len() != file_name_for(stem, suffix, tags.1).len());
}

} // verus!
