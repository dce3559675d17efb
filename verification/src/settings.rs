//! Decisions of the settings store: naming the managed watermark copies and
//! pruning persisted paths that have gone missing.
//!
//! A logo is copied into the app's `watermarks/` directory under a name made
//! from a hash of its bytes, so re-importing the same logo reuses one file.
//! Hashing, the file system and the settings file stay with the application.

use vstd::prelude::*;

use crate::text::{
    hex16_chars, hex_digits, lemma_hex_digits_injective, lemma_hex_digits_len, pow16,
    string_from_chars,
};

verus! {

/// `<16 hex digits of id>.<ext>`, with `bin` standing in for an empty `ext`.
pub open spec fn spec_managed_file_name(id: u64, ext: Seq<char>) -> Seq<char> {
    hex_digits(id as nat, 16) + "."@ + (if ext.len() == 0 {
        "bin"@
    } else {
        ext
    })
}

/// File name of the managed copy of a watermark whose bytes hash to `id`.
pub fn managed_file_name(id: u64, ext: &str) -> (r: String)
    ensures
        r@ == spec_managed_file_name(id, ext@),
{
    let mut name = string_from_chars(hex16_chars(id).as_slice());
    name.append(".");
    if ext.is_empty() {
        name.append("bin");
    } else {
        name.append(ext);
    }
    name
}

/// The paths a settings file persists, which may have gone missing since.
pub struct PersistedPaths {
    /// The managed copy of the last watermark.
    pub watermark_path: Option<String>,
    /// The last chosen output directory.
    pub output_dir: Option<String>,
}

/// A persisted path that is set but no longer found as what it should be.
pub open spec fn is_stale(path: Option<String>, still_there: bool) -> bool {
    path is Some && !still_there
}

/// Drop persisted paths that no longer exist: the watermark unless it is
/// still a file, the output directory unless it is still a directory. The
/// flag tells whether anything was dropped, so that the settings are saved
/// again.
pub fn prune_paths(paths: PersistedPaths, watermark_is_file: bool, output_is_dir: bool) -> (r: (
    PersistedPaths,
    bool,
))
    ensures
        r.0.watermark_path == (if is_stale(paths.watermark_path, watermark_is_file) {
            None
        } else {
            paths.watermark_path
        }),
        r.0.output_dir == (if is_stale(paths.output_dir, output_is_dir) {
            None
        } else {
            paths.output_dir
        }),
        r.1 == (is_stale(paths.watermark_path, watermark_is_file) || is_stale(
            paths.output_dir,
            output_is_dir,
        )),
{
    let mut changed = false;
    let watermark_path = if paths.watermark_path.is_some() && !watermark_is_file {
        changed = true;
        None
    } else {
        paths.watermark_path
    };
    let output_dir = if paths.output_dir.is_some() && !output_is_dir {
        changed = true;
        None
    } else {
        paths.output_dir
    };
    (PersistedPaths { watermark_path, output_dir }, changed)
}

/// Managed copies are named by content hash: two copies get the same file
/// name only when their hashes agree, so distinct hashes never overwrite each
/// other's copy, while the same logo maps to the same file every time.
pub proof fn managed_names_identify_hash(a: u64, ea: Seq<char>, b: u64, eb: Seq<char>)
    requires
        spec_managed_file_name(a, ea) == spec_managed_file_name(b, eb),
    ensures
        a == b,
{
    lemma_hex_digits_len(a as nat, 16);
    lemma_hex_digits_len(b as nat, 16);
    let na = spec_managed_file_name(a, ea);
    let nb = spec_managed_file_name(b, eb);
    assert(na.subrange(0, 16) =~= hex_digits(a as nat, 16));
    assert(nb.subrange(0, 16) =~= hex_digits(b as nat, 16));
    lemma_hex_digits_injective(a as nat, b as nat, 16);
    assert(pow16(16) == 0x1_0000_0000_0000_0000) by {
        reveal_with_fuel(pow16, 17);
    }
}

} // verus!
