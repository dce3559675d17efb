//! File-name handling through `std::path::Path`.
//!
//! The standard library splits paths by the platform's rules: `/` separates
//! components everywhere, `\` too on Windows, where a leading `X:` is a drive
//! prefix. A path is modelled under both readings ([`file_name_reading`] with
//! `win` false or true), and the wrappers below state that the result is the
//! one of either reading. Paths that open with two separators (Windows
//! network, device and verbatim prefixes) get a weaker statement: the Unix
//! reading, or (outside verbatim prefixes) a result that holds no separator.

use vstd::prelude::*;

use crate::text::{lower_chars, lower_seq};

verus! {

/// Index of the last `.` in `f` at or before `j - 1`.
pub open spec fn last_dot_before(f: Seq<char>, j: int) -> Option<int>
    decreases j,
{
    if j <= 0 || j > f.len() {
        None
    } else if f[j - 1] == '.' {
        Some(j - 1)
    } else {
        last_dot_before(f, j - 1)
    }
}

/// A dot found before `j` lies within `f`, before `j`, and is a `.`.
pub proof fn lemma_last_dot_before(f: Seq<char>, j: int)
    ensures
        last_dot_before(f, j) matches Some(d) ==> 0 <= d < j && j <= f.len() && f[d] == '.',
    decreases j,
{
    if j > 0 && j <= f.len() && f[j - 1] != '.' {
        lemma_last_dot_before(f, j - 1);
    }
}

/// Index of the last `.` in `f`.
pub open spec fn last_dot(f: Seq<char>) -> Option<int> {
    last_dot_before(f, f.len() as int)
}

/// The extension of a file name (`Path::extension` on it): what follows the last `.`, unless
/// there is none or the only one opens the name.
pub open spec fn plain_extension(f: Seq<char>) -> Option<Seq<char>> {
    match last_dot(f) {
        Some(d) => if d > 0 {
            Some(f.skip(d + 1))
        } else {
            None
        },
        None => None,
    }
}

/// The stem of a file name (`Path::file_stem` on it): what precedes the last `.`, or the
/// whole name when there is no `.` or the only one opens the name.
pub open spec fn plain_stem(f: Seq<char>) -> Seq<char> {
    match last_dot(f) {
        Some(d) => if d > 0 {
            f.take(d)
        } else {
            f
        },
        None => f,
    }
}

/// The characters held by an optional vector.
pub open spec fn opt_view(o: Option<Vec<char>>) -> Option<Seq<char>> {
    match o {
        Some(v) => Some(v@),
        None => None,
    }
}

/// `c` separates path components: `/` in both readings, `\` too in the
/// Windows reading.
pub open spec fn is_sep(c: char, win: bool) -> bool {
    c == '/' || (win && c == '\\')
}

/// What follows the last separator of `p` (all of `p` when it has none).
pub open spec fn tail_segment(p: Seq<char>, win: bool) -> Seq<char>
    decreases p.len(),
{
    if p.len() == 0 {
        p
    } else if is_sep(p.last(), win) {
        Seq::empty()
    } else {
        tail_segment(p.drop_last(), win).push(p.last())
    }
}

/// The file name of `p` as `Path::file_name` reads it, component by
/// component: trailing separators and `.` components are passed over, and a
/// path ending in `..` or without a normal component has none.
pub open spec fn last_component(p: Seq<char>, win: bool) -> Option<Seq<char>>
    decreases p.len(),
{
    if p.len() == 0 {
        None
    } else if is_sep(p.last(), win) {
        last_component(p.drop_last(), win)
    } else if tail_segment(p, win) == seq!['.'] {
        last_component(p.drop_last(), win)
    } else if tail_segment(p, win) == seq!['.', '.'] {
        None
    } else {
        Some(tail_segment(p, win))
    }
}

/// A tail segment holds no separator of its reading and is never longer
/// than the path.
pub proof fn lemma_tail_segment(p: Seq<char>, win: bool)
    ensures
        tail_segment(p, win).len() <= p.len(),
        forall|c: char| tail_segment(p, win).contains(c) ==> !is_sep(c, win),
        p.len() > 0 && !is_sep(p.last(), win) ==> tail_segment(p, win).len() > 0,
    decreases p.len(),
{
    if p.len() > 0 && !is_sep(p.last(), win) {
        let q = p.drop_last();
        lemma_tail_segment(q, win);
        let t = tail_segment(q, win).push(p.last());
        assert forall|c: char| t.contains(c) implies !is_sep(c, win) by {
            let i = choose|i: int| 0 <= i < t.len() && t[i] == c;
            if i < t.len() - 1 {
                assert(tail_segment(q, win)[i] == c);
                assert(tail_segment(q, win).contains(c));
            }
        }
    }
}

/// A file name read from a path is non-empty and holds no separator of its
/// reading.
pub proof fn lemma_last_component(p: Seq<char>, win: bool)
    ensures
        last_component(p, win) matches Some(f) ==> f.len() > 0 && forall|c: char|
            f.contains(c) ==> !is_sep(c, win),
    decreases p.len(),
{
    if p.len() > 0 {
        lemma_tail_segment(p, win);
        if is_sep(p.last(), win) || tail_segment(p, win) == seq!['.'] {
            lemma_last_component(p.drop_last(), win);
        }
    }
}

/// A stem holds only characters of its file name.
pub proof fn lemma_stem_chars(f: Seq<char>, c: char)
    ensures
        plain_stem(f).contains(c) ==> f.contains(c),
{
    lemma_last_dot_before(f, f.len() as int);
    if plain_stem(f).contains(c) {
        let i = choose|i: int| 0 <= i < plain_stem(f).len() && plain_stem(f)[i] == c;
        assert(f[i] == c);
    }
}

/// A stem read from a path holds no separator of its reading.
pub proof fn lemma_stem_reading(p: Seq<char>, win: bool, c: char)
    requires
        is_sep(c, win),
    ensures
        stem_reading(p, win) matches Some(s) ==> !s.contains(c),
{
    let q = if win && has_drive(p) {
        p.skip(2)
    } else {
        p
    };
    lemma_last_component(q, win);
    if let Some(f) = last_component(q, win) {
        lemma_stem_chars(f, c);
    }
}

/// `p` opens with a Windows drive prefix: an ASCII letter and `:`.
pub open spec fn has_drive(p: Seq<char>) -> bool {
    p.len() >= 2 && p[1] == ':' && (('a' <= p[0] && p[0] <= 'z') || ('A' <= p[0] && p[0] <= 'Z'))
}

/// `p` opens with two separators, which Windows reads as a network, device
/// or verbatim prefix.
pub open spec fn net_prefix(p: Seq<char>) -> bool {
    p.len() >= 2 && is_sep(p[0], true) && is_sep(p[1], true)
}

/// The file name of `p` in one reading; the Windows reading first drops a
/// drive prefix.
pub open spec fn file_name_reading(p: Seq<char>, win: bool) -> Option<Seq<char>> {
    last_component(
        if win && has_drive(p) {
            p.skip(2)
        } else {
            p
        },
        win,
    )
}

/// The extension of `p` in one reading (`Path::extension`).
pub open spec fn ext_reading(p: Seq<char>, win: bool) -> Option<Seq<char>> {
    match file_name_reading(p, win) {
        Some(f) => plain_extension(f),
        None => None,
    }
}

/// The stem of `p` in one reading (`Path::file_stem`).
pub open spec fn stem_reading(p: Seq<char>, win: bool) -> Option<Seq<char>> {
    match file_name_reading(p, win) {
        Some(f) => Some(plain_stem(f)),
        None => None,
    }
}

/// `s` holds no separator of either reading.
pub open spec fn sep_free(s: Seq<char>) -> bool {
    !s.contains('/') && !s.contains('\\')
}

/// `Path::new(path).extension()`, as characters. Claimed of the standard
/// library: an extension holds no `.` and comes from a `.` of the path; for a
/// path that does not open with two separators it is the extension of one of
/// the two readings (the platform's); for one that does but has no verbatim
/// prefix, it is the Unix reading's or comes from a component split at both
/// separators. Under a verbatim prefix (`\\?\`) Windows splits at `\` only,
/// and that case is left unstated.
#[verifier::external_body]
pub(crate) fn path_extension(path: &str) -> (r: Option<Vec<char>>)
    ensures
        r matches Some(e) ==> !e@.contains('.') && path@.contains('.'),
        !net_prefix(path@) ==> opt_view(r) == ext_reading(path@, false) || opt_view(r)
            == ext_reading(path@, true),
        net_prefix(path@) && !verbatim(path@) ==> opt_view(r) == ext_reading(path@, false) || (
        r matches Some(e) ==> sep_free(e@)),
{
    std::path::Path::new(path).extension().and_then(|e| e.to_str()).map(|e| e.chars().collect())
}

/// `Path::new(path).file_stem()`, as characters. Claimed of the standard
/// library: for a path that does not open with two separators the stem is
/// that of one of the two readings (the platform's); for one that does but
/// has no verbatim prefix, it is the Unix reading's or comes from a
/// component split at both separators, so it holds neither. Verbatim paths
/// are left unstated, as for [`path_extension`].
#[verifier::external_body]
pub(crate) fn path_file_stem(path: &str) -> (r: Option<Vec<char>>)
    ensures
        !net_prefix(path@) ==> opt_view(r) == stem_reading(path@, false) || opt_view(r)
            == stem_reading(path@, true),
        net_prefix(path@) && !verbatim(path@) ==> opt_view(r) == stem_reading(path@, false) || (
        r matches Some(st) ==> sep_free(st@)),
{
    std::path::Path::new(path).file_stem().and_then(|e| e.to_str()).map(|e| e.chars().collect())
}

/// `p` may carry a Windows verbatim prefix (`\\?\`): Windows then splits it
/// at `\` only, and joining onto it rebuilds the path.
pub open spec fn verbatim(p: Seq<char>) -> bool {
    p.len() >= 3 && is_sep(p[0], true) && is_sep(p[1], true) && p[2] == '?'
}

/// `r` extends `dir` with `file`: `dir`, then nothing but separators, then
/// `file`.
pub open spec fn joined_after(dir: Seq<char>, file: Seq<char>, r: Seq<char>) -> bool {
    &&& r.len() >= dir.len() + file.len()
    &&& r.take(dir.len() as int) == dir
    &&& r.skip(r.len() - file.len()) == file
    &&& forall|i: int| dir.len() <= i < r.len() - file.len() ==> is_sep(#[trigger] r[i], true)
}

/// `r` ends with `file`.
pub open spec fn ends_with(r: Seq<char>, file: Seq<char>) -> bool {
    r.len() >= file.len() && r.skip(r.len() - file.len()) == file
}

/// `file` opens with a separator or a drive, and so may replace part or all
/// of the directory it is joined onto.
pub open spec fn may_replace(file: Seq<char>) -> bool {
    (file.len() > 0 && is_sep(file[0], true)) || has_drive(file)
}

/// `Path::new(dir).join(file)`, as a string. Claimed of the standard library
/// (`PathBuf::push`): a relative `file` extends `dir`; a `file` that is
/// absolute, rooted or prefixed replaces the directory or all but its
/// prefix, and the result then ends with `file`. Joins onto a verbatim
/// directory (which Windows rebuilds component by component) are left
/// unstated.
#[verifier::external_body]
pub(crate) fn path_join(dir: &str, file: &str) -> (r: String)
    ensures
        !verbatim(dir@) ==> joined_after(dir@, file@, r@) || (may_replace(file@) && ends_with(
            r@,
            file@,
        )),
{
    std::path::Path::new(dir).join(file).to_string_lossy().into_owned()
}

/// The lower-cased extension of a file name, or empty when it has none.
pub open spec fn extension_lower(e: Option<Seq<char>>) -> Seq<char> {
    match e {
        Some(x) => lower_seq(x),
        None => Seq::empty(),
    }
}

/// Lower-cased extension of `name`, or empty when it has none.
pub fn ext_of(name: &str) -> (r: String)
    ensures
        !net_prefix(name@) ==> r@ == extension_lower(ext_reading(name@, false)) || r@
            == extension_lower(ext_reading(name@, true)),
        !r@.contains('.'),
{
    let e = path_extension(name);
    let lowered = match &e {
        Some(x) => lower_chars(x.as_slice()),
        None => Vec::new(),
    };
    proof {
        if let Some(x) = e {
            assert forall|k: int| 0 <= k < lowered@.len() implies lowered@[k] != '.' by {
                assert(x@[k] != '.') by {
                    if x@[k] == '.' {
                        assert(x@.contains(x@[k]));
                    }
                }
            }
        }
    }
    crate::text::string_from_chars(lowered.as_slice())
}

} // verus!
