//! Character-sequence helpers with exact specifications.
//!
//! Text is handled as sequences of `char`s. Each executable helper is tied to
//! a spec function that states its result over `Seq<char>`; the helpers mirror
//! the `str` operations of the standard library that the parsers rely on
//! (`trim`, `find`, `split_once`, `replace`, ...).

use vstd::prelude::*;
use vstd::slice::slice_subrange;
use vstd::slice::slice_to_vec;
use vstd::std_specs::iter::IteratorSpec;

verus! {

// ---------------------------------------------------------------------------
// Whitespace and trimming
// ---------------------------------------------------------------------------

/// Unicode `White_Space` characters, as recognised by `char::is_whitespace`.
pub open spec fn is_ws(c: char) -> bool {
    let u = c as u32;
    ||| 0x09 <= u <= 0x0D
    ||| u == 0x20
    ||| u == 0x85
    ||| u == 0xA0
    ||| u == 0x1680
    ||| 0x2000 <= u <= 0x200A
    ||| u == 0x2028
    ||| u == 0x2029
    ||| u == 0x202F
    ||| u == 0x205F
    ||| u == 0x3000
}

/// Executable whitespace test.
pub fn char_is_ws(c: char) -> (r: bool)
    ensures
        r == is_ws(c),
{
    let u = c as u32;
    (0x09 <= u && u <= 0x0D) || u == 0x20 || u == 0x85 || u == 0xA0 || u == 0x1680 || (0x2000
        <= u && u <= 0x200A) || u == 0x2028 || u == 0x2029 || u == 0x202F || u == 0x205F || u
        == 0x3000
}

/// Index of the first non-whitespace character at or after `i` (or `s.len()`).
pub open spec fn skip_ws(s: Seq<char>, i: int) -> int
    decreases s.len() - i,
{
    if 0 <= i < s.len() && is_ws(s[i]) {
        skip_ws(s, i + 1)
    } else {
        i
    }
}

/// End of `s.take(j)` once trailing whitespace is removed.
pub open spec fn back_ws(s: Seq<char>, j: int) -> int
    decreases j,
{
    if 0 < j <= s.len() && is_ws(s[j - 1]) {
        back_ws(s, j - 1)
    } else {
        j
    }
}

/// `s` without leading whitespace (`str::trim_start`).
pub open spec fn trim_start(s: Seq<char>) -> Seq<char> {
    s.subrange(skip_ws(s, 0), s.len() as int)
}

/// `s` without trailing whitespace (`str::trim_end`).
pub open spec fn trim_end(s: Seq<char>) -> Seq<char> {
    s.subrange(0, back_ws(s, s.len() as int))
}

/// `s` without leading and trailing whitespace (`str::trim`).
pub open spec fn trim(s: Seq<char>) -> Seq<char> {
    trim_end(trim_start(s))
}

/// `skip_ws` stays within `[i, s.len()]` and lands on a non-whitespace character.
pub proof fn lemma_skip_ws(s: Seq<char>, i: int)
    requires
        0 <= i <= s.len(),
    ensures
        i <= skip_ws(s, i) <= s.len(),
        skip_ws(s, i) < s.len() ==> !is_ws(s[skip_ws(s, i)]),
        forall|k: int| i <= k < skip_ws(s, i) ==> is_ws(#[trigger] s[k]),
    decreases s.len() - i,
{
    if i < s.len() && is_ws(s[i]) {
        lemma_skip_ws(s, i + 1);
    }
}

/// `back_ws` stays within `[0, j]` and stops after a non-whitespace character.
pub proof fn lemma_back_ws(s: Seq<char>, j: int)
    requires
        0 <= j <= s.len(),
    ensures
        0 <= back_ws(s, j) <= j,
        back_ws(s, j) > 0 ==> !is_ws(s[back_ws(s, j) - 1]),
        forall|k: int| back_ws(s, j) <= k < j ==> is_ws(#[trigger] s[k]),
    decreases j,
{
    if 0 < j && is_ws(s[j - 1]) {
        lemma_back_ws(s, j - 1);
    }
}

/// Index of the first non-whitespace character of `s` at or after `from`.
pub fn skip_ws_from(s: &[char], from: usize) -> (r: usize)
    requires
        from <= s@.len(),
    ensures
        r as int == skip_ws(s@, from as int),
{
    let mut i = from;
    while i < s.len() && char_is_ws(s[i])
        invariant
            from <= i <= s@.len(),
            skip_ws(s@, i as int) == skip_ws(s@, from as int),
        decreases s@.len() - i,
    {
        i = i + 1;
    }
    i
}

/// Bounds `(a, b)` such that `s[a..b]` is `trim(s)`.
pub fn trim_bounds(s: &[char]) -> (r: (usize, usize))
    ensures
        r.0 <= r.1 <= s@.len(),
        s@.subrange(r.0 as int, r.1 as int) == trim(s@),
{
    let a = skip_ws_from(s, 0);
    proof {
        lemma_skip_ws(s@, 0);
    }
    let ghost t = trim_start(s@);
    let mut b = s.len();
    while b > a && char_is_ws(s[b - 1])
        invariant
            a <= b <= s@.len(),
            a as int == skip_ws(s@, 0),
            t == s@.subrange(a as int, s@.len() as int),
            back_ws(t, b - a) == back_ws(t, t.len() as int),
        decreases b,
    {
        assert(t[b - a - 1] == s@[b - 1]);
        b = b - 1;
    }
    proof {
        lemma_back_ws(t, t.len() as int);
        assert(back_ws(t, b - a) == b - a);
        assert(s@.subrange(a as int, b as int) =~= t.subrange(0, b - a));
    }
    (a, b)
}

/// `str::trim` over characters.
pub fn trim_chars(s: &[char]) -> (r: Vec<char>)
    ensures
        r@ == trim(s@),
{
    let (a, b) = trim_bounds(s);
    slice_to_vec(slice_subrange(s, a, b))
}

/// `str::trim_start` over characters.
pub fn trim_start_chars(s: &[char]) -> (r: Vec<char>)
    ensures
        r@ == trim_start(s@),
{
    let a = skip_ws_from(s, 0);
    proof {
        lemma_skip_ws(s@, 0);
    }
    slice_to_vec(slice_subrange(s, a, s.len()))
}

// ---------------------------------------------------------------------------
// Searching
// ---------------------------------------------------------------------------

/// `p` occurs in `s` starting at index `i`.
pub open spec fn occurs_at(s: Seq<char>, p: Seq<char>, i: int) -> bool {
    0 <= i && i + p.len() <= s.len() && s.subrange(i, i + p.len()) == p
}

/// First index `k >= i` at which `p` occurs in `s` (`str::find` from `i`).
pub open spec fn find_from(s: Seq<char>, p: Seq<char>, i: int) -> Option<int>
    decreases s.len() + 1 - i,
{
    if i < 0 || i + p.len() > s.len() {
        None
    } else if occurs_at(s, p, i) {
        Some(i)
    } else {
        find_from(s, p, i + 1)
    }
}

/// First occurrence of `p` in `s` (`str::find`).
pub open spec fn find(s: Seq<char>, p: Seq<char>) -> Option<int> {
    find_from(s, p, 0)
}

/// A found index is an occurrence, and no earlier index (from `i`) is one.
pub proof fn lemma_find_from(s: Seq<char>, p: Seq<char>, i: int)
    requires
        0 <= i,
    ensures
        find_from(s, p, i) matches Some(k) ==> i <= k && occurs_at(s, p, k) && forall|j: int|
            i <= j < k ==> !occurs_at(s, p, j),
        find_from(s, p, i) is None ==> forall|j: int| i <= j ==> !occurs_at(s, p, j),
    decreases s.len() + 1 - i,
{
    if i + p.len() > s.len() {
    } else if occurs_at(s, p, i) {
    } else {
        lemma_find_from(s, p, i + 1);
    }
}

/// Compare `s[i..i + p.len()]` with `p`.
pub fn matches_at(s: &[char], p: &[char], i: usize) -> (r: bool)
    ensures
        r == occurs_at(s@, p@, i as int),
{
    if i > s.len() || p.len() > s.len() - i {
        return false;
    }
    let mut k: usize = 0;
    while k < p.len()
        invariant
            i + p@.len() <= s@.len(),
            i + p.len() <= s.len(),
            k <= p@.len(),
            forall|j: int| 0 <= j < k ==> s@[i + j] == p@[j],
        decreases p@.len() - k,
    {
        if s[i + k] != p[k] {
            proof {
                assert(s@.subrange(i as int, i + p@.len())[k as int] != p@[k as int]);
            }
            return false;
        }
        k = k + 1;
    }
    proof {
        assert(s@.subrange(i as int, i + p@.len()) =~= p@);
    }
    true
}

/// `str::find` starting at `from`.
pub fn find_chars_from(s: &[char], p: &[char], from: usize) -> (r: Option<usize>)
    ensures
        match r {
            Some(k) => find_from(s@, p@, from as int) == Some(k as int),
            None => find_from(s@, p@, from as int) is None,
        },
{
    let mut i = from;
    loop
        invariant
            from <= i,
            find_from(s@, p@, i as int) == find_from(s@, p@, from as int),
        decreases s@.len() + 1 - i,
    {
        if i > s.len() || p.len() > s.len() - i {
            return None;
        }
        if matches_at(s, p, i) {
            return Some(i);
        }
        proof {
            if i == s.len() {
                assert(s@.subrange(i as int, i as int) =~= p@);
            }
        }
        i = i + 1;
    }
}

/// `str::find`.
pub fn find_chars(s: &[char], p: &[char]) -> (r: Option<usize>)
    ensures
        match r {
            Some(k) => find(s@, p@) == Some(k as int),
            None => find(s@, p@) is None,
        },
{
    find_chars_from(s, p, 0)
}

/// First index `k >= i` with `s[k] == c`.
pub open spec fn find_char_from(s: Seq<char>, c: char, i: int) -> Option<int>
    decreases s.len() - i,
{
    if i < 0 || i >= s.len() {
        None
    } else if s[i] == c {
        Some(i)
    } else {
        find_char_from(s, c, i + 1)
    }
}

/// Facts about `find_char_from`.
pub proof fn lemma_find_char_from(s: Seq<char>, c: char, i: int)
    requires
        0 <= i,
    ensures
        find_char_from(s, c, i) matches Some(k) ==> i <= k < s.len() && s[k] == c && forall|j: int|
            i <= j < k ==> s[j] != c,
        find_char_from(s, c, i) is None ==> forall|j: int| i <= j < s.len() ==> s[j] != c,
    decreases s.len() - i,
{
    if i < s.len() && s[i] != c {
        lemma_find_char_from(s, c, i + 1);
    }
}

/// First index at or after `from` holding `c`.
pub fn find_char(s: &[char], c: char, from: usize) -> (r: Option<usize>)
    ensures
        match r {
            Some(k) => find_char_from(s@, c, from as int) == Some(k as int),
            None => find_char_from(s@, c, from as int) is None,
        },
{
    let mut i = from;
    while i < s.len()
        invariant
            from <= i,
            find_char_from(s@, c, i as int) == find_char_from(s@, c, from as int),
        decreases s@.len() - i,
    {
        if s[i] == c {
            return Some(i);
        }
        i = i + 1;
    }
    None
}

/// `s` starts with `p` (`str::starts_with`).
pub open spec fn starts_with(s: Seq<char>, p: Seq<char>) -> bool {
    p.len() <= s.len() && s.take(p.len() as int) == p
}

/// Executable `starts_with`.
pub fn starts_with_chars(s: &[char], p: &[char]) -> (r: bool)
    ensures
        r == starts_with(s@, p@),
{
    let r = matches_at(s, p, 0);
    proof {
        assert(s@.take(p@.len() as int) =~= s@.subrange(0, p@.len() as int));
    }
    r
}

/// `s` contains `p` (`str::contains`).
pub open spec fn contains(s: Seq<char>, p: Seq<char>) -> bool {
    find(s, p) is Some
}

// ---------------------------------------------------------------------------
// Splitting
// ---------------------------------------------------------------------------

/// `str::split_once(c)`: the parts before and after the first `c`.
pub open spec fn split_once(s: Seq<char>, c: char) -> Option<(Seq<char>, Seq<char>)> {
    match find_char_from(s, c, 0) {
        Some(i) => Some((s.take(i), s.skip(i + 1))),
        None => None,
    }
}

/// Executable `split_once`.
pub fn split_once_chars(s: &[char], c: char) -> (r: Option<(Vec<char>, Vec<char>)>)
    ensures
        match r {
            Some(p) => split_once(s@, c) == Some((p.0@, p.1@)),
            None => split_once(s@, c) is None,
        },
{
    match find_char(s, c, 0) {
        Some(i) => {
            proof {
                lemma_find_char_from(s@, c, 0);
            }
            let n = s.len();
            assert(i < n);
            let a = slice_to_vec(slice_subrange(s, 0, i));
            let b = slice_to_vec(slice_subrange(s, i + 1, s.len()));
            proof {
                assert(a@ =~= s@.take(i as int));
                assert(b@ =~= s@.skip(i + 1));
            }
            Some((a, b))
        },
        None => None,
    }
}

/// `str::split(c)`: the pieces between occurrences of `c`.
pub open spec fn split(s: Seq<char>, c: char) -> Seq<Seq<char>>
    decreases s.len(),
{
    match find_char_from(s, c, 0) {
        Some(i) => {
            if 0 <= i < s.len() {
                seq![s.take(i)] + split(s.skip(i + 1), c)
            } else {
                seq![s]
            }
        },
        None => seq![s],
    }
}

/// The character view of a list of character vectors.
pub open spec fn seqs_view(v: Seq<Vec<char>>) -> Seq<Seq<char>> {
    v.map_values(|x: Vec<char>| x@)
}

/// Executable `split`.
pub fn split_chars(s: &[char], c: char) -> (r: Vec<Vec<char>>)
    ensures
        seqs_view(r@) == split(s@, c),
        r@.len() >= 1,
{
    let mut out: Vec<Vec<char>> = Vec::new();
    let mut start: usize = 0;
    assert(s@.skip(0) =~= s@);
    assert(seqs_view(out@) + split(s@, c) =~= split(s@, c));
    loop
        invariant
            start <= s@.len(),
            seqs_view(out@) + split(s@.skip(start as int), c) == split(s@, c),
        decreases s@.len() - start,
    {
        let ghost rest = s@.skip(start as int);
        let ghost before = out@;
        proof {
            lemma_find_char_shift(s@, c, start as int);
            lemma_find_char_from(rest, c, 0);
        }
        match find_char(s, c, start) {
            Some(i) => {
                let len = s.len();
                proof {
                    lemma_find_char_from(s@, c, start as int);
                }
                assert(i < len);
                let piece = slice_to_vec(slice_subrange(s, start, i));
                out.push(piece);
                proof {
                    assert(piece@ =~= rest.take(i - start));
                    assert(rest.skip(i - start + 1) =~= s@.skip(i + 1));
                    assert(split(rest, c) == seq![rest.take(i - start)] + split(rest.skip(i - start + 1), c));
                    assert(seqs_view(out@) =~= seqs_view(before).push(piece@));
                    assert(seqs_view(out@) + split(s@.skip(i + 1), c) =~= seqs_view(before) + split(rest, c));
                }
                start = i + 1;
            },
            None => {
                let piece = slice_to_vec(slice_subrange(s, start, s.len()));
                out.push(piece);
                proof {
                    assert(piece@ =~= rest);
                    assert(split(rest, c) == seq![rest]);
                    assert(seqs_view(out@) =~= seqs_view(before) + split(rest, c));
                }
                return out;
            },
        }
    }
}

/// `str::splitn(n + 1, c).nth(n)`: what follows the `n`-th occurrence of `c`.
pub open spec fn after_nth(s: Seq<char>, c: char, n: nat) -> Option<Seq<char>>
    decreases n,
{
    if n == 0 {
        Some(s)
    } else {
        match find_char_from(s, c, 0) {
            Some(i) => after_nth(s.skip(i + 1), c, (n - 1) as nat),
            None => None,
        }
    }
}

/// Executable `after_nth`.
pub fn after_nth_chars(s: &[char], c: char, n: usize) -> (r: Option<Vec<char>>)
    ensures
        match r {
            Some(v) => after_nth(s@, c, n as nat) == Some(v@),
            None => after_nth(s@, c, n as nat) is None,
        },
{
    let mut start: usize = 0;
    let mut k: usize = 0;
    assert(s@.skip(0) =~= s@);
    while k < n
        invariant
            k <= n,
            start <= s@.len(),
            after_nth(s@, c, n as nat) == after_nth(s@.skip(start as int), c, (n - k) as nat),
        decreases n - k,
    {
        let ghost rest = s@.skip(start as int);
        match find_char(s, c, start) {
            Some(i) => {
                proof {
                    lemma_find_char_from(s@, c, start as int);
                    lemma_find_char_from(rest, c, 0);
                    lemma_find_char_shift(s@, c, start as int);
                    assert(rest.skip(i - start + 1) =~= s@.skip(i + 1));
                }
                let len = s.len();
                assert(i < len);
                start = i + 1;
            },
            None => {
                proof {
                    lemma_find_char_shift(s@, c, start as int);
                }
                return None;
            },
        }
        k = k + 1;
    }
    Some(slice_to_vec(slice_subrange(s, start, s.len())))
}

/// Searching a suffix for `c` is searching the whole from the suffix's start.
pub proof fn lemma_find_char_shift(s: Seq<char>, c: char, start: int)
    requires
        0 <= start <= s.len(),
    ensures
        match find_char_from(s.skip(start), c, 0) {
            Some(j) => find_char_from(s, c, start) == Some(j + start),
            None => find_char_from(s, c, start) is None,
        },
{
    lemma_find_char_from(s.skip(start), c, 0);
    lemma_find_char_from(s, c, start);
    match find_char_from(s, c, start) {
        Some(k) => {
            assert(s.skip(start)[k - start] == c);
        },
        None => {
            if find_char_from(s.skip(start), c, 0) is Some {
                let j = find_char_from(s.skip(start), c, 0)->0;
                assert(s[j + start] == c);
            }
        },
    }
}

// ---------------------------------------------------------------------------
// Rewriting
// ---------------------------------------------------------------------------

/// `str::replace(p, t)`: every non-overlapping occurrence of `p`, scanned
/// from the left, replaced by `t`.
pub open spec fn replace(s: Seq<char>, p: Seq<char>, t: Seq<char>) -> Seq<char>
    decreases s.len(),
{
    if s.len() == 0 {
        s
    } else if p.len() > 0 && starts_with(s, p) {
        t + replace(s.skip(p.len() as int), p, t)
    } else {
        seq![s[0]] + replace(s.skip(1), p, t)
    }
}

/// Replacing a pattern whose first character does not occur leaves a
/// sequence unchanged.
pub proof fn lemma_replace_absent(s: Seq<char>, p: Seq<char>, t: Seq<char>)
    requires
        p.len() > 0,
        !s.contains(p[0]),
    ensures
        replace(s, p, t) == s,
    decreases s.len(),
{
    if s.len() > 0 {
        assert(s[0] != p[0]) by {
            assert(s.contains(s[0]));
        }
        assert(!starts_with(s, p)) by {
            if starts_with(s, p) {
                assert(s.take(p.len() as int)[0] == p[0]);
            }
        }
        let r = s.skip(1);
        assert(!r.contains(p[0])) by {
            if r.contains(p[0]) {
                let i = choose|i: int| 0 <= i < r.len() && r[i] == p[0];
                assert(s[i + 1] == p[0]);
            }
        }
        lemma_replace_absent(r, p, t);
        assert(seq![s[0]] + r =~= s);
    }
}

/// A prefix free of the pattern's first character passes through a
/// replacement unchanged.
pub proof fn lemma_replace_prefix(a: Seq<char>, b: Seq<char>, p: Seq<char>, t: Seq<char>)
    requires
        p.len() > 0,
        !a.contains(p[0]),
    ensures
        replace(a + b, p, t) == a + replace(b, p, t),
    decreases a.len(),
{
    if a.len() > 0 {
        let s = a + b;
        assert(s[0] == a[0]);
        assert(a[0] != p[0]) by {
            assert(a.contains(a[0]));
        }
        assert(!starts_with(s, p)) by {
            if starts_with(s, p) {
                assert(s.take(p.len() as int)[0] == p[0]);
            }
        }
        let r = a.skip(1);
        assert(!r.contains(p[0])) by {
            if r.contains(p[0]) {
                let i = choose|i: int| 0 <= i < r.len() && r[i] == p[0];
                assert(a[i + 1] == p[0]);
            }
        }
        assert(s.skip(1) =~= r + b);
        lemma_replace_prefix(r, b, p, t);
        assert(seq![a[0]] + r =~= a);
        assert(seq![a[0]] + (r + replace(b, p, t)) =~= a + replace(b, p, t));
    }
}

/// Executable `replace` (requires a non-empty pattern).
pub fn replace_chars(s: &[char], p: &[char], t: &[char]) -> (r: Vec<char>)
    requires
        p@.len() > 0,
    ensures
        r@ == replace(s@, p@, t@),
{
    let mut out: Vec<char> = Vec::new();
    let mut i: usize = 0;
    assert(s@.skip(0) =~= s@);
    assert(out@ + replace(s@, p@, t@) =~= replace(s@, p@, t@));
    while i < s.len()
        invariant
            i <= s@.len(),
            p@.len() > 0,
            out@ + replace(s@.skip(i as int), p@, t@) == replace(s@, p@, t@),
        decreases s@.len() - i,
    {
        let ghost rest = s@.skip(i as int);
        if matches_at(s, p, i) {
            proof {
                assert(rest.take(p@.len() as int) =~= s@.subrange(i as int, i + p@.len()));
                assert(rest.skip(p@.len() as int) =~= s@.skip(i + p@.len()));
            }
            let ghost before = out@;
            out.extend_from_slice(t);
            proof {
                assert(out@ =~= before + t@);
                assert(out@ + replace(s@.skip(i + p@.len()), p@, t@) =~= before + replace(rest, p@, t@));
            }
            i = i + p.len();
        } else {
            proof {
                assert(!starts_with(rest, p@)) by {
                    if starts_with(rest, p@) {
                        assert(rest.take(p@.len() as int) =~= s@.subrange(i as int, i + p@.len()));
                    }
                }
                assert(rest.skip(1) =~= s@.skip(i + 1));
            }
            let ghost before = out@;
            out.push(s[i]);
            proof {
                assert(out@ + replace(s@.skip(i + 1), p@, t@) =~= before + replace(rest, p@, t@));
            }
            i = i + 1;
        }
    }
    proof {
        assert(s@.skip(i as int) =~= Seq::<char>::empty());
        assert(out@ + Seq::<char>::empty() =~= out@);
    }
    out
}

/// `s` with its first `a` replaced by `b` (`str::replacen(a, b, 1)`).
pub open spec fn replace_first(s: Seq<char>, a: char, b: char) -> Seq<char> {
    match find_char_from(s, a, 0) {
        Some(i) => s.update(i, b),
        None => s,
    }
}

/// Every `a` in `s` replaced by `b`.
pub open spec fn map_char(s: Seq<char>, a: char, b: char) -> Seq<char> {
    Seq::new(s.len(), |i: int| if s[i] == a { b } else { s[i] })
}

/// First index at or after `i` whose character is one of `set`.
pub open spec fn find_any_from(s: Seq<char>, set: Seq<char>, i: int) -> Option<int>
    decreases s.len() - i,
{
    if i < 0 || i >= s.len() {
        None
    } else if set.contains(s[i]) {
        Some(i)
    } else {
        find_any_from(s, set, i + 1)
    }
}

/// Facts about `find_any_from`.
pub proof fn lemma_find_any_from(s: Seq<char>, set: Seq<char>, i: int)
    requires
        0 <= i,
    ensures
        find_any_from(s, set, i) matches Some(k) ==> i <= k < s.len(),
    decreases s.len() - i,
{
    if i < s.len() && !set.contains(s[i]) {
        lemma_find_any_from(s, set, i + 1);
    }
}

/// Executable `find_any_from` from the start.
pub fn find_any(s: &[char], set: &[char]) -> (r: Option<usize>)
    ensures
        match r {
            Some(k) => find_any_from(s@, set@, 0) == Some(k as int),
            None => find_any_from(s@, set@, 0) is None,
        },
{
    let mut i: usize = 0;
    while i < s.len()
        invariant
            find_any_from(s@, set@, i as int) == find_any_from(s@, set@, 0),
        decreases s@.len() - i,
    {
        let mut k: usize = 0;
        let mut hit = false;
        while k < set.len()
            invariant
                k <= set@.len(),
                i < s@.len(),
                hit == exists|j: int| 0 <= j < k && set@[j] == s@[i as int],
            decreases set@.len() - k,
        {
            if set[k] == s[i] {
                hit = true;
            }
            k = k + 1;
        }
        if hit {
            return Some(i);
        }
        proof {
            assert(!set@.contains(s@[i as int]));
        }
        i = i + 1;
    }
    None
}

/// ASCII lower-casing of one character (`char::to_ascii_lowercase`).
pub open spec fn lower(c: char) -> char {
    if 'A' <= c <= 'Z' {
        ((c as u32) + 32) as char
    } else {
        c
    }
}

/// ASCII lower-casing turns each capital letter `A`..`Z` into the small
/// letter 32 code points above it, and leaves every other character alone.
pub proof fn lower_is_ascii_lowercase(c: char)
    ensures
        'A' <= c <= 'Z' ==> lower(c) as u32 == c as u32 + 32 && 'a' <= lower(c) <= 'z',
        !('A' <= c <= 'Z') ==> lower(c) == c,
{
}

/// ASCII lower-casing of a sequence (`str::to_ascii_lowercase`).
pub open spec fn lower_seq(s: Seq<char>) -> Seq<char> {
    s.map_values(|c: char| lower(c))
}

/// Executable ASCII lower-casing of one character.
pub fn lower_char(c: char) -> (r: char)
    ensures
        r == lower(c),
{
    if 'A' <= c && c <= 'Z' {
        let u = (c as u32) + 32;
        char_from_ascii(u)
    } else {
        c
    }
}

/// The character with ASCII code `u`.
pub fn char_from_ascii(u: u32) -> (r: char)
    requires
        u < 128,
    ensures
        r == u as char,
{
    let b = u as u8;
    b as char
}

/// Executable `lower_seq`.
pub fn lower_chars(s: &[char]) -> (r: Vec<char>)
    ensures
        r@ == lower_seq(s@),
{
    let mut out: Vec<char> = Vec::new();
    let mut i: usize = 0;
    while i < s.len()
        invariant
            i <= s@.len(),
            out@ == lower_seq(s@.take(i as int)),
        decreases s@.len() - i,
    {
        out.push(lower_char(s[i]));
        proof {
            assert(s@.take(i + 1) =~= s@.take(i as int).push(s@[i as int]));
        }
        i = i + 1;
    }
    proof {
        assert(s@.take(i as int) =~= s@);
    }
    out
}

/// Equality of two character sequences.
pub fn eq_chars(a: &[char], b: &[char]) -> (r: bool)
    ensures
        r == (a@ == b@),
{
    if a.len() != b.len() {
        return false;
    }
    let r = matches_at(a, b, 0);
    proof {
        assert(a@.subrange(0, b@.len() as int) =~= a@);
    }
    r
}

// ---------------------------------------------------------------------------
// Numerals
// ---------------------------------------------------------------------------

/// The digit character for `d` in `0..16` (`0-9`, then lower-case `a-f`).
pub open spec fn digit_char(d: int) -> char {
    if d < 10 {
        (48 + d) as char
    } else {
        (87 + d) as char
    }
}

/// Executable [`digit_char`].
pub fn digit_char_of(d: u64) -> (r: char)
    requires
        d < 16,
    ensures
        r == digit_char(d as int),
{
    if d < 10 {
        char_from_ascii((48 + d) as u32)
    } else {
        char_from_ascii((87 + d) as u32)
    }
}

/// Decimal numeral of `v` without leading zeros (`u64`'s `Display`).
pub open spec fn decimal(v: nat) -> Seq<char>
    decreases v,
{
    if v < 10 {
        seq![digit_char(v as int)]
    } else {
        decimal(v / 10).push(digit_char((v % 10) as int))
    }
}

/// The last `n` hexadecimal digits of `v`, most significant first
/// (`{:0n$x}` for a `v` below `16^n`).
pub open spec fn hex_digits(v: nat, n: nat) -> Seq<char>
    decreases n,
{
    if n == 0 {
        Seq::empty()
    } else {
        hex_digits(v / 16, (n - 1) as nat).push(digit_char((v % 16) as int))
    }
}

/// Different digits have different characters.
pub proof fn lemma_digit_char_injective(a: int, b: int)
    requires
        0 <= a < 16,
        0 <= b < 16,
        digit_char(a) == digit_char(b),
    ensures
        a == b,
{
    let ca = if a < 10 { 48 + a } else { 87 + a };
    let cb = if b < 10 { 48 + b } else { 87 + b };
    assert(digit_char(a) as int == ca);
    assert(digit_char(b) as int == cb);
}

/// A decimal numeral has at least one digit.
pub proof fn lemma_decimal_len(v: nat)
    ensures
        decimal(v).len() >= 1,
    decreases v,
{
    if v >= 10 {
        lemma_decimal_len(v / 10);
    }
}

/// Different numbers have different decimal numerals.
pub proof fn lemma_decimal_injective(a: nat, b: nat)
    requires
        decimal(a) == decimal(b),
    ensures
        a == b,
    decreases a,
{
    lemma_decimal_len(a / 10);
    lemma_decimal_len(b / 10);
    if a < 10 && b < 10 {
        assert(decimal(a) == seq![digit_char(a as int)]);
        assert(decimal(b) == seq![digit_char(b as int)]);
        assert(decimal(a)[0] == digit_char(a as int));
        assert(decimal(b)[0] == digit_char(b as int));
        lemma_digit_char_injective(a as int, b as int);
    } else if a >= 10 && b >= 10 {
        let ca = digit_char((a % 10) as int);
        let cb = digit_char((b % 10) as int);
        assert(decimal(a) == decimal(a / 10).push(ca));
        assert(decimal(b) == decimal(b / 10).push(cb));
        assert(decimal(a).last() == ca);
        assert(decimal(b).last() == cb);
        lemma_digit_char_injective((a % 10) as int, (b % 10) as int);
        assert(decimal(a).drop_last() =~= decimal(a / 10));
        assert(decimal(b).drop_last() =~= decimal(b / 10));
        lemma_decimal_injective(a / 10, b / 10);
    } else if a < 10 {
        assert(decimal(a).len() == 1);
        assert(decimal(b) == decimal(b / 10).push(digit_char((b % 10) as int)));
    } else {
        assert(decimal(b).len() == 1);
        assert(decimal(a) == decimal(a / 10).push(digit_char((a % 10) as int)));
    }
}

/// `16^n`.
pub open spec fn pow16(n: nat) -> nat
    decreases n,
{
    if n == 0 {
        1
    } else {
        16 * pow16((n - 1) as nat)
    }
}

/// `hex_digits` has exactly `n` digits.
pub proof fn lemma_hex_digits_len(v: nat, n: nat)
    ensures
        hex_digits(v, n).len() == n,
    decreases n,
{
    if n > 0 {
        lemma_hex_digits_len(v / 16, (n - 1) as nat);
    }
}

/// Equal `n`-digit hexadecimal numerals come from numbers equal modulo `16^n`.
pub proof fn lemma_hex_digits_injective(a: nat, b: nat, n: nat)
    requires
        hex_digits(a, n) == hex_digits(b, n),
    ensures
        a % pow16(n) == b % pow16(n),
    decreases n,
{
    if n > 0 {
        let m = (n - 1) as nat;
        lemma_hex_digits_len(a / 16, m);
        lemma_hex_digits_len(b / 16, m);
        let ca = digit_char((a % 16) as int);
        let cb = digit_char((b % 16) as int);
        assert(hex_digits(a, n) == hex_digits(a / 16, m).push(ca));
        assert(hex_digits(b, n) == hex_digits(b / 16, m).push(cb));
        assert(hex_digits(a, n).last() == ca);
        assert(hex_digits(b, n).last() == cb);
        lemma_digit_char_injective((a % 16) as int, (b % 16) as int);
        assert(hex_digits(a, n).drop_last() =~= hex_digits(a / 16, m));
        assert(hex_digits(b, n).drop_last() =~= hex_digits(b / 16, m));
        lemma_hex_digits_injective(a / 16, b / 16, m);
        lemma_pow16_pos(m);
        vstd::arithmetic::div_mod::lemma_breakdown(a as int, 16, pow16(m) as int);
        vstd::arithmetic::div_mod::lemma_breakdown(b as int, 16, pow16(m) as int);
    }
}

/// `16^n` is positive.
pub proof fn lemma_pow16_pos(n: nat)
    ensures
        pow16(n) > 0,
    decreases n,
{
    if n > 0 {
        lemma_pow16_pos((n - 1) as nat);
    }
}

/// `r` reversed.
fn reversed(r: &Vec<char>) -> (out: Vec<char>)
    ensures
        out@ == r@.reverse(),
{
    let mut out: Vec<char> = Vec::new();
    let mut i = r.len();
    while i > 0
        invariant
            i <= r@.len(),
            out@.len() == r@.len() - i,
            forall|k: int| 0 <= k < out@.len() ==> out@[k] == r@[r@.len() - 1 - k],
        decreases i,
    {
        i = i - 1;
        out.push(r[i]);
    }
    proof {
        assert(out@ =~= r@.reverse());
    }
    out
}

/// Decimal digits of `v`.
#[verifier::spinoff_prover]
pub fn decimal_chars(v: u64) -> (r: Vec<char>)
    ensures
        r@ == decimal(v as nat),
{
    let mut rev: Vec<char> = Vec::new();
    let mut w = v;
    proof {
        assert(rev@.reverse() =~= Seq::<char>::empty());
        assert(decimal(v as nat) =~= decimal(w as nat) + rev@.reverse());
    }
    loop
        invariant
            decimal(v as nat) == decimal(w as nat) + rev@.reverse(),
        decreases w,
    {
        let d = w % 10;
        let ghost before = rev@;
        rev.push(digit_char_of(d));
        proof {
            assert(rev@.reverse() =~= seq![digit_char(d as int)] + before.reverse());
            if w >= 10 {
                assert(decimal(w as nat) == decimal((w / 10) as nat).push(digit_char(d as int)));
                assert(decimal(w as nat) + before.reverse() =~= decimal((w / 10) as nat)
                    + rev@.reverse());
            } else {
                assert(decimal(w as nat) == seq![digit_char(d as int)]);
                assert(decimal(w as nat) + before.reverse() =~= rev@.reverse());
            }
        }
        if w < 10 {
            return reversed(&rev);
        }
        w = w / 10;
    }
}

/// The 16 lower-case hexadecimal digits of `v`.
pub fn hex16_chars(v: u64) -> (r: Vec<char>)
    ensures
        r@ == hex_digits(v as nat, 16),
{
    let mut rev: Vec<char> = Vec::new();
    let mut w = v;
    let mut k: u64 = 0;
    proof {
        assert(rev@.reverse() =~= Seq::<char>::empty());
        assert(hex_digits(v as nat, 16) =~= hex_digits(w as nat, 16) + rev@.reverse());
    }
    while k < 16
        invariant
            k <= 16,
            hex_digits(v as nat, 16) == hex_digits(w as nat, (16 - k) as nat) + rev@.reverse(),
        decreases 16 - k,
    {
        let d = w % 16;
        let ghost before = rev@;
        rev.push(digit_char_of(d));
        proof {
            assert(rev@.reverse() =~= seq![digit_char(d as int)] + before.reverse());
            assert(hex_digits(w as nat, (16 - k) as nat) == hex_digits((w / 16) as nat, (15 - k) as nat).push(
                digit_char(d as int),
            ));
            assert(hex_digits(w as nat, (16 - k) as nat) + before.reverse() =~= hex_digits(
                (w / 16) as nat,
                (15 - k) as nat,
            ) + rev@.reverse());
        }
        w = w / 16;
        k = k + 1;
    }
    proof {
        assert(hex_digits(w as nat, 0) =~= Seq::<char>::empty());
        assert(hex_digits(v as nat, 16) =~= rev@.reverse());
    }
    reversed(&rev)
}

// ---------------------------------------------------------------------------
// Conversions
// ---------------------------------------------------------------------------

/// The characters of `s`.
pub fn chars_of(s: &str) -> (r: Vec<char>)
    ensures
        r@ == s@,
{
    broadcast use vstd::string::group_string_axioms;

    let mut out: Vec<char> = Vec::new();
    let mut it = s.chars();
    loop
        invariant
            it.obeys_prophetic_iter_laws(),
            out@ + it.remaining() == s@,
            it.decrease() is Some,
        decreases it.decrease()->0,
    {
        let ghost before = it.remaining();
        match it.next() {
            Some(c) => {
                out.push(c);
                proof {
                    assert(out@ + it.remaining() =~= s@);
                }
            },
            None => {
                proof {
                    assert(out@ =~= s@);
                }
                return out;
            },
        }
    }
}

/// `String` holding exactly the characters of `v` (`String::from_iter`).
#[verifier::external_body]
pub(crate) fn string_from_chars(v: &[char]) -> (s: String)
    ensures
        s@ == v@,
{
    v.iter().collect()
}

/// What `String::from_utf8_lossy` decodes a byte sequence to.
pub uninterp spec fn utf8_lossy(b: Seq<u8>) -> Seq<char>;

/// `String::from_utf8_lossy` on `b[start..end]`, as characters. The standard
/// library documents that valid UTF-8 decodes to exactly its characters;
/// for other input the replacement rules are left to the name `utf8_lossy`.
#[verifier::external_body]
fn utf8_lossy_chars(b: &[u8], start: usize, end: usize) -> (r: Vec<char>)
    requires
        start <= end <= b@.len(),
    ensures
        r@ == utf8_lossy(b@.subrange(start as int, end as int)),
        vstd::utf8::valid_utf8(b@.subrange(start as int, end as int)) ==> r@
            == vstd::utf8::decode_utf8(b@.subrange(start as int, end as int)),
{
    String::from_utf8_lossy(&b[start..end]).chars().collect()
}

/// The text of bytes decoded lossily: their characters when they are valid
/// UTF-8, what `String::from_utf8_lossy` gives otherwise.
pub open spec fn lossy_text(b: Seq<u8>) -> Seq<char> {
    if vstd::utf8::valid_utf8(b) {
        vstd::utf8::decode_utf8(b)
    } else {
        utf8_lossy(b)
    }
}

/// The characters of `b[start..end]`, decoded lossily.
pub(crate) fn lossy_chars(b: &[u8], start: usize, end: usize) -> (r: Vec<char>)
    requires
        start <= end <= b@.len(),
    ensures
        r@ == lossy_text(b@.subrange(start as int, end as int)),
{
    utf8_lossy_chars(b, start, end)
}

} // verus!
