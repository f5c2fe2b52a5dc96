//! Exclusion matcher: classifies a relative path as included or excluded
//! against a list of glob-lite patterns.
//!
//! Pattern grammar, each pattern evaluated independently (any match excludes):
//! - a pattern beginning with `*` is a suffix match;
//! - a pattern ending with `*` is a prefix match;
//! - otherwise the path must equal the pattern, contain it as a full
//!   path component (`.../pattern/...`), or start with `pattern/`.

use vstd::prelude::*;

verus! {

/// `s` starts with `p`.
pub open spec fn starts_with(s: Seq<char>, p: Seq<char>) -> bool {
    p.len() <= s.len() && s.subrange(0, p.len() as int) == p
}

/// `s` ends with `p`.
pub open spec fn ends_with(s: Seq<char>, p: Seq<char>) -> bool {
    p.len() <= s.len() && s.subrange(s.len() - p.len(), s.len() as int) == p
}

/// `pat` occurs in `path` as a full path component bounded by separators:
/// `path` contains `/pat/`.
pub open spec fn has_component(path: Seq<char>, pat: Seq<char>) -> bool {
    exists|i: int|
        0 <= i && i + pat.len() + 2 <= path.len() && #[trigger] path.subrange(i, i + pat.len() + 2)
            == seq!['/'] + pat + seq!['/']
}

/// One pattern excludes one path, per the glob-lite grammar.
pub open spec fn pattern_matches(pat: Seq<char>, path: Seq<char>) -> bool {
    if pat.len() > 0 && pat[0] == '*' {
        ends_with(path, pat.subrange(1, pat.len() as int))
    } else if pat.len() > 0 && pat[pat.len() - 1] == '*' {
        starts_with(path, pat.subrange(0, pat.len() - 1))
    } else {
        path == pat || has_component(path, pat) || starts_with(path, pat + seq!['/'])
    }
}

/// A path is excluded when any pattern of the list matches it.
pub open spec fn excluded(path: Seq<char>, pats: Seq<Seq<char>>) -> bool {
    exists|k: int| 0 <= k < pats.len() && pattern_matches(pats[k], path)
}

/// A path is pruned from a walk when the path itself, or any ancestor
/// directory of it (a proper prefix ending at a `/` boundary), is excluded.
/// A walk never descends into an excluded directory, so everything beneath
/// one is pruned even if no pattern matches the deeper path on its own.
pub open spec fn pruned(path: Seq<char>, pats: Seq<Seq<char>>) -> bool {
    excluded(path, pats) || exists|k: int|
        0 <= k < path.len() && path[k] == '/' && excluded(path.subrange(0, k), pats)
}

/// `s` starts with `p`, executable.
pub fn str_starts_with(s: &str, p: &str) -> (r: bool)
    ensures
        r == starts_with(s@, p@),
{
    let sn = s.unicode_len();
    let pn = p.unicode_len();
    if pn > sn {
        assert(!starts_with(s@, p@));
        return false;
    }
    let mut i: usize = 0;
    while i < pn
        invariant
            i <= pn <= sn,
            sn == s@.len(),
            pn == p@.len(),
            forall|j: int| 0 <= j < i ==> s@[j] == p@[j],
        decreases pn - i,
    {
        if s.get_char(i) != p.get_char(i) {
            assert(s@.subrange(0, pn as int)[i as int] != p@[i as int]);
            return false;
        }
        i = i + 1;
    }
    assert(s@.subrange(0, pn as int) =~= p@);
    true
}

/// `s` ends with `p`, executable.
pub fn str_ends_with(s: &str, p: &str) -> (r: bool)
    ensures
        r == ends_with(s@, p@),
{
    let sn = s.unicode_len();
    let pn = p.unicode_len();
    if pn > sn {
        assert(!ends_with(s@, p@));
        return false;
    }
    let off = sn - pn;
    let mut i: usize = 0;
    while i < pn
        invariant
            i <= pn <= sn,
            sn == s@.len(),
            pn == p@.len(),
            off == sn - pn,
            forall|j: int| 0 <= j < i ==> s@[off + j] == p@[j],
        decreases pn - i,
    {
        if s.get_char(off + i) != p.get_char(i) {
            assert(s@.subrange(off as int, sn as int)[i as int] != p@[i as int]);
            return false;
        }
        i = i + 1;
    }
    assert(s@.subrange(off as int, sn as int) =~= p@);
    true
}

/// `path` contains `/pat/`, executable.
fn str_has_component(path: &str, pat: &str) -> (r: bool)
    ensures
        r == has_component(path@, pat@),
{
    let n = path.unicode_len();
    let m = pat.unicode_len();
    if n < 2 || m > n - 2 {
        assert(!has_component(path@, pat@));
        return false;
    }
    let bound = n - 2 - m;
    let mut i: usize = 0;
    while i <= bound
        invariant
            n == path@.len(),
            m == pat@.len(),
            m + 2 <= n,
            bound == n - 2 - m,
            forall|q: int|
                0 <= q < i ==> #[trigger] path@.subrange(q, q + m + 2) != seq!['/'] + pat@
                    + seq!['/'],
        decreases bound + 1 - i,
    {
        if component_at(path, pat, i) {
            return true;
        }
        i = i + 1;
    }
    assert(forall|q: int|
        0 <= q && q + m + 2 <= n ==> #[trigger] path@.subrange(q, q + m + 2) != seq!['/'] + pat@
            + seq!['/']);
    false
}

/// `/pat/` stands in `path` at offset `i`.
fn component_at(path: &str, pat: &str, i: usize) -> (r: bool)
    requires
        i + pat@.len() + 2 <= path@.len(),
    ensures
        r == (path@.subrange(i as int, i + pat@.len() + 2) == seq!['/'] + pat@ + seq!['/']),
{
    let n = path.unicode_len();
    let m = pat.unicode_len();
    let ghost target = seq!['/'] + pat@ + seq!['/'];
    if path.get_char(i) != '/' {
        assert(path@.subrange(i as int, i + m + 2)[0] != target[0]);
        return false;
    }
    if path.get_char(i + 1 + m) != '/' {
        assert(path@.subrange(i as int, i + m + 2)[m + 1] != target[m as int + 1]);
        return false;
    }
    let mut j: usize = 0;
    while j < m
        invariant
            j <= m,
            m == pat@.len(),
            n == path@.len(),
            i + m + 2 <= n,
            target == seq!['/'] + pat@ + seq!['/'],
            path@[i as int] == '/',
            path@[i + 1 + m] == '/',
            forall|q: int| 0 <= q < j ==> path@[i + 1 + q] == pat@[q],
        decreases m - j,
    {
        if path.get_char(i + 1 + j) != pat.get_char(j) {
            assert(target[1 + j as int] == pat@[j as int]);
            assert(path@.subrange(i as int, i + m + 2)[1 + j as int] == path@[i + 1 + j]);
            assert(path@.subrange(i as int, i + m + 2) != target);
            return false;
        }
        j = j + 1;
    }
    assert(path@.subrange(i as int, i + m + 2) =~= seq!['/'] + pat@ + seq!['/']);
    true
}

/// One pattern against one path, executable.
pub fn matches_pattern(pat: &str, path: &str) -> (r: bool)
    ensures
        r == pattern_matches(pat@, path@),
{
    let m = pat.unicode_len();
    if m > 0 && pat.get_char(0) == '*' {
        let suffix = pat.substring_char(1, m);
        str_ends_with(path, suffix)
    } else if m > 0 && pat.get_char(m - 1) == '*' {
        let prefix = pat.substring_char(0, m - 1);
        str_starts_with(path, prefix)
    } else {
        if str_equal(path, pat) {
            return true;
        }
        if str_has_component(path, pat) {
            return true;
        }
        prefix_dir_matches(path, pat)
    }
}

/// The two strings hold the same characters.
pub fn str_equal(a: &str, b: &str) -> (r: bool)
    ensures
        r == (a@ == b@),
{
    let an = a.unicode_len();
    let bn = b.unicode_len();
    if an != bn {
        assert(a@ != b@);
        return false;
    }
    let mut i: usize = 0;
    while i < an
        invariant
            i <= an,
            an == a@.len(),
            an == b@.len(),
            forall|j: int| 0 <= j < i ==> a@[j] == b@[j],
        decreases an - i,
    {
        if a.get_char(i) != b.get_char(i) {
            return false;
        }
        i = i + 1;
    }
    assert(a@ =~= b@);
    true
}

/// `path` starts with `pat` followed by `/`.
fn prefix_dir_matches(path: &str, pat: &str) -> (r: bool)
    ensures
        r == starts_with(path@, pat@ + seq!['/']),
{
    let n = path.unicode_len();
    let m = pat.unicode_len();
    if m >= n {
        assert(!starts_with(path@, pat@ + seq!['/']));
        return false;
    }
    if path.get_char(m) != '/' {
        assert(path@.subrange(0, m + 1)[m as int] != (pat@ + seq!['/'])[m as int]);
        return false;
    }
    let head = path.substring_char(0, m);
    if str_equal(head, pat) {
        assert(path@.subrange(0, m + 1) =~= pat@ + seq!['/']);
        true
    } else {
        assert(path@.subrange(0, m as int) =~= path@.subrange(0, m + 1).subrange(0, m as int));
        assert(path@.subrange(0, m + 1) != pat@ + seq!['/']) by {
            if path@.subrange(0, m + 1) == pat@ + seq!['/'] {
                assert(path@.subrange(0, m as int) =~= pat@);
            }
        }
        false
    }
}

/// A path is excluded when any pattern of the list matches it.
///
/// This is the matcher the walk applies to every entry it meets: to a
/// directory before descending, to a file before fingerprinting it.
pub fn should_exclude(path: &str, excludes: &Vec<String>) -> (r: bool)
    ensures
        r == excluded(path@, excludes.deep_view()),
{
    let n = excludes.len();
    let mut k: usize = 0;
    while k < n
        invariant
            k <= n,
            n == excludes@.len(),
            forall|q: int| 0 <= q < k ==> !pattern_matches(excludes.deep_view()[q], path@),
        decreases n - k,
    {
        if matches_pattern(excludes[k].as_str(), path) {
            assert(pattern_matches(excludes.deep_view()[k as int], path@));
            return true;
        }
        k = k + 1;
    }
    false
}

/// A path is pruned: the path itself or some ancestor directory of it is
/// excluded.
pub fn is_pruned(path: &str, excludes: &Vec<String>) -> (r: bool)
    ensures
        r == pruned(path@, excludes.deep_view()),
{
    if should_exclude(path, excludes) {
        return true;
    }
    let n = path.unicode_len();
    let mut k: usize = 0;
    while k < n
        invariant
            n == path@.len(),
            k <= n,
            !excluded(path@, excludes.deep_view()),
            forall|q: int|
                0 <= q < k ==> !(path@[q] == '/' && excluded(
                    path@.subrange(0, q),
                    excludes.deep_view(),
                )),
        decreases n - k,
    {
        if path.get_char(k) == '/' {
            let ancestor = path.substring_char(0, k);
            if should_exclude(ancestor, excludes) {
                return true;
            }
        }
        k = k + 1;
    }
    false
}

} // verus!
