//! Verifier / differ: compares a live tree against a manifest and sorts
//! every tracked path into passed, mismatched or missing, and — unless
//! unexpected files are tolerated — every untracked live file into
//! unexpected. Drift is data, not failure: the comparison itself never
//! errors.

use crate::manifest::{has_path, FileEntryModel, Manifest};
use crate::walk::{collect_files, live_files, TreeEntry, TreeEntryModel};
use vstd::prelude::*;

verus! {

/// The outcome of one verification pass.
pub struct VerifyResult {
    /// Tracked paths whose current fingerprint matches the manifest.
    pub passed: Vec<String>,
    /// Tracked paths whose fingerprint differs: (path, expected, actual).
    pub mismatched: Vec<(String, String, String)>,
    /// Tracked paths absent from the live tree.
    pub missing: Vec<String>,
    /// Live file paths absent from the manifest.
    pub unexpected: Vec<String>,
}

/// Mathematical image of a [`VerifyResult`].
#[verifier::ext_equal]
pub struct VerifyModel {
    pub passed: Seq<Seq<char>>,
    pub mismatched: Seq<(Seq<char>, Seq<char>, Seq<char>)>,
    pub missing: Seq<Seq<char>>,
    pub unexpected: Seq<Seq<char>>,
}

impl View for VerifyResult {
    type V = VerifyModel;

    open spec fn view(&self) -> VerifyModel {
        VerifyModel {
            passed: self.passed.deep_view(),
            mismatched: self.mismatched.deep_view(),
            missing: self.missing.deep_view(),
            unexpected: self.unexpected.deep_view(),
        }
    }
}

/// The tracked paths whose observed fingerprint equals the expected one.
/// `obs[i]` is the fingerprint observed for `files[i]`: `None` when the
/// file is absent, `Some(h)` when present with current fingerprint `h`.
pub open spec fn spec_passed(files: Seq<FileEntryModel>, obs: Seq<Option<Seq<char>>>) -> Seq<
    Seq<char>,
>
    recommends
        obs.len() == files.len(),
    decreases files.len(),
{
    if files.len() == 0 {
        Seq::empty()
    } else {
        spec_passed(files.drop_last(), obs.drop_last()) + match obs.last() {
            Some(h) => {
                if h == files.last().hash {
                    seq![files.last().path]
                } else {
                    Seq::empty()
                }
            },
            None => Seq::empty(),
        }
    }
}

/// The (path, expected, actual) triples of the tracked files observed with
/// a different fingerprint.
pub open spec fn spec_mismatched(files: Seq<FileEntryModel>, obs: Seq<Option<Seq<char>>>) -> Seq<
    (Seq<char>, Seq<char>, Seq<char>),
>
    recommends
        obs.len() == files.len(),
    decreases files.len(),
{
    if files.len() == 0 {
        Seq::empty()
    } else {
        spec_mismatched(files.drop_last(), obs.drop_last()) + match obs.last() {
            Some(h) => {
                if h != files.last().hash {
                    seq![(files.last().path, files.last().hash, h)]
                } else {
                    Seq::empty()
                }
            },
            None => Seq::empty(),
        }
    }
}

/// The tracked paths observed absent.
pub open spec fn spec_missing(files: Seq<FileEntryModel>, obs: Seq<Option<Seq<char>>>) -> Seq<
    Seq<char>,
>
    recommends
        obs.len() == files.len(),
    decreases files.len(),
{
    if files.len() == 0 {
        Seq::empty()
    } else {
        spec_missing(files.drop_last(), obs.drop_last()) + match obs.last() {
            Some(_) => Seq::empty(),
            None => seq![files.last().path],
        }
    }
}

/// The live file paths that no tracked entry carries.
pub open spec fn spec_unexpected(live: Seq<Seq<char>>, files: Seq<FileEntryModel>) -> Seq<
    Seq<char>,
>
    decreases live.len(),
{
    if live.len() == 0 {
        Seq::empty()
    } else {
        spec_unexpected(live.drop_last(), files) + if !has_path(files, live.last()) {
            seq![live.last()]
        } else {
            Seq::empty()
        }
    }
}

impl VerifyResult {
    /// Verification succeeded: no mismatched, missing or unexpected path.
    /// `passed` may well be empty — an empty tree against an empty
    /// manifest is valid.
    pub fn is_ok(&self) -> (r: bool)
        ensures
            r == (self@.mismatched.len() == 0 && self@.missing.len() == 0 && self@.unexpected.len()
                == 0),
    {
        self.mismatched.len() == 0 && self.missing.len() == 0 && self.unexpected.len() == 0
    }
}

/// Compare a live tree against a manifest.
///
/// `observed` pairs with `manifest.files` by index: the fingerprint the
/// caller observed for that tracked path, or `None` where the path is
/// absent. `live` is a fresh enumeration of the tree, out of which the
/// manifest's own exclusion patterns re-derive the current file set;
/// when `allow_unexpected` is set that pass is skipped and `unexpected`
/// stays empty.
pub fn verify_manifest(
    manifest: &Manifest,
    observed: &Vec<Option<String>>,
    live: &Vec<TreeEntry>,
    allow_unexpected: bool,
) -> (r: VerifyResult)
    requires
        observed@.len() == manifest.files@.len(),
    ensures
        r@.passed == spec_passed(manifest@.files, observed.deep_view()),
        r@.mismatched == spec_mismatched(manifest@.files, observed.deep_view()),
        r@.missing == spec_missing(manifest@.files, observed.deep_view()),
        r@.unexpected == if allow_unexpected {
            Seq::<Seq<char>>::empty()
        } else {
            spec_unexpected(live_files(live.deep_view(), manifest@.excludes), manifest@.files)
        },
{
    let mut passed: Vec<String> = Vec::new();
    let mut mismatched: Vec<(String, String, String)> = Vec::new();
    let mut missing: Vec<String> = Vec::new();
    let mut unexpected: Vec<String> = Vec::new();

    let ghost all_files = manifest.files.deep_view();
    let ghost all_obs = observed.deep_view();
    let n = manifest.files.len();
    let mut i: usize = 0;
    while i < n
        invariant
            i <= n,
            n == manifest.files@.len(),
            n == observed@.len(),
            all_files == manifest.files.deep_view(),
            all_obs == observed.deep_view(),
            all_files.len() == n,
            all_obs.len() == n,
            passed.deep_view() == spec_passed(
                all_files.subrange(0, i as int),
                all_obs.subrange(0, i as int),
            ),
            mismatched.deep_view() == spec_mismatched(
                all_files.subrange(0, i as int),
                all_obs.subrange(0, i as int),
            ),
            missing.deep_view() == spec_missing(
                all_files.subrange(0, i as int),
                all_obs.subrange(0, i as int),
            ),
        decreases n - i,
    {
        let ghost fp = all_files.subrange(0, i as int);
        let ghost op = all_obs.subrange(0, i as int);
        let ghost fn_ = all_files.subrange(0, i + 1 as int);
        let ghost on_ = all_obs.subrange(0, i + 1 as int);
        proof {
            assert(fn_.drop_last() =~= fp);
            assert(on_.drop_last() =~= op);
            assert(fn_.last() == all_files[i as int]);
            assert(on_.last() == all_obs[i as int]);
        }
        let entry = &manifest.files[i];
        match &observed[i] {
            Some(h) => {
                if crate::pattern::str_equal(h.as_str(), entry.hash.as_str()) {
                    passed.push(entry.path.clone());
                } else {
                    mismatched.push((entry.path.clone(), entry.hash.clone(), h.clone()));
                }
            },
            None => {
                missing.push(entry.path.clone());
            },
        }
        proof {
            assert(passed.deep_view() =~~= spec_passed(fn_, on_));
            assert(mismatched.deep_view() =~~= spec_mismatched(fn_, on_));
            assert(missing.deep_view() =~~= spec_missing(fn_, on_));
        }
        i = i + 1;
    }
    proof {
        assert(all_files.subrange(0, n as int) =~= all_files);
        assert(all_obs.subrange(0, n as int) =~= all_obs);
    }

    if !allow_unexpected {
        let current = collect_files(live, &manifest.excludes);
        let ghost live_paths = live_files(live.deep_view(), manifest@.excludes);
        let m = current.len();
        let mut j: usize = 0;
        while j < m
            invariant
                j <= m,
                m == current@.len(),
                current.deep_view() == live_paths,
                live_paths.len() == m,
                all_files == manifest.files.deep_view(),
                unexpected.deep_view() == spec_unexpected(
                    live_paths.subrange(0, j as int),
                    all_files,
                ),
            decreases m - j,
        {
            let ghost lp = live_paths.subrange(0, j as int);
            let ghost ln = live_paths.subrange(0, j + 1 as int);
            proof {
                assert(ln.drop_last() =~= lp);
                assert(ln.last() == live_paths[j as int]);
                assert(current.deep_view()[j as int] == current@[j as int]@);
            }
            if !manifest.contains_path(current[j].as_str()) {
                unexpected.push(current[j].clone());
            }
            proof {
                assert(unexpected.deep_view() =~~= spec_unexpected(ln, all_files));
            }
            j = j + 1;
        }
        proof {
            assert(live_paths.subrange(0, m as int) =~= live_paths);
        }
    }

    VerifyResult { passed, mismatched, missing, unexpected }
}

} // verus!
