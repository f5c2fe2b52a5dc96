//! The engine's guarantees, stated and proved as laws over the spec-level
//! walk and verification functions: an unchanged tree verifies clean, a
//! changed file lands in `mismatched` and nowhere else, a removed file in
//! `missing`, an untracked file in `unexpected` (or nowhere when
//! tolerated), and nothing beneath an excluded directory is ever recorded.

use crate::manifest::{has_path, paths_unique, FileEntryModel};
use crate::pattern::{excluded, pruned, starts_with};
use crate::verify::{spec_mismatched, spec_missing, spec_passed, spec_unexpected};
use crate::walk::{
    kept_dirs, kept_files, lemma_live_files_are_kept_paths, live_files, TreeEntryModel,
};
use vstd::prelude::*;

verus! {

proof fn lemma_concat_contains<T>(a: Seq<T>, b: Seq<T>, x: T)
    ensures
        (a + b).contains(x) <==> a.contains(x) || b.contains(x),
{
    if a.contains(x) {
        let i = choose|i: int| 0 <= i < a.len() && a[i] == x;
        assert((a + b)[i] == x);
    }
    if b.contains(x) {
        let i = choose|i: int| 0 <= i < b.len() && b[i] == x;
        assert((a + b)[a.len() + i] == x);
    }
    if (a + b).contains(x) {
        let i = choose|i: int| 0 <= i < (a + b).len() && (a + b)[i] == x;
        if i < a.len() {
            assert(a[i] == x);
        } else {
            assert(b[i - a.len()] == x);
        }
    }
}

/// The tail `spec_passed` appends for the last entry.
spec fn passed_tail(files: Seq<FileEntryModel>, obs: Seq<Option<Seq<char>>>) -> Seq<Seq<char>>
    recommends
        files.len() > 0,
{
    match obs.last() {
        Some(h) => {
            if h == files.last().hash {
                seq![files.last().path]
            } else {
                Seq::empty()
            }
        },
        None => Seq::empty(),
    }
}

/// The tail `spec_mismatched` appends for the last entry.
spec fn mismatched_tail(files: Seq<FileEntryModel>, obs: Seq<Option<Seq<char>>>) -> Seq<
    (Seq<char>, Seq<char>, Seq<char>),
>
    recommends
        files.len() > 0,
{
    match obs.last() {
        Some(h) => {
            if h != files.last().hash {
                seq![(files.last().path, files.last().hash, h)]
            } else {
                Seq::empty()
            }
        },
        None => Seq::empty(),
    }
}

/// The tail `spec_missing` appends for the last entry.
spec fn missing_tail(files: Seq<FileEntryModel>, obs: Seq<Option<Seq<char>>>) -> Seq<Seq<char>>
    recommends
        files.len() > 0,
{
    match obs.last() {
        Some(_) => Seq::empty(),
        None => seq![files.last().path],
    }
}

/// A path stands in `spec_passed` exactly where some tracked entry carries
/// it and was observed with its expected fingerprint.
pub proof fn lemma_passed_characterized(
    files: Seq<FileEntryModel>,
    obs: Seq<Option<Seq<char>>>,
    p: Seq<char>,
)
    requires
        obs.len() == files.len(),
    ensures
        spec_passed(files, obs).contains(p) <==> exists|i: int|
            0 <= i < files.len() && (#[trigger] files[i]).path == p && obs[i] == Some(
                files[i].hash,
            ),
    decreases files.len(),
{
    if files.len() > 0 {
        let fp = files.drop_last();
        let op = obs.drop_last();
        lemma_passed_characterized(fp, op, p);
        let tail = passed_tail(files, obs);
        assert(spec_passed(files, obs) == spec_passed(fp, op) + tail);
        lemma_concat_contains(spec_passed(fp, op), tail, p);
        let n = files.len() - 1;
        if exists|i: int|
            0 <= i < fp.len() && (#[trigger] fp[i]).path == p && op[i] == Some(fp[i].hash) {
            let i = choose|i: int|
                0 <= i < fp.len() && (#[trigger] fp[i]).path == p && op[i] == Some(fp[i].hash);
            assert(files[i].path == p && obs[i] == Some(files[i].hash));
        }
        if tail.contains(p) {
            assert(tail[0] == p);
            assert(files[n].path == p && obs[n] == Some(files[n].hash));
        }
        if exists|i: int|
            0 <= i < files.len() && (#[trigger] files[i]).path == p && obs[i] == Some(
                files[i].hash,
            ) {
            let i = choose|i: int|
                0 <= i < files.len() && (#[trigger] files[i]).path == p && obs[i] == Some(
                    files[i].hash,
                );
            if i < n {
                assert(fp[i].path == p && op[i] == Some(fp[i].hash));
            } else {
                assert(tail[0] == p);
            }
        }
    }
}

/// A triple stands in `spec_mismatched` only for a tracked path; a path
/// stands in `spec_missing` or `spec_passed` only where it is tracked.
pub proof fn lemma_drift_is_tracked(files: Seq<FileEntryModel>, obs: Seq<Option<Seq<char>>>)
    requires
        obs.len() == files.len(),
    ensures
        forall|t: (Seq<char>, Seq<char>, Seq<char>)|
            #[trigger] spec_mismatched(files, obs).contains(t) ==> has_path(files, t.0),
        forall|p: Seq<char>| #[trigger] spec_missing(files, obs).contains(p) ==> has_path(files, p),
        forall|p: Seq<char>| #[trigger] spec_passed(files, obs).contains(p) ==> has_path(files, p),
    decreases files.len(),
{
    if files.len() > 0 {
        let fp = files.drop_last();
        let op = obs.drop_last();
        lemma_drift_is_tracked(fp, op);
        let n = files.len() - 1;
        assert forall|t: (Seq<char>, Seq<char>, Seq<char>)|
            #[trigger] spec_mismatched(files, obs).contains(t) implies has_path(files, t.0) by {
            let tail = mismatched_tail(files, obs);
            assert(spec_mismatched(files, obs) == spec_mismatched(fp, op) + tail);
            lemma_concat_contains(spec_mismatched(fp, op), tail, t);
            if spec_mismatched(fp, op).contains(t) {
                assert(has_path(fp, t.0));
                let i = choose|i: int| 0 <= i < fp.len() && (#[trigger] fp[i]).path == t.0;
                assert(files[i].path == t.0);
            } else {
                assert(tail[0] == t);
                assert(files[n].path == t.0);
            }
        }
        assert forall|p: Seq<char>|
            #[trigger] spec_missing(files, obs).contains(p) implies has_path(files, p) by {
            let tail = missing_tail(files, obs);
            assert(spec_missing(files, obs) == spec_missing(fp, op) + tail);
            lemma_concat_contains(spec_missing(fp, op), tail, p);
            if spec_missing(fp, op).contains(p) {
                assert(has_path(fp, p));
                let i = choose|i: int| 0 <= i < fp.len() && (#[trigger] fp[i]).path == p;
                assert(files[i].path == p);
            } else {
                assert(tail[0] == p);
                assert(files[n].path == p);
            }
        }
    }
    assert forall|p: Seq<char>|
        #[trigger] spec_passed(files, obs).contains(p) implies has_path(files, p) by {
        lemma_passed_characterized(files, obs, p);
        let i = choose|i: int|
            0 <= i < files.len() && (#[trigger] files[i]).path == p && obs[i] == Some(
                files[i].hash,
            );
        assert(files[i].path == p);
    }
}

/// Fixed point on an unchanged tree: build a manifest from a walk, observe
/// the very same tree again — every tracked file still present with its
/// recorded fingerprint — and verification reports no drift at all:
/// `mismatched`, `missing` and `unexpected` are all empty, and every
/// tracked path passes.
pub proof fn lemma_verify_fixed_point(
    entries: Seq<TreeEntryModel>,
    pats: Seq<Seq<char>>,
    obs: Seq<Option<Seq<char>>>,
)
    requires
        obs.len() == kept_files(entries, pats).len(),
        forall|i: int|
            0 <= i < obs.len() ==> obs[i] == Some((#[trigger] kept_files(entries, pats)[i]).hash),
    ensures
        spec_passed(kept_files(entries, pats), obs) == kept_files(entries, pats).map_values(
            |e: FileEntryModel| e.path,
        ),
        spec_mismatched(kept_files(entries, pats), obs).len() == 0,
        spec_missing(kept_files(entries, pats), obs).len() == 0,
        spec_unexpected(live_files(entries, pats), kept_files(entries, pats)).len() == 0,
{
    let files = kept_files(entries, pats);
    lemma_all_observed_matching(files, obs);
    lemma_live_files_are_kept_paths(entries, pats);
    let live = live_files(entries, pats);
    assert forall|i: int| 0 <= i < live.len() implies has_path(files, #[trigger] live[i]) by {
        assert(live[i] == files[i].path);
    }
    lemma_unexpected_empty_when_tracked(live, files);
}

/// When every observation matches its entry, nothing mismatches, nothing
/// is missing, and the passed list is exactly the tracked paths in order.
proof fn lemma_all_observed_matching(files: Seq<FileEntryModel>, obs: Seq<Option<Seq<char>>>)
    requires
        obs.len() == files.len(),
        forall|i: int| 0 <= i < obs.len() ==> obs[i] == Some((#[trigger] files[i]).hash),
    ensures
        spec_passed(files, obs) == files.map_values(|e: FileEntryModel| e.path),
        spec_mismatched(files, obs).len() == 0,
        spec_missing(files, obs).len() == 0,
    decreases files.len(),
{
    if files.len() == 0 {
        assert(spec_passed(files, obs) =~= files.map_values(|e: FileEntryModel| e.path));
    } else {
        lemma_all_observed_matching(files.drop_last(), obs.drop_last());
        assert(spec_passed(files, obs) =~= files.map_values(|e: FileEntryModel| e.path));
    }
}

/// A live set whose every path is tracked yields no unexpected entry.
proof fn lemma_unexpected_empty_when_tracked(live: Seq<Seq<char>>, files: Seq<FileEntryModel>)
    requires
        forall|i: int| 0 <= i < live.len() ==> has_path(files, #[trigger] live[i]),
    ensures
        spec_unexpected(live, files).len() == 0,
    decreases live.len(),
{
    if live.len() > 0 {
        assert(forall|i: int|
            0 <= i < live.drop_last().len() ==> has_path(files, #[trigger] live.drop_last()[i]));
        lemma_unexpected_empty_when_tracked(live.drop_last(), files);
        assert(has_path(files, live[live.len() - 1]));
    }
}

/// Mutation detection: a tracked file observed with a different fingerprint
/// lands in `mismatched`, with both fingerprints recorded — and, the
/// tracked paths being unique, it does not also land in `passed`.
pub proof fn lemma_mutation_detected(
    files: Seq<FileEntryModel>,
    obs: Seq<Option<Seq<char>>>,
    i: int,
)
    requires
        obs.len() == files.len(),
        paths_unique(files),
        0 <= i < files.len(),
        obs[i] is Some,
        obs[i].unwrap() != files[i].hash,
    ensures
        spec_mismatched(files, obs).contains((files[i].path, files[i].hash, obs[i].unwrap())),
        !spec_passed(files, obs).contains(files[i].path),
    decreases files.len(),
{
    let n = files.len() - 1;
    let t = (files[i].path, files[i].hash, obs[i].unwrap());
    let fp = files.drop_last();
    let op = obs.drop_last();
    let tail = mismatched_tail(files, obs);
    assert(spec_mismatched(files, obs) == spec_mismatched(fp, op) + tail);
    lemma_concat_contains(spec_mismatched(fp, op), tail, t);
    if i == n {
        assert(tail[0] == t);
        assert(tail.contains(t));
    } else {
        assert(paths_unique(fp)) by {
            assert(forall|a: int, b: int|
                0 <= a < b < fp.len() ==> (#[trigger] fp[a]).path != (#[trigger] fp[b]).path) by {
                assert(forall|a: int, b: int|
                    0 <= a < b < fp.len() ==> (#[trigger] files[a]).path != (
                    #[trigger] files[b]).path);
            }
        }
        lemma_mutation_detected(fp, op, i);
        assert(fp[i] == files[i] && op[i] == obs[i]);
        assert(spec_mismatched(fp, op).contains(t));
    }
    lemma_passed_characterized(files, obs, files[i].path);
    if spec_passed(files, obs).contains(files[i].path) {
        let j = choose|j: int|
            0 <= j < files.len() && (#[trigger] files[j]).path == files[i].path && obs[j] == Some(
                files[j].hash,
            );
        assert(j == i);
    }
}

/// Deletion detection: a tracked file observed absent lands in `missing`.
pub proof fn lemma_deletion_detected(
    files: Seq<FileEntryModel>,
    obs: Seq<Option<Seq<char>>>,
    i: int,
)
    requires
        obs.len() == files.len(),
        0 <= i < files.len(),
        obs[i] is None,
    ensures
        spec_missing(files, obs).contains(files[i].path),
    decreases files.len(),
{
    let n = files.len() - 1;
    let fp = files.drop_last();
    let op = obs.drop_last();
    let tail = missing_tail(files, obs);
    assert(spec_missing(files, obs) == spec_missing(fp, op) + tail);
    lemma_concat_contains(spec_missing(fp, op), tail, files[i].path);
    if i == n {
        assert(tail[0] == files[i].path);
        assert(tail.contains(files[i].path));
    } else {
        lemma_deletion_detected(fp, op, i);
        assert(fp[i] == files[i] && op[i] == obs[i]);
    }
}

/// Addition detection: a live, non-excluded file that no tracked entry
/// carries lands in `unexpected` — and in none of the tracked categories,
/// whether or not unexpected files are tolerated.
pub proof fn lemma_addition_detected(
    live: Seq<Seq<char>>,
    files: Seq<FileEntryModel>,
    obs: Seq<Option<Seq<char>>>,
    p: Seq<char>,
)
    requires
        obs.len() == files.len(),
        live.contains(p),
        !has_path(files, p),
    ensures
        spec_unexpected(live, files).contains(p),
        !spec_passed(files, obs).contains(p),
        !spec_missing(files, obs).contains(p),
        forall|t: (Seq<char>, Seq<char>, Seq<char>)|
            #[trigger] spec_mismatched(files, obs).contains(t) ==> t.0 != p,
{
    lemma_unexpected_contains(live, files, p);
    lemma_drift_is_tracked(files, obs);
}

proof fn lemma_unexpected_contains(live: Seq<Seq<char>>, files: Seq<FileEntryModel>, p: Seq<char>)
    requires
        live.contains(p),
        !has_path(files, p),
    ensures
        spec_unexpected(live, files).contains(p),
    decreases live.len(),
{
    let n = live.len() - 1;
    let i = choose|i: int| 0 <= i < live.len() && live[i] == p;
    let tail = if !has_path(files, live.last()) {
        seq![live.last()]
    } else {
        Seq::<Seq<char>>::empty()
    };
    assert(spec_unexpected(live, files) == spec_unexpected(live.drop_last(), files) + tail);
    lemma_concat_contains(spec_unexpected(live.drop_last(), files), tail, p);
    if i == n {
        assert(tail[0] == p);
        assert(tail.contains(p));
    } else {
        assert(live.drop_last()[i] == p);
        lemma_unexpected_contains(live.drop_last(), files, p);
    }
}

/// Exclusion prunes whole subtrees: a path beneath a directory that some
/// pattern excludes is itself pruned, and a pruned path is recorded
/// nowhere — not among the tracked files, not among the directories, not
/// in the re-derived live file set.
pub proof fn lemma_excluded_dir_prunes_subtree(
    entries: Seq<TreeEntryModel>,
    pats: Seq<Seq<char>>,
    dir: Seq<char>,
    path: Seq<char>,
)
    requires
        excluded(dir, pats),
        starts_with(path, dir + seq!['/']),
    ensures
        pruned(path, pats),
        forall|k: int|
            0 <= k < kept_files(entries, pats).len() ==> (#[trigger] kept_files(entries, pats)[k]).path
                != path,
        !kept_dirs(entries, pats).contains(path),
        !live_files(entries, pats).contains(path),
{
    let d = dir.len() as int;
    assert(path.subrange(0, d + 1) == dir + seq!['/']);
    assert(path[d] == '/') by {
        assert(path.subrange(0, d + 1)[d] == (dir + seq!['/'])[d]);
    }
    assert(path.subrange(0, d) =~= path.subrange(0, d + 1).subrange(0, d));
    assert((dir + seq!['/']).subrange(0, d) =~= dir);
    assert(path.subrange(0, d) == dir);
    assert(pruned(path, pats));
    lemma_pruned_never_recorded(entries, pats, path);
}

/// A pruned path appears in none of the walk's outputs.
pub proof fn lemma_pruned_never_recorded(
    entries: Seq<TreeEntryModel>,
    pats: Seq<Seq<char>>,
    path: Seq<char>,
)
    requires
        pruned(path, pats),
    ensures
        forall|k: int|
            0 <= k < kept_files(entries, pats).len() ==> (#[trigger] kept_files(entries, pats)[k]).path
                != path,
        !kept_dirs(entries, pats).contains(path),
        !live_files(entries, pats).contains(path),
    decreases entries.len(),
{
    if entries.len() > 0 {
        let prev = entries.drop_last();
        lemma_pruned_never_recorded(prev, pats, path);
        let fprefix = kept_files(prev, pats);
        let ftail = kept_files(entries, pats).subrange(
            fprefix.len() as int,
            kept_files(entries, pats).len() as int,
        );
        assert(kept_files(entries, pats) =~= fprefix + ftail);
        assert forall|k: int|
            0 <= k < kept_files(entries, pats).len() implies (#[trigger] kept_files(
            entries,
            pats,
        )[k]).path != path by {
            if k < fprefix.len() {
                assert(kept_files(entries, pats)[k] == fprefix[k]);
            } else {
                assert(!pruned(entries.last().path, pats));
                assert(kept_files(entries, pats)[k].path == entries.last().path);
            }
        }
        if kept_dirs(entries, pats).contains(path) {
            let dprefix = kept_dirs(prev, pats);
            let dtail = kept_dirs(entries, pats).subrange(
                dprefix.len() as int,
                kept_dirs(entries, pats).len() as int,
            );
            assert(kept_dirs(entries, pats) =~= dprefix + dtail);
            lemma_concat_contains(dprefix, dtail, path);
            assert(false);
        }
        if live_files(entries, pats).contains(path) {
            let lprefix = live_files(prev, pats);
            let ltail = live_files(entries, pats).subrange(
                lprefix.len() as int,
                live_files(entries, pats).len() as int,
            );
            assert(live_files(entries, pats) =~= lprefix + ltail);
            lemma_concat_contains(lprefix, ltail, path);
            assert(false);
        }
    }
}

} // verus!
