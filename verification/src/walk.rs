//! Tree walker: turns an enumeration of a directory tree into a manifest.
//!
//! The walk itself — reading directories, fingerprinting file contents — is
//! the caller's side; it hands the library one [`TreeEntry`] per entry met,
//! with the path relative to the root, forward-slash separated. This module
//! holds the decisions: which entries an exclusion pattern prunes, which
//! become tracked files, which become recorded directories.

use crate::manifest::{FileEntry, FileEntryModel, Manifest, ManifestModel, MANIFEST_VERSION};
use crate::pattern::{is_pruned, pruned};
use vstd::prelude::*;

verus! {

/// What kind of entry a walk met, with the file attributes where it was a
/// regular file. `hash` is the content fingerprint of the file's bytes.
pub enum EntryKind {
    Dir,
    File { hash: String, size: u64, modified: u64, mode: u32 },
}

/// One entry met during a walk: its relative path and its kind.
pub struct TreeEntry {
    pub path: String,
    pub kind: EntryKind,
}

/// Mathematical image of an [`EntryKind`].
pub enum EntryKindModel {
    Dir,
    File { hash: Seq<char>, size: u64, modified: u64, mode: u32 },
}

/// Mathematical image of a [`TreeEntry`].
#[verifier::ext_equal]
pub struct TreeEntryModel {
    pub path: Seq<char>,
    pub kind: EntryKindModel,
}

impl View for EntryKind {
    type V = EntryKindModel;

    open spec fn view(&self) -> EntryKindModel {
        match self {
            EntryKind::Dir => EntryKindModel::Dir,
            EntryKind::File { hash, size, modified, mode } => EntryKindModel::File {
                hash: hash@,
                size: *size,
                modified: *modified,
                mode: *mode,
            },
        }
    }
}

impl View for TreeEntry {
    type V = TreeEntryModel;

    open spec fn view(&self) -> TreeEntryModel {
        TreeEntryModel { path: self.path@, kind: self.kind@ }
    }
}

impl DeepView for TreeEntry {
    type V = TreeEntryModel;

    open spec fn deep_view(&self) -> TreeEntryModel {
        self.view()
    }
}

/// The tracked-file entries a walk over `entries` yields under the patterns
/// `pats`: the file entries not pruned, in enumeration order.
pub open spec fn kept_files(entries: Seq<TreeEntryModel>, pats: Seq<Seq<char>>) -> Seq<
    FileEntryModel,
>
    decreases entries.len(),
{
    if entries.len() == 0 {
        Seq::empty()
    } else {
        kept_files(entries.drop_last(), pats) + match entries.last().kind {
            EntryKindModel::File { hash, size, modified, mode } => {
                if !pruned(entries.last().path, pats) {
                    seq![
                        FileEntryModel {
                            path: entries.last().path,
                            hash: hash,
                            size: size,
                            modified: modified,
                            mode: mode,
                        },
                    ]
                } else {
                    Seq::empty()
                }
            },
            EntryKindModel::Dir => Seq::empty(),
        }
    }
}

/// The directory paths a walk over `entries` records under `pats`:
/// the directory entries not pruned, in enumeration order.
pub open spec fn kept_dirs(entries: Seq<TreeEntryModel>, pats: Seq<Seq<char>>) -> Seq<Seq<char>>
    decreases entries.len(),
{
    if entries.len() == 0 {
        Seq::empty()
    } else {
        kept_dirs(entries.drop_last(), pats) + match entries.last().kind {
            EntryKindModel::Dir => {
                if !pruned(entries.last().path, pats) {
                    seq![entries.last().path]
                } else {
                    Seq::empty()
                }
            },
            EntryKindModel::File { .. } => Seq::empty(),
        }
    }
}

/// The relative paths of the files a walk over `entries` keeps under `pats`.
pub open spec fn live_files(entries: Seq<TreeEntryModel>, pats: Seq<Seq<char>>) -> Seq<Seq<char>>
    decreases entries.len(),
{
    if entries.len() == 0 {
        Seq::empty()
    } else {
        live_files(entries.drop_last(), pats) + match entries.last().kind {
            EntryKindModel::File { .. } => {
                if !pruned(entries.last().path, pats) {
                    seq![entries.last().path]
                } else {
                    Seq::empty()
                }
            },
            EntryKindModel::Dir => Seq::empty(),
        }
    }
}

/// `live_files` is exactly the paths of `kept_files`.
pub proof fn lemma_live_files_are_kept_paths(entries: Seq<TreeEntryModel>, pats: Seq<Seq<char>>)
    ensures
        live_files(entries, pats) == kept_files(entries, pats).map_values(
            |e: FileEntryModel| e.path,
        ),
    decreases entries.len(),
{
    if entries.len() == 0 {
        assert(live_files(entries, pats) =~= kept_files(entries, pats).map_values(
            |e: FileEntryModel| e.path,
        ));
    } else {
        lemma_live_files_are_kept_paths(entries.drop_last(), pats);
        assert(live_files(entries, pats) =~= kept_files(entries, pats).map_values(
            |e: FileEntryModel| e.path,
        ));
    }
}

/// Build a manifest from a walk.
///
/// `root` is recorded for provenance only; `generated` is the snapshot
/// timestamp the caller observed; `entries` is the enumeration of the tree,
/// one entry per path met, relative to the root. Excluded entries — those
/// whose own path, or an ancestor directory of it, matches a pattern — are
/// left out entirely.
pub fn generate_manifest(
    root: &str,
    generated: u64,
    excludes: &Vec<String>,
    entries: &Vec<TreeEntry>,
) -> (m: Manifest)
    ensures
        m@.version == MANIFEST_VERSION,
        m@.root == root@,
        m@.generated == generated,
        m@.excludes == excludes.deep_view(),
        m@.files == kept_files(entries.deep_view(), excludes.deep_view()),
        m@.directories == kept_dirs(entries.deep_view(), excludes.deep_view()),
{
    let mut files: Vec<FileEntry> = Vec::new();
    let mut directories: Vec<String> = Vec::new();
    let n = entries.len();
    let mut i: usize = 0;
    while i < n
        invariant
            i <= n,
            n == entries@.len(),
            files.deep_view() == kept_files(
                entries.deep_view().subrange(0, i as int),
                excludes.deep_view(),
            ),
            directories.deep_view() == kept_dirs(
                entries.deep_view().subrange(0, i as int),
                excludes.deep_view(),
            ),
        decreases n - i,
    {
        let ghost prefix = entries.deep_view().subrange(0, i as int);
        let ghost next_prefix = entries.deep_view().subrange(0, i + 1 as int);
        proof {
            assert(next_prefix.drop_last() =~= prefix);
            assert(next_prefix.last() == entries.deep_view()[i as int]);
        }
        let entry = &entries[i];
        let keep = !is_pruned(entry.path.as_str(), excludes);
        match &entry.kind {
            EntryKind::Dir => {
                if keep {
                    directories.push(entry.path.clone());
                }
            },
            EntryKind::File { hash, size, modified, mode } => {
                if keep {
                    files.push(
                        FileEntry {
                            path: entry.path.clone(),
                            hash: hash.clone(),
                            size: *size,
                            modified: *modified,
                            mode: *mode,
                        },
                    );
                }
            },
        }
        proof {
            assert(files.deep_view() =~~= kept_files(next_prefix, excludes.deep_view()));
            assert(directories.deep_view() =~~= kept_dirs(next_prefix, excludes.deep_view()));
        }
        i = i + 1;
    }
    proof {
        assert(entries.deep_view().subrange(0, n as int) =~= entries.deep_view());
    }
    Manifest {
        version: MANIFEST_VERSION,
        root: root.to_owned(),
        generated,
        files,
        directories,
        excludes: clone_strings(excludes),
    }
}

/// Clone a list of strings; the copy carries the same characters.
pub fn clone_strings(v: &Vec<String>) -> (r: Vec<String>)
    ensures
        r.deep_view() == v.deep_view(),
{
    let mut r: Vec<String> = Vec::new();
    let n = v.len();
    let mut i: usize = 0;
    while i < n
        invariant
            i <= n,
            n == v@.len(),
            r@.len() == i,
            forall|q: int| 0 <= q < i ==> (#[trigger] r@[q])@ == v@[q]@,
        decreases n - i,
    {
        r.push(v[i].clone());
        i = i + 1;
    }
    proof {
        assert(r.deep_view() =~~= v.deep_view());
    }
    r
}

/// The relative paths of the files a walk keeps: entries that are regular
/// files and that no pattern prunes, in enumeration order.
pub fn collect_files(entries: &Vec<TreeEntry>, excludes: &Vec<String>) -> (r: Vec<String>)
    ensures
        r.deep_view() == live_files(entries.deep_view(), excludes.deep_view()),
{
    let mut r: Vec<String> = Vec::new();
    let n = entries.len();
    let mut i: usize = 0;
    while i < n
        invariant
            i <= n,
            n == entries@.len(),
            r.deep_view() == live_files(
                entries.deep_view().subrange(0, i as int),
                excludes.deep_view(),
            ),
        decreases n - i,
    {
        let ghost prefix = entries.deep_view().subrange(0, i as int);
        let ghost next_prefix = entries.deep_view().subrange(0, i + 1 as int);
        proof {
            assert(next_prefix.drop_last() =~= prefix);
            assert(next_prefix.last() == entries.deep_view()[i as int]);
        }
        let entry = &entries[i];
        match &entry.kind {
            EntryKind::File { .. } => {
                if !is_pruned(entry.path.as_str(), excludes) {
                    r.push(entry.path.clone());
                }
            },
            EntryKind::Dir => {},
        }
        proof {
            assert(r.deep_view() =~~= live_files(next_prefix, excludes.deep_view()));
        }
        i = i + 1;
    }
    proof {
        assert(entries.deep_view().subrange(0, n as int) =~= entries.deep_view());
    }
    r
}

} // verus!
