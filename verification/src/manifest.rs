//! The manifest: a persisted snapshot of a directory tree — one entry per
//! tracked file (relative path, content fingerprint, size, timestamp, mode),
//! the set of directories seen, and the exclusion patterns that produced it.

use vstd::prelude::*;

verus! {

/// Format revision written into every freshly built manifest.
pub const MANIFEST_VERSION: u32 = 1;

/// One tracked file.
pub struct FileEntry {
    /// Relative path from the manifest root, forward-slash separated;
    /// the unique key of this entry.
    pub path: String,
    /// Content fingerprint, a fixed-length lowercase hexadecimal string.
    pub hash: String,
    /// File size in bytes.
    pub size: u64,
    /// Last-modified time, seconds since the epoch.
    pub modified: u64,
    /// Permission bits, platform-defined.
    pub mode: u32,
}

/// Mathematical image of a [`FileEntry`].
#[verifier::ext_equal]
pub struct FileEntryModel {
    pub path: Seq<char>,
    pub hash: Seq<char>,
    pub size: u64,
    pub modified: u64,
    pub mode: u32,
}

impl View for FileEntry {
    type V = FileEntryModel;

    open spec fn view(&self) -> FileEntryModel {
        FileEntryModel {
            path: self.path@,
            hash: self.hash@,
            size: self.size,
            modified: self.modified,
            mode: self.mode,
        }
    }
}

impl DeepView for FileEntry {
    type V = FileEntryModel;

    open spec fn deep_view(&self) -> FileEntryModel {
        self.view()
    }
}

/// A snapshot of a directory tree.
pub struct Manifest {
    /// Format revision, for forward compatibility.
    pub version: u32,
    /// The root that was walked; recorded for provenance only.
    pub root: String,
    /// When the snapshot was taken, seconds since the epoch.
    pub generated: u64,
    /// The tracked files; paths are unique.
    pub files: Vec<FileEntry>,
    /// Relative paths of the directories present during the walk.
    pub directories: Vec<String>,
    /// The exclusion patterns used to produce this snapshot.
    pub excludes: Vec<String>,
}

/// Mathematical image of a [`Manifest`].
#[verifier::ext_equal]
pub struct ManifestModel {
    pub version: u32,
    pub root: Seq<char>,
    pub generated: u64,
    pub files: Seq<FileEntryModel>,
    pub directories: Seq<Seq<char>>,
    pub excludes: Seq<Seq<char>>,
}

impl View for Manifest {
    type V = ManifestModel;

    open spec fn view(&self) -> ManifestModel {
        ManifestModel {
            version: self.version,
            root: self.root@,
            generated: self.generated,
            files: self.files.deep_view(),
            directories: self.directories.deep_view(),
            excludes: self.excludes.deep_view(),
        }
    }
}

/// Some entry of `files` carries the path `path`.
pub open spec fn has_path(files: Seq<FileEntryModel>, path: Seq<char>) -> bool {
    exists|i: int| 0 <= i < files.len() && files[i].path == path
}

/// The entries of `files` carry pairwise distinct paths.
pub open spec fn paths_unique(files: Seq<FileEntryModel>) -> bool {
    forall|i: int, j: int|
        0 <= i < j < files.len() ==> (#[trigger] files[i]).path != (#[trigger] files[j]).path
}

impl Manifest {
    /// Some tracked file carries exactly this relative path.
    pub fn contains_path(&self, path: &str) -> (r: bool)
        ensures
            r == has_path(self@.files, path@),
    {
        let n = self.files.len();
        let mut i: usize = 0;
        while i < n
            invariant
                i <= n,
                n == self.files@.len(),
                forall|q: int| 0 <= q < i ==> self.files.deep_view()[q].path != path@,
            decreases n - i,
        {
            if crate::pattern::str_equal(self.files[i].path.as_str(), path) {
                assert(self.files.deep_view()[i as int].path == path@);
                return true;
            }
            i = i + 1;
        }
        false
    }
}

} // verus!
