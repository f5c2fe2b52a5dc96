use wharf_core::digest::{hash_file, Digest};
use wharf_core::pattern::{is_pruned, should_exclude};
use wharf_core::verify::verify_manifest;
use wharf_core::walk::{collect_files, generate_manifest, EntryKind, TreeEntry};

fn file_entry(path: &str, content: &[u8]) -> TreeEntry {
    TreeEntry {
        path: path.to_string(),
        kind: EntryKind::File { hash: hash_file(content), size: content.len() as u64, modified: 100, mode: 0o644 },
    }
}

fn dir_entry(path: &str) -> TreeEntry {
    TreeEntry { path: path.to_string(), kind: EntryKind::Dir }
}

#[test]
fn test_hash_file() {
    let hash = hash_file("Hello, World!".as_bytes());
    assert!(!hash.is_empty());
    assert_eq!(hash.len(), 64); // BLAKE3 produces 256-bit (64 hex chars) hash
}

#[test]
fn test_hash_file_matches_blake3() {
    let expected = blake3::hash("Hello, World!".as_bytes()).to_hex().to_string();
    assert_eq!(hash_file("Hello, World!".as_bytes()), expected);
    let empty = blake3::hash(b"").to_hex().to_string();
    assert_eq!(hash_file(b""), empty);
}

#[test]
fn test_digest_streaming_matches_one_shot() {
    let mut d = Digest::new();
    d.update("Hello, ".as_bytes());
    d.update("World!".as_bytes());
    assert_eq!(d.finalize_hex(), hash_file("Hello, World!".as_bytes()));
}

#[test]
fn test_generate_and_verify_manifest() {
    // Create test files
    let entries = vec![
        file_entry("file1.txt", b"content1"),
        dir_entry("subdir"),
        file_entry("subdir/file2.txt", b"content2"),
    ];

    // Generate manifest
    let manifest = generate_manifest("root", 0, &vec![], &entries);
    assert_eq!(manifest.files.len(), 2);
    assert_eq!(manifest.directories.len(), 1);

    // Verify (should pass)
    let observed: Vec<Option<String>> = manifest
        .files
        .iter()
        .map(|e| {
            if e.path == "file1.txt" {
                Some(hash_file(b"content1"))
            } else {
                Some(hash_file(b"content2"))
            }
        })
        .collect();
    let result = verify_manifest(&manifest, &observed, &entries, false);
    assert!(result.is_ok());
    assert_eq!(result.passed.len(), 2);

    // Modify a file
    let observed: Vec<Option<String>> = manifest
        .files
        .iter()
        .map(|e| {
            if e.path == "file1.txt" {
                Some(hash_file(b"modified"))
            } else {
                Some(hash_file(b"content2"))
            }
        })
        .collect();
    let entries_modified = vec![
        file_entry("file1.txt", b"modified"),
        dir_entry("subdir"),
        file_entry("subdir/file2.txt", b"content2"),
    ];

    // Verify (should fail)
    let result = verify_manifest(&manifest, &observed, &entries_modified, false);
    assert!(!result.is_ok());
    assert_eq!(result.mismatched.len(), 1);
    assert_eq!(result.passed.len(), 1);
    let (path, expected, actual) = &result.mismatched[0];
    assert_eq!(path, "file1.txt");
    assert_eq!(expected, &hash_file(b"content1"));
    assert_eq!(actual, &hash_file(b"modified"));
}

#[test]
fn test_exclusions() {
    assert!(should_exclude("test.log", &vec!["*.log".to_string()]));
    assert!(should_exclude(".git/config", &vec![".git".to_string()]));
    assert!(!should_exclude("file.txt", &vec!["*.log".to_string()]));
}

#[test]
fn test_exclusion_component_not_substring() {
    // the bare file `gitconfig` is not a `.git` component
    assert!(!should_exclude("gitconfig", &vec![".git".to_string()]));
    assert!(should_exclude(".git", &vec![".git".to_string()]));
    assert!(should_exclude("a/.git/config", &vec![".git".to_string()]));
}

#[test]
fn test_exclusion_prefix_pattern() {
    assert!(should_exclude("test_output.txt", &vec!["test_*".to_string()]));
    assert!(!should_exclude("my_test_output.txt", &vec!["test_*".to_string()]));
}

#[test]
fn test_excluded_directory_prunes_subtree() {
    // a directory matching "*.log" is never descended into: nothing beneath
    // it is recorded, even though the inner path matches no pattern itself
    let excludes = vec!["*.log".to_string()];
    assert!(is_pruned("logs.log/inner.txt", &excludes));
    assert!(!should_exclude("logs.log/inner.txt", &excludes));

    let entries = vec![dir_entry("logs.log"), file_entry("logs.log/inner.txt", b"x")];
    let manifest = generate_manifest("root", 7, &excludes, &entries);
    assert_eq!(manifest.files.len(), 0);
    assert_eq!(manifest.directories.len(), 0);
    assert_eq!(collect_files(&entries, &excludes).len(), 0);
}

#[test]
fn test_deletion_detected() {
    let entries = vec![file_entry("a.txt", b"alpha")];
    let manifest = generate_manifest("root", 1, &vec![], &entries);
    let observed: Vec<Option<String>> = vec![None];
    let live: Vec<TreeEntry> = vec![];
    let result = verify_manifest(&manifest, &observed, &live, false);
    assert_eq!(result.missing, vec!["a.txt".to_string()]);
    assert!(result.passed.is_empty());
    assert!(!result.is_ok());
}

#[test]
fn test_addition_detected() {
    let entries = vec![file_entry("a.txt", b"alpha")];
    let manifest = generate_manifest("root", 1, &vec![], &entries);
    let live = vec![file_entry("a.txt", b"alpha"), file_entry("new.txt", b"nu")];
    let observed = vec![Some(hash_file(b"alpha"))];

    let result = verify_manifest(&manifest, &observed, &live, false);
    assert_eq!(result.unexpected, vec!["new.txt".to_string()]);
    assert!(!result.is_ok());

    // tolerated: the same file produces no entry anywhere
    let result = verify_manifest(&manifest, &observed, &live, true);
    assert!(result.unexpected.is_empty());
    assert!(result.is_ok());
    assert_eq!(result.passed, vec!["a.txt".to_string()]);
}

#[test]
fn test_empty_tree_verifies_ok() {
    let entries: Vec<TreeEntry> = vec![];
    let manifest = generate_manifest("root", 0, &vec![], &entries);
    let result = verify_manifest(&manifest, &vec![], &entries, false);
    assert!(result.is_ok());
    assert!(result.passed.is_empty());
}
