use wharf_core::codec::{decode_manifest, encode_manifest};
use wharf_core::errors::IntegrityError;
use wharf_core::manifest::{FileEntry, Manifest};

fn sample_manifest() -> Manifest {
    Manifest {
        version: 1,
        root: "/srv/site".to_string(),
        generated: 1700000000,
        files: vec![
            FileEntry {
                path: "index.html".to_string(),
                hash: "aa".repeat(32),
                size: 120,
                modified: 1699999999,
                mode: 0o644,
            },
            FileEntry {
                path: "assets/app \"v2\"\\bin.js".to_string(),
                hash: "0f".repeat(32),
                size: 0,
                modified: 0,
                mode: 0o755,
            },
        ],
        directories: vec!["assets".to_string()],
        excludes: vec!["*.log".to_string(), ".git".to_string()],
    }
}

fn manifests_equal(a: &Manifest, b: &Manifest) -> bool {
    a.version == b.version && a.root == b.root && a.generated == b.generated
        && a.files.len() == b.files.len()
        && a.files.iter().zip(b.files.iter()).all(|(x, y)| {
            x.path == y.path && x.hash == y.hash && x.size == y.size && x.modified == y.modified
                && x.mode == y.mode
        })
        && a.directories == b.directories && a.excludes == b.excludes
}

#[test]
fn test_round_trip() {
    let m = sample_manifest();
    let text = encode_manifest(&m);
    let back = decode_manifest(text.as_str()).unwrap();
    assert!(manifests_equal(&m, &back));
}

#[test]
fn test_round_trip_empty_collections() {
    let m = Manifest {
        version: 3,
        root: String::new(),
        generated: 0,
        files: vec![],
        directories: vec![],
        excludes: vec![],
    };
    let text = encode_manifest(&m);
    assert_eq!(
        text,
        "{\"version\":3,\"root\":\"\",\"generated\":0,\"files\":{},\"directories\":[],\"excludes\":[]}"
    );
    let back = decode_manifest(text.as_str()).unwrap();
    assert!(manifests_equal(&m, &back));
}

#[test]
fn test_encoded_form_is_exact() {
    let m = Manifest {
        version: 1,
        root: "r".to_string(),
        generated: 42,
        files: vec![FileEntry {
            path: "a.txt".to_string(),
            hash: "ff".to_string(),
            size: 7,
            modified: 9,
            mode: 420,
        }],
        directories: vec!["d".to_string()],
        excludes: vec!["*.log".to_string()],
    };
    let text = encode_manifest(&m);
    assert_eq!(
        text,
        "{\"version\":1,\"root\":\"r\",\"generated\":42,\"files\":{\"a.txt\":{\"path\":\"a.txt\",\"hash\":\"ff\",\"size\":7,\"modified\":9,\"mode\":420}},\"directories\":[\"d\"],\"excludes\":[\"*.log\"]}"
    );
}

#[test]
fn test_decode_rejects_garbage() {
    assert!(matches!(decode_manifest(""), Err(IntegrityError::ParseError(_))));
    assert!(matches!(decode_manifest("not a manifest"), Err(IntegrityError::ParseError(_))));
    assert!(matches!(
        decode_manifest("{\"version\":1,\"root\":\"r\""),
        Err(IntegrityError::ParseError(_))
    ));
}

#[test]
fn test_decode_rejects_trailing_characters() {
    let m = sample_manifest();
    let mut text = encode_manifest(&m);
    text.push(' ');
    assert!(matches!(decode_manifest(text.as_str()), Err(IntegrityError::ParseError(_))));
}

#[test]
fn test_decode_rejects_mismatched_key() {
    let text = "{\"version\":1,\"root\":\"r\",\"generated\":42,\"files\":{\"b.txt\":{\"path\":\"a.txt\",\"hash\":\"ff\",\"size\":7,\"modified\":9,\"mode\":420}},\"directories\":[],\"excludes\":[]}";
    assert!(matches!(decode_manifest(text), Err(IntegrityError::ParseError(_))));
}
