use chatcmd_runtime::command::source::{
    MAX_SOURCE_BYTES, SourceEntry, SourceKind, SourceReadFailure, is_excluded_directory, source_order, source_state_digest,
    walk_exceeded,
};
use chatcmd_runtime::digest::sha256_hex;

fn file(relative: &str, content: &str) -> SourceEntry {
    SourceEntry {
        relative: relative.into(),
        kind: SourceKind::File { size: content.len() as u64, content: content.as_bytes().to_vec(), failure: None },
    }
}

fn directory(relative: &str) -> SourceEntry {
    SourceEntry { relative: relative.into(), kind: SourceKind::Directory }
}

fn tree(main: &str, notes: &str, rules: &str) -> Vec<SourceEntry> {
    vec![file("util.rs", notes), directory("docs"), file("docs/guide.md", rules), file("lib.rs", main)]
}

#[test]
fn snapshot_tracks_untracked_content_and_rules_but_excludes_build_outputs() {
    assert!(is_excluded_directory(false, true, ".git"));
    assert!(is_excluded_directory(false, true, "target"));
    assert!(!is_excluded_directory(false, true, ".rules"));
    assert!(!is_excluded_directory(true, true, "target"));
    let first = source_state_digest(&tree("main before", "one", "rule one"), false);
    assert!(first.complete, "{:?}", first.limitation);
    assert_eq!(first.files_scanned, 3);
    let dirty_changed = source_state_digest(&tree("main dirty", "one", "rule one"), false);
    assert_ne!(first.digest, dirty_changed.digest);
    let source_changed = source_state_digest(&tree("main dirty", "two", "rule one"), false);
    assert_ne!(dirty_changed.digest, source_changed.digest);
    let rules_changed = source_state_digest(&tree("main dirty", "two", "rule two"), false);
    assert_ne!(source_changed.digest, rules_changed.digest);
    let mut reordered = tree("main dirty", "two", "rule two");
    reordered.reverse();
    assert_eq!(rules_changed.digest, source_state_digest(&reordered, false).digest);
}

#[test]
fn snapshot_digest_covers_marker_paths_and_contents() {
    let state = source_state_digest(&vec![file("a.txt", "hi")], false);
    let expected = sha256_hex(b"chatcmd-source-state-v1\0a.txt\0file\0hi");
    assert_eq!(state.digest, format!("sha256:{expected}"));
    assert_eq!(state.bytes_hashed, 2);
    assert_eq!(state.algorithm, "sha256");
    assert_eq!(state.scope, "cwdSourceInputsV1");
    assert_eq!(state.excluded_directories.len(), 12);
    let windows = source_state_digest(&vec![file("dir\\a.txt", "hi")], false);
    let unix = source_state_digest(&vec![file("dir/a.txt", "hi")], false);
    assert_eq!(windows.digest, unix.digest);
}

#[test]
fn snapshot_orders_entries_by_path() {
    let entries = vec![file("b", "1"), file("a/z", "2"), file("a", "3"), file("B", "4")];
    assert_eq!(source_order(&entries), vec![3, 2, 1, 0]);
}

#[test]
fn snapshot_limitations_make_it_incomplete() {
    let link = SourceEntry { relative: "link".into(), kind: SourceKind::Symlink { target: Some("elsewhere".into()) } };
    let state = source_state_digest(&vec![file("a", "x"), link, file("z", "y")], false);
    assert!(!state.complete);
    assert_eq!(state.limitation.as_deref(), Some("source scope contains a symlink whose target content is outside the snapshot"));
    assert_eq!(state.files_scanned, 2);
    assert_eq!(state.bytes_hashed, 1);

    let big = SourceEntry {
        relative: "big".into(),
        kind: SourceKind::File { size: MAX_SOURCE_BYTES + 1, content: Vec::new(), failure: None },
    };
    let state = source_state_digest(&vec![big], false);
    assert_eq!(state.limitation.as_deref(), Some("source snapshot exceeded the byte budget"));
    assert_eq!(state.bytes_hashed, 0);

    let special = SourceEntry { relative: "fifo".into(), kind: SourceKind::Special };
    assert_eq!(
        source_state_digest(&vec![special], false).limitation.as_deref(),
        Some("source scope contains an unsupported special file")
    );

    let failed = SourceEntry {
        relative: "f".into(),
        kind: SourceKind::File { size: 4, content: b"ab".to_vec(), failure: Some(SourceReadFailure::Changed) },
    };
    let state = source_state_digest(&vec![failed], false);
    assert_eq!(state.limitation.as_deref(), Some("a source file changed while its snapshot was being captured"));
    assert_eq!(state.bytes_hashed, 2);

    let state = source_state_digest(&vec![file("a", "x")], true);
    assert_eq!(state.limitation.as_deref(), Some("one or more source paths could not be enumerated"));
    assert_eq!(state.files_scanned, 0);
    let empty = sha256_hex(b"chatcmd-source-state-v1\0");
    assert_eq!(state.digest, format!("sha256:{empty}"));

    assert!(!walk_exceeded(50_000));
    assert!(walk_exceeded(50_001));
}
