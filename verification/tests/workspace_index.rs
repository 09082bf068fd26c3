use chatcmd_runtime::workspace::index::{
    IndexFreshness, IndexedMetadata, PathObservation, RepositoryIndexEntrySnapshot, RepositoryIndexSnapshot, INDEX_SCHEMA_VERSION,
};
use chatcmd_runtime::workspace::replace::{adapt_line_endings, plan_replacement};
use chatcmd_runtime::workspace::{ResolvedPath, ResolvedRoot, ResolvedScope, WorkspaceService, path_less, sort_dedup_paths};

fn service() -> WorkspaceService {
    WorkspaceService::new(&vec![
        ResolvedRoot { path: "/work/b".into(), is_dir: true },
        ResolvedRoot { path: "/work/a".into(), is_dir: true },
        ResolvedRoot { path: "/work/a".into(), is_dir: true },
    ])
    .expect("workspace")
}

fn resolved(path: &str) -> ResolvedPath {
    ResolvedPath { absolute: false, path: path.into() }
}

fn metadata(size: u64, kind: &str) -> IndexedMetadata {
    IndexedMetadata { size, modified_at_ns: 7, entry_type: kind.into() }
}

#[test]
fn roots_are_sorted_and_deduplicated() {
    let workspace = service();
    assert_eq!(workspace.roots(), &vec!["/work/a".to_owned(), "/work/b".to_owned()]);
    let refused = WorkspaceService::new(&vec![ResolvedRoot { path: "/work/file".into(), is_dir: false }]).expect_err("file root");
    assert_eq!(refused.code, "invalid_workspace_root");
    assert!(path_less("/a/b", "/a-b"));
    assert_eq!(sort_dedup_paths(vec!["/z".into(), "/a".into(), "/z".into()]), vec!["/a".to_owned(), "/z".to_owned()]);
}

#[test]
fn scopes_must_be_absolute_and_not_the_filesystem_root() {
    let workspace = service();
    let relative = workspace.with_additional_scopes(&vec![ResolvedScope { absolute: false, path: "/tmp/x".into(), has_parent: true }]).expect_err("relative");
    assert_eq!(relative.code, "invalid_path_scope");
    let root = workspace.with_additional_scopes(&vec![ResolvedScope { absolute: true, path: "/".into(), has_parent: false }]).expect_err("root");
    assert_eq!(root.code, "path_scope_too_broad");
    let drive = workspace.with_additional_scopes(&vec![ResolvedScope { absolute: true, path: "C:\\".into(), has_parent: false }]).expect_err("drive root");
    assert_eq!(drive.code, "path_scope_too_broad");
    let granted = workspace.with_additional_scopes(&vec![ResolvedScope { absolute: true, path: "/tmp/x".into(), has_parent: true }]).expect("granted");
    assert!(granted.ensure_allowed("/tmp/x/file").is_ok());
    assert_eq!(workspace.ensure_allowed("/tmp/x/file").expect_err("not granted").code, "path_outside_allowed_scope");
    assert_eq!(workspace.ensure_allowed("/work/ab").expect_err("sibling").code, "path_outside_allowed_scope");
    assert!(workspace.ensure_allowed("/work/a").is_ok());
    assert_eq!(workspace.existing(&ResolvedPath { absolute: true, path: "/elsewhere".into() }).expect("absolute"), "/elsewhere");
}

#[test]
fn index_status_reports_the_crawled_root() {
    let mut workspace = service();
    let empty = workspace.index_status(&resolved("/work/a")).expect("status");
    assert!(!empty.available);
    assert_eq!(empty.freshness, IndexFreshness::Unknown);
    assert_eq!(empty.schema_version, INDEX_SCHEMA_VERSION);
    workspace.index.install("/work/a", vec![("/work/a/x".into(), metadata(3, "file"))], 3);
    workspace.index.install("/work/a", vec![("/work/a/x".into(), metadata(4, "file")), ("/work/a/y".into(), metadata(1, "file"))], 5);
    let status = workspace.index_status(&resolved("/work/a")).expect("status");
    assert!(status.available);
    assert_eq!(status.generation, 2);
    assert_eq!(status.freshness, IndexFreshness::Fresh);
    assert_eq!(status.entry_count, 2);
    assert_eq!(status.indexed_bytes, 5);
    workspace.index.mark_failed("/work/a", "crawl failed");
    let failed = workspace.index_status(&resolved("/work/a")).expect("status");
    assert_eq!(failed.freshness, IndexFreshness::Unknown);
    assert_eq!(failed.last_error.as_deref(), Some("crawl failed"));
    assert_eq!(workspace.index_status(&resolved("/outside")).expect_err("scope").code, "path_outside_allowed_scope");
}

#[test]
fn exported_snapshot_is_sorted_and_restores_stale() {
    let mut workspace = service();
    workspace.index.install(
        "/work/a",
        vec![
            ("/work/a/z".into(), metadata(1, "file")),
            ("/work/a/dir".into(), metadata(0, "directory")),
            ("/work/a/dir/f".into(), metadata(2, "file")),
        ],
        3,
    );
    let snapshot = workspace.export_index_snapshot(&resolved("/work/a")).expect("export").expect("indexed");
    let names: Vec<&str> = snapshot.entries.iter().map(|e| e.display_path.as_str()).collect();
    assert_eq!(names, vec!["dir", "dir/f", "z"]);
    assert_eq!(snapshot.entries[1].relative_path_bytes, b"dir/f".to_vec());
    assert_eq!(snapshot.generation, 1);
    assert_eq!(snapshot.freshness, IndexFreshness::Fresh);

    let mut restored = service();
    restored.restore_index_snapshot(&resolved("/work/a"), snapshot).expect("restore");
    let status = restored.index_status(&resolved("/work/a")).expect("status");
    assert_eq!(status.freshness, IndexFreshness::Stale);
    assert_eq!(status.entry_count, 3);
    assert_eq!(status.indexed_bytes, 3);
    let again = restored.export_index_snapshot(&resolved("/work/a")).expect("export").expect("indexed");
    let names: Vec<&str> = again.entries.iter().map(|e| e.display_path.as_str()).collect();
    assert_eq!(names, vec!["dir", "dir/f", "z"]);
    assert!(workspace.export_index_snapshot(&resolved("/work/b")).expect("export").is_none());
}

fn snapshot_with(relative: &str, schema_version: u32) -> RepositoryIndexSnapshot {
    RepositoryIndexSnapshot {
        root: "/work/a".into(),
        generation: 4,
        freshness: IndexFreshness::Fresh,
        indexed_bytes: 1,
        schema_version,
        entries: vec![RepositoryIndexEntrySnapshot {
            relative_path_bytes: relative.as_bytes().to_vec(),
            display_path: relative.into(),
            entry_type: "fifo".into(),
            size_bytes: 1,
            modified_at_ns: 2,
        }],
    }
}

#[test]
fn unsafe_or_foreign_snapshots_are_refused() {
    let mut workspace = service();
    assert_eq!(
        workspace.restore_index_snapshot(&resolved("/work/a"), snapshot_with("ok", 2)).expect_err("schema").code,
        "index_schema_mismatch"
    );
    assert_eq!(
        workspace.restore_index_snapshot(&resolved("/work/a"), snapshot_with("../escape", 1)).expect_err("parent").code,
        "index_snapshot_invalid"
    );
    assert_eq!(
        workspace.restore_index_snapshot(&resolved("/work/a"), snapshot_with("/etc/passwd", 1)).expect_err("absolute").code,
        "index_snapshot_invalid"
    );
    assert_eq!(
        workspace.restore_index_snapshot(&resolved("/outside"), snapshot_with("ok", 1)).expect_err("scope").code,
        "path_outside_allowed_scope"
    );
    assert!(!workspace.index_status(&resolved("/work/a")).expect("status").available);
    workspace.restore_index_snapshot(&resolved("/work/a"), snapshot_with("a..b/c", 1)).expect("dots inside a name are fine");
    let status = workspace.index_status(&resolved("/work/a")).expect("status");
    assert_eq!(status.generation, 4);
    let exported = workspace.export_index_snapshot(&resolved("/work/a")).expect("export").expect("indexed");
    assert_eq!(exported.entries[0].entry_type, "other");
}

#[test]
fn a_changed_path_refreshes_its_entry_and_makes_the_index_stale() {
    let mut workspace = service();
    workspace.index.install("/work/a", vec![("/work/a/x".into(), metadata(3, "file")), ("/work/a/y".into(), metadata(2, "file"))], 5);
    workspace.index.install("/work/b", vec![("/work/b/q".into(), metadata(1, "file"))], 1);
    workspace.mark_index_stale("/work/a/x", "/work/a/x", &PathObservation::Present(metadata(10, "file")), &PathObservation::Unreadable);
    let a = workspace.index_status(&resolved("/work/a")).expect("status");
    assert_eq!(a.generation, 2);
    assert_eq!(a.freshness, IndexFreshness::Stale);
    assert_eq!(a.indexed_bytes, 12);
    assert_eq!(a.entry_count, 2);
    let b = workspace.index_status(&resolved("/work/b")).expect("status");
    assert_eq!(b.freshness, IndexFreshness::Fresh);
    workspace.mark_index_stale("/work/a/y", "/work/a/y", &PathObservation::Missing, &PathObservation::Missing);
    let a = workspace.index_status(&resolved("/work/a")).expect("status");
    assert_eq!(a.entry_count, 1);
    assert_eq!(a.indexed_bytes, 10);
    workspace.mark_index_stale("/work/a/new", "/work/a/new", &PathObservation::Present(metadata(4, "file")), &PathObservation::Unreadable);
    let a = workspace.index_status(&resolved("/work/a")).expect("status");
    assert_eq!(a.entry_count, 2);
    assert_eq!(a.indexed_bytes, 14);
    assert_eq!(a.generation, 4);
}

#[test]
fn a_later_snapshot_entry_for_the_same_path_wins() {
    let mut workspace = service();
    let mut snapshot = snapshot_with("same", 1);
    let mut later = snapshot.entries[0].clone();
    later.size_bytes = 9;
    later.entry_type = "file".into();
    snapshot.entries.push(later);
    workspace.restore_index_snapshot(&resolved("/work/a"), snapshot).expect("restore");
    let exported = workspace.export_index_snapshot(&resolved("/work/a")).expect("export").expect("indexed");
    assert_eq!(exported.entries.len(), 1);
    assert_eq!(exported.entries[0].size_bytes, 9);
    assert_eq!(exported.entries[0].entry_type, "file");
}

#[test]
fn replacements_count_exact_occurrences_and_adapt_line_endings() {
    assert_eq!(plan_replacement("a-b-a", "a", "x", 2).expect("two"), "x-b-x");
    assert_eq!(plan_replacement("aaa", "aa", "b", 1).expect("no overlap"), "ba");
    let mismatch = plan_replacement("a-b-a", "a", "x", 1).expect_err("count");
    assert_eq!(mismatch.code, "text_match_count_mismatch");
    assert_eq!(mismatch.message, "expected 1 occurrence(s) of oldText but found 2");
    assert_eq!(plan_replacement("one\r\ntwo\r\n", "one\ntwo", "1\n2", 1).expect("adapted"), "1\r\n2\r\n");
    assert_eq!(plan_replacement("x", "", "y", 1).expect_err("empty").code, "invalid_text_replacement");
    assert_eq!(plan_replacement("x", "x", "y", 0).expect_err("zero").code, "invalid_text_replacement");
    assert_eq!(adapt_line_endings("a\r\nb\rc\nd", "\r\n"), "a\r\nb\r\nc\r\nd");
}
