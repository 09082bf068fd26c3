use chatcmd_runtime::workspace::listing::{
    EntryDecision, FsListMetadata, FsListSort, ListCursorScope, ListScan, ListStep, TruncationReason, check_cursor,
    is_hidden_name, normalized_metadata,
};

/// Scans one page over `names` (each entry is built successfully), returning the listed
/// names, the scan and the index of the entry held for the next page.
fn scan(names: &[&str], limit: usize, metadata: &[FsListMetadata], include_hidden: bool, max_entries: u64, max_stats: u64) -> (Vec<String>, ListScan, Option<usize>) {
    let mut scan = ListScan::new(limit, max_entries, max_stats, &metadata.to_vec(), include_hidden);
    let mut listed = Vec::new();
    let mut next = 0;
    let mut held = None;
    while !scan.done {
        match scan.next_step(false, false) {
            ListStep::Done => break,
            ListStep::Read => {}
        }
        if next == names.len() {
            scan.end_of_directory();
            break;
        }
        let name = names[next];
        match scan.on_entry(is_hidden_name(name)) {
            EntryDecision::Skip => {}
            EntryDecision::Hold => held = Some(next),
            EntryDecision::Build => {
                listed.push(name.to_owned());
                scan.on_item(true);
            }
        }
        next += 1;
    }
    (listed, scan, held)
}

#[test]
fn page_boundaries_cover_zero_one_limit_and_limit_plus_one() {
    for count in [0_usize, 1, 5, 6] {
        let names: Vec<String> = (0..count).map(|index| format!("file-{index}.txt")).collect();
        let refs: Vec<&str> = names.iter().map(String::as_str).collect();
        let (items, page, held) = scan(&refs, 5, &[], true, 20_000, 20_000);
        assert_eq!(items.len(), count.min(5));
        assert_eq!(page.has_more, count > 5);
        assert_eq!(held.is_some(), count > 5);
        assert_eq!(page.truncation, None);
    }
}

#[test]
fn paginates_large_directory_without_materializing_all_entries() {
    let names: Vec<String> = (0..10_001).map(|index| format!("file-{index:05}.txt")).collect();
    let refs: Vec<&str> = names.iter().map(String::as_str).collect();
    let (items, page, held) = scan(&refs, 25, &[], true, 20_000, 20_000);
    assert_eq!(items.len(), 25);
    assert!(page.has_more);
    assert!(page.entries_scanned <= 26);
    assert_eq!(page.metadata_calls, 0);
    assert_eq!(held, Some(25));
}

#[test]
fn metadata_empty_performs_no_metadata_calls() {
    let (items, page, _) = scan(&["one.txt"], 10, &[], true, 20_000, 20_000);
    assert_eq!(items, vec!["one.txt".to_owned()]);
    assert_eq!(page.metadata_calls, 0);
    let (_, statted, _) = scan(&["one.txt", "two.txt"], 10, &[FsListMetadata::Size], true, 20_000, 20_000);
    assert_eq!(statted.metadata_calls, 2);
}

#[test]
fn budgets_truncate_pages_with_their_reason() {
    let (items, page, held) = scan(&["a", "b", "c"], 10, &[FsListMetadata::Readonly], true, 20_000, 1);
    assert_eq!(items.len(), 1);
    assert_eq!(page.truncation, Some(TruncationReason::MetadataBudget));
    assert_eq!(held, Some(1));
    let (items, page, _) = scan(&["a", "b", "c"], 10, &[], true, 2, 20_000);
    assert_eq!(items.len(), 2);
    assert_eq!(page.truncation, Some(TruncationReason::ItemLimit));
    let (items, page, _) = scan(&[".hidden", "shown"], 10, &[], false, 20_000, 20_000);
    assert_eq!(items, vec!["shown".to_owned()]);
    assert_eq!(page.entries_scanned, 2);
    let mut cancelled = ListScan::new(0, 0, 0, &vec![], true);
    assert_eq!(cancelled.limit, 1);
    assert_eq!(cancelled.max_entries, 1);
    assert_eq!(cancelled.next_step(true, true), ListStep::Done);
    assert_eq!(cancelled.truncation, Some(TruncationReason::Cancelled));
    let mut late = ListScan::new(5000, 10, 0, &vec![], true);
    assert_eq!(late.limit, 2000);
    assert_eq!(late.next_step(false, true), ListStep::Done);
    assert_eq!(late.truncation, Some(TruncationReason::TimeBudget));
}

fn scope() -> ListCursorScope {
    ListCursorScope {
        path: "/work/first".into(),
        sort: FsListSort::Filesystem,
        metadata: vec![FsListMetadata::Type, FsListMetadata::Size],
        include_hidden: true,
        directory_version: "sha256:v".into(),
    }
}

#[test]
fn cursor_is_bound_to_filter_and_metadata_options() {
    let metadata = vec![FsListMetadata::Size, FsListMetadata::Type, FsListMetadata::Size];
    assert_eq!(normalized_metadata(&metadata), vec![FsListMetadata::Type, FsListMetadata::Size]);
    assert!(check_cursor(&scope(), "/work/first", FsListSort::Filesystem, &metadata, true, Some("sha256:v"), "sha256:v").is_ok());
    let error = check_cursor(&scope(), "/work/first", FsListSort::Filesystem, &metadata, false, Some("sha256:v"), "sha256:v")
        .expect_err("option mismatch");
    assert_eq!(error.code, "cursor_scope_mismatch");
    let error = check_cursor(&scope(), "/work/first", FsListSort::Filesystem, &vec![], true, Some("sha256:v"), "sha256:v")
        .expect_err("metadata mismatch");
    assert_eq!(error.code, "cursor_scope_mismatch");
}

#[test]
fn cursor_state_rejects_a_different_directory_path() {
    let error = check_cursor(&scope(), "/work/second", FsListSort::Filesystem, &vec![FsListMetadata::Type, FsListMetadata::Size], true, Some("sha256:v"), "sha256:v")
        .expect_err("path mismatch");
    assert_eq!(error.code, "cursor_scope_mismatch");
}

#[test]
fn rejects_changed_directory_on_continuation() {
    let metadata = vec![FsListMetadata::Type, FsListMetadata::Size];
    let error = check_cursor(&scope(), "/work/first", FsListSort::Filesystem, &metadata, true, Some("sha256:v"), "sha256:w")
        .expect_err("changed");
    assert_eq!(error.code, "directory_changed");
    let error = check_cursor(&scope(), "/work/first", FsListSort::Filesystem, &metadata, true, None, "sha256:v")
        .expect_err("no version");
    assert_eq!(error.code, "cursor_scope_mismatch");
}
