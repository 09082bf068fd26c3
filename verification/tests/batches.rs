use chatcmd_runtime::RuntimeError;
use chatcmd_runtime::version::VersionStrength;
use chatcmd_runtime::workspace::batch::{
    BatchStatRun, StatItemBudget, assign_read_budgets, batch_concurrency, batch_error, check_batch_size,
    fit_batch_output, output_limit_error, read_item_timeout_ms, stat_hash_read_cost,
};
use chatcmd_runtime::workspace::index::{IndexCrawl, IndexFreshness, IndexedMetadata, RepositoryIndex, candidate_is_current};

#[test]
fn batch_sizes_are_limited() {
    assert_eq!(check_batch_size(3, 5, 500, "paths").unwrap(), 5);
    assert_eq!(check_batch_size(1, 0, 500, "paths").unwrap(), 1);
    let error = check_batch_size(600, 10_000, 500, "paths").unwrap_err();
    assert_eq!(error.code, "batch_item_limit");
    assert_eq!(error.message, "batch contains 600 paths; limit is 500");
    let error = check_batch_size(3, 2, 50, "requests").unwrap_err();
    assert_eq!(error.message, "batch contains 3 requests; limit is 2");
    assert_eq!(batch_concurrency(0), 1);
    assert_eq!(batch_concurrency(100), 16);
    assert_eq!(read_item_timeout_ms(90_000, 120_000), 60_000);
    assert_eq!(read_item_timeout_ms(500, 120_000), 500);
    let e = batch_error(RuntimeError::new("not_found", "gone"));
    assert_eq!((e.code.as_str(), e.message.as_str()), ("not_found", "gone"));
}

#[test]
fn read_budget_is_shared_fairly() {
    let shares = assign_read_budgets(100, &vec![10, 1000, 1000]);
    assert_eq!(shares, vec![10, 45, 45]);
    let shares = assign_read_budgets(10, &vec![100, 100, 100]);
    assert_eq!(shares, vec![4, 3, 3]);
    assert!(shares.iter().sum::<u64>() <= 10);
    assert_eq!(assign_read_budgets(0, &vec![5, 5]), vec![0, 0]);
    assert_eq!(assign_read_budgets(u64::MAX, &vec![u64::MAX, 1]), vec![u64::MAX / 2, 1]);
}

#[test]
fn batch_output_keeps_what_fits() {
    let (kept, used, truncated) = fit_batch_output(&vec![Some(4), None, Some(5), Some(2)], 7);
    assert_eq!(kept, vec![true, false, false, true]);
    assert_eq!(used, 6);
    assert!(truncated);
    let (kept, used, truncated) = fit_batch_output(&vec![Some(0)], 0);
    assert_eq!(kept, vec![true]);
    assert_eq!(used, 0);
    assert!(!truncated);
    let e = output_limit_error();
    assert_eq!(e.code, "batch_output_limit");
}

#[test]
fn stat_batches_spend_their_budget() {
    assert_eq!(stat_hash_read_cost(VersionStrength::Metadata, 10), 0);
    assert_eq!(stat_hash_read_cost(VersionStrength::Sampled, 100_000), 3 * 65_536);
    assert_eq!(stat_hash_read_cost(VersionStrength::Sampled, 10), 30);
    assert_eq!(stat_hash_read_cost(VersionStrength::Content, 10), 10);

    assert_eq!(BatchStatRun::new(501, 1000, 10, 1000, 100, VersionStrength::Content).unwrap_err().code, "batch_item_limit");
    let mut run = BatchStatRun::new(3, 10, 2, 90_000, 100, VersionStrength::Content).unwrap();
    assert_eq!(run.timeout_ms, 60_000);
    assert!(run.precheck(0, false, 0).is_none());
    assert_eq!(run.precheck(0, true, 0).unwrap().code, "batch_cancelled");
    assert_eq!(run.precheck(2, false, 0).unwrap().message, "aggregate metadata or time budget exhausted");
    assert_eq!(run.item_budget(1000).unwrap(), StatItemBudget { timeout_ms: 59_000, max_bytes_read: 100 });
    assert_eq!(run.item_budget(60_000).unwrap_err().message, "aggregate time budget exhausted");
    run.record(Some(70));
    assert_eq!(run.remaining_bytes, 30);
    run.record(Some(70));
    assert_eq!(run.remaining_bytes, 0);
    assert_eq!(run.item_budget(0).unwrap_err().message, "aggregate maxBytesRead budget exhausted");
    run.record_skipped();
    let (usage, used, generation, freshness, stale) = run.summary();
    assert_eq!((usage.requested, usage.succeeded, usage.failed), (3, 2, 1));
    assert!(!used);
    assert_eq!(generation, None);
    assert_eq!(freshness, IndexFreshness::Unknown);
    assert_eq!(stale, 0);

    let mut failing = BatchStatRun::new(2, 10, 10, 1000, 100, VersionStrength::Sampled).unwrap();
    failing.record(None);
    assert_eq!(failing.remaining_bytes, 0);
    let mut metadata = BatchStatRun::new(2, 10, 10, 1000, 100, VersionStrength::Metadata).unwrap();
    metadata.record(None);
    assert_eq!(metadata.remaining_bytes, 100);
    assert!(metadata.item_budget(0).is_ok());
}

#[test]
fn stat_batches_track_the_index_they_used() {
    let mut run = BatchStatRun::new(3, 10, 10, 1000, 100, VersionStrength::Metadata).unwrap();
    run.note_index("/work", 4, true);
    run.note_index("/work", 4, true);
    let (_, used, generation, freshness, _) = run.summary();
    assert!(used);
    assert_eq!(generation, Some(4));
    assert_eq!(freshness, IndexFreshness::Fresh);
    run.note_index("/work", 5, false);
    let (_, used, generation, freshness, stale) = run.summary();
    assert!(!used);
    assert_eq!(generation, None);
    assert_eq!(freshness, IndexFreshness::Stale);
    assert_eq!(stale, 1);
}

fn meta(size: u64, kind: &str) -> IndexedMetadata {
    IndexedMetadata { size, modified_at_ns: 7, entry_type: kind.to_owned() }
}

#[test]
fn fresh_index_entries_come_from_the_deepest_root() {
    let mut index = RepositoryIndex::new();
    index.install("/work", vec![("/work/a/file.txt".to_owned(), meta(1, "file"))], 1);
    index.install("/work/a", vec![("/work/a/file.txt".to_owned(), meta(2, "file"))], 2);
    let (root, _, m) = index.fresh_entry("/work/a/file.txt").unwrap();
    assert_eq!(root, "/work/a");
    assert_eq!(m.size, 2);
    assert!(index.fresh_entry("/work/b.txt").is_none());
    assert!(index.fresh_entry("/elsewhere/a").is_none());
    index.mark_failed("/work/a", "crawl failed");
    assert!(index.fresh_entry("/work/a/file.txt").is_none());

    assert!(candidate_is_current(&meta(3, "file"), Some(&meta(3, "file"))));
    assert!(!candidate_is_current(&meta(3, "file"), Some(&meta(4, "file"))));
    assert!(!candidate_is_current(&meta(3, "file"), Some(&meta(3, "directory"))));
    assert!(!candidate_is_current(&meta(3, "file"), None));
}

#[test]
fn crawls_record_entries_and_stop_when_cancelled() {
    let mut crawl = IndexCrawl::new();
    assert!(crawl.add("/w/a".to_owned(), meta(3, "file"), false).is_ok());
    assert!(crawl.add("/w/b".to_owned(), meta(4, "file"), false).is_ok());
    assert!(crawl.add("/w/a".to_owned(), meta(5, "file"), false).is_ok());
    assert_eq!(crawl.entries.len(), 2);
    assert_eq!(crawl.entries[0].1.size, 5);
    assert_eq!(crawl.indexed_bytes, 12);
    assert_eq!(crawl.add("/w/c".to_owned(), meta(1, "file"), true).unwrap_err().code, "operationCancelled");
    assert_eq!(crawl.entries.len(), 2);
}

#[test]
fn fresh_candidates_list_entries_under_a_path() {
    let mut index = RepositoryIndex::new();
    index.install(
        "/w",
        vec![
            ("/w/src/a.rs".to_owned(), meta(1, "file")),
            ("/w/srcx/b.rs".to_owned(), meta(2, "file")),
            ("/w/src".to_owned(), meta(0, "directory")),
        ],
        3,
    );
    let (generation, entries) = index.fresh_candidates("/w/src").unwrap();
    assert_eq!(generation, 1);
    let paths: Vec<&str> = entries.iter().map(|(p, _)| p.as_str()).collect();
    assert_eq!(paths, vec!["/w/src/a.rs", "/w/src"]);
    assert!(index.fresh_candidates("/other").is_none());
}
