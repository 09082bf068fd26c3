use chatcmd_runtime::RuntimeError;
use chatcmd_runtime::workspace::mutation::{
    mutation_checkpoint, plain_transfer_request, transfer_outcome,
    EntryKind, FsConflictPolicy, FsDeleteMode, FsMutationBudget, FsVerifyMode, JournalRecovery, MutationCounts,
    MutationPhase, QuarantineCandidate, RecoveryStep, TransferRun, check_conflict, check_delete_target,
    check_expected_destination, check_quarantine_item, check_quarantine_source, check_staged_entry, check_staged_hash,
    check_transfer_options, delete_after_preflight, delete_paths, delete_phase, delete_result, effective_mutation_budget,
    failed_result, is_operation_journal_name, is_quarantine_name, journal_paths_within_root, phase_name, plan_quarantine_gc,
    plan_recovery, quarantine_max_items, quarantine_unavailable, quarantine_warning, recovery_complete,
    reject_overlapping_transfer, reject_scope_root, transfer_after_preflight, transfer_paths,
};

fn budget(max_files: u64, max_bytes: u64) -> FsMutationBudget {
    FsMutationBudget { timeout_ms: 1000, max_files, max_bytes_read: max_bytes, max_bytes_written: max_bytes, max_open_files: 4 }
}

#[test]
fn mutation_budgets_are_capped() {
    let b = effective_mutation_budget(FsMutationBudget {
        timeout_ms: u64::MAX,
        max_files: u64::MAX,
        max_bytes_read: u64::MAX,
        max_bytes_written: 5,
        max_open_files: 0,
    });
    assert_eq!(b.timeout_ms, 30 * 60_000);
    assert_eq!(b.max_files, 2_000_000);
    assert_eq!(b.max_bytes_read, 2 * 1024 * 1024 * 1024 * 1024);
    assert_eq!(b.max_bytes_written, 5);
    assert_eq!(b.max_open_files, 1);
    assert_eq!(effective_mutation_budget(budget(1, 1)).max_open_files, 4);
    let mut many = budget(1, 1);
    many.max_open_files = 500;
    assert_eq!(effective_mutation_budget(many).max_open_files, 64);
}

#[test]
fn transfer_requests_are_checked() {
    let mut one_file = budget(10, 10);
    one_file.max_open_files = 1;
    assert_eq!(check_transfer_options(&one_file, false).unwrap_err().code, "openFileBudgetExceeded");
    assert_eq!(check_transfer_options(&budget(10, 10), true).unwrap_err().code, "unsupported_symlink_policy");
    assert!(check_transfer_options(&budget(10, 10), false).is_ok());

    let scopes = vec!["/work".to_owned(), "/grant".to_owned()];
    assert_eq!(reject_scope_root(&scopes, "/work", true).unwrap_err().message, "workspace and explicit grant roots cannot be moved");
    assert_eq!(reject_scope_root(&scopes, "/grant", false).unwrap_err().message, "workspace and explicit grant roots cannot be deleted");
    assert!(reject_scope_root(&scopes, "/work/a", true).is_ok());

    assert_eq!(reject_overlapping_transfer("/work/a", "/work/a/b").unwrap_err().code, "overlapping_transfer");
    assert_eq!(reject_overlapping_transfer("/work/a/b", "/work/a").unwrap_err().code, "overlapping_transfer");
    assert_eq!(reject_overlapping_transfer("/work/a", "/work/a").unwrap_err().code, "overlapping_transfer");
    assert!(reject_overlapping_transfer("/work/a", "/work/ab").is_ok());

    assert_eq!(check_expected_destination(true, false).unwrap_err().code, "targetMissing");
    assert!(check_expected_destination(true, true).is_ok());
    assert_eq!(check_conflict(true, FsConflictPolicy::Error).unwrap_err().code, "already_exists");
    assert!(check_conflict(true, FsConflictPolicy::Replace).is_ok());
    assert!(check_conflict(false, FsConflictPolicy::Error).is_ok());
}

#[test]
fn planning_walk_counts_within_the_budget() {
    let b = budget(3, 100);
    let mut c = MutationCounts::zero();
    assert!(c.count_scanned(EntryKind::Directory, 0, &b).is_ok());
    assert!(c.count_scanned(EntryKind::File, 60, &b).is_ok());
    assert_eq!(c, MutationCounts { files: 1, directories: 1, bytes: 60 });
    assert_eq!(c.count_scanned(EntryKind::File, 50, &b).unwrap_err().message, "preflight exceeded byte budget");
    let mut d = MutationCounts { files: 2, directories: 1, bytes: 0 };
    assert_eq!(d.count_scanned(EntryKind::Directory, 0, &b).unwrap_err().message, "preflight exceeded maxFiles");
    let mut e = MutationCounts::zero();
    assert_eq!(e.count_scanned(EntryKind::Other, 0, &b).unwrap_err().code, "unsupported_file_type");
    assert_eq!(e, MutationCounts::zero());

    let mut copy = MutationCounts::zero();
    assert!(copy.count_directory_copied(&b).is_ok());
    assert!(copy.count_bytes_copied(100, &b).is_ok());
    assert_eq!(copy.count_bytes_copied(1, &b).unwrap_err().message, "copy exceeded byte budget");
    assert!(copy.count_file_copied(&b).is_ok());
    assert!(copy.count_file_copied(&b).is_ok());
    assert_eq!(copy.count_file_copied(&b).unwrap_err().message, "copy exceeded maxFiles");
}

#[test]
fn preflight_decides_planned_and_skipped_transfers() {
    let counts = MutationCounts { files: 2, directories: 1, bytes: 30 };
    let (r, done) = transfer_after_preflight("op", true, true, false, FsConflictPolicy::Error, counts);
    assert!(done);
    assert_eq!(r.state, "planned");
    assert_eq!(r.bytes_copied, 0);
    assert_eq!(r.files_processed, 2);
    let (r, done) = transfer_after_preflight("op", false, false, true, FsConflictPolicy::Skip, counts);
    assert!(done);
    assert_eq!(r.state, "skipped");
    assert_eq!(r.warnings, vec!["atomicPublish=false was requested; the safety implementation still uses staged publish".to_owned()]);
    let (r, done) = transfer_after_preflight("op", false, true, true, FsConflictPolicy::Replace, counts);
    assert!(!done);
    assert_eq!(r.bytes_copied, 30);
    let (r, done) = delete_after_preflight("op", true, counts);
    assert!(done);
    assert_eq!(r.state, "planned");
    assert_eq!(r.bytes_copied, 0);
}

#[test]
fn successful_move_publishes_before_removing_its_source() {
    let mut run = TransferRun::new("op", true, FsVerifyMode::Metadata, vec![]);
    run.begin_staging();
    assert_eq!(phase_name(run.phase), "staging");
    run.staged(MutationCounts { files: 3, directories: 1, bytes: 12 });
    run.verified();
    run.back_up_destination();
    assert!(run.backup_created);
    run.destination_backed_up();
    run.publishing();
    run.published();
    run.backup_left_behind("/work/.chatcmd-backup-op");
    run.removing_source();
    assert_eq!(phase_name(run.phase), "removingSource");
    let r = run.finish(false);
    assert_eq!(r.state, "completedWithSourceRemaining");
    assert_eq!(run.phase, MutationPhase::CompletedWithSourceRemaining);
    assert!(r.destination_published);
    assert!(!r.source_removed);
    assert!(r.verified);
    assert_eq!(r.files_processed, 3);
    assert_eq!(r.bytes_copied, 12);
    assert_eq!(
        r.warnings,
        vec![
            "old destination backup remains at /work/.chatcmd-backup-op".to_owned(),
            "destination published but source cleanup failed".to_owned()
        ]
    );

    let mut copy = TransferRun::new("op2", false, FsVerifyMode::Off, vec![]);
    copy.begin_staging();
    copy.staged(MutationCounts::zero());
    copy.verified();
    copy.publishing();
    copy.published();
    let r = copy.finish(true);
    assert_eq!(r.state, "completed");
    assert!(!r.source_removed);
    assert!(!r.verified);
}

#[test]
fn failures_roll_back_and_report() {
    let error = RuntimeError::new("verification_failed", "differs");
    let mut run = TransferRun::new("op", false, FsVerifyMode::Content, vec![]);
    run.begin_staging();
    let partial = MutationCounts { files: 1, directories: 0, bytes: 5 };
    let r = run.fail_before_publish(partial, false, true, &error, "verification_failed: differs");
    assert_eq!(r.state, "failedRolledBack");
    assert_eq!(run.phase, MutationPhase::FailedRolledBack);
    assert!(r.rollback_attempted && r.rollback_completed);
    assert_eq!(r.bytes_copied, 5);
    assert_eq!(r.warnings, vec!["verification_failed: differs".to_owned()]);

    let cancelled = RuntimeError::new("cancelled", "stop");
    let mut run = TransferRun::new("op", false, FsVerifyMode::Content, vec![]);
    run.begin_staging();
    run.staged(MutationCounts::zero());
    run.verified();
    let r = run.fail_before_publish(MutationCounts::zero(), true, false, &cancelled, "cancelled");
    assert_eq!(r.state, "cancelledPartial");
    assert_eq!(run.phase, MutationPhase::CancelledPartial);

    let timeout = RuntimeError::new("timeout", "late");
    let mut run = TransferRun::new("op", false, FsVerifyMode::Content, vec![]);
    run.begin_staging();
    run.staged(MutationCounts::zero());
    run.verified();
    let r = run.fail_before_publish(MutationCounts::zero(), true, true, &timeout, "timeout");
    assert_eq!(r.state, "failedRolledBack");
    assert_eq!(run.phase, MutationPhase::CancelledRolledBack);

    let io = RuntimeError::new("io_error", "busy");
    let mut run = TransferRun::new("op", false, FsVerifyMode::Content, vec![]);
    run.begin_staging();
    run.staged(MutationCounts::zero());
    run.verified();
    run.back_up_destination();
    run.destination_backed_up();
    run.publishing();
    let r = run.publish_failed(true, false, &io, "io_error: busy");
    assert_eq!(r.state, "failedPartial");
    assert!(!r.destination_published);

    let r = failed_result("op", MutationCounts::zero(), true, false, &cancelled, "x");
    assert_eq!(r.state, "cancelledPartial");
    assert!(r.destination_published);
}

#[test]
fn deletes_check_and_report() {
    assert_eq!(check_delete_target(true, false, true).unwrap_err().code, "directory_not_empty");
    assert!(check_delete_target(true, false, false).is_ok());
    assert!(check_delete_target(true, true, true).is_ok());
    assert_eq!(delete_phase(FsDeleteMode::Quarantine), MutationPhase::Quarantining);
    assert_eq!(phase_name(delete_phase(FsDeleteMode::Permanent)), "deleting");
    let e = quarantine_unavailable("cross-device link");
    assert_eq!(e.code, "quarantine_unavailable");
    assert_eq!(e.message, "same-filesystem quarantine failed; use explicit permanent mode if intended: cross-device link");
    let w = quarantine_warning("/work/.chatcmd-quarantine-op");
    assert_eq!(w, "quarantined data retained at /work/.chatcmd-quarantine-op");
    let r = delete_result("op", MutationCounts { files: 2, directories: 1, bytes: 9 }, vec![w]);
    assert_eq!(r.state, "completed");
    assert!(r.source_removed && r.verified);
    assert_eq!(r.bytes_copied, 0);
}

#[test]
fn recovery_puts_back_or_cleans_up() {
    let plan = plan_recovery("copy", "publishing", "", true, false, true, true);
    assert_eq!(plan, JournalRecovery::Steps(vec![RecoveryStep::RemoveStaging, RecoveryStep::RestoreBackup]));
    let plan = plan_recovery("move", "published", "", false, true, false, true);
    assert_eq!(plan, JournalRecovery::Steps(vec![RecoveryStep::RemoveBackup]));
    let plan = plan_recovery("copy", "staging", "", true, true, false, true);
    assert_eq!(plan, JournalRecovery::Steps(vec![RecoveryStep::RemoveBackup]));
    assert_eq!(plan_recovery("copy", "staging", "", true, false, false, false), JournalRecovery::Steps(vec![]));
    assert_eq!(plan_recovery("delete", "quarantining", "quarantine", true, true, true, true), JournalRecovery::Keep);
    assert_eq!(plan_recovery("delete", "quarantining", "quarantine", false, true, true, true), JournalRecovery::Remove);
    assert_eq!(plan_recovery("delete", "deleting", "permanent", true, false, false, false), JournalRecovery::Keep);
    assert_eq!(plan_recovery("delete", "completed", "permanent", true, false, false, false), JournalRecovery::Remove);
    assert!(recovery_complete(&vec![true, true]));
    assert!(recovery_complete(&vec![]));
    assert!(!recovery_complete(&vec![true, false]));
}

#[test]
fn journal_and_quarantine_names() {
    assert!(is_operation_journal_name(".chatcmd-operation-abc.json"));
    assert!(!is_operation_journal_name(".chatcmd-operation-abc.json.tmp"));
    assert!(!is_operation_journal_name("operation.json"));
    assert!(is_quarantine_name(".chatcmd-quarantine-abc"));
    assert!(!is_quarantine_name("quarantine"));
    assert_eq!(check_quarantine_source("notes").unwrap_err().code, "invalid_quarantine_path");
    assert!(journal_paths_within_root("/w/a", "/w/b", "/w/.s", "/w/.b", "/w"));
    assert!(!journal_paths_within_root("/w/a", "/other/b", "/w/.s", "/w/.b", "/w"));
    let (stage, backup, journal) = transfer_paths("/w/dir", "op1");
    assert_eq!(stage, "/w/dir/.chatcmd-stage-op1");
    assert_eq!(backup, "/w/dir/.chatcmd-backup-op1");
    assert_eq!(journal, "/w/dir/.chatcmd-operation-op1.json");
    let (quarantine, journal) = delete_paths("/", "op2");
    assert_eq!(quarantine, "/.chatcmd-quarantine-op2");
    assert_eq!(journal, "/.chatcmd-operation-op2.json");
}

#[test]
fn staged_copies_are_verified() {
    assert_eq!(check_staged_entry(FsVerifyMode::Metadata, true, false, 0, 0).unwrap_err().code, "verification_failed");
    assert_eq!(check_staged_entry(FsVerifyMode::Metadata, false, false, 3, 4).unwrap_err().code, "verification_failed");
    assert_eq!(check_staged_entry(FsVerifyMode::Metadata, false, false, 3, 3).unwrap(), false);
    assert_eq!(check_staged_entry(FsVerifyMode::Content, false, false, 3, 3).unwrap(), true);
    assert_eq!(check_staged_entry(FsVerifyMode::Content, true, true, 3, 9).unwrap(), false);
    assert!(check_staged_hash(&[1, 2, 3], &[1, 2, 3]).is_ok());
    assert_eq!(check_staged_hash(&[1, 2, 3], &[1, 2, 4]).unwrap_err().code, "verification_failed");
}

#[test]
fn quarantine_collection_removes_expired_then_oldest_over_quota() {
    assert_eq!(quarantine_max_items(1_000_000), 100_000);
    assert_eq!(quarantine_max_items(5), 5);
    assert!(check_quarantine_item(4, 5).is_ok());
    assert_eq!(check_quarantine_item(5, 5).unwrap_err().code, "budget_exceeded");

    let candidates = vec![
        QuarantineCandidate { bytes: 40, modified_ns: 300 },
        QuarantineCandidate { bytes: 10, modified_ns: 100 },
        QuarantineCandidate { bytes: 30, modified_ns: 200 },
        QuarantineCandidate { bytes: 20, modified_ns: 200 },
    ];
    let plan = plan_quarantine_gc(&candidates, 150, 50);
    assert_eq!(plan.order, vec![1, 2, 3, 0]);
    assert_eq!(plan.remove, vec![true, true, true, false]);
    assert_eq!(plan.removed_items, 3);
    assert_eq!(plan.bytes_removed, 60);
    assert_eq!(plan.retained_bytes, 40);

    let plan = plan_quarantine_gc(&candidates, 0, 1000);
    assert_eq!(plan.remove, vec![false, false, false, false]);
    assert_eq!(plan.retained_bytes, 100);
}

#[test]
fn plain_transfers_and_their_outcomes() {
    let request = plain_transfer_request("/w/a", "/w/b", true, budget(10, 10));
    assert_eq!(request.conflict_policy, FsConflictPolicy::Replace);
    assert_eq!(request.verify, FsVerifyMode::Metadata);
    assert!(request.atomic_publish && request.preserve_metadata && !request.follow_symlinks && !request.dry_run);
    assert_eq!(plain_transfer_request("/w/a", "/w/b", false, budget(1, 1)).conflict_policy, FsConflictPolicy::Error);
    assert!(transfer_outcome("skipped", false).is_ok());
    assert!(transfer_outcome("completedWithSourceRemaining", true).is_ok());
    let error = transfer_outcome("skipped", true).unwrap_err();
    assert_eq!(error.code, "mutation_incomplete");
    assert_eq!(error.message, "skipped");
    assert_eq!(transfer_outcome("failedPartial", false).unwrap_err().message, "failedPartial");
    assert_eq!(mutation_checkpoint(true, 0, 10).unwrap_err().code, "cancelled");
    assert_eq!(mutation_checkpoint(false, 10, 10).unwrap_err().code, "timeout");
    assert!(mutation_checkpoint(false, 9, 10).is_ok());
}
