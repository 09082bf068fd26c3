use chatcmd_runtime::RuntimeError;
use chatcmd_runtime::artifact_quota::{ArtifactFile, ArtifactQuota, is_managed_artifact, prune_plan};
use chatcmd_runtime::command::journal::{classify_record_name, validate_storage_key};
use chatcmd_runtime::command::registry::{
    Claim, CommandExecutionRegistry, ExecutionKey, orphaned_result, storage_key, validate_schema,
};
use chatcmd_runtime::command::{CommandIdentity, CommandTerminalState};

fn key() -> ExecutionKey {
    ExecutionKey { task_id: "task".into(), agent_id: "agent".into(), idempotency_key: "key".into() }
}

fn command() -> CommandIdentity {
    CommandIdentity { executable: "test".into(), argument_count: 0, arguments_sha256: "sha256:test".into() }
}

#[test]
fn reservations_enforce_cumulative_limit_and_release_unused_bytes() {
    let mut quota = ArtifactQuota::new(10, 3_600_000);
    let first = quota.reserve(7, 0).expect("first reservation");
    let error = match quota.reserve(4, 0) {
        Err(error) => error,
        Ok(_) => panic!("quota reservation unexpectedly succeeded"),
    };
    assert_eq!(error.code, "artifact_quota_exceeded");
    quota.release(first);
    let second = quota.reserve(10, 0).expect("released reservation");
    second.commit(&mut quota, 6);
    let error = match quota.reserve(5, 0) {
        Err(error) => error,
        Ok(_) => panic!("committed quota reservation unexpectedly succeeded"),
    };
    assert_eq!(error.code, "artifact_quota_exceeded");
    quota.reserve(4, 0).expect("remaining capacity");
}

#[test]
fn startup_prunes_oldest_managed_artifacts_but_keeps_other_files() {
    let files = vec![
        ArtifactFile { name: "process-first.output".into(), is_file: true, modified_ms: 1_000, size_bytes: 6 },
        ArtifactFile { name: "process-second.output".into(), is_file: true, modified_ms: 1_020, size_bytes: 6 },
        ArtifactFile { name: "keep.txt".into(), is_file: true, modified_ms: 1_030, size_bytes: 9 },
    ];
    let (removed, kept) = prune_plan(&files, 1_040, 3_600_000, 8);
    assert_eq!(removed, vec![true, false, false]);
    assert_eq!(kept, 6);
    let mut quota = ArtifactQuota::new(8, 3_600_000);
    quota.reserve(2, kept as u64).expect("capacity after pruning");
}

#[test]
fn expired_artifacts_are_pruned_first() {
    let files = vec![
        ArtifactFile { name: "process-old.output".into(), is_file: true, modified_ms: 0, size_bytes: 1 },
        ArtifactFile { name: "process-new.output".into(), is_file: true, modified_ms: 5_000, size_bytes: 1 },
        ArtifactFile { name: "process-dir.output".into(), is_file: false, modified_ms: 0, size_bytes: 1 },
    ];
    let (removed, kept) = prune_plan(&files, 5_000, 1_000, 100);
    assert_eq!(removed, vec![true, false, false]);
    assert_eq!(kept, 1);
    assert!(is_managed_artifact("process-x.output"));
    assert!(!is_managed_artifact("process-x.txt"));
}

#[test]
fn orphaned_running_record_recovers_as_unknown_without_rerun() {
    let mut first = CommandExecutionRegistry::new();
    let execution_id = match first.claim(&key(), "sha256:request", "exec-1").expect("initial claim") {
        Claim::Run { execution_id } => execution_id,
        _ => panic!("initial claim was not runnable"),
    };
    drop(first);

    let mut recovered = CommandExecutionRegistry::new();
    recovered.insert_finished(key(), "sha256:request".into(), orphaned_result(execution_id.clone(), command(), "/work".into(), 10, 20));
    let result = match recovered.claim(&key(), "sha256:request", "exec-2").expect("recovered claim") {
        Claim::Finished(result) => result,
        _ => panic!("orphan was not terminal after restart"),
    };
    assert_eq!(result.execution_id, execution_id);
    assert_eq!(result.terminal_state, CommandTerminalState::Unknown);
    assert_eq!(result.truncation_reason.as_deref(), Some("hostRestarted"));
}

#[test]
fn corrupt_durable_record_fails_closed() {
    let name = format!("{}.running.json", "b".repeat(64));
    let (stored_key, finished) = classify_record_name(&name).expect("record name").expect("a record");
    assert_eq!(stored_key, "b".repeat(64));
    assert!(!finished);
    let mut registry = CommandExecutionRegistry::unavailable(RuntimeError::new("execution_journal_corrupt", "record is not valid JSON"));
    assert_eq!(registry.claim(&key(), "sha256:request", "exec-1").expect_err("fail closed").code, "execution_journal_corrupt");
}

#[test]
fn a_claimed_key_waits_and_a_changed_request_conflicts() {
    let mut registry = CommandExecutionRegistry::new();
    assert!(matches!(registry.claim(&key(), "sha256:a", "exec-1").expect("run"), Claim::Run { .. }));
    assert!(matches!(registry.claim(&key(), "sha256:a", "exec-2").expect("wait"), Claim::Wait));
    let conflict = registry.claim(&key(), "sha256:b", "exec-3").expect_err("conflict");
    assert_eq!(conflict.code, "idempotency_conflict");
    registry.rollback_claim(&key(), "exec-1");
    assert!(matches!(registry.claim(&key(), "sha256:a", "exec-4").expect("run again"), Claim::Run { .. }));
}

#[test]
fn journal_names_and_schema_are_checked() {
    assert!(validate_storage_key(&"a".repeat(64)).is_ok());
    assert!(validate_storage_key(&"g".repeat(64)).is_err());
    assert!(validate_storage_key("abc").is_err());
    assert_eq!(classify_record_name("notes.txt").expect("ignored"), None);
    assert!(validate_schema(1).is_ok());
    assert_eq!(validate_schema(2).expect_err("schema").code, "execution_journal_corrupt");
    assert_eq!(storage_key(b"abc"), "ba7816bf8f01cfea414140de5dae2223b00361a396177a9cb410ff61f20015ad");
}

#[test]
fn pruning_stops_as_soon_as_the_rest_fits() {
    let files = vec![
        ArtifactFile { name: "process-a.output".into(), is_file: true, modified_ms: 1_000, size_bytes: 1 },
        ArtifactFile { name: "process-b.output".into(), is_file: true, modified_ms: 1_000, size_bytes: 100 },
        ArtifactFile { name: "process-c.output".into(), is_file: true, modified_ms: 1_010, size_bytes: 5 },
    ];
    let (removed, kept) = prune_plan(&files, 1_020, 3_600_000, 50);
    assert_eq!(removed, vec![true, true, false]);
    assert_eq!(kept, 5);
    let (removed, kept) = prune_plan(&files, 1_020, 3_600_000, 200);
    assert_eq!(removed, vec![false, false, false]);
    assert_eq!(kept, 106);
}
