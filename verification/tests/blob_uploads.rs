use base64::Engine as _;
use base64::engine::general_purpose::STANDARD;
use chatcmd_runtime::RuntimeResult;
use chatcmd_runtime::blob::recovery::{Recovery, StoredFileKind, classify_stored_file, recover_entry};
use chatcmd_runtime::blob::upload::{BlobChunkRequest, BlobSealRequest, ChunkWrite, SealStep};
use chatcmd_runtime::blob::{
    BlobBeginRequest, BlobEntry, BlobOwner, BlobState, BlobStatus, BlobStore, BlobToolBudget, MAX_BLOB_BYTES, MIN_CHUNK_BYTES, blob_tracker,
};
use chatcmd_runtime::context::OperationContext;
use chatcmd_runtime::digest::sha256_hex;

const NOW: u64 = 1_000_000;

fn context(agent: &str) -> OperationContext {
    let mut context = OperationContext::new("request", agent, "blob");
    context.task_id = Some("task".into());
    context.turn_id = Some("turn".into());
    context
}

fn begin_request(purpose: &str, size: Option<u64>, sha: Option<String>, chunk: Option<usize>) -> BlobBeginRequest {
    BlobBeginRequest {
        purpose: purpose.into(),
        expected_size_bytes: size,
        content_type: None,
        expected_sha256: sha,
        chunk_size_bytes: chunk,
        ttl_seconds: None,
        budget: BlobToolBudget::default(),
    }
}

fn chunk(upload_id: &str, offset: u64, bytes: &[u8], sha: Option<String>, budget: BlobToolBudget) -> BlobChunkRequest {
    BlobChunkRequest {
        upload_id: upload_id.into(),
        offset,
        data_base64: STANDARD.encode(bytes),
        chunk_sha256: sha,
        budget,
    }
}

/// Writes a chunk the way the service does: the store decides, the bytes are appended
/// to the upload's file, and the store records them.
fn write(store: &mut BlobStore, ctx: &OperationContext, request: &BlobChunkRequest, file: &mut Vec<u8>) -> RuntimeResult<BlobStatus> {
    match store.write_chunk(ctx, request, NOW)? {
        ChunkWrite::Replayed(status) => Ok(status),
        ChunkWrite::Append(append) => {
            file.extend_from_slice(&append.bytes);
            store.commit_chunk(&append, NOW)
        }
    }
}

fn seal(store: &mut BlobStore, ctx: &OperationContext, request: &BlobSealRequest, file: &[u8]) -> RuntimeResult<BlobStatus> {
    match store.seal(ctx, request, NOW)? {
        SealStep::Sealed(status) => Ok(status),
        SealStep::Verify(check) => store.finish_seal(check, file, NOW),
    }
}

fn seal_request(upload_id: &str, size: u64, sha: String) -> BlobSealRequest {
    BlobSealRequest { upload_id: upload_id.into(), final_size_bytes: size, sha256: sha, budget: BlobToolBudget::default() }
}

#[test]
fn cancelled_blob_operation_returns_structured_budget_error() {
    let mut store = BlobStore::new("/blobs");
    let mut ctx = context("agent");
    ctx.cancelled = true;
    let error = store
        .begin(&ctx, &begin_request("fsWriteRaw", Some(1), None, None), NOW, "upload-1", "ref-1")
        .expect_err("cancelled begin");
    assert_eq!(error.code, "operationCancelled");
    assert_eq!(error.phase.as_deref(), Some("reservingBlob"));
    assert!(error.usage.is_some());
}

#[test]
fn caller_blob_budget_can_only_tighten_hard_caps_and_zero_is_not_unlimited() {
    let mut store = BlobStore::new("/blobs");
    let ctx = context("agent");
    let mut oversized_request = begin_request("fsWriteRaw", Some(MAX_BLOB_BYTES.saturating_add(1)), None, None);
    oversized_request.budget = BlobToolBudget {
        timeout_ms: u64::MAX,
        max_bytes_read: u64::MAX,
        max_bytes_written: u64::MAX,
        max_open_files: u32::MAX,
    };
    let oversized = store
        .begin(&ctx, &oversized_request, NOW, "upload-0", "ref-0")
        .expect_err("caller budget must not raise the hard blob size cap");
    assert_eq!(oversized.code, "blobQuotaExceeded");

    let bytes = b"abcd";
    let begin = store
        .begin(&ctx, &begin_request("fsWriteRaw", Some(bytes.len() as u64), Some(sha256_hex(bytes)), Some(MIN_CHUNK_BYTES)), NOW, "upload-1", "ref-1")
        .expect("begin");
    let mut file = Vec::new();
    let limited = write(
        &mut store,
        &ctx,
        &chunk(&begin.upload_id, 0, bytes, Some(sha256_hex(bytes)), BlobToolBudget { max_bytes_written: 3, ..BlobToolBudget::default() }),
        &mut file,
    )
    .expect_err("caller write cap must tighten the hard cap");
    assert_eq!(limited.code, "byteBudgetExceeded");
    assert_eq!(store.status(&ctx, &begin.upload_id, NOW).expect("status").next_offset, 0);

    let zero = write(
        &mut store,
        &ctx,
        &chunk(&begin.upload_id, 0, bytes, Some(sha256_hex(bytes)), BlobToolBudget { max_bytes_written: 0, ..BlobToolBudget::default() }),
        &mut file,
    )
    .expect_err("zero caller cap must not mean unlimited");
    assert_eq!(zero.code, "byteBudgetExceeded");

    let zero_timeout = blob_tracker(&ctx, &BlobToolBudget { timeout_ms: 0, ..BlobToolBudget::default() }, NOW);
    assert_eq!(
        zero_timeout.checkpoint(NOW + 1000).expect_err("zero timeout must clamp to a bounded deadline").code,
        "timeBudgetExceeded"
    );
}

#[test]
fn sequential_upload_resumes_and_duplicate_is_idempotent() {
    let mut store = BlobStore::new("/blobs");
    let ctx = context("agent");
    let bytes = b"large content";
    let begin = store
        .begin(&ctx, &begin_request("fsWriteRaw", Some(bytes.len() as u64), Some(sha256_hex(bytes)), Some(MIN_CHUNK_BYTES)), NOW, "upload-1", "ref-1")
        .expect("begin");
    let request = chunk(&begin.upload_id, 0, bytes, Some(sha256_hex(bytes)), BlobToolBudget::default());
    let mut file = Vec::new();
    let first = write(&mut store, &ctx, &request, &mut file).expect("chunk");
    let duplicate = write(&mut store, &ctx, &request, &mut file).expect("duplicate");
    assert_eq!(first.next_offset, bytes.len() as u64);
    assert_eq!(duplicate.next_offset, first.next_offset);
    assert_eq!(file.as_slice(), bytes);
    assert_eq!(store.status(&ctx, &begin.upload_id, NOW).expect("status").next_offset, bytes.len() as u64);
    assert_eq!(
        seal(&mut store, &ctx, &seal_request(&begin.upload_id, bytes.len() as u64, sha256_hex(bytes)), &file).expect("seal").state,
        "sealed"
    );
}

#[test]
fn conflicting_duplicate_and_cross_owner_access_are_rejected() {
    let mut store = BlobStore::new("/blobs");
    let ctx = context("agent");
    let begin = store
        .begin(&ctx, &begin_request("fsWriteText", Some(3), None, None), NOW, "upload-1", "ref-1")
        .expect("begin");
    let mut file = Vec::new();
    write(&mut store, &ctx, &chunk(&begin.upload_id, 0, b"abc", None, BlobToolBudget::default()), &mut file).expect("chunk");
    let conflict = write(&mut store, &ctx, &chunk(&begin.upload_id, 0, b"xyz", None, BlobToolBudget::default()), &mut file)
        .expect_err("conflict");
    assert_eq!(conflict.code, "blobChunkConflict");
    let denied = store.status(&context("other"), &begin.upload_id, NOW).expect_err("denied");
    assert_eq!(denied.code, "blobAccessDenied");
}

#[test]
fn integrity_mismatch_does_not_seal() {
    let mut store = BlobStore::new("/blobs");
    let ctx = context("agent");
    let begin = store
        .begin(&ctx, &begin_request("fsWriteRaw", Some(3), None, None), NOW, "upload-1", "ref-1")
        .expect("begin");
    let mut file = Vec::new();
    write(&mut store, &ctx, &chunk(&begin.upload_id, 0, b"abc", None, BlobToolBudget::default()), &mut file).expect("chunk");
    let error = seal(&mut store, &ctx, &seal_request(&begin.upload_id, 3, "0".repeat(64)), &file).expect_err("integrity mismatch");
    assert_eq!(error.code, "blobIntegrityMismatch");
    assert_eq!(store.status(&ctx, &begin.upload_id, NOW).expect("status").state, "uploading");
}

#[test]
fn task_cleanup_removes_only_matching_owner_bytes() {
    let mut store = BlobStore::new("/blobs");
    let first = context("agent");
    let mut second = context("agent");
    second.task_id = Some("other-task".into());
    let a = store
        .begin(&first, &begin_request("fsWriteRaw", Some(1), None, None), NOW, "upload-a", "ref-a")
        .expect("begin first");
    let b = store
        .begin(&second, &begin_request("fsWriteRaw", Some(1), None, None), NOW, "upload-b", "ref-b")
        .expect("begin second");
    assert_eq!(store.cleanup_task("task").expect("cleanup"), 1);
    assert_eq!(store.status(&first, &a.upload_id, NOW).expect_err("removed").code, "blobNotFound");
    assert_eq!(store.status(&second, &b.upload_id, NOW).expect("kept").state, "uploading");
    assert!(store.removed_paths.iter().any(|p| p.contains("upload-a")));
    assert!(!store.removed_paths.iter().any(|p| p.contains("upload-b")));
}

#[test]
fn only_one_consumer_can_lease_a_sealed_blob() {
    let mut store = BlobStore::new("/blobs");
    let ctx = context("agent");
    let bytes = b"abc";
    let begin = store
        .begin(&ctx, &begin_request("fsWriteRaw", Some(bytes.len() as u64), None, None), NOW, "upload-1", "ref-1")
        .expect("begin");
    let mut file = Vec::new();
    write(&mut store, &ctx, &chunk(&begin.upload_id, 0, bytes, None, BlobToolBudget::default()), &mut file).expect("chunk");
    seal(&mut store, &ctx, &seal_request(&begin.upload_id, bytes.len() as u64, sha256_hex(bytes)), &file).expect("seal");
    let first = store.lease(&ctx, &begin.content_ref, "fsWriteRaw", NOW).expect("first lease");
    let error = match store.lease(&ctx, &begin.content_ref, "fsWriteRaw", NOW) {
        Ok(_) => panic!("second lease must conflict"),
        Err(error) => error,
    };
    assert_eq!(error.code, "blobStateConflict");
    first.finish(&mut store, false).expect("release");
    store.lease(&ctx, &begin.content_ref, "fsWriteRaw", NOW).expect("lease after rollback");
}

#[test]
fn chunks_must_arrive_in_order_and_fit_the_reservation() {
    let mut store = BlobStore::new("/blobs");
    let ctx = context("agent");
    let begin = store
        .begin(&ctx, &begin_request("fsWriteRaw", Some(4), None, None), NOW, "upload-1", "ref-1")
        .expect("begin");
    let mut file = Vec::new();
    let gap = write(&mut store, &ctx, &chunk(&begin.upload_id, 2, b"ab", None, BlobToolBudget::default()), &mut file)
        .expect_err("gap");
    assert_eq!(gap.code, "blobOffsetMismatch");
    let too_big = write(&mut store, &ctx, &chunk(&begin.upload_id, 0, b"abcde", None, BlobToolBudget::default()), &mut file)
        .expect_err("larger than reserved");
    assert_eq!(too_big.code, "blobQuotaExceeded");
    let bad = store
        .write_chunk(&ctx, &BlobChunkRequest { data_base64: "***".into(), ..chunk(&begin.upload_id, 0, b"", None, BlobToolBudget::default()) }, NOW)
        .err()
        .expect("bad base64");
    assert_eq!(bad.code, "invalid_base64");
    let wrong = write(&mut store, &ctx, &chunk(&begin.upload_id, 0, b"ab", Some(sha256_hex(b"zz")), BlobToolBudget::default()), &mut file)
        .expect_err("digest");
    assert_eq!(wrong.code, "blobIntegrityMismatch");
    let short = seal(&mut store, &ctx, &seal_request(&begin.upload_id, 0, sha256_hex(b"")), &file).expect_err("size");
    assert_eq!(short.code, "blobSizeMismatch");
}

#[test]
fn begin_rejects_unknown_purposes_and_bad_digests() {
    let mut store = BlobStore::new("/blobs");
    let ctx = context("agent");
    let purpose = store
        .begin(&ctx, &begin_request("somethingElse", Some(1), None, None), NOW, "u", "r")
        .expect_err("purpose");
    assert_eq!(purpose.code, "invalidBlobPurpose");
    let digest = store
        .begin(&ctx, &begin_request("fsWriteRaw", Some(1), Some("xyz".into()), None), NOW, "u", "r")
        .expect_err("digest");
    assert_eq!(digest.code, "invalidSha256");
    let begun = store
        .begin(&ctx, &begin_request("fsWriteRaw", None, None, Some(1)), NOW, "u", "r")
        .expect("defaults");
    assert_eq!(begun.chunk_size_bytes, MIN_CHUNK_BYTES);
    assert_eq!(begun.expires_at_ms, NOW + 1_800_000);
    assert_eq!(begun.max_size_bytes, MAX_BLOB_BYTES);
}

#[test]
fn expired_uploads_are_aborted_and_collected() {
    let mut store = BlobStore::new("/blobs");
    let ctx = context("agent");
    let begin = store
        .begin(&ctx, &begin_request("fsWriteRaw", Some(1), None, None), NOW, "upload-1", "ref-1")
        .expect("begin");
    let later = begin.expires_at_ms;
    let expired = store.status(&ctx, &begin.upload_id, later).expect_err("expired");
    assert_eq!(expired.code, "blobExpired");
    assert_eq!(store.gc(later).expect("gc"), 1);
    assert_eq!(store.status(&ctx, &begin.upload_id, later).expect_err("gone").code, "blobNotFound");
}

#[test]
fn aborting_marks_the_upload_and_its_files() {
    let mut store = BlobStore::new("/blobs");
    let ctx = context("agent");
    let begin = store
        .begin(&ctx, &begin_request("fsWriteRaw", Some(1), None, None), NOW, "upload-1", "ref-1")
        .expect("begin");
    let status = store.abort(&ctx, &begin.upload_id, NOW).expect("abort");
    assert_eq!(status.state, "aborted");
    assert_eq!(store.removed_paths.len(), 2);
    assert_eq!(store.cleanup_all().expect("cleanup"), 1);
}

fn recorded(state: BlobState, received: u64) -> BlobEntry {
    BlobEntry {
        upload_id: "u1".into(),
        content_ref: "blob:v1:abc".into(),
        owner: BlobOwner { agent_id: "agent".into(), task_id: Some("task".into()), turn_id: Some("turn".into()) },
        purpose: "fsWriteRaw".into(),
        content_type: None,
        expected_size: Some(10),
        expected_sha256: None,
        chunk_size: 1,
        expires_at_ms: NOW + 10,
        path: String::new(),
        received,
        chunks: vec![],
        sha256: None,
        state,
    }
}

#[test]
fn upload_metadata_recovers_after_restart_and_resumes() {
    match recover_entry("/blobs", recorded(BlobState::Uploading, 4), Some(6), NOW) {
        Recovery::Keep { entry, truncate_to } => {
            assert_eq!(entry.path, "/blobs/u1.blob");
            assert_eq!(entry.chunk_size, MIN_CHUNK_BYTES);
            assert_eq!(entry.state, BlobState::Uploading);
            assert_eq!(truncate_to, Some(4));
            let mut store = BlobStore::new("/blobs");
            store.record_recovered(entry);
            assert_eq!(store.status(&context("agent"), "u1", NOW).expect("status").next_offset, 4);
        }
        Recovery::Discard => panic!("live upload was discarded"),
    }
    assert!(matches!(recover_entry("/blobs", recorded(BlobState::Uploading, 4), Some(3), NOW), Recovery::Discard));
    assert!(matches!(recover_entry("/blobs", recorded(BlobState::Uploading, 4), None, NOW), Recovery::Discard));
    assert!(matches!(recover_entry("/blobs", recorded(BlobState::Uploading, 4), Some(4), NOW + 10), Recovery::Discard));
}

#[test]
fn crash_during_consume_recovers_blob_to_sealed() {
    match recover_entry("/blobs", recorded(BlobState::Consuming, 3), Some(3), NOW) {
        Recovery::Keep { entry, truncate_to } => {
            assert_eq!(entry.state, BlobState::Sealed);
            assert_eq!(truncate_to, None);
        }
        Recovery::Discard => panic!("consuming upload was discarded"),
    }
    assert!(matches!(recover_entry("/blobs", recorded(BlobState::Consumed, 3), Some(3), NOW), Recovery::Discard));
    assert_eq!(classify_stored_file("u1.meta.json"), StoredFileKind::Metadata);
    assert_eq!(classify_stored_file("u1.meta.tmp-9"), StoredFileKind::Temporary);
    assert_eq!(classify_stored_file("u1.blob"), StoredFileKind::Other);
}

fn sealed_store(ctx: &OperationContext) -> (BlobStore, String, String) {
    let mut store = BlobStore::new("/blobs");
    let bytes = b"abc";
    let begin = store
        .begin(ctx, &begin_request("fsWriteRaw", Some(bytes.len() as u64), None, None), NOW, "upload-1", "ref-1")
        .expect("begin");
    let mut file = Vec::new();
    write(&mut store, ctx, &chunk(&begin.upload_id, 0, bytes, None, BlobToolBudget::default()), &mut file).expect("chunk");
    seal(&mut store, ctx, &seal_request(&begin.upload_id, bytes.len() as u64, sha256_hex(bytes)), &file).expect("seal");
    (store, begin.upload_id, begin.content_ref)
}

#[test]
fn consumed_blob_is_not_leased_again() {
    let ctx = context("agent");
    let (mut store, _, content_ref) = sealed_store(&ctx);
    let lease = store.lease(&ctx, &content_ref, "fsWriteRaw", NOW).expect("lease");
    lease.finish(&mut store, true).expect("consume");
    let error = match store.lease(&ctx, &content_ref, "fsWriteRaw", NOW) {
        Ok(_) => panic!("a consumed blob must not be leased"),
        Err(error) => error,
    };
    assert_eq!(error.code, "blobStateConflict");
}

#[test]
fn aborted_blob_is_not_leased() {
    let ctx = context("agent");
    let (mut store, upload_id, content_ref) = sealed_store(&ctx);
    store.abort(&ctx, &upload_id, NOW).expect("abort");
    assert!(store.lease(&ctx, &content_ref, "fsWriteRaw", NOW).is_err());
}
