use chatcmd_runtime::context::OperationContext;
use chatcmd_runtime::workspace::cursors::{CursorStore, MAX_ACTIVE_CURSORS, owner_key};
use chatcmd_runtime::workspace::find::root_version;
use chatcmd_runtime::workspace::listing::directory_version;
use sha2::{Digest, Sha256};

#[test]
fn cursors_are_used_once_and_expire() {
    let mut store: CursorStore<u32> = CursorStore::new();
    store.put("a".to_owned(), 1, 1_000);
    store.put("b".to_owned(), 2, 2_000);
    assert_eq!(store.entries.len(), 2);
    assert_eq!(store.entries[0].expires_at_ms, 1_000 + 900_000);
    assert_eq!(store.take("a", 5_000, "restart listing").unwrap(), 1);
    let error = store.take("a", 5_000, "restart listing").unwrap_err();
    assert_eq!(error.code, "cursor_expired");
    assert_eq!(error.message, "restart listing");
    assert_eq!(store.take("b", 902_000, "restart").unwrap_err().code, "cursor_expired");
    assert!(store.entries.is_empty());
}

#[test]
fn a_full_store_drops_the_cursor_that_expires_first() {
    let mut store: CursorStore<usize> = CursorStore::new();
    for i in 0..MAX_ACTIVE_CURSORS {
        store.put(format!("c{i}"), i, 10 + i as u64);
    }
    assert_eq!(store.entries.len(), MAX_ACTIVE_CURSORS);
    store.put("late".to_owned(), 999, 500);
    assert_eq!(store.entries.len(), MAX_ACTIVE_CURSORS);
    assert!(store.entries.iter().all(|e| e.id != "c0"));
    assert!(store.entries.iter().any(|e| e.id == "late"));
    store.put("c5".to_owned(), 55, 600);
    assert_eq!(store.entries.len(), MAX_ACTIVE_CURSORS);
    assert_eq!(store.entries.iter().find(|e| e.id == "c5").unwrap().state, 55);
    store.cleanup_expired(900_000 + 200);
    assert_eq!(store.entries.len(), 2);
}

#[test]
fn owner_keys_and_versions() {
    let mut ctx = OperationContext::new("r", "agent", "fs_find");
    assert_eq!(owner_key(&ctx), "agent::");
    ctx.task_id = Some("task".to_owned());
    ctx.conversation_scope_id = Some("conv".to_owned());
    assert_eq!(owner_key(&ctx), "agent:task:conv");
    assert_eq!(root_version(4096, 1_700_000_000_123_456_789), "4096:1700000000123456789");
    assert_eq!(root_version(0, u128::MAX), format!("0:{}", u128::MAX));

    let mut hash = Sha256::new();
    hash.update("/work/dir".as_bytes());
    hash.update(12_u128.to_le_bytes());
    hash.update(34_u128.to_le_bytes());
    hash.update(56_u64.to_le_bytes());
    hash.update([1_u8]);
    let expected = format!("sha256:{:x}", hash.finalize());
    assert_eq!(directory_version("/work/dir", 12, 34, 56, true), expected);
    assert_ne!(directory_version("/work/dir", 12, 34, 56, false), expected);
}
