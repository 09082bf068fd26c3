use chatcmd_runtime::workspace::atomic_write::{
    CommitKind, DurabilityMode, Utf8Stream, check_expected_target, check_write_cancelled, commit_kind, decode_raw_content,
    durability_achieved, preserves_metadata, syncs_data,
};

#[test]
fn streamed_text_is_checked_across_chunks() {
    let text = "naïve €".as_bytes();
    let mut stream = Utf8Stream::new();
    for chunk in text.chunks(2) {
        assert!(stream.feed(chunk).is_ok());
    }
    assert!(stream.finish().is_ok());

    let mut cut = Utf8Stream::new();
    assert!(cut.feed(&[b'a', 0xe2, 0x82]).is_ok());
    assert_eq!(cut.tail, vec![0xe2, 0x82]);
    assert_eq!(cut.finish().unwrap_err().message, "text ends with an incomplete UTF-8 sequence");
    assert!(cut.feed(&[0xac]).is_ok());
    assert!(cut.finish().is_ok());

    let mut bad = Utf8Stream::new();
    assert_eq!(bad.feed(&[0xff]).unwrap_err().message, "text is not valid UTF-8");
}

#[test]
fn commits_follow_the_overwrite_rules() {
    assert_eq!(commit_kind(true, false, false).unwrap_err().code, "already_exists");
    assert_eq!(commit_kind(true, true, true).unwrap(), CommitKind::Replace);
    assert_eq!(commit_kind(false, false, true).unwrap_err().code, "writeConflict");
    assert_eq!(commit_kind(false, true, false).unwrap(), CommitKind::CreateNew);
    assert_eq!(check_expected_target(true, false).unwrap_err().code, "targetMissing");
    assert!(check_expected_target(false, false).is_ok());
    assert_eq!(check_write_cancelled(true).unwrap_err().code, "operationCancelled");
    assert!(preserves_metadata(true, true));
    assert!(!preserves_metadata(true, false));
}

#[test]
fn durability_is_reported_as_achieved() {
    assert!(!syncs_data(DurabilityMode::Unsynced));
    assert!(syncs_data(DurabilityMode::Data));
    assert!(syncs_data(DurabilityMode::Full));
    assert_eq!(durability_achieved(DurabilityMode::Full, true), (DurabilityMode::Full, None));
    let (achieved, warning) = durability_achieved(DurabilityMode::Full, false);
    assert_eq!(achieved, DurabilityMode::Data);
    assert_eq!(warning.unwrap(), "parent directory sync is unavailable on this platform; file data was synchronized");
    assert_eq!(durability_achieved(DurabilityMode::Unsynced, false), (DurabilityMode::Unsynced, None));
}

#[test]
fn raw_content_is_base64() {
    assert_eq!(decode_raw_content("aGk=").unwrap(), b"hi".to_vec());
    assert_eq!(decode_raw_content("not base64!").unwrap_err().code, "invalid_base64");
}
