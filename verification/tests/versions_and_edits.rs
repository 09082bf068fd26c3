use chatcmd_runtime::edits::lines::resolve_line_column_edits;
use chatcmd_runtime::edits::{
    ApplyEditsBudget, ApplyEditsRequest, ApplyEditsTestPoint, EditColumnEncoding, EditCoordinateSystem, ResolvedEdit,
    TextEdit, TextPosition, apply_to_bytes, count_newlines, dominant_newline, normalize_replacement, output_size,
    resolve_byte_edits, sort_edits, validate_ranges, validate_request, check_write_budget, preview,
};
use chatcmd_runtime::version::{
    FileVersion, FsStatBudget, Snapshot, VersionStrength, check_budget, compare_versions, content_hash, decode_token,
    encode_token, ensure_unchanged, fingerprint_identity, hash_budget_bytes, sample_positions, validate_hash_algorithm,
    verify_expected_version, version_of,
};

fn snapshot() -> Snapshot {
    Snapshot {
        identity_fingerprint: "identity".into(),
        entry_type: "file".into(),
        size_bytes: 1,
        modified_at_ns: Some(1),
        changed_at_ns: Some(1),
    }
}

#[test]
fn changed_snapshot_maps_to_hash_conflict() {
    let before = snapshot();
    let mut after = before.clone();
    after.size_bytes = 2;
    assert_eq!(ensure_unchanged(&before, &after).expect_err("changed during hash").code, "fileChangedDuringHash");
    assert!(ensure_unchanged(&before, &snapshot()).is_ok());
}

#[test]
fn unix_identity_uses_device_and_inode() {
    let first = fingerprint_identity(2049, 131_073);
    let second = fingerprint_identity(2049, 131_074);
    assert_ne!(first, second);
    assert_eq!(first, fingerprint_identity(2049, 131_073));
    assert!(first.starts_with("sha256:"));
}

#[test]
fn content_hash_matches_sha256_vector() {
    assert_eq!(content_hash(b"abc"), "sha256:ba7816bf8f01cfea414140de5dae2223b00361a396177a9cb410ff61f20015ad");
}

#[test]
fn tokens_round_trip_and_are_tamper_evident() {
    let key = b"secret key";
    let token = encode_token(key, b"{\"schema\":1}");
    assert!(token.starts_with("v1:"));
    assert_eq!(decode_token(key, &token).expect("round trip"), b"{\"schema\":1}".to_vec());
    assert_eq!(decode_token(b"other key", &token).expect_err("wrong key").code, "versionUnsupported");
    let mut tampered = token.clone();
    tampered.push('A');
    assert_eq!(decode_token(key, &tampered).expect_err("tampered").code, "versionUnsupported");
    assert_eq!(decode_token(key, "v2:abc:def").expect_err("version").code, "versionUnsupported");
}

#[test]
fn versions_compare_by_path_identity_and_metadata() {
    let current = version_of(&snapshot(), "path".into(), VersionStrength::Metadata, None);
    let same: FileVersion = current.clone();
    assert!(compare_versions(&current, &same).is_ok());
    let mut other_path = current.clone();
    other_path.path_fingerprint = "elsewhere".into();
    assert_eq!(compare_versions(&current, &other_path).expect_err("path").code, "versionMismatch");
    let mut replaced = current.clone();
    replaced.identity_fingerprint = "new".into();
    assert_eq!(compare_versions(&current, &replaced).expect_err("replaced").code, "targetReplaced");
    let mut grown = current.clone();
    grown.size_bytes = 9;
    assert_eq!(compare_versions(&current, &grown).expect_err("changed").code, "versionMismatch");
}

#[test]
fn hashing_honors_cancellation_and_byte_budget() {
    let budget = FsStatBudget { timeout_ms: 100, max_bytes_read: 10 };
    assert_eq!(check_budget(&budget, true, 0, 0).expect_err("cancelled").code, "operationCancelled");
    assert_eq!(check_budget(&budget, false, 0, 11).expect_err("bytes").code, "hashBudgetExceeded");
    assert_eq!(check_budget(&budget, false, 101, 0).expect_err("time").code, "hashBudgetExceeded");
    assert!(check_budget(&budget, false, 100, 10).is_ok());
    assert!(validate_hash_algorithm(Some("SHA256")).is_ok());
    assert!(validate_hash_algorithm(Some("md5")).is_err());
    assert_eq!(hash_budget_bytes(VersionStrength::Sampled, 1_000_000), Some(196_608));
    assert_eq!(hash_budget_bytes(VersionStrength::Metadata, 5), None);
    assert_eq!(sample_positions(200_000), (65_536, 0, 67_232, 134_464));
}

#[test]
fn post_commit_test_points_are_explicitly_named() {
    assert_ne!(ApplyEditsTestPoint::AfterAtomicReplace, ApplyEditsTestPoint::BeforeDirectorySync);
}

fn request(system: EditCoordinateSystem, edits: Vec<TextEdit>) -> ApplyEditsRequest {
    ApplyEditsRequest {
        path: "/work/file.txt".into(),
        expected_version: "v1:token".into(),
        edits,
        coordinate_system: system,
        column_encoding: match system {
            EditCoordinateSystem::Byte => None,
            EditCoordinateSystem::LineColumn => Some(EditColumnEncoding::Utf8CodePoint),
        },
        preserve_bom: true,
        preserve_line_endings: true,
        dry_run: false,
        budget: ApplyEditsBudget { timeout_ms: 1_000, max_bytes_read: 1_000, max_bytes_written: 1_000, max_edits: 10 },
    }
}

fn byte_edit(start: u64, end: u64, text: &str) -> TextEdit {
    TextEdit { start_byte: Some(start), end_byte: Some(end), start: None, end: None, text: text.into() }
}

fn line_edit(start: (usize, usize), end: (usize, usize), text: &str) -> TextEdit {
    TextEdit {
        start_byte: None,
        end_byte: None,
        start: Some(TextPosition { line: start.0, column: start.1 }),
        end: Some(TextPosition { line: end.0, column: end.1 }),
        text: text.into(),
    }
}

#[test]
fn requests_are_checked_before_the_file_is_read() {
    assert!(validate_request(&request(EditCoordinateSystem::Byte, vec![byte_edit(0, 1, "x")])).is_ok());
    assert_eq!(validate_request(&request(EditCoordinateSystem::Byte, vec![])).expect_err("empty").code, "editsEmpty");
    assert_eq!(
        validate_request(&request(EditCoordinateSystem::LineColumn, vec![byte_edit(0, 1, "x")])).expect_err("coordinates").code,
        "invalidEditCoordinates"
    );
    let mut unversioned = request(EditCoordinateSystem::Byte, vec![byte_edit(0, 1, "x")]);
    unversioned.expected_version = String::new();
    assert_eq!(validate_request(&unversioned).expect_err("version").code, "expectedVersionRequired");
}

#[test]
fn byte_edits_respect_boundaries_and_line_endings() {
    let content = "a\r\nb\r\nc\n".as_bytes();
    assert_eq!(count_newlines(content), (1, 2));
    assert_eq!(dominant_newline(1, 2).as_deref(), Some("\r\n"));
    let (edits, newline) = resolve_byte_edits(content, &request(EditCoordinateSystem::Byte, vec![byte_edit(1, 1, "x\ny")])).expect("resolved");
    assert_eq!(newline.as_deref(), Some("\r\n"));
    assert_eq!(edits[0].text, b"x\r\ny".to_vec());
    let accented = "é".as_bytes();
    assert_eq!(
        resolve_byte_edits(accented, &request(EditCoordinateSystem::Byte, vec![byte_edit(1, 2, "")])).expect_err("split").code,
        "invalidUtf8Boundary"
    );
    let bom = b"\xef\xbb\xbfabc";
    assert_eq!(
        resolve_byte_edits(bom, &request(EditCoordinateSystem::Byte, vec![byte_edit(0, 3, "")])).expect_err("bom").code,
        "bomPreservationViolation"
    );
    assert_eq!(
        resolve_byte_edits(b"\xff", &request(EditCoordinateSystem::Byte, vec![byte_edit(0, 0, "")])).expect_err("utf8").code,
        "invalidUtf8"
    );
    assert_eq!(normalize_replacement("a\r\nb\nc", Some("\r\n"), true), b"a\r\nb\r\nc".to_vec());
    assert_eq!(normalize_replacement("a\nb", Some("\r\n"), false), b"a\nb".to_vec());
}

#[test]
fn line_columns_resolve_to_byte_offsets() {
    let content = "\u{feff}ab\né\nz".as_bytes();
    let (edits, newline) = resolve_line_column_edits(
        content,
        &request(EditCoordinateSystem::LineColumn, vec![line_edit((1, 1), (1, 3), "X"), line_edit((2, 2), (3, 2), "")]),
    )
    .expect("resolved");
    assert_eq!(newline.as_deref(), Some("\n"));
    assert_eq!((edits[0].start, edits[0].end), (3, 5));
    assert_eq!((edits[1].start, edits[1].end), (8, 10));
    assert_eq!(
        resolve_line_column_edits(content, &request(EditCoordinateSystem::LineColumn, vec![line_edit((0, 1), (1, 1), "")])).expect_err("zero").code,
        "invalidRange"
    );
    assert_eq!(
        resolve_line_column_edits(content, &request(EditCoordinateSystem::LineColumn, vec![line_edit((1, 1), (1, 9), "")])).expect_err("outside").code,
        "invalidRange"
    );
    assert_eq!(
        resolve_line_column_edits(b"\xff", &request(EditCoordinateSystem::LineColumn, vec![line_edit((1, 1), (1, 1), "")])).expect_err("utf8").code,
        "invalidUtf8"
    );
}

#[test]
fn ordered_edits_apply_and_size_the_output() {
    let edits = vec![
        ResolvedEdit { start: 4, end: 5, text: b"E".to_vec() },
        ResolvedEdit { start: 0, end: 1, text: b"AA".to_vec() },
    ];
    let (sorted, order) = sort_edits(&edits);
    assert_eq!(order, vec![1, 0]);
    assert!(validate_ranges(&sorted, 5).is_ok());
    assert_eq!(output_size(5, &sorted).expect("size"), 6);
    assert_eq!(apply_to_bytes(b"abcde", &sorted), b"AAbcdE".to_vec());
    let overlapping = vec![
        ResolvedEdit { start: 0, end: 3, text: vec![] },
        ResolvedEdit { start: 2, end: 4, text: vec![] },
    ];
    assert_eq!(validate_ranges(&overlapping, 5).expect_err("overlap").code, "overlappingEdits");
    let reversed = vec![ResolvedEdit { start: 3, end: 2, text: vec![] }];
    assert_eq!(validate_ranges(&reversed, 5).expect_err("reversed").code, "invalidRange");
}

#[test]
fn previews_show_each_edit_within_the_limit() {
    let edits = vec![
        ResolvedEdit { start: 0, end: 2, text: b"hi".to_vec() },
        ResolvedEdit { start: 5, end: 5, text: vec![0xff, b'x'] },
    ];
    assert_eq!(preview(&edits), "@@ bytes 0..2 @@\n+hi\n@@ bytes 5..5 @@\n+\u{fffd}x\n");
    let big = vec![
        ResolvedEdit { start: 0, end: 0, text: vec![b'a'; 8000] },
        ResolvedEdit { start: 1, end: 1, text: vec![b'b'; 500] },
    ];
    let text = preview(&big);
    assert!(text.ends_with("... preview truncated"));
    assert!(text.starts_with("@@ bytes 0..0 @@\n+aaa"));
    assert!(!text.contains("bbb"));
    assert_eq!(preview(&vec![]), "");
    assert!(check_write_budget(10, 10).is_ok());
    assert_eq!(check_write_budget(11, 10).unwrap_err().code, "writeBudgetExceeded");
}

#[test]
fn expected_version_of_a_missing_target_is_target_missing() {
    let expected = version_of(&snapshot(), "path".into(), VersionStrength::Metadata, None);
    assert_eq!(verify_expected_version(&expected, None).expect_err("missing").code, "targetMissing");
    let current = expected.clone();
    assert!(verify_expected_version(&expected, Some(&current)).is_ok());
    let mut replaced = expected.clone();
    replaced.identity_fingerprint = "new".into();
    assert_eq!(verify_expected_version(&expected, Some(&replaced)).expect_err("replaced").code, "targetReplaced");
}
