use chatcmd_runtime::workspace::find::{
    FindCursorScope, FindDecision, FindEntryType, FindPatternMode, FindScan, FindStep, check_find_cursor, check_pattern,
    entry_passes, entry_type_matches, path_depth, skips_by_depth, extension_matches, find_budget, path_has_hidden_component, pattern_matches,
};
use chatcmd_runtime::workspace::listing::TruncationReason;

#[test]
fn patterns_compile_and_invalid_patterns_fail_before_scan() {
    assert!(check_pattern("FileSystem", FindPatternMode::Literal, false).is_ok());
    assert!(check_pattern("**/*.rs", FindPatternMode::Glob, false).is_ok());
    assert_eq!(check_pattern("[", FindPatternMode::Glob, false).expect_err("invalid glob").code, "invalid_find_pattern");
    assert_eq!(check_pattern("(", FindPatternMode::Regex, false).expect_err("invalid regex").code, "invalid_find_pattern");
}

#[test]
fn ignore_filters_depth_extensions_and_pattern_modes_work() {
    let root = "/work";
    let glob = |path: &str| entry_passes(root, path, "file", false, &vec![], &vec!["rs".to_owned()], "**/*.rs", FindPatternMode::Glob, false);
    assert!(glob("/work/src/main.rs"));
    assert!(glob("/work/src/deep/lib.rs"));
    assert!(!glob("/work/src/notes.txt"));
    assert!(!glob("/work/.hidden/x.rs"));
    assert!(pattern_matches(root, "/work/src/main.rs", r"^src/.+\.rs$", FindPatternMode::Regex, false));
    assert!(!pattern_matches(root, "/work/lib/main.rs", r"^src/.+\.rs$", FindPatternMode::Regex, false));
    assert!(pattern_matches(root, "/work/src/FileSystem.rs", "filesystem", FindPatternMode::Literal, false));
    assert!(!pattern_matches(root, "/work/src/FileSystem.rs", "filesystem", FindPatternMode::Literal, true));
    assert!(!pattern_matches(root, "/work/filesystem/other.rs", "filesystem", FindPatternMode::Literal, false));
}

#[test]
fn include_ignored_hidden_exclude_and_entry_type_filters_work() {
    assert!(path_has_hidden_component("/work", "/work/.git/config"));
    assert!(!path_has_hidden_component("/work/.repo", "/work/.repo/src/a.rs"));
    assert!(!path_has_hidden_component("/work", "/work/./src/../a.rs"));
    assert!(entry_type_matches("file", &vec![]));
    assert!(entry_type_matches("file", &vec![FindEntryType::Directory, FindEntryType::File]));
    assert!(!entry_type_matches("symlink", &vec![FindEntryType::File]));
    assert!(extension_matches("/work/a.RS", &vec![".rs".to_owned()]));
    assert!(!extension_matches("/work/.rs", &vec!["rs".to_owned()]));
    assert!(!extension_matches("/work/archive.tar.gz", &vec!["tar".to_owned()]));
    assert!(extension_matches("/work/archive.tar.gz", &vec!["gz".to_owned()]));
    assert!(entry_passes("/work", "/work/.hidden.rs", "file", true, &vec![FindEntryType::File], &vec![], "**/*.rs", FindPatternMode::Glob, false));
}

#[test]
fn budget_cancellation_and_cursor_continuation_are_bounded() {
    assert_eq!(find_budget(u64::MAX, 0, u64::MAX), (60_000, 1, 100_000));
    let mut scan = FindScan::new(2, 10, 0);
    assert_eq!(scan.next_step(false, false), FindStep::Read);
    assert_eq!(scan.on_candidate(true, false, true, false), FindDecision::Skip);
    assert_eq!(scan.next_step(false, false), FindStep::Read);
    assert_eq!(scan.on_candidate(false, false, true, false), FindDecision::Accept);
    assert_eq!(scan.next_step(false, false), FindStep::Read);
    assert_eq!(scan.on_candidate(false, false, true, true), FindDecision::Hold);
    assert_eq!(scan.truncation, Some(TruncationReason::MetadataBudget));
    assert!(scan.has_more);
    let mut full = FindScan::new(1, 10, 10);
    assert_eq!(full.next_step(false, false), FindStep::Read);
    assert_eq!(full.on_candidate(false, false, true, false), FindDecision::Accept);
    assert_eq!(full.next_step(true, true), FindStep::Peek);
    assert_eq!(full.on_candidate(false, false, false, false), FindDecision::Hold);
    assert!(full.has_more && full.truncation.is_none());
    let mut cancelled = FindScan::new(5, 10, 10);
    assert_eq!(cancelled.next_step(true, false), FindStep::Done);
    assert_eq!(cancelled.truncation, Some(TruncationReason::Cancelled));
    let mut stale = FindScan::new(5, 10, 10);
    assert_eq!(stale.next_step(false, false), FindStep::Read);
    assert_eq!(stale.on_candidate(false, true, true, false), FindDecision::Stale);
}

#[test]
fn cursor_is_bound_to_owner_options_and_server_state() {
    let scope = FindCursorScope {
        root: "/work".into(),
        owner: "a:task:".into(),
        request_fingerprint: "{}".into(),
        root_version: "4:10".into(),
    };
    assert!(check_find_cursor(&scope, "/work", "a:task:", "{}", Some("4:10"), "4:10").is_ok());
    assert_eq!(check_find_cursor(&scope, "/work", "b:task:", "{}", Some("4:10"), "4:10").expect_err("owner").code, "cursor_scope_mismatch");
    assert_eq!(check_find_cursor(&scope, "/work", "a:task:", "{}", Some("4:11"), "4:10").expect_err("version").code, "cursor_scope_mismatch");
    assert_eq!(check_find_cursor(&scope, "/work", "a:task:", "{}", Some("4:10"), "5:10").expect_err("changed").code, "directory_changed");
}

#[test]
fn oversize_glob_is_refused_instead_of_panicking() {
    let pattern: String = std::iter::repeat('?').take(1_000_000).collect();
    let error = check_pattern(&pattern, FindPatternMode::Glob, true).expect_err("oversize glob");
    assert_eq!(error.code, "invalid_find_pattern");
    assert!(!pattern_matches("/w", "/w/a", &pattern, FindPatternMode::Glob, true));
}

#[test]
fn glob_matches_relative_paths_across_separators() {
    assert!(pattern_matches("/w", "/w/src/lib.rs", "*.rs", FindPatternMode::Glob, true));
    assert!(pattern_matches("/w", "/w/src/lib.rs", "src/*.rs", FindPatternMode::Glob, true));
    assert!(!pattern_matches("/w", "/w/src/lib.rs", "*.md", FindPatternMode::Glob, true));
    assert!(pattern_matches("/w", "/w/SRC/Lib.RS", "src/*.rs", FindPatternMode::Glob, false));
}

#[test]
fn depth_counts_components_below_the_root() {
    assert_eq!(path_depth("/w", "/w"), 0);
    assert_eq!(path_depth("/w", "/w/a"), 1);
    assert_eq!(path_depth("/w", "/w/a/b/c.txt"), 3);
    assert_eq!(path_depth("/w", "/other/a"), usize::MAX);
    assert!(skips_by_depth("/w", "/w", true, 0, 5));
    assert!(!skips_by_depth("/w", "/w", false, 0, 5));
    assert!(skips_by_depth("/w", "/w/a/b", true, 2, 1));
    assert!(!skips_by_depth("/w", "/w/a", true, 1, 1));
}
