use chatcmd_runtime::computer::{
    ComputerBrowser, check_navigation, validate_navigation_url, KeyEvent, browser_candidates, ensure_owner, find_browser, keypress_events, modifier_bit, owner,
    validate_dimensions, validate_keys, validate_wait,
};
use chatcmd_runtime::context::OperationContext;
use chatcmd_runtime::desktop::capture::{FrameCache, RgbaFrame, encode_frame, validate_dimensions as validate_frame_dimensions, validate_rgba};
use chatcmd_runtime::desktop::focus::{is_sensitive_label, is_useful};
use chatcmd_runtime::desktop::input::{drag_steps, interpolate, move_target, scroll_inputs, virtual_key};
use chatcmd_runtime::desktop::overlay::{Rect, target_in_monitor};
use chatcmd_runtime::desktop::policy::{is_denied_target, is_forbidden_key};

#[test]
fn dimensions_are_bounded() {
    assert!(validate_dimensions(1280, 800).is_ok());
    assert!(validate_dimensions(400, 800).is_err());
    assert!(validate_dimensions(1280, 2000).is_err());
}

#[test]
fn session_owner_is_task_scoped() {
    let mut first = OperationContext::new("one", "agent", "computer_observe");
    first.task_id = Some("task-one".into());
    let mut second = first.clone();
    second.task_id = Some("task-two".into());
    assert!(ensure_owner(&owner(&first), &first).is_ok());
    assert!(ensure_owner(&owner(&first), &second).is_err());
}

#[test]
fn brave_candidates_are_not_chrome_or_edge() {
    let paths = browser_candidates(ComputerBrowser::Brave);
    assert!(!paths.is_empty());
    assert!(paths.iter().all(|path| {
        let name = path.rsplit('/').next().unwrap_or("");
        name.to_ascii_lowercase().contains("brave")
    }));
}

#[test]
fn the_first_installed_candidate_is_chosen() {
    let found = find_browser(ComputerBrowser::Chrome, &vec![false, true, true]).expect("found");
    assert_eq!(found, "/usr/bin/chromium");
    let missing = find_browser(ComputerBrowser::Edge, &vec![false, false]).expect_err("missing");
    assert_eq!(missing.code, "computer_browser_not_found");
    assert_eq!(missing.message, "Edge executable was not found");
}

#[test]
fn key_chords_press_modifiers_first_and_release_in_reverse() {
    assert_eq!(modifier_bit("ctrl"), Some(2));
    assert_eq!(modifier_bit("Shift"), Some(8));
    assert_eq!(modifier_bit("a"), None);
    let events: Vec<KeyEvent> = keypress_events(&vec!["Control".to_owned(), "a".to_owned()]);
    assert_eq!(events.len(), 4);
    assert!(events[0].down && events[1].down && !events[2].down && !events[3].down);
    assert_eq!(events[0].key, events[3].key);
    assert_eq!(events[1].key, events[2].key);
    assert!(validate_keys(&vec![]).is_err());
    assert!(validate_wait(0).is_err());
    assert!(validate_wait(1000).is_ok());
}

#[test]
fn frame_cache_keeps_only_latest_sequence() {
    let mut cache = FrameCache::default();
    let _ = cache.publish(1, 1, vec![1, 2, 3, 4]).expect("first frame");
    let _ = cache.publish(1, 1, vec![5, 6, 7, 8]).expect("second frame");
    let latest = cache.latest().expect("latest frame").expect("a frame");
    assert_eq!(latest.sequence, 2);
    assert_eq!(latest.pixels.as_slice(), &[5, 6, 7, 8]);
}

#[test]
fn invalid_or_oversized_frames_are_rejected() {
    assert!(validate_rgba(1, 1, 3).is_err());
    assert!(validate_frame_dimensions(0, 1).is_err());
    assert!(validate_frame_dimensions(4097, 4096).is_err());
}

#[test]
fn wait_after_has_a_bounded_timeout() {
    let cache = FrameCache::default();
    let error = cache.wait_after(0, 0).expect_err("timeout without a frame");
    assert_eq!(error.code, "desktop_capture_timeout");
    assert!(error.retryable);
}

#[test]
fn wait_after_never_returns_the_baseline_frame_on_timeout() {
    let mut cache = FrameCache::default();
    let _ = cache.publish(1, 1, vec![0; 4]).expect("baseline frame");
    let error = cache.wait_after(1, 0).expect_err("baseline is not a newer frame");
    assert_eq!(error.code, "desktop_capture_timeout");
    assert!(error.retryable);
}

#[test]
fn current_sequence_is_zero_then_tracks_published_frames() {
    let mut cache = FrameCache::default();
    assert_eq!(cache.current_sequence().expect("empty sequence"), 0);
    let _ = cache.publish(1, 1, vec![0; 4]).expect("first frame");
    assert_eq!(cache.current_sequence().expect("first sequence"), 1);
}

#[test]
fn wait_after_observes_a_later_frame() {
    let mut cache = FrameCache::default();
    let _ = cache.publish(1, 1, vec![0; 4]).expect("initial frame");
    assert!(cache.wait_after(1, 1000).expect("still waiting").is_none());
    let previous = cache.publish(1, 1, vec![9; 4]).expect("new frame");
    assert_eq!(previous, Some(vec![0; 4]));
    let frame = cache.wait_after(1, 1000).expect("later frame").expect("a frame");
    assert_eq!(frame.sequence, 2);
    assert_eq!(frame.pixels.as_slice(), &[9; 4]);
}

#[test]
fn terminal_error_wakes_waiters_without_returning_a_stale_frame() {
    let mut cache = FrameCache::default();
    let _ = cache.publish(1, 1, vec![0; 4]).expect("initial frame");
    cache.fail("window closed");
    let error = cache.wait_after(1, 1000).expect_err("terminal failure");
    assert_eq!(error.code, "desktop_capture_closed");
    assert!(cache.latest().is_err());
}

#[test]
fn rgba_frame_encodes_as_png_on_demand() {
    let frame = RgbaFrame { sequence: 1, width: 1, height: 1, pixels: vec![255, 0, 0, 255] };
    let encoded = encode_frame(&frame).expect("PNG encoding");
    assert_eq!(&encoded[..8], b"\x89PNG\r\n\x1a\n");
    let short = RgbaFrame { sequence: 1, width: 2, height: 1, pixels: vec![255, 0, 0, 255] };
    assert_eq!(encode_frame(&short).expect_err("short image").code, "desktop_backend_error");
}

#[test]
fn sensitive_and_terminal_windows_are_denied() {
    assert!(is_denied_target(1, 2, "powershell.exe", "work", "ConsoleWindowClass"));
    assert!(is_denied_target(1, 2, "explorer.exe", "Ausführen", "#32770"));
    assert!(is_denied_target(1, 2, "browser.exe", "Account login", "BrowserWindow"));
}

#[test]
fn ordinary_application_window_is_allowed() {
    assert!(!is_denied_target(1, 2, "notepad.exe", "notes.txt - Notepad", "Notepad"));
}

#[test]
fn the_runtime_never_targets_its_own_process() {
    assert!(is_denied_target(7, 7, "notepad.exe", "notes.txt - Notepad", "Notepad"));
    assert!(is_forbidden_key("Win"));
    assert!(!is_forbidden_key("a"));
}

#[test]
fn target_rect_is_translated_and_clipped_to_monitor() {
    let monitor = Rect { left: 1920, top: -100, right: 3840, bottom: 980 };
    let client = Rect { left: 0, top: 0, right: 1920, bottom: 1080 };
    let target = Rect { left: 1900, top: -50, right: 4000, bottom: 900 };
    let translated = target_in_monitor(target, monitor, client);
    assert_eq!(translated.left, 0);
    assert_eq!(translated.top, 50);
    assert_eq!(translated.right, 1920);
    assert_eq!(translated.bottom, 1000);
}

#[test]
fn detects_common_authentication_labels() {
    for value in ["Password", "current_passwd", "One-time code", "verificationCodeInput", "Enter PIN", "Sign in"] {
        assert!(is_sensitive_label(value), "missed {value}");
    }
}

#[test]
fn ordinary_editor_labels_are_allowed() {
    for value in ["Message body", "Compose", "Search mail", "Recipient"] {
        assert!(!is_sensitive_label(value), "false positive for {value}");
    }
}

#[test]
fn useful_element_filter_keeps_named_or_actionable_controls() {
    assert!(is_useful("Save", "", &vec![]));
    assert!(is_useful("", "", &vec!["invoke".to_owned()]));
}

#[test]
fn useful_element_filter_drops_empty_offscreen_layout_nodes() {
    assert!(!is_useful("", "", &vec![]));
    assert!(!is_useful("  ", "\t", &vec![]));
}

#[test]
fn input_geometry_is_exact() {
    assert_eq!(move_target(100, 200, 300, 400, 10, 20).expect("inside"), (110, 220));
    assert_eq!(move_target(100, 200, 300, 400, 200, 20).expect_err("outside").code, "invalid_arguments");
    assert_eq!(drag_steps(0), 1);
    assert_eq!(drag_steps(160), 10);
    assert_eq!(drag_steps(100_000), 240);
    assert_eq!(interpolate(0, 100, 1, 3), 33);
    assert_eq!(interpolate(100, 0, 1, 3), 67);
    assert_eq!(scroll_inputs(5, 120), vec![(0x0800, -120), (0x1000, 5)]);
    assert_eq!(scroll_inputs(0, 0), vec![]);
    assert_eq!(virtual_key("Enter").expect("enter"), 0x0D);
    assert!(virtual_key("NoSuchKey").is_err());
}

#[test]
fn navigation_rejects_local_file_schemes() {
    assert!(validate_navigation_url("https://example.com").is_ok());
    assert!(validate_navigation_url("about:blank").is_ok());
    assert!(validate_navigation_url("file:///C:/secret.txt").is_err());
    assert!(validate_navigation_url("javascript:alert(1)").is_err());
}

#[test]
fn navigation_decisions_follow_the_parsed_scheme() {
    assert!(check_navigation("HTTP://example.com", Some("http")).is_ok());
    assert_eq!(check_navigation("file:///x", Some("file")).expect_err("file").code, "computer_url_denied");
    assert_eq!(check_navigation("not a url", None).expect_err("unparsed").code, "invalid_arguments");
    assert!(check_navigation("about:blank", None).is_ok());
    assert_eq!(validate_navigation_url("not a url").expect_err("relative").code, "invalid_arguments");
    assert_eq!(validate_navigation_url("file:///C:/secret.txt").expect_err("file").code, "computer_url_denied");
    assert!(validate_navigation_url("HTTPS://Example.com/path").is_ok());
}
