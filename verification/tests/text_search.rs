use chatcmd_runtime::workspace::read::LegacyLineCounter;
use chatcmd_runtime::workspace::search::{reports_progress, search_limit, search_lines, search_query, split_lines};

#[test]
fn lines_split_like_str_lines() {
    let samples = ["a\nb\r\nc", "a\n", "", "\n\n", "x\r", "one\r\ntwo\r\n", "é\nß"];
    for sample in samples {
        let chars: Vec<char> = sample.chars().collect();
        let got: Vec<String> = split_lines(&chars).into_iter().map(|l| l.into_iter().collect()).collect();
        let expected: Vec<String> = sample.lines().map(|l| l.to_owned()).collect();
        assert_eq!(got, expected, "sample {sample:?}");
    }
}

#[test]
fn search_finds_numbered_lines_up_to_the_room_left() {
    let content = "alpha\nBeta beta\r\ngamma\nbeta";
    let hits = search_lines(content, "beta", true, 10);
    assert_eq!(hits, vec![(2, "Beta beta".to_owned()), (4, "beta".to_owned())]);
    let needle = search_query("BETA", false);
    assert_eq!(needle, "beta");
    let hits = search_lines(content, &needle, false, 1);
    assert_eq!(hits, vec![(2, "Beta beta".to_owned())]);
    assert!(search_lines(content, "delta", false, 5).is_empty());
    assert!(search_lines(content, "alpha", true, 0).is_empty());
    assert_eq!(search_query("MiXed", true), "MiXed");
}

#[test]
fn search_limits_and_progress() {
    assert_eq!(search_limit(0), 1);
    assert_eq!(search_limit(50), 50);
    assert_eq!(search_limit(9_999), 2_000);
    assert!(reports_progress(1));
    assert!(!reports_progress(2));
    assert!(reports_progress(250));
    assert!(reports_progress(500));
    assert!(!reports_progress(251));
}

#[test]
fn legacy_line_counts_carry_split_characters() {
    let mut counter = LegacyLineCounter::new();
    assert_eq!(counter.finish().unwrap(), 0);
    let text = "é\nz".as_bytes();
    assert!(counter.feed(&text[..1]).is_ok());
    assert_eq!(counter.carry, vec![0xc3]);
    assert!(counter.feed(&text[1..]).is_ok());
    assert!(counter.carry.is_empty());
    assert_eq!(counter.finish().unwrap(), 2);

    let mut ends_with_newline = LegacyLineCounter::new();
    assert!(ends_with_newline.feed(b"a\nb\n").is_ok());
    assert_eq!(ends_with_newline.finish().unwrap(), 2);

    let mut cut = LegacyLineCounter::new();
    assert!(cut.feed(&[b'a', 0xe2, 0x82]).is_ok());
    assert_eq!(cut.finish().unwrap_err().message, "file ends with incomplete UTF-8");

    let mut bad = LegacyLineCounter::new();
    let error = bad.feed(&[b'a', 0xff, b'b']).unwrap_err();
    assert_eq!(error.code, "invalid_utf8");
    assert_eq!(error.message, "file contains invalid UTF-8 near byte offset 1");
}

#[test]
fn legacy_listing_ignores_case_then_orders_exactly() {
    use_legacy_listing();
}

fn use_legacy_listing() {
    let names: Vec<String> = ["b.txt", "A.txt", "a.txt", "C", "_x"].iter().map(|s| s.to_string()).collect();
    let order = chatcmd_runtime::workspace::legacy_list::legacy_list_order(&names);
    let sorted: Vec<&str> = order.iter().map(|&i| names[i].as_str()).collect();
    let mut expected: Vec<&str> = names.iter().map(String::as_str).collect();
    expected.sort_by(|a, b| a.to_lowercase().cmp(&b.to_lowercase()).then_with(|| a.cmp(b)));
    assert_eq!(sorted, expected);
    assert_eq!(sorted, vec!["_x", "A.txt", "a.txt", "b.txt", "C"]);
    let bounds = chatcmd_runtime::workspace::legacy_list::legacy_page_bounds;
    assert_eq!(bounds(5, 1, 2), (1, 3));
    assert_eq!(bounds(5, 9, 2), (5, 5));
    assert_eq!(bounds(5, 0, 0), (0, 1));
    assert_eq!(bounds(5, 3, 10_000), (3, 5));
}
