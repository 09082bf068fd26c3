use chatcmd_runtime::workspace::line_reader::{LineRangeReader, LineReadSummary};
use chatcmd_runtime::workspace::read::{
    TextReadBudget, TextReadRange, TextReadRequestV2, legacy_read_request, legacy_read_view, legacy_total_lines,
    line_ending_kind, line_endings, validate_read_request,
};

fn read_lines(bytes: &[u8], start: usize, limit: usize, keep_endings: bool, max_bytes: usize, budget: u64) -> (Vec<u8>, LineReadSummary) {
    let mut reader = LineRangeReader::new(start, limit, keep_endings, max_bytes);
    let mut read: u64 = 0;
    let mut index = 0;
    let mut eof = false;
    let mut budget_limited = false;
    loop {
        if reader.stopped() {
            break;
        }
        if read >= budget {
            budget_limited = true;
            break;
        }
        if index == bytes.len() {
            eof = true;
            reader.end_of_file();
            break;
        }
        if !reader.feed(bytes[index]) {
            break;
        }
        index += 1;
        read += 1;
    }
    reader.close(eof);
    let summary = reader.summary(eof, budget_limited, bytes.len() as u64);
    (reader.output.clone(), summary)
}

#[test]
fn line_range_reads_mixed_endings() {
    let (out, s) = read_lines(b"one\r\ntwo\nthree\rfour", 2, 2, true, 100, u64::MAX);
    assert_eq!(out, b"two\nthree\r".to_vec());
    assert_eq!(s.end_line, Some(3));
    assert!(s.truncated);
    assert_eq!(s.truncation_reason.as_deref(), Some("rangeLimit"));
    assert_eq!(s.next_start_line, Some(4));
    assert_eq!(s.line_ending, "mixed");
    assert_eq!(s.line_ending_detection, "sampled");
    assert_eq!(s.total_lines, None);
}

#[test]
fn line_range_without_endings_joins_with_newlines() {
    let (out, s) = read_lines(b"a\r\nb\r\nc", 1, 10, false, 100, u64::MAX);
    assert_eq!(out, b"a\nb\nc".to_vec());
    assert_eq!(s.end_line, Some(3));
    assert!(!s.truncated);
    assert_eq!(s.truncation_reason, None);
    assert_eq!(s.next_start_line, None);
    assert_eq!(s.line_ending, "crlf");
    assert_eq!(s.line_ending_detection, "complete");
    assert_eq!(s.total_lines, Some(3));
    assert!(s.total_lines_known);
    assert_eq!(s.end_byte, 7);
}

#[test]
fn line_range_stops_at_output_limit() {
    let (out, s) = read_lines(b"abcdef\nxyz\n", 1, 5, true, 4, u64::MAX);
    assert_eq!(out, b"abcd".to_vec());
    assert!(s.truncated);
    assert_eq!(s.truncation_reason.as_deref(), Some("outputLimit"));
    assert_eq!(s.next_start_line, Some(1));
    assert_eq!(s.next_byte_offset, Some(5));
}

#[test]
fn line_range_reports_read_budget() {
    let (out, s) = read_lines(b"first\nsecond\n", 1, 5, true, 100, 8);
    assert_eq!(out, b"first\nse".to_vec());
    assert!(s.truncated);
    assert_eq!(s.truncation_reason.as_deref(), Some("readBudget"));
    assert_eq!(s.next_start_line, Some(2));
}

#[test]
fn trailing_carriage_return_ends_the_last_line() {
    let (out, s) = read_lines(b"x\ry\r", 1, 5, true, 100, u64::MAX);
    assert_eq!(out, b"x\ry\r".to_vec());
    assert_eq!(s.line_ending, "cr");
    assert_eq!(s.total_lines, Some(2));
    assert_eq!(s.end_line, Some(2));
}

#[test]
fn empty_file_has_no_lines() {
    let (out, s) = read_lines(b"", 1, 5, true, 100, u64::MAX);
    assert!(out.is_empty());
    assert_eq!(s.end_line, None);
    assert_eq!(s.total_lines, Some(0));
    assert_eq!(s.line_ending, "none");
    assert!(!s.truncated);
}

#[test]
fn lone_carriage_return_before_the_range_end_is_left_unread() {
    let (out, s) = read_lines(b"a\rb", 1, 1, true, 100, u64::MAX);
    assert_eq!(out, b"a\r".to_vec());
    assert_eq!(s.end_byte, 2);
    assert!(s.truncated);
    assert_eq!(s.truncation_reason.as_deref(), Some("rangeLimit"));
}

fn request(range: TextReadRange, max_bytes: usize, max_bytes_read: u64) -> TextReadRequestV2 {
    TextReadRequestV2 {
        path: "a.txt".to_owned(),
        range,
        max_bytes,
        include_line_endings: true,
        expected_version: None,
        budget: TextReadBudget { timeout_ms: 1000, max_bytes_read },
    }
}

#[test]
fn read_requests_are_checked_in_order() {
    assert!(validate_read_request(&request(TextReadRange::Line { start: 1, limit: 1 }, 1, 1)).is_ok());
    assert_eq!(validate_read_request(&request(TextReadRange::Line { start: 0, limit: 1 }, 0, 0)).unwrap_err().code, "invalid_line_range");
    assert_eq!(validate_read_request(&request(TextReadRange::Byte { start: 0, limit: 0 }, 1, 1)).unwrap_err().code, "invalid_byte_range");
    assert_eq!(validate_read_request(&request(TextReadRange::Byte { start: 0, limit: 3 }, 0, 1)).unwrap_err().code, "invalid_output_limit");
    assert_eq!(validate_read_request(&request(TextReadRange::Line { start: 2, limit: 3 }, 4, 0)).unwrap_err().code, "invalid_read_budget");
}

#[test]
fn line_ending_statistics_and_legacy_counts() {
    assert_eq!(line_endings(b"a\r\nb\nc\rd"), (1, 1, 1));
    assert_eq!(line_ending_kind(0, 0, 0), "none");
    assert_eq!(line_ending_kind(3, 0, 0), "lf");
    assert_eq!(line_ending_kind(0, 0, 2), "cr");
    assert_eq!(line_ending_kind(1, 1, 0), "mixed");
    assert_eq!(legacy_total_lines(b"").unwrap(), 0);
    assert_eq!(legacy_total_lines(b"a\nb\n").unwrap(), 2);
    assert_eq!(legacy_total_lines(b"a\nb").unwrap(), 2);
    assert_eq!(legacy_total_lines(&[0xffu8, 0x0a]).unwrap_err().code, "invalid_utf8");
}

#[test]
fn legacy_reads_translate_to_line_requests() {
    let q = legacy_read_request("a.txt", 0, 1, None).unwrap();
    assert_eq!(q.range, TextReadRange::Line { start: 1, limit: usize::MAX });
    assert_eq!(q.max_bytes, 4);
    assert!(q.include_line_endings);
    let q = legacy_read_request("a.txt", 5_000_000, 3, Some(2)).unwrap();
    assert_eq!(q.max_bytes, 4_000_000);
    assert!(!q.include_line_endings);
    assert_eq!(legacy_read_request("a.txt", 10, 0, None).unwrap_err().code, "invalid_line_range");
    let (text, truncated, end) = legacy_read_view("héllo", 2, 4, None, false);
    assert_eq!(text, "hé");
    assert!(truncated);
    assert_eq!(end, 4);
    let (text, truncated, end) = legacy_read_view("", 2, 4, None, false);
    assert_eq!(text, "");
    assert!(!truncated);
    assert_eq!(end, 3);
}
