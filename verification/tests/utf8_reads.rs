use chatcmd_runtime::utf8::{decode_utf8, first_scalar_len, is_cut_character, trim_incomplete_utf8_tail, utf8_valid_up_to};
use chatcmd_runtime::workspace::byte_range::{
    byte_read_caps, finish_byte_read, needs_boundary_check, probe_window, start_after_first_byte, start_from_probe,
    utf8_width,
};

#[test]
fn scalar_lengths_follow_utf8() {
    let text = "aé€😀".as_bytes();
    assert_eq!(first_scalar_len(text, 0), 1);
    assert_eq!(first_scalar_len(text, 1), 2);
    assert_eq!(first_scalar_len(text, 3), 3);
    assert_eq!(first_scalar_len(text, 6), 4);
    assert_eq!(first_scalar_len(text, 2), 0);
    assert_eq!(first_scalar_len(text, 10), 0);
    assert_eq!(first_scalar_len(&[0xc0, 0x80], 0), 0);
    assert_eq!(first_scalar_len(&[0xed, 0xa0, 0x80], 0), 0);
    assert_eq!(first_scalar_len(&[0xf4, 0x90, 0x80, 0x80], 0), 0);
    assert_eq!(first_scalar_len(&[0xe0, 0x9f, 0xbf], 0), 0);
}

#[test]
fn valid_up_to_matches_std() {
    let samples: Vec<Vec<u8>> = vec![
        b"plain".to_vec(),
        vec![0x61, 0xe2, 0x82],
        vec![0x61, 0xff, 0x62],
        vec![0xf0, 0x9f, 0x98, 0x80, 0xf0, 0x9f],
        vec![0xed, 0xa0, 0x80],
        vec![],
    ];
    for sample in samples {
        let expected = match std::str::from_utf8(&sample) {
            Ok(_) => sample.len(),
            Err(error) => error.valid_up_to(),
        };
        assert_eq!(utf8_valid_up_to(&sample), expected);
    }
}

#[test]
fn cut_characters_are_dropped_and_invalid_bytes_rejected() {
    assert!(is_cut_character(&[0xe2, 0x82]));
    assert!(is_cut_character(&[0xf0]));
    assert!(!is_cut_character(&[0xe0, 0x80]));
    assert!(!is_cut_character(&[0xff]));
    assert!(!is_cut_character(&[0x61]));

    let mut bytes = vec![0x61, 0x62, 0xe2, 0x82];
    assert!(trim_incomplete_utf8_tail(&mut bytes).is_ok());
    assert_eq!(bytes, b"ab".to_vec());

    let mut whole = "ok€".as_bytes().to_vec();
    assert!(trim_incomplete_utf8_tail(&mut whole).is_ok());
    assert_eq!(whole, "ok€".as_bytes().to_vec());

    let mut bad = vec![0x61, 0xff, 0x62];
    let error = trim_incomplete_utf8_tail(&mut bad).unwrap_err();
    assert_eq!(error.code, "invalid_utf8");
    assert_eq!(error.message, "file contains invalid UTF-8 near byte offset 1");
    assert_eq!(bad, vec![0x61, 0xff, 0x62]);
}

#[test]
fn byte_order_mark_is_dropped_only_at_file_start() {
    let bytes = vec![0xef, 0xbb, 0xbf, b'h', b'i'];
    assert_eq!(decode_utf8(bytes.clone(), true).unwrap(), (true, "hi".to_owned()));
    assert_eq!(decode_utf8(bytes, false).unwrap(), (false, "\u{feff}hi".to_owned()));
    assert_eq!(decode_utf8(vec![b'x', 0xc3], true).unwrap(), (false, "x".to_owned()));
    assert_eq!(decode_utf8(vec![0x80], true).unwrap_err().code, "invalid_utf8");
}

#[test]
fn byte_range_start_moves_past_a_split_character() {
    assert!(!needs_boundary_check(0, 10));
    assert!(!needs_boundary_check(10, 10));
    assert!(needs_boundary_check(4, 10));
    assert_eq!(start_after_first_byte(4, None), Some((4, 0)));
    assert_eq!(start_after_first_byte(4, Some(b'a')), Some((4, 1)));
    assert_eq!(start_after_first_byte(4, Some(0x82)), None);

    // "ab€cd": the euro sign occupies bytes 2..5; a range starting at 3 starts at 5.
    let file = "ab€cd".as_bytes();
    let (probe_start, probe_len) = probe_window(3, file.len() as u64);
    assert_eq!((probe_start, probe_len), (0, 7));
    let probe = &file[probe_start as usize..probe_start as usize + probe_len];
    assert_eq!(start_from_probe(3, probe_start, probe).unwrap(), (5, 8));
    assert_eq!(probe_window(1, 3), (0, 3));

    let continuation_only = [0x80u8, 0x80, 0x80, 0x80];
    assert_eq!(start_from_probe(3, 0, &continuation_only).unwrap_err().code, "invalid_utf8");
    let bad_lead = [0xff, 0x80];
    assert_eq!(start_from_probe(1, 0, &bad_lead).unwrap_err().code, "invalid_utf8");
    assert_eq!(utf8_width(b'a'), Some(1));
    assert_eq!(utf8_width(0xc3), Some(2));
    assert_eq!(utf8_width(0xe2), Some(3));
    assert_eq!(utf8_width(0xf0), Some(4));
    assert_eq!(utf8_width(0xf5), None);
}

#[test]
fn byte_reads_keep_whole_characters_within_the_caps() {
    assert_eq!(byte_read_caps(10, 4, 100, 0), (4, 7, 7));
    assert_eq!(byte_read_caps(0, 0, 100, 0), (1, 4, 4));
    assert_eq!(byte_read_caps(10, 20, 5, 2), (10, 13, 3));

    let file = "hé\r\nllo".as_bytes();
    let s = finish_byte_read(0, file.len() as u64, &file[..4], 3, 7, 7, 0, 100).unwrap();
    assert_eq!(s.content, "hé");
    assert!(!s.bom);
    assert_eq!(s.end_byte, 3);
    assert!(s.truncated);
    assert_eq!(s.next_byte_offset, Some(3));
    assert_eq!(s.truncation_reason.as_deref(), Some("rangeLimit"));
    assert_eq!(s.bytes_read, 4);
    assert_eq!(s.line_ending, "none");

    let s = finish_byte_read(3, file.len() as u64, &file[3..], 10, 13, 13, 0, 100).unwrap();
    assert_eq!(s.content, "\r\nllo");
    assert!(!s.truncated);
    assert_eq!(s.truncation_reason, None);
    assert_eq!(s.line_ending, "crlf");

    let s = finish_byte_read(0, 100, b"abc", 10, 3, 13, 0, 3).unwrap();
    assert_eq!(s.truncation_reason.as_deref(), Some("readBudget"));
}
