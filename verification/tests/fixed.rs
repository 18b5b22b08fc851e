use record_decoder::fixed::{process_file, MyApp, Record};
use record_decoder::MyError;

fn encode(record_type: i32, id: i32, name: &[u8]) -> Vec<u8> {
    assert!(name.len() <= 20);
    let mut out = Vec::new();
    out.extend_from_slice(&record_type.to_le_bytes());
    out.extend_from_slice(&id.to_le_bytes());
    out.extend_from_slice(name);
    out.resize(28, b' ');
    out
}

fn rec(record_type: i32, id: i32, name: &str) -> Record {
    Record { record_type, id, name: name.to_string() }
}

#[test]
fn fixed_one_record() {
    let record = Record::from_bytes(&encode(1, 1001, b"Alice"));
    assert_eq!(record, Ok(rec(1, 1001, "Alice")));
}

#[test]
fn fixed_integers_are_little_endian_and_signed() {
    let mut bytes = vec![0x78, 0x56, 0x34, 0x12, 0xFE, 0xFF, 0xFF, 0xFF];
    bytes.extend_from_slice(b"x                   ");
    assert_eq!(Record::from_bytes(&bytes), Ok(rec(0x1234_5678, -2, "x")));
}

#[test]
fn fixed_extreme_integers() {
    assert_eq!(
        Record::from_bytes(&encode(i32::MIN, i32::MAX, b"n")),
        Ok(rec(i32::MIN, i32::MAX, "n"))
    );
    assert_eq!(Record::from_bytes(&encode(-1, 0, b"n")), Ok(rec(-1, 0, "n")));
}

#[test]
fn fixed_fewer_than_28_bytes_are_no_record() {
    let bytes = encode(1, 2, b"name");
    for len in 0..28 {
        assert_eq!(Record::from_bytes(&bytes[..len]), Err(MyError::InvalidFormat));
    }
}

#[test]
fn fixed_bytes_after_the_first_28_are_not_read() {
    let mut bytes = encode(1, 2, b"name");
    bytes.extend_from_slice(b"more");
    assert_eq!(Record::from_bytes(&bytes), Ok(rec(1, 2, "name")));
}

#[test]
fn fixed_name_of_spaces_is_rejected() {
    assert_eq!(Record::from_bytes(&encode(1, 2, b"")), Err(MyError::InvalidFormat));
}

#[test]
fn fixed_name_of_mixed_whitespace_is_rejected() {
    let name = b" \t\n\r\x0b\x0c \t\n\r\x0b\x0c \t\n\r\x0b\x0c  ";
    assert_eq!(name.len(), 20);
    assert_eq!(Record::from_bytes(&encode(1, 2, name)), Err(MyError::InvalidFormat));
}

#[test]
fn fixed_name_of_unicode_whitespace_is_rejected() {
    let name = "\u{3000}\u{2003}\u{A0}\u{85}\u{1680}\u{2028}\u{205F}";
    assert!(name.len() <= 20);
    assert_eq!(Record::from_bytes(&encode(1, 2, name.as_bytes())), Err(MyError::InvalidFormat));
}

#[test]
fn fixed_only_the_end_of_the_name_is_trimmed() {
    assert_eq!(
        Record::from_bytes(&encode(1, 2, b"  Ann Lee \t ")),
        Ok(rec(1, 2, "  Ann Lee"))
    );
}

#[test]
fn fixed_name_may_fill_the_field() {
    assert_eq!(
        Record::from_bytes(&encode(1, 2, b"abcdefghijklmnopqrst")),
        Ok(rec(1, 2, "abcdefghijklmnopqrst"))
    );
}

#[test]
fn fixed_zero_padding_is_kept() {
    let mut bytes = encode(1, 2, b"Al");
    for b in &mut bytes[10..] {
        *b = 0;
    }
    let expected = format!("Al{}", "\0".repeat(18));
    assert_eq!(Record::from_bytes(&bytes), Ok(rec(1, 2, &expected)));
}

#[test]
fn fixed_invalid_utf8_in_a_name_is_replaced() {
    assert_eq!(
        Record::from_bytes(&encode(1, 2, &[b'a', 0xC3, b'b'])),
        Ok(rec(1, 2, "a\u{FFFD}b"))
    );
}

#[test]
fn fixed_name_of_invalid_bytes_is_no_empty_name() {
    assert_eq!(
        Record::from_bytes(&encode(1, 2, &[0xFF; 20])),
        Ok(rec(1, 2, &"\u{FFFD}".repeat(20)))
    );
}

#[test]
fn fixed_buffer_of_two_records() {
    let mut buffer = encode(1, 1001, b"Alice");
    buffer.extend(encode(2, 1002, b"Bob"));
    let decoded = process_file(&buffer).unwrap();
    assert_eq!(decoded.records, vec![rec(1, 1001, "Alice"), rec(2, 1002, "Bob")]);
    assert_eq!(decoded.consumed, 56);
}

#[test]
fn fixed_record_count_is_length_divided_by_28() {
    let one = encode(5, 6, b"name");
    for len in 0..(28 * 4) {
        let buffer: Vec<u8> = one.iter().cycle().take(len).copied().collect();
        let decoded = process_file(&buffer).unwrap();
        assert_eq!(decoded.records.len(), len / 28);
        assert_eq!(decoded.consumed, 28 * (len / 28));
        assert!(decoded.records.iter().all(|r| *r == rec(5, 6, "name")));
    }
}

#[test]
fn fixed_trailing_bytes_change_nothing() {
    let mut buffer = encode(1, 1001, b"Alice");
    buffer.extend(encode(2, 1002, b"Bob"));
    let whole = process_file(&buffer).unwrap();
    for extra in 1..28 {
        let mut longer = buffer.clone();
        longer.extend(std::iter::repeat(b' ').take(extra));
        let decoded = process_file(&longer).unwrap();
        assert_eq!(decoded, whole);
    }
}

#[test]
fn fixed_one_blank_name_fails_the_whole_buffer() {
    let mut buffer = encode(1, 1001, b"Alice");
    buffer.extend(encode(2, 1002, b"   "));
    buffer.extend(encode(3, 1003, b"Carol"));
    assert_eq!(process_file(&buffer), Err(MyError::InvalidFormat));
}

#[test]
fn fixed_blank_name_in_a_partial_record_is_not_read() {
    let mut buffer = encode(1, 1001, b"Alice");
    buffer.extend_from_slice(&encode(2, 1002, b"")[..27]);
    let decoded = process_file(&buffer).unwrap();
    assert_eq!(decoded.records, vec![rec(1, 1001, "Alice")]);
    assert_eq!(decoded.consumed, 28);
}

#[test]
fn fixed_empty_buffer_has_no_records() {
    let decoded = process_file(&[]).unwrap();
    assert_eq!(decoded.records, vec![]);
    assert_eq!(decoded.consumed, 0);
}

#[test]
fn fixed_viewer_starts_empty() {
    let app = MyApp::new(vec!["a.bin".to_string(), "b.bin".to_string()]);
    assert_eq!(app.file_paths, vec!["a.bin".to_string(), "b.bin".to_string()]);
    assert_eq!(app.file_contents, None);
    assert_eq!(app.error_message, None);
}

#[test]
fn fixed_viewer_joins_the_records_of_all_files() {
    let mut app = MyApp::new(vec!["a.bin".to_string(), "b.bin".to_string()]);
    let mut first = encode(1, 1001, b"Alice");
    first.extend(encode(2, 1002, b"Bob"));
    let second = encode(3, 1003, b"Carol");
    app.parse_files(&vec![Ok(first), Ok(second)]);
    assert_eq!(
        app.file_contents,
        Some(vec![rec(1, 1001, "Alice"), rec(2, 1002, "Bob"), rec(3, 1003, "Carol")])
    );
    assert_eq!(app.error_message, None);
}

#[test]
fn fixed_viewer_reports_the_first_file_that_fails() {
    let mut app = MyApp::new(vec!["a.bin".to_string(), "b.bin".to_string(), "c.bin".to_string()]);
    app.parse_files(&vec![
        Ok(encode(1, 1001, b"Alice")),
        Ok(encode(2, 1002, b"")),
        Err(MyError::FileNotFound("c.bin".to_string())),
    ]);
    assert_eq!(app.file_contents, None);
    assert_eq!(
        app.error_message,
        Some("Error processing file b.bin: Invalid file format".to_string())
    );
}

#[test]
fn fixed_viewer_reports_a_missing_file() {
    let mut app = MyApp::new(vec!["a.bin".to_string(), "b.bin".to_string()]);
    app.parse_files(&vec![
        Err(MyError::FileNotFound("a.bin".to_string())),
        Ok(encode(2, 1002, b"Bob")),
    ]);
    assert_eq!(app.file_contents, None);
    assert_eq!(
        app.error_message,
        Some("Error processing file a.bin: File not found: a.bin".to_string())
    );
}

#[test]
fn fixed_viewer_reports_a_failed_read() {
    let mut app = MyApp::new(vec!["a.bin".to_string()]);
    app.parse_files(&vec![Err(MyError::IoError("unexpected end of file".to_string()))]);
    assert_eq!(app.file_contents, None);
    assert_eq!(
        app.error_message,
        Some(
            "Error processing file a.bin: Failed to read file: unexpected end of file".to_string()
        )
    );
}

#[test]
fn fixed_viewer_keeps_earlier_records_when_a_later_load_fails() {
    let mut app = MyApp::new(vec!["a.bin".to_string()]);
    app.parse_files(&vec![Ok(encode(1, 1001, b"Alice"))]);
    app.parse_files(&vec![Ok(encode(2, 1002, b" "))]);
    assert_eq!(app.file_contents, Some(vec![rec(1, 1001, "Alice")]));
    assert_eq!(
        app.error_message,
        Some("Error processing file a.bin: Invalid file format".to_string())
    );
}

#[test]
fn fixed_viewer_without_files_loads_nothing() {
    let mut app = MyApp::new(vec![]);
    app.parse_files(&vec![]);
    assert_eq!(app.file_contents, Some(vec![]));
    assert_eq!(app.error_message, None);
}

#[test]
fn fixed_viewer_leaves_out_paths_without_a_read() {
    let mut app = MyApp::new(vec!["a.bin".to_string(), "b.bin".to_string()]);
    app.parse_files(&vec![Ok(encode(1, 1001, b"Alice"))]);
    assert_eq!(app.file_contents, Some(vec![rec(1, 1001, "Alice")]));
    assert_eq!(app.error_message, None);
}
