use record_decoder::cursor::Cursor;
use record_decoder::le::{i32_from_le_bytes, u32_from_le_bytes};

#[test]
fn cursor_starts_at_the_first_byte() {
    let cur = Cursor::new(b"abc");
    assert_eq!(cur.position(), 0);
    assert_eq!(cur.remaining(), 3);
    assert_eq!(cur.peek_at(0), Some(b'a'));
    assert_eq!(cur.peek_at(2), Some(b'c'));
    assert_eq!(cur.peek_at(3), None);
    assert_eq!(cur.peek_at(usize::MAX), None);
}

#[test]
fn cursor_reads_bytes_one_by_one() {
    let mut cur = Cursor::new(b"ab");
    assert_eq!(cur.read_u8(), Some(b'a'));
    assert_eq!(cur.position(), 1);
    assert_eq!(cur.read_u8(), Some(b'b'));
    assert_eq!(cur.position(), 2);
    assert_eq!(cur.read_u8(), None);
    assert_eq!(cur.position(), 2);
    assert_eq!(cur.remaining(), 0);
}

#[test]
fn cursor_reads_runs_of_bytes() {
    let mut cur = Cursor::new(b"hello world");
    assert_eq!(cur.read_bytes(5), Some(&b"hello"[..]));
    assert_eq!(cur.position(), 5);
    assert_eq!(cur.read_bytes(0), Some(&b""[..]));
    assert_eq!(cur.read_bytes(7), None);
    assert_eq!(cur.position(), 5);
    assert_eq!(cur.read_bytes(usize::MAX), None);
    assert_eq!(cur.read_bytes(6), Some(&b" world"[..]));
    assert_eq!(cur.remaining(), 0);
}

#[test]
fn cursor_advance_stops_at_the_end() {
    let mut cur = Cursor::new(b"abc");
    cur.advance(2);
    assert_eq!(cur.position(), 2);
    cur.advance(2);
    assert_eq!(cur.position(), 3);
    cur.advance(usize::MAX);
    assert_eq!(cur.position(), 3);
    cur.advance(0);
    assert_eq!(cur.position(), 3);
}

#[test]
fn cursor_reads_little_endian_integers() {
    let mut cur = Cursor::new(&[0xE9, 0x03, 0, 0, 0xFF, 0xFF, 0xFF, 0xFF, 0xFE, 0xFF, 0xFF, 0xFF, 1]);
    assert_eq!(cur.read_u32_le(), Some(1001));
    assert_eq!(cur.read_u32_le(), Some(u32::MAX));
    assert_eq!(cur.read_i32_le(), Some(-2));
    assert_eq!(cur.position(), 12);
    assert_eq!(cur.read_u32_le(), None);
    assert_eq!(cur.read_i32_le(), None);
    assert_eq!(cur.position(), 12);
}

#[test]
fn cursor_reads_through_a_delimiter() {
    let mut cur = Cursor::new(b"ab)cd))x");
    assert_eq!(cur.read_through(b')'), Some(&b"ab)"[..]));
    assert_eq!(cur.position(), 3);
    assert_eq!(cur.read_through(b')'), Some(&b"cd)"[..]));
    assert_eq!(cur.read_through(b')'), Some(&b")"[..]));
    assert_eq!(cur.position(), 7);
    assert_eq!(cur.read_through(b')'), None);
    assert_eq!(cur.position(), 7);
    assert_eq!(cur.read_through(b'x'), Some(&b"x"[..]));
    assert_eq!(cur.read_through(b'x'), None);
}

#[test]
fn little_endian_values_are_what_the_standard_library_reads() {
    let samples: [[u8; 4]; 8] = [
        [0, 0, 0, 0],
        [1, 0, 0, 0],
        [0, 1, 0, 0],
        [0, 0, 1, 0],
        [0, 0, 0, 1],
        [0xFF, 0xFF, 0xFF, 0x7F],
        [0, 0, 0, 0x80],
        [0xFF, 0xFF, 0xFF, 0xFF],
    ];
    for bytes in samples {
        assert_eq!(u32_from_le_bytes(bytes), u32::from_le_bytes(bytes));
        assert_eq!(i32_from_le_bytes(bytes), i32::from_le_bytes(bytes));
    }
    assert_eq!(u32_from_le_bytes([0x78, 0x56, 0x34, 0x12]), 0x1234_5678);
    assert_eq!(i32_from_le_bytes([0x00, 0x00, 0x00, 0x80]), i32::MIN);
    assert_eq!(i32_from_le_bytes([0xFF, 0xFF, 0xFF, 0xFF]), -1);
}
