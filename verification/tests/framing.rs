use wal_rust::framing::{
    contains_line_feed, is_space_byte, is_space_pair, is_space_triple, line_end, trim, LINE_FEED,
};
use wal_rust::replay::replay;
use wal_rust::text::{append, append_decimal, same_bytes, same_text};

const FIRST: &str = "{\"sequence_number\":1,\"transaction_id\":\"t\",\"operation_type\":\"INSERT\",\"key\":\"a\",\"timestamp\":1}";
const SECOND: &str = "{\"sequence_number\":2,\"transaction_id\":\"t\",\"operation_type\":\"DELETE\",\"key\":\"b\",\"timestamp\":2}";

fn keys(contents: &[u8]) -> (Vec<String>, usize) {
    let read = replay(contents);
    (read.entries.into_iter().map(|entry| entry.key).collect(), read.skipped)
}

#[test]
fn white_space_is_what_unicode_says() {
    for code in 0..=0x10FFFFu32 {
        let Some(character) = char::from_u32(code) else {
            continue;
        };
        let mut buffer = [0u8; 4];
        let bytes = character.encode_utf8(&mut buffer).as_bytes();
        let found = match bytes.len() {
            1 => is_space_byte(bytes[0]),
            2 => is_space_pair(bytes[0], bytes[1]),
            3 => is_space_triple(bytes[0], bytes[1], bytes[2]),
            _ => false,
        };
        assert_eq!(found, character.is_whitespace(), "U+{:04X}", code);
        let padded = format!("{}x{}", character, character);
        assert_eq!(trim(padded.as_bytes()), padded.trim().as_bytes(), "U+{:04X}", code);
    }
}

#[test]
fn trim_takes_white_space_from_both_ends_only() {
    assert_eq!(trim(b""), b"");
    assert_eq!(trim(b" \t\r\n\x0B\x0C"), b"");
    assert_eq!(trim(b"  a b  "), b"a b");
    assert_eq!(trim(b"a"), b"a");
    assert_eq!(trim("\u{00A0}\u{2003}{ }\u{3000}\u{0085}".as_bytes()), b"{ }");
    assert_eq!(trim("\u{200B}x\u{FEFF}".as_bytes()), "\u{200B}x\u{FEFF}".as_bytes());
    assert_eq!(trim(&[0xC2, b'x', 0xA0]), &[0xC2, b'x', 0xA0]);
    assert_eq!(trim(&[0xE2, 0x80, b' ']), &[0xE2, 0x80]);
    assert_eq!(trim(&[0x80, 0xE2, 0x80]), &[0x80, 0xE2, 0x80]);
}

#[test]
fn line_ends_at_the_next_line_feed() {
    let bytes = b"ab\ncd\n\nef";
    assert_eq!(LINE_FEED, b'\n');
    assert_eq!(line_end(bytes, 0), 2);
    assert_eq!(line_end(bytes, 1), 2);
    assert_eq!(line_end(bytes, 2), 2);
    assert_eq!(line_end(bytes, 3), 5);
    assert_eq!(line_end(bytes, 6), 6);
    assert_eq!(line_end(bytes, 7), 9);
    assert_eq!(line_end(bytes, 9), 9);
    assert_eq!(line_end(b"", 0), 0);
    assert!(contains_line_feed(bytes));
    assert!(contains_line_feed(b"\n"));
    assert!(!contains_line_feed(b"ab\rcd"));
    assert!(!contains_line_feed(b""));
}

#[test]
fn decimal_digits_are_exact() {
    for (number, digits) in [
        (0u64, "0"),
        (7, "7"),
        (10, "10"),
        (120, "120"),
        (9999999999, "9999999999"),
        (u64::MAX, "18446744073709551615"),
    ] {
        let mut out = b"n=".to_vec();
        append_decimal(&mut out, number);
        assert_eq!(out, format!("n={}", digits).into_bytes());
    }
}

#[test]
fn append_puts_the_piece_at_the_end() {
    let mut out = b"ab".to_vec();
    append(&mut out, b"");
    assert_eq!(out, b"ab");
    append(&mut out, b"cd");
    assert_eq!(out, b"abcd");
}

#[test]
fn same_text_compares_every_character() {
    assert!(same_text("", ""));
    assert!(same_text("INSERT", "INSERT"));
    assert!(!same_text("INSERT", "INSERt"));
    assert!(!same_text("INSERT", "INSER"));
    assert!(!same_text("é", "e"));
    assert!(same_bytes(b"\x00\xFF", b"\x00\xFF"));
    assert!(!same_bytes(b"\x00\xFF", b"\x00\xFE"));
    assert!(!same_bytes(b"a", b""));
}

#[test]
fn replay_of_nothing_is_nothing() {
    assert_eq!(keys(b""), (vec![], 0));
    assert_eq!(keys(b"\n"), (vec![], 0));
    assert_eq!(keys(b"\n\n \t \n\r\n"), (vec![], 0));
    assert_eq!(keys("\u{00A0}\n\u{2028}".as_bytes()), (vec![], 0));
}

#[test]
fn replay_keeps_the_order_of_the_file() {
    let log = format!("{}\n{}\n", FIRST, SECOND);
    assert_eq!(keys(log.as_bytes()), (vec!["a".to_string(), "b".to_string()], 0));
    let turned = format!("{}\n{}\n", SECOND, FIRST);
    assert_eq!(keys(turned.as_bytes()), (vec!["b".to_string(), "a".to_string()], 0));
}

#[test]
fn replay_reads_a_last_line_without_line_feed() {
    let log = format!("{}\n{}", FIRST, SECOND);
    assert_eq!(keys(log.as_bytes()), (vec!["a".to_string(), "b".to_string()], 0));
}

#[test]
fn replay_passes_over_blank_lines_and_white_space() {
    let log = format!("\n  {}\t\r\n\r\n\u{3000}{}\u{00A0}\n   \n", FIRST, SECOND);
    assert_eq!(keys(log.as_bytes()), (vec!["a".to_string(), "b".to_string()], 0));
}

#[test]
fn replay_counts_corrupt_lines() {
    let log = format!("garbage\n{}\n{{\"sequence_number\":\n{}\n[1,2]\n", FIRST, SECOND);
    assert_eq!(keys(log.as_bytes()), (vec!["a".to_string(), "b".to_string()], 3));
}

#[test]
fn replay_passes_over_a_torn_last_record() {
    let torn = &SECOND[..40];
    let log = format!("{}\n{}", FIRST, torn);
    assert_eq!(keys(log.as_bytes()), (vec!["a".to_string()], 1));
}

#[test]
fn replay_passes_over_bytes_that_are_no_text() {
    let mut log = FIRST.as_bytes().to_vec();
    log.push(b'\n');
    log.extend_from_slice(&[0xFF, 0xFE, 0x00, b'\n']);
    log.extend_from_slice(SECOND.as_bytes());
    log.push(b'\n');
    assert_eq!(keys(&log), (vec!["a".to_string(), "b".to_string()], 1));
}
