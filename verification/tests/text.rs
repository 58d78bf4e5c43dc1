use treasure_hunt::number::{parse_i32, parse_u16, parse_u32, parse_u8, push_decimal, push_signed_decimal};
use treasure_hunt::text::{has_prefix, is_blank_byte, same_bytes, split_fields, trim_blanks};

fn fields(text: &[u8], sep: u8) -> Vec<Vec<u8>> {
    split_fields(text, sep).into_iter().map(|field| field.to_vec()).collect()
}

fn decimal(n: u64) -> Vec<u8> {
    let mut out = Vec::new();
    push_decimal(&mut out, n);
    out
}

fn signed_decimal(v: i32) -> Vec<u8> {
    let mut out = Vec::new();
    push_signed_decimal(&mut out, v);
    out
}

#[test]
fn split_gives_one_field_more_than_separators() {
    assert_eq!(fields(b"a|bc|def", b'|'), vec![b"a".to_vec(), b"bc".to_vec(), b"def".to_vec()]);
    assert_eq!(fields(b"abc", b'|'), vec![b"abc".to_vec()]);
    assert_eq!(fields(b"", b'|'), vec![b"".to_vec()]);
}

#[test]
fn split_keeps_empty_fields() {
    assert_eq!(fields(b"|", b'|'), vec![b"".to_vec(), b"".to_vec()]);
    assert_eq!(
        fields(b"|a||b|", b'|'),
        vec![b"".to_vec(), b"a".to_vec(), b"".to_vec(), b"b".to_vec(), b"".to_vec()]
    );
}

#[test]
fn split_agrees_with_the_standard_library() {
    for text in [&b"x,y,,z"[..], &b",,,"[..], &b"no separators"[..], &b"(2, 3),(5, 5)"[..]] {
        let expected: Vec<Vec<u8>> = text.split(|b| *b == b',').map(|f| f.to_vec()).collect();
        assert_eq!(fields(text, b','), expected);
    }
}

#[test]
fn trim_removes_blanks_at_both_ends_only() {
    assert_eq!(trim_blanks(b"  a b \t\r\n"), b"a b");
    assert_eq!(trim_blanks(b"abc"), b"abc");
    assert_eq!(trim_blanks(b" \t "), b"");
    assert_eq!(trim_blanks(b""), b"");
    assert_eq!(trim_blanks(b"\x0b\x0c7\x0c\x0b"), b"7");
}

#[test]
fn blanks_are_the_six_ascii_ones() {
    for b in 0..=255u8 {
        assert_eq!(is_blank_byte(b), b == b' ' || (9..=13).contains(&b));
    }
}

#[test]
fn byte_strings_are_compared_in_full() {
    assert!(same_bytes(b"abc", b"abc"));
    assert!(same_bytes(b"", b""));
    assert!(!same_bytes(b"abc", b"abd"));
    assert!(!same_bytes(b"abc", b"ab"));
    assert!(has_prefix(b"ACK:5", b"ACK:"));
    assert!(has_prefix(b"ACK:", b"ACK:"));
    assert!(has_prefix(b"x", b""));
    assert!(!has_prefix(b"ACK", b"ACK:"));
    assert!(!has_prefix(b"NAK:5", b"ACK:"));
}

#[test]
fn decimal_is_written_without_padding() {
    assert_eq!(decimal(0), b"0".to_vec());
    assert_eq!(decimal(9), b"9".to_vec());
    assert_eq!(decimal(10), b"10".to_vec());
    assert_eq!(decimal(4294967295), b"4294967295".to_vec());
    assert_eq!(decimal(u64::MAX), b"18446744073709551615".to_vec());
    assert_eq!(signed_decimal(0), b"0".to_vec());
    assert_eq!(signed_decimal(-1), b"-1".to_vec());
    assert_eq!(signed_decimal(i32::MIN), b"-2147483648".to_vec());
    assert_eq!(signed_decimal(i32::MAX), b"2147483647".to_vec());
}

#[test]
fn decimal_appends_to_what_is_there() {
    let mut out = b"TIME:".to_vec();
    push_decimal(&mut out, 60);
    assert_eq!(out, b"TIME:60".to_vec());
    push_signed_decimal(&mut out, -7);
    assert_eq!(out, b"TIME:60-7".to_vec());
}

#[test]
fn unsigned_numbers_are_read_within_their_width() {
    assert_eq!(parse_u8(b"0"), Some(0));
    assert_eq!(parse_u8(b"255"), Some(255));
    assert_eq!(parse_u8(b"256"), None);
    assert_eq!(parse_u8(b"0255"), Some(255));
    assert_eq!(parse_u16(b"65535"), Some(65535));
    assert_eq!(parse_u16(b"65536"), None);
    assert_eq!(parse_u32(b"4294967295"), Some(4294967295));
    assert_eq!(parse_u32(b"4294967296"), None);
    assert_eq!(parse_u32(b"00000000000000000000000000000000000042"), Some(42));
}

#[test]
fn unsigned_numbers_take_a_plus_sign_and_no_minus_sign() {
    assert_eq!(parse_u8(b"+7"), Some(7));
    assert_eq!(parse_u8(b"-7"), None);
    assert_eq!(parse_u8(b"-0"), None);
    assert_eq!(parse_u8(b"+"), None);
    assert_eq!(parse_u8(b"++7"), None);
    assert_eq!(parse_u8(b""), None);
    assert_eq!(parse_u8(b" 7"), None);
    assert_eq!(parse_u8(b"7 "), None);
    assert_eq!(parse_u8(b"7a"), None);
    assert_eq!(parse_u8(b"0x7"), None);
}

#[test]
fn signed_numbers_are_read_within_their_width() {
    assert_eq!(parse_i32(b"0"), Some(0));
    assert_eq!(parse_i32(b"-0"), Some(0));
    assert_eq!(parse_i32(b"+12"), Some(12));
    assert_eq!(parse_i32(b"-12"), Some(-12));
    assert_eq!(parse_i32(b"2147483647"), Some(i32::MAX));
    assert_eq!(parse_i32(b"2147483648"), None);
    assert_eq!(parse_i32(b"-2147483648"), Some(i32::MIN));
    assert_eq!(parse_i32(b"-2147483649"), None);
    assert_eq!(parse_i32(b"-"), None);
    assert_eq!(parse_i32(b"--1"), None);
    assert_eq!(parse_i32(b"-+1"), None);
    assert_eq!(parse_i32(b""), None);
}

#[test]
fn numbers_are_read_as_the_standard_library_reads_them() {
    for text in ["0", "7", "+7", "-7", "007", "255", "256", "65535", "65536", "4294967295",
        "4294967296", "2147483647", "2147483648", "-2147483648", "-2147483649", "", "+", "-", "1e3",
        "１２", "12 ", " 12", "+-1", "99999999999999999999"]
    {
        assert_eq!(parse_u8(text.as_bytes()), text.parse::<u8>().ok(), "{text:?} as u8");
        assert_eq!(parse_u16(text.as_bytes()), text.parse::<u16>().ok(), "{text:?} as u16");
        assert_eq!(parse_u32(text.as_bytes()), text.parse::<u32>().ok(), "{text:?} as u32");
        assert_eq!(parse_i32(text.as_bytes()), text.parse::<i32>().ok(), "{text:?} as i32");
    }
}

#[test]
fn written_numbers_are_read_back() {
    for n in [0u32, 1, 9, 10, 11, 99, 100, 254, 255, 256, 65535, 65536, 1000000, u32::MAX] {
        assert_eq!(parse_u32(&decimal(n as u64)), Some(n));
    }
    for v in [0i32, 1, -1, 10, -10, 2147483647, -2147483647, i32::MIN] {
        assert_eq!(parse_i32(&signed_decimal(v)), Some(v));
    }
}
