//! Words, numbers and bytes.

use scanflow::bytes::{bytes_to_number, is_little_endian, number_to_bytes};
use scanflow::number::{
    parse_signed, parse_unsigned, push_byte_hex, to_decimal, to_hex, to_signed_decimal, IntError,
    Whole,
};
use scanflow::text::{
    remove_white_space, same, split_at_space, split_whitespace, strip_hex_prefix, trim,
};
use scanflow::utf16::{decode, encode};

#[test]
fn words_are_split_at_white_space() {
    let s = "\u{a0}a \t b\u{3000}c\u{85}\n";
    assert_eq!(split_whitespace(s), vec!["a", "b", "c"]);
    assert_eq!(split_whitespace(s), s.split_whitespace().collect::<Vec<_>>());
    assert!(split_whitespace(" \n").is_empty());
    assert_eq!(trim(s), s.trim());
    assert_eq!(trim("\u{2003}x y\u{2029}"), "x y");
    assert_eq!(remove_white_space(s), "abc");
    // A zero-width space is no white space.
    assert_eq!(trim("\u{200b}"), "\u{200b}");
}

#[test]
fn prefixes_and_spaces() {
    assert_eq!(strip_hex_prefix("0x0x1"), "1");
    assert_eq!(strip_hex_prefix("0X1"), "0X1");
    assert_eq!(split_at_space("a b c"), ("a".to_string(), Some("b c".to_string())));
    assert_eq!(split_at_space(" a"), ("".to_string(), Some("a".to_string())));
    assert_eq!(split_at_space("a\tb"), ("a\tb".to_string(), None));
    assert!(same("h\u{e9}", "h\u{e9}"));
    assert!(!same("a", "ab"));
}

#[test]
fn numbers_are_read_like_std() {
    let texts = ["", "+", "-", "-0", "+7", "12", "1_0", "ff", "FF", "fg", "256", "99999999999", "--1"];
    for s in texts {
        let ours = parse_unsigned(s, 10, 255);
        match s.parse::<u8>() {
            Ok(n) => assert_eq!(ours.unwrap(), n as u128),
            Err(e) => assert_eq!(ours.unwrap_err().message(), e.to_string()),
        }
        let ours = parse_unsigned(s, 16, 255);
        match u8::from_str_radix(s, 16) {
            Ok(n) => assert_eq!(ours.unwrap(), n as u128),
            Err(e) => assert_eq!(ours.unwrap_err().message(), e.to_string()),
        }
    }
    for s in ["", "-", "+", "-128", "-129", "127", "128", "-0", "x", "-x", "+-1"] {
        let ours = parse_signed(s, 128, 127);
        match s.parse::<i8>() {
            Ok(n) => {
                let w = ours.unwrap();
                assert_eq!(w.size, n.unsigned_abs() as u128);
                assert_eq!(w.negative, n < 0);
            }
            Err(e) => assert_eq!(ours.unwrap_err().message(), e.to_string()),
        }
    }
    assert_eq!(parse_unsigned("9", 8, 100), Err(IntError::InvalidDigit));
    assert_eq!(parse_unsigned(&u128::MAX.to_string(), 10, u128::MAX), Ok(u128::MAX));
}

#[test]
fn numbers_are_written() {
    assert_eq!(to_decimal(0), "0");
    assert_eq!(to_decimal(u128::MAX), u128::MAX.to_string());
    assert_eq!(to_hex(0xDEAD_BEEF), "deadbeef");
    assert_eq!(to_signed_decimal(Whole { negative: true, size: 10 }), "-10");
    let mut s = String::new();
    push_byte_hex(&mut s, 0x0f);
    push_byte_hex(&mut s, 0xa0);
    assert_eq!(s, "0fa0");
}

#[test]
fn bytes_are_native() {
    assert_eq!(is_little_endian(), 1u16.to_ne_bytes()[0] == 1);
    assert_eq!(number_to_bytes(0x0102_0304, 4), 0x0102_0304u32.to_ne_bytes().to_vec());
    assert_eq!(bytes_to_number(&0x0102_0304u32.to_ne_bytes()), 0x0102_0304);
    assert_eq!(bytes_to_number(&[]), 0);
    assert_eq!(number_to_bytes(300, 1), vec![44]);
}

#[test]
fn utf16_is_read_like_std() {
    let s: Vec<char> = "a\u{e9}\u{FFFF}\u{10000}\u{10FFFF}".chars().collect();
    let text: String = s.iter().collect();
    let units = encode(&s);
    assert_eq!(units, text.encode_utf16().collect::<Vec<u16>>());
    assert_eq!(decode(&units), text);
    let broken = vec![0xD800, 0x41, 0xDC00, 0xD83D, 0xDE00, 0xD800];
    assert_eq!(decode(&broken), String::from_utf16_lossy(&broken));
}
