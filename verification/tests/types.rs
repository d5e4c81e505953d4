//! The types of values, and the texts and bytes that stand for them.

use scanflow::types::{
    find_type, parse_input, parse_value, print_value, split_input, value_types, FloatReading,
    ScanResult,
};

fn no_float() -> FloatReading {
    FloatReading { single: None, double: None }
}

fn reading(text: &str) -> FloatReading {
    FloatReading {
        single: text.parse::<f32>().ok().map(f32::to_bits),
        double: text.parse::<f64>().ok().map(f64::to_bits),
    }
}

fn bytes(name: &str, value: &str) -> Option<Vec<u8>> {
    parse_value(name, value, &no_float())
}

fn text(name: &str, buf: &[u8]) -> Option<String> {
    print_value(buf, name, "")
}

#[test]
fn parse_and_print_roundtrip_i64() {
    let (bytes, ty) = parse_input("i64 42", &None, &no_float()).unwrap();
    assert_eq!(ty, "i64");
    assert_eq!(bytes.len(), 8);
    let s = print_value(&bytes, "i64", "").unwrap();
    assert_eq!(s, "42");
}

#[test]
fn parse_with_implicit_type() {
    let (bytes, ty) = parse_input("123", &Some("i32".to_string()), &no_float()).unwrap();
    assert_eq!(ty, "i32");
    assert_eq!(bytes.len(), 4);
    assert_eq!(print_value(&bytes, "i32", "").unwrap(), "123");
}

#[test]
fn unknown_type_is_none() {
    assert!(parse_input("notatype 1", &None, &no_float()).is_none());
    assert!(find_type("notatype").is_none());
}

#[test]
fn str_utf16_roundtrip() {
    let (bytes, ty) = parse_input("str_utf16 hi", &None, &no_float()).unwrap();
    assert_eq!(ty, "str_utf16");
    assert_eq!(bytes.len(), 4); // 2 code units * 2 bytes
    let s = print_value(&bytes, "str_utf16", "").unwrap();
    assert_eq!(s, "hi");
}

#[test]
fn all_types_have_unique_names() {
    let table = value_types();
    let mut names: Vec<&str> = table.iter().map(|t| t.name).collect();
    names.sort();
    let n = names.len();
    names.dedup();
    assert_eq!(names.len(), n, "duplicate value type names in table");
}

#[test]
fn the_table_is_complete_and_in_order() {
    let names: Vec<&str> = value_types().iter().map(|t| t.name).collect();
    assert_eq!(
        names,
        vec![
            "str", "str_utf16", "i128", "i64", "i32", "i16", "i8", "u128", "u64", "u32", "u16",
            "u8", "f64", "f32"
        ]
    );
    assert_eq!(find_type("u16").unwrap().size, Some(2));
    assert_eq!(find_type("str").unwrap().size, None);
}

#[test]
fn whole_numbers_are_in_native_order() {
    assert_eq!(bytes("i128", "-5").unwrap(), (-5i128).to_ne_bytes().to_vec());
    assert_eq!(bytes("i64", "4919").unwrap(), 4919i64.to_ne_bytes().to_vec());
    assert_eq!(bytes("i32", "-1").unwrap(), (-1i32).to_ne_bytes().to_vec());
    assert_eq!(bytes("i16", "-32768").unwrap(), i16::MIN.to_ne_bytes().to_vec());
    assert_eq!(bytes("i8", "127").unwrap(), vec![127]);
    assert_eq!(bytes("u128", "340282366920938463463374607431768211455").unwrap(), vec![255; 16]);
    assert_eq!(bytes("u64", "258").unwrap(), 258u64.to_ne_bytes().to_vec());
    assert_eq!(bytes("u32", "+7").unwrap(), 7u32.to_ne_bytes().to_vec());
    assert_eq!(bytes("u16", "513").unwrap(), 513u16.to_ne_bytes().to_vec());
    assert_eq!(bytes("u8", "255").unwrap(), vec![255]);
}

#[test]
fn what_does_not_fit_is_refused() {
    assert!(bytes("u8", "256").is_none());
    assert!(bytes("u8", "-1").is_none());
    assert!(bytes("i8", "128").is_none());
    assert_eq!(bytes("i8", "-128").unwrap(), vec![0x80]);
    assert!(bytes("i8", "-129").is_none());
    assert!(bytes("i32", "").is_none());
    assert!(bytes("i32", " 1").is_none());
    assert!(bytes("i32", "1x").is_none());
    assert!(bytes("i32", "-").is_none());
}

#[test]
fn whole_numbers_round_trip() {
    for n in [i64::MIN, -1, 0, 1, i64::MAX] {
        let b = bytes("i64", &n.to_string()).unwrap();
        assert_eq!(text("i64", &b).unwrap(), n.to_string());
    }
    for n in [i128::MIN, -1, 0, i128::MAX] {
        let b = bytes("i128", &n.to_string()).unwrap();
        assert_eq!(text("i128", &b).unwrap(), n.to_string());
    }
    assert_eq!(text("u128", &[255; 16]).unwrap(), u128::MAX.to_string());
    assert_eq!(text("i16", &(-300i16).to_ne_bytes()).unwrap(), "-300");
    assert_eq!(text("u8", &[200]).unwrap(), "200");
    assert_eq!(text("i8", &[200]).unwrap(), "-56");
}

#[test]
fn a_wrong_number_of_bytes_is_refused() {
    assert!(text("i64", &[0; 7]).is_none());
    assert!(text("u8", &[]).is_none());
    assert!(print_value(&[0; 3], "f32", "0").is_none());
    assert!(print_value(&[0; 4], "f64", "0").is_none());
    assert!(text("nothing", &[1]).is_none());
}

#[test]
fn text_is_utf8() {
    let s = "h\u{e9}\u{1F600}";
    let b = bytes("str", s).unwrap();
    assert_eq!(b, s.as_bytes());
    assert_eq!(text("str", &b).unwrap(), s);
    assert_eq!(text("str", &[0x61, 0xFF, 0x62]).unwrap(), "a\u{FFFD}b");
    assert_eq!(bytes("str", "").unwrap(), Vec::<u8>::new());
}

#[test]
fn text_is_utf16() {
    let s = "h\u{e9}\u{1F600}";
    let expected: Vec<u8> = s.encode_utf16().flat_map(|u| u.to_ne_bytes()).collect();
    let b = bytes("str_utf16", s).unwrap();
    assert_eq!(b, expected);
    assert_eq!(text("str_utf16", &b).unwrap(), s);
    // An odd byte at the end is passed over, and half a pair becomes U+FFFD.
    let mut odd = 0xD800u16.to_ne_bytes().to_vec();
    odd.extend('x'.to_string().encode_utf16().flat_map(|u| u.to_ne_bytes()));
    odd.push(7);
    assert_eq!(text("str_utf16", &odd).unwrap(), "\u{FFFD}x");
}

#[test]
fn floats_are_read_and_written_by_the_caller() {
    let b = parse_value("f32", "1.5", &reading("1.5")).unwrap();
    assert_eq!(b, 1.5f32.to_ne_bytes().to_vec());
    let b = parse_value("f64", "-0.25", &reading("-0.25")).unwrap();
    assert_eq!(b, (-0.25f64).to_ne_bytes().to_vec());
    assert!(parse_value("f64", "abc", &reading("abc")).is_none());
    let shown = print_value(&1.5f32.to_ne_bytes(), "f32", &format!("{}", 1.5f32));
    assert_eq!(shown.unwrap(), "1.5");
}

#[test]
fn inputs_split_at_the_first_space() {
    assert_eq!(
        split_input("str a b", &None),
        Some(("str".to_string(), "a b".to_string()))
    );
    assert_eq!(split_input("i64", &None), None);
    assert_eq!(
        split_input("a b", &Some("str".to_string())),
        Some(("str".to_string(), "a b".to_string()))
    );
    assert!(parse_input("i64", &None, &no_float()).is_none());
    assert!(parse_input("i64 x", &None, &no_float()).is_none());
}

#[test]
fn results_are_counted() {
    assert_eq!(ScanResult::default().count(), 0);
    let r = ScanResult { matches: vec![1, 2], is_initial_scan: true };
    assert_eq!(r.count(), 2);
}
