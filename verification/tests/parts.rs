use pchain_client::chars::{chars_of, has_word, range_is, strip_whitespace, whitespace};
use pchain_client::decimal::{
    char_digit, digit_char, read_digits, read_integer, write_decimal, write_digits, Literal,
};
use pchain_client::descriptor::Primitive;
use pchain_client::endian::{read_le, write_le};
use pchain_client::networking::{is_success, Provider, STATUS_OK};

#[test]
fn white_space_is_told_from_other_characters() {
    for c in "\t\n\u{b}\u{c}\r \u{85}\u{a0}\u{1680}\u{2000}\u{2005}\u{200a}\u{2028}\u{2029}\u{202f}\u{205f}\u{3000}".chars() {
        assert!(whitespace(c), "{:?}", c);
    }
    for c in "a0<>[];_\u{0}\u{8}\u{e}\u{1f}\u{7f}\u{200b}\u{200c}\u{2060}\u{feff}\u{180e}".chars() {
        assert!(!whitespace(c), "{:?}", c);
    }
    for code in 0..0x11_0000u32 {
        if let Some(c) = char::from_u32(code) {
            assert_eq!(whitespace(c), c.is_whitespace(), "{:x}", code);
        }
    }
}

#[test]
fn white_space_is_stripped() {
    assert_eq!(strip_whitespace(" V e\tc<\nu8 > "), chars_of("Vec<u8>"));
    assert_eq!(strip_whitespace(""), Vec::<char>::new());
    assert_eq!(strip_whitespace(" \u{3000} "), Vec::<char>::new());
    assert_eq!(chars_of("a b"), vec!['a', ' ', 'b']);
}

#[test]
fn ranges_are_compared_with_words() {
    let chars = chars_of("Vec<u8>");
    assert!(range_is(&chars, 0, 4, "Vec<"));
    assert!(range_is(&chars, 4, 6, "u8"));
    assert!(!range_is(&chars, 4, 7, "u8"));
    assert!(!range_is(&chars, 3, 5, "u8"));
    assert!(range_is(&chars, 2, 2, ""));
    assert!(has_word(&chars, "c<u"));
    assert!(has_word(&chars, ""));
    assert!(has_word(&chars, "Vec<u8>"));
    assert!(!has_word(&chars, "Vec<u8>>"));
    assert!(!has_word(&chars, "u9"));
    assert!(has_word(&Vec::new(), ""));
    assert!(!has_word(&Vec::new(), "a"));
}

#[test]
fn digits_and_characters_correspond() {
    for d in 0..10u8 {
        let c = digit_char(d);
        assert_eq!(c, (b'0' + d) as char);
        assert_eq!(char_digit(c), Some(d));
    }
    for c in ['a', '/', ':', ' ', '-', '\u{661}', '\u{ff11}'] {
        assert_eq!(char_digit(c), None);
    }
}

#[test]
fn integers_are_written_in_decimal() {
    let mut out = String::from("n=");
    write_digits(0, &mut out);
    assert_eq!(out, "n=0");
    let mut out = String::new();
    write_digits(1203, &mut out);
    assert_eq!(out, "1203");
    let mut out = String::new();
    write_digits(u128::MAX, &mut out);
    assert_eq!(out, u128::MAX.to_string());
    let mut out = String::new();
    write_decimal(true, 45, &mut out);
    write_decimal(false, 0, &mut out);
    assert_eq!(out, "-450");
}

#[test]
fn integer_literals_are_read() {
    assert_eq!(
        read_integer("0"),
        Some(Literal { negative: false, magnitude: Some(0) })
    );
    assert_eq!(
        read_integer("-17"),
        Some(Literal { negative: true, magnitude: Some(17) })
    );
    assert_eq!(
        read_integer("340282366920938463463374607431768211455"),
        Some(Literal { negative: false, magnitude: Some(u128::MAX) })
    );
    assert_eq!(
        read_integer("340282366920938463463374607431768211456"),
        Some(Literal { negative: false, magnitude: None })
    );
    assert_eq!(
        read_integer("-99999999999999999999999999999999999999999999"),
        Some(Literal { negative: true, magnitude: None })
    );
    for text in ["", "-", "-0", "00", "01", "-01", "+1", "1.0", "1e1", " 1", "1 ", "--1", "1-", "a"] {
        assert_eq!(read_integer(text), None, "{:?}", text);
    }
}

#[test]
fn runs_of_digits_are_read() {
    let chars = chars_of("ab0042");
    assert_eq!(read_digits(&chars, 2), Some(Some(42)));
    assert_eq!(read_digits(&chars, 6), Some(Some(0)));
    assert_eq!(read_digits(&chars, 1), None);
    let long = chars_of("999999999999999999999999999999999999999999");
    assert_eq!(read_digits(&long, 0), Some(None));
    let long_then_letter = chars_of("999999999999999999999999999999999999999999x");
    assert_eq!(read_digits(&long_then_letter, 0), None);
}

#[test]
fn numbers_are_written_little_endian() {
    let mut out = vec![9u8];
    write_le(0x0102_0304, 4, &mut out);
    assert_eq!(out, vec![9, 4, 3, 2, 1]);
    let mut out = Vec::new();
    write_le(0x0102_0304, 2, &mut out);
    assert_eq!(out, vec![4, 3]);
    let mut out = Vec::new();
    write_le(7, 0, &mut out);
    assert!(out.is_empty());
    let mut out = Vec::new();
    write_le(u128::MAX, 16, &mut out);
    assert_eq!(out, vec![0xff; 16]);
    let mut out = Vec::new();
    write_le(1, 8, &mut out);
    assert_eq!(out, 1u64.to_le_bytes().to_vec());
}

#[test]
fn numbers_are_read_little_endian() {
    let bytes = [9u8, 4, 3, 2, 1, 0xff];
    assert_eq!(read_le(&bytes, 1, 4), 0x0102_0304);
    assert_eq!(read_le(&bytes, 1, 0), 0);
    assert_eq!(read_le(&bytes, 5, 1), 0xff);
    assert_eq!(read_le(&[0xff; 16], 0, 16), u128::MAX);
    assert_eq!(
        read_le(&0x1122_3344_5566_7788u64.to_le_bytes(), 0, 8),
        0x1122_3344_5566_7788
    );
}

#[test]
fn kinds_know_their_ranges() {
    assert_eq!(Primitive::I8.greatest(), i8::MAX as u128);
    assert_eq!(Primitive::I8.least_magnitude(), 128);
    assert_eq!(Primitive::I64.greatest(), i64::MAX as u128);
    assert_eq!(Primitive::I64.least_magnitude(), 1 << 63);
    assert_eq!(Primitive::I128.greatest(), i128::MAX as u128);
    assert_eq!(Primitive::I128.least_magnitude(), 1 << 127);
    assert_eq!(Primitive::U16.greatest(), u16::MAX as u128);
    assert_eq!(Primitive::U16.least_magnitude(), 0);
    assert_eq!(Primitive::U128.greatest(), u128::MAX);
    assert_eq!(Primitive::U32.byte_width(), 4);
    assert_eq!(Primitive::I128.byte_width(), 16);
    assert_eq!(Primitive::Bool.byte_width(), 0);
    assert!(Primitive::I16.signed());
    assert!(!Primitive::U16.signed());
    assert!(!Primitive::Str.signed());
    assert!(Primitive::U8.integer());
    assert!(!Primitive::Bool.integer());
    assert!(!Primitive::Str.integer());
}

#[test]
fn provider_forms_the_url_of_a_request() {
    let mut provider = Provider::new("https://node.example".to_string());
    assert_eq!(provider.get_provider(), "https://node.example");
    assert_eq!(provider.url_of("state/v2"), "https://node.example/state/v2");
    assert_eq!(provider.url_of(""), "https://node.example/");
    provider.set_provider("http://localhost:8080");
    assert_eq!(provider.get_provider(), "http://localhost:8080");
    assert_eq!(
        provider.url_of("highest_committed_block"),
        "http://localhost:8080/highest_committed_block"
    );
}

#[test]
fn only_status_200_is_a_success() {
    assert_eq!(STATUS_OK, 200);
    assert!(is_success(200));
    for status in [0u16, 100, 199, 201, 204, 301, 400, 404, 500, 1100] {
        assert!(!is_success(status));
    }
}
