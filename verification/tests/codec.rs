use pchain_client::codec::{decode, decode_value, encode};
use pchain_client::descriptor::{parse, Primitive, TypeDescriptor};
use pchain_client::json::{parse_json, JsonMember, JsonValue};
use pchain_client::utils::parser::{
    call_result_to_data_type, serialize_call_arguments, serialize_value,
};
use pchain_client::value::{coerce, TypedValue};
use pchain_client::{DecodeError, EncodeError, ParseError};

fn number(text: &str) -> JsonValue {
    JsonValue::Number(text.to_string())
}

fn sequence(inner: TypeDescriptor) -> TypeDescriptor {
    TypeDescriptor::Sequence(Box::new(inner))
}

fn optional(inner: TypeDescriptor) -> TypeDescriptor {
    TypeDescriptor::Optional(Box::new(inner))
}

fn primitive(kind: Primitive) -> TypeDescriptor {
    TypeDescriptor::Primitive(kind)
}

fn round_trip(data_type: &str, value: &str) -> String {
    let bytes = serialize_call_arguments(value, data_type).unwrap();
    call_result_to_data_type(&bytes, data_type.to_string()).unwrap()
}

#[test]
fn parse_gives_each_primitive() {
    let names = [
        ("i8", Primitive::I8),
        ("i16", Primitive::I16),
        ("i32", Primitive::I32),
        ("i64", Primitive::I64),
        ("i128", Primitive::I128),
        ("u8", Primitive::U8),
        ("u16", Primitive::U16),
        ("u32", Primitive::U32),
        ("u64", Primitive::U64),
        ("u128", Primitive::U128),
        ("bool", Primitive::Bool),
        ("String", Primitive::Str),
    ];
    for (name, kind) in names {
        assert_eq!(parse(name), Ok(primitive(kind)));
        assert_eq!(kind.as_str(), name);
        assert_eq!(
            parse(&format!("Vec<{}>", name)),
            Ok(sequence(primitive(kind)))
        );
        assert_eq!(
            parse(&format!("Option<{}>", name)),
            Ok(optional(primitive(kind)))
        );
        assert_eq!(
            parse(&format!("Vec<Vec<{}>>", name)),
            Ok(sequence(sequence(primitive(kind))))
        );
        assert_eq!(
            parse(&format!("Vec<Option<{}>>", name)),
            Ok(sequence(optional(primitive(kind))))
        );
        assert_eq!(
            parse(&format!("Option<Vec<{}>>", name)),
            Ok(optional(sequence(primitive(kind))))
        );
    }
}

#[test]
fn parse_gives_fixed_bytes() {
    assert_eq!(parse("[u8;32]"), Ok(TypeDescriptor::FixedBytes(32)));
    assert_eq!(parse("[u8;64]"), Ok(TypeDescriptor::FixedBytes(64)));
    assert_eq!(parse("[ u8 ; 64 ]"), Ok(TypeDescriptor::FixedBytes(64)));
}

#[test]
fn parse_ignores_white_space() {
    assert_eq!(parse("Vec< i32 >"), parse("Vec<i32>"));
    assert_eq!(parse("Vec< i32 >"), Ok(sequence(primitive(Primitive::I32))));
    assert_eq!(parse(" V e c <\ti 3 2\n> "), parse("Vec<i32>"));
    assert_eq!(
        parse("Option\u{a0}<\u{2003}Vec<\u{3000}String>>"),
        Ok(optional(sequence(primitive(Primitive::Str))))
    );
}

#[test]
fn parse_refuses_deeper_nesting() {
    assert_eq!(
        parse("Vec<Vec<Vec<bool>>>"),
        Err(ParseError::UnsupportedType("Vec<Vec<Vec<bool>>>".to_string()))
    );
}

#[test]
fn parse_refuses_what_is_outside_the_table() {
    let refused = [
        "",
        " ",
        "string",
        "Bool",
        "I8",
        "u256",
        "usize",
        "f32",
        "Vec",
        "Vec<>",
        "Vec<u8",
        "Vec<u8>>",
        "vec<u8>",
        "Option<Option<u8>>",
        "Option<Vec<Vec<u8>>>",
        "Vec<Option<Vec<u8>>>",
        "Vec<Vec<Option<u8>>>",
        "Option<[u8;32]>",
        "Vec<[u8;32]>",
        "[u8;16]",
        "[u8;032]",
        "[u8;32",
        "[u8,32]",
        "[i8;32]",
        "[u16;64]",
        "[bool;32]",
        "Array<u8,32>",
        "u8 x",
        "u8;",
    ];
    for name in refused {
        assert_eq!(
            parse(name),
            Err(ParseError::UnsupportedType(name.to_string())),
            "{:?}",
            name
        );
    }
}

#[test]
fn parse_keeps_the_name_as_given_in_its_error() {
    assert_eq!(
        parse(" Vec < Vec < Vec < bool > > > "),
        Err(ParseError::UnsupportedType(
            " Vec < Vec < Vec < bool > > > ".to_string()
        ))
    );
}

#[test]
fn descriptor_names_parse_back() {
    let descriptors = [
        primitive(Primitive::U128),
        TypeDescriptor::FixedBytes(32),
        TypeDescriptor::FixedBytes(64),
        sequence(primitive(Primitive::Str)),
        optional(primitive(Primitive::Bool)),
        sequence(sequence(primitive(Primitive::I8))),
        sequence(optional(primitive(Primitive::I64))),
        optional(sequence(primitive(Primitive::U16))),
    ];
    for d in descriptors {
        assert!(d.is_supported());
        assert_eq!(parse(&d.to_name()), Ok(d.clone()));
    }
    assert_eq!(
        sequence(optional(primitive(Primitive::I64))).to_name(),
        "Vec<Option<i64>>"
    );
    assert_eq!(TypeDescriptor::FixedBytes(64).to_name(), "[u8;64]");
    assert_eq!(TypeDescriptor::FixedBytes(1000).to_name(), "[u8;1000]");
}

#[test]
fn unsupported_descriptors_are_told_apart() {
    let unsupported = [
        TypeDescriptor::FixedBytes(0),
        TypeDescriptor::FixedBytes(33),
        optional(optional(primitive(Primitive::U8))),
        sequence(TypeDescriptor::FixedBytes(32)),
        optional(TypeDescriptor::FixedBytes(32)),
        sequence(sequence(sequence(primitive(Primitive::Bool)))),
        optional(sequence(sequence(primitive(Primitive::Bool)))),
        optional(sequence(optional(primitive(Primitive::Bool)))),
    ];
    for d in unsupported {
        assert!(!d.is_supported(), "{:?}", d);
    }
}

#[test]
fn encode_refuses_unsupported_descriptor() {
    let d = sequence(sequence(sequence(primitive(Primitive::Bool))));
    let value = parse_json("[[[true]]]").unwrap();
    assert_eq!(
        encode(&d, &value),
        Err(EncodeError::UnsupportedType(
            "Vec<Vec<Vec<bool>>>".to_string()
        ))
    );
    assert_eq!(
        encode(&TypeDescriptor::FixedBytes(3), &parse_json("[1,2,3]").unwrap()),
        Err(EncodeError::UnsupportedType("[u8;3]".to_string()))
    );
}

#[test]
fn decode_refuses_unsupported_descriptor() {
    let d = optional(optional(primitive(Primitive::U8)));
    assert_eq!(
        decode(&d, &[1, 1, 7]),
        Err(DecodeError::UnsupportedType(
            "Option<Option<u8>>".to_string()
        ))
    );
}

#[test]
fn fixed_array_of_other_length_is_a_mismatch() {
    assert_eq!(
        serialize_call_arguments("[1,2,3]", "[u8;32]"),
        Err(EncodeError::TypeMismatch)
    );
    let thirty_one = format!("[{}]", vec!["1"; 31].join(","));
    let thirty_two = format!("[{}]", vec!["1"; 32].join(","));
    let thirty_three = format!("[{}]", vec!["1"; 33].join(","));
    assert_eq!(
        serialize_call_arguments(&thirty_one, "[u8;32]"),
        Err(EncodeError::TypeMismatch)
    );
    assert_eq!(
        serialize_call_arguments(&thirty_three, "[u8;32]"),
        Err(EncodeError::TypeMismatch)
    );
    assert_eq!(
        serialize_call_arguments(&thirty_two, "[u8;32]"),
        Ok(vec![1u8; 32])
    );
    assert_eq!(
        serialize_call_arguments(&thirty_two, "[u8;64]"),
        Err(EncodeError::TypeMismatch)
    );
    assert_eq!(
        serialize_call_arguments("[]", "[u8;32]"),
        Err(EncodeError::TypeMismatch)
    );
}

#[test]
fn fixed_array_takes_bytes_only() {
    let mut items = vec!["0"; 32];
    items[5] = "256";
    assert_eq!(
        serialize_call_arguments(&format!("[{}]", items.join(",")), "[u8;32]"),
        Err(EncodeError::NumericOverflow)
    );
    items[5] = "-1";
    assert_eq!(
        serialize_call_arguments(&format!("[{}]", items.join(",")), "[u8;32]"),
        Err(EncodeError::NumericOverflow)
    );
    items[5] = "true";
    assert_eq!(
        serialize_call_arguments(&format!("[{}]", items.join(",")), "[u8;32]"),
        Err(EncodeError::TypeMismatch)
    );
    assert_eq!(
        serialize_call_arguments("\"abc\"", "[u8;32]"),
        Err(EncodeError::TypeMismatch)
    );
}

#[test]
fn numeric_boundary_of_u8() {
    assert_eq!(
        serialize_call_arguments("256", "u8"),
        Err(EncodeError::NumericOverflow)
    );
    assert_eq!(serialize_call_arguments("255", "u8"), Ok(vec![255]));
    assert_eq!(
        call_result_to_data_type(&vec![255], "u8".to_string()),
        Ok("255".to_string())
    );
    assert_eq!(round_trip("u8", "255"), "255");
}

#[test]
fn numeric_boundaries_of_every_integer_type() {
    let bounds = [
        ("i8", "-128", "127", "-129", "128"),
        ("i16", "-32768", "32767", "-32769", "32768"),
        ("i32", "-2147483648", "2147483647", "-2147483649", "2147483648"),
        (
            "i64",
            "-9223372036854775808",
            "9223372036854775807",
            "-9223372036854775809",
            "9223372036854775808",
        ),
        (
            "i128",
            "-170141183460469231731687303715884105728",
            "170141183460469231731687303715884105727",
            "-170141183460469231731687303715884105729",
            "170141183460469231731687303715884105728",
        ),
        ("u8", "0", "255", "-1", "256"),
        ("u16", "0", "65535", "-1", "65536"),
        ("u32", "0", "4294967295", "-1", "4294967296"),
        ("u64", "0", "18446744073709551615", "-1", "18446744073709551616"),
        (
            "u128",
            "0",
            "340282366920938463463374607431768211455",
            "-1",
            "340282366920938463463374607431768211456",
        ),
    ];
    for (name, least, greatest, below, above) in bounds {
        assert_eq!(round_trip(name, least), least, "{}", name);
        assert_eq!(round_trip(name, greatest), greatest, "{}", name);
        assert_eq!(
            serialize_call_arguments(below, name),
            Err(EncodeError::NumericOverflow),
            "{}",
            name
        );
        assert_eq!(
            serialize_call_arguments(above, name),
            Err(EncodeError::NumericOverflow),
            "{}",
            name
        );
    }
    assert_eq!(
        serialize_call_arguments("1000000000000000000000000000000000000000000000000", "u128"),
        Err(EncodeError::NumericOverflow)
    );
}

#[test]
fn integers_are_little_endian_in_their_width() {
    assert_eq!(serialize_call_arguments("1", "u16"), Ok(vec![1, 0]));
    assert_eq!(serialize_call_arguments("258", "u32"), Ok(vec![2, 1, 0, 0]));
    assert_eq!(
        serialize_call_arguments("72623859790382856", "u64"),
        Ok(vec![8, 7, 6, 5, 4, 3, 2, 1])
    );
    assert_eq!(serialize_call_arguments("-1", "i8"), Ok(vec![0xff]));
    assert_eq!(serialize_call_arguments("-2", "i16"), Ok(vec![0xfe, 0xff]));
    assert_eq!(
        serialize_call_arguments("-2147483648", "i32"),
        Ok(vec![0, 0, 0, 0x80])
    );
    let mut least = vec![0u8; 16];
    least[15] = 0x80;
    assert_eq!(
        serialize_call_arguments("-170141183460469231731687303715884105728", "i128"),
        Ok(least)
    );
    assert_eq!(
        serialize_call_arguments("340282366920938463463374607431768211455", "u128"),
        Ok(vec![0xff; 16])
    );
    assert_eq!(
        call_result_to_data_type(&vec![0xfe, 0xff], "i16".to_string()),
        Ok("-2".to_string())
    );
    assert_eq!(
        call_result_to_data_type(&vec![0xfe, 0xff], "u16".to_string()),
        Ok("65534".to_string())
    );
}

#[test]
fn number_literals_that_are_no_integers_are_a_mismatch() {
    for text in ["1.0", "1e2", "1E2", "0.5", "-0", "-0.0", "1.5e300"] {
        assert_eq!(
            serialize_call_arguments(text, "u8"),
            Err(EncodeError::TypeMismatch),
            "{}",
            text
        );
        assert_eq!(
            serialize_call_arguments(text, "i64"),
            Err(EncodeError::TypeMismatch),
            "{}",
            text
        );
    }
}

#[test]
fn number_texts_outside_json_are_a_mismatch() {
    let d = primitive(Primitive::I32);
    for text in ["", "-", "+1", "01", "-01", "1 ", " 1", "١", "0x10", "1_000"] {
        assert_eq!(
            encode(&d, &number(text)),
            Err(EncodeError::TypeMismatch),
            "{:?}",
            text
        );
    }
    assert_eq!(encode(&d, &number("0")), Ok(vec![0, 0, 0, 0]));
    assert_eq!(encode(&d, &number("-10")), Ok(vec![0xf6, 0xff, 0xff, 0xff]));
}

#[test]
fn shapes_that_do_not_match_are_a_mismatch() {
    assert_eq!(
        serialize_call_arguments("\"1\"", "u8"),
        Err(EncodeError::TypeMismatch)
    );
    assert_eq!(
        serialize_call_arguments("1", "bool"),
        Err(EncodeError::TypeMismatch)
    );
    assert_eq!(
        serialize_call_arguments("true", "String"),
        Err(EncodeError::TypeMismatch)
    );
    assert_eq!(
        serialize_call_arguments("null", "String"),
        Err(EncodeError::TypeMismatch)
    );
    assert_eq!(
        serialize_call_arguments("{}", "Vec<u8>"),
        Err(EncodeError::TypeMismatch)
    );
    assert_eq!(
        serialize_call_arguments("[1, null]", "Vec<u8>"),
        Err(EncodeError::TypeMismatch)
    );
    assert_eq!(
        serialize_call_arguments("[null]", "Option<Vec<u8>>"),
        Err(EncodeError::TypeMismatch)
    );
    assert_eq!(
        serialize_call_arguments("[[1], 2]", "Vec<Vec<u8>>"),
        Err(EncodeError::TypeMismatch)
    );
}

#[test]
fn first_failing_item_decides_the_error() {
    assert_eq!(
        serialize_call_arguments("[1, 256, true]", "Vec<u8>"),
        Err(EncodeError::NumericOverflow)
    );
    assert_eq!(
        serialize_call_arguments("[1, true, 256]", "Vec<u8>"),
        Err(EncodeError::TypeMismatch)
    );
}

#[test]
fn booleans_and_strings_are_encoded() {
    assert_eq!(serialize_call_arguments("true", "bool"), Ok(vec![1]));
    assert_eq!(serialize_call_arguments("false", "bool"), Ok(vec![0]));
    assert_eq!(
        serialize_call_arguments("\"\"", "String"),
        Ok(vec![0, 0, 0, 0])
    );
    assert_eq!(
        serialize_call_arguments("\"h\u{e9}\"", "String"),
        Ok(vec![3, 0, 0, 0, b'h', 0xc3, 0xa9])
    );
}

#[test]
fn optionals_are_encoded() {
    assert_eq!(serialize_call_arguments("null", "Option<u16>"), Ok(vec![0]));
    assert_eq!(
        serialize_call_arguments("513", "Option<u16>"),
        Ok(vec![1, 1, 2])
    );
    assert_eq!(
        serialize_call_arguments("[]", "Option<Vec<u16>>"),
        Ok(vec![1, 0, 0, 0, 0])
    );
    assert_eq!(round_trip("Option<u16>", "null"), "None");
    assert_eq!(round_trip("Option<u16>", "513"), "Some(513)");
    assert_eq!(round_trip("Option<String>", "\"x\""), "Some(\"x\")");
    assert_eq!(round_trip("Option<Vec<bool>>", "[true]"), "Some([true])");
}

#[test]
fn sequence_of_optional_strings() {
    let bytes = serialize_call_arguments("[\"sss\", null]", "Vec<Option<String>>").unwrap();
    assert_eq!(
        bytes,
        vec![2, 0, 0, 0, 1, 3, 0, 0, 0, b's', b's', b's', 0]
    );
    assert_eq!(
        call_result_to_data_type(&bytes, "Vec<Option<String>>".to_string()),
        Ok("[Some(\"sss\"), None]".to_string())
    );
}

#[test]
fn round_trip_gives_the_text_of_the_value() {
    assert_eq!(round_trip("bool", "true"), "true");
    assert_eq!(round_trip("String", "\"a\\nb\""), "\"a\\nb\"");
    assert_eq!(round_trip("String", "\"Fa\\\"l\\\"se\""), "\"Fa\\\"l\\\"se\"");
    assert_eq!(round_trip("Vec<i32>", "[-2, -3, 5, 6]"), "[-2, -3, 5, 6]");
    assert_eq!(round_trip("Vec<i32>", "[]"), "[]");
    assert_eq!(
        round_trip("Vec<Vec<String>>", "[[\"sss\"], [], [\"ddd\", \"e\"]]"),
        "[[\"sss\"], [], [\"ddd\", \"e\"]]"
    );
    assert_eq!(
        round_trip("Vec<Option<i8>>", "[-1, null, -5]"),
        "[Some(-1), None, Some(-5)]"
    );
    let bytes = format!("[{}]", vec!["7"; 64].join(", "));
    assert_eq!(round_trip("[u8;64]", &bytes), bytes);
}

#[test]
fn round_trip_matches_the_text_of_the_typed_value() {
    let cases = [
        ("Vec<Option<String>>", "[\"sss\", null]"),
        ("Option<Vec<u128>>", "[0, 340282366920938463463374607431768211455]"),
        ("Vec<Vec<i16>>", "[[-10001, -30001], [5]]"),
        ("i128", "-9046744073709551615"),
    ];
    for (name, text) in cases {
        let d = parse(name).unwrap();
        let value = coerce(&d, &parse_json(text).unwrap()).unwrap();
        let bytes = encode(&d, &parse_json(text).unwrap()).unwrap();
        assert_eq!(decode_value(&d, &bytes), Ok(coerce(&d, &parse_json(text).unwrap()).unwrap()));
        assert_eq!(decode(&d, &bytes), Ok(value.to_text()));
    }
}

#[test]
fn typed_values_have_a_text() {
    assert_eq!(TypedValue::Int(i128::MIN).to_text(), i128::MIN.to_string());
    assert_eq!(TypedValue::Int(-1).to_text(), "-1");
    assert_eq!(TypedValue::Int(0).to_text(), "0");
    assert_eq!(TypedValue::Uint(u128::MAX).to_text(), u128::MAX.to_string());
    assert_eq!(TypedValue::Uint(10).to_text(), "10");
    assert_eq!(TypedValue::Bool(true).to_text(), "true");
    assert_eq!(TypedValue::Bool(false).to_text(), "false");
    assert_eq!(TypedValue::Text("a\"b\\c\t\u{1}".to_string()).to_text(), "\"a\\\"b\\\\c\\t\\u{1}\"");
    assert_eq!(TypedValue::Absent.to_text(), "None");
    assert_eq!(
        TypedValue::Present(Box::new(TypedValue::Uint(3))).to_text(),
        "Some(3)"
    );
    assert_eq!(TypedValue::List(vec![]).to_text(), "[]");
    assert_eq!(
        TypedValue::List(vec![TypedValue::Int(-1)]).to_text(),
        "[-1]"
    );
    assert_eq!(
        TypedValue::List(vec![
            TypedValue::Absent,
            TypedValue::Present(Box::new(TypedValue::Text("x".to_string()))),
            TypedValue::List(vec![TypedValue::Bool(true), TypedValue::Bool(false)]),
        ])
        .to_text(),
        "[None, Some(\"x\"), [true, false]]"
    );
}

#[test]
fn truncated_buffers_are_refused() {
    let cases: [(&str, Vec<u8>); 12] = [
        ("u8", vec![]),
        ("i16", vec![1]),
        ("u32", vec![1, 2, 3]),
        ("u64", vec![0; 7]),
        ("i128", vec![0; 15]),
        ("bool", vec![]),
        ("String", vec![1, 0, 0]),
        ("String", vec![3, 0, 0, 0, b'a', b'b']),
        ("Vec<u16>", vec![2, 0, 0, 0, 1, 0, 2]),
        ("Option<u16>", vec![1, 5]),
        ("Option<u16>", vec![]),
        ("[u8;32]", vec![0; 31]),
    ];
    for (name, bytes) in cases {
        assert_eq!(
            call_result_to_data_type(&bytes, name.to_string()),
            Err(DecodeError::TruncatedBuffer),
            "{}",
            name
        );
    }
    assert_eq!(
        call_result_to_data_type(&vec![0xff, 0xff, 0xff, 0xff], "Vec<u8>".to_string()),
        Err(DecodeError::TruncatedBuffer)
    );
    assert_eq!(
        call_result_to_data_type(&vec![0xff, 0xff, 0xff, 0xff, 1], "String".to_string()),
        Err(DecodeError::TruncatedBuffer)
    );
}

#[test]
fn bytes_that_encode_no_value_are_refused() {
    assert_eq!(
        call_result_to_data_type(&vec![2], "bool".to_string()),
        Err(DecodeError::InvalidEncoding)
    );
    assert_eq!(
        call_result_to_data_type(&vec![2, 0, 0], "Option<u16>".to_string()),
        Err(DecodeError::InvalidEncoding)
    );
    assert_eq!(
        call_result_to_data_type(&vec![2, 0, 0, 0, 0xc3, 0x28], "String".to_string()),
        Err(DecodeError::InvalidEncoding)
    );
    assert_eq!(
        call_result_to_data_type(&vec![1, 0, 0, 0, 0xff], "String".to_string()),
        Err(DecodeError::InvalidEncoding)
    );
    assert_eq!(
        call_result_to_data_type(&vec![2, 0, 0, 0, 1, 7], "Vec<bool>".to_string()),
        Err(DecodeError::InvalidEncoding)
    );
}

#[test]
fn first_byte_that_fails_decides_the_error() {
    assert_eq!(
        call_result_to_data_type(&vec![3, 0, 0, 0, 1, 9], "Vec<bool>".to_string()),
        Err(DecodeError::InvalidEncoding)
    );
    assert_eq!(
        call_result_to_data_type(&vec![3, 0, 0, 0, 1, 0], "Vec<bool>".to_string()),
        Err(DecodeError::TruncatedBuffer)
    );
}

#[test]
fn strings_are_decoded_from_utf8() {
    assert_eq!(
        call_result_to_data_type(&vec![3, 0, 0, 0, b'h', 0xc3, 0xa9], "String".to_string()),
        Ok("\"h\u{e9}\"".to_string())
    );
    assert_eq!(
        decode_value(
            &primitive(Primitive::Str),
            &[4, 0, 0, 0, 0xf0, 0x9f, 0x98, 0x80]
        ),
        Ok(TypedValue::Text("\u{1f600}".to_string()))
    );
}

#[test]
fn json_text_becomes_a_tree_of_plain_values() {
    let value = parse_json(r#"{"a": [1, -2.5e3, "x", true, null], "b": {}}"#).unwrap();
    assert_eq!(
        value,
        JsonValue::Object(vec![
            JsonMember {
                key: "a".to_string(),
                value: JsonValue::Array(vec![
                    number("1"),
                    number("-2.5e+3"),
                    JsonValue::Text("x".to_string()),
                    JsonValue::Bool(true),
                    JsonValue::Null,
                ]),
            },
            JsonMember {
                key: "b".to_string(),
                value: JsonValue::Object(vec![]),
            },
        ])
    );
    assert_eq!(value.get("b"), Some(&JsonValue::Object(vec![])));
    assert_eq!(value.get("c"), None);
    assert_eq!(number("1").get("a"), None);
    assert!(parse_json("{").is_err());
    assert!(parse_json("1 2").is_err());
}

#[test]
fn json_numbers_keep_every_digit() {
    assert_eq!(
        parse_json("340282366920938463463374607431768211455"),
        Ok(number("340282366920938463463374607431768211455"))
    );
    assert_eq!(parse_json(" -17 "), Ok(number("-17")));
}

#[test]
fn first_member_of_a_key_is_found() {
    let object = JsonValue::Object(vec![
        JsonMember {
            key: "k".to_string(),
            value: JsonValue::Bool(true),
        },
        JsonMember {
            key: "k".to_string(),
            value: JsonValue::Bool(false),
        },
    ]);
    assert_eq!(object.get("k"), Some(&JsonValue::Bool(true)));
}

#[test]
fn values_are_encoded_without_their_text() {
    let value = JsonValue::Array(vec![JsonValue::Text("sss".to_string()), JsonValue::Null]);
    assert_eq!(
        serialize_value(&value, "Vec < Option<String> >"),
        Ok(vec![2, 0, 0, 0, 1, 3, 0, 0, 0, b's', b's', b's', 0])
    );
    assert_eq!(
        serialize_value(&value, "Vec<Option<Strin>>"),
        Err(EncodeError::UnsupportedType(
            "Vec<Option<Strin>>".to_string()
        ))
    );
}

#[test]
fn errors_have_a_message() {
    assert_eq!(
        EncodeError::TypeMismatch.message(),
        "Value does not have the shape of the data type"
    );
    assert_eq!(
        EncodeError::NumericOverflow.message(),
        "Number is out of range of the data type"
    );
    assert_eq!(
        EncodeError::InvalidJson("eof".to_string()).message(),
        "Invalid JSON: eof"
    );
    assert_eq!(
        EncodeError::TooLong.message(),
        "Length does not fit four bytes"
    );
    assert_eq!(
        DecodeError::TruncatedBuffer.message(),
        "Unexpected length of input"
    );
    assert_eq!(
        DecodeError::InvalidEncoding.message(),
        "Bytes do not encode a value of the data type"
    );
    assert_eq!(
        ParseError::InvalidJson("eof".to_string()).message(),
        "Invalid JSON: eof"
    );
    assert_eq!(
        ParseError::UnsupportedType("x".to_string()).message(),
        "Provided data types is not supported: x"
    );
}
