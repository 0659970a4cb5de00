use borsh::BorshSerialize;
use pchain_client::utils::parser::{
    call_result_to_data_type, serialize_call_arguments, CallArguments,
};
use pchain_client::{DecodeError, EncodeError, ParseError};

fn borsh_bytes<T: BorshSerialize>(value: &T) -> Result<Vec<u8>, EncodeError> {
    value.try_to_vec().map_err(|_| EncodeError::TypeMismatch)
}

#[test]
fn test_serialize_call_arrguments() {
    let unsupported = serialize_call_arguments("[[[true]]]", "Vec<Vec<Vec<bool>>>");
    assert_eq!(
        unsupported,
        Err(EncodeError::UnsupportedType("Vec<Vec<Vec<bool>>>".to_string()))
    );
    assert_eq!(
        unsupported.unwrap_err().message(),
        "Provided data types is not supported: Vec<Vec<Vec<bool>>>"
    );

    assert_eq!(serialize_call_arguments("false", "bool"), {
        let v = false;
        borsh_bytes(&v)
    });

    assert_eq!(serialize_call_arguments("[false]", "Vec<bool>"), {
        let v: Vec<bool> = vec![false];
        borsh_bytes(&v)
    });

    assert_eq!(serialize_call_arguments("[-2, -3, 5, 6]", "Vec< i32 >"), {
        let v: Vec<i32> = vec![-2, -3, 5, 6];
        borsh_bytes(&v)
    });

    assert_eq!(serialize_call_arguments("[2, 2, 2, 2, 2, 2, 2, 2, 2, 2, 2, 2, 2, 2, 2, 2, 2, 2, 2, 2, 2, 2, 2, 2, 2, 2, 2, 2, 2, 2, 2, 2,
        2, 2, 2, 2, 2, 2, 2, 2, 2, 2, 2, 2, 2, 2, 2, 2, 2, 2, 2, 2, 2, 2, 2, 2, 2, 2, 2, 2, 2, 2, 2, 2]", "[ u8 ; 64 ]"), {
        let v: [u8; 64] = [2, 2, 2, 2, 2, 2, 2, 2, 2, 2, 2, 2, 2, 2, 2, 2, 2, 2, 2, 2, 2, 2, 2, 2, 2, 2, 2, 2, 2, 2, 2, 2,
            2, 2, 2, 2, 2, 2, 2, 2, 2, 2, 2, 2, 2, 2, 2, 2, 2, 2, 2, 2, 2, 2, 2, 2, 2, 2, 2, 2, 2, 2, 2, 2];
        borsh_bytes(&v)
    });

    assert_eq!(serialize_call_arguments("\"Fa\\\"l\\\"se\"", "String"), {
        let v = r#"Fa"l"se"#;
        borsh_bytes(&v)
    });

    assert_eq!(serialize_call_arguments("\"Fa\\\"l\\\"se\"", "String"), {
        let v = "Fa\"l\"se";
        borsh_bytes(&v)
    });

    assert_eq!(serialize_call_arguments("[\"sss\", \"ddd\"]", "Vec< String >"), {
        let v: Vec<String> = vec![String::from("sss"), String::from("ddd")];
        borsh_bytes(&v)
    });

    assert_eq!(serialize_call_arguments("[\"sss\", \"ddd\"]", "Vec< Option < String > >"), {
        let v: Vec<Option<String>> = vec![Some(String::from("sss")), Some(String::from("ddd"))];
        borsh_bytes(&v)
    });

    assert_eq!(serialize_call_arguments("[\"sss\", null]", "Vec< Option < String > >"), {
        let v: Vec<Option<String>> = vec![Some(String::from("sss")), None];
        borsh_bytes(&v)
    });

    assert_eq!(serialize_call_arguments("[\"sss\", \"ddd\"]", "Option< Vec < String > >"), {
        let v: Option<Vec<String>> = Some(vec![String::from("sss"), String::from("ddd")]);
        borsh_bytes(&v)
    });

    assert_eq!(serialize_call_arguments("null", "Option< Vec < String > >"), {
        let v: Option<Vec<String>> = None;
        borsh_bytes(&v)
    });

    assert_eq!(serialize_call_arguments("[[\"sss\"], [\"ddd\"]]", "Vec< Vec < String > >"), {
        let v: Vec<Vec<String>> = vec![vec![String::from("sss")], vec![String::from("ddd")]];
        borsh_bytes(&v)
    });
}

#[test]
fn test_parse_arguments() {
    let json_string = r#" 
            {
                "arguments": [
                    {"argument_type": "i8", "argument_value":"-1"},
                    {"argument_type": "Vec<i8>", "argument_value":"[-1, -3, -5]"},
                    {"argument_type": "Vec<Vec<i8>>", "argument_value":"[[-1, -3], [-5]]"},
                    {"argument_type": "Vec<Opion<i8>>", "argument_value":"[-1, null, -5]"},
                    {"argument_type": "Opion<Vec<i8>>", "argument_value":"[-1, -3, -5]"},
                    {"argument_type": "Opion<Vec<i8>>", "argument_value":"null"},
            
                    {"argument_type": "i16", "argument_value":"-30000"},
                    {"argument_type": "Vec<i16>", "argument_value":"[-10001, -30001, -50001]"},
                    {"argument_type": "Vec<Vec<i16>>", "argument_value":"[[-10001, -30001], [-50001]]"},
                    {"argument_type": "Vec<Opion<i16>>", "argument_value":"[-10001, null, -50001]"},
                    {"argument_type": "Opion<Vec<i16>", "argument_value":"[-10001, -30001, -50001]"},
                    {"argument_type": "Opion<Vec<i16>>", "argument_value":"null"},
                    
                    {"argument_type": "i32", "argument_value":"-1094967295"},
                    {"argument_type": "Vec<i32>", "argument_value":"[-1,0,1]"},
            
                    {"argument_type": "i64", "argument_value":"-9046744073709551615"},
                    {"argument_type": "Vec<i64>", "argument_value":"[-1,0,1,65656565]"},
            
                    {"argument_type": "i128", "argument_value":"-9046744073709551615"},
                    {"argument_type": "Vec<i128>", "argument_value":"[-1,0,1,-65656565,0]"},
            
                    {"argument_type": "u8", "argument_value":"255"},
                    {"argument_type": "Vec<u8>", "argument_value":"[0]"},
            
                    {"argument_type": "u16", "argument_value":"65535"},
                    {"argument_type": "Vec<u16>", "argument_value":"[65535,6535]"},
            
                    {"argument_type": "u32", "argument_value":"4294967295"},
                    {"argument_type": "Vec<u32>", "argument_value":"[65535,6535,1919]"},
            
                    {"argument_type": "u64", "argument_value":"18446744073709551615"},
                    {"argument_type": "Vec<u64>", "argument_value":"[65535,6535,1919112123223]"},
            
                    {"argument_type": "u128", "argument_value":"18446744073709551616"},
                    {"argument_type": "Vec<u128>", "argument_value":"[65535,6535,1919112123223,123123,124124,125152]"},
            
                    {"argument_type": "bool", "argument_value": "true"},
                    {"argument_type": "Vec<bool>", "argument_value": "[true,false,true]"},
                    {"argument_type": "Vec<Vec<bool>>", "argument_value":"[[true, false], [true]]"},
                    {"argument_type": "Vec<Opion<bool>>", "argument_value":"[true,false,nul]"},
                    {"argument_type": "Opion<Vec<bool>", "argument_value":"[true,false,true]"},
                    {"argument_type": "Opion<Vec<bool>", "argument_value":"null"},
            
                    {"argument_type": "String", "argument_value": "string data"},
                    {"argument_type": "Vec<String>", "argument_value": "[\"string data\", \"asdaf\", \"1d1 as2\"]"},
                    {"argument_type": "Vec<Vec<String>>", "argument_value":"[[\"string data\"], [\"asdaf\", \"1d1 as2\"]]"},
                    {"argument_type": "Vec<Opion<String>>", "argument_value":"[\"string data\", null, \"1d1 as2\"]"},
                    {"argument_type": "Opion<Vec<String>", "argument_value":"[\"string data\", \"asdaf\", \"1d1 as2\"]"},
                    {"argument_type": "Opion<Vec<String>", "argument_value":"null"},

                    {"argument_type": "[u8, 32]", "argument_value": "[1,2,3,4,5,6,7,8,9,0,1,2,3,4,5,6,7,8,9,0,1,2,3,4,5,6,7,8,9,0,1,2]"},
                    {"argument_type": "[u8, 64]", "argument_value": "[1,2,3,4,5,6,7,8,9,0,1,2,3,4,5,6,7,8,9,0,1,2,3,4,5,6,7,8,9,0,1,2,1,2,3,4,5,6,7,8,9,0,1,2,3,4,5,6,7,8,9,0,1,2,3,4,5,6,7,8,9,0,1,2]"}
                ]
            }
            
        "#;

    let result = CallArguments::from_json(json_string);
    assert!(result.is_ok());
    assert_eq!(result.unwrap().arguments.len(), 42);
}

fn assert_data_type<T: BorshSerialize>(data_type: &str, value: T, expected: String) {
    let bytes = value.try_to_vec().unwrap();
    assert_eq!(
        call_result_to_data_type(&bytes, data_type.to_string()).unwrap(),
        expected
    );
}

#[test]
fn test_callresult() {
    let test_data_32: [u8; 32] = [
        1, 2, 3, 4, 5, 6, 7, 8, 9, 0, 1, 2, 3, 4, 5, 6, 7, 8, 9, 0, 1, 2, 3, 4, 5, 6, 7, 8, 9, 0,
        1, 2,
    ];
    let test_data_64: [u8; 64] = [
        1, 2, 3, 4, 5, 6, 7, 8, 9, 0, 1, 2, 3, 4, 5, 6, 7, 8, 9, 0, 1, 2, 3, 4, 5, 6, 7, 8, 9, 0,
        1, 2, 1, 2, 3, 4, 5, 6, 7, 8, 9, 0, 1, 2, 3, 4, 5, 6, 7, 8, 9, 0, 1, 2, 3, 4, 5, 6, 7, 8,
        9, 0, 1, 2,
    ];

    assert_data_type("u8", 1u8, "1".to_string());
    assert_data_type("u16", 123u16, "123".to_string());
    assert_data_type("u32", 9898u32, "9898".to_string());
    assert_data_type("u64", 9999999999999u64, "9999999999999".to_string());
    assert_data_type("u128", 111199999999999u128, "111199999999999".to_string());
    assert_data_type("i8", -1i8, "-1".to_string());
    assert_data_type("i16", -123i16, "-123".to_string());
    assert_data_type("i32", -9898i32, "-9898".to_string());
    assert_data_type("i64", -9999999999999i64, "-9999999999999".to_string());
    assert_data_type("i128", -111199999999999i128, "-111199999999999".to_string());
    assert_data_type("bool", false, "false".to_string());
    assert_data_type("String", "asdas".to_string(), "\"asdas\"".to_string());
    assert_data_type("Vec<u8>", [0u8, 1u8, 2u8].to_vec(), "[0, 1, 2]".to_string());
    assert_data_type("Vec<u16>", [99u16].to_vec(), "[99]".to_string());
    assert_data_type("Vec<u32>", [0u32, 6u32].to_vec(), "[0, 6]".to_string());
    assert_data_type("Vec<u64>", [0u64, 6123123123u64].to_vec(), "[0, 6123123123]".to_string());
    assert_data_type("Vec<i8>", [0i8, 1i8, -2i8].to_vec(), "[0, 1, -2]".to_string());
    assert_data_type("Vec<i16>", [-99i16].to_vec(), "[-99]".to_string());
    assert_data_type("Vec<i32>", [0i32, 6i32].to_vec(), "[0, 6]".to_string());
    assert_data_type(
        "Vec<i64>",
        [-1i64, -6123123123i64].to_vec(),
        "[-1, -6123123123]".to_string(),
    );
    assert_data_type(
        "Vec<i128>",
        [-1i128, -1i128, -1i128, -1i128, -6123123123i128].to_vec(),
        "[-1, -1, -1, -1, -6123123123]".to_string(),
    );
    assert_data_type(
        "Vec<bool>",
        [true, false, false].to_vec(),
        "[true, false, false]".to_string(),
    );
    assert_data_type(
        "Vec<String>",
        ["true", "false", "false"].to_vec(),
        "[\"true\", \"false\", \"false\"]".to_string(),
    );
    assert_data_type("[ u 8; 3 2]", test_data_32, format!("{:?}", test_data_32));
    assert_data_type("[ u 8; 6 4]", test_data_64, format!("{:?}", test_data_64));
}

#[test]
fn arguments_keep_the_order_of_the_document() {
    let text = r#"{"arguments": [
        {"argument_type": "u8", "argument_value": "1"},
        {"argument_type": "String", "argument_value": "\"two\""},
        {"argument_type": "bool", "argument_value": "true"}
    ]}"#;
    let arguments = CallArguments::from_json(text).unwrap().arguments;
    assert_eq!(
        arguments,
        vec![
            ("u8".to_string(), "1".to_string()),
            ("String".to_string(), "\"two\"".to_string()),
            ("bool".to_string(), "true".to_string()),
        ]
    );
}

#[test]
fn entry_without_value_is_dropped() {
    let text = r#"{"arguments": [
        {"argument_type": "u8", "argument_value": "1"},
        {"argument_type": "u8"}
    ]}"#;
    let result = CallArguments::from_json(text);
    assert!(result.is_ok());
    let arguments = result.unwrap().arguments;
    assert_eq!(arguments.len(), 1);
    assert_eq!(arguments[0], ("u8".to_string(), "1".to_string()));
}

#[test]
fn entries_of_other_shapes_are_dropped() {
    let text = r#"{"arguments": [
        {"argument_value": "1"},
        {"argument_type": 8, "argument_value": "1"},
        {"argument_type": "u8", "argument_value": 1},
        {"argument_type": "u8", "argument_value": null},
        17,
        "u8",
        ["argument_type", "argument_value"],
        {"argument_type": "u16", "argument_value": "2", "more": []}
    ]}"#;
    let arguments = CallArguments::from_json(text).unwrap().arguments;
    assert_eq!(arguments, vec![("u16".to_string(), "2".to_string())]);
}

#[test]
fn document_without_arguments_is_refused() {
    let missing = Err(ParseError::MissingField("arguments".to_string()));
    assert_eq!(CallArguments::from_json("{}").map(|a| a.arguments), missing);
    assert_eq!(
        CallArguments::from_json(r#"{"arguments": {"argument_type": "u8"}}"#).map(|a| a.arguments),
        missing
    );
    assert_eq!(CallArguments::from_json("[]").map(|a| a.arguments), missing);
    assert_eq!(CallArguments::from_json("null").map(|a| a.arguments), missing);
    assert_eq!(
        CallArguments::from_json("{}").unwrap_err().message(),
        "Missing field in JSON: arguments"
    );
}

#[test]
fn empty_argument_list_is_accepted() {
    let arguments = CallArguments::from_json(r#"{"arguments": []}"#).unwrap().arguments;
    assert!(arguments.is_empty());
}

#[test]
fn text_that_is_not_json_is_refused() {
    let result = CallArguments::from_json(r#"{"arguments": ["#);
    match result {
        Err(ParseError::InvalidJson(reason)) => assert!(!reason.is_empty()),
        other => panic!("expected InvalidJson, got {:?}", other.map(|a| a.arguments)),
    }
}

#[test]
fn value_that_is_not_json_is_refused() {
    match serialize_call_arguments("[1, 2", "Vec<u8>") {
        Err(EncodeError::InvalidJson(reason)) => assert!(!reason.is_empty()),
        other => panic!("expected InvalidJson, got {:?}", other),
    }
    match serialize_call_arguments("", "u8") {
        Err(EncodeError::InvalidJson(_)) => {}
        other => panic!("expected InvalidJson, got {:?}", other),
    }
}

#[test]
fn unsupported_type_is_reported_before_the_value_is_read() {
    assert_eq!(
        serialize_call_arguments("[1, 2", "Vec < u7 >"),
        Err(EncodeError::UnsupportedType("Vec < u7 >".to_string()))
    );
}

#[test]
fn call_result_of_unsupported_type_is_refused() {
    assert_eq!(
        call_result_to_data_type(&vec![1, 0, 0, 0], "Vec<Vec<Vec<bool>>>".to_string()),
        Err(DecodeError::UnsupportedType("Vec<Vec<Vec<bool>>>".to_string()))
    );
    assert_eq!(
        call_result_to_data_type(&vec![1], " u9 ".to_string())
            .unwrap_err()
            .message(),
        "Provided data types is not supported:  u9 "
    );
}

#[test]
fn call_result_ignores_bytes_after_the_value() {
    assert_eq!(
        call_result_to_data_type(&vec![7, 8, 9], "u8".to_string()),
        Ok("7".to_string())
    );
    assert_eq!(
        call_result_to_data_type(&vec![1, 0, 0, 0, 5, 0xff, 0xff], "Vec<u8>".to_string()),
        Ok("[5]".to_string())
    );
}
