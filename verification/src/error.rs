//! The errors of the codec, and the messages for a node's error codes.

use vstd::prelude::*;
use vstd::string::*;
use crate::chars::{chars_of, contains, has_word};
use crate::decimal::{all_digits, digits_value, read_digits};

verus! {

/// The model of a result: the view of what it holds, on either side.
pub open spec fn outcome<T: View, E: View>(r: Result<T, E>) -> Result<T::V, E::V> {
    match r {
        Ok(value) => Ok(value@),
        Err(error) => Err(error@),
    }
}

/// Why a type name or an argument document was not accepted.
#[derive(Clone, Debug, PartialEq, Eq)]
pub enum ParseError {
    /// The type name, as it was given, names no supported type.
    UnsupportedType(String),
    /// The document is not JSON; the text says where it breaks off.
    InvalidJson(String),
    /// The document lacks the field of this name.
    MissingField(String),
}

/// What a `ParseError` says, apart from a JSON parser's wording.
pub enum ParseFault {
    UnsupportedType(Seq<char>),
    InvalidJson,
    MissingField(Seq<char>),
}

impl View for ParseError {
    type V = ParseFault;

    open spec fn view(&self) -> ParseFault {
        match self {
            ParseError::UnsupportedType(name) => ParseFault::UnsupportedType(name@),
            ParseError::InvalidJson(_) => ParseFault::InvalidJson,
            ParseError::MissingField(field) => ParseFault::MissingField(field@),
        }
    }
}

/// Why a JSON value was not encoded.
#[derive(Clone, Debug, PartialEq, Eq)]
pub enum EncodeError {
    /// The value has not the shape that the type asks for.
    TypeMismatch,
    /// An integer literal lies outside the range of its type.
    NumericOverflow,
    /// The value's text is not JSON; the text says where it breaks off.
    InvalidJson(String),
    /// The type of this name is not supported.
    UnsupportedType(String),
    /// A string or a sequence is longer than its four-byte length can say.
    TooLong,
}

/// What an `EncodeError` says, apart from a JSON parser's wording.
pub enum EncodeFault {
    TypeMismatch,
    NumericOverflow,
    InvalidJson,
    UnsupportedType(Seq<char>),
    TooLong,
}

impl View for EncodeError {
    type V = EncodeFault;

    open spec fn view(&self) -> EncodeFault {
        match self {
            EncodeError::TypeMismatch => EncodeFault::TypeMismatch,
            EncodeError::NumericOverflow => EncodeFault::NumericOverflow,
            EncodeError::InvalidJson(_) => EncodeFault::InvalidJson,
            EncodeError::UnsupportedType(name) => EncodeFault::UnsupportedType(name@),
            EncodeError::TooLong => EncodeFault::TooLong,
        }
    }
}

/// Why bytes were not decoded.
#[derive(Clone, Debug, PartialEq, Eq)]
pub enum DecodeError {
    /// The buffer ends before the value does.
    TruncatedBuffer,
    /// A byte that must be 0 or 1 is neither, or a string is not UTF-8.
    InvalidEncoding,
    /// The type of this name is not supported.
    UnsupportedType(String),
}

/// What a `DecodeError` says.
pub enum DecodeFault {
    TruncatedBuffer,
    InvalidEncoding,
    UnsupportedType(Seq<char>),
}

impl View for DecodeError {
    type V = DecodeFault;

    open spec fn view(&self) -> DecodeFault {
        match self {
            DecodeError::TruncatedBuffer => DecodeFault::TruncatedBuffer,
            DecodeError::InvalidEncoding => DecodeFault::InvalidEncoding,
            DecodeError::UnsupportedType(name) => DecodeFault::UnsupportedType(name@),
        }
    }
}

impl ParseError {
    /// The error in words.
    pub fn message(&self) -> (r: String)
        ensures
            r@ == match self {
                ParseError::UnsupportedType(name) => "Provided data types is not supported: "@
                    + name@,
                ParseError::InvalidJson(reason) => "Invalid JSON: "@ + reason@,
                ParseError::MissingField(field) => "Missing field in JSON: "@ + field@,
            },
    {
        match self {
            ParseError::UnsupportedType(name) => "Provided data types is not supported: ".to_owned().concat(
                name.as_str(),
            ),
            ParseError::InvalidJson(reason) => "Invalid JSON: ".to_owned().concat(reason.as_str()),
            ParseError::MissingField(field) => "Missing field in JSON: ".to_owned().concat(
                field.as_str(),
            ),
        }
    }
}

impl EncodeError {
    /// The error in words.
    pub fn message(&self) -> (r: String)
        ensures
            r@ == match self {
                EncodeError::TypeMismatch => "Value does not have the shape of the data type"@,
                EncodeError::NumericOverflow => "Number is out of range of the data type"@,
                EncodeError::InvalidJson(reason) => "Invalid JSON: "@ + reason@,
                EncodeError::UnsupportedType(name) => "Provided data types is not supported: "@
                    + name@,
                EncodeError::TooLong => "Length does not fit four bytes"@,
            },
    {
        match self {
            EncodeError::TypeMismatch => "Value does not have the shape of the data type".to_owned(),
            EncodeError::NumericOverflow => "Number is out of range of the data type".to_owned(),
            EncodeError::InvalidJson(reason) => "Invalid JSON: ".to_owned().concat(reason.as_str()),
            EncodeError::UnsupportedType(name) => "Provided data types is not supported: ".to_owned().concat(
                name.as_str(),
            ),
            EncodeError::TooLong => "Length does not fit four bytes".to_owned(),
        }
    }
}

impl DecodeError {
    /// The error in words.
    pub fn message(&self) -> (r: String)
        ensures
            r@ == match self {
                DecodeError::TruncatedBuffer => "Unexpected length of input"@,
                DecodeError::InvalidEncoding => "Bytes do not encode a value of the data type"@,
                DecodeError::UnsupportedType(name) => "Provided data types is not supported: "@
                    + name@,
            },
    {
        match self {
            DecodeError::TruncatedBuffer => "Unexpected length of input".to_owned(),
            DecodeError::InvalidEncoding => "Bytes do not encode a value of the data type".to_owned(),
            DecodeError::UnsupportedType(name) => "Provided data types is not supported: ".to_owned().concat(
                name.as_str(),
            ),
        }
    }
}

/// Why a key, a message or an address was not accepted.
#[derive(Clone, Copy, Debug, PartialEq, Eq)]
pub enum KeyError {
    /// The keypair is not Base64URL.
    FailToBase64DecodeKeypair,
    /// The keypair's bytes are no Ed25519 keypair.
    InvalidED25519Keypair,
    /// The message is not Base64URL.
    InvalidBase64Message,
    /// The text is not Base64URL.
    InvalidBase64Encoding,
    /// The text stands for more or fewer than 32 bytes.
    IncorrectBase64urlLength,
}

/// The text that a caller is shown for an error of the node.
pub type HttpErrorResponse = String;

/// The node could not decode a query parameter.
pub const INPUT_DECODE_FAILURE: u16 = 0x44C;

/// The node does not know the URL or its query parameters.
pub const INCORRECT_URL_AND_QUERY_PARAMS: u16 = 0x44E;

/// The node's view service took no new request.
pub const VIEW_SERVICE_CHANNEL_ERROR: u16 = 0x57D;

/// The node's view service did not answer in time.
pub const VIEW_SERVICE_REQUEST_TIMEOUT: u16 = 0x57E;

/// Whether `code` is one of the error codes that a node sends.
pub open spec fn is_known_code(code: int) -> bool {
    ||| code == INPUT_DECODE_FAILURE
    ||| code == INCORRECT_URL_AND_QUERY_PARAMS
    ||| code == VIEW_SERVICE_CHANNEL_ERROR
    ||| code == VIEW_SERVICE_REQUEST_TIMEOUT
}

/// The message for an error code of the node.
pub open spec fn response_text(code: int) -> Seq<char> {
    if code == INPUT_DECODE_FAILURE {
        "Input query parameter is not a pchain_types::Base64URL encoded string."@
    } else if code == INCORRECT_URL_AND_QUERY_PARAMS {
        "Incorrect url or query parameters."@
    } else if code == VIEW_SERVICE_CHANNEL_ERROR {
        "Internal Server Error. Server busy and failed to handle new request."@
    } else {
        "Internal Server Error. Request Timeout"@
    }
}

/// The number that a text spells as a 16-bit signed integer: an optional
/// sign, then digits and nothing else, within the range of the type.
pub open spec fn status_code(text: Seq<char>) -> Option<int> {
    let signed = text.len() > 0 && (text[0] == '-' || text[0] == '+');
    let body = if signed {
        text.skip(1)
    } else {
        text
    };
    let value = if text.len() > 0 && text[0] == '-' {
        -(digits_value(body) as int)
    } else {
        digits_value(body) as int
    };
    if body.len() > 0 && all_digits(body) && i16::MIN <= value <= i16::MAX {
        Some(value)
    } else {
        None
    }
}

/// The message for what a request to the node failed with: an error code of
/// the node, or the words of the transport.
pub open spec fn error_text(error: Seq<char>) -> Seq<char> {
    match status_code(error) {
        Some(code) => response_text(code),
        None => if contains(error, "Connection refused"@) {
            "Connection refused. Please check if the provider is live."@
        } else {
            "Unknown error occured. "@ + error
        },
    }
}

/// Reads a text as a 16-bit signed integer.
pub fn read_status_code(text: &str) -> (r: Option<i16>)
    ensures
        match r {
            Some(code) => status_code(text@) == Some(code as int),
            None => status_code(text@) is None,
        },
{
    let chars = chars_of(text);
    if chars.len() == 0 {
        return None;
    }
    let negative = chars[0] == '-';
    let lo: usize = if negative || chars[0] == '+' { 1 } else { 0 };
    if chars.len() == lo {
        return None;
    }
    match read_digits(&chars, lo) {
        Some(Some(value)) => {
            assert(chars@.skip(0) =~= chars@);
            if negative {
                if value <= 0x8000 {
                    Some((0 - value as i32) as i16)
                } else {
                    None
                }
            } else if value <= 0x7fff {
                Some(value as i16)
            } else {
                None
            }
        },
        Some(None) => {
            assert(chars@.skip(0) =~= chars@);
            None
        },
        None => {
            assert(chars@.skip(0) =~= chars@);
            None
        },
    }
}

/// Whether `code` is one of the error codes that a node sends.
pub fn known_code(code: u16) -> (r: bool)
    ensures
        r == is_known_code(code as int),
{
    code == INPUT_DECODE_FAILURE || code == INCORRECT_URL_AND_QUERY_PARAMS || code
        == VIEW_SERVICE_CHANNEL_ERROR || code == VIEW_SERVICE_REQUEST_TIMEOUT
}

/// The message for an error code of the node.
pub fn response(error_code: u16) -> (r: HttpErrorResponse)
    requires
        is_known_code(error_code as int),
    ensures
        r@ == response_text(error_code as int),
{
    if error_code == INPUT_DECODE_FAILURE {
        "Input query parameter is not a pchain_types::Base64URL encoded string.".to_owned()
    } else if error_code == INCORRECT_URL_AND_QUERY_PARAMS {
        "Incorrect url or query parameters.".to_owned()
    } else if error_code == VIEW_SERVICE_CHANNEL_ERROR {
        "Internal Server Error. Server busy and failed to handle new request.".to_owned()
    } else {
        "Internal Server Error. Request Timeout".to_owned()
    }
}

/// The message for what a request to the node failed with.
///
/// A text that spells a number must spell one of the node's error codes.
pub fn new(error_code: String) -> (r: HttpErrorResponse)
    requires
        status_code(error_code@) matches Some(code) ==> is_known_code(code),
    ensures
        r@ == error_text(error_code@),
{
    match read_status_code(error_code.as_str()) {
        Some(code) => response(code as u16),
        None => {
            let chars = chars_of(error_code.as_str());
            if has_word(&chars, "Connection refused") {
                "Connection refused. Please check if the provider is live.".to_owned()
            } else {
                let mut out = "Unknown error occured. ".to_owned();
                out.append(error_code.as_str());
                out
            }
        },
    }
}

} // verus!
