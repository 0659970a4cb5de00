//! Typed argument codec of a blockchain node's RPC client.
//!
//! A call to a smart contract carries its arguments in a canonical binary
//! form. This crate turns a type name and a JSON value into that form, and
//! turns returned bytes back into readable text.

pub mod chars;
pub mod codec;
pub mod decimal;
pub mod descriptor;
pub mod endian;
pub mod error;
pub mod json;
pub mod networking;
pub mod utils;
pub mod value;
pub mod wire;

pub use codec::{decode, decode_value, encode, encode_value};
pub use descriptor::{parse, Primitive, TypeDescriptor};
pub use error::{DecodeError, EncodeError, HttpErrorResponse, KeyError, ParseError};
pub use json::{parse_json, JsonMember, JsonValue};
pub use utils::crypto::{compute_contract_address, sign};
pub use utils::parser::{
    base64url_to_bytes32, call_result_to_data_type, serialize_call_arguments, serialize_value,
    CallArguments,
};
pub use value::TypedValue;
