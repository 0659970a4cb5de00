//! Call data, keys and addresses.

pub mod crypto;
pub mod parser;
