//! Signing, hashing and Base64URL.
//!
//! The arithmetic is that of `ed25519_dalek`, `sha2` and `base64`. What this
//! module adds is the order of the steps and the error of each.

use vstd::prelude::*;
use crate::endian::{le_bytes, write_le};
use crate::error::KeyError;

verus! {

#[verifier::external_type_specification]
#[verifier::external_body]
pub struct ExKeypair(ed25519_dalek::Keypair);

/// The bytes that a text is the Base64URL encoding of; `None` where it is none.
pub uninterp spec fn base64url_decoded(text: Seq<char>) -> Option<Seq<u8>>;

/// The Base64URL encoding of bytes, without padding.
pub uninterp spec fn base64url_encoded(bytes: Seq<u8>) -> Seq<char>;

/// Whether 64 bytes are an Ed25519 keypair: a secret key, then a public key
/// that is a point of the curve.
pub uninterp spec fn is_keypair(bytes: Seq<u8>) -> bool;

/// The bytes of a keypair: the secret key, then the public key.
pub uninterp spec fn keypair_bytes(keypair: ed25519_dalek::Keypair) -> Seq<u8>;

/// The Ed25519 signature of a message under a keypair.
pub uninterp spec fn ed25519_signature(keypair: Seq<u8>, message: Seq<u8>) -> Seq<u8>;

/// The SHA-256 digest of bytes.
pub uninterp spec fn sha256(data: Seq<u8>) -> Seq<u8>;

/// `pchain_types::Base64URL::decode`: the bytes that the text encodes in the
/// URL-safe alphabet, or nothing where the text is no such encoding.
#[verifier::external_body]
pub(crate) fn base64url_decode(text: &str) -> (r: Option<Vec<u8>>)
    ensures
        match r {
            Some(bytes) => base64url_decoded(text@) == Some(bytes@),
            None => base64url_decoded(text@) is None,
        },
{
    pchain_types::Base64URL::decode(text).ok()
}

/// `pchain_types::Base64URL::encode`: the text that encodes the bytes in the
/// URL-safe alphabet, without padding. The bytes are no more than a slice
/// can hold, so that the length of the text can be computed.
#[verifier::external_body]
fn base64url_encode(bytes: &[u8]) -> (r: String)
    requires
        bytes@.len() <= isize::MAX,
    ensures
        r@ == base64url_encoded(bytes@),
{
    pchain_types::Base64URL::encode(bytes).to_string()
}

/// `ed25519_dalek::Keypair::from_bytes`: the keypair of these bytes, where
/// they are 64 and their second half is a point of the curve.
#[verifier::external_body]
fn keypair_from_bytes(bytes: &[u8]) -> (r: Option<ed25519_dalek::Keypair>)
    ensures
        match r {
            Some(keypair) => is_keypair(bytes@) && keypair_bytes(keypair) == bytes@,
            None => !is_keypair(bytes@),
        },
{
    ed25519_dalek::Keypair::from_bytes(bytes).ok()
}

/// `Signer::sign` of an `ed25519_dalek::Keypair`: the signature of the message,
/// 64 bytes that depend on the keypair and the message alone.
#[verifier::external_body]
fn keypair_sign(keypair: &ed25519_dalek::Keypair, message: &[u8]) -> (r: Vec<u8>)
    ensures
        r@ == ed25519_signature(keypair_bytes(*keypair), message@),
        r@.len() == 64,
{
    ed25519_dalek::Signer::sign(keypair, message).to_bytes().to_vec()
}

/// `Sha256::digest` of `sha2`: the digest of the bytes, 32 bytes long.
#[verifier::external_body]
fn sha256_digest(data: &[u8]) -> (r: Vec<u8>)
    ensures
        r@ == sha256(data@),
        r@.len() == 32,
{
    <sha2::Sha256 as sha2::Digest>::digest(data).to_vec()
}

/// What `sign` gives for a keypair and a message, both in Base64URL.
pub open spec fn signed(keypair: Seq<char>, message: Seq<char>) -> Result<Seq<char>, KeyError> {
    match base64url_decoded(keypair) {
        None => Err(KeyError::FailToBase64DecodeKeypair),
        Some(key) => if !is_keypair(key) {
            Err(KeyError::InvalidED25519Keypair)
        } else {
            match base64url_decoded(message) {
                None => Err(KeyError::InvalidBase64Message),
                Some(body) => Ok(base64url_encoded(ed25519_signature(key, body))),
            }
        },
    }
}

/// Signs a message with a keypair, both given in Base64URL, and gives the
/// signature in Base64URL.
///
/// The keypair is looked at first: a message that is not Base64URL is
/// reported only once the keypair has been accepted.
pub fn sign(keypair: &str, message: &str) -> (r: Result<String, KeyError>)
    ensures
        match r {
            Ok(text) => signed(keypair@, message@) == Ok::<Seq<char>, KeyError>(text@),
            Err(e) => signed(keypair@, message@) == Err::<Seq<char>, KeyError>(e),
        },
{
    let key = match base64url_decode(keypair) {
        Some(bytes) => bytes,
        None => return Err(KeyError::FailToBase64DecodeKeypair),
    };
    let pair = match keypair_from_bytes(key.as_slice()) {
        Some(pair) => pair,
        None => return Err(KeyError::InvalidED25519Keypair),
    };
    let body = match base64url_decode(message) {
        Some(bytes) => bytes,
        None => return Err(KeyError::InvalidBase64Message),
    };
    let signature = keypair_sign(&pair, body.as_slice());
    Ok(base64url_encode(signature.as_slice()))
}

/// The address of a contract: the SHA-256 digest of the deployer's address
/// followed by the deployer's nonce, little-endian in eight bytes.
pub fn compute_contract_address(sender_address: &[u8; 32], nonce: u64) -> (r: Vec<u8>)
    ensures
        r@ == sha256(sender_address@ + le_bytes(nonce as nat, 8)),
        r@.len() == 32,
{
    let mut pre_image: Vec<u8> = Vec::new();
    let mut i: usize = 0;
    while i < 32
        invariant
            i <= 32,
            pre_image@ == sender_address@.take(i as int),
        decreases 32 - i,
    {
        pre_image.push(sender_address[i]);
        assert(sender_address@.take(i + 1) =~= sender_address@.take(i as int).push(
            sender_address@[i as int],
        ));
        i += 1;
    }
    assert(sender_address@.take(32) =~= sender_address@);
    write_le(nonce as u128, 8, &mut pre_image);
    sha256_digest(pre_image.as_slice())
}

} // verus!
