use pchain_client::utils::crypto::{compute_contract_address, sign};
use pchain_client::utils::parser::base64url_to_bytes32;
use pchain_client::KeyError;

const KEYPAIR_1: &str =
    "nWGxne_9WmC6hEr0kuwsxERJxWl7MmkZcDusAxyuf2DXWpgBgrEKt9VL_tPJZAc6DuFy89qmIyWvAhpo9wdRGg";
const SIGNATURE_1: &str =
    "5VZDAMNgrHKQhuLMgG6CioSHfx645dl02HPgZSJJAVVfuIIVkKM7rMYeOXAc-bRr0lv18FlbviRlUUFDjnoQCw";
const KEYPAIR_2: &str =
    "TM0Imyj_ltqdtsNG7BFOD1uKMZ81q6Yk2oz27U-4pvs9QBfD6EOJWpK3CqdNG368nJgszy7ElozAzVXxKvRmDA";
const SIGNATURE_2: &str =
    "kqAJqfDUyrhyDoILX2QlQKKye1QWUD-Ps3YiI-vbadoIWsHkPhWZbkWPNhPQ8R2MOHsurrQwKu6wDSkWErsMAA";

#[test]
fn sign_gives_the_signature_of_the_empty_message() {
    assert_eq!(sign(KEYPAIR_1, ""), Ok(SIGNATURE_1.to_string()));
}

#[test]
fn sign_gives_the_signature_of_one_byte() {
    assert_eq!(sign(KEYPAIR_2, "cg"), Ok(SIGNATURE_2.to_string()));
}

#[test]
fn sign_is_the_same_each_time() {
    assert_eq!(sign(KEYPAIR_2, "cg"), sign(KEYPAIR_2, "cg"));
    assert_ne!(sign(KEYPAIR_1, "cg"), sign(KEYPAIR_2, "cg"));
}

#[test]
fn sign_refuses_a_keypair_that_is_not_base64url() {
    assert_eq!(
        sign("not base64!", "cg"),
        Err(KeyError::FailToBase64DecodeKeypair)
    );
    assert_eq!(
        sign("not base64!", "also not!"),
        Err(KeyError::FailToBase64DecodeKeypair)
    );
}

#[test]
fn sign_refuses_bytes_that_are_no_keypair() {
    assert_eq!(sign("cg", "cg"), Err(KeyError::InvalidED25519Keypair));
    assert_eq!(sign("", "cg"), Err(KeyError::InvalidED25519Keypair));
    assert_eq!(
        sign("AAECAwQFBgcICQoLDA0ODxAREhMUFRYXGBkaGxwdHh8", "cg"),
        Err(KeyError::InvalidED25519Keypair)
    );
    assert_eq!(sign("cg", "not base64!"), Err(KeyError::InvalidED25519Keypair));
}

#[test]
fn sign_refuses_a_message_that_is_not_base64url() {
    assert_eq!(
        sign(KEYPAIR_1, "not base64!"),
        Err(KeyError::InvalidBase64Message)
    );
}

#[test]
fn contract_address_is_the_digest_of_address_and_nonce() {
    let mut sender = [0u8; 32];
    for (i, byte) in sender.iter_mut().enumerate() {
        *byte = i as u8 + 1;
    }
    assert_eq!(
        compute_contract_address(&sender, 0),
        vec![
            132, 77, 162, 194, 98, 209, 97, 244, 241, 242, 196, 206, 197, 15, 164, 170, 160, 63,
            59, 119, 24, 77, 27, 46, 10, 35, 250, 122, 217, 102, 90, 228
        ]
    );
    assert_eq!(
        compute_contract_address(&sender, 7),
        vec![
            158, 224, 111, 118, 9, 23, 14, 89, 80, 116, 19, 220, 28, 114, 76, 112, 127, 210, 174,
            133, 221, 224, 93, 90, 91, 88, 206, 57, 34, 9, 109, 38
        ]
    );
    assert_eq!(
        compute_contract_address(&sender, u64::MAX),
        vec![
            82, 215, 244, 188, 219, 85, 91, 39, 158, 228, 81, 31, 111, 49, 189, 120, 174, 179, 254,
            81, 90, 117, 83, 253, 61, 217, 247, 111, 151, 9, 137, 132
        ]
    );
}

#[test]
fn base64url_of_32_bytes_is_decoded() {
    let mut expected = [0u8; 32];
    for (i, byte) in expected.iter_mut().enumerate() {
        *byte = i as u8;
    }
    assert_eq!(
        base64url_to_bytes32("AAECAwQFBgcICQoLDA0ODxAREhMUFRYXGBkaGxwdHh8"),
        Ok(expected)
    );
}

#[test]
fn base64url_of_another_length_is_refused() {
    assert_eq!(
        base64url_to_bytes32("AAECAwQFBgcICQoLDA0ODxAREhMUFRYXGBkaGxwdHg"),
        Err(KeyError::IncorrectBase64urlLength)
    );
    assert_eq!(
        base64url_to_bytes32("AAECAwQFBgcICQoLDA0ODxAREhMUFRYXGBkaGxwdHh8g"),
        Err(KeyError::IncorrectBase64urlLength)
    );
    assert_eq!(
        base64url_to_bytes32(""),
        Err(KeyError::IncorrectBase64urlLength)
    );
}

#[test]
fn text_that_is_not_base64url_is_refused() {
    assert_eq!(
        base64url_to_bytes32("AAECAwQFBgcICQoLDA0ODxAREhMUFRYXGBkaGxwdHh+"),
        Err(KeyError::InvalidBase64Encoding)
    );
    assert_eq!(
        base64url_to_bytes32("not base64!"),
        Err(KeyError::InvalidBase64Encoding)
    );
}
