use base64ct::{Base64, Encoding};
use reax::note::crypto::{parse_key, DeviceCipher, Error};
use x25519_dalek::{PublicKey, StaticSecret};

fn public_b64(secret: [u8; 32]) -> String {
    Base64::encode_string(PublicKey::from(&StaticSecret::from(secret)).as_bytes())
}

const ALICE: [u8; 32] = [7u8; 32];
const BOB: [u8; 32] = [42u8; 32];

#[test]
fn parse_key_accepts_32_bytes() {
    let key = Base64::encode_string(&[9u8; 32]);
    assert_eq!(parse_key(&key).unwrap(), vec![9u8; 32]);
}

#[test]
fn parse_key_rejects_bad_base64() {
    assert!(matches!(parse_key("not base64!"), Err(Error::Base64Decode)));
}

#[test]
fn parse_key_rejects_wrong_length() {
    let key = Base64::encode_string(&[1u8; 16]);
    assert!(matches!(parse_key(&key), Err(Error::InvalidLength)));
}

#[test]
fn peers_open_what_each_other_sealed() {
    let for_bob = DeviceCipher::try_from_key(2, &ALICE, &public_b64(BOB)).unwrap();
    let for_alice = DeviceCipher::try_from_key(1, &BOB, &public_b64(ALICE)).unwrap();
    assert_eq!(for_bob.device_id, 2);
    assert_eq!(for_alice.device_id(), 1);
    let sealed = for_bob.encrypt("Groceries: milk, eggs").unwrap();
    assert_ne!(sealed, "Groceries: milk, eggs");
    assert_eq!(for_alice.decrypt(&sealed).unwrap(), "Groceries: milk, eggs");
    let back = for_alice.encrypt("çok güzel 🎉").unwrap();
    assert_eq!(for_bob.decrypt(&back).unwrap(), "çok güzel 🎉");
}

#[test]
fn sealing_is_deterministic_under_the_fixed_nonce() {
    let c = DeviceCipher::try_from_key(2, &ALICE, &public_b64(BOB)).unwrap();
    assert_eq!(c.encrypt("same").unwrap(), c.encrypt("same").unwrap());
    assert_ne!(c.encrypt("same").unwrap(), c.encrypt("other").unwrap());
}

#[test]
fn a_third_device_cannot_open() {
    let for_bob = DeviceCipher::try_from_key(2, &ALICE, &public_b64(BOB)).unwrap();
    let eve = DeviceCipher::try_from_key(1, &[3u8; 32], &public_b64(ALICE)).unwrap();
    let sealed = for_bob.encrypt("secret").unwrap();
    assert!(matches!(eve.decrypt(&sealed), Err(Error::Decrypt)));
}

#[test]
fn decrypt_reports_bad_base64() {
    let c = DeviceCipher::try_from_key(2, &ALICE, &public_b64(BOB)).unwrap();
    assert!(matches!(c.decrypt("%%%"), Err(Error::Base64Decode)));
}

#[test]
fn decrypt_reports_tampered_text() {
    let c = DeviceCipher::try_from_key(2, &ALICE, &public_b64(BOB)).unwrap();
    let sealed = c.encrypt("hello").unwrap();
    let mut bytes = Base64::decode_vec(&sealed).unwrap();
    bytes[0] ^= 1;
    assert!(matches!(c.decrypt(&Base64::encode_string(&bytes)), Err(Error::Decrypt)));
}

#[test]
fn try_from_key_reports_bad_public_key() {
    assert!(matches!(DeviceCipher::try_from_key(2, &ALICE, "???"), Err(Error::Base64Decode)));
    let short = Base64::encode_string(&[1u8; 31]);
    assert!(matches!(DeviceCipher::try_from_key(2, &ALICE, &short), Err(Error::InvalidLength)));
}

#[test]
fn empty_text_round_trips() {
    let for_bob = DeviceCipher::try_from_key(2, &ALICE, &public_b64(BOB)).unwrap();
    let for_alice = DeviceCipher::try_from_key(1, &BOB, &public_b64(ALICE)).unwrap();
    let sealed = for_bob.encrypt("").unwrap();
    assert!(!sealed.is_empty());
    assert_eq!(for_alice.decrypt(&sealed).unwrap(), "");
}
