use ed25519_dalek::{Signer, SigningKey};
use mls::envelope::{AdditionalData, Key, LabeledInfo, PublicKey, SignedMsg, VerificationError};

fn keys(seed: u8, id: &str) -> (Key, PublicKey, [u8; 32]) {
    let secret = [seed; 32];
    let public = SigningKey::from_bytes(&secret).verifying_key().to_bytes();
    (Key::new(secret, id.to_string()), PublicKey::new(public), secret)
}

fn signed() -> (SignedMsg, PublicKey) {
    let (key, public, _) = keys(7, "proxy.label.1");
    (key.sign_at(b"hello".to_vec(), vec![1, 2, 3], 1_700_000_000), public)
}

#[test]
fn sign_then_verify_gives_payload() {
    let (msg, public) = signed();
    assert_eq!(msg.verify(&public), Ok(&b"hello"[..]));
}

#[test]
fn signature_covers_canonical_input() {
    let (key, _, secret) = keys(9, "k1");
    let msg = key.sign_at(vec![0xaa, 0xbb], vec![0xcc], 258);
    let mut input = vec![0xaa, 0xbb, 0xcc];
    input.extend_from_slice(&[0, 0, 0, 0, 0, 0, 1, 2]);
    input.extend_from_slice(b"k1");
    let expected = SigningKey::from_bytes(&secret).sign(&input).to_bytes().to_vec();
    assert_eq!(msg.signature, expected);
    assert_eq!(msg.payload, vec![0xaa, 0xbb]);
    assert_eq!(msg.ad, vec![0xcc]);
    assert_eq!(msg.datetime, 258);
    assert_eq!(msg.get_key_id(), "k1");
}

#[test]
fn negative_timestamp_round_trips() {
    let (key, public, _) = keys(3, "neg");
    let msg = key.sign_at(vec![], vec![], -5);
    assert_eq!(msg.verify(&public), Ok(&[][..]));
}

#[test]
fn sign_uses_empty_ad_and_current_time() {
    let (key, public, _) = keys(5, "proxy.info.1");
    let msg = key.sign(b"info".to_vec());
    assert!(msg.ad.is_empty());
    assert!(msg.datetime > 1_600_000_000);
    assert_eq!(msg.verify(&public), Ok(&b"info"[..]));
    let msg2 = key.sign_with_ad(b"p".to_vec(), b"a".to_vec());
    assert_eq!(msg2.ad, b"a".to_vec());
    assert_eq!(msg2.verify(&public), Ok(&b"p"[..]));
}

#[test]
fn tampered_payload_is_rejected() {
    let (mut msg, public) = signed();
    msg.payload[0] ^= 1;
    assert_eq!(msg.verify(&public), Err(VerificationError::BadSignature));
}

#[test]
fn tampered_ad_is_rejected() {
    let (mut msg, public) = signed();
    msg.ad[2] ^= 0x80;
    assert_eq!(msg.verify(&public), Err(VerificationError::BadSignature));
}

#[test]
fn tampered_key_id_is_rejected() {
    let (mut msg, public) = signed();
    msg.key_id = "proxy.label.2".to_string();
    assert_eq!(msg.verify(&public), Err(VerificationError::BadSignature));
}

#[test]
fn tampered_datetime_is_rejected() {
    let (mut msg, public) = signed();
    msg.datetime += 1;
    assert_eq!(msg.verify(&public), Err(VerificationError::BadSignature));
}

#[test]
fn tampered_signature_is_rejected() {
    let (mut msg, public) = signed();
    msg.signature[10] ^= 4;
    assert_eq!(msg.verify(&public), Err(VerificationError::BadSignature));
}

#[test]
fn field_boundary_is_not_framed() {
    let (mut msg, public) = signed();
    let b = msg.ad.remove(0);
    msg.payload.push(b);
    assert_eq!(msg.verify(&public), Ok(&b"hello\x01"[..]));
}

#[test]
fn other_key_is_rejected() {
    let (msg, _) = signed();
    let (_, other, _) = keys(8, "x");
    assert_eq!(msg.verify(&other), Err(VerificationError::BadSignature));
}

#[test]
fn short_signature_is_malformed() {
    let (mut msg, public) = signed();
    msg.signature.pop();
    assert_eq!(msg.verify(&public), Err(VerificationError::MalformedSignature));
    msg.signature = vec![];
    assert_eq!(msg.verify(&public), Err(VerificationError::MalformedSignature));
}

#[test]
fn labeled_info_and_ad_hold_their_values() {
    let info = LabeledInfo::new("in/test", 42);
    assert_eq!(info.topic, "in/test");
    assert_eq!(info.label, 42);
    assert_eq!(AdditionalData::new(9).label, 9);
}
