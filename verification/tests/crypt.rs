use xirtam::crypt::aead::{AeadError, AeadKey};
use xirtam::crypt::dh::{DhPublic, DhSecret};
use xirtam::crypt::encoding::{decode_32_base64, encode_32_base64, ParseKeyError};
use xirtam::crypt::signing::{Signature, SigningSecret};
use xirtam::crypt::stream::StreamKey;

#[test]
fn digest_depends_on_input() {
    let a = xirtam::crypt::hash::Hash::digest(b"hello");
    let b = xirtam::crypt::hash::Hash::digest(b"hello!");
    assert_ne!(a, b);
    assert_eq!(a, xirtam::crypt::hash::Hash::digest(b"hello"));
    assert_eq!(a.to_bytes(), *blake3::hash(b"hello").as_bytes());
}

#[test]
fn keyed_digest_uses_hashed_key() {
    let k = xirtam::crypt::hash::Hash::keyed_digest(b"key", b"data");
    let expected = blake3::keyed_hash(blake3::hash(b"key").as_bytes(), b"data");
    assert_eq!(k.to_bytes(), *expected.as_bytes());
    assert_ne!(k, xirtam::crypt::hash::Hash::digest(b"data"));
}

#[test]
fn zero_hash_is_all_zero() {
    assert_eq!(xirtam::crypt::hash::Hash::zero().to_bytes(), [0u8; 32]);
}

#[test]
fn signature_verifies_only_its_message() {
    let sk = SigningSecret::from_bytes([3u8; 32]);
    let pk = sk.public_key();
    let sig = sk.sign(b"message");
    assert!(pk.verify(b"message", &sig));
    assert!(!pk.verify(b"messagf", &sig));
    let other = SigningSecret::from_bytes([4u8; 32]).public_key();
    assert!(!other.verify(b"message", &sig));
    assert!(!pk.verify(b"message", &Signature::from_bytes([0u8; 64])));
}

#[test]
fn aead_round_trip() {
    let key = AeadKey::from_bytes([1u8; 32]);
    let nonce = [2u8; 24];
    let ct = key.encrypt(nonce, b"secret text", b"aad").expect("encrypt");
    assert_eq!(ct.len(), b"secret text".len() + 16);
    assert_ne!(&ct[..11], b"secret text");
    let pt = key.decrypt(nonce, &ct, b"aad").expect("decrypt");
    assert_eq!(pt, b"secret text".to_vec());
}

#[test]
fn aead_rejects_wrong_key_or_aad() {
    let key = AeadKey::from_bytes([1u8; 32]);
    let nonce = [2u8; 24];
    let ct = key.encrypt(nonce, b"secret text", b"aad").expect("encrypt");
    let other = AeadKey::from_bytes([9u8; 32]);
    assert_eq!(other.decrypt(nonce, &ct, b"aad"), Err(AeadError::Decrypt));
    assert_eq!(key.decrypt(nonce, &ct, b"other"), Err(AeadError::Decrypt));
    let mut tampered = ct.clone();
    tampered[0] ^= 1;
    assert_eq!(key.decrypt(nonce, &tampered, b"aad"), Err(AeadError::Decrypt));
}

#[test]
fn stream_round_trip() {
    let key = StreamKey::from_bytes([5u8; 32]);
    let nonce = [6u8; 24];
    let ct = key.encrypt(nonce, b"stream data");
    assert_eq!(ct.len(), b"stream data".len());
    assert_ne!(ct, b"stream data".to_vec());
    assert_eq!(key.decrypt(nonce, &ct), b"stream data".to_vec());
}

#[test]
fn base64_round_trip() {
    let bytes = [0xfbu8; 32];
    let s = encode_32_base64(bytes);
    assert!(!s.contains('='));
    assert!(!s.contains('+'));
    assert_eq!(decode_32_base64(&s), Ok(bytes));
}

#[test]
fn base64_errors() {
    assert_eq!(decode_32_base64("!!!"), Err(ParseKeyError::InvalidBase64));
    assert_eq!(decode_32_base64("AAAA"), Err(ParseKeyError::InvalidLength));
}

#[test]
fn dh_keys_round_trip_base64() {
    let sk = DhSecret::from_bytes([8u8; 32]);
    let pk = sk.public_key();
    let text = pk.to_base64();
    let back = DhPublic::from_base64(&text).expect("public key");
    assert_eq!(back.to_bytes(), pk.to_bytes());
    let sk_back = DhSecret::from_base64(&sk.to_base64()).expect("secret key");
    assert_eq!(sk_back.to_bytes(), sk.to_bytes());
}
