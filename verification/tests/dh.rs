use xirtam::crypt::dh::{triple_dh, DhPublic, DhSecret};

#[test]
fn triple_dh_is_symmetric() {
    let a_lt = DhSecret::from_bytes([1u8; 32]);
    let a_eph = DhSecret::from_bytes([2u8; 32]);
    let b_lt = DhSecret::from_bytes([3u8; 32]);
    let b_eph = DhSecret::from_bytes([4u8; 32]);

    let a_key = triple_dh(&a_lt, &a_eph, &b_lt.public_key(), &b_eph.public_key()).expect("a key");
    let b_key = triple_dh(&b_lt, &b_eph, &a_lt.public_key(), &a_eph.public_key()).expect("b key");

    assert_eq!(a_key, b_key);
}

#[test]
fn dh_rejects_all_zero_shared_secret() {
    let secret = DhSecret::random();
    let low_order = DhPublic::from_bytes([0u8; 32]);
    assert!(secret.diffie_hellman(&low_order).is_err());
}

#[test]
fn diffie_hellman_agrees_both_ways() {
    let a = DhSecret::from_bytes([9u8; 32]);
    let b = DhSecret::from_bytes([11u8; 32]);
    let ab = a.diffie_hellman(&b.public_key()).expect("a to b");
    let ba = b.diffie_hellman(&a.public_key()).expect("b to a");
    assert_eq!(ab, ba);
    assert_ne!(ab, [0u8; 32]);
}

#[test]
fn public_key_is_not_the_secret() {
    let a = DhSecret::from_bytes([5u8; 32]);
    assert_ne!(a.public_key().to_bytes(), [5u8; 32]);
}

#[test]
fn triple_dh_differs_for_other_peer() {
    let a_lt = DhSecret::from_bytes([1u8; 32]);
    let a_eph = DhSecret::from_bytes([2u8; 32]);
    let b_lt = DhSecret::from_bytes([3u8; 32]);
    let b_eph = DhSecret::from_bytes([4u8; 32]);
    let c_lt = DhSecret::from_bytes([5u8; 32]);
    let k1 = triple_dh(&a_lt, &a_eph, &b_lt.public_key(), &b_eph.public_key()).expect("k1");
    let k2 = triple_dh(&a_lt, &a_eph, &c_lt.public_key(), &b_eph.public_key()).expect("k2");
    assert_ne!(k1, k2);
}

#[test]
fn zero_public_key_is_refused() {
    let sk = xirtam::crypt::dh::DhSecret::from_bytes([9u8; 32]);
    let zero = xirtam::crypt::dh::DhPublic::from_bytes([0u8; 32]);
    assert_eq!(
        sk.diffie_hellman(&zero),
        Err(xirtam::crypt::dh::DhError::InvalidSharedSecret)
    );
}
