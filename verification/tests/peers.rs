use xirtam::client::convo::collect_recipients;
use xirtam::client::medium_keys::new_signed_medium_pk;
use xirtam::client::user_info::{
    is_fresh_at, merge_monotonic_medium_pks, valid_device_chains_at, UserInfoError,
};
use xirtam::crypt::dh::DhSecret;
use xirtam::crypt::signing::Signature;
use xirtam::structs::certificate::{CertificateChain, DeviceSecret};
use xirtam::structs::server::SignedMediumPk;
use xirtam::structs::timestamp::Timestamp;

fn medium(created: u64, byte: u8) -> SignedMediumPk {
    SignedMediumPk {
        medium_pk: DhSecret::from_bytes([byte; 32]).public_key(),
        created: Timestamp(created),
        signature: Signature::from_bytes([0u8; 64]),
    }
}

fn device(n: u8) -> xirtam::crypt::hash::Hash {
    xirtam::crypt::hash::Hash::from_bytes([n; 32])
}

#[test]
fn freshness_window() {
    assert!(is_fresh_at(100, 40));
    assert!(!is_fresh_at(100, 39));
    assert!(is_fresh_at(0, 1000));
    assert!(!is_fresh_at(i64::MAX, i64::MIN));
    assert!(is_fresh_at(i64::MIN, i64::MAX));
}

#[test]
fn medium_keys_never_regress() {
    let cached = vec![(device(1), medium(100, 1)), (device(2), medium(50, 2))];
    let fetched = vec![
        (device(1), medium(90, 3)),
        (device(2), medium(60, 4)),
        (device(3), medium(10, 5)),
    ];
    let merged = merge_monotonic_medium_pks(cached, &fetched);
    assert_eq!(merged.len(), 3);
    let find = |h: u8| merged.iter().find(|(d, _)| *d == device(h)).unwrap().1;
    assert_eq!(find(1).created, Timestamp(100));
    assert_eq!(find(2).created, Timestamp(60));
    assert_eq!(find(3).created, Timestamp(10));
}

#[test]
fn equal_timestamp_takes_fetched_key() {
    let cached = vec![(device(1), medium(100, 1))];
    let fetched = vec![(device(1), medium(100, 7))];
    let merged = merge_monotonic_medium_pks(cached, &fetched);
    assert_eq!(merged.len(), 1);
    assert_eq!(merged[0].1.medium_pk.to_bytes(), medium(100, 7).medium_pk.to_bytes());
}

fn root_chain(secret: &DeviceSecret) -> CertificateChain {
    CertificateChain {
        ancestors: Vec::new(),
        this: secret.self_signed(Timestamp(u64::MAX), true),
    }
}

#[test]
fn device_chains_are_filtered() {
    let root = DeviceSecret::random();
    let other = DeviceSecret::random();
    let root_hash = root.public().bcs_hash();
    let good = root_chain(&root);
    let good_hash = good.this.pk.bcs_hash();
    let wrong_listing = root_chain(&root);
    let foreign = root_chain(&other);
    let foreign_hash = foreign.this.pk.bcs_hash();
    let chains = vec![
        (good_hash, good),
        (device(9), wrong_listing),
        (foreign_hash, foreign),
    ];
    let kept = valid_device_chains_at(chains, root_hash, Timestamp(0)).expect("one chain");
    assert_eq!(kept.len(), 1);
    assert_eq!(kept[0].0, good_hash);
}

#[test]
fn no_device_chain_is_an_error() {
    let root = DeviceSecret::random();
    let other = DeviceSecret::random();
    let chains = vec![(other.public().bcs_hash(), root_chain(&other))];
    let r = valid_device_chains_at(chains, root.public().bcs_hash(), Timestamp(0));
    assert_eq!(r.err(), Some(UserInfoError::NoValidChains));
}

#[test]
fn recipients_need_a_signed_medium_key() {
    let a = DeviceSecret::random();
    let b = DeviceSecret::random();
    let c = DeviceSecret::random();
    let chain_a = root_chain(&a);
    let chain_b = root_chain(&b);
    let chain_c = root_chain(&c);
    let ha = chain_a.this.pk.bcs_hash();
    let hb = chain_b.this.pk.bcs_hash();
    let hc = chain_c.this.pk.bcs_hash();
    let mpk_a = new_signed_medium_pk(&DhSecret::from_bytes([1u8; 32]), &a.0, Timestamp(5));
    let mpk_b_by_a = new_signed_medium_pk(&DhSecret::from_bytes([2u8; 32]), &a.0, Timestamp(5));
    let chains = vec![(ha, chain_a), (hb, chain_b), (hc, chain_c)];
    let pks = vec![(ha, mpk_a), (hb, mpk_b_by_a)];
    let recipients = collect_recipients(&chains, &pks);
    assert_eq!(recipients.len(), 1);
    assert_eq!(recipients[0].to_bytes(), mpk_a.medium_pk.to_bytes());
}

#[test]
fn new_medium_key_is_signed_by_device() {
    let dev = DeviceSecret::random();
    let sk = DhSecret::from_bytes([3u8; 32]);
    let m = new_signed_medium_pk(&sk, &dev.0, Timestamp(42));
    assert_eq!(m.medium_pk.to_bytes(), sk.public_key().to_bytes());
    assert_eq!(m.created, Timestamp(42));
    assert!(m.verify(&dev.public().signing_public()));
    let mut later = m;
    later.created = Timestamp(43);
    assert!(!later.verify(&dev.public().signing_public()));
}
