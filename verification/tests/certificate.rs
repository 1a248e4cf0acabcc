use xirtam::structs::certificate::{CertificateChain, ChainError, DeviceSecret};
use xirtam::structs::timestamp::Timestamp;

#[test]
fn verify_allows_root_without_issue_rights() {
    let root_secret = DeviceSecret::random();
    let root_cert = root_secret.self_signed(Timestamp(u64::MAX), false);
    let root_hash = root_cert.pk.bcs_hash();
    let chain = CertificateChain {
        ancestors: Vec::new(),
        this: root_cert.clone(),
    };

    chain.verify(root_hash).expect("verify root");
    assert_eq!(chain.last_device(), &root_cert);
}

#[test]
fn verify_rejects_leaf_signed_by_non_issuer() {
    let root_secret = DeviceSecret::random();
    let root_cert = root_secret.self_signed(Timestamp(u64::MAX), true);
    let root_hash = root_cert.pk.bcs_hash();

    let intermediate_secret = DeviceSecret::random();
    let leaf_secret = DeviceSecret::random();

    let intermediate_cert = root_secret.issue_certificate(
        &intermediate_secret.public(),
        Timestamp(u64::MAX),
        false,
    );
    let leaf_cert = intermediate_secret.issue_certificate(
        &leaf_secret.public(),
        Timestamp(u64::MAX),
        true,
    );

    let chain = CertificateChain {
        ancestors: vec![root_cert, intermediate_cert],
        this: leaf_cert,
    };
    assert!(chain.verify(root_hash).is_err());
}

#[test]
fn verify_allows_leaf_signed_by_issuer() {
    let root_secret = DeviceSecret::random();
    let root_cert = root_secret.self_signed(Timestamp(u64::MAX), true);
    let root_hash = root_cert.pk.bcs_hash();

    let intermediate_secret = DeviceSecret::random();
    let leaf_secret = DeviceSecret::random();

    let intermediate_cert = root_secret.issue_certificate(
        &intermediate_secret.public(),
        Timestamp(u64::MAX),
        true,
    );
    let leaf_cert = intermediate_secret.issue_certificate(
        &leaf_secret.public(),
        Timestamp(u64::MAX),
        true,
    );

    let chain = CertificateChain {
        ancestors: vec![root_cert, intermediate_cert],
        this: leaf_cert.clone(),
    };
    chain.verify(root_hash).expect("verify chain");
    assert_eq!(chain.last_device(), &leaf_cert);
}

#[test]
fn expired_root_is_not_trusted() {
    let root_secret = DeviceSecret::random();
    let root_cert = root_secret.self_signed(Timestamp(10), true);
    let root_hash = root_cert.pk.bcs_hash();
    let chain = CertificateChain {
        ancestors: Vec::new(),
        this: root_cert,
    };
    assert_eq!(chain.verify_at(root_hash, Timestamp(10)), Err(ChainError::NoTrustedRoot));
    assert_eq!(chain.verify_at(root_hash, Timestamp(9)), Ok(()));
}

#[test]
fn root_with_wrong_hash_is_not_trusted() {
    let root_secret = DeviceSecret::random();
    let other = DeviceSecret::random();
    let root_cert = root_secret.self_signed(Timestamp(u64::MAX), true);
    let wrong_hash = other.public().bcs_hash();
    let chain = CertificateChain {
        ancestors: Vec::new(),
        this: root_cert,
    };
    assert_eq!(chain.verify_at(wrong_hash, Timestamp(0)), Err(ChainError::NoTrustedRoot));
}

#[test]
fn root_signed_by_another_key_is_rejected() {
    let root_secret = DeviceSecret::random();
    let other = DeviceSecret::random();
    let root_cert = other.issue_certificate(&root_secret.public(), Timestamp(u64::MAX), true);
    let root_hash = root_cert.pk.bcs_hash();
    let chain = CertificateChain {
        ancestors: Vec::new(),
        this: root_cert,
    };
    assert_eq!(
        chain.verify_at(root_hash, Timestamp(0)),
        Err(ChainError::InvalidRootSignature)
    );
}

#[test]
fn unsigned_entry_is_rejected() {
    let root_secret = DeviceSecret::random();
    let stranger = DeviceSecret::random();
    let leaf_secret = DeviceSecret::random();
    let root_cert = root_secret.self_signed(Timestamp(u64::MAX), true);
    let root_hash = root_cert.pk.bcs_hash();
    let leaf_cert = stranger.issue_certificate(&leaf_secret.public(), Timestamp(u64::MAX), true);
    let chain = CertificateChain {
        ancestors: vec![root_cert],
        this: leaf_cert,
    };
    assert_eq!(
        chain.verify_at(root_hash, Timestamp(0)),
        Err(ChainError::UnverifiableEntries)
    );
}

#[test]
fn expired_leaf_is_not_authenticated() {
    let root_secret = DeviceSecret::random();
    let leaf_secret = DeviceSecret::random();
    let root_cert = root_secret.self_signed(Timestamp(u64::MAX), true);
    let root_hash = root_cert.pk.bcs_hash();
    let leaf_cert = root_secret.issue_certificate(&leaf_secret.public(), Timestamp(5), true);
    let chain = CertificateChain {
        ancestors: vec![root_cert],
        this: leaf_cert,
    };
    assert_eq!(
        chain.verify_at(root_hash, Timestamp(5)),
        Err(ChainError::LeafNotAuthenticated)
    );
    assert_eq!(chain.verify_at(root_hash, Timestamp(4)), Ok(()));
}

#[test]
fn iter_lists_ancestors_then_device() {
    let root_secret = DeviceSecret::random();
    let leaf_secret = DeviceSecret::random();
    let root_cert = root_secret.self_signed(Timestamp(u64::MAX), true);
    let leaf_cert = root_secret.issue_certificate(&leaf_secret.public(), Timestamp(7), false);
    let chain = CertificateChain {
        ancestors: vec![root_cert],
        this: leaf_cert,
    };
    let all = chain.iter();
    assert_eq!(all.len(), 2);
    assert_eq!(all[0], root_cert);
    assert_eq!(all[1], leaf_cert);
}

#[test]
fn issued_certificate_verifies_against_issuer_only() {
    let issuer = DeviceSecret::random();
    let subject = DeviceSecret::random();
    let cert = issuer.issue_certificate(&subject.public(), Timestamp(99), true);
    assert!(cert.verify(&issuer.public().signing_public()));
    assert!(!cert.verify(&subject.public().signing_public()));
    assert_eq!(cert.expiry, Timestamp(99));
    assert!(cert.can_issue);
}

#[test]
fn verdict_ignores_order_of_ancestors() {
    let root_secret = DeviceSecret::random();
    let root_cert = root_secret.self_signed(Timestamp(u64::MAX), true);
    let root_hash = root_cert.pk.bcs_hash();
    let mid_secret = DeviceSecret::random();
    let mid_cert = root_secret.issue_certificate(&mid_secret.public(), Timestamp(u64::MAX), true);
    let leaf_secret = DeviceSecret::random();
    let leaf_cert = mid_secret.issue_certificate(&leaf_secret.public(), Timestamp(u64::MAX), false);
    let forward = CertificateChain {
        ancestors: vec![root_cert.clone(), mid_cert.clone()],
        this: leaf_cert.clone(),
    };
    let backward = CertificateChain {
        ancestors: vec![mid_cert.clone(), root_cert.clone()],
        this: leaf_cert.clone(),
    };
    assert_eq!(forward.verify_at(root_hash, Timestamp(10)), Ok(()));
    assert_eq!(backward.verify_at(root_hash, Timestamp(10)), Ok(()));
    let missing_root = CertificateChain {
        ancestors: vec![mid_cert],
        this: leaf_cert,
    };
    assert_eq!(
        missing_root.verify_at(root_hash, Timestamp(10)),
        Err(ChainError::NoTrustedRoot)
    );
}
