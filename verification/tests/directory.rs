use xirtam::crypt::signing::SigningSecret;
use xirtam::dirclient::listing::{
    build_listing, history_has_update, next_update, prev_update_hash, signed_update, update_hash,
    DirectoryResponse,
};
use xirtam::structs::blob::Blob;
use xirtam::structs::directory::{
    DirectoryHistoryError, DirectoryHistoryIterExt, DirectoryUpdate, DirectoryUpdateInner,
};

fn blob(kind: &str, inner: &[u8]) -> Blob {
    Blob {
        kind: kind.to_string(),
        inner: inner.to_vec(),
    }
}

fn owned_history(owner: &SigningSecret) -> Vec<DirectoryUpdate> {
    let first = signed_update(
        xirtam::crypt::hash::Hash::zero(),
        DirectoryUpdateInner::AddOwner(owner.public_key()),
        owner,
    );
    vec![first]
}

#[test]
fn empty_history_verifies() {
    let history: Vec<DirectoryUpdate> = Vec::new();
    assert_eq!(history.verify_history(), Ok(()));
    assert_eq!(prev_update_hash(&history), Some(xirtam::crypt::hash::Hash::zero()));
}

#[test]
fn first_owner_may_claim_a_key() {
    let owner = SigningSecret::from_bytes([1u8; 32]);
    let history = owned_history(&owner);
    assert_eq!(history.verify_history(), Ok(()));
    assert_eq!(prev_update_hash(&history), update_hash(&history[0]));
    assert!(update_hash(&history[0]).is_some());
}

#[test]
fn content_before_any_owner_is_refused() {
    let owner = SigningSecret::from_bytes([1u8; 32]);
    let first = signed_update(
        xirtam::crypt::hash::Hash::zero(),
        DirectoryUpdateInner::Update(blob("v1.user_descriptor", b"x")),
        &owner,
    );
    assert_eq!(vec![first].verify_history(), Err(DirectoryHistoryError::NoOwners));
}

#[test]
fn update_by_stranger_is_refused() {
    let owner = SigningSecret::from_bytes([1u8; 32]);
    let stranger = SigningSecret::from_bytes([2u8; 32]);
    let mut history = owned_history(&owner);
    let prev = prev_update_hash(&history).unwrap();
    history.push(signed_update(
        prev,
        DirectoryUpdateInner::Update(blob("v1.user_descriptor", b"x")),
        &stranger,
    ));
    assert_eq!(history.verify_history(), Err(DirectoryHistoryError::InvalidSignature));
}

#[test]
fn broken_link_is_refused() {
    let owner = SigningSecret::from_bytes([1u8; 32]);
    let mut history = owned_history(&owner);
    history.push(signed_update(
        xirtam::crypt::hash::Hash::zero(),
        DirectoryUpdateInner::Update(blob("v1.user_descriptor", b"x")),
        &owner,
    ));
    assert_eq!(history.verify_history(), Err(DirectoryHistoryError::InvalidPrevHash));
}

#[test]
fn next_update_extends_a_valid_history() {
    let owner = SigningSecret::from_bytes([1u8; 32]);
    let mut history = owned_history(&owner);
    let update = next_update(
        &history,
        DirectoryUpdateInner::Update(blob("v1.user_descriptor", b"payload")),
        &owner,
    )
    .expect("history verifies");
    let h = update_hash(&update).unwrap();
    assert!(!history_has_update(&history, &h));
    history.push(update);
    assert_eq!(history.verify_history(), Ok(()));
    assert!(history_has_update(&history, &h));

    let response = DirectoryResponse {
        history,
        proof_height: 0,
        proof_merkle_branch: Vec::new(),
    };
    let listing = build_listing(&response).expect("listing");
    assert_eq!(listing.owners.len(), 1);
    assert_eq!(listing.owners[0].to_bytes(), owner.public_key().to_bytes());
    let latest = listing.latest.expect("latest content");
    assert_eq!(latest.kind, "v1.user_descriptor");
    assert_eq!(latest.inner, b"payload".to_vec());
}

#[test]
fn next_update_refuses_a_broken_history() {
    let owner = SigningSecret::from_bytes([1u8; 32]);
    let stranger = SigningSecret::from_bytes([2u8; 32]);
    let history = vec![signed_update(
        xirtam::crypt::hash::Hash::zero(),
        DirectoryUpdateInner::AddOwner(owner.public_key()),
        &stranger,
    )];
    let r = next_update(
        &history,
        DirectoryUpdateInner::DelOwner(owner.public_key()),
        &owner,
    );
    assert_eq!(r.err(), Some(DirectoryHistoryError::InvalidSignature));
}

#[test]
fn removed_owner_loses_rights() {
    let a = SigningSecret::from_bytes([1u8; 32]);
    let b = SigningSecret::from_bytes([2u8; 32]);
    let mut history = owned_history(&a);
    let add_b = next_update(&history, DirectoryUpdateInner::AddOwner(b.public_key()), &a).unwrap();
    history.push(add_b);
    let del_a = next_update(&history, DirectoryUpdateInner::DelOwner(a.public_key()), &b).unwrap();
    history.push(del_a);
    assert_eq!(history.verify_history(), Ok(()));
    let by_a = next_update(
        &history,
        DirectoryUpdateInner::Update(blob("v1.user_descriptor", b"late")),
        &a,
    )
    .unwrap();
    history.push(by_a);
    assert_eq!(history.verify_history(), Err(DirectoryHistoryError::InvalidSignature));
}
