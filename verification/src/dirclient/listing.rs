use vstd::prelude::*;

use crate::crypt::signing::{ed25519_sign, Signature, SigningPublic, SigningSecret};
use crate::structs::blob::Blob;
use crate::structs::directory::{
    apply_owner_update, apply_owners, authorized, expected_prev, history_encodable,
    history_owners, history_result, inner_encodable, key_views,
    lemma_history_error_persists, update_hash_of, update_signed_value, DirectoryHistoryError,
    DirectoryHistoryIterExt, DirectoryUpdate, DirectoryUpdateInner,
};

verus! {

/// A response to a directory query.
#[derive(Clone, Debug)]
pub struct DirectoryResponse {
    pub history: Vec<DirectoryUpdate>,
    pub proof_height: u64,
    pub proof_merkle_branch: Vec<u8>,
}

/// Derived listing information for a directory key.
#[derive(Clone, Debug)]
pub struct DirectoryListing {
    /// Latest content message for the key, if present.
    pub latest: Option<Blob>,
    /// Current owners for the key, after applying ownership updates in order.
    pub owners: Vec<SigningPublic>,
}

/// The content of the last content update in a history, if any.
pub open spec fn latest_content(h: Seq<DirectoryUpdate>) -> Option<(Seq<char>, Seq<u8>)>
    decreases h.len(),
{
    if h.len() == 0 {
        None
    } else {
        match h.last().update_type {
            DirectoryUpdateInner::Update(b) => Some(b@),
            _ => latest_content(h.drop_last()),
        }
    }
}

/// A content update at the end of a history is the latest content, whatever came before it.
pub proof fn lemma_last_update_is_latest(h: Seq<DirectoryUpdate>, u: DirectoryUpdate, b: Blob)
    requires
        u.update_type == DirectoryUpdateInner::Update(b),
    ensures
        latest_content(h.push(u)) == Some(b@),
{
    assert(h.push(u).last() == u);
}

/// An ownership change at the end of a history leaves the latest content as it was.
pub proof fn lemma_owner_change_keeps_latest(h: Seq<DirectoryUpdate>, u: DirectoryUpdate)
    requires
        !(u.update_type is Update),
    ensures
        latest_content(h.push(u)) == latest_content(h),
{
    assert(h.push(u).drop_last() =~= h);
}

/// The latest content is that of the last content update of the history: there is such an
/// update exactly when there is latest content, and no content update comes after it.
pub proof fn lemma_latest_is_last_content(h: Seq<DirectoryUpdate>)
    ensures
        latest_content(h) is None <==> forall|i: int| 0 <= i < h.len() ==> !(#[trigger] h[i].update_type is Update),
        latest_content(h) is Some ==> exists|i: int|
            0 <= i < h.len() && (#[trigger] h[i].update_type matches DirectoryUpdateInner::Update(b)
                && latest_content(h) == Some(b@)) && forall|j: int|
                i < j < h.len() ==> !(#[trigger] h[j].update_type is Update),
    decreases h.len(),
{
    if h.len() > 0 {
        let pre = h.drop_last();
        lemma_latest_is_last_content(pre);
        assert forall|i: int| 0 <= i < pre.len() implies #[trigger] pre[i] == h[i] by {}
        match h.last().update_type {
            DirectoryUpdateInner::Update(b) => {
                assert(h[h.len() - 1].update_type is Update);
            },
            _ => {
                if latest_content(pre) is Some {
                    let i = choose|i: int|
                        0 <= i < pre.len() && (#[trigger] pre[i].update_type matches DirectoryUpdateInner::Update(b)
                            && latest_content(pre) == Some(b@)) && forall|j: int|
                            i < j < pre.len() ==> !(#[trigger] pre[j].update_type is Update);
                    assert(h[i] == pre[i]);
                    assert forall|j: int| i < j < h.len() implies !(#[trigger] h[j].update_type is Update) by {
                        if j < pre.len() {
                            assert(h[j] == pre[j]);
                        }
                    }
                } else {
                    assert forall|i: int| 0 <= i < h.len() implies !(#[trigger] h[i].update_type is Update) by {
                        if i < pre.len() {
                            assert(h[i] == pre[i]);
                        }
                    }
                }
            },
        }
    }
}

/// The view of an optional blob.
pub open spec fn opt_blob_view(b: Option<Blob>) -> Option<(Seq<char>, Seq<u8>)> {
    match b {
        Some(x) => Some(x@),
        None => None,
    }
}

/// A history that verifies has prefixes that verify.
pub proof fn lemma_history_prefix_ok(h: Seq<DirectoryUpdate>, i: int)
    requires
        0 <= i <= h.len(),
        history_owners(h) is Ok,
    ensures
        history_owners(h.subrange(0, i)) is Ok,
{
    if history_owners(h.subrange(0, i)) is Err {
        lemma_history_error_persists(h, i);
    }
}

/// Extending a history by an update that links to it and that its owners authorized gives a
/// history that verifies, with the update's ownership change applied.
pub proof fn lemma_history_extend(h: Seq<DirectoryUpdate>, u: DirectoryUpdate)
    requires
        history_owners(h) is Ok,
        u.prev_update_hash@ == expected_prev(h),
        authorized(u, history_owners(h)->Ok_0),
    ensures
        history_owners(h.push(u)) == Ok::<Seq<Seq<u8>>, DirectoryHistoryError>(
            apply_owners(history_owners(h)->Ok_0, u.update_type),
        ),
{
    assert(h.push(u).drop_last() =~= h);
}

/// Verifies a response's history and derives the listing: the owners after all updates and
/// the last content message.
pub fn build_listing(response: &DirectoryResponse) -> (r: Result<DirectoryListing, DirectoryHistoryError>)
    requires
        history_encodable(response.history@),
    ensures
        match history_owners(response.history@) {
            Err(e) => r == Err::<DirectoryListing, DirectoryHistoryError>(e),
            Ok(owners) => r matches Ok(l) && key_views(l.owners@) == owners && opt_blob_view(
                l.latest,
            ) == latest_content(response.history@),
        },
{
    match response.history.verify_history() {
        Ok(()) => {},
        Err(e) => return Err(e),
    }
    let h = &response.history;
    let mut owners: Vec<SigningPublic> = Vec::new();
    let mut latest: Option<Blob> = None;
    let mut i: usize = 0;
    assert(key_views(owners@) =~= Seq::<Seq<u8>>::empty());
    assert(h@.subrange(0, 0) =~= Seq::<DirectoryUpdate>::empty());
    while i < h.len()
        invariant
            0 <= i <= h@.len(),
            history_owners(h@) is Ok,
            history_owners(h@.subrange(0, i as int)) == Ok::<Seq<Seq<u8>>, DirectoryHistoryError>(
                key_views(owners@),
            ),
            opt_blob_view(latest) == latest_content(h@.subrange(0, i as int)),
        decreases h@.len() - i,
    {
        let ghost pre = h@.subrange(0, i as int);
        let ghost cur = h@.subrange(0, i + 1);
        proof {
            assert(cur.drop_last() =~= pre);
            lemma_history_prefix_ok(h@, i + 1);
        }
        let u = &h[i];
        apply_owner_update(&mut owners, &u.update_type);
        match &u.update_type {
            DirectoryUpdateInner::Update(message) => {
                latest = Some(message.duplicate());
            },
            _ => {},
        }
        i = i + 1;
    }
    assert(h@.subrange(0, h@.len() as int) =~= h@);
    Ok(DirectoryListing { latest, owners })
}

/// The hash of an update: the hash of its BCS encoding, or nothing where the update is too
/// large to encode.
pub fn update_hash(update: &DirectoryUpdate) -> (h: Option<crate::crypt::hash::Hash>)
    ensures
        h is Some <==> inner_encodable(update.update_type),
        h matches Some(x) ==> x@ == update_hash_of(*update),
{
    if update.update_type.encodable() {
        Some(update.hash())
    } else {
        None
    }
}

/// The hash that the next update of a history must link to: that of the last update, or the
/// zero hash for an empty history; nothing where the last update is too large to encode.
pub fn prev_update_hash(history: &[DirectoryUpdate]) -> (h: Option<crate::crypt::hash::Hash>)
    ensures
        h is Some <==> (history@.len() == 0 || inner_encodable(history@.last().update_type)),
        h matches Some(x) ==> x@ == expected_prev(history@),
{
    if history.len() == 0 {
        Some(crate::crypt::hash::Hash::zero())
    } else {
        update_hash(&history[history.len() - 1])
    }
}

/// Builds an update linked to `prev_update_hash` and signed by `signer`.
pub fn signed_update(
    prev_update_hash: crate::crypt::hash::Hash,
    update_type: DirectoryUpdateInner,
    signer: &SigningSecret,
) -> (u: DirectoryUpdate)
    requires
        inner_encodable(update_type),
    ensures
        u.prev_update_hash@ == prev_update_hash@,
        u.update_type == update_type,
        u.signature@ == ed25519_sign(signer@, update_signed_value(u)),
{
    let mut update = DirectoryUpdate {
        prev_update_hash,
        update_type,
        signature: Signature::from_bytes([0u8; 64]),
    };
    update.sign(signer);
    update
}

/// Builds the next update of a key, once its current history checks out: linked to the last
/// update of the history and signed by `signer`.
pub fn next_update(
    history: &Vec<DirectoryUpdate>,
    update_type: DirectoryUpdateInner,
    signer: &SigningSecret,
) -> (r: Result<DirectoryUpdate, DirectoryHistoryError>)
    requires
        history_encodable(history@),
        inner_encodable(update_type),
    ensures
        r is Ok <==> history_result(history@) is Ok,
        r matches Err(e) ==> history_result(history@) == Err::<(), DirectoryHistoryError>(e),
        r matches Ok(u) ==> u.prev_update_hash@ == expected_prev(history@) && u.update_type
            == update_type && u.signature@ == ed25519_sign(signer@, update_signed_value(u)),
{
    match history.verify_history() {
        Err(e) => Err(e),
        Ok(()) => {
            let prev = if history.len() == 0 {
                crate::crypt::hash::Hash::zero()
            } else {
                assert(inner_encodable(history@[history@.len() - 1].update_type));
                history[history.len() - 1].hash()
            };
            Ok(signed_update(prev, update_type, signer))
        },
    }
}

/// Whether an update with hash `expected` has landed in a key's history.
pub fn history_has_update(history: &Vec<DirectoryUpdate>, expected: &crate::crypt::hash::Hash) -> (r:
    bool)
    requires
        history_encodable(history@),
    ensures
        r == exists|i: int| 0 <= i < history@.len() && update_hash_of(#[trigger] history@[i]) == expected@,
{
    let mut i: usize = 0;
    while i < history.len()
        invariant
            0 <= i <= history@.len(),
            history_encodable(history@),
            forall|j: int| 0 <= j < i ==> update_hash_of(#[trigger] history@[j]) != expected@,
        decreases history@.len() - i,
    {
        assert(inner_encodable(history@[i as int].update_type));
        if history[i].hash() == *expected {
            return true;
        }
        i = i + 1;
    }
    false
}

} // verus!
