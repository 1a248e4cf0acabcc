use vstd::prelude::*;

use crate::bytes::{push_bytes, push_uleb128, seq_len_ok, uleb128, MAX_SEQUENCE_LENGTH};
use crate::crypt::hash::spec_digest;
use crate::dirclient::listing::{DirectoryListing, DirectoryResponse};
use crate::structs::blob::Blob;
use crate::structs::directory::{
    history_encodable, inner_encodable, update_encoding, DirectoryAnchor, DirectoryHeader,
    DirectoryUpdate,
};
use vstd::utf8::encode_utf8;

verus! {

/// What decompressing a sparse Merkle tree proof gives: its levels, or nothing for a malformed
/// proof.
pub uninterp spec fn smt_decompress(compressed: Seq<u8>) -> Option<Seq<Seq<u8>>>;

/// Whether a full sparse Merkle tree proof shows that `key` maps to `value` under `root`
/// (an empty value shows absence).
pub uninterp spec fn smt_verify(levels: Seq<Seq<u8>>, root: Seq<u8>, key: Seq<u8>, value: Seq<u8>) -> bool;

/// The levels of a decompressed sparse Merkle tree proof.
#[derive(Clone, Debug)]
pub struct MerkleBranch {
    pub levels: Vec<[u8; 32]>,
}

/// The views of the levels of a proof.
pub open spec fn level_views(v: Seq<[u8; 32]>) -> Seq<Seq<u8>> {
    v.map_values(|a: [u8; 32]| a@)
}

/// Calls `novasmt::CompressedProof::decompress`; the levels are named `smt_decompress` of the
/// bytes, and a decompressed proof has 256 levels (one per bit of the bitmap).
#[verifier::external_body]
fn smt_decompress_proof(compressed: &[u8]) -> (r: Option<MerkleBranch>)
    ensures
        r is Some <==> smt_decompress(compressed@) is Some,
        r is Some ==> level_views(r->0.levels@) == smt_decompress(compressed@)->0
            && r->0.levels@.len() == 256,
{
    novasmt::CompressedProof(compressed.to_vec()).decompress().map(|p| MerkleBranch { levels: p.0 })
}

/// Calls `novasmt::FullProof::verify`, which panics unless the proof has 256 levels; the answer
/// is named `smt_verify`.
#[verifier::external_body]
fn smt_verify_proof(proof: &MerkleBranch, root: &[u8; 32], key: &[u8; 32], value: &[u8]) -> (ok: bool)
    requires
        proof.levels@.len() == 256,
    ensures
        ok == smt_verify(level_views(proof.levels@), root@, key@, value@),
{
    novasmt::FullProof(proof.levels.clone()).verify(*root, *key, value)
}

/// Why a directory response failed to verify.
#[derive(Clone, Copy, Debug, PartialEq, Eq, Structural)]
pub enum ResponseError {
    /// The proof is for a height beyond the anchor.
    HeaderChainMismatch,
    /// The proof does not decompress.
    MalformedProof,
    /// The proof does not show the history under the header's tree root.
    InvalidProof,
    /// The history is too long for its BCS encoding.
    EncodingFailed,
}

/// Whether a history can be BCS-encoded: not too many updates, none too large.
pub open spec fn history_bcs_ok(h: Seq<DirectoryUpdate>) -> bool {
    seq_len_ok(h.len()) && history_encodable(h)
}

/// The BCS encoding of a history: the number of updates in ULEB128, then each update.
pub open spec fn history_body(h: Seq<DirectoryUpdate>) -> Seq<u8> {
    uleb128(h.len()) + history_items(h)
}

/// The BCS encodings of the updates of a history, one after the other.
pub open spec fn history_items(h: Seq<DirectoryUpdate>) -> Seq<u8>
    decreases h.len(),
{
    if h.len() == 0 {
        Seq::empty()
    } else {
        history_items(h.drop_last()) + update_encoding(h.last())
    }
}

/// The value a key's history has in the directory tree: nothing for an empty history,
/// otherwise its encoding.
pub open spec fn history_value(h: Seq<DirectoryUpdate>) -> Seq<u8> {
    if h.len() == 0 {
        Seq::empty()
    } else {
        history_body(h)
    }
}

/// What checking a response for `key` against the anchor and the header at the proof's height
/// gives.
pub open spec fn spec_verify_response(
    header: DirectoryHeader,
    key: Seq<char>,
    anchor: DirectoryAnchor,
    response: DirectoryResponse,
) -> Result<(), ResponseError> {
    if response.proof_height > anchor.last_header_height {
        Err(ResponseError::HeaderChainMismatch)
    } else {
        match smt_decompress(response.proof_merkle_branch@) {
            None => Err(ResponseError::MalformedProof),
            Some(levels) => if !history_bcs_ok(response.history@) {
                Err(ResponseError::EncodingFailed)
            } else if smt_verify(
                levels,
                header.smt_root@,
                spec_digest(encode_utf8(key)),
                history_value(response.history@),
            ) {
                Ok(())
            } else {
                Err(ResponseError::InvalidProof)
            },
        }
    }
}

/// The encoded value of a history in the directory tree.
pub fn encode_history_value(history: &Vec<DirectoryUpdate>) -> (v: Vec<u8>)
    requires
        history_bcs_ok(history@),
    ensures
        v@ == history_value(history@),
{
    let mut v: Vec<u8> = Vec::new();
    if history.len() == 0 {
        return v;
    }
    push_uleb128(&mut v, history.len() as u32);
    let ghost start = v@;
    let mut i: usize = 0;
    assert(history@.subrange(0, 0) =~= Seq::<DirectoryUpdate>::empty());
    assert(v@ =~= start + history_items(history@.subrange(0, 0)));
    while i < history.len()
        invariant
            0 <= i <= history@.len(),
            history_bcs_ok(history@),
            v@ == start + history_items(history@.subrange(0, i as int)),
        decreases history@.len() - i,
    {
        assert(inner_encodable(history@[i as int].update_type));
        let enc = history[i].encode();
        push_bytes(&mut v, enc.as_slice());
        proof {
            let pre = history@.subrange(0, i as int);
            let cur = history@.subrange(0, i + 1);
            assert(cur.drop_last() =~= pre);
            assert(cur.last() == history@[i as int]);
        }
        i = i + 1;
    }
    assert(history@.subrange(0, history@.len() as int) =~= history@);
    v
}

/// Whether a history can be BCS-encoded.
pub fn history_encodable_exec(history: &Vec<DirectoryUpdate>) -> (r: bool)
    ensures
        r == history_bcs_ok(history@),
{
    if history.len() > MAX_SEQUENCE_LENGTH {
        return false;
    }
    let mut i: usize = 0;
    while i < history.len()
        invariant
            0 <= i <= history@.len(),
            forall|j: int| 0 <= j < i ==> inner_encodable(#[trigger] history@[j].update_type),
        decreases history@.len() - i,
    {
        if !history[i].update_type.encodable() {
            return false;
        }
        i = i + 1;
    }
    true
}

/// Checks that a response's history is what the directory tree holds for `key` at the proof's
/// height, given the (already synced) header at that height.
pub fn verify_response(
    header: &DirectoryHeader,
    key: &str,
    anchor: &DirectoryAnchor,
    response: &DirectoryResponse,
) -> (r: Result<(), ResponseError>)
    ensures
        r == spec_verify_response(*header, key@, *anchor, *response),
{
    if response.proof_height > anchor.last_header_height {
        return Err(ResponseError::HeaderChainMismatch);
    }
    let proof = match smt_decompress_proof(response.proof_merkle_branch.as_slice()) {
        Some(p) => p,
        None => return Err(ResponseError::MalformedProof),
    };
    let key_hash = crate::crypt::hash::Hash::digest(key.as_bytes()).to_bytes();
    if !history_encodable_exec(&response.history) {
        return Err(ResponseError::EncodingFailed);
    }
    let value = encode_history_value(&response.history);
    let root = header.smt_root.to_bytes();
    if smt_verify_proof(&proof, &root, &key_hash, value.as_slice()) {
        Ok(())
    } else {
        Err(ResponseError::InvalidProof)
    }
}

/// Why a descriptor could not be read from a listing.
#[derive(Clone, Copy, Debug, PartialEq, Eq, Structural)]
pub enum DescriptorError {
    /// The latest content message has another kind.
    UnexpectedKind,
}

/// The payload of a listing's latest content message, if it has the expected kind: nothing
/// when there is no content, an error when the kind differs.
pub fn descriptor_payload(listing: &DirectoryListing, kind: &str) -> (r: Result<
    Option<Vec<u8>>,
    DescriptorError,
>)
    ensures
        match listing.latest {
            None => r is Ok && r->Ok_0 is None,
            Some(b) => if b.kind@ == kind@ {
                r is Ok && r->Ok_0 is Some && r->Ok_0->0@ == b.inner@
            } else {
                r == Err::<Option<Vec<u8>>, DescriptorError>(DescriptorError::UnexpectedKind)
            },
        },
{
    match &listing.latest {
        None => Ok(None),
        Some(b) => {
            if !b.has_kind(kind) {
                return Err(DescriptorError::UnexpectedKind);
            }
            Ok(Some(vstd::slice::slice_to_vec(b.inner.as_slice())))
        },
    }
}

} // verus!
