use vstd::prelude::*;

use crate::bytes::{framed, push_bytes, push_framed, push_framed32, push_u64_le, seq_len_ok};
use crate::crypt::hash::{spec_digest};
use crate::crypt::signing::{spec_verify, Signature, SigningPublic, SigningSecret, ed25519_sign};
use crate::structs::blob::Blob;
use crate::structs::timestamp::Timestamp;
use vstd::bytes::spec_u64_to_le_bytes;
use vstd::utf8::encode_utf8;

verus! {

/// An error answered by the directory.
#[derive(Clone, Debug)]
pub enum DirectoryErr {
    RetryLater,
    UpdateRejected(String),
}

/// The proof-of-work algorithm that a directory asks for.
#[derive(Clone, Copy, Debug, PartialEq, Eq, Structural)]
pub enum PowAlgo {
    EquiX { effort: u64 },
}

/// A proof-of-work seed.
#[derive(Clone, Copy, Debug)]
pub struct PowSeed {
    pub algo: PowAlgo,
    pub seed: crate::crypt::hash::Hash,
    pub use_before: Timestamp,
}

/// A solved proof of work.
#[derive(Clone, Debug)]
pub struct PowSolution {
    pub seed: crate::crypt::hash::Hash,
    pub nonce: u64,
    pub solution: Vec<u8>,
}

/// The trust anchor of the entire directory at a given time.
#[derive(Clone, Debug)]
pub struct DirectoryAnchor {
    pub directory_id: String,
    pub last_header_height: u64,
    pub last_header_hash: crate::crypt::hash::Hash,
    pub signature: Signature,
}

/// The header of a directory snapshot at a particular time.
#[derive(Clone, Copy, Debug)]
pub struct DirectoryHeader {
    pub prev: crate::crypt::hash::Hash,
    pub smt_root: crate::crypt::hash::Hash,
    pub time_unix: u64,
}

/// A whole chunk of directory updates, listed by key.
#[derive(Clone, Debug)]
pub struct DirectoryChunk {
    pub header: DirectoryHeader,
    pub updates: Vec<(String, Vec<DirectoryUpdate>)>,
}

/// What one directory update does to its key.
#[derive(Clone, Debug)]
pub enum DirectoryUpdateInner {
    AddOwner(SigningPublic),
    DelOwner(SigningPublic),
    Update(Blob),
}

/// One signed update in the history of a directory key.
#[derive(Clone, Debug)]
pub struct DirectoryUpdate {
    pub prev_update_hash: crate::crypt::hash::Hash,
    pub update_type: DirectoryUpdateInner,
    pub signature: Signature,
}

/// Why a directory history failed to verify.
#[derive(Clone, Copy, Debug, PartialEq, Eq, Structural)]
pub enum DirectoryHistoryError {
    /// The history has no owners that could verify the update.
    NoOwners,
    /// The update is not signed by an owner.
    InvalidSignature,
    /// The update does not link to the previous update.
    InvalidPrevHash,
}

/// The signed bytes of an anchor: the BCS encoding of the directory id, the height and the
/// header hash.
pub open spec fn anchor_signed_value(a: DirectoryAnchor) -> Seq<u8> {
    framed(encode_utf8(a.directory_id@)) + spec_u64_to_le_bytes(a.last_header_height) + framed(
        a.last_header_hash@,
    )
}

/// The BCS encoding of a header: previous hash, tree root and time.
pub open spec fn header_encoding(h: DirectoryHeader) -> Seq<u8> {
    framed(h.prev@) + framed(h.smt_root@) + spec_u64_to_le_bytes(h.time_unix)
}

/// Whether an update's action can be BCS-encoded.
pub open spec fn inner_encodable(t: DirectoryUpdateInner) -> bool {
    match t {
        DirectoryUpdateInner::Update(b) => b.encodable(),
        _ => true,
    }
}

/// Whether every update of a history can be BCS-encoded.
pub open spec fn history_encodable(h: Seq<DirectoryUpdate>) -> bool {
    forall|i: int| 0 <= i < h.len() ==> inner_encodable(#[trigger] h[i].update_type)
}

/// The BCS encoding of an update's action: the variant's index and its payload.
pub open spec fn inner_encoding(t: DirectoryUpdateInner) -> Seq<u8> {
    match t {
        DirectoryUpdateInner::AddOwner(pk) => seq![0u8] + framed(pk@),
        DirectoryUpdateInner::DelOwner(pk) => seq![1u8] + framed(pk@),
        DirectoryUpdateInner::Update(b) => seq![2u8] + b.encoding(),
    }
}

/// The bytes an update's signature covers: the BCS encoding of the previous hash and the
/// action.
pub open spec fn update_signed_value(u: DirectoryUpdate) -> Seq<u8> {
    framed(u.prev_update_hash@) + inner_encoding(u.update_type)
}

/// The BCS encoding of an update, signature included.
pub open spec fn update_encoding(u: DirectoryUpdate) -> Seq<u8> {
    update_signed_value(u) + framed(u.signature@)
}

/// The hash of an update.
pub open spec fn update_hash_of(u: DirectoryUpdate) -> Seq<u8> {
    spec_digest(update_encoding(u))
}

/// Whether the update is signed by the key `pk`.
pub open spec fn update_signed_by(u: DirectoryUpdate, pk: Seq<u8>) -> bool {
    spec_verify(pk, update_signed_value(u), u.signature@)
}

/// The all-zero hash that the first update of a history links to.
pub open spec fn zero_hash() -> Seq<u8> {
    Seq::new(32, |i: int| 0u8)
}

/// The hash that the update after `h` must link to.
pub open spec fn expected_prev(h: Seq<DirectoryUpdate>) -> Seq<u8> {
    if h.len() == 0 {
        zero_hash()
    } else {
        update_hash_of(h.last())
    }
}

/// Whether an update may be applied to a key with the given owners: with no owners, only an
/// update adding an owner and signed by that owner; otherwise, one signed by some owner.
pub open spec fn authorized(u: DirectoryUpdate, owners: Seq<Seq<u8>>) -> bool {
    if owners.len() == 0 {
        match u.update_type {
            DirectoryUpdateInner::AddOwner(pk) => update_signed_by(u, pk@),
            _ => false,
        }
    } else {
        exists|i: int| 0 <= i < owners.len() && update_signed_by(u, #[trigger] owners[i])
    }
}

/// `s` without any entry equal to `x`, order kept.
pub open spec fn seq_without(s: Seq<Seq<u8>>, x: Seq<u8>) -> Seq<Seq<u8>>
    decreases s.len(),
{
    if s.len() == 0 {
        s
    } else {
        let rest = seq_without(s.drop_last(), x);
        if s.last() == x {
            rest
        } else {
            rest.push(s.last())
        }
    }
}

/// The owners after applying an action.
pub open spec fn apply_owners(owners: Seq<Seq<u8>>, t: DirectoryUpdateInner) -> Seq<Seq<u8>> {
    match t {
        DirectoryUpdateInner::AddOwner(pk) => if owners.contains(pk@) {
            owners
        } else {
            owners.push(pk@)
        },
        DirectoryUpdateInner::DelOwner(pk) => seq_without(owners, pk@),
        DirectoryUpdateInner::Update(_) => owners,
    }
}

/// The owners of a key after its history `h`, in the order they were added, or the first
/// error in the history.
pub open spec fn history_owners(h: Seq<DirectoryUpdate>) -> Result<
    Seq<Seq<u8>>,
    DirectoryHistoryError,
>
    decreases h.len(),
{
    if h.len() == 0 {
        Ok(Seq::empty())
    } else {
        match history_owners(h.drop_last()) {
            Err(e) => Err(e),
            Ok(owners) => {
                let u = h.last();
                if u.prev_update_hash@ != expected_prev(h.drop_last()) {
                    Err(DirectoryHistoryError::InvalidPrevHash)
                } else if !authorized(u, owners) {
                    if owners.len() == 0 && !(u.update_type is AddOwner) {
                        Err(DirectoryHistoryError::NoOwners)
                    } else {
                        Err(DirectoryHistoryError::InvalidSignature)
                    }
                } else {
                    Ok(apply_owners(owners, u.update_type))
                }
            },
        }
    }
}

/// Whether a history verifies, and if not, its first error.
pub open spec fn history_result(h: Seq<DirectoryUpdate>) -> Result<(), DirectoryHistoryError> {
    match history_owners(h) {
        Ok(_) => Ok(()),
        Err(e) => Err(e),
    }
}

/// Adding an owner keeps every owner there was and makes the new key an owner, each once.
pub proof fn lemma_add_owner_keeps_owners(owners: Seq<Seq<u8>>, pk: SigningPublic, x: Seq<u8>)
    ensures
        apply_owners(owners, DirectoryUpdateInner::AddOwner(pk)).contains(pk@),
        owners.contains(x) ==> apply_owners(owners, DirectoryUpdateInner::AddOwner(pk)).contains(x),
        apply_owners(owners, DirectoryUpdateInner::AddOwner(pk)).contains(x) ==> owners.contains(x)
            || x == pk@,
{
    let r = apply_owners(owners, DirectoryUpdateInner::AddOwner(pk));
    if !owners.contains(pk@) {
        assert(r[owners.len() as int] == pk@);
        if owners.contains(x) {
            let j = choose|j: int| 0 <= j < owners.len() && owners[j] == x;
            assert(r[j] == x);
        }
        if r.contains(x) {
            let j = choose|j: int| 0 <= j < r.len() && r[j] == x;
            if j < owners.len() {
                assert(owners[j] == x);
            }
        }
    }
}

/// Any current owner may extend a history: an update linked to the last one and signed by
/// any of the owners the history leaves, not only the latest added, is accepted, and its
/// ownership change applied.
pub proof fn lemma_any_owner_may_extend(h: Seq<DirectoryUpdate>, u: DirectoryUpdate, i: int)
    requires
        history_owners(h) is Ok,
        0 <= i < history_owners(h)->Ok_0.len(),
        u.prev_update_hash@ == expected_prev(h),
        update_signed_by(u, history_owners(h)->Ok_0[i]),
    ensures
        history_owners(h.push(u)) == Ok::<Seq<Seq<u8>>, DirectoryHistoryError>(
            apply_owners(history_owners(h)->Ok_0, u.update_type),
        ),
{
    assert(h.push(u).drop_last() =~= h);
    assert(h.push(u).last() == u);
}

/// An update signed by no current owner is refused with a bad signature, whoever it is linked
/// to, once the history has owners.
pub proof fn lemma_non_owner_refused(h: Seq<DirectoryUpdate>, u: DirectoryUpdate)
    requires
        history_owners(h) is Ok,
        history_owners(h)->Ok_0.len() > 0,
        u.prev_update_hash@ == expected_prev(h),
        forall|i: int|
            0 <= i < history_owners(h)->Ok_0.len() ==> !update_signed_by(
                u,
                #[trigger] history_owners(h)->Ok_0[i],
            ),
    ensures
        history_owners(h.push(u)) == Err::<Seq<Seq<u8>>, DirectoryHistoryError>(
            DirectoryHistoryError::InvalidSignature,
        ),
{
    assert(h.push(u).drop_last() =~= h);
    assert(h.push(u).last() == u);
}

/// An update that does not link to the end of a verified history is refused for its link,
/// whoever signed it.
pub proof fn lemma_unlinked_refused(h: Seq<DirectoryUpdate>, u: DirectoryUpdate)
    requires
        history_owners(h) is Ok,
        u.prev_update_hash@ != expected_prev(h),
    ensures
        history_owners(h.push(u)) == Err::<Seq<Seq<u8>>, DirectoryHistoryError>(
            DirectoryHistoryError::InvalidPrevHash,
        ),
{
    assert(h.push(u).drop_last() =~= h);
    assert(h.push(u).last() == u);
}

/// While a key has no owners, the only update accepted is one adding an owner and signed by
/// that owner's key; any other kind of update is refused for want of owners, and an owner
/// addition signed otherwise for its signature.
pub proof fn lemma_first_owner(h: Seq<DirectoryUpdate>, u: DirectoryUpdate)
    requires
        history_owners(h) == Ok::<Seq<Seq<u8>>, DirectoryHistoryError>(Seq::empty()),
        u.prev_update_hash@ == expected_prev(h),
    ensures
        u.update_type matches DirectoryUpdateInner::AddOwner(pk) ==> history_owners(h.push(u)) == (
        if update_signed_by(u, pk@) {
            Ok::<Seq<Seq<u8>>, DirectoryHistoryError>(seq![pk@])
        } else {
            Err::<Seq<Seq<u8>>, DirectoryHistoryError>(DirectoryHistoryError::InvalidSignature)
        }),
        !(u.update_type is AddOwner) ==> history_owners(h.push(u)) == Err::<
            Seq<Seq<u8>>,
            DirectoryHistoryError,
        >(DirectoryHistoryError::NoOwners),
{
    assert(h.push(u).drop_last() =~= h);
    assert(h.push(u).last() == u);
    if let DirectoryUpdateInner::AddOwner(pk) = u.update_type {
        assert(Seq::<Seq<u8>>::empty().push(pk@) =~= seq![pk@]);
    }
}

/// Removing an owner removes exactly that key and keeps every other owner.
pub proof fn lemma_del_owner_removes(owners: Seq<Seq<u8>>, pk: SigningPublic, x: Seq<u8>)
    ensures
        !apply_owners(owners, DirectoryUpdateInner::DelOwner(pk)).contains(pk@),
        x != pk@ ==> (apply_owners(owners, DirectoryUpdateInner::DelOwner(pk)).contains(x)
            <==> owners.contains(x)),
    decreases owners.len(),
{
    if owners.len() > 0 {
        lemma_del_owner_removes(owners.drop_last(), pk, x);
        let rest = seq_without(owners.drop_last(), pk@);
        let r = seq_without(owners, pk@);
        if owners.last() != pk@ {
            if r.contains(pk@) {
                let j = choose|j: int| 0 <= j < r.len() && r[j] == pk@;
                if j < rest.len() {
                    assert(rest[j] == pk@);
                }
            }
        }
        if x != pk@ {
            if owners.contains(x) {
                let j = choose|j: int| 0 <= j < owners.len() && owners[j] == x;
                if j < owners.len() - 1 {
                    assert(owners.drop_last()[j] == x);
                    assert(owners.drop_last().contains(x));
                    let k = choose|k: int| 0 <= k < rest.len() && rest[k] == x;
                    if owners.last() != pk@ {
                        assert(r[k] == x);
                    }
                } else {
                    assert(r[r.len() - 1] == x);
                }
            }
            if r.contains(x) {
                let j = choose|j: int| 0 <= j < r.len() && r[j] == x;
                if j < rest.len() {
                    assert(rest[j] == x);
                    assert(rest.contains(x));
                    let k = choose|k: int| 0 <= k < owners.drop_last().len() && owners.drop_last()[k] == x;
                    assert(owners[k] == x);
                } else {
                    assert(owners[owners.len() - 1] == x);
                }
            }
        }
    }
}

/// An error anywhere in a history is the error of every longer history.
pub proof fn lemma_history_error_persists(h: Seq<DirectoryUpdate>, i: int)
    requires
        0 <= i <= h.len(),
        history_owners(h.subrange(0, i)) is Err,
    ensures
        history_owners(h) == history_owners(h.subrange(0, i)),
    decreases h.len() - i,
{
    if i < h.len() {
        assert(h.subrange(0, i + 1).drop_last() =~= h.subrange(0, i));
        lemma_history_error_persists(h, i + 1);
    } else {
        assert(h.subrange(0, i) =~= h);
    }
}

/// The views of a list of keys.
pub open spec fn key_views(v: Seq<SigningPublic>) -> Seq<Seq<u8>> {
    v.map_values(|p: SigningPublic| p@)
}

impl DirectoryAnchor {
    /// The bytes covered by the anchor's signature.
    pub fn signed_value(&self) -> (v: Vec<u8>)
        requires
            seq_len_ok(encode_utf8(self.directory_id@).len()),
        ensures
            v@ == anchor_signed_value(*self),
    {
        let mut v: Vec<u8> = Vec::new();
        push_framed(&mut v, self.directory_id.as_str().as_bytes());
        push_u64_le(&mut v, self.last_header_height);
        push_framed32(&mut v, &self.last_header_hash.0);
        assert(v@ =~= anchor_signed_value(*self));
        v
    }

    /// Checks the anchor's signature against the directory key.
    pub fn verify(&self, pk: &SigningPublic) -> (ok: bool)
        requires
            seq_len_ok(encode_utf8(self.directory_id@).len()),
        ensures
            ok == spec_verify(pk@, anchor_signed_value(*self), self.signature@),
    {
        let v = self.signed_value();
        pk.verify(v.as_slice(), &self.signature)
    }
}

impl DirectoryHeader {
    /// The encoding of the header.
    pub fn encode(&self) -> (v: Vec<u8>)
        ensures
            v@ == header_encoding(*self),
    {
        let mut v: Vec<u8> = Vec::new();
        push_framed32(&mut v, &self.prev.0);
        push_framed32(&mut v, &self.smt_root.0);
        push_u64_le(&mut v, self.time_unix);
        assert(v@ =~= header_encoding(*self));
        v
    }

    /// The hash of the header.
    pub fn hash(&self) -> (h: crate::crypt::hash::Hash)
        ensures
            h@ == spec_digest(header_encoding(*self)),
    {
        let v = self.encode();
        crate::crypt::hash::Hash::digest(v.as_slice())
    }
}

impl DirectoryUpdateInner {
    /// Whether the action can be BCS-encoded.
    pub fn encodable(&self) -> (r: bool)
        ensures
            r == inner_encodable(*self),
    {
        match self {
            DirectoryUpdateInner::Update(b) => b.is_encodable(),
            _ => true,
        }
    }

    /// Appends the encoding of the action.
    pub fn encode_into(&self, dst: &mut Vec<u8>)
        requires
            inner_encodable(*self),
        ensures
            final(dst)@ == old(dst)@ + inner_encoding(*self),
    {
        match self {
            DirectoryUpdateInner::AddOwner(pk) => {
                dst.push(0u8);
                push_framed32(dst, &pk.0);
            },
            DirectoryUpdateInner::DelOwner(pk) => {
                dst.push(1u8);
                push_framed32(dst, &pk.0);
            },
            DirectoryUpdateInner::Update(b) => {
                dst.push(2u8);
                b.encode_into(dst);
            },
        }
        assert(dst@ =~= old(dst)@ + inner_encoding(*self));
    }
}

impl DirectoryUpdate {
    /// The bytes covered by the update's signature.
    pub fn signed_value(&self) -> (v: Vec<u8>)
        requires
            inner_encodable(self.update_type),
        ensures
            v@ == update_signed_value(*self),
    {
        let mut v: Vec<u8> = Vec::new();
        push_framed32(&mut v, &self.prev_update_hash.0);
        self.update_type.encode_into(&mut v);
        assert(v@ =~= update_signed_value(*self));
        v
    }

    /// The full encoding of the update.
    pub fn encode(&self) -> (v: Vec<u8>)
        requires
            inner_encodable(self.update_type),
        ensures
            v@ == update_encoding(*self),
    {
        let mut v = self.signed_value();
        let sig = self.signature.to_bytes();
        push_framed(&mut v, sig.as_slice());
        v
    }

    /// The hash of the update.
    pub fn hash(&self) -> (h: crate::crypt::hash::Hash)
        requires
            inner_encodable(self.update_type),
        ensures
            h@ == update_hash_of(*self),
    {
        let v = self.encode();
        crate::crypt::hash::Hash::digest(v.as_slice())
    }

    /// Checks the update's signature against a key.
    pub fn verify(&self, pk: &SigningPublic) -> (ok: bool)
        requires
            inner_encodable(self.update_type),
        ensures
            ok == update_signed_by(*self, pk@),
    {
        let v = self.signed_value();
        pk.verify(v.as_slice(), &self.signature)
    }

    /// Signs the update in place.
    pub fn sign(&mut self, sk: &SigningSecret)
        requires
            inner_encodable(old(self).update_type),
        ensures
            final(self).prev_update_hash == old(self).prev_update_hash,
            final(self).update_type == old(self).update_type,
            final(self).signature@ == ed25519_sign(sk@, update_signed_value(*old(self))),
    {
        let v = self.signed_value();
        self.signature = sk.sign(v.as_slice());
    }
}

/// Whether `owners` holds the key `pk`.
fn owners_contain(owners: &Vec<SigningPublic>, pk: &SigningPublic) -> (r: bool)
    ensures
        r == key_views(owners@).contains(pk@),
{
    let mut i: usize = 0;
    while i < owners.len()
        invariant
            0 <= i <= owners@.len(),
            forall|j: int| 0 <= j < i ==> owners@[j]@ != pk@,
        decreases owners@.len() - i,
    {
        if owners[i] == *pk {
            assert(key_views(owners@)[i as int] == pk@);
            return true;
        }
        i = i + 1;
    }
    proof {
        if key_views(owners@).contains(pk@) {
            let j = choose|j: int| 0 <= j < key_views(owners@).len() && key_views(owners@)[j] == pk@;
            assert(owners@[j]@ == pk@);
        }
    }
    false
}

/// `owners` without the key `pk`.
fn owners_without(owners: &Vec<SigningPublic>, pk: &SigningPublic) -> (r: Vec<SigningPublic>)
    ensures
        key_views(r@) == seq_without(key_views(owners@), pk@),
{
    let mut out: Vec<SigningPublic> = Vec::new();
    let mut i: usize = 0;
    while i < owners.len()
        invariant
            0 <= i <= owners@.len(),
            key_views(out@) == seq_without(key_views(owners@.subrange(0, i as int)), pk@),
        decreases owners@.len() - i,
    {
        let ghost before = out@;
        assert(key_views(owners@.subrange(0, i + 1)).drop_last() =~= key_views(
            owners@.subrange(0, i as int),
        ));
        if !(owners[i] == *pk) {
            out.push(owners[i]);
            assert(key_views(out@) =~= key_views(before).push(owners@[i as int]@));
        }
        i = i + 1;
    }
    assert(owners@.subrange(0, owners@.len() as int) =~= owners@);
    out
}

/// Whether some owner signed the update.
fn signed_by_some_owner(u: &DirectoryUpdate, owners: &Vec<SigningPublic>) -> (r: bool)
    requires
        inner_encodable(u.update_type),
    ensures
        r == exists|i: int|
            0 <= i < owners@.len() && update_signed_by(*u, #[trigger] key_views(owners@)[i]),
{
    let mut i: usize = 0;
    while i < owners.len()
        invariant
            0 <= i <= owners@.len(),
            inner_encodable(u.update_type),
            forall|j: int| 0 <= j < i ==> !update_signed_by(*u, #[trigger] key_views(owners@)[j]),
        decreases owners@.len() - i,
    {
        if u.verify(&owners[i]) {
            assert(update_signed_by(*u, key_views(owners@)[i as int]));
            return true;
        }
        i = i + 1;
    }
    false
}

/// Applies an authorized action to the owners, as `apply_owners` says.
pub(crate) fn apply_owner_update(owners: &mut Vec<SigningPublic>, t: &DirectoryUpdateInner)
    ensures
        key_views(final(owners)@) == apply_owners(key_views(old(owners)@), *t),
{
    match t {
        DirectoryUpdateInner::AddOwner(pk) => {
            if !owners_contain(owners, pk) {
                let ghost before = owners@;
                owners.push(*pk);
                assert(key_views(owners@) =~= key_views(before).push(pk@));
            }
        },
        DirectoryUpdateInner::DelOwner(pk) => {
            let next = owners_without(owners, pk);
            *owners = next;
        },
        DirectoryUpdateInner::Update(_) => {},
    }
}

/// Verification of the history of a directory key.
pub trait DirectoryHistoryIterExt {
    /// Whether every update of the history can be BCS-encoded, as hashing it requires.
    spec fn encodable_history(&self) -> bool;

    /// Checks that every update links to the one before (the first to the zero hash) and is
    /// signed by a current owner, applying ownership changes in order.
    fn verify_history(&self) -> Result<(), DirectoryHistoryError>
        requires
            self.encodable_history(),
    ;
}

impl DirectoryHistoryIterExt for Vec<DirectoryUpdate> {
    open spec fn encodable_history(&self) -> bool {
        history_encodable(self@)
    }

    fn verify_history(&self) -> (r: Result<(), DirectoryHistoryError>)
        ensures
            r == history_result(self@),
    {
        let mut owners: Vec<SigningPublic> = Vec::new();
        let zero = crate::crypt::hash::Hash::zero();
        let mut prev_hash: Option<crate::crypt::hash::Hash> = None;
        let mut i: usize = 0;
        assert(key_views(owners@) =~= Seq::<Seq<u8>>::empty());
        assert(self@.subrange(0, 0) =~= Seq::<DirectoryUpdate>::empty());
        while i < self.len()
            invariant
                0 <= i <= self@.len(),
                history_encodable(self@),
                zero@ == zero_hash(),
                history_owners(self@.subrange(0, i as int)) == Ok::<
                    Seq<Seq<u8>>,
                    DirectoryHistoryError,
                >(key_views(owners@)),
                i == 0 ==> prev_hash is None,
                i > 0 ==> prev_hash is Some && prev_hash->0@ == update_hash_of(self@[i - 1]),
            decreases self@.len() - i,
        {
            let u = &self[i];
            assert(inner_encodable(self@[i as int].update_type));
            let ghost pre = self@.subrange(0, i as int);
            let ghost cur = self@.subrange(0, i + 1);
            assert(cur.drop_last() =~= pre);
            assert(cur.last() == self@[i as int]);
            assert(i > 0 ==> pre.last() == self@[i - 1]);
            let linked = match prev_hash {
                Some(expected) => u.prev_update_hash == expected,
                None => u.prev_update_hash == zero,
            };
            if !linked {
                proof {
                    lemma_history_error_persists(self@, i + 1);
                }
                return Err(DirectoryHistoryError::InvalidPrevHash);
            }
            let (is_valid, can_verify) = if owners.len() == 0 {
                match &u.update_type {
                    DirectoryUpdateInner::AddOwner(owner_pk) => (u.verify(owner_pk), true),
                    _ => (false, false),
                }
            } else {
                (signed_by_some_owner(u, &owners), true)
            };
            if !is_valid {
                proof {
                    lemma_history_error_persists(self@, i + 1);
                }
                return Err(
                    if can_verify {
                        DirectoryHistoryError::InvalidSignature
                    } else {
                        DirectoryHistoryError::NoOwners
                    },
                );
            }
            apply_owner_update(&mut owners, &u.update_type);
            prev_hash = Some(u.hash());
            i = i + 1;
        }
        assert(self@.subrange(0, self@.len() as int) =~= self@);
        Ok(())
    }
}

} // verus!
