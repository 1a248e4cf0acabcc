//! The gateway server's rules: who may register a device and receive a token, and how stored
//! rows turn back into keys.

use vstd::prelude::*;

use crate::crypt::dh::DhPublic;
use crate::crypt::signing::{Signature, SigningSecret};
use crate::crypt::signing::spec_verify;
use crate::structs::certificate::{chain_verdict, device_hash, CertificateChain, DeviceCertificate};
use crate::structs::server::{
    medium_pk_signed_value, AuthToken, ServerDescriptor, ServerName, SignedMediumPk,
};
use crate::structs::timestamp::Timestamp;
use crate::structs::username::{UserDescriptor, UserName};

verus! {

/// The gateway's RPC service.
#[derive(Clone, Copy, Debug, Default)]
pub struct GatewayServer;

/// An error answered by the gateway.
#[derive(Clone, Copy, Debug, PartialEq, Eq, Structural)]
pub enum GatewayServerError {
    /// The request is not allowed.
    AccessDenied,
    /// The gateway failed; the request may succeed later.
    RetryLater,
}

/// Copies 32 bytes into an array; fails on any other length.
fn copy32(bytes: &[u8]) -> (r: Option<[u8; 32]>)
    ensures
        r is Some <==> bytes@.len() == 32,
        r matches Some(a) ==> a@ == bytes@,
{
    if bytes.len() != 32 {
        return None;
    }
    let mut buf = [0u8; 32];
    let mut i: usize = 0;
    while i < 32
        invariant
            0 <= i <= 32,
            bytes@.len() == 32,
            buf@.len() == 32,
            forall|j: int| 0 <= j < i ==> buf@[j] == bytes@[j],
        decreases 32 - i,
    {
        buf.set(i, bytes[i]);
        i = i + 1;
    }
    assert(buf@ =~= bytes@);
    Some(buf)
}

/// Copies 64 bytes into an array; fails on any other length.
fn copy64(bytes: &[u8]) -> (r: Option<[u8; 64]>)
    ensures
        r is Some <==> bytes@.len() == 64,
        r matches Some(a) ==> a@ == bytes@,
{
    if bytes.len() != 64 {
        return None;
    }
    let mut buf = [0u8; 64];
    let mut i: usize = 0;
    while i < 64
        invariant
            0 <= i <= 64,
            bytes@.len() == 64,
            buf@.len() == 64,
            forall|j: int| 0 <= j < i ==> buf@[j] == bytes@[j],
        decreases 64 - i,
    {
        buf.set(i, bytes[i]);
        i = i + 1;
    }
    assert(buf@ =~= bytes@);
    Some(buf)
}

/// A stored device hash; a row of another length is a fault of the gateway.
pub fn bytes_to_hash(bytes: &[u8]) -> (r: Result<crate::crypt::hash::Hash, GatewayServerError>)
    ensures
        r is Ok <==> bytes@.len() == 32,
        r matches Ok(h) ==> h@ == bytes@,
        r matches Err(e) ==> e == GatewayServerError::RetryLater,
{
    match copy32(bytes) {
        Some(buf) => Ok(crate::crypt::hash::Hash::from_bytes(buf)),
        None => Err(GatewayServerError::RetryLater),
    }
}

/// A stored medium-term public key; a row of another length is a fault of the gateway.
pub fn bytes_to_pk(bytes: &[u8]) -> (r: Result<DhPublic, GatewayServerError>)
    ensures
        r is Ok <==> bytes@.len() == 32,
        r matches Ok(pk) ==> pk@ == bytes@,
        r matches Err(e) ==> e == GatewayServerError::RetryLater,
{
    match copy32(bytes) {
        Some(buf) => Ok(DhPublic::from_bytes(buf)),
        None => Err(GatewayServerError::RetryLater),
    }
}

/// A stored signature; a row of another length is a fault of the gateway.
pub fn bytes_to_signature(bytes: &[u8]) -> (r: Result<Signature, GatewayServerError>)
    ensures
        r is Ok <==> bytes@.len() == 64,
        r matches Ok(s) ==> s@ == bytes@,
        r matches Err(e) ==> e == GatewayServerError::RetryLater,
{
    match copy64(bytes) {
        Some(buf) => Ok(Signature::from_bytes(buf)),
        None => Err(GatewayServerError::RetryLater),
    }
}

/// A stored creation time; a negative one is a fault of the gateway.
pub fn created_to_timestamp(created: i64) -> (r: Result<Timestamp, GatewayServerError>)
    ensures
        r is Ok <==> created >= 0,
        r matches Ok(t) ==> t.0 == created,
        r matches Err(e) ==> e == GatewayServerError::RetryLater,
{
    if created < 0 {
        Err(GatewayServerError::RetryLater)
    } else {
        Ok(Timestamp(created as u64))
    }
}

/// A creation time as it is stored; one past the largest signed 64-bit number cannot be.
pub fn timestamp_to_created(created: Timestamp) -> (r: Result<i64, GatewayServerError>)
    ensures
        r is Ok <==> created.0 <= i64::MAX,
        r matches Ok(c) ==> c == created.0,
        r matches Err(e) ==> e == GatewayServerError::RetryLater,
{
    if created.0 > i64::MAX as u64 {
        Err(GatewayServerError::RetryLater)
    } else {
        Ok(created.0 as i64)
    }
}

/// Whether a device may register with this gateway: the user is in the directory with this
/// gateway as its server, and the device's certificate chain verifies against the user's root
/// at time `now`.
pub open spec fn device_admitted(
    descriptor: Option<UserDescriptor>,
    own_name: Seq<char>,
    chain: CertificateChain,
    now: u64,
) -> bool {
    match descriptor {
        Some(d) => d.server_name@ == own_name && chain_verdict(
            chain.certs(),
            chain.this,
            d.root_cert_hash@,
            now,
        ) is Ok,
        None => false,
    }
}

/// Whether the chain that the gateway would store, the user's stored chain merged with the
/// presented one, verifies against the user's root at time `now`.
pub open spec fn merged_admitted(
    descriptor: Option<UserDescriptor>,
    merged: CertificateChain,
    now: u64,
) -> bool {
    match descriptor {
        Some(d) => chain_verdict(merged.certs(), merged.this, d.root_cert_hash@, now) is Ok,
        None => false,
    }
}

/// Decides a device's registration: refused unless the user is in the directory with this
/// gateway as its server, the device's chain verifies at time `now`, and so does `merged`, the
/// user's stored chain merged with the presented one (the chain the gateway then stores). An
/// admitted device keeps the token it already has, or gets `fresh`. Answers the token and
/// whether it is new.
pub fn device_auth_decision(
    descriptor: Option<UserDescriptor>,
    own_name: &ServerName,
    chain: &CertificateChain,
    merged: &CertificateChain,
    now: Timestamp,
    existing_token: Option<AuthToken>,
    fresh: AuthToken,
) -> (r: Result<(AuthToken, bool), GatewayServerError>)
    ensures
        r is Ok <==> device_admitted(descriptor, own_name@, *chain, now.0) && merged_admitted(
            descriptor,
            *merged,
            now.0,
        ),
        r matches Err(e) ==> e == GatewayServerError::AccessDenied,
        r matches Ok((t, created)) ==> match existing_token {
            Some(old) => t == old && !created,
            None => t == fresh && created,
        },
{
    let d = match descriptor {
        Some(d) => d,
        None => return Err(GatewayServerError::AccessDenied),
    };
    if !crate::bytes::str_eq(d.server_name.as_str(), own_name.as_str()) {
        return Err(GatewayServerError::AccessDenied);
    }
    if chain.verify_at(d.root_cert_hash, now).is_err() {
        return Err(GatewayServerError::AccessDenied);
    }
    if merged.verify_at(d.root_cert_hash, now).is_err() {
        return Err(GatewayServerError::AccessDenied);
    }
    match existing_token {
        Some(t) => Ok((t, false)),
        None => Ok((fresh, true)),
    }
}

/// The token a device is given: the one it already holds, or else `fresh`.
pub open spec fn issued_token(known: Option<AuthToken>, fresh: AuthToken) -> AuthToken {
    match known {
        Some(t) => t,
        None => fresh,
    }
}

/// The token the store holds for a user's device: that of the last entry for the pair.
pub open spec fn find_token(
    entries: Seq<(String, crate::crypt::hash::Hash, AuthToken)>,
    user: Seq<char>,
    device: Seq<u8>,
) -> Option<AuthToken>
    decreases entries.len(),
{
    if entries.len() == 0 {
        None
    } else if entries.last().0@ == user && entries.last().1@ == device {
        Some(entries.last().2)
    } else {
        find_token(entries.drop_last(), user, device)
    }
}

/// The tokens the gateway has handed out, one per user and device.
#[derive(Debug)]
pub struct AuthTokenStore {
    entries: Vec<(String, crate::crypt::hash::Hash, AuthToken)>,
}

impl AuthTokenStore {
    /// The entries of the store, oldest first.
    pub closed spec fn entries(&self) -> Seq<(String, crate::crypt::hash::Hash, AuthToken)> {
        self.entries@
    }

    /// The token held for a user's device, by the device's hash.
    pub open spec fn token(&self, user: Seq<char>, device: Seq<u8>) -> Option<AuthToken> {
        find_token(self.entries(), user, device)
    }

    /// A store with no tokens.
    pub fn new() -> (s: AuthTokenStore)
        ensures
            forall|u: Seq<char>, d: Seq<u8>| #[trigger] s.token(u, d) is None,
    {
        AuthTokenStore { entries: Vec::new() }
    }

    /// The token held for a user's device.
    pub fn get(&self, user: &UserName, device: &crate::crypt::hash::Hash) -> (r: Option<AuthToken>)
        ensures
            r == self.token(user@, device@),
    {
        let mut i: usize = self.entries.len();
        assert(self.entries@.subrange(0, i as int) =~= self.entries@);
        while i > 0
            invariant
                0 <= i <= self.entries@.len(),
                find_token(self.entries@, user@, device@) == find_token(
                    self.entries@.subrange(0, i as int),
                    user@,
                    device@,
                ),
            decreases i,
        {
            let ghost pre = self.entries@.subrange(0, i as int);
            assert(pre.drop_last() =~= self.entries@.subrange(0, i - 1));
            let e = &self.entries[i - 1];
            if crate::bytes::str_eq(e.0.as_str(), user.as_str()) && e.1 == *device {
                return Some(e.2);
            }
            i = i - 1;
        }
        assert(self.entries@.subrange(0, 0) =~= Seq::<(String, crate::crypt::hash::Hash, AuthToken)>::empty());
        None
    }

    /// The token for a user's device: the one already held, or `fresh`, which is then stored.
    /// Answers the token and whether it is new; other pairs keep their tokens.
    pub fn token_for(&mut self, user: &UserName, device: &crate::crypt::hash::Hash, fresh: AuthToken) -> (r: (
        AuthToken,
        bool,
    ))
        ensures
            r.1 == (old(self).token(user@, device@) is None),
            r.0 == issued_token(old(self).token(user@, device@), fresh),
            final(self).token(user@, device@) == Some(r.0),
            forall|u: Seq<char>, d: Seq<u8>|
                !(u == user@ && d == device@) ==> #[trigger] final(self).token(u, d) == old(
                    self,
                ).token(u, d),
    {
        match self.get(user, device) {
            Some(t) => (t, false),
            None => {
                let ghost before = self.entries@;
                self.entries.push((user.as_str().to_owned(), *device, fresh));
                proof {
                    assert(self.entries@.drop_last() =~= before);
                }
                (fresh, true)
            },
        }
    }
}

/// A device's registration against the token store: decided by `device_auth_decision` on the
/// token the store holds for the user's device (by the hash of the chain's last device), and,
/// where admitted, the token handed out is the one held, or `fresh`, now stored. A refused
/// device leaves the store as it was.
pub fn device_auth(
    store: &mut AuthTokenStore,
    user: &UserName,
    descriptor: Option<UserDescriptor>,
    own_name: &ServerName,
    chain: &CertificateChain,
    merged: &CertificateChain,
    now: Timestamp,
    fresh: AuthToken,
) -> (r: Result<(AuthToken, bool), GatewayServerError>)
    ensures
        r is Ok <==> device_admitted(descriptor, own_name@, *chain, now.0) && merged_admitted(
            descriptor,
            *merged,
            now.0,
        ),
        r matches Err(e) ==> e == GatewayServerError::AccessDenied && final(store).entries()
            == old(store).entries(),
        r matches Ok((t, created)) ==> {
            let device = device_hash(chain.this.pk@);
            &&& t == issued_token(old(store).token(user@, device), fresh)
            &&& created == (old(store).token(user@, device) is None)
            &&& final(store).token(user@, device) == Some(t)
            &&& forall|u: Seq<char>, d: Seq<u8>|
                !(u == user@ && d == device) ==> #[trigger] final(store).token(u, d) == old(
                    store,
                ).token(u, d)
        },
{
    let device = chain.last_device().pk.bcs_hash();
    let existing = store.get(user, &device);
    match device_auth_decision(descriptor, own_name, chain, merged, now, existing, fresh) {
        Err(e) => Err(e),
        Ok((t, created)) => {
            let (t2, _) = store.token_for(user, &device, t);
            Ok((t2, created))
        },
    }
}

/// A device keeps its token: once a token is handed out for a user's device, every later
/// registration of that device is handed the same token, whatever fresh token is on offer.
pub proof fn lemma_token_reused(known: Option<AuthToken>, first_fresh: AuthToken, later_fresh: AuthToken)
    ensures
        issued_token(Some(issued_token(known, first_fresh)), later_fresh) == issued_token(
            known,
            first_fresh,
        ),
{
}

/// The position of the first certificate in `certs` whose device key hashes to `h`, if any.
pub open spec fn first_with_hash(certs: Seq<DeviceCertificate>, h: Seq<u8>) -> Option<int>
    decreases certs.len(),
{
    if certs.len() == 0 {
        None
    } else {
        match first_with_hash(certs.drop_last(), h) {
            Some(i) => Some(i),
            None => if device_hash(certs.last().pk@) == h {
                Some(certs.len() - 1)
            } else {
                None
            },
        }
    }
}

/// `first_with_hash` finds the first certificate whose device key hashes to `h`: none earlier
/// does, and there is none exactly when no certificate's key does.
pub proof fn lemma_first_with_hash(certs: Seq<DeviceCertificate>, h: Seq<u8>)
    ensures
        first_with_hash(certs, h) matches Some(i) ==> 0 <= i < certs.len() && device_hash(
            certs[i].pk@,
        ) == h && forall|j: int| 0 <= j < i ==> device_hash(#[trigger] certs[j].pk@) != h,
        first_with_hash(certs, h) is None <==> forall|j: int|
            0 <= j < certs.len() ==> device_hash(#[trigger] certs[j].pk@) != h,
    decreases certs.len(),
{
    if certs.len() > 0 {
        let pre = certs.drop_last();
        lemma_first_with_hash(pre, h);
        assert forall|j: int| 0 <= j < pre.len() implies #[trigger] pre[j] == certs[j] by {}
        if first_with_hash(pre, h) is None {
            if device_hash(certs.last().pk@) != h {
                assert forall|j: int| 0 <= j < certs.len() implies device_hash(#[trigger] certs[j].pk@)
                    != h by {
                    if j < pre.len() {
                        assert(certs[j] == pre[j]);
                    }
                }
            } else {
                assert forall|j: int| 0 <= j < certs.len() - 1 implies device_hash(
                    #[trigger] certs[j].pk@,
                ) != h by {
                    assert(certs[j] == pre[j]);
                }
            }
        } else {
            let i = first_with_hash(pre, h)->0;
            assert(certs[i] == pre[i]);
            assert forall|j: int| 0 <= j < i implies device_hash(#[trigger] certs[j].pk@) != h by {
                assert(certs[j] == pre[j]);
            }
        }
    }
}

/// What storing a device's medium-term key gives: refused unless the device, found by its
/// hash in the user's chain, signed the key; a fault where the creation time cannot be stored;
/// else the creation time as it is stored.
pub open spec fn medium_pk_verdict(
    certs: Seq<DeviceCertificate>,
    h: Seq<u8>,
    medium_pk: SignedMediumPk,
) -> Result<i64, GatewayServerError> {
    match first_with_hash(certs, h) {
        None => Err(GatewayServerError::AccessDenied),
        Some(i) => if !spec_verify(
            certs[i].pk@,
            medium_pk_signed_value(medium_pk),
            medium_pk.signature@,
        ) {
            Err(GatewayServerError::AccessDenied)
        } else if medium_pk.created.0 > i64::MAX {
            Err(GatewayServerError::RetryLater)
        } else {
            Ok(medium_pk.created.0 as i64)
        },
    }
}

/// Decides whether a device, known by its hash, may store a medium-term key: the device must be
/// in the user's chain and must have signed the key. Answers the creation time to store.
pub fn medium_pk_decision(
    chain: &CertificateChain,
    device: &crate::crypt::hash::Hash,
    medium_pk: &SignedMediumPk,
) -> (r: Result<i64, GatewayServerError>)
    ensures
        r == medium_pk_verdict(chain.certs(), device@, *medium_pk),
{
    let certs = chain.iter();
    let mut i: usize = 0;
    let mut found: Option<usize> = None;
    while i < certs.len() && found.is_none()
        invariant
            0 <= i <= certs@.len(),
            certs@ == chain.certs(),
            found is None ==> first_with_hash(certs@.subrange(0, i as int), device@) is None,
            found matches Some(k) ==> first_with_hash(certs@, device@) == Some(k as int) && k
                < certs@.len(),
        decreases certs@.len() - i,
    {
        proof {
            assert(certs@.subrange(0, i as int + 1).drop_last() =~= certs@.subrange(0, i as int));
        }
        let h = certs[i].pk.bcs_hash();
        if h == *device {
            proof {
                lemma_first_with_hash_prefix(certs@, i as int + 1, device@);
            }
            found = Some(i);
        }
        i = i + 1;
    }
    proof {
        if found is None {
            assert(certs@.subrange(0, certs@.len() as int) =~= certs@);
        }
    }
    match found {
        None => Err(GatewayServerError::AccessDenied),
        Some(k) => {
            let pk = certs[k].pk.signing_public();
            if !medium_pk.verify(&pk) {
                Err(GatewayServerError::AccessDenied)
            } else {
                timestamp_to_created(medium_pk.created)
            }
        },
    }
}

/// A match found in a prefix is the first match in the whole list.
proof fn lemma_first_with_hash_prefix(certs: Seq<DeviceCertificate>, n: int, h: Seq<u8>)
    requires
        0 <= n <= certs.len(),
        first_with_hash(certs.subrange(0, n), h) is Some,
    ensures
        first_with_hash(certs, h) == first_with_hash(certs.subrange(0, n), h),
    decreases certs.len() - n,
{
    if n < certs.len() {
        assert(certs.subrange(0, n + 1).drop_last() =~= certs.subrange(0, n));
        lemma_first_with_hash_prefix(certs, n + 1, h);
    } else {
        assert(certs.subrange(0, n) =~= certs);
    }
}

/// The gateway's signing key, from the 32 raw bytes of its key file; a file of another
/// length is refused.
pub fn signing_secret_from_bytes(data: &[u8]) -> (r: Option<SigningSecret>)
    ensures
        r is Some <==> data@.len() == 32,
        r matches Some(sk) ==> sk@ == data@,
{
    match copy32(data) {
        Some(buf) => Some(SigningSecret::from_bytes(buf)),
        None => None,
    }
}

/// Whether two server descriptors are the same: the same URLs in the same order and the same
/// key.
pub open spec fn same_descriptor(a: ServerDescriptor, b: ServerDescriptor) -> bool {
    &&& a.public_urls@.len() == b.public_urls@.len()
    &&& forall|i: int| 0 <= i < a.public_urls@.len() ==> #[trigger] a.public_urls@[i]@ == b.public_urls@[i]@
    &&& a.server_pk@ == b.server_pk@
}

/// Whether two server descriptors are the same.
pub fn descriptors_equal(a: &ServerDescriptor, b: &ServerDescriptor) -> (r: bool)
    ensures
        r == same_descriptor(*a, *b),
{
    if a.public_urls.len() != b.public_urls.len() {
        return false;
    }
    let mut i: usize = 0;
    while i < a.public_urls.len()
        invariant
            a.public_urls@.len() == b.public_urls@.len(),
            0 <= i <= a.public_urls@.len(),
            forall|j: int| 0 <= j < i ==> #[trigger] a.public_urls@[j]@ == b.public_urls@[j]@,
        decreases a.public_urls@.len() - i,
    {
        if !crate::bytes::str_eq(a.public_urls[i].as_str(), b.public_urls[i].as_str()) {
            return false;
        }
        i = i + 1;
    }
    crate::crypt::hash::bytes32_eq(&a.server_pk.0, &b.server_pk.0)
}

/// What the gateway does about its name at start-up.
#[derive(Clone, Copy, Debug, PartialEq, Eq, Structural)]
pub enum NameAction {
    /// The directory already holds this gateway's descriptor.
    AlreadyRegistered,
    /// The name is free: take ownership and publish the descriptor.
    Register,
}

/// Why the gateway refuses to start with its name.
#[derive(Clone, Copy, Debug, PartialEq, Eq, Structural)]
pub enum NameError {
    /// The directory holds another descriptor under the gateway's name.
    DescriptorMismatch,
}

/// Decides about the gateway's name from what the directory holds under it: nothing means
/// register, the same descriptor means done, another one is refused.
pub fn name_registration(existing: &Option<ServerDescriptor>, wanted: &ServerDescriptor) -> (r:
    Result<NameAction, NameError>)
    ensures
        match *existing {
            None => r == Ok::<NameAction, NameError>(NameAction::Register),
            Some(d) => if same_descriptor(d, *wanted) {
                r == Ok::<NameAction, NameError>(NameAction::AlreadyRegistered)
            } else {
                r == Err::<NameAction, NameError>(NameError::DescriptorMismatch)
            },
        },
{
    match existing {
        None => Ok(NameAction::Register),
        Some(d) => if descriptors_equal(d, wanted) {
            Ok(NameAction::AlreadyRegistered)
        } else {
            Err(NameError::DescriptorMismatch)
        },
    }
}

} // verus!
