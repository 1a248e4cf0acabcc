use vstd::bytes::{spec_u64_to_le_bytes, u64_to_le_bytes};
use vstd::prelude::*;

use crate::bytes::{framed, push_bytes, push_framed32};
use crate::crypt::hash::spec_digest;
use crate::crypt::signing::{
    ed25519_public, ed25519_sign, spec_verify, Signature, SigningPublic, SigningSecret,
};
use crate::structs::timestamp::{unix_time, Timestamp};

verus! {

/// Fills an array of `N` bytes with `RngCore::fill_bytes` of `rand::thread_rng`, the
/// thread-local generator seeded from the operating system. Nothing is stated of the bytes.
#[verifier::external_body]
pub(crate) fn random_array<const N: usize>() -> (out: [u8; N]) {
    let mut out = [0u8; N];
    rand::RngCore::fill_bytes(&mut rand::thread_rng(), &mut out);
    out
}

/// The identity public key of a device, that never changes throughout the lifetime of the device.
#[derive(Clone, Copy, Debug)]
pub struct DevicePublic(pub SigningPublic);

/// The secret key material for a device.
#[derive(Clone)]
pub struct DeviceSecret(pub SigningSecret);

impl View for DevicePublic {
    type V = Seq<u8>;

    open spec fn view(&self) -> Seq<u8> {
        self.0@
    }
}

impl View for DeviceSecret {
    type V = Seq<u8>;

    open spec fn view(&self) -> Seq<u8> {
        self.0@
    }
}

/// The certificate of a particular device, which includes the public key and the capabilities
/// of the device.
#[derive(Clone, Copy, Debug)]
pub struct DeviceCertificate {
    pub pk: DevicePublic,
    pub expiry: Timestamp,
    pub can_issue: bool,
    pub signature: Signature,
}

/// A chain of certificates that authenticates a single device public key.
#[derive(Clone, Debug)]
pub struct CertificateChain {
    pub ancestors: Vec<DeviceCertificate>,
    pub this: DeviceCertificate,
}

/// The bytes a device certificate's signature covers: the BCS encoding of the public key, the
/// expiry and the issue right.
pub open spec fn cert_signed_value(pk: Seq<u8>, expiry: u64, can_issue: bool) -> Seq<u8> {
    framed(pk) + spec_u64_to_le_bytes(expiry) + seq![if can_issue { 1u8 } else { 0u8 }]
}

/// The signed bytes of a certificate.
pub open spec fn signed_bytes_of(c: DeviceCertificate) -> Seq<u8> {
    cert_signed_value(c.pk@, c.expiry.0, c.can_issue)
}

/// Whether `c` carries a valid signature by the key `pk`.
pub open spec fn signed_by(c: DeviceCertificate, pk: Seq<u8>) -> bool {
    spec_verify(pk, signed_bytes_of(c), c.signature@)
}

/// The hash that identifies a device: the digest of its public key's BCS encoding.
pub open spec fn device_hash(pk: Seq<u8>) -> Seq<u8> {
    spec_digest(framed(pk))
}

/// Whether two certificates are equal, field by field.
pub open spec fn cert_same(a: DeviceCertificate, b: DeviceCertificate) -> bool {
    &&& a.pk@ == b.pk@
    &&& a.expiry == b.expiry
    &&& a.can_issue == b.can_issue
    &&& a.signature@ == b.signature@
}

impl DevicePublic {
    /// The signing public key of the device.
    pub fn signing_public(&self) -> (pk: SigningPublic)
        ensures
            pk@ == self@,
    {
        self.0
    }

    /// The device hash: the digest of the public key's BCS encoding.
    pub fn bcs_hash(&self) -> (h: crate::crypt::hash::Hash)
        ensures
            h@ == device_hash(self@),
    {
        let mut v: Vec<u8> = Vec::new();
        push_framed32(&mut v, &self.0.0);
        assert(v@ =~= framed(self@));
        crate::crypt::hash::Hash::digest(v.as_slice())
    }
}

impl DeviceSecret {
    /// Generate a new random device secret.
    pub fn random() -> (s: DeviceSecret) {
        DeviceSecret(SigningSecret::from_bytes(random_array::<32>()))
    }

    /// Return the public identity for this device.
    pub fn public(&self) -> (pk: DevicePublic)
        ensures
            pk@ == ed25519_public(self@),
    {
        DevicePublic(self.0.public_key())
    }

    /// Create a self-signed certificate for this device.
    pub fn self_signed(&self, expiry: Timestamp, can_issue: bool) -> (cert: DeviceCertificate)
        ensures
            cert.pk@ == ed25519_public(self@),
            cert.expiry == expiry,
            cert.can_issue == can_issue,
            cert.signature@ == ed25519_sign(self@, signed_bytes_of(cert)),
    {
        let pk = self.public();
        let mut cert = DeviceCertificate {
            pk,
            expiry,
            can_issue,
            signature: Signature::from_bytes([0u8; 64]),
        };
        cert.sign(&self.0);
        cert
    }

    /// Issue a certificate for another device public key.
    pub fn issue_certificate(
        &self,
        subject: &DevicePublic,
        expiry: Timestamp,
        can_issue: bool,
    ) -> (cert: DeviceCertificate)
        ensures
            cert.pk@ == subject@,
            cert.expiry == expiry,
            cert.can_issue == can_issue,
            cert.signature@ == ed25519_sign(self@, signed_bytes_of(cert)),
    {
        let mut cert = DeviceCertificate {
            pk: *subject,
            expiry,
            can_issue,
            signature: Signature::from_bytes([0u8; 64]),
        };
        cert.sign(&self.0);
        cert
    }
}

impl DeviceCertificate {
    /// The bytes covered by the signature.
    pub fn signed_value(&self) -> (v: Vec<u8>)
        ensures
            v@ == signed_bytes_of(*self),
    {
        let mut v: Vec<u8> = Vec::new();
        push_framed32(&mut v, &self.pk.0.0);
        let le = u64_to_le_bytes(self.expiry.0);
        push_bytes(&mut v, le.as_slice());
        if self.can_issue {
            v.push(1u8);
        } else {
            v.push(0u8);
        }
        assert(v@ =~= signed_bytes_of(*self));
        v
    }

    /// Signs the certificate in place with the given secret key.
    pub fn sign(&mut self, sk: &SigningSecret)
        ensures
            final(self).pk == old(self).pk,
            final(self).expiry == old(self).expiry,
            final(self).can_issue == old(self).can_issue,
            final(self).signature@ == ed25519_sign(sk@, signed_bytes_of(*old(self))),
    {
        let value = self.signed_value();
        self.signature = sk.sign(value.as_slice());
    }

    /// Checks the certificate's signature against a public key.
    pub fn verify(&self, pk: &SigningPublic) -> (ok: bool)
        ensures
            ok == signed_by(*self, pk@),
    {
        let value = self.signed_value();
        pk.verify(value.as_slice(), &self.signature)
    }

    /// Field-by-field equality.
    pub fn same_as(&self, other: &DeviceCertificate) -> (r: bool)
        ensures
            r == cert_same(*self, *other),
    {
        self.pk.0 == other.pk.0 && self.expiry.0 == other.expiry.0 && self.can_issue
            == other.can_issue && self.signature == other.signature
    }
}


impl PartialEq for DeviceCertificate {
    fn eq(&self, other: &Self) -> (r: bool) {
        self.same_as(other)
    }
}

impl Eq for DeviceCertificate {}

impl vstd::std_specs::cmp::PartialEqSpecImpl for DeviceCertificate {
    open spec fn obeys_eq_spec() -> bool {
        true
    }

    open spec fn eq_spec(&self, other: &DeviceCertificate) -> bool {
        cert_same(*self, *other)
    }
}

/// Why a certificate chain failed to verify.
#[derive(Clone, Copy, Debug, PartialEq, Eq, Structural)]
pub enum ChainError {
    /// A certificate for the trusted root key is not signed by that key.
    InvalidRootSignature,
    /// No unexpired certificate for the trusted root key is in the chain.
    NoTrustedRoot,
    /// Some certificate is not signed by any trusted issuer.
    UnverifiableEntries,
    /// The chain does not authenticate its last device.
    LeafNotAuthenticated,
}

/// Whether a certificate is for the trusted root key, identified by its hash.
pub open spec fn is_root(c: DeviceCertificate, root: Seq<u8>) -> bool {
    device_hash(c.pk@) == root
}

/// Whether a certificate has not expired at time `now`.
pub open spec fn is_live(c: DeviceCertificate, now: u64) -> bool {
    c.expiry.0 > now
}

/// A path of issuers through `certs`, by index: it starts at an unexpired root certificate with
/// the right to issue, and each later certificate is an unexpired non-root certificate with the
/// right to issue, signed by the key of the one before.
pub open spec fn is_issuer_path(
    certs: Seq<DeviceCertificate>,
    root: Seq<u8>,
    now: u64,
    path: Seq<int>,
) -> bool {
    &&& path.len() > 0
    &&& forall|j: int| 0 <= j < path.len() ==> 0 <= #[trigger] path[j] < certs.len()
    &&& is_root(certs[path[0]], root)
    &&& is_live(certs[path[0]], now)
    &&& certs[path[0]].can_issue
    &&& forall|j: int|
        0 < j < path.len() ==> {
            &&& !is_root(certs[#[trigger] path[j]], root)
            &&& is_live(certs[path[j]], now)
            &&& certs[path[j]].can_issue
            &&& signed_by(certs[path[j]], certs[path[j - 1]].pk@)
        }
}

/// Whether `pk` is a trusted issuer key: the key of the last certificate of an issuer path.
pub open spec fn is_trusted_signer(
    certs: Seq<DeviceCertificate>,
    root: Seq<u8>,
    now: u64,
    pk: Seq<u8>,
) -> bool {
    exists|path: Seq<int>|
        #[trigger] is_issuer_path(certs, root, now, path) && certs[path.last()].pk@ == pk
}

/// Whether a certificate is signed by some trusted issuer key.
pub open spec fn is_endorsed(
    certs: Seq<DeviceCertificate>,
    root: Seq<u8>,
    now: u64,
    c: DeviceCertificate,
) -> bool {
    exists|pk: Seq<u8>| #[trigger] is_trusted_signer(certs, root, now, pk) && signed_by(c, pk)
}

/// What verifying the certificates `certs`, whose last entry is `this`, against the root hash
/// `root` at time `now` gives: every root certificate must be self-signed, some root
/// certificate must be unexpired, every other certificate must be signed by a trusted issuer,
/// and `this` must be unexpired.
pub open spec fn chain_verdict(
    certs: Seq<DeviceCertificate>,
    this: DeviceCertificate,
    root: Seq<u8>,
    now: u64,
) -> Result<(), ChainError> {
    if exists|i: int|
        0 <= i < certs.len() && is_root(#[trigger] certs[i], root) && !signed_by(
            certs[i],
            certs[i].pk@,
        ) {
        Err(ChainError::InvalidRootSignature)
    } else if !(exists|i: int|
        0 <= i < certs.len() && is_root(#[trigger] certs[i], root) && is_live(certs[i], now)) {
        Err(ChainError::NoTrustedRoot)
    } else if exists|i: int|
        0 <= i < certs.len() && !is_root(#[trigger] certs[i], root) && !is_endorsed(
            certs,
            root,
            now,
            certs[i],
        ) {
        Err(ChainError::UnverifiableEntries)
    } else if !is_live(this, now) {
        Err(ChainError::LeafNotAuthenticated)
    } else {
        Ok(())
    }
}

/// Whether every certificate of `a` is also in `b`.
pub open spec fn certs_within(a: Seq<DeviceCertificate>, b: Seq<DeviceCertificate>) -> bool {
    forall|i: int| 0 <= i < a.len() ==> b.contains(#[trigger] a[i])
}

/// An issuer path through `a` leads to a trusted signer of `b` where `b` holds every
/// certificate of `a`.
proof fn lemma_signer_within(
    a: Seq<DeviceCertificate>,
    b: Seq<DeviceCertificate>,
    root: Seq<u8>,
    now: u64,
    pk: Seq<u8>,
)
    requires
        certs_within(a, b),
        is_trusted_signer(a, root, now, pk),
    ensures
        is_trusted_signer(b, root, now, pk),
{
    let path = choose|path: Seq<int>|
        #[trigger] is_issuer_path(a, root, now, path) && a[path.last()].pk@ == pk;
    let path2 = Seq::new(
        path.len(),
        |j: int| choose|k: int| 0 <= k < b.len() && b[k] == a[path[j]],
    );
    assert forall|j: int| 0 <= j < path.len() implies 0 <= #[trigger] path2[j] < b.len() && b[path2[j]]
        == a[path[j]] by {
        assert(0 <= path[j] < a.len());
        assert(b.contains(a[path[j]]));
    }
    assert forall|j: int| 0 < j < path2.len() implies {
        &&& !is_root(b[#[trigger] path2[j]], root)
        &&& is_live(b[path2[j]], now)
        &&& b[path2[j]].can_issue
        &&& signed_by(b[path2[j]], b[path2[j - 1]].pk@)
    } by {
        assert(0 <= path2[j] < b.len() && b[path2[j]] == a[path[j]]);
        assert(0 <= path2[j - 1] < b.len() && b[path2[j - 1]] == a[path[j - 1]]);
    }
    assert(0 <= path2[0] < b.len() && b[path2[0]] == a[path[0]]);
    assert(0 <= path2[path2.len() - 1] < b.len() && b[path2[path2.len() - 1]] == a[path[path.len() - 1]]);
    assert(is_issuer_path(b, root, now, path2));
}

/// A certificate endorsed within `a` is endorsed within `b` where `b` holds every certificate
/// of `a`.
proof fn lemma_endorsed_within(
    a: Seq<DeviceCertificate>,
    b: Seq<DeviceCertificate>,
    root: Seq<u8>,
    now: u64,
    c: DeviceCertificate,
)
    requires
        certs_within(a, b),
        is_endorsed(a, root, now, c),
    ensures
        is_endorsed(b, root, now, c),
{
    let pk = choose|pk: Seq<u8>| #[trigger] is_trusted_signer(a, root, now, pk) && signed_by(c, pk);
    lemma_signer_within(a, b, root, now, pk);
}

/// The verdict on a chain depends only on which certificates it holds, not on their order or
/// on repeats: two lists that hold the same certificates get the same verdict.
pub proof fn lemma_chain_verdict_same_certs(
    a: Seq<DeviceCertificate>,
    b: Seq<DeviceCertificate>,
    this: DeviceCertificate,
    root: Seq<u8>,
    now: u64,
)
    requires
        certs_within(a, b),
        certs_within(b, a),
    ensures
        chain_verdict(a, this, root, now) == chain_verdict(b, this, root, now),
{
    assert forall|x: DeviceCertificate| a.contains(x) <==> b.contains(x) by {
        if a.contains(x) {
            let i = choose|i: int| 0 <= i < a.len() && a[i] == x;
            assert(b.contains(a[i]));
        }
        if b.contains(x) {
            let i = choose|i: int| 0 <= i < b.len() && b[i] == x;
            assert(a.contains(b[i]));
        }
    }
    assert forall|x: DeviceCertificate| is_endorsed(a, root, now, x) <==> is_endorsed(b, root, now, x) by {
        if is_endorsed(a, root, now, x) {
            lemma_endorsed_within(a, b, root, now, x);
        }
        if is_endorsed(b, root, now, x) {
            lemma_endorsed_within(b, a, root, now, x);
        }
    }
    let bad_root_a = exists|i: int|
        0 <= i < a.len() && is_root(#[trigger] a[i], root) && !signed_by(a[i], a[i].pk@);
    let bad_root_b = exists|i: int|
        0 <= i < b.len() && is_root(#[trigger] b[i], root) && !signed_by(b[i], b[i].pk@);
    if bad_root_a {
        let i = choose|i: int|
            0 <= i < a.len() && is_root(#[trigger] a[i], root) && !signed_by(a[i], a[i].pk@);
        assert(b.contains(a[i]));
    }
    if bad_root_b {
        let i = choose|i: int|
            0 <= i < b.len() && is_root(#[trigger] b[i], root) && !signed_by(b[i], b[i].pk@);
        assert(a.contains(b[i]));
    }
    let live_a = exists|i: int| 0 <= i < a.len() && is_root(#[trigger] a[i], root) && is_live(a[i], now);
    let live_b = exists|i: int| 0 <= i < b.len() && is_root(#[trigger] b[i], root) && is_live(b[i], now);
    if live_a {
        let i = choose|i: int| 0 <= i < a.len() && is_root(#[trigger] a[i], root) && is_live(a[i], now);
        assert(b.contains(a[i]));
    }
    if live_b {
        let i = choose|i: int| 0 <= i < b.len() && is_root(#[trigger] b[i], root) && is_live(b[i], now);
        assert(a.contains(b[i]));
    }
    let unv_a = exists|i: int|
        0 <= i < a.len() && !is_root(#[trigger] a[i], root) && !is_endorsed(a, root, now, a[i]);
    let unv_b = exists|i: int|
        0 <= i < b.len() && !is_root(#[trigger] b[i], root) && !is_endorsed(b, root, now, b[i]);
    if unv_a {
        let i = choose|i: int|
            0 <= i < a.len() && !is_root(#[trigger] a[i], root) && !is_endorsed(a, root, now, a[i]);
        assert(b.contains(a[i]));
        assert(!is_endorsed(b, root, now, a[i]));
    }
    if unv_b {
        let i = choose|i: int|
            0 <= i < b.len() && !is_root(#[trigger] b[i], root) && !is_endorsed(b, root, now, b[i]);
        assert(a.contains(b[i]));
        assert(!is_endorsed(a, root, now, b[i]));
    }
}

/// The number of `false` entries.
pub open spec fn count_pending(s: Seq<bool>) -> nat
    decreases s.len(),
{
    if s.len() == 0 {
        0
    } else {
        count_pending(s.drop_last()) + if s.last() {
            0nat
        } else {
            1nat
        }
    }
}

proof fn lemma_count_pending_zero(s: Seq<bool>)
    ensures
        count_pending(s) == 0 <==> forall|j: int| 0 <= j < s.len() ==> #[trigger] s[j],
    decreases s.len(),
{
    if s.len() > 0 {
        lemma_count_pending_zero(s.drop_last());
        if count_pending(s) == 0 {
            assert forall|j: int| 0 <= j < s.len() implies #[trigger] s[j] by {
                if j < s.len() - 1 {
                    assert(s.drop_last()[j] == s[j]);
                }
            }
        }
        if forall|j: int| 0 <= j < s.len() ==> #[trigger] s[j] {
            assert forall|j: int| 0 <= j < s.drop_last().len() implies #[trigger] s.drop_last()[j] by {
                assert(s[j]);
            }
            assert(s[s.len() - 1]);
        }
    }
}

proof fn lemma_count_pending_update(s: Seq<bool>, i: int)
    requires
        0 <= i < s.len(),
        !s[i],
    ensures
        count_pending(s.update(i, true)) + 1 == count_pending(s),
    decreases s.len(),
{
    let t = s.update(i, true);
    if i == s.len() - 1 {
        assert(t.drop_last() =~= s.drop_last());
    } else {
        assert(t.drop_last() =~= s.drop_last().update(i, true));
        lemma_count_pending_update(s.drop_last(), i);
    }
}

/// At a fixed point of issuer discovery, every trusted issuer key has been discovered.
proof fn lemma_trusted_signers_found(
    certs: Seq<DeviceCertificate>,
    root: Seq<u8>,
    now: u64,
    accepted: Seq<bool>,
    signers: Seq<Seq<u8>>,
    path: Seq<int>,
)
    requires
        accepted.len() == certs.len(),
        forall|j: int|
            0 <= j < certs.len() && !#[trigger] accepted[j] ==> forall|k: int|
                0 <= k < signers.len() ==> !signed_by(certs[j], #[trigger] signers[k]),
        forall|j: int|
            0 <= j < certs.len() && #[trigger] accepted[j] && is_live(certs[j], now)
                && certs[j].can_issue ==> exists|k: int|
                0 <= k < signers.len() && #[trigger] signers[k] == certs[j].pk@,
        forall|j: int| 0 <= j < certs.len() && is_root(#[trigger] certs[j], root) ==> accepted[j],
        is_issuer_path(certs, root, now, path),
    ensures
        exists|k: int| 0 <= k < signers.len() && #[trigger] signers[k] == certs[path.last()].pk@,
    decreases path.len(),
{
    let last = path.last();
    assert(0 <= path[path.len() - 1] < certs.len());
    if path.len() == 1 {
        assert(is_root(certs[path[0]], root));
        assert(accepted[last]);
    } else {
        let prefix = path.drop_last();
        assert forall|j: int| 0 <= j < prefix.len() implies 0 <= #[trigger] prefix[j] < certs.len() by {
            assert(prefix[j] == path[j]);
        }
        assert forall|j: int| 0 < j < prefix.len() implies {
            &&& !is_root(certs[#[trigger] prefix[j]], root)
            &&& is_live(certs[prefix[j]], now)
            &&& certs[prefix[j]].can_issue
            &&& signed_by(certs[prefix[j]], certs[prefix[j - 1]].pk@)
        } by {
            assert(prefix[j] == path[j]);
            assert(prefix[j - 1] == path[j - 1]);
        }
        assert(is_issuer_path(certs, root, now, prefix));
        lemma_trusted_signers_found(certs, root, now, accepted, signers, prefix);
        let k = choose|k: int|
            0 <= k < signers.len() && #[trigger] signers[k] == certs[prefix.last()].pk@;
        assert(prefix.last() == path[path.len() - 2]);
        let jj = path.len() - 1;
        assert(signed_by(certs[path[jj]], certs[path[jj - 1]].pk@));
        assert(signed_by(certs[last], signers[k]));
        assert(accepted[last]);
    }
}

impl CertificateChain {
    /// All certificates of the chain, ancestors first and the authenticated device last.
    pub open spec fn certs(&self) -> Seq<DeviceCertificate> {
        self.ancestors@.push(self.this)
    }

    /// Return the device certificate authenticated by this chain.
    pub fn last_device(&self) -> (c: &DeviceCertificate)
        ensures
            *c == self.this,
    {
        &self.this
    }

    /// All certificates of the chain, ancestors first and the authenticated device last.
    pub fn iter(&self) -> (v: Vec<DeviceCertificate>)
        ensures
            v@ == self.certs(),
    {
        let mut v: Vec<DeviceCertificate> = Vec::new();
        let mut i: usize = 0;
        while i < self.ancestors.len()
            invariant
                0 <= i <= self.ancestors@.len(),
                v@ == self.ancestors@.subrange(0, i as int),
            decreases self.ancestors@.len() - i,
        {
            v.push(self.ancestors[i]);
            i = i + 1;
            assert(v@ =~= self.ancestors@.subrange(0, i as int));
        }
        v.push(self.this);
        assert(v@ =~= self.certs());
        v
    }

    /// Verify the chain against a trusted root public key hash, at the current time.
    pub fn verify(&self, trusted_pk_hash: crate::crypt::hash::Hash) -> (r: Result<(), ChainError>)
        ensures
            exists|now: u64| r == chain_verdict(self.certs(), self.this, trusted_pk_hash@, now),
    {
        let now = unix_time();
        self.verify_at(trusted_pk_hash, now)
    }

    /// Verify the chain against a trusted root public key hash, at time `now`.
    pub fn verify_at(&self, trusted_pk_hash: crate::crypt::hash::Hash, now: Timestamp) -> (r: Result<
        (),
        ChainError,
    >)
        ensures
            r == chain_verdict(self.certs(), self.this, trusted_pk_hash@, now.0),
    {
        let ghost root = trusted_pk_hash@;
        let ghost t = now.0;
        let certs = self.iter();
        let ghost cs = certs@;
        let n = certs.len();
        let mut root_flags: Vec<bool> = Vec::new();
        let mut signers: Vec<SigningPublic> = Vec::new();
        let ghost mut paths: Seq<Seq<int>> = Seq::empty();
        let mut root_found = false;
        let mut this_verified = false;
        let mut i: usize = 0;
        while i < n
            invariant
                n == cs.len(),
                certs@ == cs,
                cs == self.certs(),
                root == trusted_pk_hash@,
                t == now.0,
                0 <= i <= n,
                root_flags@.len() == i,
                forall|j: int| 0 <= j < i ==> #[trigger] root_flags@[j] == is_root(cs[j], root),
                forall|j: int|
                    0 <= j < i && is_root(#[trigger] cs[j], root) ==> signed_by(cs[j], cs[j].pk@),
                root_found == exists|j: int|
                    0 <= j < i && is_root(#[trigger] cs[j], root) && is_live(cs[j], t),
                paths.len() == signers@.len(),
                forall|k: int|
                    0 <= k < signers@.len() ==> is_issuer_path(cs, root, t, #[trigger] paths[k])
                        && cs[paths[k].last()].pk@ == signers@[k]@,
                forall|j: int|
                    0 <= j < i && is_root(#[trigger] cs[j], root) && is_live(cs[j], t)
                        && cs[j].can_issue ==> exists|k: int|
                        0 <= k < signers@.len() && #[trigger] signers@[k]@ == cs[j].pk@,
                this_verified == exists|j: int|
                    0 <= j < i && is_root(#[trigger] cs[j], root) && is_live(cs[j], t)
                        && cert_same(cs[j], self.this),
            decreases n - i,
        {
            let ghost old_signers = signers@;
            let c = certs[i];
            let h = c.pk.bcs_hash();
            let r = h == trusted_pk_hash;
            root_flags.push(r);
            if r {
                if !c.verify(&c.pk.0) {
                    assert(is_root(cs[i as int], root) && !signed_by(cs[i as int], cs[i as int].pk@));
                    return Err(ChainError::InvalidRootSignature);
                }
                if c.expiry.0 > now.0 {
                    root_found = true;
                    if c.can_issue {
                        proof {
                            let p = seq![i as int];
                            assert(p.last() == i as int);
                            assert(is_issuer_path(cs, root, t, p));
                            paths = paths.push(p);
                        }
                        signers.push(c.pk.0);
                        assert(signers@[signers@.len() - 1]@ == cs[i as int].pk@);
                    }
                    if c.same_as(&self.this) {
                        this_verified = true;
                    }
                }
            }
            proof {
                assert forall|j: int|
                    0 <= j < i + 1 && is_root(#[trigger] cs[j], root) && is_live(cs[j], t)
                        && cs[j].can_issue implies exists|k: int|
                    0 <= k < signers@.len() && #[trigger] signers@[k]@ == cs[j].pk@ by {
                    if j < i {
                        let k = choose|k: int|
                            0 <= k < old_signers.len() && #[trigger] old_signers[k]@ == cs[j].pk@;
                        assert(signers@[k] == old_signers[k]);
                    } else {
                        assert(signers@[signers@.len() - 1]@ == cs[j].pk@);
                    }
                }
            }
            i = i + 1;
        }
        if !root_found {
            return Err(ChainError::NoTrustedRoot);
        }
        let mut accepted: Vec<bool> = root_flags.clone();
        let ghost flags = root_flags@;
        assert(accepted@ =~= flags);
        let mut remaining: usize = 0;
        let mut q: usize = 0;
        while q < n
            invariant
                0 <= q <= n,
                n == accepted@.len(),
                accepted@ == flags,
                remaining == count_pending(flags.subrange(0, q as int)),
                remaining <= q,
            decreases n - q,
        {
            assert(flags.subrange(0, q + 1).drop_last() =~= flags.subrange(0, q as int));
            if !accepted[q] {
                remaining = remaining + 1;
            }
            q = q + 1;
        }
        assert(flags.subrange(0, n as int) =~= flags);
        let mut progress = true;
        while progress && remaining > 0
            invariant
                n == cs.len(),
                certs@ == cs,
                cs == self.certs(),
                root == trusted_pk_hash@,
                t == now.0,
                accepted@.len() == n,
                remaining == count_pending(accepted@),
                forall|j: int| 0 <= j < n ==> #[trigger] flags[j] == is_root(cs[j], root),
                forall|j: int| 0 <= j < n && #[trigger] flags[j] ==> accepted@[j],
                forall|j: int|
                    0 <= j < n && #[trigger] accepted@[j] && !flags[j] ==> is_endorsed(
                        cs,
                        root,
                        t,
                        cs[j],
                    ),
                forall|j: int|
                    0 <= j < n && is_root(#[trigger] cs[j], root) ==> signed_by(cs[j], cs[j].pk@),
                exists|j: int| 0 <= j < n && is_root(#[trigger] cs[j], root) && is_live(cs[j], t),
                paths.len() == signers@.len(),
                forall|k: int|
                    0 <= k < signers@.len() ==> is_issuer_path(cs, root, t, #[trigger] paths[k])
                        && cs[paths[k].last()].pk@ == signers@[k]@,
                forall|j: int|
                    0 <= j < n && #[trigger] accepted@[j] && is_live(cs[j], t) && cs[j].can_issue
                        ==> exists|k: int|
                        0 <= k < signers@.len() && #[trigger] signers@[k]@ == cs[j].pk@,
                this_verified == exists|j: int|
                    0 <= j < n && #[trigger] accepted@[j] && is_live(cs[j], t) && cert_same(
                        cs[j],
                        self.this,
                    ),
                !progress ==> forall|j: int|
                    0 <= j < n && !#[trigger] accepted@[j] ==> forall|k: int|
                        0 <= k < signers@.len() ==> !signed_by(cs[j], #[trigger] signers@[k]@),
            decreases remaining + if progress {
                1nat
            } else {
                0nat
            },
        {
            progress = false;
            let ghost start_remaining = remaining;
            let mut i: usize = 0;
            while i < n
                invariant
                    n == cs.len(),
                    certs@ == cs,
                    cs == self.certs(),
                    root == trusted_pk_hash@,
                    t == now.0,
                    0 <= i <= n,
                    accepted@.len() == n,
                    remaining == count_pending(accepted@),
                    remaining <= start_remaining,
                    progress ==> remaining < start_remaining,
                    forall|j: int| 0 <= j < n ==> #[trigger] flags[j] == is_root(cs[j], root),
                    forall|j: int| 0 <= j < n && #[trigger] flags[j] ==> accepted@[j],
                    forall|j: int|
                        0 <= j < n && #[trigger] accepted@[j] && !flags[j] ==> is_endorsed(
                            cs,
                            root,
                            t,
                            cs[j],
                        ),
                    paths.len() == signers@.len(),
                    forall|k: int|
                        0 <= k < signers@.len() ==> is_issuer_path(
                            cs,
                            root,
                            t,
                            #[trigger] paths[k],
                        ) && cs[paths[k].last()].pk@ == signers@[k]@,
                    forall|j: int|
                        0 <= j < n && #[trigger] accepted@[j] && is_live(cs[j], t)
                            && cs[j].can_issue ==> exists|k: int|
                            0 <= k < signers@.len() && #[trigger] signers@[k]@ == cs[j].pk@,
                    this_verified == exists|j: int|
                        0 <= j < n && #[trigger] accepted@[j] && is_live(cs[j], t) && cert_same(
                            cs[j],
                            self.this,
                        ),
                    !progress ==> forall|j: int|
                        0 <= j < i && !#[trigger] accepted@[j] ==> forall|k: int|
                            0 <= k < signers@.len() ==> !signed_by(cs[j], #[trigger] signers@[k]@),
                decreases n - i,
            {
                let ghost old_signers = signers@;
                let ghost old_accepted = accepted@;
                let ghost old_verified = this_verified;
                if !accepted[i] {
                    let c = certs[i];
                    let mut found = false;
                    let mut k: usize = 0;
                    while k < signers.len() && !found
                        invariant
                            0 <= k <= signers@.len(),
                            c == cs[i as int],
                            found ==> k < signers@.len() && signed_by(c, signers@[k as int]@),
                            !found ==> forall|m: int|
                                0 <= m < k ==> !signed_by(c, #[trigger] signers@[m]@),
                        decreases signers@.len() - k + if found {
                            0nat
                        } else {
                            1nat
                        },
                    {
                        if c.verify(&signers[k]) {
                            found = true;
                        } else {
                            k = k + 1;
                        }
                    }
                    if found {
                        proof {
                            let p = paths[k as int];
                            assert(is_issuer_path(cs, root, t, p) && cs[p.last()].pk@
                                == signers@[k as int]@);
                            assert(is_trusted_signer(cs, root, t, signers@[k as int]@));
                            assert(is_endorsed(cs, root, t, cs[i as int]));
                            lemma_count_pending_update(accepted@, i as int);
                        }
                        accepted.set(i, true);
                        remaining = remaining - 1;
                        progress = true;
                        if c.expiry.0 > now.0 {
                            if c.can_issue {
                                proof {
                                    let p = paths[k as int];
                                    let np = p.push(i as int);
                                    assert(np.last() == i as int);
                                    assert forall|j: int|
                                        0 <= j < np.len() implies 0 <= #[trigger] np[j]
                                        < cs.len() by {
                                        if j < p.len() {
                                            assert(np[j] == p[j]);
                                        }
                                    }
                                    assert forall|j: int| 0 < j < np.len() implies {
                                        &&& !is_root(cs[#[trigger] np[j]], root)
                                        &&& is_live(cs[np[j]], t)
                                        &&& cs[np[j]].can_issue
                                        &&& signed_by(cs[np[j]], cs[np[j - 1]].pk@)
                                    } by {
                                        if j < p.len() {
                                            assert(np[j] == p[j]);
                                            assert(np[j - 1] == p[j - 1]);
                                        } else {
                                            assert(np[j - 1] == p.last());
                                            assert(flags[i as int] == is_root(cs[i as int], root));
                                        }
                                    }
                                    assert(np[0] == p[0]);
                                    assert(is_issuer_path(cs, root, t, np));
                                    paths = paths.push(np);
                                }
                                signers.push(c.pk.0);
                                assert(signers@[signers@.len() - 1]@ == cs[i as int].pk@);
                            }
                            if c.same_as(&self.this) {
                                this_verified = true;
                            }
                        }
                    }
                }
                proof {
                    assert forall|j: int|
                        0 <= j < n && #[trigger] accepted@[j] && is_live(cs[j], t)
                            && cs[j].can_issue implies exists|k: int|
                        0 <= k < signers@.len() && #[trigger] signers@[k]@ == cs[j].pk@ by {
                        if old_accepted[j] {
                            let k = choose|k: int|
                                0 <= k < old_signers.len() && #[trigger] old_signers[k]@
                                    == cs[j].pk@;
                            assert(signers@[k] == old_signers[k]);
                        } else {
                            assert(j == i);
                            assert(signers@[signers@.len() - 1]@ == cs[j].pk@);
                        }
                    }
                    if old_verified {
                        let j = choose|j: int|
                            0 <= j < n && #[trigger] old_accepted[j] && is_live(cs[j], t)
                                && cert_same(cs[j], self.this);
                        assert(accepted@[j]);
                    }
                    if this_verified && !old_verified {
                        assert(accepted@[i as int] && is_live(cs[i as int], t) && cert_same(
                            cs[i as int],
                            self.this,
                        ));
                    }
                    if exists|j: int|
                        0 <= j < n && #[trigger] accepted@[j] && is_live(cs[j], t) && cert_same(
                            cs[j],
                            self.this,
                        ) {
                        let j = choose|j: int|
                            0 <= j < n && #[trigger] accepted@[j] && is_live(cs[j], t)
                                && cert_same(cs[j], self.this);
                        if j != i {
                            assert(old_accepted[j]);
                        }
                    }
                }
                i = i + 1;
            }
        }
        if remaining > 0 {
            proof {
                lemma_count_pending_zero(accepted@);
                let j = choose|j: int| 0 <= j < accepted@.len() && !#[trigger] accepted@[j];
                assert(!flags[j]);
                if is_endorsed(cs, root, t, cs[j]) {
                    let pk = choose|pk: Seq<u8>|
                        #[trigger] is_trusted_signer(cs, root, t, pk) && signed_by(cs[j], pk);
                    let path = choose|path: Seq<int>|
                        #[trigger] is_issuer_path(cs, root, t, path) && cs[path.last()].pk@ == pk;
                    let sv = signers@.map_values(|s: SigningPublic| s@);
                    assert forall|jj: int|
                        0 <= jj < cs.len() && !#[trigger] accepted@[jj] implies forall|kk: int|
                        0 <= kk < sv.len() ==> !signed_by(cs[jj], #[trigger] sv[kk]) by {
                        assert forall|kk: int| 0 <= kk < sv.len() implies !signed_by(
                            cs[jj],
                            #[trigger] sv[kk],
                        ) by {
                            assert(sv[kk] == signers@[kk]@);
                        }
                    }
                    assert forall|jj: int|
                        0 <= jj < cs.len() && #[trigger] accepted@[jj] && is_live(cs[jj], t)
                            && cs[jj].can_issue implies exists|kk: int|
                        0 <= kk < sv.len() && #[trigger] sv[kk] == cs[jj].pk@ by {
                        let kk = choose|kk: int|
                            0 <= kk < signers@.len() && #[trigger] signers@[kk]@ == cs[jj].pk@;
                        assert(sv[kk] == cs[jj].pk@);
                    }
                    assert forall|jj: int|
                        0 <= jj < cs.len() && is_root(#[trigger] cs[jj], root) implies accepted@[jj] by {
                        assert(flags[jj]);
                    }
                    lemma_trusted_signers_found(cs, root, t, accepted@, sv, path);
                    let kk = choose|kk: int| 0 <= kk < sv.len() && #[trigger] sv[kk] == pk;
                    assert(signed_by(cs[j], signers@[kk]@));
                }
                assert(!is_root(cs[j], root) && !is_endorsed(cs, root, t, cs[j]));
            }
            return Err(ChainError::UnverifiableEntries);
        }
        proof {
            lemma_count_pending_zero(accepted@);
            assert forall|j: int|
                0 <= j < cs.len() && !is_root(#[trigger] cs[j], root) implies is_endorsed(
                cs,
                root,
                t,
                cs[j],
            ) by {
                assert(accepted@[j]);
                assert(!flags[j]);
            }
            let last = cs.len() - 1;
            assert(cs[last] == self.this);
            if is_live(self.this, t) {
                assert(accepted@[last]);
                assert(cert_same(cs[last], self.this));
            }
        }
        if !this_verified {
            return Err(ChainError::LeafNotAuthenticated);
        }
        Ok(())
    }
}

} // verus!
