use vstd::prelude::*;

use crate::crypt::hash::bytes32_eq;

verus! {

/// What Ed25519 key derivation gives as the public key of a 32-byte secret seed.
pub uninterp spec fn ed25519_public(seed: Seq<u8>) -> Seq<u8>;

/// What Ed25519 signing of a message under a 32-byte secret seed returns.
pub uninterp spec fn ed25519_sign(seed: Seq<u8>, msg: Seq<u8>) -> Seq<u8>;

/// What Ed25519 verification of a signature over a message under a public key answers.
pub uninterp spec fn ed25519_verify(pk: Seq<u8>, msg: Seq<u8>, sig: Seq<u8>) -> bool;

/// Calls `SigningKey::from_bytes(..).verifying_key().to_bytes()` of `ed25519_dalek`:
/// the public key of a seed, named `ed25519_public`.
#[verifier::external_body]
fn ed25519_public_key(seed: &[u8; 32]) -> (pk: [u8; 32])
    ensures
        pk@ == ed25519_public(seed@),
{
    ed25519_dalek::SigningKey::from_bytes(seed).verifying_key().to_bytes()
}

/// Calls `Signer::sign` of `ed25519_dalek::SigningKey`. Ed25519 signing is deterministic,
/// so the 64 signature bytes are named `ed25519_sign` of the seed and the message.
#[verifier::external_body]
fn ed25519_sign_bytes(seed: &[u8; 32], msg: &[u8]) -> (sig: [u8; 64])
    ensures
        sig@ == ed25519_sign(seed@, msg@),
{
    let key = ed25519_dalek::SigningKey::from_bytes(seed);
    ed25519_dalek::Signer::sign(&key, msg).to_bytes()
}

/// Calls `VerifyingKey::from_bytes` and then `Verifier::verify` of `ed25519_dalek`; a key that
/// is not a valid point verifies nothing. The answer is named `ed25519_verify`, and a signature
/// that the seed behind the public key made over the same message is accepted.
#[verifier::external_body]
fn ed25519_verify_bytes(pk: &[u8; 32], msg: &[u8], sig: &[u8; 64]) -> (ok: bool)
    ensures
        ok == ed25519_verify(pk@, msg@, sig@),
        forall|seed: Seq<u8>|
            #![trigger ed25519_sign(seed, msg@), ed25519_public(seed)]
            seed.len() == 32 && pk@ == ed25519_public(seed) && sig@ == ed25519_sign(seed, msg@)
                ==> ok,
{
    match ed25519_dalek::VerifyingKey::from_bytes(pk) {
        Ok(vk) => {
            let s = ed25519_dalek::Signature::from_bytes(sig);
            ed25519_dalek::Verifier::verify(&vk, msg, &s).is_ok()
        },
        Err(_) => false,
    }
}

/// Compares two 64-byte arrays.
pub fn bytes64_eq(a: &[u8; 64], b: &[u8; 64]) -> (r: bool)
    ensures
        r == (a@ == b@),
{
    let mut i: usize = 0;
    while i < 64
        invariant
            0 <= i <= 64,
            a@.len() == 64,
            b@.len() == 64,
            forall|j: int| 0 <= j < i ==> a@[j] == b@[j],
        decreases 64 - i,
    {
        if a[i] != b[i] {
            return false;
        }
        i = i + 1;
    }
    assert(a@ =~= b@);
    true
}

/// An Ed25519 public key.
#[derive(Clone, Copy, Debug)]
pub struct SigningPublic(pub [u8; 32]);

/// An Ed25519 secret key, held as its 32-byte seed.
#[derive(Clone)]
pub struct SigningSecret(pub [u8; 32]);

/// An Ed25519 signature.
#[derive(Clone, Copy, Debug)]
pub struct Signature(pub [u8; 64]);

impl View for SigningPublic {
    type V = Seq<u8>;

    open spec fn view(&self) -> Seq<u8> {
        self.0@
    }
}

impl View for SigningSecret {
    type V = Seq<u8>;

    open spec fn view(&self) -> Seq<u8> {
        self.0@
    }
}

impl View for Signature {
    type V = Seq<u8>;

    open spec fn view(&self) -> Seq<u8> {
        self.0@
    }
}

impl PartialEq for SigningPublic {
    fn eq(&self, other: &Self) -> (r: bool) {
        bytes32_eq(&self.0, &other.0)
    }
}

impl Eq for SigningPublic {}

impl vstd::std_specs::cmp::PartialEqSpecImpl for SigningPublic {
    open spec fn obeys_eq_spec() -> bool {
        true
    }

    open spec fn eq_spec(&self, other: &SigningPublic) -> bool {
        self@ == other@
    }
}

impl PartialEq for Signature {
    fn eq(&self, other: &Self) -> (r: bool) {
        bytes64_eq(&self.0, &other.0)
    }
}

impl Eq for Signature {}

impl vstd::std_specs::cmp::PartialEqSpecImpl for Signature {
    open spec fn obeys_eq_spec() -> bool {
        true
    }

    open spec fn eq_spec(&self, other: &Signature) -> bool {
        self@ == other@
    }
}

/// Whether `sig` is a valid signature of `msg` under `pk`.
pub open spec fn spec_verify(pk: Seq<u8>, msg: Seq<u8>, sig: Seq<u8>) -> bool {
    ed25519_verify(pk, msg, sig)
}

impl SigningPublic {
    /// Builds a public key from its 32 bytes.
    pub fn from_bytes(bytes: [u8; 32]) -> (pk: SigningPublic)
        ensures
            pk@ == bytes@,
    {
        SigningPublic(bytes)
    }

    /// The 32 bytes of the public key.
    pub fn to_bytes(&self) -> (bytes: [u8; 32])
        ensures
            bytes@ == self@,
    {
        self.0
    }

    /// Checks a signature over `msg` against this key.
    pub fn verify(&self, msg: &[u8], sig: &Signature) -> (ok: bool)
        ensures
            ok == spec_verify(self@, msg@, sig@),
            forall|seed: Seq<u8>|
                #![trigger ed25519_sign(seed, msg@), ed25519_public(seed)]
                seed.len() == 32 && self@ == ed25519_public(seed) && sig@ == ed25519_sign(
                    seed,
                    msg@,
                ) ==> ok,
    {
        ed25519_verify_bytes(&self.0, msg, &sig.0)
    }
}

impl SigningSecret {
    /// Builds a secret key from its 32-byte seed.
    pub fn from_bytes(bytes: [u8; 32]) -> (sk: SigningSecret)
        ensures
            sk@ == bytes@,
    {
        SigningSecret(bytes)
    }

    /// The 32-byte seed of the secret key.
    pub fn to_bytes(&self) -> (bytes: [u8; 32])
        ensures
            bytes@ == self@,
    {
        self.0
    }

    /// The public key of this secret key.
    pub fn public_key(&self) -> (pk: SigningPublic)
        ensures
            pk@ == ed25519_public(self@),
    {
        SigningPublic(ed25519_public_key(&self.0))
    }

    /// Signs `msg` with this key.
    pub fn sign(&self, msg: &[u8]) -> (sig: Signature)
        ensures
            sig@ == ed25519_sign(self@, msg@),
    {
        Signature(ed25519_sign_bytes(&self.0, msg))
    }
}

impl Signature {
    /// Builds a signature from its 64 bytes.
    pub fn from_bytes(bytes: [u8; 64]) -> (sig: Signature)
        ensures
            sig@ == bytes@,
    {
        Signature(bytes)
    }

    /// The 64 bytes of the signature.
    pub fn to_bytes(&self) -> (bytes: [u8; 64])
        ensures
            bytes@ == self@,
    {
        self.0
    }
}

} // verus!
