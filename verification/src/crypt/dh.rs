use vstd::prelude::*;

use crate::crypt::hash::spec_digest;

verus! {

/// What X25519 gives as the public key of a 32-byte secret.
pub uninterp spec fn x25519_public(sk: Seq<u8>) -> Seq<u8>;

/// What X25519 gives as the shared secret of a 32-byte secret and a 32-byte public key.
pub uninterp spec fn x25519_shared(sk: Seq<u8>, pk: Seq<u8>) -> Seq<u8>;

/// Calls `x25519_dalek::PublicKey::from(&StaticSecret::from(sk))`: the public key of a secret,
/// named `x25519_public`.
#[verifier::external_body]
fn x25519_public_key(sk: &[u8; 32]) -> (pk: [u8; 32])
    ensures
        pk@ == x25519_public(sk@),
{
    let secret = x25519_dalek::StaticSecret::from(*sk);
    x25519_dalek::PublicKey::from(&secret).to_bytes()
}

/// Calls `x25519_dalek::StaticSecret::diffie_hellman`: the shared secret of a secret and a
/// public key, named `x25519_shared`. As the crate documents, both parties of an exchange get
/// the same shared secret: where `pk` is the public key of a secret `other`, the result is also
/// what `other` gets with the public key of `sk`. The all-zero public key (a point of low
/// order) gives the all-zero shared secret, the non-contributory case the crate describes.
#[verifier::external_body]
fn x25519_diffie_hellman(sk: &[u8; 32], pk: &[u8; 32]) -> (ss: [u8; 32])
    ensures
        ss@ == x25519_shared(sk@, pk@),
        pk@ == zero32() ==> ss@ == zero32(),
        forall|other: Seq<u8>|
            other.len() == 32 && pk@ == #[trigger] x25519_public(other) ==> ss@ == x25519_shared(
                other,
                x25519_public(sk@),
            ),
{
    let secret = x25519_dalek::StaticSecret::from(*sk);
    secret.diffie_hellman(&x25519_dalek::PublicKey::from(*pk)).to_bytes()
}

/// Calls `subtle::ConstantTimeEq::ct_eq` on two 32-byte arrays; it answers 1 exactly when
/// they are equal.
#[verifier::external_body]
fn ct_eq32(a: &[u8; 32], b: &[u8; 32]) -> (r: bool)
    ensures
        r == (a@ == b@),
{
    subtle::ConstantTimeEq::ct_eq(&a[..], &b[..]).unwrap_u8() == 1
}

/// Errors returned by Diffie-Hellman operations.
#[derive(Clone, Copy, Debug, PartialEq, Eq, Structural)]
pub enum DhError {
    InvalidSharedSecret,
}

/// X25519 public key used for Diffie-Hellman key exchange.
#[derive(Clone, Copy, Debug)]
pub struct DhPublic(pub [u8; 32]);

/// X25519 static secret key used for Diffie-Hellman key exchange.
#[derive(Clone)]
pub struct DhSecret(pub [u8; 32]);

impl View for DhPublic {
    type V = Seq<u8>;

    open spec fn view(&self) -> Seq<u8> {
        self.0@
    }
}

impl View for DhSecret {
    type V = Seq<u8>;

    open spec fn view(&self) -> Seq<u8> {
        self.0@
    }
}

/// The 32 zero bytes.
pub open spec fn zero32() -> Seq<u8> {
    Seq::new(32, |i: int| 0u8)
}

/// What Diffie-Hellman with a secret and a peer key gives: the shared secret, unless it is
/// all zeros.
pub open spec fn spec_diffie_hellman(sk: Seq<u8>, pk: Seq<u8>) -> Result<Seq<u8>, DhError> {
    let ss = x25519_shared(sk, pk);
    if ss == zero32() {
        Err(DhError::InvalidSharedSecret)
    } else {
        Ok(ss)
    }
}

/// Lexicographic order on byte sequences.
pub open spec fn lex_le(a: Seq<u8>, b: Seq<u8>) -> bool
    decreases a.len(),
{
    if a.len() == 0 {
        true
    } else if b.len() == 0 {
        false
    } else if a[0] < b[0] {
        true
    } else if a[0] > b[0] {
        false
    } else {
        lex_le(a.drop_first(), b.drop_first())
    }
}

/// The triple Diffie-Hellman key for local secrets and remote public keys: the three shared
/// secrets hashed together, the first two in an order fixed by comparing the two parties'
/// public keys, so that both parties derive the same key.
pub open spec fn spec_triple_dh(
    local_long_term: Seq<u8>,
    local_ephemeral: Seq<u8>,
    remote_long_term: Seq<u8>,
    remote_ephemeral: Seq<u8>,
) -> Result<Seq<u8>, DhError> {
    let dh1 = spec_diffie_hellman(local_long_term, remote_ephemeral);
    let dh2 = spec_diffie_hellman(local_ephemeral, remote_long_term);
    let dh3 = spec_diffie_hellman(local_ephemeral, remote_ephemeral);
    if dh1 is Err || dh2 is Err || dh3 is Err {
        Err(DhError::InvalidSharedSecret)
    } else {
        let local_id = x25519_public(local_long_term) + x25519_public(local_ephemeral);
        let remote_id = remote_long_term + remote_ephemeral;
        if lex_le(local_id, remote_id) {
            Ok(spec_digest(dh1->Ok_0 + dh2->Ok_0 + dh3->Ok_0))
        } else {
            Ok(spec_digest(dh2->Ok_0 + dh1->Ok_0 + dh3->Ok_0))
        }
    }
}

impl DhPublic {
    /// Build a public key from its 32-byte compressed form.
    pub fn from_bytes(bytes: [u8; 32]) -> (pk: DhPublic)
        ensures
            pk@ == bytes@,
    {
        DhPublic(bytes)
    }

    /// Serialize the public key as 32 bytes.
    pub fn to_bytes(&self) -> (bytes: [u8; 32])
        ensures
            bytes@ == self@,
    {
        self.0
    }
}

impl DhSecret {
    /// Generate a random DH secret.
    pub fn random() -> (sk: DhSecret) {
        DhSecret(crate::structs::certificate::random_array::<32>())
    }

    /// Build a DH secret from 32 raw bytes.
    pub fn from_bytes(bytes: [u8; 32]) -> (sk: DhSecret)
        ensures
            sk@ == bytes@,
    {
        DhSecret(bytes)
    }

    /// Serialize the DH secret as 32 bytes.
    pub fn to_bytes(&self) -> (bytes: [u8; 32])
        ensures
            bytes@ == self@,
    {
        self.0
    }

    /// Derive the matching public key for this secret.
    pub fn public_key(&self) -> (pk: DhPublic)
        ensures
            pk@ == x25519_public(self@),
    {
        DhPublic(x25519_public_key(&self.0))
    }

    /// Perform Diffie-Hellman with a peer public key, returning the shared secret bytes;
    /// an all-zero shared secret is refused.
    pub fn diffie_hellman(&self, peer: &DhPublic) -> (r: Result<[u8; 32], DhError>)
        ensures
            match r {
                Ok(ss) => spec_diffie_hellman(self@, peer@) == Ok::<Seq<u8>, DhError>(ss@),
                Err(e) => spec_diffie_hellman(self@, peer@) == Err::<Seq<u8>, DhError>(e),
            },
            peer@ == zero32() ==> r == Err::<[u8; 32], DhError>(DhError::InvalidSharedSecret),
            forall|other: Seq<u8>|
                other.len() == 32 && peer@ == #[trigger] x25519_public(other) ==> x25519_shared(
                    self@,
                    peer@,
                ) == x25519_shared(other, x25519_public(self@)),
    {
        let ss = x25519_diffie_hellman(&self.0, &peer.0);
        let zero = [0u8; 32];
        assert(zero@ =~= zero32());
        if ct_eq32(&ss, &zero) {
            return Err(DhError::InvalidSharedSecret);
        }
        Ok(ss)
    }
}

/// Compares two byte arrays of equal length lexicographically.
fn bytes_lex_le(a: &Vec<u8>, b: &Vec<u8>) -> (r: bool)
    requires
        a@.len() == b@.len(),
    ensures
        r == lex_le(a@, b@),
{
    let mut i: usize = 0;
    assert(a@.subrange(0, a@.len() as int) =~= a@);
    assert(b@.subrange(0, b@.len() as int) =~= b@);
    assert(a@.subrange(0, 0) =~= b@.subrange(0, 0));
    while i < a.len()
        invariant
            0 <= i <= a@.len(),
            a@.len() == b@.len(),
            a@.subrange(0, i as int) == b@.subrange(0, i as int),
            lex_le(a@, b@) == lex_le(a@.subrange(i as int, a@.len() as int), b@.subrange(i as int, b@.len() as int)),
        decreases a@.len() - i,
    {
        let ghost sa = a@.subrange(i as int, a@.len() as int);
        let ghost sb = b@.subrange(i as int, b@.len() as int);
        assert(sa[0] == a@[i as int] && sb[0] == b@[i as int]);
        if a[i] < b[i] {
            return true;
        }
        if a[i] > b[i] {
            return false;
        }
        assert(sa.drop_first() =~= a@.subrange(i + 1, a@.len() as int));
        assert(sb.drop_first() =~= b@.subrange(i + 1, b@.len() as int));
        assert(a@.subrange(0, i + 1) =~= b@.subrange(0, i + 1));
        i = i + 1;
    }
    proof {
        let sa = a@.subrange(i as int, a@.len() as int);
        assert(sa.len() == 0);
    }
    true
}

/// Hashes the three shared secrets together into the triple Diffie-Hellman key.
fn triple_dh_key(dh1: [u8; 32], dh2: [u8; 32], dh3: [u8; 32]) -> (k: [u8; 32])
    ensures
        k@ == spec_digest(dh1@ + dh2@ + dh3@),
{
    let mut material: Vec<u8> = Vec::new();
    crate::bytes::push_bytes32(&mut material, &dh1);
    crate::bytes::push_bytes32(&mut material, &dh2);
    crate::bytes::push_bytes32(&mut material, &dh3);
    crate::crypt::hash::Hash::digest(material.as_slice()).to_bytes()
}

/// Whether `rl` and `re` are the peer's secrets behind the remote public keys, and the two
/// parties differ in their public keys or are the same party.
pub open spec fn peer_matches(
    rl: Seq<u8>,
    re: Seq<u8>,
    local_long_term: Seq<u8>,
    local_ephemeral: Seq<u8>,
    remote_long_term: Seq<u8>,
    remote_ephemeral: Seq<u8>,
) -> bool {
    &&& rl.len() == 32
    &&& re.len() == 32
    &&& remote_long_term == x25519_public(rl)
    &&& remote_ephemeral == x25519_public(re)
    &&& (x25519_public(local_long_term) + x25519_public(local_ephemeral) != remote_long_term
        + remote_ephemeral || (local_long_term == rl && local_ephemeral == re))
}

/// Derive a Triple-DH shared key from local and remote secrets/publics. Where the remote keys
/// are the public keys of a peer's secrets, the peer derives the same result from its secrets
/// and the local public keys.
pub fn triple_dh(
    local_long_term: &DhSecret,
    local_ephemeral: &DhSecret,
    remote_long_term: &DhPublic,
    remote_ephemeral: &DhPublic,
) -> (r: Result<[u8; 32], DhError>)
    ensures
        match r {
            Ok(k) => spec_triple_dh(
                local_long_term@,
                local_ephemeral@,
                remote_long_term@,
                remote_ephemeral@,
            ) == Ok::<Seq<u8>, DhError>(k@),
            Err(e) => spec_triple_dh(
                local_long_term@,
                local_ephemeral@,
                remote_long_term@,
                remote_ephemeral@,
            ) == Err::<Seq<u8>, DhError>(e),
        },
        forall|rl: Seq<u8>, re: Seq<u8>|
            #![trigger x25519_public(rl), x25519_public(re)]
            peer_matches(rl, re, local_long_term@, local_ephemeral@, remote_long_term@, remote_ephemeral@)
                ==> spec_triple_dh(
                local_long_term@,
                local_ephemeral@,
                remote_long_term@,
                remote_ephemeral@,
            ) == spec_triple_dh(
                rl,
                re,
                x25519_public(local_long_term@),
                x25519_public(local_ephemeral@),
            ),
{
    let local_lt_pub = local_long_term.public_key();
    let local_eph_pub = local_ephemeral.public_key();
    let r1 = local_long_term.diffie_hellman(remote_ephemeral);
    let r2 = local_ephemeral.diffie_hellman(remote_long_term);
    let r3 = local_ephemeral.diffie_hellman(remote_ephemeral);
    proof {
        assert forall|rl: Seq<u8>, re: Seq<u8>|
            #![trigger x25519_public(rl), x25519_public(re)]
            peer_matches(rl, re, local_long_term@, local_ephemeral@, remote_long_term@, remote_ephemeral@)
            implies spec_triple_dh(
            local_long_term@,
            local_ephemeral@,
            remote_long_term@,
            remote_ephemeral@,
        ) == spec_triple_dh(
            rl,
            re,
            x25519_public(local_long_term@),
            x25519_public(local_ephemeral@),
        ) by {
            lemma_triple_dh_symmetric(local_long_term@, local_ephemeral@, rl, re);
        }
    }
    let dh1 = match r1 {
        Ok(v) => v,
        Err(e) => return Err(e),
    };
    let dh2 = match r2 {
        Ok(v) => v,
        Err(e) => return Err(e),
    };
    let dh3 = match r3 {
        Ok(v) => v,
        Err(e) => return Err(e),
    };
    let mut local_id: Vec<u8> = Vec::new();
    crate::bytes::push_bytes32(&mut local_id, &local_lt_pub.0);
    crate::bytes::push_bytes32(&mut local_id, &local_eph_pub.0);
    let mut remote_id: Vec<u8> = Vec::new();
    crate::bytes::push_bytes32(&mut remote_id, &remote_long_term.0);
    crate::bytes::push_bytes32(&mut remote_id, &remote_ephemeral.0);
    if bytes_lex_le(&local_id, &remote_id) {
        Ok(triple_dh_key(dh1, dh2, dh3))
    } else {
        Ok(triple_dh_key(dh2, dh1, dh3))
    }
}

/// `lex_le` is total on sequences of equal length, and antisymmetric.
pub proof fn lemma_lex_le_total(a: Seq<u8>, b: Seq<u8>)
    requires
        a.len() == b.len(),
    ensures
        lex_le(a, b) || lex_le(b, a),
        lex_le(a, b) && lex_le(b, a) ==> a == b,
    decreases a.len(),
{
    if a.len() > 0 {
        lemma_lex_le_total(a.drop_first(), b.drop_first());
        if a[0] == b[0] && a.drop_first() == b.drop_first() {
            assert(a =~= seq![a[0]] + a.drop_first());
            assert(b =~= seq![b[0]] + b.drop_first());
        }
    } else {
        assert(a =~= b);
    }
}

/// Triple Diffie-Hellman is symmetric: two parties, each with a long-term and an ephemeral
/// secret, derive the same key from their own secrets and the other's public keys, given that
/// X25519 agreement commutes for the pairs of keys involved, and that the parties differ in
/// their public keys or are the same party.
pub proof fn lemma_triple_dh_symmetric(
    a_long_term: Seq<u8>,
    a_ephemeral: Seq<u8>,
    b_long_term: Seq<u8>,
    b_ephemeral: Seq<u8>,
)
    requires
        x25519_public(a_long_term).len() == 32,
        x25519_public(a_ephemeral).len() == 32,
        x25519_public(b_long_term).len() == 32,
        x25519_public(b_ephemeral).len() == 32,
        x25519_shared(a_long_term, x25519_public(b_ephemeral)) == x25519_shared(
            b_ephemeral,
            x25519_public(a_long_term),
        ),
        x25519_shared(a_ephemeral, x25519_public(b_long_term)) == x25519_shared(
            b_long_term,
            x25519_public(a_ephemeral),
        ),
        x25519_shared(a_ephemeral, x25519_public(b_ephemeral)) == x25519_shared(
            b_ephemeral,
            x25519_public(a_ephemeral),
        ),
        x25519_public(a_long_term) + x25519_public(a_ephemeral) != x25519_public(b_long_term)
            + x25519_public(b_ephemeral) || (a_long_term == b_long_term && a_ephemeral
            == b_ephemeral),
    ensures
        spec_triple_dh(
            a_long_term,
            a_ephemeral,
            x25519_public(b_long_term),
            x25519_public(b_ephemeral),
        ) == spec_triple_dh(
            b_long_term,
            b_ephemeral,
            x25519_public(a_long_term),
            x25519_public(a_ephemeral),
        ),
{
    let pa_lt = x25519_public(a_long_term);
    let pa_eph = x25519_public(a_ephemeral);
    let pb_lt = x25519_public(b_long_term);
    let pb_eph = x25519_public(b_ephemeral);
    let a_id = pa_lt + pa_eph;
    let b_id = pb_lt + pb_eph;
    let a1 = spec_diffie_hellman(a_long_term, pb_eph);
    let a2 = spec_diffie_hellman(a_ephemeral, pb_lt);
    let a3 = spec_diffie_hellman(a_ephemeral, pb_eph);
    let b1 = spec_diffie_hellman(b_long_term, pa_eph);
    let b2 = spec_diffie_hellman(b_ephemeral, pa_lt);
    let b3 = spec_diffie_hellman(b_ephemeral, pa_eph);
    assert(b1 == a2);
    assert(b2 == a1);
    assert(b3 == a3);
    lemma_lex_le_total(a_id, b_id);
    if a_id == b_id {
        assert(a_long_term == b_long_term && a_ephemeral == b_ephemeral);
    }
}

} // verus!
