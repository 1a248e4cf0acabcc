use vstd::prelude::*;

verus! {

/// What BLAKE3 returns for the given input.
pub uninterp spec fn blake3_hash(data: Seq<u8>) -> Seq<u8>;

/// What keyed BLAKE3 returns for the given 32-byte key and input.
pub uninterp spec fn blake3_keyed_hash(key: Seq<u8>, data: Seq<u8>) -> Seq<u8>;

/// Calls `blake3::hash`. The 32 bytes it returns are named `blake3_hash` of the input.
#[verifier::external_body]
fn blake3_digest(data: &[u8]) -> (out: [u8; 32])
    ensures
        out@ == blake3_hash(data@),
{
    *blake3::hash(data).as_bytes()
}

/// Calls `blake3::keyed_hash`. The 32 bytes it returns are named `blake3_keyed_hash`
/// of the key and the input.
#[verifier::external_body]
fn blake3_keyed_digest(key: &[u8; 32], data: &[u8]) -> (out: [u8; 32])
    ensures
        out@ == blake3_keyed_hash(key@, data@),
{
    *blake3::keyed_hash(key, data).as_bytes()
}

/// The digest of the given bytes.
pub open spec fn spec_digest(data: Seq<u8>) -> Seq<u8> {
    blake3_hash(data)
}

/// The keyed digest: the data hashed under a key derived by hashing the key bytes.
pub open spec fn spec_keyed_digest(key: Seq<u8>, data: Seq<u8>) -> Seq<u8> {
    blake3_keyed_hash(blake3_hash(key), data)
}

/// Compares two 32-byte arrays.
pub fn bytes32_eq(a: &[u8; 32], b: &[u8; 32]) -> (r: bool)
    ensures
        r == (a@ == b@),
{
    let mut i: usize = 0;
    while i < 32
        invariant
            0 <= i <= 32,
            a@.len() == 32,
            b@.len() == 32,
            forall|j: int| 0 <= j < i ==> a@[j] == b@[j],
        decreases 32 - i,
    {
        if a[i] != b[i] {
            return false;
        }
        i = i + 1;
    }
    assert(a@ =~= b@);
    true
}

/// A 32-byte cryptographic hash.
#[derive(Clone, Copy, Debug)]
pub struct Hash(pub [u8; 32]);

impl View for Hash {
    type V = Seq<u8>;

    open spec fn view(&self) -> Seq<u8> {
        self.0@
    }
}

impl PartialEq for Hash {
    fn eq(&self, other: &Self) -> (r: bool) {
        bytes32_eq(&self.0, &other.0)
    }
}

impl Eq for Hash {}

impl vstd::std_specs::cmp::PartialEqSpecImpl for Hash {
    open spec fn obeys_eq_spec() -> bool {
        true
    }

    open spec fn eq_spec(&self, other: &Hash) -> bool {
        self@ == other@
    }
}

impl Hash {
    /// Builds a hash from its 32 bytes.
    pub fn from_bytes(bytes: [u8; 32]) -> (h: Hash)
        ensures
            h@ == bytes@,
    {
        Hash(bytes)
    }

    /// The 32 bytes of the hash.
    pub fn to_bytes(&self) -> (bytes: [u8; 32])
        ensures
            bytes@ == self@,
    {
        self.0
    }

    /// The all-zero hash.
    pub fn zero() -> (h: Hash)
        ensures
            h@ == Seq::new(32, |i: int| 0u8),
    {
        let h = Hash([0u8; 32]);
        assert(h@ =~= Seq::new(32, |i: int| 0u8));
        h
    }

    /// Hashes the given bytes.
    pub fn digest(data: &[u8]) -> (h: Hash)
        ensures
            h@ == spec_digest(data@),
    {
        Hash(blake3_digest(data))
    }

    /// Hashes the given bytes under a key of any length.
    pub fn keyed_digest(key: &[u8], data: &[u8]) -> (h: Hash)
        ensures
            h@ == spec_keyed_digest(key@, data@),
    {
        let k = blake3_digest(key);
        Hash(blake3_keyed_digest(&k, data))
    }
}

} // verus!
