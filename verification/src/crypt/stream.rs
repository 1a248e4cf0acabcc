use vstd::prelude::*;

verus! {

/// The byte at position `pos` of the XChaCha20 keystream for a key and a nonce.
pub uninterp spec fn xchacha20_keystream_byte(key: Seq<u8>, nonce: Seq<u8>, pos: int) -> u8;

/// The longest message the keystream covers: `u32::MAX` blocks of 64 bytes.
pub open spec fn stream_len_ok(len: nat) -> bool {
    len <= 0xffff_ffff * 64
}

/// `data` XORed with the keystream of `key` and `nonce`.
pub open spec fn xchacha20_apply(key: Seq<u8>, nonce: Seq<u8>, data: Seq<u8>) -> Seq<u8> {
    Seq::new(data.len(), |i: int| data[i] ^ xchacha20_keystream_byte(key, nonce, i))
}

/// Calls `StreamCipher::apply_keystream` of `chacha20::XChaCha20` on a copy of `data`: each byte
/// is XORed with the keystream byte at its position, named `xchacha20_keystream_byte`. The
/// call panics past the end of the keystream, which `requires` rules out.
#[verifier::external_body]
fn xchacha20_apply_keystream(key: &[u8; 32], nonce: &[u8; 24], data: &[u8]) -> (out: Vec<u8>)
    requires
        stream_len_ok(data@.len()),
    ensures
        out@.len() == data@.len(),
        forall|i: int|
            0 <= i < data@.len() ==> #[trigger] out@[i] == data@[i] ^ xchacha20_keystream_byte(
                key@,
                nonce@,
                i,
            ),
{
    let mut buf = data.to_vec();
    let mut cipher = <chacha20::XChaCha20 as chacha20::cipher::KeyIvInit>::new(key.into(), nonce.into());
    chacha20::cipher::StreamCipher::apply_keystream(&mut cipher, &mut buf);
    buf
}

/// XChaCha20 key used for stream encryption and decryption without authentication.
#[derive(Clone, Copy, Debug)]
pub struct StreamKey(pub [u8; 32]);

impl View for StreamKey {
    type V = Seq<u8>;

    open spec fn view(&self) -> Seq<u8> {
        self.0@
    }
}

impl StreamKey {
    /// Generate a random stream key.
    pub fn random() -> (k: StreamKey) {
        StreamKey(crate::structs::certificate::random_array::<32>())
    }

    /// Build a stream key from 32 raw bytes.
    pub fn from_bytes(bytes: [u8; 32]) -> (k: StreamKey)
        ensures
            k@ == bytes@,
    {
        StreamKey(bytes)
    }

    /// Serialize the stream key as 32 bytes.
    pub fn to_bytes(&self) -> (bytes: [u8; 32])
        ensures
            bytes@ == self@,
    {
        self.0
    }

    /// Encrypt `plaintext` with the given nonce.
    pub fn encrypt(&self, nonce: [u8; 24], plaintext: &[u8]) -> (c: Vec<u8>)
        requires
            stream_len_ok(plaintext@.len()),
        ensures
            c@ == xchacha20_apply(self@, nonce@, plaintext@),
    {
        let c = xchacha20_apply_keystream(&self.0, &nonce, plaintext);
        assert(c@ =~= xchacha20_apply(self@, nonce@, plaintext@));
        c
    }

    /// Decrypt `ciphertext` with the given nonce.
    pub fn decrypt(&self, nonce: [u8; 24], ciphertext: &[u8]) -> (p: Vec<u8>)
        requires
            stream_len_ok(ciphertext@.len()),
        ensures
            p@ == xchacha20_apply(self@, nonce@, ciphertext@),
    {
        let p = xchacha20_apply_keystream(&self.0, &nonce, ciphertext);
        assert(p@ =~= xchacha20_apply(self@, nonce@, ciphertext@));
        p
    }
}

/// Decryption undoes encryption: applying the same keystream twice gives the data back.
pub proof fn lemma_stream_roundtrip(key: Seq<u8>, nonce: Seq<u8>, data: Seq<u8>)
    ensures
        xchacha20_apply(key, nonce, xchacha20_apply(key, nonce, data)) == data,
{
    let once = xchacha20_apply(key, nonce, data);
    let twice = xchacha20_apply(key, nonce, once);
    assert forall|i: int| 0 <= i < data.len() implies twice[i] == data[i] by {
        let k = xchacha20_keystream_byte(key, nonce, i);
        let d = data[i];
        assert((d ^ k) ^ k == d) by (bit_vector);
    }
    assert(twice =~= data);
}

} // verus!
