use vstd::prelude::*;

verus! {

/// What XChaCha20-Poly1305 encryption of a plaintext with associated data returns: the
/// ciphertext followed by the tag.
pub uninterp spec fn xchacha20poly1305_seal(
    key: Seq<u8>,
    nonce: Seq<u8>,
    plaintext: Seq<u8>,
    aad: Seq<u8>,
) -> Seq<u8>;

/// What XChaCha20-Poly1305 decryption returns: the plaintext, or nothing if the ciphertext
/// does not authenticate.
pub uninterp spec fn xchacha20poly1305_open(
    key: Seq<u8>,
    nonce: Seq<u8>,
    ciphertext: Seq<u8>,
    aad: Seq<u8>,
) -> Option<Seq<u8>>;

/// Whether a message is short enough for the cipher: fewer than `u32::MAX` whole blocks of
/// 64 bytes.
pub open spec fn aead_len_ok(len: nat) -> bool {
    len / 64 < 0xffff_ffff
}

/// Whether a message length passes the cipher's length check yet needs more keystream than is
/// left once the first block has gone to the authentication key: `u32::MAX - 1` whole blocks
/// and a partial one. The keystream then runs out and the cipher panics.
pub open spec fn aead_keystream_overrun(len: nat) -> bool {
    len / 64 == 0xffff_fffe && len % 64 != 0
}

/// Whether a ciphertext's message part, after the 16-byte tag is taken off, overruns the
/// keystream.
pub open spec fn aead_decrypt_overrun(len: nat) -> bool {
    len >= 16 && aead_keystream_overrun((len - 16) as nat)
}

/// Calls `Aead::encrypt` of `chacha20poly1305::XChaCha20Poly1305`. It fails exactly when the
/// message is too long for the cipher's length check; otherwise the result is named
/// `xchacha20poly1305_seal` and is 16 bytes longer than the plaintext. The lengths that pass
/// the check but overrun the keystream, where the cipher panics, are left out.
#[verifier::external_body]
fn xchacha20poly1305_encrypt(key: &[u8; 32], nonce: &[u8; 24], plaintext: &[u8], aad: &[u8]) -> (r:
    Option<Vec<u8>>)
    requires
        !aead_keystream_overrun(plaintext@.len()),
    ensures
        r is Some <==> aead_len_ok(plaintext@.len()),
        r matches Some(c) ==> c@ == xchacha20poly1305_seal(key@, nonce@, plaintext@, aad@)
            && c@.len() == plaintext@.len() + 16,
{
    let cipher = <chacha20poly1305::XChaCha20Poly1305 as chacha20poly1305::KeyInit>::new(
        chacha20poly1305::Key::from_slice(key),
    );
    let payload = chacha20poly1305::aead::Payload { msg: plaintext, aad };
    chacha20poly1305::aead::Aead::encrypt(&cipher, chacha20poly1305::XNonce::from_slice(nonce), payload).ok()
}

/// Calls `Aead::decrypt` of `chacha20poly1305::XChaCha20Poly1305`. The result is named
/// `xchacha20poly1305_open`; a ciphertext that this key, nonce and associated data made from a
/// plaintext decrypts to that plaintext; a ciphertext shorter than the 16-byte tag is refused,
/// and a plaintext is 16 bytes shorter than its ciphertext. Ciphertexts whose message part
/// overruns the keystream are left out: the cipher panics on them once the tag checks out,
/// which cannot be known before the call.
#[verifier::external_body]
fn xchacha20poly1305_decrypt(key: &[u8; 32], nonce: &[u8; 24], ciphertext: &[u8], aad: &[u8]) -> (r:
    Option<Vec<u8>>)
    requires
        !aead_decrypt_overrun(ciphertext@.len()),
    ensures
        r is Some <==> xchacha20poly1305_open(key@, nonce@, ciphertext@, aad@) is Some,
        r is Some ==> xchacha20poly1305_open(key@, nonce@, ciphertext@, aad@) == Some(r->0@),
        ciphertext@.len() < 16 ==> r is None,
        r matches Some(p) ==> p@.len() + 16 == ciphertext@.len(),
        forall|pt: Seq<u8>|
            #![trigger xchacha20poly1305_seal(key@, nonce@, pt, aad@)]
            aead_len_ok(pt.len()) && ciphertext@ == xchacha20poly1305_seal(key@, nonce@, pt, aad@)
                ==> r is Some && r->0@ == pt,
{
    let cipher = <chacha20poly1305::XChaCha20Poly1305 as chacha20poly1305::KeyInit>::new(
        chacha20poly1305::Key::from_slice(key),
    );
    let payload = chacha20poly1305::aead::Payload { msg: ciphertext, aad };
    chacha20poly1305::aead::Aead::decrypt(&cipher, chacha20poly1305::XNonce::from_slice(nonce), payload).ok()
}

/// Errors returned by symmetric encryption operations.
#[derive(Clone, Copy, Debug, PartialEq, Eq, Structural)]
pub enum AeadError {
    Encrypt,
    Decrypt,
}

/// XChaCha20-Poly1305 key used for symmetric encryption and decryption.
#[derive(Clone, Copy, Debug)]
pub struct AeadKey(pub [u8; 32]);

impl View for AeadKey {
    type V = Seq<u8>;

    open spec fn view(&self) -> Seq<u8> {
        self.0@
    }
}

impl AeadKey {
    /// Generate a random symmetric key.
    pub fn random() -> (k: AeadKey) {
        AeadKey(crate::structs::certificate::random_array::<32>())
    }

    /// Build a symmetric key from 32 raw bytes.
    pub fn from_bytes(bytes: [u8; 32]) -> (k: AeadKey)
        ensures
            k@ == bytes@,
    {
        AeadKey(bytes)
    }

    /// Serialize the symmetric key as 32 bytes.
    pub fn to_bytes(&self) -> (bytes: [u8; 32])
        ensures
            bytes@ == self@,
    {
        self.0
    }

    /// Encrypt `plaintext` with the given nonce and associated data; the few lengths on which the
    /// cipher would run out of keystream and panic are not accepted.
    pub fn encrypt(&self, nonce: [u8; 24], plaintext: &[u8], aad: &[u8]) -> (r: Result<
        Vec<u8>,
        AeadError,
    >)
        requires
            !aead_keystream_overrun(plaintext@.len()),
        ensures
            r is Ok <==> aead_len_ok(plaintext@.len()),
            r matches Ok(c) ==> c@ == xchacha20poly1305_seal(self@, nonce@, plaintext@, aad@),
            r matches Ok(c) ==> c@.len() == plaintext@.len() + 16,
            r matches Err(e) ==> e == AeadError::Encrypt,
    {
        match xchacha20poly1305_encrypt(&self.0, &nonce, plaintext, aad) {
            Some(c) => Ok(c),
            None => Err(AeadError::Encrypt),
        }
    }

    /// Decrypt `ciphertext` with the given nonce and associated data; the few lengths on which the
    /// cipher could run out of keystream and panic are not accepted.
    pub fn decrypt(&self, nonce: [u8; 24], ciphertext: &[u8], aad: &[u8]) -> (r: Result<
        Vec<u8>,
        AeadError,
    >)
        requires
            !aead_decrypt_overrun(ciphertext@.len()),
        ensures
            r is Ok <==> xchacha20poly1305_open(self@, nonce@, ciphertext@, aad@) is Some,
            r matches Ok(p) ==> xchacha20poly1305_open(self@, nonce@, ciphertext@, aad@) == Some(
                p@,
            ),
            r matches Err(e) ==> e == AeadError::Decrypt,
            ciphertext@.len() < 16 ==> r == Err::<Vec<u8>, AeadError>(AeadError::Decrypt),
            r matches Ok(p) ==> p@.len() + 16 == ciphertext@.len(),
            forall|p: Seq<u8>|
                #![trigger xchacha20poly1305_seal(self@, nonce@, p, aad@)]
                aead_len_ok(p.len()) && ciphertext@ == xchacha20poly1305_seal(self@, nonce@, p, aad@)
                    ==> r is Ok && r->Ok_0@ == p,
    {
        match xchacha20poly1305_decrypt(&self.0, &nonce, ciphertext, aad) {
            Some(p) => Ok(p),
            None => Err(AeadError::Decrypt),
        }
    }
}

} // verus!
