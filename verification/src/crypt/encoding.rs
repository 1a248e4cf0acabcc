use vstd::prelude::*;

use crate::crypt::dh::{DhPublic, DhSecret};

verus! {

/// The URL-safe base64 alphabet: the letters, the digits, `-` and `_`.
pub open spec fn base64url_alphabet() -> Seq<char> {
    seq![
        'A', 'B', 'C', 'D', 'E', 'F', 'G', 'H', 'I', 'J', 'K', 'L', 'M', 'N', 'O', 'P',
        'Q', 'R', 'S', 'T', 'U', 'V', 'W', 'X', 'Y', 'Z', 'a', 'b', 'c', 'd', 'e', 'f',
        'g', 'h', 'i', 'j', 'k', 'l', 'm', 'n', 'o', 'p', 'q', 'r', 's', 't', 'u', 'v',
        'w', 'x', 'y', 'z', '0', '1', '2', '3', '4', '5', '6', '7', '8', '9', '-', '_',
    ]
}

/// The character for a 6-bit value.
pub open spec fn b64_char(v: int) -> char {
    base64url_alphabet()[v]
}

/// URL-safe unpadded base64 of the given bytes: each 3 bytes become 4 characters of 6 bits
/// each, high bits first; a last group of 1 or 2 bytes becomes 2 or 3 characters, its unused
/// low bits zero.
pub open spec fn base64url_encode(bytes: Seq<u8>) -> Seq<char>
    decreases bytes.len(),
{
    if bytes.len() == 0 {
        Seq::empty()
    } else {
        let b0 = bytes[0] as int;
        if bytes.len() == 1 {
            seq![b64_char(b0 / 4), b64_char((b0 % 4) * 16)]
        } else {
            let b1 = bytes[1] as int;
            if bytes.len() == 2 {
                seq![b64_char(b0 / 4), b64_char((b0 % 4) * 16 + b1 / 16), b64_char((b1 % 16) * 4)]
            } else {
                let b2 = bytes[2] as int;
                seq![
                    b64_char(b0 / 4),
                    b64_char((b0 % 4) * 16 + b1 / 16),
                    b64_char((b1 % 16) * 4 + b2 / 64),
                    b64_char(b2 % 64),
                ] + base64url_encode(bytes.subrange(3, bytes.len() as int))
            }
        }
    }
}

/// URL-safe unpadded base64 decoding: the bytes whose encoding the text is, or nothing where
/// the text is the encoding of no bytes (a character outside the alphabet, padding, a length
/// of one more than a multiple of 4, or unused low bits that are not zero).
pub open spec fn base64url_decode(text: Seq<char>) -> Option<Seq<u8>> {
    if exists|b: Seq<u8>| #[trigger] base64url_encode(b) == text {
        Some(choose|b: Seq<u8>| #[trigger] base64url_encode(b) == text)
    } else {
        None
    }
}

/// Calls `Engine::encode` of `base64::engine::general_purpose::URL_SAFE_NO_PAD`: the text is
/// `base64url_encode` of the bytes.
#[verifier::external_body]
fn base64url_encode_32(bytes: &[u8; 32]) -> (s: String)
    ensures
        s@ == base64url_encode(bytes@),
{
    base64::Engine::encode(&base64::engine::general_purpose::URL_SAFE_NO_PAD, bytes)
}

/// Calls `Engine::decode` of `base64::engine::general_purpose::URL_SAFE_NO_PAD`, which accepts
/// exactly the canonical unpadded encodings: the result is `base64url_decode` of the text, and
/// the encoding of some bytes decodes to those bytes.
#[verifier::external_body]
fn base64url_decode_str(input: &str) -> (r: Option<Vec<u8>>)
    ensures
        r is Some <==> base64url_decode(input@) is Some,
        r is Some ==> base64url_decode(input@) == Some(r->0@),
        forall|b: Seq<u8>|
            #[trigger] base64url_encode(b) == input@ ==> r is Some && r->0@ == b,
{
    base64::Engine::decode(&base64::engine::general_purpose::URL_SAFE_NO_PAD, input.as_bytes()).ok()
}

/// Why a key failed to parse.
#[derive(Clone, Copy, Debug, PartialEq, Eq, Structural)]
pub enum ParseKeyError {
    InvalidBase64,
    InvalidLength,
    InvalidPublicKey,
}

/// What decoding a 32-byte key from base64 gives.
pub open spec fn spec_decode_32(input: Seq<char>) -> Result<Seq<u8>, ParseKeyError> {
    match base64url_decode(input) {
        None => Err(ParseKeyError::InvalidBase64),
        Some(b) => if b.len() == 32 {
            Ok(b)
        } else {
            Err(ParseKeyError::InvalidLength)
        },
    }
}

/// Encodes 32 bytes as URL-safe unpadded base64.
pub fn encode_32_base64(bytes: [u8; 32]) -> (s: String)
    ensures
        s@ == base64url_encode(bytes@),
{
    base64url_encode_32(&bytes)
}

/// Decodes 32 bytes from URL-safe unpadded base64.
pub fn decode_32_base64(input: &str) -> (r: Result<[u8; 32], ParseKeyError>)
    ensures
        match r {
            Ok(b) => spec_decode_32(input@) == Ok::<Seq<u8>, ParseKeyError>(b@),
            Err(e) => spec_decode_32(input@) == Err::<Seq<u8>, ParseKeyError>(e),
        },
        forall|b: Seq<u8>|
            b.len() == 32 && #[trigger] base64url_encode(b) == input@ ==> r is Ok && r->Ok_0@
                == b,
{
    let bytes = match base64url_decode_str(input) {
        Some(b) => b,
        None => return Err(ParseKeyError::InvalidBase64),
    };
    if bytes.len() != 32 {
        return Err(ParseKeyError::InvalidLength);
    }
    let mut buf = [0u8; 32];
    let mut i: usize = 0;
    while i < 32
        invariant
            0 <= i <= 32,
            bytes@.len() == 32,
            buf@.len() == 32,
            forall|j: int| 0 <= j < i ==> buf@[j] == bytes@[j],
        decreases 32 - i,
    {
        buf.set(i, bytes[i]);
        i = i + 1;
    }
    assert(buf@ =~= bytes@);
    Ok(buf)
}

impl DhPublic {
    /// The public key as URL-safe unpadded base64.
    pub fn to_base64(&self) -> (s: String)
        ensures
            s@ == base64url_encode(self@),
    {
        encode_32_base64(self.0)
    }

    /// Parses a public key from URL-safe unpadded base64; what `to_base64` wrote reads back as
    /// the same key.
    pub fn from_base64(s: &str) -> (r: Result<DhPublic, ParseKeyError>)
        ensures
            match r {
                Ok(k) => spec_decode_32(s@) == Ok::<Seq<u8>, ParseKeyError>(k@),
                Err(e) => spec_decode_32(s@) == Err::<Seq<u8>, ParseKeyError>(e),
            },
            forall|b: Seq<u8>|
                b.len() == 32 && #[trigger] base64url_encode(b) == s@ ==> (r matches Ok(k) && k@
                    == b),
    {
        match decode_32_base64(s) {
            Ok(b) => Ok(DhPublic::from_bytes(b)),
            Err(e) => Err(e),
        }
    }
}

impl DhSecret {
    /// The secret as URL-safe unpadded base64.
    pub fn to_base64(&self) -> (s: String)
        ensures
            s@ == base64url_encode(self@),
    {
        encode_32_base64(self.0)
    }

    /// Parses a secret from URL-safe unpadded base64; what `to_base64` wrote reads back as the
    /// same secret.
    pub fn from_base64(s: &str) -> (r: Result<DhSecret, ParseKeyError>)
        ensures
            match r {
                Ok(k) => spec_decode_32(s@) == Ok::<Seq<u8>, ParseKeyError>(k@),
                Err(e) => spec_decode_32(s@) == Err::<Seq<u8>, ParseKeyError>(e),
            },
            forall|b: Seq<u8>|
                b.len() == 32 && #[trigger] base64url_encode(b) == s@ ==> (r matches Ok(k) && k@
                    == b),
    {
        match decode_32_base64(s) {
            Ok(b) => Ok(DhSecret::from_bytes(b)),
            Err(e) => Err(e),
        }
    }
}

} // verus!
