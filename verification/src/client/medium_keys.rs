use vstd::prelude::*;

use crate::crypt::dh::{x25519_public, DhSecret};
use crate::crypt::signing::{ed25519_sign, Signature, SigningSecret};
use crate::structs::server::{medium_pk_signed_value, SignedMediumPk};
use crate::structs::timestamp::Timestamp;

verus! {

/// The signed announcement of a fresh medium-term key: its public half, created at `created`,
/// signed by the device.
pub fn new_signed_medium_pk(
    sk: &DhSecret,
    device_secret: &SigningSecret,
    created: Timestamp,
) -> (m: SignedMediumPk)
    ensures
        m.medium_pk@ == x25519_public(sk@),
        m.created == created,
        m.signature@ == ed25519_sign(device_secret@, medium_pk_signed_value(m)),
{
    let mut signed = SignedMediumPk {
        medium_pk: sk.public_key(),
        created,
        signature: Signature::from_bytes([0u8; 64]),
    };
    signed.sign(device_secret);
    signed
}

} // verus!
