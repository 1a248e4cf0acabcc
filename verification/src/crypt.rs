//! Cryptographic primitives: hashing, signing, key exchange, symmetric encryption.

pub mod aead;
pub mod dh;
pub mod encoding;
pub mod hash;
pub mod signing;
pub mod stream;
