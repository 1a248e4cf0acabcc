//! The directory client's rules: derived listings, building updates, header chain checks,
//! inclusion proofs and proof of work.

pub mod header_sync;
pub mod listing;
pub mod pow;
pub mod inclusion;
