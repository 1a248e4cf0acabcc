//! Protocol data structures: timestamps, names, certificates, directory entries.

pub mod blob;
pub mod certificate;
pub mod directory;
pub mod event;
pub mod fragment;
pub mod group;
pub mod server;
pub mod timestamp;
pub mod username;
