//! Core data structures and rules of the xirtam confederal messaging protocol:
//! hashes, signatures and key exchange, device certificate chains, directory
//! histories, group rosters and the decisions that drive the client.

pub mod bytes;
pub mod client;
pub mod crypt;
pub mod dirclient;
pub mod display;
pub mod gateway;
pub mod multitool;
pub mod rpc_pool;
pub mod structs;
