//! The rules behind the RPC server.

pub mod hex;
pub mod index;
pub mod market;
pub mod server;
pub mod wallet;
