//! The node logic of the BitAssets sidechain: transaction commitments, peer
//! management, re-organisation of the side chain, and the rules behind the RPC
//! server. Everything here computes on plain values; sockets, databases and
//! timers belong to the caller.

pub mod hash;
pub mod net;
pub mod node;
pub mod rpc;
pub mod table;
pub mod transaction;
pub mod types;
