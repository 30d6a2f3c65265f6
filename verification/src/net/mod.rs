//! Peers: their addresses, the connections to them, and what is sent to them.

pub mod addr;
pub mod connect;
pub mod endpoint;
pub mod error;
pub mod known;
pub mod message;
pub mod peers;
pub mod redial;
pub mod seeds;

pub use addr::resolve_seed_address;
pub use error::Error;
pub use peers::Net;
