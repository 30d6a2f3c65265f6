//! The node: relaying transactions, re-organising the chain, and answering to
//! what peers and the mainchain report.

pub mod descendants;
pub mod error;
pub mod events;
pub mod relay;
pub mod reorg;
pub mod reorg_laws;
pub mod response;
pub mod response_laws;
pub mod task;
pub mod tip;
pub mod tip_laws;
