//! Transaction inputs and outputs, and the merkle roots that commit to them.

pub mod cbmt;
pub mod inputs;
pub mod outpoint;
pub mod output;
pub mod outputs;
