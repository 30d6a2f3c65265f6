//! Transaction outputs.

use vstd::prelude::*;

verus! {

/// What the commitment to an output reads of it.
#[derive(Debug)]
pub struct Output {
    /// Bitcoin value, in sats.
    pub bitcoin_value_sats: u64,
    /// Canonical size in bytes, or the message of the encoder that failed to
    /// measure it.
    pub measured_size: Result<u64, String>,
    /// Canonical encoding.
    pub encoding: Vec<u8>,
}

impl Output {
    pub fn get_bitcoin_value(&self) -> (sats: u64)
        ensures
            sats == self.bitcoin_value_sats,
    {
        self.bitcoin_value_sats
    }

    pub fn canonical_size(&self) -> (size: Result<u64, String>)
        ensures
            size == self.measured_size,
    {
        match &self.measured_size {
            Ok(size) => Ok(*size),
            Err(message) => Err(message.clone()),
        }
    }
}

impl Clone for Output {
    fn clone(&self) -> (output: Self)
        ensures
            output.bitcoin_value_sats == self.bitcoin_value_sats,
            output.measured_size == self.measured_size,
            output.encoding@ == self.encoding@,
    {
        Output {
            bitcoin_value_sats: self.bitcoin_value_sats,
            measured_size: self.canonical_size(),
            encoding: self.encoding.clone(),
        }
    }
}

} // verus!
