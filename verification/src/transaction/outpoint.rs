//! References to transaction outputs.

use vstd::bytes::{
    lemma_auto_spec_u32_to_from_le_bytes, spec_u32_from_le_bytes, spec_u32_to_le_bytes,
    u32_to_le_bytes,
};
use vstd::prelude::*;

use crate::hash::{law_hash_bytes_are_injective, Hash256, Txid};

verus! {

/// The output that an input spends.
#[derive(Clone, Copy, Debug, PartialEq, Eq, PartialOrd, Ord, Hash, Structural)]
pub enum OutPoint {
    /// Created by a transaction.
    Regular { txid: Txid, vout: u32 },
    /// Created by the coinbase of a block body.
    Coinbase { merkle_root: Hash256, vout: u32 },
    /// Created by a mainchain deposit.
    Deposit { main_txid: Hash256, vout: u32 },
}

impl OutPoint {
    /// The canonical encoding: the variant, the hash, and the output number as
    /// four bytes, least significant first.
    pub open spec fn encoding(self) -> Seq<u8> {
        match self {
            OutPoint::Regular { txid, vout } => seq![0u8] + txid.0.bytes()
                + spec_u32_to_le_bytes(vout),
            OutPoint::Coinbase { merkle_root, vout } => seq![1u8] + merkle_root.bytes()
                + spec_u32_to_le_bytes(vout),
            OutPoint::Deposit { main_txid, vout } => seq![2u8] + main_txid.bytes()
                + spec_u32_to_le_bytes(vout),
        }
    }

    pub fn encode(&self) -> (bytes: Vec<u8>)
        ensures
            bytes@ == self.encoding(),
    {
        let (tag, hash, vout): (u8, Hash256, u32) = match *self {
            OutPoint::Regular { txid, vout } => (0u8, txid.0, vout),
            OutPoint::Coinbase { merkle_root, vout } => (1u8, merkle_root, vout),
            OutPoint::Deposit { main_txid, vout } => (2u8, main_txid, vout),
        };
        let mut bytes: Vec<u8> = Vec::new();
        bytes.push(tag);
        let mut hash_bytes = hash.to_bytes();
        bytes.append(&mut hash_bytes);
        let mut vout_bytes = u32_to_le_bytes(vout);
        bytes.append(&mut vout_bytes);
        bytes
    }
}

/// The encoding of an outpoint has 37 bytes: the first one tells what created the
/// output, then come the 32 bytes of the hash, and then the output number in four
/// bytes. No two outpoints have the same encoding.
pub proof fn law_outpoint_encoding(outpoint: OutPoint, other: OutPoint)
    ensures
        ({
            let bytes = outpoint.encoding();
            let (tag, hash, vout) = match outpoint {
                OutPoint::Regular { txid, vout } => (0u8, txid.0, vout),
                OutPoint::Coinbase { merkle_root, vout } => (1u8, merkle_root, vout),
                OutPoint::Deposit { main_txid, vout } => (2u8, main_txid, vout),
            };
            &&& bytes.len() == 37
            &&& bytes[0] == tag
            &&& bytes.subrange(1, 33) == hash.bytes()
            &&& bytes.subrange(33, 37) == spec_u32_to_le_bytes(vout)
        }),
        outpoint.encoding() == other.encoding() ==> outpoint == other,
{
    lemma_auto_spec_u32_to_from_le_bytes();
    lemma_parts(outpoint);
    lemma_parts(other);
    if outpoint.encoding() == other.encoding() {
        let (a, b) = (hash_of(outpoint), hash_of(other));
        law_hash_bytes_are_injective(a, b);
    }
}

spec fn hash_of(outpoint: OutPoint) -> Hash256 {
    match outpoint {
        OutPoint::Regular { txid, .. } => txid.0,
        OutPoint::Coinbase { merkle_root, .. } => merkle_root,
        OutPoint::Deposit { main_txid, .. } => main_txid,
    }
}

proof fn lemma_parts(outpoint: OutPoint)
    ensures
        ({
            let bytes = outpoint.encoding();
            let (tag, vout) = match outpoint {
                OutPoint::Regular { vout, .. } => (0u8, vout),
                OutPoint::Coinbase { vout, .. } => (1u8, vout),
                OutPoint::Deposit { vout, .. } => (2u8, vout),
            };
            &&& bytes.len() == 37
            &&& bytes[0] == tag
            &&& bytes.subrange(1, 33) == hash_of(outpoint).bytes()
            &&& bytes.subrange(33, 37) == spec_u32_to_le_bytes(vout)
            &&& spec_u32_from_le_bytes(bytes.subrange(33, 37)) == vout
        }),
{
    lemma_auto_spec_u32_to_from_le_bytes();
    let bytes = outpoint.encoding();
    let hash = hash_of(outpoint);
    law_hash_bytes_are_injective(hash, hash);
    let vout = match outpoint {
        OutPoint::Regular { vout, .. } => vout,
        OutPoint::Coinbase { vout, .. } => vout,
        OutPoint::Deposit { vout, .. } => vout,
    };
    assert(spec_u32_to_le_bytes(vout).len() == 4);
    assert(bytes.subrange(1, 33) =~= hash.bytes());
    assert(bytes.subrange(33, 37) =~= spec_u32_to_le_bytes(vout));
}

} // verus!
