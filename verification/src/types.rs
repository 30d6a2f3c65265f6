//! Blocks, tips and transactions, as far as the node logic reads them.

use std::sync::Arc;

use vstd::prelude::*;

use crate::hash::{BlockHash, Hash256, MainBlockHash, Txid};
use crate::table::{Key, Table};

verus! {

/// Calls the `clone` of `std::sync::Arc`, and claims that the copy refers to
/// the same value.
#[verifier::external_body]
fn share(bytes: &Arc<Vec<u8>>) -> (shared: Arc<Vec<u8>>)
    ensures
        shared == *bytes,
{
    Arc::clone(bytes)
}

/// A transaction with its authorizations.
#[derive(Debug)]
pub struct AuthorizedTransaction {
    pub txid: Txid,
    /// The serialized transaction and authorizations.
    pub encoding: Arc<Vec<u8>>,
}

impl Clone for AuthorizedTransaction {
    fn clone(&self) -> (transaction: Self)
        ensures
            transaction == *self,
    {
        AuthorizedTransaction { txid: self.txid, encoding: share(&self.encoding) }
    }
}

/// A block header.
#[derive(Clone, Copy, Debug, PartialEq, Eq, Structural)]
pub struct Header {
    /// The hash of the header.
    pub hash: BlockHash,
    pub merkle_root: Hash256,
    /// The parent, unless this is the first block.
    pub prev_side_hash: Option<BlockHash>,
    /// The mainchain block that the block was built upon.
    pub prev_main_hash: MainBlockHash,
}

/// A block body.
#[derive(Debug)]
pub struct Body {
    /// The transactions with their authorizations, in order.
    pub transactions: Vec<AuthorizedTransaction>,
    /// The serialized body.
    pub encoding: Arc<Vec<u8>>,
}

/// A side chain block, with the mainchain block that verified it.
#[derive(Clone, Copy, Debug, PartialEq, Eq, PartialOrd, Ord, Hash, Structural)]
pub struct Tip {
    pub block_hash: BlockHash,
    pub main_block_hash: MainBlockHash,
}

/// What the mainchain says of a block that was mined blindly.
#[derive(Clone, Copy, Debug, PartialEq, Eq, Structural)]
pub enum BmmResult {
    Failed,
    Verified,
}

/// The deposits and withdrawal bundle events of a mainchain block, serialized.
#[derive(Debug)]
pub struct MainBlockInfo {
    pub events: Vec<Vec<u8>>,
}

/// A side chain block.
#[derive(Debug)]
pub struct Block {
    pub header: Header,
    pub body: Body,
}

/// A mainchain block.
#[derive(Debug)]
pub struct MainBlock {
    pub hash: MainBlockHash,
    pub info: MainBlockInfo,
}

/// What mainchain blocks did to the two way peg, the oldest block first.
pub type TwoWayPegData = Table<MainBlockHash, MainBlockInfo>;

impl Key for BlockHash {
    fn same(&self, other: &Self) -> (same: bool) {
        *self == *other
    }
}

impl Key for MainBlockHash {
    fn same(&self, other: &Self) -> (same: bool) {
        *self == *other
    }
}

impl Key for Txid {
    fn same(&self, other: &Self) -> (same: bool) {
        *self == *other
    }
}

impl Key for Tip {
    fn same(&self, other: &Self) -> (same: bool) {
        *self == *other
    }
}

} // verus!
