//! Hashes, and the byte encodings that are hashed.

use vstd::bytes::{
    lemma_auto_spec_u128_to_from_le_bytes, spec_u128_from_le_bytes, spec_u128_to_le_bytes,
    u128_from_le_bytes, u128_to_le_bytes,
};
use vstd::prelude::*;
use vstd::slice::slice_subrange;

verus! {

/// A 32 byte hash, held as its two halves. Each half is read little-endian, so
/// that two hashes are equal exactly when their bytes are.
#[derive(Clone, Copy, Debug, PartialEq, Eq, PartialOrd, Ord, Hash, Structural)]
pub struct Hash256 {
    pub first: u128,
    pub second: u128,
}

/// Hash of a side chain block header.
#[derive(Clone, Copy, Debug, PartialEq, Eq, PartialOrd, Ord, Hash, Structural)]
pub struct BlockHash(pub Hash256);

/// Hash of a mainchain block.
#[derive(Clone, Copy, Debug, PartialEq, Eq, PartialOrd, Ord, Hash, Structural)]
pub struct MainBlockHash(pub Hash256);

/// Transaction identifier.
#[derive(Clone, Copy, Debug, PartialEq, Eq, PartialOrd, Ord, Hash, Structural)]
pub struct Txid(pub Hash256);

/// The 32 byte BLAKE3 digest of `data`.
pub uninterp spec fn blake3_digest(data: Seq<u8>) -> Seq<u8>;

/// The hash that a digest of 32 bytes stands for.
pub open spec fn hash_of_bytes(bytes: Seq<u8>) -> Hash256 {
    Hash256 {
        first: spec_u128_from_le_bytes(bytes.subrange(0, 16)),
        second: spec_u128_from_le_bytes(bytes.subrange(16, 32)),
    }
}

/// The hash of an encoding.
pub open spec fn hash_spec(data: Seq<u8>) -> Hash256 {
    hash_of_bytes(blake3_digest(data))
}

/// The hash whose bytes are all zero.
pub open spec fn zero_hash() -> Hash256 {
    Hash256 { first: 0, second: 0 }
}

impl Hash256 {
    /// The 32 bytes of the hash.
    pub open spec fn bytes(self) -> Seq<u8> {
        spec_u128_to_le_bytes(self.first) + spec_u128_to_le_bytes(self.second)
    }

    pub fn to_bytes(&self) -> (bytes: Vec<u8>)
        ensures
            bytes@ == self.bytes(),
            bytes@.len() == 32,
    {
        let mut bytes = u128_to_le_bytes(self.first);
        let mut rest = u128_to_le_bytes(self.second);
        bytes.append(&mut rest);
        bytes
    }

    pub fn from_bytes(bytes: &[u8; 32]) -> (hash: Hash256)
        ensures
            hash == hash_of_bytes(bytes@),
            hash.bytes() == bytes@,
    {
        let all = bytes.as_slice();
        let hash = Hash256 {
            first: u128_from_le_bytes(slice_subrange(all, 0, 16)),
            second: u128_from_le_bytes(slice_subrange(all, 16, 32)),
        };
        proof {
            lemma_hash_of_bytes(bytes@);
        }
        hash
    }
}

/// The bytes of the hash that a 32 byte string stands for are that string.
pub proof fn lemma_hash_of_bytes(bytes: Seq<u8>)
    requires
        bytes.len() == 32,
    ensures
        hash_of_bytes(bytes).bytes() == bytes,
{
    lemma_auto_spec_u128_to_from_le_bytes();
    assert(bytes.subrange(0, 16) + bytes.subrange(16, 32) =~= bytes);
}

/// A hash has 32 bytes, and no two hashes have the same ones.
pub proof fn law_hash_bytes_are_injective(a: Hash256, b: Hash256)
    ensures
        a.bytes().len() == 32,
        hash_of_bytes(a.bytes()) == a,
        a.bytes() == b.bytes() ==> a == b,
{
    lemma_auto_spec_u128_to_from_le_bytes();
    assert(a.bytes().subrange(0, 16) =~= spec_u128_to_le_bytes(a.first));
    assert(a.bytes().subrange(16, 32) =~= spec_u128_to_le_bytes(a.second));
    assert(b.bytes().subrange(0, 16) =~= spec_u128_to_le_bytes(b.first));
    assert(b.bytes().subrange(16, 32) =~= spec_u128_to_le_bytes(b.second));
}

/// Calls `blake3::hash`, and claims only that the digest is a function of the
/// bytes hashed.
#[verifier::external_body]
fn blake3_hash(data: &[u8]) -> (digest: [u8; 32])
    ensures
        digest@ == blake3_digest(data@),
{
    *blake3::hash(data).as_bytes()
}

/// Hash an encoding.
pub fn hash(data: &[u8]) -> (digest: Hash256)
    ensures
        digest == hash_spec(data@),
        digest.bytes() == blake3_digest(data@),
{
    let digest = blake3_hash(data);
    Hash256::from_bytes(&digest)
}

} // verus!
