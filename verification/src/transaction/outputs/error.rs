//! Errors of the commitment to transaction outputs.

use vstd::prelude::*;

verus! {

/// Two nodes of the merkle tree have no common parent.
#[derive(Clone, Copy, Debug, PartialEq, Eq, PartialOrd, Ord, Structural)]
pub enum MergeCbmtNodes {
    /// Canonical size overflow.
    SizeOverflow,
    /// Bitcoin value overflow.
    ValueOverflow,
}

/// The outputs have no merkle root.
#[derive(Clone, Debug)]
pub enum ComputeMerkleRoot {
    /// Failed to merge nodes of the merkle tree.
    MergeCbmtNodes(MergeCbmtNodes),
    /// Failed to compute the canonical size of the output at `index`.
    CanonicalSize { index: usize, source: String },
}

} // verus!
