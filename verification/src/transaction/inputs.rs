//! The inputs of a transaction.

use std::cmp::Ordering;

use vstd::prelude::*;

use super::cbmt::{cbmt_node, cbmt_root};
use super::outpoint::OutPoint;
use crate::hash::{blake3_digest, hash, hash_of_bytes, hash_spec, zero_hash, Hash256};

mod tree;

use tree::merkle_root;

verus! {

/// Node of the merkle tree over the inputs.
#[derive(Clone, Copy, Debug, PartialEq, Eq, Structural)]
pub struct CbmtNode {
    /// Number of the node in the tree. Nodes are ordered by this, and nothing else.
    pub index: usize,
    /// Commitment to the child nodes, or to the leaf value.
    pub commitment: Hash256,
}

impl PartialOrd for CbmtNode {
    fn partial_cmp(&self, other: &Self) -> (order: Option<Ordering>) {
        if self.index < other.index {
            Some(Ordering::Less)
        } else if self.index == other.index {
            Some(Ordering::Equal)
        } else {
            Some(Ordering::Greater)
        }
    }
}

impl vstd::std_specs::cmp::PartialOrdSpecImpl for CbmtNode {
    open spec fn obeys_partial_cmp_spec() -> bool {
        true
    }

    open spec fn partial_cmp_spec(&self, other: &Self) -> Option<Ordering> {
        if self.index < other.index {
            Some(Ordering::Less)
        } else if self.index == other.index {
            Some(Ordering::Equal)
        } else {
            Some(Ordering::Greater)
        }
    }
}

/// Commitment of a branch over its children's commitments.
pub open spec fn merge_commitments(left: Hash256, right: Hash256) -> Hash256 {
    hash_spec(left.bytes() + right.bytes())
}

/// Commitment of the leaf for an input.
pub open spec fn leaf_commitment(outpoint: OutPoint) -> Hash256 {
    hash_spec(outpoint.encoding())
}

/// Commitments of the leaves, in the order of the inputs.
pub open spec fn leaf_commitments(outpoints: Seq<OutPoint>) -> Seq<Hash256> {
    Seq::new(outpoints.len(), |i: int| leaf_commitment(outpoints[i]))
}

/// The merkle root over a list of inputs. No inputs have the zero root.
pub open spec fn inputs_merkle_root(outpoints: Seq<OutPoint>) -> Hash256 {
    cbmt_root(
        leaf_commitments(outpoints),
        |left: Hash256, right: Hash256| merge_commitments(left, right),
        zero_hash(),
    )
}

/// The parent of two sibling nodes.
pub open spec fn merged(left: CbmtNode, right: CbmtNode) -> CbmtNode {
    CbmtNode {
        index: ((left.index - 1) / 2) as usize,
        commitment: merge_commitments(left.commitment, right.commitment),
    }
}

/// Whether two nodes are the left and the right child of one node.
pub open spec fn siblings(left: CbmtNode, right: CbmtNode) -> bool {
    left.index >= 1 && left.index + 1 == right.index
}

/// Merge two siblings into their parent.
pub fn merge_nodes(left: &CbmtNode, right: &CbmtNode) -> (node: CbmtNode)
    requires
        siblings(*left, *right),
    ensures
        node == merged(*left, *right),
{
    let mut data = left.commitment.to_bytes();
    let mut rest = right.commitment.to_bytes();
    data.append(&mut rest);
    CbmtNode { index: (left.index - 1) / 2, commitment: hash(data.as_slice()) }
}

impl Default for CbmtNode {
    fn default() -> (node: Self)
        ensures
            node == (CbmtNode { index: 0, commitment: zero_hash() }),
    {
        CbmtNode { index: 0, commitment: Hash256 { first: 0, second: 0 } }
    }
}

/// Whether the leaves are numbered as the last nodes of a tree over them.
pub open spec fn numbered_as_leaves(leaves: Seq<CbmtNode>) -> bool {
    forall|i: int| 0 <= i < leaves.len() ==> (#[trigger] leaves[i]).index == i + leaves.len() - 1
}

/// Node `i` of the tree over numbered leaves carries the number `i`, and the
/// commitment that the tree over the leaves' commitments has there. The two
/// children of every branch are therefore siblings.
pub proof fn law_nodes_are_numbered(leaves: Seq<CbmtNode>, i: int)
    requires
        numbered_as_leaves(leaves),
        0 <= i < 2 * leaves.len() - 1,
        2 * leaves.len() <= usize::MAX,
    ensures
        cbmt_node(leaves, |left: CbmtNode, right: CbmtNode| merged(left, right), i) == (CbmtNode {
            index: i as usize,
            commitment: cbmt_node(
                leaves.map_values(|node: CbmtNode| node.commitment),
                |left: Hash256, right: Hash256| merge_commitments(left, right),
                i,
            ),
        }),
        i < leaves.len() - 1 ==> siblings(
            cbmt_node(leaves, |left: CbmtNode, right: CbmtNode| merged(left, right), 2 * i + 1),
            cbmt_node(leaves, |left: CbmtNode, right: CbmtNode| merged(left, right), 2 * i + 2),
        ),
    decreases 2 * leaves.len() - i,
{
    if i < leaves.len() - 1 {
        law_nodes_are_numbered(leaves, 2 * i + 1);
        law_nodes_are_numbered(leaves, 2 * i + 2);
    }
}

/// The inputs of a transaction, in order.
#[derive(Clone, Debug)]
pub struct Inputs(pub Vec<OutPoint>);

impl View for Inputs {
    type V = Seq<OutPoint>;

    open spec fn view(&self) -> Seq<OutPoint> {
        self.0@
    }
}

impl Inputs {
    pub fn as_slice(&self) -> (inputs: &[OutPoint])
        ensures
            inputs@ == self@,
    {
        self.0.as_slice()
    }

    /// Append inputs.
    pub fn extend(&mut self, inputs: &[OutPoint])
        ensures
            final(self)@ == old(self)@ + inputs@,
    {
        self.0.extend_from_slice(inputs);
        assert(self@ =~= old(self)@ + inputs@);
    }

    pub fn get(&self, index: usize) -> (input: Option<&OutPoint>)
        ensures
            input == (if index < self@.len() {
                Some(&self@[index as int])
            } else {
                None
            }),
    {
        if index < self.0.len() {
            Some(&self.0[index])
        } else {
            None
        }
    }

    pub fn last(&self) -> (input: Option<&OutPoint>)
        ensures
            input == (if self@.len() > 0 {
                Some(&self@.last())
            } else {
                None
            }),
    {
        let len = self.0.len();
        if len > 0 {
            Some(&self.0[len - 1])
        } else {
            None
        }
    }

    /// Move the last `mid` inputs to the front.
    pub fn rotate_right(&mut self, mid: usize)
        requires
            mid <= old(self)@.len(),
        ensures
            final(self)@ == old(self)@.skip(old(self)@.len() - mid) + old(self)@.take(
                old(self)@.len() - mid,
            ),
    {
        let at: usize = self.0.len() - mid;
        let mut rotated = self.0.split_off(at);
        rotated.append(&mut self.0);
        self.0 = rotated;
    }

    pub fn is_empty(&self) -> (empty: bool)
        ensures
            empty == (self@.len() == 0),
    {
        self.0.is_empty()
    }

    pub fn iter(&self) -> (inputs: std::slice::Iter<'_, OutPoint>)
        ensures
            vstd::std_specs::iter::IteratorSpec::remaining(&inputs) == self@.as_ref(),
    {
        self.0.as_slice().iter()
    }

    pub fn len(&self) -> (len: usize)
        ensures
            len == self@.len(),
    {
        self.0.len()
    }

    pub fn push(&mut self, input: OutPoint)
        ensures
            final(self)@ == old(self)@.push(input),
    {
        self.0.push(input)
    }

    /// Take out the input at `index`.
    pub fn remove(&mut self, index: usize) -> (input: OutPoint)
        requires
            index < old(self)@.len(),
        ensures
            input == old(self)@[index as int],
            final(self)@ == old(self)@.remove(index as int),
    {
        self.0.remove(index)
    }

    /// The leaves of the merkle tree over the inputs.
    pub fn merkle_leaves(&self) -> (leaves: Vec<CbmtNode>)
        requires
            2 * self@.len() <= usize::MAX,
        ensures
            numbered_as_leaves(leaves@),
            leaves@.map_values(|node: CbmtNode| node.commitment) == leaf_commitments(self@),
    {
        let n_inputs = self.len();
        let mut leaves: Vec<CbmtNode> = Vec::new();
        for index in 0..n_inputs
            invariant
                n_inputs == self@.len(),
                2 * n_inputs <= usize::MAX,
                leaves@.len() == index,
                forall|i: int| #![trigger leaves@[i]]
                    0 <= i < index ==> leaves@[i] == (CbmtNode {
                        index: (i + n_inputs - 1) as usize,
                        commitment: leaf_commitment(self@[i]),
                    }),
        {
            let data = self.0[index].encode();
            leaves.push(
                CbmtNode { index: (index + n_inputs) - 1, commitment: hash(data.as_slice()) },
            );
        }
        assert(leaves@.map_values(|node: CbmtNode| node.commitment) =~= leaf_commitments(self@));
        leaves
    }

    /// The commitment to all inputs.
    pub fn compute_merkle_root(&self) -> (root: Hash256)
        requires
            2 * self@.len() <= usize::MAX,
        ensures
            root == inputs_merkle_root(self@),
    {
        let leaves = self.merkle_leaves();
        let root = merkle_root(&leaves);
        proof {
            assert(leaves@.len() == self@.len()) by {
                assert(leaves@.map_values(|node: CbmtNode| node.commitment).len()
                    == leaf_commitments(self@).len());
            }
            if leaves@.len() > 0 {
                law_nodes_are_numbered(leaves@, 0);
            }
        }
        root.commitment
    }
}

impl std::ops::Index<usize> for Inputs {
    type Output = OutPoint;

    fn index(&self, index: usize) -> (input: &OutPoint)
        ensures
            *input == self@[index as int],
    {
        &self.0[index]
    }
}

impl vstd::std_specs::core::IndexSpecImpl<usize> for Inputs {
    open spec fn index_req(&self, index: &usize) -> bool {
        *index < self@.len()
    }
}

impl IntoIterator for Inputs {
    type IntoIter = std::vec::IntoIter<OutPoint>;

    type Item = OutPoint;

    fn into_iter(self) -> (inputs: std::vec::IntoIter<OutPoint>)
        ensures
            vstd::std_specs::iter::IteratorSpec::remaining(&inputs) == self@,
    {
        self.0.into_iter()
    }
}

impl<'a> IntoIterator for &'a Inputs {
    type IntoIter = std::slice::Iter<'a, OutPoint>;

    type Item = &'a OutPoint;

    fn into_iter(self) -> (inputs: std::slice::Iter<'a, OutPoint>)
        ensures
            vstd::std_specs::iter::IteratorSpec::remaining(&inputs) == self@.as_ref(),
    {
        self.iter()
    }
}

impl Default for Inputs {
    fn default() -> (inputs: Self)
        ensures
            inputs@ == Seq::<OutPoint>::empty(),
    {
        Inputs(Vec::new())
    }
}

impl From<Vec<OutPoint>> for Inputs {
    fn from(inputs: Vec<OutPoint>) -> (result: Self) {
        Inputs(inputs)
    }
}

impl vstd::std_specs::convert::FromSpecImpl<Vec<OutPoint>> for Inputs {
    open spec fn obeys_from_spec() -> bool {
        true
    }

    open spec fn from_spec(inputs: Vec<OutPoint>) -> Self {
        Inputs(inputs)
    }
}

impl From<Inputs> for Vec<OutPoint> {
    fn from(inputs: Inputs) -> (result: Self) {
        inputs.0
    }
}

impl vstd::std_specs::convert::FromSpecImpl<Inputs> for Vec<OutPoint> {
    open spec fn obeys_from_spec() -> bool {
        true
    }

    open spec fn from_spec(inputs: Inputs) -> Self {
        inputs.0
    }
}

/// The root over the inputs is the first node of the complete binary tree whose
/// last nodes are the hashes of the encoded inputs, in order, and whose other nodes
/// are the hashes of the bytes of their two children, the left one first: the
/// children of node `i` are nodes `2 * i + 1` and `2 * i + 2`. No inputs have the
/// zero root.
pub proof fn law_inputs_root_hashes_the_tree(outpoints: Seq<OutPoint>, nodes: Seq<Hash256>)
    requires
        nodes.len() == if outpoints.len() == 0 {
            0
        } else {
            2 * outpoints.len() - 1
        },
        forall|i: int|
            outpoints.len() - 1 <= i < nodes.len() ==> #[trigger] nodes[i] == hash_of_bytes(
                blake3_digest(outpoints[i - (outpoints.len() - 1)].encoding()),
            ),
        forall|i: int|
            0 <= i < outpoints.len() - 1 ==> #[trigger] nodes[i] == hash_of_bytes(
                blake3_digest(nodes[2 * i + 1].bytes() + nodes[2 * i + 2].bytes()),
            ),
    ensures
        inputs_merkle_root(outpoints) == if outpoints.len() == 0 {
            Hash256 { first: 0, second: 0 }
        } else {
            nodes[0]
        },
{
    if outpoints.len() > 0 {
        lemma_tree_node(outpoints, nodes, 0);
    }
}

proof fn lemma_tree_node(outpoints: Seq<OutPoint>, nodes: Seq<Hash256>, i: int)
    requires
        0 <= i < nodes.len(),
        nodes.len() == 2 * outpoints.len() - 1,
        forall|i: int|
            outpoints.len() - 1 <= i < nodes.len() ==> #[trigger] nodes[i] == hash_of_bytes(
                blake3_digest(outpoints[i - (outpoints.len() - 1)].encoding()),
            ),
        forall|i: int|
            0 <= i < outpoints.len() - 1 ==> #[trigger] nodes[i] == hash_of_bytes(
                blake3_digest(nodes[2 * i + 1].bytes() + nodes[2 * i + 2].bytes()),
            ),
    ensures
        cbmt_node(
            leaf_commitments(outpoints),
            |left: Hash256, right: Hash256| merge_commitments(left, right),
            i,
        ) == nodes[i],
    decreases nodes.len() - i,
{
    if i < outpoints.len() - 1 {
        lemma_tree_node(outpoints, nodes, 2 * i + 1);
        lemma_tree_node(outpoints, nodes, 2 * i + 2);
    }
}

} // verus!
