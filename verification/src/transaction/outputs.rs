//! The outputs of a transaction.

use std::cmp::Ordering;

use vstd::bytes::{spec_u64_to_le_bytes, u64_to_le_bytes};
use vstd::prelude::*;

use super::cbmt::{cbmt_node, cbmt_root, lemma_root_is_total, total};
use super::output::Output;
use crate::hash::{blake3_digest, hash, hash_of_bytes, hash_spec, zero_hash, Hash256};

pub mod error;
mod tree;

use error::{ComputeMerkleRoot, MergeCbmtNodes};
use tree::merkle_root;

verus! {

/// What a node of the merkle tree over the outputs carries.
#[derive(Clone, Copy, Debug, PartialEq, Eq, PartialOrd, Ord, Structural)]
pub struct CbmtNode {
    /// Commitment to the child nodes, or to the leaf value.
    pub commitment: Hash256,
    /// Sum of the values of the child nodes, or the leaf value, in sats.
    pub value_sats: u64,
    /// Sum of the canonical sizes of the child nodes, or the leaf's own.
    pub canonical_size: u64,
}

/// Node of the merkle tree over the outputs.
#[derive(Clone, Copy, Debug, PartialEq, Eq)]
pub struct CbmtNodeResult {
    /// Number of the node in the tree. Nodes are ordered by this, and nothing else.
    pub index: usize,
    pub value: Result<CbmtNode, MergeCbmtNodes>,
}

impl PartialOrd for CbmtNodeResult {
    fn partial_cmp(&self, other: &Self) -> (order: Option<Ordering>) {
        if self.index < other.index {
            Some(Ordering::Less)
        } else if self.index == other.index {
            Some(Ordering::Equal)
        } else {
            Some(Ordering::Greater)
        }
    }
}

impl vstd::std_specs::cmp::PartialOrdSpecImpl for CbmtNodeResult {
    open spec fn obeys_partial_cmp_spec() -> bool {
        true
    }

    open spec fn partial_cmp_spec(&self, other: &Self) -> Option<Ordering> {
        if self.index < other.index {
            Some(Ordering::Less)
        } else if self.index == other.index {
            Some(Ordering::Equal)
        } else {
            Some(Ordering::Greater)
        }
    }
}

/// The preimage of a leaf's commitment: value, size and the output itself.
pub open spec fn leaf_pre_commitment(output: Output, canonical_size: u64) -> Seq<u8> {
    spec_u64_to_le_bytes(output.bitcoin_value_sats) + spec_u64_to_le_bytes(canonical_size)
        + output.encoding@
}

/// The preimage of a branch's commitment: the totals stand between the
/// commitments of the children.
pub open spec fn node_pre_commitment(
    left: Hash256,
    value_sats: u64,
    canonical_size: u64,
    right: Hash256,
) -> Seq<u8> {
    left.bytes() + spec_u64_to_le_bytes(value_sats) + spec_u64_to_le_bytes(canonical_size)
        + right.bytes()
}

/// What the parent of two nodes carries. A child's error stays the error, the
/// left child's first; a value overflow comes before a size overflow.
pub open spec fn merged(
    left: Result<CbmtNode, MergeCbmtNodes>,
    right: Result<CbmtNode, MergeCbmtNodes>,
) -> Result<CbmtNode, MergeCbmtNodes> {
    match (left, right) {
        (Err(err), _) => Err(err),
        (Ok(_), Err(err)) => Err(err),
        (Ok(l), Ok(r)) => if l.value_sats + r.value_sats > u64::MAX {
            Err(MergeCbmtNodes::ValueOverflow)
        } else if l.canonical_size + r.canonical_size > u64::MAX {
            Err(MergeCbmtNodes::SizeOverflow)
        } else {
            let value_sats = (l.value_sats + r.value_sats) as u64;
            let canonical_size = (l.canonical_size + r.canonical_size) as u64;
            Ok(
                CbmtNode {
                    commitment: hash_spec(
                        node_pre_commitment(
                            l.commitment,
                            value_sats,
                            canonical_size,
                            r.commitment,
                        ),
                    ),
                    value_sats,
                    canonical_size,
                },
            )
        },
    }
}

/// The parent of two sibling nodes.
pub open spec fn merged_nodes(left: CbmtNodeResult, right: CbmtNodeResult) -> CbmtNodeResult {
    CbmtNodeResult {
        index: ((left.index - 1) / 2) as usize,
        value: merged(left.value, right.value),
    }
}

/// Whether two nodes are the left and the right child of one node.
pub open spec fn siblings(left: CbmtNodeResult, right: CbmtNodeResult) -> bool {
    left.index >= 1 && left.index + 1 == right.index
}

/// What the leaf for an output carries, given its canonical size.
pub open spec fn leaf(output: Output, canonical_size: u64) -> CbmtNode {
    CbmtNode {
        commitment: hash_spec(leaf_pre_commitment(output, canonical_size)),
        value_sats: output.bitcoin_value_sats,
        canonical_size,
    }
}

/// What the leaves carry, in the order of the outputs.
pub open spec fn leaves_of(outputs: Seq<Output>) -> Seq<Result<CbmtNode, MergeCbmtNodes>> {
    Seq::new(outputs.len(), |i: int| Ok(leaf(outputs[i], outputs[i].measured_size->Ok_0)))
}

/// What the node over no output carries.
pub open spec fn empty_node() -> CbmtNode {
    CbmtNode { commitment: zero_hash(), value_sats: 0, canonical_size: 0 }
}

/// What the root over outputs of known size carries.
pub open spec fn outputs_root_node(outputs: Seq<Output>) -> Result<CbmtNode, MergeCbmtNodes> {
    cbmt_root(
        leaves_of(outputs),
        |l: Result<CbmtNode, MergeCbmtNodes>, r: Result<CbmtNode, MergeCbmtNodes>| merged(l, r),
        Ok(empty_node()),
    )
}

/// Whether the canonical size of every output is known.
pub open spec fn all_measured(outputs: Seq<Output>) -> bool {
    forall|i: int| 0 <= i < outputs.len() ==> (#[trigger] outputs[i]).measured_size is Ok
}

/// Whether output `i` is the first whose canonical size is not known.
pub open spec fn first_unmeasured(outputs: Seq<Output>, i: int) -> bool {
    &&& 0 <= i < outputs.len()
    &&& outputs[i].measured_size is Err
    &&& all_measured(outputs.take(i))
}

/// Calls `bitcoin::Amount::checked_add` on amounts given in sats. It claims
/// that the sum comes back where it fits 64 bits, and nothing where it does
/// not.
#[verifier::external_body]
fn checked_add_sats(left: u64, right: u64) -> (sum: Option<u64>)
    ensures
        left + right <= u64::MAX ==> sum == Some((left + right) as u64),
        left + right > u64::MAX ==> sum is None,
{
    bitcoin::Amount::from_sat(left)
        .checked_add(bitcoin::Amount::from_sat(right))
        .map(|sum| sum.to_sat())
}

/// The commitment of a branch.
fn hash_node(left: &CbmtNode, value_sats: u64, canonical_size: u64, right: &CbmtNode) -> (digest:
    Hash256)
    ensures
        digest == hash_spec(
            node_pre_commitment(left.commitment, value_sats, canonical_size, right.commitment),
        ),
{
    let mut data = left.commitment.to_bytes();
    let mut value = u64_to_le_bytes(value_sats);
    data.append(&mut value);
    let mut size = u64_to_le_bytes(canonical_size);
    data.append(&mut size);
    let mut rest = right.commitment.to_bytes();
    data.append(&mut rest);
    hash(data.as_slice())
}

/// Merge two siblings into their parent, with the totals of the branch.
pub fn merge_nodes(left: &CbmtNodeResult, right: &CbmtNodeResult) -> (node: CbmtNodeResult)
    requires
        siblings(*left, *right),
    ensures
        node == merged_nodes(*left, *right),
{
    let index: usize = (left.index - 1) / 2;
    let l = match left.value {
        Ok(node) => node,
        Err(err) => return CbmtNodeResult { index, value: Err(err) },
    };
    let r = match right.value {
        Ok(node) => node,
        Err(err) => return CbmtNodeResult { index, value: Err(err) },
    };
    let value_sats: u64 = match checked_add_sats(l.value_sats, r.value_sats) {
        Some(sum) => sum,
        None => return CbmtNodeResult { index, value: Err(MergeCbmtNodes::ValueOverflow) },
    };
    let canonical_size: u64 = match l.canonical_size.checked_add(r.canonical_size) {
        Some(sum) => sum,
        None => return CbmtNodeResult { index, value: Err(MergeCbmtNodes::SizeOverflow) },
    };
    let commitment = hash_node(&l, value_sats, canonical_size, &r);
    CbmtNodeResult { index, value: Ok(CbmtNode { commitment, value_sats, canonical_size }) }
}

impl Default for CbmtNodeResult {
    fn default() -> (node: Self)
        ensures
            node == (CbmtNodeResult { index: 0, value: Ok(empty_node()) }),
    {
        CbmtNodeResult {
            index: 0,
            value: Ok(
                CbmtNode {
                    commitment: Hash256 { first: 0, second: 0 },
                    value_sats: 0,
                    canonical_size: 0,
                },
            ),
        }
    }
}

/// Whether the leaves are numbered as the last nodes of a tree over them.
pub open spec fn numbered_as_leaves(leaves: Seq<CbmtNodeResult>) -> bool {
    forall|i: int| 0 <= i < leaves.len() ==> (#[trigger] leaves[i]).index == i + leaves.len() - 1
}

/// Node `i` of the tree over numbered leaves carries the number `i`, and what
/// the tree over the leaves' values has there. The two children of every branch
/// are therefore siblings.
pub proof fn law_nodes_are_numbered(leaves: Seq<CbmtNodeResult>, i: int)
    requires
        numbered_as_leaves(leaves),
        0 <= i < 2 * leaves.len() - 1,
        2 * leaves.len() <= usize::MAX,
    ensures
        cbmt_node(leaves, |l: CbmtNodeResult, r: CbmtNodeResult| merged_nodes(l, r), i) == (
        CbmtNodeResult {
            index: i as usize,
            value: cbmt_node(
                leaves.map_values(|node: CbmtNodeResult| node.value),
                |l: Result<CbmtNode, MergeCbmtNodes>, r: Result<CbmtNode, MergeCbmtNodes>|
                    merged(l, r),
                i,
            ),
        }),
        i < leaves.len() - 1 ==> siblings(
            cbmt_node(
                leaves,
                |l: CbmtNodeResult, r: CbmtNodeResult| merged_nodes(l, r),
                2 * i + 1,
            ),
            cbmt_node(
                leaves,
                |l: CbmtNodeResult, r: CbmtNodeResult| merged_nodes(l, r),
                2 * i + 2,
            ),
        ),
    decreases 2 * leaves.len() - i,
{
    if i < leaves.len() - 1 {
        law_nodes_are_numbered(leaves, 2 * i + 1);
        law_nodes_are_numbered(leaves, 2 * i + 2);
    }
}

/// The values of outputs, in sats.
pub open spec fn values_of(outputs: Seq<Output>) -> Seq<int> {
    Seq::new(outputs.len(), |i: int| outputs[i].bitcoin_value_sats as int)
}

/// The canonical sizes of outputs.
pub open spec fn sizes_of(outputs: Seq<Output>) -> Seq<int> {
    Seq::new(outputs.len(), |i: int| outputs[i].measured_size->Ok_0 as int)
}

proof fn lemma_branch_totals(outputs: Seq<Output>, i: int)
    requires
        0 <= i < 2 * outputs.len() - 1,
    ensures
        ({
            let node = cbmt_node(
                leaves_of(outputs),
                |l: Result<CbmtNode, MergeCbmtNodes>, r: Result<CbmtNode, MergeCbmtNodes>|
                    merged(l, r),
                i,
            );
            let value = cbmt_node(values_of(outputs), |a: int, b: int| a + b, i);
            let size = cbmt_node(sizes_of(outputs), |a: int, b: int| a + b, i);
            &&& 0 <= value && 0 <= size
            &&& node is Ok <==> value <= u64::MAX && size <= u64::MAX
            &&& node matches Ok(node) ==> node.value_sats == value && node.canonical_size == size
        }),
    decreases 2 * outputs.len() - i,
{
    if i < outputs.len() - 1 {
        lemma_branch_totals(outputs, 2 * i + 1);
        lemma_branch_totals(outputs, 2 * i + 2);
    }
}

/// The root over the outputs carries the sum of their values and the sum of
/// their canonical sizes, and it exists exactly when both sums fit 64 bits.
pub proof fn law_root_carries_totals(outputs: Seq<Output>)
    ensures
        outputs_root_node(outputs) is Ok <==> total(values_of(outputs)) <= u64::MAX && total(
            sizes_of(outputs),
        ) <= u64::MAX,
        outputs_root_node(outputs) matches Ok(node) ==> node.value_sats == total(values_of(outputs))
            && node.canonical_size == total(sizes_of(outputs)),
{
    if outputs.len() > 0 {
        lemma_branch_totals(outputs, 0);
        lemma_root_is_total(values_of(outputs));
        lemma_root_is_total(sizes_of(outputs));
    }
}

/// The outputs of a transaction, in order.
#[derive(Clone, Debug)]
pub struct Outputs(pub Vec<Output>);

impl View for Outputs {
    type V = Seq<Output>;

    open spec fn view(&self) -> Seq<Output> {
        self.0@
    }
}

impl Outputs {
    pub fn as_slice(&self) -> (outputs: &[Output])
        ensures
            outputs@ == self@,
    {
        self.0.as_slice()
    }

    /// The leaves of the merkle tree over the outputs, or the error of the
    /// first output whose canonical size is not known.
    pub fn merkle_leaves(&self) -> (leaves: Result<Vec<CbmtNodeResult>, ComputeMerkleRoot>)
        requires
            2 * self@.len() <= usize::MAX,
        ensures
            leaves is Ok <==> all_measured(self@),
            leaves matches Ok(leaves) ==> {
                &&& numbered_as_leaves(leaves@)
                &&& leaves@.map_values(|node: CbmtNodeResult| node.value) == leaves_of(self@)
            },
            leaves matches Err(err) ==> {
                &&& err matches ComputeMerkleRoot::CanonicalSize { index, source }
                &&& first_unmeasured(self@, index as int)
                &&& source == self@[index as int].measured_size->Err_0
            },
    {
        let n_outputs = self.len();
        let mut leaves: Vec<CbmtNodeResult> = Vec::new();
        for index in 0..n_outputs
            invariant
                n_outputs == self@.len(),
                2 * n_outputs <= usize::MAX,
                leaves@.len() == index,
                forall|i: int| #![trigger leaves@[i]]
                    0 <= i < index ==> leaves@[i] == (CbmtNodeResult {
                        index: (i + n_outputs - 1) as usize,
                        value: Ok(leaf(self@[i], self@[i].measured_size->Ok_0)),
                    }),
                forall|i: int| 0 <= i < index ==> (#[trigger] self@[i]).measured_size is Ok,
        {
            let output = &self.0[index];
            let value_sats = output.get_bitcoin_value();
            let canonical_size: u64 = match output.canonical_size() {
                Ok(size) => size,
                Err(source) => return Err(ComputeMerkleRoot::CanonicalSize { index, source }),
            };
            let mut data = u64_to_le_bytes(value_sats);
            let mut size = u64_to_le_bytes(canonical_size);
            data.append(&mut size);
            data.extend_from_slice(output.encoding.as_slice());
            assert(data@ =~= leaf_pre_commitment(*output, canonical_size));
            let commitment = hash(data.as_slice());
            leaves.push(
                CbmtNodeResult {
                    index: (index + n_outputs) - 1,
                    value: Ok(CbmtNode { commitment, value_sats, canonical_size }),
                },
            );
        }
        assert(leaves@.map_values(|node: CbmtNodeResult| node.value) =~= leaves_of(self@));
        Ok(leaves)
    }

    /// The commitment to all outputs, their values and their sizes.
    pub fn compute_merkle_root(&self) -> (root: Result<Hash256, ComputeMerkleRoot>)
        requires
            2 * self@.len() <= usize::MAX,
        ensures
            root is Ok <==> {
                &&& all_measured(self@)
                &&& total(values_of(self@)) <= u64::MAX
                &&& total(sizes_of(self@)) <= u64::MAX
            },
            root matches Ok(root) ==> {
                &&& all_measured(self@)
                &&& outputs_root_node(self@) matches Ok(node)
                &&& root == node.commitment
            },
            root matches Err(ComputeMerkleRoot::MergeCbmtNodes(err)) ==> {
                &&& all_measured(self@)
                &&& outputs_root_node(self@) == Err::<CbmtNode, MergeCbmtNodes>(err)
            },
            root matches Err(ComputeMerkleRoot::CanonicalSize { index, source }) ==> {
                &&& first_unmeasured(self@, index as int)
                &&& source == self@[index as int].measured_size->Err_0
            },
    {
        let leaves = match self.merkle_leaves() {
            Ok(leaves) => leaves,
            Err(err) => return Err(err),
        };
        let root = merkle_root(&leaves);
        proof {
            assert(leaves@.len() == self@.len()) by {
                assert(leaves@.map_values(|node: CbmtNodeResult| node.value).len() == leaves_of(
                    self@,
                ).len());
            }
            if leaves@.len() > 0 {
                law_nodes_are_numbered(leaves@, 0);
            }
            law_root_carries_totals(self@);
        }
        match root.value {
            Ok(node) => Ok(node.commitment),
            Err(err) => Err(ComputeMerkleRoot::MergeCbmtNodes(err)),
        }
    }

    /// Append outputs.
    pub fn extend(&mut self, outputs: Vec<Output>)
        ensures
            final(self)@ == old(self)@ + outputs@,
    {
        let mut outputs = outputs;
        self.0.append(&mut outputs);
    }

    pub fn get(&self, index: usize) -> (output: Option<&Output>)
        ensures
            output == (if index < self@.len() {
                Some(&self@[index as int])
            } else {
                None
            }),
    {
        if index < self.0.len() {
            Some(&self.0[index])
        } else {
            None
        }
    }

    pub fn last(&self) -> (output: Option<&Output>)
        ensures
            output == (if self@.len() > 0 {
                Some(&self@.last())
            } else {
                None
            }),
    {
        let len = self.0.len();
        if len > 0 {
            Some(&self.0[len - 1])
        } else {
            None
        }
    }

    /// Move the last `mid` outputs to the front.
    pub fn rotate_right(&mut self, mid: usize)
        requires
            mid <= old(self)@.len(),
        ensures
            final(self)@ == old(self)@.skip(old(self)@.len() - mid) + old(self)@.take(
                old(self)@.len() - mid,
            ),
    {
        let at: usize = self.0.len() - mid;
        let mut rotated = self.0.split_off(at);
        rotated.append(&mut self.0);
        self.0 = rotated;
    }

    pub fn is_empty(&self) -> (empty: bool)
        ensures
            empty == (self@.len() == 0),
    {
        self.0.is_empty()
    }

    pub fn iter(&self) -> (outputs: std::slice::Iter<'_, Output>)
        ensures
            vstd::std_specs::iter::IteratorSpec::remaining(&outputs) == self@.as_ref(),
    {
        self.0.as_slice().iter()
    }

    pub fn len(&self) -> (len: usize)
        ensures
            len == self@.len(),
    {
        self.0.len()
    }

    pub fn push(&mut self, output: Output)
        ensures
            final(self)@ == old(self)@.push(output),
    {
        self.0.push(output)
    }

    /// The output at `index`, to be changed.
    pub fn index_mut(&mut self, index: usize) -> (output: &mut Output)
        requires
            index < old(self)@.len(),
        ensures
            *output == old(self)@[index as int],
            final(self)@ == old(self)@.update(index as int, *final(output)),
    {
        &mut self.0[index]
    }

    /// Take out the output at `index`.
    pub fn remove(&mut self, index: usize) -> (output: Output)
        requires
            index < old(self)@.len(),
        ensures
            output == old(self)@[index as int],
            final(self)@ == old(self)@.remove(index as int),
    {
        self.0.remove(index)
    }
}

impl std::ops::Index<usize> for Outputs {
    type Output = Output;

    fn index(&self, index: usize) -> (output: &Output)
        ensures
            *output == self@[index as int],
    {
        &self.0[index]
    }
}

impl vstd::std_specs::core::IndexSpecImpl<usize> for Outputs {
    open spec fn index_req(&self, index: &usize) -> bool {
        *index < self@.len()
    }
}

impl IntoIterator for Outputs {
    type IntoIter = std::vec::IntoIter<Output>;

    type Item = Output;

    fn into_iter(self) -> (outputs: std::vec::IntoIter<Output>)
        ensures
            vstd::std_specs::iter::IteratorSpec::remaining(&outputs) == self@,
    {
        self.0.into_iter()
    }
}

impl<'a> IntoIterator for &'a Outputs {
    type IntoIter = std::slice::Iter<'a, Output>;

    type Item = &'a Output;

    fn into_iter(self) -> (outputs: std::slice::Iter<'a, Output>)
        ensures
            vstd::std_specs::iter::IteratorSpec::remaining(&outputs) == self@.as_ref(),
    {
        self.iter()
    }
}

impl Default for Outputs {
    fn default() -> (outputs: Self)
        ensures
            outputs@ == Seq::<Output>::empty(),
    {
        Outputs(Vec::new())
    }
}

impl From<Vec<Output>> for Outputs {
    fn from(outputs: Vec<Output>) -> (result: Self) {
        Outputs(outputs)
    }
}

impl vstd::std_specs::convert::FromSpecImpl<Vec<Output>> for Outputs {
    open spec fn obeys_from_spec() -> bool {
        true
    }

    open spec fn from_spec(outputs: Vec<Output>) -> Self {
        Outputs(outputs)
    }
}

impl From<Outputs> for Vec<Output> {
    fn from(outputs: Outputs) -> (result: Self) {
        outputs.0
    }
}

impl vstd::std_specs::convert::FromSpecImpl<Outputs> for Vec<Output> {
    open spec fn obeys_from_spec() -> bool {
        true
    }

    open spec fn from_spec(outputs: Outputs) -> Self {
        outputs.0
    }
}

/// A child that has an error hands it on, the left one first. Two children whose
/// values do not add up in 64 bits have a value overflow, and if only their sizes
/// do not, a size overflow. Otherwise the parent carries both sums.
pub proof fn law_merge_adds_or_fails(
    left: Result<CbmtNode, MergeCbmtNodes>,
    right: Result<CbmtNode, MergeCbmtNodes>,
)
    ensures
        left is Err ==> merged(left, right) == left,
        left is Ok && right is Err ==> merged(left, right) == right,
        left is Ok && right is Ok ==> {
            let (l, r) = (left->Ok_0, right->Ok_0);
            let value = l.value_sats + r.value_sats;
            let size = l.canonical_size + r.canonical_size;
            match merged(left, right) {
                Ok(node) => {
                    &&& node.value_sats == value && node.canonical_size == size
                    &&& node.commitment == hash_of_bytes(
                        blake3_digest(
                            l.commitment.bytes() + spec_u64_to_le_bytes(value as u64)
                                + spec_u64_to_le_bytes(size as u64) + r.commitment.bytes(),
                        ),
                    )
                },
                Err(MergeCbmtNodes::ValueOverflow) => value > u64::MAX,
                Err(MergeCbmtNodes::SizeOverflow) => value <= u64::MAX && size > u64::MAX,
            }
        },
{
}

/// The root over the outputs is the first node of the complete binary tree whose
/// last nodes commit to value, size and encoding of the outputs, in order, and whose
/// other nodes carry the sums of their children and commit to them between the
/// commitments of the children: those of node `i` are nodes `2 * i + 1` and
/// `2 * i + 2`. Over no outputs it is zero.
pub proof fn law_outputs_root_hashes_the_tree(outputs: Seq<Output>, nodes: Seq<CbmtNode>)
    requires
        all_measured(outputs),
        nodes.len() == if outputs.len() == 0 {
            0
        } else {
            2 * outputs.len() - 1
        },
        forall|i: int|
            outputs.len() - 1 <= i < nodes.len() ==> is_leaf(
                #[trigger] nodes[i],
                outputs[i - (outputs.len() - 1)],
            ),
        forall|i: int|
            0 <= i < outputs.len() - 1 ==> is_branch(
                #[trigger] nodes[i],
                nodes[2 * i + 1],
                nodes[2 * i + 2],
            ),
    ensures
        outputs_root_node(outputs) == Ok::<CbmtNode, MergeCbmtNodes>(
            if outputs.len() == 0 {
                CbmtNode {
                    commitment: Hash256 { first: 0, second: 0 },
                    value_sats: 0,
                    canonical_size: 0,
                }
            } else {
                nodes[0]
            },
        ),
{
    if outputs.len() > 0 {
        lemma_tree_node(outputs, nodes, 0);
    }
}

/// An output is the first unmeasured one exactly if its size is not known and that
/// of each output before it is. All outputs are measured exactly if none has failed.
pub proof fn law_first_unmeasured_output(outputs: Seq<Output>, i: int)
    ensures
        all_measured(outputs) <==> forall|j: int|
            0 <= j < outputs.len() ==> !((#[trigger] outputs[j]).measured_size is Err),
        first_unmeasured(outputs, i) <==> {
            &&& 0 <= i < outputs.len()
            &&& outputs[i].measured_size is Err
            &&& forall|j: int| 0 <= j < i ==> (#[trigger] outputs[j]).measured_size is Ok
        },
{
    if 0 <= i < outputs.len() {
        let before = outputs.take(i);
        assert(forall|j: int| 0 <= j < i ==> #[trigger] outputs[j] == before[j]);
    }
}

/// Whether a node is the leaf for an output.
pub open spec fn is_leaf(node: CbmtNode, output: Output) -> bool {
    &&& node.value_sats == output.bitcoin_value_sats
    &&& output.measured_size == Ok::<u64, String>(node.canonical_size)
    &&& node.commitment == hash_of_bytes(
        blake3_digest(
            spec_u64_to_le_bytes(node.value_sats) + spec_u64_to_le_bytes(node.canonical_size)
                + output.encoding@,
        ),
    )
}

/// Whether a node is the branch over two others.
pub open spec fn is_branch(node: CbmtNode, left: CbmtNode, right: CbmtNode) -> bool {
    &&& node.value_sats == left.value_sats + right.value_sats
    &&& node.canonical_size == left.canonical_size + right.canonical_size
    &&& node.commitment == hash_of_bytes(
        blake3_digest(
            left.commitment.bytes() + spec_u64_to_le_bytes(node.value_sats)
                + spec_u64_to_le_bytes(node.canonical_size) + right.commitment.bytes(),
        ),
    )
}

proof fn lemma_tree_node(outputs: Seq<Output>, nodes: Seq<CbmtNode>, i: int)
    requires
        0 <= i < nodes.len(),
        nodes.len() == 2 * outputs.len() - 1,
        all_measured(outputs),
        forall|i: int|
            outputs.len() - 1 <= i < nodes.len() ==> is_leaf(
                #[trigger] nodes[i],
                outputs[i - (outputs.len() - 1)],
            ),
        forall|i: int|
            0 <= i < outputs.len() - 1 ==> is_branch(
                #[trigger] nodes[i],
                nodes[2 * i + 1],
                nodes[2 * i + 2],
            ),
    ensures
        cbmt_node(
            leaves_of(outputs),
            |l: Result<CbmtNode, MergeCbmtNodes>, r: Result<CbmtNode, MergeCbmtNodes>|
                merged(l, r),
            i,
        ) == Ok::<CbmtNode, MergeCbmtNodes>(nodes[i]),
    decreases nodes.len() - i,
{
    if i < outputs.len() - 1 {
        lemma_tree_node(outputs, nodes, 2 * i + 1);
        lemma_tree_node(outputs, nodes, 2 * i + 2);
        assert(is_branch(nodes[i], nodes[2 * i + 1], nodes[2 * i + 2]));
    } else {
        assert(is_leaf(nodes[i], outputs[i - (outputs.len() - 1)]));
    }
}

} // verus!
