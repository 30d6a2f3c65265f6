//! The merkle tree over the inputs, as `merkle_cbt` builds it.

use vstd::prelude::*;

use super::{merge_nodes, merged, numbered_as_leaves, siblings, CbmtNode};
use crate::hash::{zero_hash, Hash256};
use crate::transaction::cbmt::{cbmt_root, lemma_mapped_node};

verus! {

/// A node as `merkle_cbt` takes it. The crate asks for a total order on its items,
/// which has no part in building a root.
#[derive(Clone, Copy, PartialEq, Eq, PartialOrd, Ord)]
pub struct TreeNode {
    pub index: usize,
    pub commitment: Hash256,
}

pub open spec fn tree_node(node: CbmtNode) -> TreeNode {
    TreeNode { index: node.index, commitment: node.commitment }
}

impl TreeNode {
    pub open spec fn node_spec(self) -> CbmtNode {
        CbmtNode { index: self.index, commitment: self.commitment }
    }

    pub fn node(&self) -> (node: CbmtNode)
        ensures
            node == self.node_spec(),
    {
        CbmtNode { index: self.index, commitment: self.commitment }
    }

    pub fn of(node: &CbmtNode) -> (item: TreeNode)
        ensures
            item == tree_node(*node),
    {
        TreeNode { index: node.index, commitment: node.commitment }
    }
}

impl Default for TreeNode {
    fn default() -> (node: Self)
        ensures
            node == tree_node(CbmtNode { index: 0, commitment: zero_hash() }),
    {
        TreeNode::of(&CbmtNode::default())
    }
}

/// The parent of two sibling nodes of the tree.
pub open spec fn merged_in_tree(left: TreeNode, right: TreeNode) -> TreeNode {
    tree_node(merged(left.node_spec(), right.node_spec()))
}

/// Marker type for merging branch commitments.
pub struct Merge;

impl merkle_cbt::merkle_tree::Merge for Merge {
    type Item = TreeNode;

    fn merge(lnode: &TreeNode, rnode: &TreeNode) -> (node: TreeNode)
        ensures
            siblings(lnode.node_spec(), rnode.node_spec()) ==> node == merged_in_tree(
                *lnode,
                *rnode,
            ),
            !siblings(lnode.node_spec(), rnode.node_spec()) ==> node == tree_node(
                CbmtNode { index: 0, commitment: zero_hash() },
            ),
    {
        if lnode.index >= 1 && rnode.index >= 1 && lnode.index == rnode.index - 1 {
            TreeNode::of(&merge_nodes(&lnode.node(), &rnode.node()))
        } else {
            // The tree merges nothing but siblings.
            TreeNode::default()
        }
    }
}

/// Calls `merkle_cbt::CBMT::build_merkle_root`. It claims that the result is
/// the root of the complete binary tree over the leaves, each branch the
/// `Merge` of its two children, and the default node where there is no leaf.
#[verifier::external_body]
fn build_merkle_root(leaves: &[TreeNode]) -> (root: TreeNode)
    requires
        numbered_as_leaves(leaves@.map_values(|leaf: TreeNode| leaf.node_spec())),
    ensures
        root == cbmt_root(
            leaves@,
            |left: TreeNode, right: TreeNode| merged_in_tree(left, right),
            tree_node(CbmtNode { index: 0, commitment: zero_hash() }),
        ),
{
    merkle_cbt::CBMT::<TreeNode, Merge>::build_merkle_root(leaves)
}

/// The root of the tree over numbered leaves.
pub fn merkle_root(leaves: &Vec<CbmtNode>) -> (root: CbmtNode)
    requires
        numbered_as_leaves(leaves@),
    ensures
        root == cbmt_root(
            leaves@,
            |left: CbmtNode, right: CbmtNode| merged(left, right),
            CbmtNode { index: 0, commitment: zero_hash() },
        ),
{
    let mut items: Vec<TreeNode> = Vec::new();
    let mut i: usize = 0;
    while i < leaves.len()
        invariant
            i <= leaves@.len(),
            items@ == leaves@.take(i as int).map_values(|leaf: CbmtNode| tree_node(leaf)),
        decreases leaves@.len() - i,
    {
        items.push(TreeNode::of(&leaves[i]));
        assert(items@ =~= leaves@.take(i + 1).map_values(|leaf: CbmtNode| tree_node(leaf)));
        i += 1;
    }
    proof {
        assert(leaves@.take(leaves@.len() as int) =~= leaves@);
        assert(items@.map_values(|leaf: TreeNode| leaf.node_spec()) =~= leaves@);
        if leaves@.len() > 0 {
            lemma_mapped_node(
                leaves@,
                |leaf: CbmtNode| tree_node(leaf),
                |left: CbmtNode, right: CbmtNode| merged(left, right),
                |left: TreeNode, right: TreeNode| merged_in_tree(left, right),
                0,
            );
        }
    }
    build_merkle_root(items.as_slice()).node()
}

} // verus!
