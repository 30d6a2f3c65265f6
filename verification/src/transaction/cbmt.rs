//! Complete binary merkle trees.
//!
//! A tree over `n` leaves has `2 * n - 1` nodes, numbered from the root. The
//! children of node `i` are nodes `2 * i + 1` and `2 * i + 2`, and the leaves
//! are the nodes from `n - 1` on, in order.

use vstd::prelude::*;

verus! {

/// Node `i` of the tree over `leaves`.
pub open spec fn cbmt_node<T>(leaves: Seq<T>, merge: spec_fn(T, T) -> T, i: int) -> T
    decreases 2 * leaves.len() - i,
{
    if 0 <= i < leaves.len() - 1 {
        merge(cbmt_node(leaves, merge, 2 * i + 1), cbmt_node(leaves, merge, 2 * i + 2))
    } else {
        leaves[i - (leaves.len() - 1)]
    }
}

/// The root of the tree over `leaves`, or `empty` where there is no leaf.
pub open spec fn cbmt_root<T>(leaves: Seq<T>, merge: spec_fn(T, T) -> T, empty: T) -> T {
    if leaves.len() == 0 {
        empty
    } else {
        cbmt_node(leaves, merge, 0)
    }
}

/// The sum of nodes `from` to `to - 1` of the tree that adds its children up.
pub open spec fn node_sum(values: Seq<int>, from: int, to: int) -> int
    decreases to - from,
{
    if from >= to {
        0
    } else {
        node_sum(values, from, to - 1) + cbmt_node(values, |a: int, b: int| a + b, to - 1)
    }
}

/// The sum of a list of numbers.
pub open spec fn total(values: Seq<int>) -> int
    decreases values.len(),
{
    if values.len() == 0 {
        0
    } else {
        total(values.drop_last()) + values.last()
    }
}

proof fn lemma_node_sum_drop_first(values: Seq<int>, from: int, to: int)
    requires
        from < to,
    ensures
        node_sum(values, from, to) == cbmt_node(values, |a: int, b: int| a + b, from) + node_sum(
            values,
            from + 1,
            to,
        ),
    decreases to - from,
{
    if from + 1 < to {
        lemma_node_sum_drop_first(values, from, to - 1);
    } else {
        assert(node_sum(values, from, from) == 0);
        assert(node_sum(values, from + 1, to) == 0);
    }
}

/// Nodes `m` to `2 * m` of a tree that adds its children up have the same sum
/// for every `m` up to the first leaf.
proof fn lemma_frontier_sum(values: Seq<int>, m: int)
    requires
        0 <= m < values.len(),
    ensures
        node_sum(values, m, 2 * m + 1) == cbmt_node(values, |a: int, b: int| a + b, 0),
    decreases m,
{
    if m == 0 {
        assert(node_sum(values, 0, 0) == 0);
    } else {
        let k = m - 1;
        lemma_frontier_sum(values, k);
        lemma_node_sum_drop_first(values, k, 2 * k + 1);
        assert(node_sum(values, m, 2 * m + 1) == node_sum(values, m, 2 * m) + cbmt_node(
            values,
            |a: int, b: int| a + b,
            2 * m,
        ));
        assert(node_sum(values, m, 2 * m) == node_sum(values, m, 2 * m - 1) + cbmt_node(
            values,
            |a: int, b: int| a + b,
            2 * m - 1,
        ));
        assert(2 * m - 1 == 2 * k + 1);
    }
}

proof fn lemma_leaf_sum(values: Seq<int>, k: int)
    requires
        0 <= k <= values.len(),
        values.len() > 0,
    ensures
        node_sum(values, values.len() - 1, values.len() - 1 + k) == total(values.take(k)),
    decreases k,
{
    if k > 0 {
        lemma_leaf_sum(values, k - 1);
        assert(values.take(k).drop_last() =~= values.take(k - 1));
        assert(values.take(k).last() == values[k - 1]);
    }
}

/// The root of the tree that adds its children up is the sum of the leaves.
pub proof fn lemma_root_is_total(values: Seq<int>)
    requires
        values.len() > 0,
    ensures
        cbmt_node(values, |a: int, b: int| a + b, 0) == total(values),
{
    lemma_frontier_sum(values, values.len() - 1);
    lemma_leaf_sum(values, values.len() as int);
    assert(values.take(values.len() as int) =~= values);
}

/// A tree over leaves that were mapped one by one is the mapped tree, if merging
/// mapped nodes is the same as mapping merged ones.
pub proof fn lemma_mapped_node<A, B>(
    leaves: Seq<A>,
    map: spec_fn(A) -> B,
    merge: spec_fn(A, A) -> A,
    merge_mapped: spec_fn(B, B) -> B,
    i: int,
)
    requires
        forall|a: A, b: A| #[trigger] merge_mapped(map(a), map(b)) == map(merge(a, b)),
        0 <= i < 2 * leaves.len() - 1,
    ensures
        cbmt_node(leaves.map_values(map), merge_mapped, i) == map(cbmt_node(leaves, merge, i)),
    decreases 2 * leaves.len() - i,
{
    if i < leaves.len() - 1 {
        lemma_mapped_node(leaves, map, merge, merge_mapped, 2 * i + 1);
        lemma_mapped_node(leaves, map, merge, merge_mapped, 2 * i + 2);
    }
}

} // verus!
