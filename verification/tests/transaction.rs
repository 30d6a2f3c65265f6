//! Commitments to the inputs and outputs of transactions.

use bitassets_node::hash::{hash, Hash256, Txid};
use bitassets_node::transaction::inputs::{CbmtNode as InputNode, Inputs};
use bitassets_node::transaction::outpoint::OutPoint;
use bitassets_node::transaction::output::Output;
use bitassets_node::transaction::outputs::error::{ComputeMerkleRoot, MergeCbmtNodes};
use bitassets_node::transaction::outputs::{merge_nodes, CbmtNode, CbmtNodeResult, Outputs};
use std::cmp::Ordering;

fn hash256(byte: u8) -> Hash256 {
    Hash256::from_bytes(&[byte; 32])
}

fn outpoint(n: u8) -> OutPoint {
    OutPoint::Regular { txid: Txid(hash256(n)), vout: n as u32 }
}

fn blake3_of(parts: &[&[u8]]) -> [u8; 32] {
    *blake3::hash(&parts.concat()).as_bytes()
}

fn output(value: u64, size: u64, encoding: Vec<u8>) -> Output {
    Output { bitcoin_value_sats: value, measured_size: Ok(size), encoding }
}

fn leaf(value: u64, size: u64, encoding: &[u8]) -> [u8; 32] {
    let head = borsh::to_vec(&(value, size)).unwrap();
    blake3_of(&[&head, encoding])
}

fn branch(left: [u8; 32], value: u64, size: u64, right: [u8; 32]) -> [u8; 32] {
    blake3_of(&[&borsh::to_vec(&(left, value, size, right)).unwrap()])
}

#[test]
fn hash_bytes_round_trip() {
    let mut bytes = [0u8; 32];
    for (i, byte) in bytes.iter_mut().enumerate() {
        *byte = i as u8;
    }
    assert_eq!(Hash256::from_bytes(&bytes).to_bytes(), bytes.to_vec());
    assert_ne!(Hash256::from_bytes(&bytes), hash256(0));
}

#[test]
fn hash_is_blake3() {
    assert_eq!(hash(b"bitassets").to_bytes(), blake3::hash(b"bitassets").as_bytes().to_vec());
    assert_ne!(hash(b"bitassets").to_bytes(), b"bitassets".to_vec());
}

#[test]
fn outpoint_encoding_is_borsh() {
    let regular = OutPoint::Regular { txid: Txid(hash256(7)), vout: 258 };
    assert_eq!(regular.encode(), borsh::to_vec(&(0u8, [7u8; 32], 258u32)).unwrap());
    let coinbase = OutPoint::Coinbase { merkle_root: hash256(8), vout: 1 };
    assert_eq!(coinbase.encode(), borsh::to_vec(&(1u8, [8u8; 32], 1u32)).unwrap());
    let deposit = OutPoint::Deposit { main_txid: hash256(9), vout: u32::MAX };
    assert_eq!(deposit.encode(), borsh::to_vec(&(2u8, [9u8; 32], u32::MAX)).unwrap());
}

#[test]
fn inputs_root_of_nothing_is_zero() {
    assert_eq!(Inputs::default().compute_merkle_root(), hash256(0));
}

#[test]
fn inputs_root_of_one_is_its_leaf() {
    let inputs = Inputs(vec![outpoint(1)]);
    assert_eq!(
        inputs.compute_merkle_root().to_bytes(),
        blake3_of(&[&outpoint(1).encode()]).to_vec()
    );
}

#[test]
fn inputs_root_of_three_merges_the_last_two_first() {
    let inputs = Inputs(vec![outpoint(1), outpoint(2), outpoint(3)]);
    let leaves: Vec<[u8; 32]> =
        inputs.iter().map(|input| blake3_of(&[&input.encode()])).collect();
    let inner = blake3_of(&[&leaves[1], &leaves[2]]);
    assert_eq!(
        inputs.compute_merkle_root().to_bytes(),
        blake3_of(&[&inner, &leaves[0]]).to_vec()
    );
}

#[test]
fn inputs_behave_as_a_list() {
    let mut inputs = Inputs::default();
    assert!(inputs.is_empty());
    inputs.push(outpoint(1));
    inputs.extend(&[outpoint(2), outpoint(3)]);
    assert_eq!(inputs.len(), 3);
    assert_eq!(inputs.get(1), Some(&outpoint(2)));
    assert_eq!(inputs.get(3), None);
    assert_eq!(inputs.last(), Some(&outpoint(3)));
    assert_eq!(inputs[0], outpoint(1));
    inputs.rotate_right(1);
    assert_eq!(inputs.as_slice(), &[outpoint(3), outpoint(1), outpoint(2)]);
    assert_eq!(inputs.remove(1), outpoint(1));
    assert_eq!(Vec::<OutPoint>::from(inputs), vec![outpoint(3), outpoint(2)]);
}

#[test]
fn outputs_root_of_nothing_is_zero() {
    assert_eq!(Outputs::default().compute_merkle_root().unwrap(), hash256(0));
}

#[test]
fn outputs_root_commits_to_values_and_sizes() {
    let outputs = Outputs(vec![
        output(5, 10, vec![1]),
        output(6, 20, vec![2, 2]),
        output(7, 30, vec![3, 3, 3]),
    ]);
    let leaves = [leaf(5, 10, &[1]), leaf(6, 20, &[2, 2]), leaf(7, 30, &[3, 3, 3])];
    let inner = branch(leaves[1], 13, 50, leaves[2]);
    let root = branch(inner, 18, 60, leaves[0]);
    assert_eq!(outputs.compute_merkle_root().unwrap().to_bytes(), root.to_vec());
}

#[test]
fn outputs_value_overflow_is_an_error() {
    let outputs = Outputs(vec![output(u64::MAX, 1, vec![]), output(1, 1, vec![])]);
    assert!(matches!(
        outputs.compute_merkle_root(),
        Err(ComputeMerkleRoot::MergeCbmtNodes(MergeCbmtNodes::ValueOverflow))
    ));
    let fits = Outputs(vec![output(u64::MAX - 1, 1, vec![]), output(1, 1, vec![])]);
    assert!(fits.compute_merkle_root().is_ok());
}

#[test]
fn outputs_size_overflow_is_an_error() {
    let outputs = Outputs(vec![output(1, u64::MAX, vec![]), output(1, 1, vec![])]);
    assert!(matches!(
        outputs.compute_merkle_root(),
        Err(ComputeMerkleRoot::MergeCbmtNodes(MergeCbmtNodes::SizeOverflow))
    ));
}

#[test]
fn value_overflow_comes_before_size_overflow() {
    let outputs = Outputs(vec![output(u64::MAX, u64::MAX, vec![]), output(1, 1, vec![])]);
    assert!(matches!(
        outputs.compute_merkle_root(),
        Err(ComputeMerkleRoot::MergeCbmtNodes(MergeCbmtNodes::ValueOverflow))
    ));
}

#[test]
fn unmeasured_output_is_named() {
    let outputs = Outputs(vec![
        output(1, 1, vec![]),
        Output {
            bitcoin_value_sats: 1,
            measured_size: Err("no size".to_string()),
            encoding: vec![],
        },
    ]);
    match outputs.compute_merkle_root() {
        Err(ComputeMerkleRoot::CanonicalSize { index, source }) => {
            assert_eq!(index, 1);
            assert_eq!(source, "no size");
        }
        other => panic!("unexpected root: {other:?}"),
    }
}

#[test]
fn a_failed_child_fails_its_parent() {
    let good = CbmtNode { commitment: hash256(1), value_sats: 1, canonical_size: 1 };
    let left = CbmtNodeResult { index: 3, value: Err(MergeCbmtNodes::SizeOverflow) };
    let right = CbmtNodeResult { index: 4, value: Ok(good) };
    let parent = merge_nodes(&left, &right);
    assert_eq!(parent.index, 1);
    assert_eq!(parent.value, Err(MergeCbmtNodes::SizeOverflow));
}

#[test]
fn outputs_behave_as_a_list() {
    let mut outputs = Outputs::default();
    assert!(outputs.is_empty());
    outputs.push(output(1, 1, vec![]));
    outputs.extend(vec![output(2, 1, vec![]), output(3, 1, vec![])]);
    assert_eq!(outputs.len(), 3);
    assert_eq!(outputs.get(1).unwrap().get_bitcoin_value(), 2);
    assert!(outputs.get(3).is_none());
    assert_eq!(outputs.last().unwrap().bitcoin_value_sats, 3);
    outputs.rotate_right(2);
    let values: Vec<u64> = outputs.iter().map(|output| output.bitcoin_value_sats).collect();
    assert_eq!(values, vec![2, 3, 1]);
    assert_eq!(outputs.remove(0).bitcoin_value_sats, 2);
    assert_eq!(outputs.as_slice().len(), 2);
    assert_eq!(outputs[1].bitcoin_value_sats, 1);
}

#[test]
fn lists_can_be_walked_and_changed() {
    let mut outputs = Outputs(vec![output(1, 1, vec![]), output(2, 1, vec![])]);
    outputs.index_mut(1).bitcoin_value_sats = 9;
    let values: Vec<u64> = (&outputs).into_iter().map(|o| o.bitcoin_value_sats).collect();
    assert_eq!(values, vec![1, 9]);
    assert_eq!(outputs.into_iter().count(), 2);
    let inputs = Inputs::from(vec![outpoint(1), outpoint(2)]);
    assert_eq!((&inputs).into_iter().next(), Some(&outpoint(1)));
    assert_eq!(inputs.into_iter().last(), Some(outpoint(2)));
}

/// Node `i` of the tree over some leaves.
fn node<T: Clone>(leaves: &[T], merge: &dyn Fn(T, T) -> T, i: usize) -> T {
    if i + 1 < leaves.len() {
        let left = node(leaves, merge, 2 * i + 1);
        merge(left, node(leaves, merge, 2 * i + 2))
    } else {
        leaves[i + 1 - leaves.len()].clone()
    }
}

#[test]
fn inputs_roots_of_all_sizes() {
    for n in 1..40u8 {
        let inputs = Inputs((0..n).map(outpoint).collect());
        let leaves: Vec<[u8; 32]> =
            inputs.iter().map(|input| blake3_of(&[&input.encode()])).collect();
        let root = node(&leaves, &|left, right| blake3_of(&[&left, &right]), 0);
        assert_eq!(inputs.compute_merkle_root().to_bytes(), root.to_vec());
    }
}

#[test]
fn outputs_roots_of_all_sizes() {
    for n in 1..40u64 {
        let outputs =
            Outputs((0..n).map(|i| output(i * 3, i + 1, vec![i as u8; i as usize])).collect());
        let leaves: Vec<([u8; 32], u64, u64)> = (0..n)
            .map(|i| (leaf(i * 3, i + 1, &vec![i as u8; i as usize]), i * 3, i + 1))
            .collect();
        let merge = |left: ([u8; 32], u64, u64), right: ([u8; 32], u64, u64)| {
            let (value, size) = (left.1 + right.1, left.2 + right.2);
            (branch(left.0, value, size, right.0), value, size)
        };
        let (root, value, _) = node(&leaves, &merge, 0);
        assert_eq!(value, (0..n).map(|i| i * 3).sum::<u64>());
        assert_eq!(outputs.compute_merkle_root().unwrap().to_bytes(), root.to_vec());
    }
}

/// Nodes are ordered by their index, and nothing else.
#[test]
fn nodes_are_ordered_by_index() {
    let node = |index, n| InputNode { index, commitment: hash256(n) };
    assert!(node(1, 9) < node(2, 3));
    assert!(node(2, 3) > node(1, 9));
    assert_eq!(node(1, 9).partial_cmp(&node(1, 3)), Some(Ordering::Equal));
    assert!(node(1, 9) != node(1, 3));
    let good = CbmtNode { commitment: hash256(1), value_sats: 1, canonical_size: 1 };
    let value = |index, value| CbmtNodeResult { index, value };
    assert!(value(1, Err(MergeCbmtNodes::SizeOverflow)) < value(2, Ok(good)));
    assert_eq!(
        value(4, Err(MergeCbmtNodes::SizeOverflow)).partial_cmp(&value(4, Ok(good))),
        Some(Ordering::Equal)
    );
}
