//! What holds of every tree, every proof and every verification.

use crate::hasher::{
    combine_spec, digest_leq, keccak256, lemma_combine_commutative, lemma_digest_order_is_total,
    lemma_ordered_concat_injective, lemma_ordered_concat_symmetric, ordered_concat,
};
use crate::merkle_tree::{
    is_sorted, merkle_root, next_layer, proof_of, root_from_proof, root_of, sibling_index,
    MerkleTree,
};
use vstd::prelude::*;

verus! {

/// The number of layers above a layer of `n` nodes.
pub open spec fn height(n: nat) -> nat
    decreases n,
{
    if n <= 1 {
        0
    } else {
        1 + height(((n + 1) / 2) as nat)
    }
}

/// Round trip: the proof of any leaf of a non-empty tree leads from that
/// leaf to the root of the tree, so `verify` accepts it.
pub proof fn lemma_round_trip(leaves: Seq<[u8; 32]>, index: int)
    requires
        0 <= index < leaves.len(),
    ensures
        root_from_proof(leaves[index], proof_of(leaves, index)) == root_of(leaves),
    decreases leaves.len(),
{
    if leaves.len() > 1 {
        let up = next_layer(leaves);
        let parent = index / 2;
        let sibling = sibling_index(index);
        let rest = proof_of(up, parent);
        lemma_round_trip(up, parent);
        if sibling < leaves.len() {
            let path = seq![leaves[sibling]] + rest;
            assert(path.drop_first() =~= rest);
            assert(up[parent] == combine_spec(leaves[index], leaves[sibling])) by {
                lemma_combine_commutative(leaves[index], leaves[sibling]);
            }
        } else {
            assert(up[parent] == leaves[index]);
        }
    }
}

/// A tree with one leaf has that leaf as its root, and the leaf's proof is
/// empty.
pub proof fn lemma_single_leaf(x: [u8; 32])
    ensures
        merkle_root(seq![x]) == Some(x),
        proof_of(seq![x], 0) == Seq::<[u8; 32]>::empty(),
{
}

/// A tree has a root if and only if it has a leaf.
pub proof fn lemma_root_absent_iff_empty(leaves: Seq<[u8; 32]>)
    ensures
        merkle_root(leaves).is_none() <==> leaves.len() == 0,
        merkle_root(Seq::<[u8; 32]>::empty()).is_none(),
{
}

/// A proof is never longer than the tree is high.
pub proof fn lemma_proof_len(leaves: Seq<[u8; 32]>, index: int)
    ensures
        proof_of(leaves, index).len() <= height(leaves.len()),
    decreases leaves.len(),
{
    if leaves.len() > 1 {
        lemma_proof_len(next_layer(leaves), index / 2);
    }
}

/// Whether `n` is a power of two.
pub open spec fn is_power_of_two(n: nat) -> bool
    decreases n,
{
    n == 1 || (n > 1 && n % 2 == 0 && is_power_of_two(n / 2))
}

/// In a tree whose number of leaves is a power of two, every proof is as
/// long as the tree is high.
pub proof fn lemma_full_tree_proof_len(leaves: Seq<[u8; 32]>, index: int)
    requires
        is_power_of_two(leaves.len()),
        0 <= index < leaves.len(),
    ensures
        proof_of(leaves, index).len() == height(leaves.len()),
    decreases leaves.len(),
{
    if leaves.len() > 1 {
        lemma_full_tree_proof_len(next_layer(leaves), index / 2);
    }
}

/// Two trees over the same leaves in the same order have the same root and
/// give the same proof for every index.
pub proof fn lemma_same_leaves_same_tree(a: MerkleTree, b: MerkleTree, index: int)
    requires
        a@ == b@,
    ensures
        merkle_root(a@) == merkle_root(b@),
        proof_of(a@, index) == proof_of(b@, index),
{
}

/// Two sorted trees that hold the same digests, each as often as the other,
/// hold them in the same order: sorting makes the tree independent of the
/// order in which the leaves were supplied.
pub proof fn lemma_sorted_tree_is_canonical(a: MerkleTree, b: MerkleTree)
    requires
        is_sorted(a@),
        is_sorted(b@),
        a@.to_multiset() == b@.to_multiset(),
    ensures
        a@ == b@,
        merkle_root(a@) == merkle_root(b@),
{
    lemma_digest_order_is_total();
    vstd::seq_lib::lemma_sorted_unique(a@, b@, digest_leq());
}

/// A proof that leads from a leaf to one root leads to no other.
pub proof fn lemma_one_root_per_proof(
    leaf: [u8; 32],
    path: Seq<[u8; 32]>,
    root: [u8; 32],
    other: [u8; 32],
)
    requires
        root_from_proof(leaf, path) == root,
        other != root,
    ensures
        root_from_proof(leaf, path) != other,
{
}

/// If one proof leads from two different digests to the same root, then
/// two different strings of 64 bytes have the same Keccak-256 digest. The
/// lemma returns such a pair.
pub proof fn lemma_two_leaves_one_root(leaf: [u8; 32], other: [u8; 32], path: Seq<[u8; 32]>) -> (c:
    (Seq<u8>, Seq<u8>))
    requires
        leaf != other,
        root_from_proof(leaf, path) == root_from_proof(other, path),
    ensures
        c.0 != c.1,
        c.0.len() == 64 && c.1.len() == 64,
        keccak256(c.0) == keccak256(c.1),
    decreases path.len(),
{
    let x = ordered_concat(leaf, path[0]);
    let y = ordered_concat(other, path[0]);
    lemma_ordered_concat_injective(leaf, other, path[0]);
    if keccak256(x) == keccak256(y) {
        (x, y)
    } else {
        lemma_two_leaves_one_root(keccak256(x), keccak256(y), path.drop_first())
    }
}

/// If a proof still leads from the same leaf to the same root after one of
/// its elements was replaced by a different digest, then two different
/// strings of 64 bytes have the same Keccak-256 digest. The lemma returns
/// such a pair.
pub proof fn lemma_changed_proof_element(
    leaf: [u8; 32],
    path: Seq<[u8; 32]>,
    at: int,
    replacement: [u8; 32],
) -> (c: (Seq<u8>, Seq<u8>))
    requires
        0 <= at < path.len(),
        replacement != path[at],
        root_from_proof(leaf, path) == root_from_proof(leaf, path.update(at, replacement)),
    ensures
        c.0 != c.1,
        c.0.len() == 64 && c.1.len() == 64,
        keccak256(c.0) == keccak256(c.1),
    decreases at,
{
    let changed = path.update(at, replacement);
    if at == 0 {
        let x = ordered_concat(leaf, path[0]);
        let y = ordered_concat(leaf, replacement);
        assert(x != y) by {
            lemma_ordered_concat_injective(path[0], replacement, leaf);
            lemma_ordered_concat_symmetric(path[0], leaf);
            lemma_ordered_concat_symmetric(replacement, leaf);
        }
        assert(changed.drop_first() =~= path.drop_first());
        if keccak256(x) == keccak256(y) {
            (x, y)
        } else {
            lemma_two_leaves_one_root(keccak256(x), keccak256(y), path.drop_first())
        }
    } else {
        assert(changed.drop_first() =~= path.drop_first().update(at - 1, replacement));
        lemma_changed_proof_element(
            combine_spec(leaf, path[0]),
            path.drop_first(),
            at - 1,
            replacement,
        )
    }
}

} // verus!
