//! The Merkle tree, its inclusion proofs, and the standalone verifier.

use crate::hasher::{combine_spec, concat_and_hash_spec, digest_eq, digest_leq, SolanaHasher};
use crate::theorems::lemma_round_trip;
use vstd::prelude::*;

verus! {

/// The layer above `layer`: adjacent pairs combined, and a trailing node
/// without a partner carried over unchanged.
pub open spec fn next_layer(layer: Seq<[u8; 32]>) -> Seq<[u8; 32]> {
    Seq::new(
        ((layer.len() + 1) / 2) as nat,
        |i: int|
            concat_and_hash_spec(
                layer[2 * i],
                if 2 * i + 1 < layer.len() {
                    Some(layer[2 * i + 1])
                } else {
                    None
                },
            ),
    )
}

/// The single node that a non-empty layer reduces to.
pub open spec fn root_of(layer: Seq<[u8; 32]>) -> [u8; 32]
    recommends
        layer.len() > 0,
    decreases layer.len(),
{
    if layer.len() <= 1 {
        layer[0]
    } else {
        root_of(next_layer(layer))
    }
}

/// The root of the tree over `leaves`, absent for an empty tree.
pub open spec fn merkle_root(leaves: Seq<[u8; 32]>) -> Option<[u8; 32]> {
    if leaves.len() == 0 {
        None
    } else {
        Some(root_of(leaves))
    }
}

/// The position paired with `index` in its layer.
pub open spec fn sibling_index(index: int) -> int {
    if index % 2 == 0 {
        index + 1
    } else {
        index - 1
    }
}

/// The siblings met on the way from node `index` of `layer` up to the
/// root, bottom first. A node without a sibling adds nothing.
pub open spec fn proof_of(layer: Seq<[u8; 32]>, index: int) -> Seq<[u8; 32]>
    recommends
        0 <= index < layer.len(),
    decreases layer.len(),
{
    if layer.len() <= 1 {
        Seq::empty()
    } else {
        let rest = proof_of(next_layer(layer), index / 2);
        if sibling_index(index) < layer.len() {
            seq![layer[sibling_index(index)]] + rest
        } else {
            rest
        }
    }
}

/// The digest reached from `leaf` by combining it with each element of
/// `proof` in turn.
pub open spec fn root_from_proof(leaf: [u8; 32], proof: Seq<[u8; 32]>) -> [u8; 32]
    decreases proof.len(),
{
    if proof.len() == 0 {
        leaf
    } else {
        root_from_proof(combine_spec(leaf, proof[0]), proof.drop_first())
    }
}

/// Whether a sequence of digests ascends in byte-wise lexicographic order.
pub open spec fn is_sorted(s: Seq<[u8; 32]>) -> bool {
    vstd::relations::sorted_by(s, digest_leq())
}

/// One hexadecimal digit, lower case.
pub open spec fn hex_digit(n: int) -> char {
    seq!['0', '1', '2', '3', '4', '5', '6', '7', '8', '9', 'a', 'b', 'c', 'd', 'e', 'f'][n]
}

/// The lower-case hexadecimal text of a byte string, two digits per byte.
pub open spec fn hex_lower(bytes: Seq<u8>) -> Seq<char> {
    Seq::new(
        2 * bytes.len(),
        |i: int|
            if i % 2 == 0 {
                hex_digit(bytes[i / 2] as int / 16)
            } else {
                hex_digit(bytes[i / 2] as int % 16)
            },
    )
}

/// How the leaves are arranged before the tree is built.
#[derive(Clone, Copy, Debug, PartialEq, Eq)]
pub enum LeafOrder {
    /// The leaves stay where the caller put them.
    AsGiven,
    /// The leaves are put in ascending byte order first.
    Sorted,
}

/// Why a request was turned down.
#[derive(Clone, Copy, Debug, PartialEq, Eq)]
pub enum MerkleError {
    /// The index is not that of a leaf of the tree.
    IndexOutOfRange { index: usize, leaf_count: usize },
    /// The bytes offered as a digest are not 32 in number.
    MalformedDigest { len: usize },
}

/// Reads a digest from raw bytes, which must be exactly 32.
pub fn digest_from_slice(bytes: &[u8]) -> (r: Result<[u8; 32], MerkleError>)
    ensures
        match r {
            Ok(d) => bytes@.len() == 32 && d@ == bytes@,
            Err(e) => bytes@.len() != 32 && e == (MerkleError::MalformedDigest {
                len: bytes@.len() as usize,
            }),
        },
{
    let len = bytes.len();
    if len != 32 {
        return Err(MerkleError::MalformedDigest { len });
    }
    let mut digest = [0u8; 32];
    let mut i: usize = 0;
    while i < 32
        invariant
            i <= 32,
            bytes@.len() == 32,
            forall|k: int| 0 <= k < i ==> digest@[k] == bytes@[k],
        decreases 32 - i,
    {
        digest[i] = bytes[i];
        i = i + 1;
    }
    assert(digest@ =~= bytes@);
    Ok(digest)
}

/// A Merkle tree over 32-byte digests, built once and read-only afterwards.
///
/// The tree is kept by `rs_merkle::MerkleTree`, with `SolanaHasher` as its
/// hasher. Verus does not look inside: what it knows of a tree is its
/// sequence of leaves, `tree_leaves`, and what the functions below that
/// call into `rs_merkle` state of it.
#[verifier::external_body]
pub struct MerkleTree {
    tree: rs_merkle::MerkleTree<SolanaHasher>,
}

/// The leaves of a tree, in the order in which the tree holds them.
pub uninterp spec fn tree_leaves(tree: MerkleTree) -> Seq<[u8; 32]>;

/// Calls `rs_merkle::MerkleTree::from_leaves`, which appends a copy of the
/// leaves to an empty tree and commits them. The contract claims that the
/// new tree holds exactly these leaves, in this order.
#[verifier::external_body]
fn lib_from_leaves(leaves: &Vec<[u8; 32]>) -> (t: MerkleTree)
    ensures
        tree_leaves(t) == leaves@,
{
    MerkleTree { tree: rs_merkle::MerkleTree::<SolanaHasher>::from_leaves(leaves.as_slice()) }
}

/// Calls `rs_merkle::MerkleTree::leaves_len`, which returns the length of
/// the bottom layer, or 0 where the tree has no layer. The contract claims
/// that this is the number of leaves.
#[verifier::external_body]
fn lib_leaves_len(t: &MerkleTree) -> (n: usize)
    ensures
        n == tree_leaves(*t).len(),
{
    t.tree.leaves_len()
}

/// Calls `rs_merkle::MerkleTree::leaves`, which returns a copy of the
/// bottom layer, or nothing where the tree has no layer. The contract
/// claims that the copy holds the leaves in their order, and that nothing
/// is returned exactly for a tree without leaves.
#[verifier::external_body]
fn lib_leaves(t: &MerkleTree) -> (r: Option<Vec<[u8; 32]>>)
    ensures
        match r {
            Some(v) => v@ == tree_leaves(*t) && v@.len() > 0,
            None => tree_leaves(*t).len() == 0,
        },
{
    t.tree.leaves()
}

/// Calls `rs_merkle::MerkleTree::root`, which returns the first node of the
/// top layer, or nothing where the tree has no layer. The contract claims
/// that this is the root as `merkle_root` defines it. `rs_merkle` makes
/// each layer from the one below by `Hasher::concat_and_hash` on the nodes
/// at positions 2i and 2i+1, the second one absent for a trailing node, and
/// adds as many layers as the number of leaves has binary digits. The
/// hasher here leaves a node without partner unchanged, so the layers past
/// the first single node repeat that node.
#[verifier::external_body]
fn lib_root(t: &MerkleTree) -> (r: Option<[u8; 32]>)
    ensures
        match r {
            Some(d) => merkle_root(tree_leaves(*t)) == Some(d),
            None => merkle_root(tree_leaves(*t)).is_none(),
        },
{
    t.tree.root()
}

/// Calls `rs_merkle::MerkleTree::root_hex`, which formats each byte of
/// the root with `{:02x}` and joins the results. The contract claims that
/// the text is `hex_lower` of the root, and that nothing is returned
/// exactly for a tree without leaves.
#[verifier::external_body]
fn lib_root_hex(t: &MerkleTree) -> (r: Option<String>)
    ensures
        match r {
            Some(s) => tree_leaves(*t).len() > 0 && s@ == hex_lower(root_of(tree_leaves(*t))@),
            None => tree_leaves(*t).len() == 0,
        },
{
    t.tree.root_hex()
}

/// Calls `rs_merkle::MerkleTree::proof` for the one index, and copies what
/// `MerkleProof::proof_hashes` gives. The contract claims that these are
/// the digests of `proof_of`: `rs_merkle` goes through the layers from the
/// leaves up, takes from each the node paired with the current one where
/// the layer has it, and halves the current position from layer to layer.
#[verifier::external_body]
fn lib_proof(t: &MerkleTree, index: usize) -> (r: Vec<[u8; 32]>)
    requires
        index < tree_leaves(*t).len(),
    ensures
        r@ == proof_of(tree_leaves(*t), index as int),
{
    t.tree.proof(&[index]).proof_hashes().to_vec()
}

/// Calls `sort` of std on the slice of the vector. The contract claims that
/// the vector then holds the same digests, each as often as before, in
/// ascending order, which for byte arrays is the lexicographic one.
#[verifier::external_body]
fn sort_digests(v: &mut Vec<[u8; 32]>)
    ensures
        final(v)@.len() == old(v)@.len(),
        final(v)@.to_multiset() == old(v)@.to_multiset(),
        is_sorted(final(v)@),
{
    v.sort();
}

impl View for MerkleTree {
    type V = Seq<[u8; 32]>;

    /// A tree is viewed as its leaves, in the order the tree holds them.
    open spec fn view(&self) -> Seq<[u8; 32]> {
        tree_leaves(*self)
    }
}

impl MerkleTree {
    /// The tree over `leaves`, arranged as `order` says.
    pub fn build(leaves: Vec<[u8; 32]>, order: LeafOrder) -> (tree: Self)
        ensures
            order == LeafOrder::AsGiven ==> tree@ == leaves@,
            order == LeafOrder::Sorted ==> {
                &&& is_sorted(tree@)
                &&& tree@.to_multiset() == leaves@.to_multiset()
            },
            tree@.len() == leaves@.len(),
    {
        let mut leaves = leaves;
        match order {
            LeafOrder::AsGiven => {},
            LeafOrder::Sorted => {
                sort_digests(&mut leaves);
            },
        }
        lib_from_leaves(&leaves)
    }

    /// The tree over `leaves` in ascending byte order.
    pub fn new(leaves: Vec<[u8; 32]>) -> (tree: Self)
        ensures
            is_sorted(tree@),
            tree@.to_multiset() == leaves@.to_multiset(),
            tree@.len() == leaves@.len(),
    {
        Self::build(leaves, LeafOrder::Sorted)
    }

    /// The number of leaves.
    pub fn len(&self) -> (n: usize)
        ensures
            n == self@.len(),
    {
        lib_leaves_len(self)
    }

    /// The leaves in the order the tree holds them, which is the order that
    /// proof indices refer to.
    pub fn leaves(&self) -> (v: Vec<[u8; 32]>)
        ensures
            v@ == self@,
    {
        match lib_leaves(self) {
            Some(v) => v,
            None => {
                let v: Vec<[u8; 32]> = Vec::new();
                assert(v@ =~= self@);
                v
            },
        }
    }

    /// The root of the tree, absent where the tree has no leaves.
    pub fn root(&self) -> (r: Option<[u8; 32]>)
        ensures
            r.is_none() <==> self@.len() == 0,
            r matches Some(d) ==> d == root_of(self@),
    {
        lib_root(self)
    }

    /// The root in lower-case hexadecimal, absent where the tree has no
    /// leaves.
    pub fn root_hex(&self) -> (r: Option<String>)
        ensures
            r.is_none() <==> self@.len() == 0,
            r matches Some(s) ==> s@ == hex_lower(root_of(self@)@),
    {
        lib_root_hex(self)
    }

    /// The inclusion proof of the leaf at `index`: the sibling digests on
    /// the way to the root, bottom first. The proof leads from that leaf to
    /// the root of the tree.
    pub fn inclusion_proof(&self, index: usize) -> (r: Result<Vec<[u8; 32]>, MerkleError>)
        ensures
            match r {
                Ok(p) => {
                    &&& index < self@.len()
                    &&& p@ == proof_of(self@, index as int)
                    &&& root_from_proof(self@[index as int], p@) == root_of(self@)
                },
                Err(e) => index >= self@.len() && e == (MerkleError::IndexOutOfRange {
                    index,
                    leaf_count: self@.len() as usize,
                }),
            },
    {
        let leaf_count = lib_leaves_len(self);
        if index >= leaf_count {
            return Err(MerkleError::IndexOutOfRange { index, leaf_count });
        }
        proof {
            lemma_round_trip(self@, index as int);
        }
        Ok(lib_proof(self, index))
    }

    /// Whether `proof` leads from `leaf` to `root`. This walks the proof
    /// with the pair combiner alone and needs no tree.
    pub fn verify(proof: Vec<[u8; 32]>, root: [u8; 32], leaf: [u8; 32]) -> (ok: bool)
        ensures
            ok == (root_from_proof(leaf, proof@) == root),
    {
        let mut computed_hash = leaf;
        let mut i: usize = 0;
        assert(proof@.subrange(0, proof@.len() as int) =~= proof@);
        while i < proof.len()
            invariant
                i <= proof@.len(),
                root_from_proof(leaf, proof@) == root_from_proof(
                    computed_hash,
                    proof@.subrange(i as int, proof@.len() as int),
                ),
            decreases proof@.len() - i,
        {
            let ghost rest = proof@.subrange(i as int, proof@.len() as int);
            assert(rest.drop_first() =~= proof@.subrange(
                i as int + 1,
                proof@.len() as int,
            ));
            computed_hash = SolanaHasher::combine(&computed_hash, &proof[i]);
            i = i + 1;
        }
        digest_eq(&computed_hash, &root)
    }
}

} // verus!
