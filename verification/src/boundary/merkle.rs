//! Binary Merkle trees over SHA-256, from `rs_merkle`.

use rs_merkle::Hasher;
use vstd::prelude::*;

verus! {

/// The leaf hash of `data`.
pub uninterp spec fn leaf_hash_of(data: Seq<u8>) -> Seq<u8>;

/// The root of the tree over `leaves`.
pub uninterp spec fn tree_root_of(leaves: Seq<[u8; 32]>) -> Seq<u8>;

/// The hashes that lead from the leaf at `position` to the root.
pub uninterp spec fn tree_proof_of(leaves: Seq<[u8; 32]>, position: int) -> Seq<[u8; 32]>;

/// Whether `proof` leads from `leaf` at `position`, among `total` leaves, to `root`.
pub uninterp spec fn tree_accepts(
    proof: Seq<[u8; 32]>,
    root: Seq<u8>,
    position: int,
    leaf: Seq<u8>,
    total: int,
) -> bool;

/// `rs_merkle::algorithms::Sha256::hash`: the hash depends on the bytes alone.
#[verifier::external_body]
pub(crate) fn leaf_hash(data: &[u8]) -> (r: [u8; 32])
    ensures
        r@ == leaf_hash_of(data@),
{
    rs_merkle::algorithms::Sha256::hash(data)
}

/// `rs_merkle::MerkleTree::from_leaves` and its `root`: there is a root exactly
/// where there is a leaf, and it depends on the leaves alone.
#[verifier::external_body]
pub(crate) fn tree_root(leaves: &[[u8; 32]]) -> (r: Option<[u8; 32]>)
    ensures
        r is Some <==> leaves@.len() > 0,
        r is Some ==> r->0@ == tree_root_of(leaves@),
{
    rs_merkle::MerkleTree::<rs_merkle::algorithms::Sha256>::from_leaves(leaves).root()
}

/// `rs_merkle::MerkleTree::proof` for one leaf: the hashes depend on the leaves
/// and the position, and lead to the root of the same leaves. There is at most
/// one hash for each layer of two nodes or more, and each layer has half the
/// nodes of the one below, so `k` hashes take more than `2^(k-1)` leaves.
#[verifier::external_body]
pub(crate) fn tree_proof(leaves: &[[u8; 32]], position: usize) -> (r: Vec<[u8; 32]>)
    requires
        position < leaves@.len(),
    ensures
        r@ == tree_proof_of(leaves@, position as int),
        tree_accepts(
            r@,
            tree_root_of(leaves@),
            position as int,
            leaves@[position as int]@,
            leaves@.len() as int,
        ),
        r@.len() > 0 ==> vstd::arithmetic::power2::pow2((r@.len() - 1) as nat) < leaves@.len(),
{
    rs_merkle::MerkleTree::<rs_merkle::algorithms::Sha256>::from_leaves(leaves).proof(
        &[position],
    ).proof_hashes().to_vec()
}

/// `rs_merkle::MerkleProof::verify` for one leaf: the answer depends on the
/// arguments alone.
#[verifier::external_body]
pub(crate) fn tree_verify(
    proof: &Vec<[u8; 32]>,
    root: [u8; 32],
    position: usize,
    leaf: [u8; 32],
    total: usize,
) -> (r: bool)
    ensures
        r == tree_accepts(proof@, root@, position as int, leaf@, total as int),
{
    rs_merkle::MerkleProof::<rs_merkle::algorithms::Sha256>::new(proof.clone()).verify(
        root,
        &[position],
        &[leaf],
        total,
    )
}

} // verus!
