//! The Merkle root over a block's transaction hashes, built by `merkle-cbt`'s
//! complete binary Merkle tree with SHA-256 as the merge of two nodes.
use crate::digest::{sha256_digest, sha256_spec};
use merkle_cbt::merkle_tree::Merge;
use merkle_cbt::CBMT;
use vstd::prelude::*;

verus! {

/// Node `i` of the complete binary Merkle tree over `leaves` (at least one):
/// the nodes `n - 1 .. 2n - 1` are the leaves in order, and node `i` below
/// them is the SHA-256 digest of node `2i + 1` followed by node `2i + 2`.
pub open spec fn cbmt_node(leaves: Seq<Seq<u8>>, i: nat) -> Seq<u8>
    decreases 2 * leaves.len() - i,
{
    if i + 1 >= leaves.len() {
        leaves[i - (leaves.len() - 1)]
    } else {
        sha256_spec(cbmt_node(leaves, 2 * i + 1) + cbmt_node(leaves, 2 * i + 2))
    }
}

/// The root of the complete binary Merkle tree over `leaves`; the empty
/// byte string where there are no leaves.
pub open spec fn merkle_root_spec(leaves: Seq<Seq<u8>>) -> Seq<u8> {
    if leaves.len() == 0 {
        Seq::empty()
    } else {
        cbmt_node(leaves, 0)
    }
}

/// Joins two node hashes into their parent: SHA-256 of `left` then `right`.
pub fn merge_hashes(left: &Vec<u8>, right: &Vec<u8>) -> (r: Vec<u8>)
    ensures
        r@ == sha256_spec(left@ + right@),
        r@.len() == 32,
{
    let mut data = left.clone();
    let mut tail = right.clone();
    assert(data@ =~= left@);
    assert(tail@ =~= right@);
    data.append(&mut tail);
    sha256_digest(data.as_slice())
}

/// The merge that the Merkle tree uses over transaction hashes.
pub struct MergeTX {}

impl Merge for MergeTX {
    type Item = Vec<u8>;

    fn merge(left: &Vec<u8>, right: &Vec<u8>) -> (r: Vec<u8>)
        ensures
            r@ == sha256_spec(left@ + right@),
            r@.len() == 32,
    {
        merge_hashes(left, right)
    }
}

/// Calls `CBMT::<Vec<u8>, MergeTX>::build_merkle_tree` on `leaves` and takes
/// the tree's `root`.
/// Trusted: `build_merkle_tree` lays the leaves after `n - 1` inner nodes and
/// fills node `i` from `n - 2` down to `0` with `MergeTX::merge` of nodes
/// `2i + 1` and `2i + 2`; `root` is node `0`, or the empty vector for no
/// leaves. `MergeTX::merge` is `merge_hashes`, verified above.
#[verifier::external_body]
pub(crate) fn merkle_root(leaves: &Vec<Vec<u8>>) -> (r: Vec<u8>)
    ensures
        r@ == merkle_root_spec(leaves.deep_view()),
{
    CBMT::<Vec<u8>, MergeTX>::build_merkle_tree(leaves).root()
}

} // verus!
