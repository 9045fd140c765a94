//! Laws that relate construction, validation and root reconstruction.
use crate::indexed_merkle_proof::ProofView;
use crate::shape::expected_proof_length;
use crate::tree::{
    inclusion_proof, lemma_fold_marked, lemma_iterative_matches_recursive, merkle_root,
    root_from_proof,
};
use vstd::prelude::*;

verus! {

/// The root reconstructed from the inclusion proof of any leaf equals the
/// root computed directly from all the leaves.
pub proof fn lemma_round_trip(leaves: Seq<Seq<u8>>, index: nat)
    requires
        index < leaves.len(),
        leaves.len() <= u64::MAX,
    ensures
        (ProofView {
            index: index as u64,
            count: leaves.len() as u64,
            proof: inclusion_proof(leaves, index),
        }).root() == merkle_root(leaves),
{
    lemma_fold_marked(leaves, index as int);
    lemma_iterative_matches_recursive(index, leaves.len(), inclusion_proof(leaves, index));
}

/// The inclusion proof of a leaf has exactly the expected length for its
/// index and the number of leaves.
pub proof fn lemma_inclusion_proof_length(leaves: Seq<Seq<u8>>, index: nat)
    requires
        index < leaves.len(),
    ensures
        inclusion_proof(leaves, index).len() == expected_proof_length(index, leaves.len()),
{
    lemma_fold_marked(leaves, index as int);
}

/// A proof built for a leaf is structurally valid.
pub proof fn lemma_built_proof_is_valid(leaves: Seq<Seq<u8>>, index: nat)
    requires
        index < leaves.len(),
        leaves.len() <= u64::MAX,
    ensures
        (ProofView {
            index: index as u64,
            count: leaves.len() as u64,
            proof: inclusion_proof(leaves, index),
        }).is_valid(),
{
    lemma_fold_marked(leaves, index as int);
}

/// On every proof of the expected length, the iterative reconstruction
/// agrees with the recursive split-and-combine rule.
pub proof fn lemma_root_agrees_with_recursion(index: u64, count: u64, proof: Seq<Seq<u8>>)
    requires
        proof.len() == expected_proof_length(index as nat, count as nat),
    ensures
        (ProofView { index, count, proof }).root() == root_from_proof(index as nat, count, proof),
{
    lemma_iterative_matches_recursive(index as nat, count as nat, proof);
}

} // verus!
