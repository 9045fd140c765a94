use std::convert::TryFrom;

use blake2::digest::{Update, VariableOutput};
use blake2::VarBlake2b;
use indexed_merkle::{
    bind_count, combine_digests, empty_sentinel, hash_merkle_tree, pivot_of, u64_le_bytes,
    Blake2bHash, IndexedMerkleProof, IndexedMerkleProofDeserializeValidator,
    MerkleConstructionError, MerkleVerificationError,
};

fn blake2b_hash(data: &[u8]) -> Blake2bHash {
    let mut hasher = VarBlake2b::new(32).unwrap();
    hasher.update(data);
    let mut out = [0u8; 32];
    hasher.finalize_variable(|slice| out.copy_from_slice(slice));
    Blake2bHash(out)
}

fn leaves_of(count: u64) -> Vec<Blake2bHash> {
    (0..count).map(|i| blake2b_hash(&i.to_le_bytes())).collect()
}

/// A proof for `index` among `count` leaves whose digests are all zero.
fn test_indexed_merkle_proof(index: u64, count: u64) -> IndexedMerkleProof {
    let mut indexed_merkle_proof = IndexedMerkleProof::from_parts(index, count, vec![]);
    let expected_proof_length = indexed_merkle_proof.compute_expected_proof_length();
    indexed_merkle_proof.inject_merkle_proof(vec![Blake2bHash([0u8; 32]); expected_proof_length as usize]);
    indexed_merkle_proof
}

fn reference_raw_root(index: u64, leaf_count: u64, proof: &[Blake2bHash]) -> Blake2bHash {
    if leaf_count == 0 {
        return empty_sentinel();
    }
    if leaf_count == 1 {
        return proof[0];
    }
    let half = 1u64 << (63 - (leaf_count - 1).leading_zeros());
    let last = proof.len() - 1;
    if index < half {
        let left = reference_raw_root(index, half, &proof[..last]);
        combine_digests(&left, &proof[last])
    } else {
        let right = reference_raw_root(index - half, leaf_count - half, &proof[..last]);
        combine_digests(&proof[last], &right)
    }
}

fn reference_root_from_proof(index: u64, count: u64, proof: &[Blake2bHash]) -> Blake2bHash {
    bind_count(count, &reference_raw_root(index, count, proof))
}

#[test]
fn test_merkle_proofs() {
    for leaf_count in 1u64..100 {
        let leaves = leaves_of(leaf_count);
        let root = hash_merkle_tree(&leaves);
        for index in [0, leaf_count / 3, leaf_count / 2, leaf_count - 1] {
            let indexed_merkle_proof = IndexedMerkleProof::new(leaves.clone(), index).unwrap();
            assert_eq!(
                indexed_merkle_proof.compute_expected_proof_length(),
                indexed_merkle_proof.merkle_proof().len() as u64
            );
            assert_eq!(indexed_merkle_proof.verify(), Ok(()));
            assert_eq!(leaf_count, indexed_merkle_proof.count());
            assert_eq!(leaves[index as usize], indexed_merkle_proof.merkle_proof()[0]);
            assert_eq!(root, indexed_merkle_proof.root_hash());
        }
    }
}

#[test]
fn out_of_bounds_index() {
    let out_of_bounds_indexed_merkle_proof =
        IndexedMerkleProof::from_parts(23, 4, vec![Blake2bHash([0u8; 32]); 3]);
    assert_eq!(
        out_of_bounds_indexed_merkle_proof.verify(),
        Err(MerkleVerificationError::IndexOutOfBounds { count: 4, index: 23 })
    )
}

#[test]
fn unexpected_proof_length() {
    let out_of_bounds_indexed_merkle_proof =
        IndexedMerkleProof::from_parts(1235, 5647, vec![Blake2bHash([0u8; 32]); 13]);
    assert_eq!(
        out_of_bounds_indexed_merkle_proof.verify(),
        Err(MerkleVerificationError::UnexpectedProofLength {
            count: 5647,
            index: 1235,
            expected_proof_length: 14,
            actual_proof_length: 13
        })
    )
}

#[test]
fn empty_unexpected_proof_length() {
    let out_of_bounds_indexed_merkle_proof =
        IndexedMerkleProof::from_parts(0, 0, vec![Blake2bHash([0u8; 32]); 3]);
    assert_eq!(
        out_of_bounds_indexed_merkle_proof.verify(),
        Err(MerkleVerificationError::UnexpectedProofLength {
            count: 0,
            index: 0,
            expected_proof_length: 0,
            actual_proof_length: 3
        })
    )
}

#[test]
fn empty_out_of_bounds_index() {
    let out_of_bounds_indexed_merkle_proof = IndexedMerkleProof::from_parts(23, 0, vec![]);
    assert_eq!(
        out_of_bounds_indexed_merkle_proof.verify(),
        Err(MerkleVerificationError::IndexOutOfBounds { count: 0, index: 23 })
    )
}

#[test]
fn deep_proof_doesnt_kill_stack() {
    const PROOF_LENGTH: usize = 63;
    let indexed_merkle_proof = IndexedMerkleProof::from_parts(
        42,
        1 << (PROOF_LENGTH - 1),
        vec![Blake2bHash([0u8; 32]); PROOF_LENGTH],
    );
    assert_eq!(indexed_merkle_proof.verify(), Ok(()));
    let _hash = indexed_merkle_proof.root_hash();
}

#[test]
fn empty_proof() {
    let empty_merkle_root = hash_merkle_tree(&vec![]);
    assert_eq!(empty_merkle_root, bind_count(0, &Blake2bHash([2u8; 32])));
    let indexed_merkle_proof = IndexedMerkleProof::from_parts(0, 0, vec![]);
    assert_eq!(indexed_merkle_proof.verify(), Ok(()));
    assert_eq!(indexed_merkle_proof.root_hash(), empty_merkle_root);
}

#[test]
fn root_from_proof_agrees_with_recursion_2147483648_4294967297() {
    let indexed_merkle_proof = test_indexed_merkle_proof(2147483648, 4294967297);
    assert_eq!(
        indexed_merkle_proof.root_hash(),
        reference_root_from_proof(
            indexed_merkle_proof.index(),
            indexed_merkle_proof.count(),
            indexed_merkle_proof.merkle_proof(),
        ),
        "Result did not agree with reference implementation.",
    );
}

#[test]
fn validates_indexed_merkle_proof_after_deserialization() {
    let indexed_merkle_proof = test_indexed_merkle_proof(10, 10);
    let decoded = IndexedMerkleProof::try_from(IndexedMerkleProofDeserializeValidator::new(
        10,
        10,
        indexed_merkle_proof.merkle_proof().to_vec(),
    ))
    .expect("should deserialize correctly");
    assert_eq!(indexed_merkle_proof, decoded);

    // A proof with an index greater than its count is refused.
    let result = IndexedMerkleProof::try_from(IndexedMerkleProofDeserializeValidator::new(
        11,
        10,
        indexed_merkle_proof.merkle_proof().to_vec(),
    ));
    assert_eq!(result.expect_err("shoud not deserialize correctly"), MerkleConstructionError::IncorrectIndexedMerkleProof);

    // A proof of the wrong length is refused.
    let mut merkle_proof = indexed_merkle_proof.merkle_proof().to_vec();
    merkle_proof.push(blake2b_hash(b"XXX"));
    let result =
        IndexedMerkleProof::try_from(IndexedMerkleProofDeserializeValidator::new(10, 10, merkle_proof));
    assert_eq!(result.expect_err("shoud not deserialize correctly"), MerkleConstructionError::IncorrectIndexedMerkleProof);
}
