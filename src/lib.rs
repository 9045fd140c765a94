//! Indexed Merkle inclusion proofs over leaf sequences of any length.
//!
//! A proof binds one leaf hash to its position among `count` leaves; its root
//! hash is recomputed from the proof alone and compared with a known root.
pub mod digest;
pub mod indexed_merkle_proof;
pub mod laws;
pub mod shape;
pub mod tree;

pub use digest::{bind_count, combine_digests, empty_sentinel, u64_le_bytes, Blake2bHash};
pub use indexed_merkle_proof::{
    IndexedMerkleProof, IndexedMerkleProofDeserializeValidator, MerkleConstructionError,
    MerkleVerificationError,
};
pub use shape::pivot_of;
pub use tree::hash_merkle_tree;
