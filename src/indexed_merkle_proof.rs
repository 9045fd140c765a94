//! The indexed Merkle proof: construction, validation and root reconstruction.
use crate::digest::{bind_count, combine, combine_digests, empty_sentinel, le_bytes, Blake2bHash};
use crate::shape::{expected_proof_length, lemma_expected_proof_length_bound, path, pivot_of};
use crate::tree::{
    fold_up, hashes_view, inclusion_proof, leaf_nodes_of, lemma_fold_marked, lemma_fold_plain,
    raw_root_iterative, tree_fold, HashOrProof,
};
use vstd::prelude::*;

verus! {

/// Why a proof fails structural validation.
#[derive(Debug, PartialEq, Eq)]
pub enum MerkleVerificationError {
    IndexOutOfBounds { count: u64, index: u64 },
    UnexpectedProofLength {
        count: u64,
        index: u64,
        expected_proof_length: u64,
        actual_proof_length: usize,
    },
}

/// Why a proof could not be constructed or accepted.
#[derive(Debug, PartialEq, Eq)]
pub enum MerkleConstructionError {
    EmptyProofMustHaveIndex { index: u64 },
    IndexOutOfBounds { count: u64, index: u64 },
    IncorrectChunkProof,
    IncorrectIndexedMerkleProof,
}

/// A proof as decoded from untrusted input, before its fields are checked
/// against each other.
pub struct IndexedMerkleProofDeserializeValidator {
    index: u64,
    count: u64,
    merkle_proof: Vec<Blake2bHash>,
}

impl IndexedMerkleProofDeserializeValidator {
    /// What the decoded fields hold.
    pub closed spec fn view(&self) -> ProofView {
        ProofView { index: self.index, count: self.count, proof: hashes_view(self.merkle_proof@) }
    }

    /// Gathers decoded fields.
    pub fn new(index: u64, count: u64, merkle_proof: Vec<Blake2bHash>) -> (r: Self)
        ensures
            r.view() == (ProofView { index, count, proof: hashes_view(merkle_proof@) }),
    {
        IndexedMerkleProofDeserializeValidator { index, count, merkle_proof }
    }
}

/// The model of a proof: the leaf position, the leaf count and the digests.
pub struct ProofView {
    pub index: u64,
    pub count: u64,
    pub proof: Seq<Seq<u8>>,
}

impl ProofView {
    /// The structural invariant of a proof.
    pub open spec fn is_valid(self) -> bool {
        &&& (self.count == 0 && self.index == 0) || self.index < self.count
        &&& self.proof.len() == expected_proof_length(self.index as nat, self.count as nat)
    }

    /// The root that this proof determines.
    pub open spec fn root(self) -> Seq<u8> {
        combine(
            le_bytes(self.count),
            raw_root_iterative(self.index as nat, self.count as nat, self.proof),
        )
    }
}

/// Proves that the leaf at `index` among `count` leaves has the hash
/// `merkle_proof[0]`.
#[derive(Debug, PartialEq)]
pub struct IndexedMerkleProof {
    index: u64,
    count: u64,
    merkle_proof: Vec<Blake2bHash>,
}

impl View for IndexedMerkleProof {
    type V = ProofView;

    closed spec fn view(&self) -> ProofView {
        ProofView { index: self.index, count: self.count, proof: hashes_view(self.merkle_proof@) }
    }
}

impl IndexedMerkleProof {
    /// Assembles a proof from its parts without checking them; `verify`
    /// tells whether the result is well formed.
    pub fn from_parts(index: u64, count: u64, merkle_proof: Vec<Blake2bHash>) -> (r: Self)
        ensures
            r@ == (ProofView { index, count, proof: hashes_view(merkle_proof@) }),
    {
        IndexedMerkleProof { index, count, merkle_proof }
    }

    pub fn index(&self) -> (r: u64)
        ensures
            r == self@.index,
    {
        self.index
    }

    pub fn count(&self) -> (r: u64)
        ensures
            r == self@.count,
    {
        self.count
    }

    pub fn merkle_proof(&self) -> (r: &[Blake2bHash])
        ensures
            hashes_view(r@) == self@.proof,
    {
        self.merkle_proof.as_slice()
    }

    /// Replaces the digests of the proof.
    pub fn inject_merkle_proof(&mut self, merkle_proof: Vec<Blake2bHash>)
        ensures
            final(self)@ == (ProofView { proof: hashes_view(merkle_proof@), ..old(self)@ }),
    {
        self.merkle_proof = merkle_proof;
    }

    /// The number of digests that a proof for this index and count holds.
    pub fn compute_expected_proof_length(&self) -> (r: u64)
        ensures
            r == expected_proof_length(self@.index as nat, self@.count as nat),
            r <= 65,
    {
        proof {
            lemma_expected_proof_length_bound(self.index, self.count);
        }
        if self.count == 0 {
            return 0;
        }
        let mut l: u64 = 1;
        let mut n: u64 = self.count;
        let mut i: u64 = self.index;
        while n > 1
            invariant
                n >= 1,
                l + path(i as nat, n as nat).len() == expected_proof_length(
                    self.index as nat,
                    self.count as nat,
                ),
                expected_proof_length(self.index as nat, self.count as nat) <= 65,
            decreases n,
        {
            let pivot = pivot_of(n);
            if i < pivot {
                n = pivot;
            } else {
                n = n - pivot;
                i = i - pivot;
            }
            l = l + 1;
        }
        l
    }

    /// Builds the proof for the leaf at `index` in a single tree-shaped fold
    /// over the leaves.
    pub fn new(leaves: Vec<Blake2bHash>, index: u64) -> (r: Result<
        IndexedMerkleProof,
        MerkleConstructionError,
    >)
        ensures
            leaves@.len() == 0 && index != 0 ==> r == Err::<
                IndexedMerkleProof,
                MerkleConstructionError,
            >(MerkleConstructionError::EmptyProofMustHaveIndex { index }),
            leaves@.len() > 0 && index >= leaves@.len() ==> r == Err::<
                IndexedMerkleProof,
                MerkleConstructionError,
            >(
                MerkleConstructionError::IndexOutOfBounds {
                    count: leaves@.len() as u64,
                    index,
                },
            ),
            leaves@.len() == 0 && index == 0 ==> (r matches Ok(p) && p@ == (ProofView {
                index: 0,
                count: 0,
                proof: Seq::empty(),
            })),
            index < leaves@.len() ==> (r matches Ok(p) && p@ == (ProofView {
                index,
                count: leaves@.len() as u64,
                proof: inclusion_proof(hashes_view(leaves@), index as nat),
            })),
    {
        let nodes = leaf_nodes_of(&leaves, index);
        let ghost hs = hashes_view(leaves@);
        match tree_fold(nodes) {
            None => {
                if index != 0 {
                    Err(MerkleConstructionError::EmptyProofMustHaveIndex { index })
                } else {
                    let r = IndexedMerkleProof { index: 0, count: 0, merkle_proof: Vec::new() };
                    assert(r@.proof =~= Seq::empty());
                    Ok(r)
                }
            },
            Some((count, HashOrProof::Hash(_))) => {
                proof {
                    if index < leaves@.len() {
                        lemma_fold_marked(hs, index as int);
                    } else {
                        lemma_fold_plain(hs, index as int);
                    }
                }
                Err(MerkleConstructionError::IndexOutOfBounds { count, index })
            },
            Some((count, HashOrProof::Proof(merkle_proof))) => {
                proof {
                    if index < leaves@.len() {
                        lemma_fold_marked(hs, index as int);
                    } else {
                        lemma_fold_plain(hs, index as int);
                    }
                }
                Ok(IndexedMerkleProof { index, count, merkle_proof })
            },
        }
    }

    /// Recomputes the root from the proof alone, iterating from the leaf
    /// upwards, and binds it to the leaf count.
    pub fn root_hash(&self) -> (r: Blake2bHash)
        ensures
            r.bytes() == self@.root(),
    {
        let len = self.merkle_proof.len();
        let raw_root = if len == 0 {
            empty_sentinel()
        } else {
            // The directions from the root down to the leaf.
            let mut directions: Vec<bool> = Vec::new();
            let mut n: u64 = self.count;
            let mut i: u64 = self.index;
            while n > 1
                invariant
                    directions@ + path(i as nat, n as nat) == path(self.index as nat, self.count as nat),
                decreases n,
            {
                let pivot = pivot_of(n);
                let ghost before = directions@;
                let ghost old_i = i as nat;
                let ghost old_n = n as nat;
                proof {
                    crate::shape::lemma_pivot(n as nat);
                }
                if i < pivot {
                    directions.push(false);
                    n = pivot;
                } else {
                    directions.push(true);
                    n = n - pivot;
                    i = i - pivot;
                }
                assert(before + path(old_i, old_n) =~= directions@ + path(i as nat, n as nat));
            }
            assert(directions@ =~= path(self.index as nat, self.count as nat));
            let ghost bits = directions@;
            let ghost proof = self@.proof;
            // Fold the proof from the leaf upwards, consuming the directions
            // from the bottom.
            let mut acc = self.merkle_proof[0];
            let mut k: usize = 1;
            while k < len
                invariant
                    1 <= k <= len,
                    len == self.merkle_proof@.len(),
                    proof == self@.proof,
                    bits == directions@,
                    acc.bytes() == fold_up(bits, proof, (k - 1) as nat),
                decreases len - k,
            {
                let hash = self.merkle_proof[k];
                let right = k <= directions.len() && directions[directions.len() - k];
                acc = if right {
                    combine_digests(&hash, &acc)
                } else {
                    combine_digests(&acc, &hash)
                };
                k = k + 1;
            }
            acc
        };
        bind_count(self.count, &raw_root)
    }

    /// Checks the structural invariant: the index lies among the leaves (or
    /// both are zero), and the proof has the expected length.
    pub fn verify(&self) -> (r: Result<(), MerkleVerificationError>)
        ensures
            !((self@.count == 0 && self@.index == 0) || self@.index < self@.count) ==> r == Err::<
                (),
                MerkleVerificationError,
            >(MerkleVerificationError::IndexOutOfBounds { count: self@.count, index: self@.index }),
            ((self@.count == 0 && self@.index == 0) || self@.index < self@.count)
                && self@.proof.len() != expected_proof_length(
                self@.index as nat,
                self@.count as nat,
            ) ==> r == Err::<(), MerkleVerificationError>(
                MerkleVerificationError::UnexpectedProofLength {
                    count: self@.count,
                    index: self@.index,
                    expected_proof_length: expected_proof_length(
                        self@.index as nat,
                        self@.count as nat,
                    ) as u64,
                    actual_proof_length: self@.proof.len() as usize,
                },
            ),
            self@.is_valid() ==> r is Ok,
    {
        if !((self.count == 0 && self.index == 0) || self.index < self.count) {
            return Err(
                MerkleVerificationError::IndexOutOfBounds { count: self.count, index: self.index },
            );
        }
        let expected_proof_length = self.compute_expected_proof_length();
        if self.merkle_proof.len() as u64 != expected_proof_length {
            return Err(
                MerkleVerificationError::UnexpectedProofLength {
                    count: self.count,
                    index: self.index,
                    expected_proof_length,
                    actual_proof_length: self.merkle_proof.len(),
                },
            );
        }
        Ok(())
    }
}

impl TryFrom<IndexedMerkleProofDeserializeValidator> for IndexedMerkleProof {
    type Error = MerkleConstructionError;

    /// Accepts decoded fields only when the index does not exceed the count
    /// and the proof has the expected length.
    fn try_from(value: IndexedMerkleProofDeserializeValidator) -> (r: Result<
        Self,
        Self::Error,
    >)
        ensures
            value.view().index <= value.view().count && value.view().proof.len()
                == expected_proof_length(value.view().index as nat, value.view().count as nat)
                ==> (r matches Ok(p) && p@ == value.view()),
            !(value.view().index <= value.view().count && value.view().proof.len()
                == expected_proof_length(value.view().index as nat, value.view().count as nat))
                ==> r == Err::<Self, Self::Error>(
                MerkleConstructionError::IncorrectIndexedMerkleProof,
            ),
    {
        let candidate = IndexedMerkleProof {
            index: value.index,
            count: value.count,
            merkle_proof: value.merkle_proof,
        };
        if candidate.index > candidate.count || candidate.merkle_proof.len() as u64
            != candidate.compute_expected_proof_length() {
            return Err(MerkleConstructionError::IncorrectIndexedMerkleProof);
        }
        Ok(candidate)
    }
}

impl vstd::std_specs::convert::TryFromSpecImpl<IndexedMerkleProofDeserializeValidator> for IndexedMerkleProof {
    open spec fn obeys_try_from_spec() -> bool {
        true
    }

    closed spec fn try_from_spec(value: IndexedMerkleProofDeserializeValidator) -> Result<
        Self,
        MerkleConstructionError,
    > {
        if value.index <= value.count && value.merkle_proof@.len() == expected_proof_length(
            value.index as nat,
            value.count as nat,
        ) {
            Ok(
                IndexedMerkleProof {
                    index: value.index,
                    count: value.count,
                    merkle_proof: value.merkle_proof,
                },
            )
        } else {
            Err(MerkleConstructionError::IncorrectIndexedMerkleProof)
        }
    }
}

} // verus!
