//! The canonical tree shape: pivots, descent paths and proof lengths.
use vstd::arithmetic::power2::{lemma_pow2_strictly_increases, lemma_pow2_unfold, pow2};
use vstd::prelude::*;

verus! {

/// Doubles `p` for as long as it stays below `n - p`.
pub open spec fn pivot_from(p: nat, n: nat) -> nat
    decreases n - p,
{
    if 0 < p && p < n - p {
        pivot_from(2 * p, n)
    } else {
        p
    }
}

/// The pivot of a subtree of `n >= 2` leaves: the largest power of two
/// strictly below `n`. The left subtree covers `[0, pivot)`, the right one
/// `[pivot, n)`.
pub open spec fn pivot(n: nat) -> nat {
    pivot_from(1, n)
}

proof fn lemma_pivot_from(p: nat, n: nat, e: nat) -> (e2: nat)
    requires
        p == pow2(e),
        p < n,
    ensures
        pivot_from(p, n) == pow2(e2),
        pivot_from(p, n) < n <= 2 * pivot_from(p, n),
    decreases n - p,
{
    vstd::arithmetic::power2::lemma_pow2_pos(e);
    if p < n - p {
        lemma_pow2_unfold(e + 1);
        lemma_pivot_from(2 * p, n, e + 1)
    } else {
        e
    }
}

/// The pivot is a power of two `p` with `p < n <= 2 * p`.
pub proof fn lemma_pivot(n: nat) -> (e: nat)
    requires
        n >= 2,
    ensures
        pivot(n) == pow2(e),
        0 < pivot(n) < n <= 2 * pivot(n),
{
    vstd::arithmetic::power2::lemma2_to64();
    let e = lemma_pivot_from(1, n, 0);
    vstd::arithmetic::power2::lemma_pow2_pos(e);
    e
}

/// The direction bits met while descending from a subtree of `n` leaves to the
/// leaf at position `i`, root first: `false` for left, `true` for right.
pub open spec fn path(i: nat, n: nat) -> Seq<bool>
    decreases n,
{
    let p = pivot(n);
    if n >= 2 && 0 < p && p < n {
        if i < p {
            seq![false] + path(i, p)
        } else {
            seq![true] + path((i - p) as nat, (n - p) as nat)
        }
    } else {
        Seq::empty()
    }
}

/// Number of hashes in a proof for position `i` among `n` leaves: none for an
/// empty sequence, else the leaf itself and one sibling per level of descent.
pub open spec fn expected_proof_length(i: nat, n: nat) -> nat {
    if n == 0 {
        0
    } else {
        1 + path(i, n).len()
    }
}

/// A subtree of at most `2^k` leaves is at most `k` levels deep.
pub proof fn lemma_path_len(i: nat, n: nat, k: nat)
    requires
        n <= pow2(k),
    ensures
        path(i, n).len() <= k,
    decreases n,
{
    if n >= 2 {
        let e = lemma_pivot(n);
        let p = pivot(n);
        if k == 0 {
            vstd::arithmetic::power2::lemma2_to64();
        } else {
            lemma_pow2_unfold(k);
            if e >= k {
                if e > k {
                    lemma_pow2_strictly_increases(k, e);
                }
            } else if e < (k - 1) as nat {
                lemma_pow2_strictly_increases(e, (k - 1) as nat);
            }
            if i < p {
                lemma_path_len(i, p, (k - 1) as nat);
            } else {
                lemma_path_len((i - p) as nat, (n - p) as nat, (k - 1) as nat);
            }
        }
    }
}

/// Every proof length over 64-bit counts is at most 65.
pub proof fn lemma_expected_proof_length_bound(i: u64, n: u64)
    ensures
        expected_proof_length(i as nat, n as nat) <= 65,
{
    vstd::arithmetic::power2::lemma2_to64();
    lemma_path_len(i as nat, n as nat, 64);
}

/// Computes the pivot of a subtree of `n >= 2` leaves.
pub fn pivot_of(n: u64) -> (r: u64)
    requires
        n >= 2,
    ensures
        r as nat == pivot(n as nat),
        0 < r < n,
{
    proof {
        lemma_pivot(n as nat);
    }
    let mut p: u64 = 1;
    while p < n - p
        invariant
            0 < p < n,
            pivot_from(p as nat, n as nat) == pivot(n as nat),
        decreases n - p,
    {
        p = p * 2;
    }
    p
}

} // verus!
