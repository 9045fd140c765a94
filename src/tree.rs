//! Folding leaves into a tree of the canonical shape, and the roots that such
//! trees and inclusion proofs determine.
use crate::digest::{
    bind_count, combine, combine_digests, empty_sentinel, le_bytes, le_bytes_spec, sentinel,
    Blake2bHash,
};
use crate::shape::{expected_proof_length, lemma_pivot, path, pivot};
use itertools::Itertools;
use vstd::prelude::*;

verus! {

/// The digests held by a sequence of hashes.
pub open spec fn hashes_view(v: Seq<Blake2bHash>) -> Seq<Seq<u8>> {
    v.map_values(|h: Blake2bHash| h.bytes())
}

/// The raw root of a leaf sequence: the sentinel when it is empty, the leaf
/// when it holds one, else the combination of the roots of both sides of the
/// pivot.
pub open spec fn raw_root(leaves: Seq<Seq<u8>>) -> Seq<u8>
    decreases leaves.len(),
{
    let n = leaves.len();
    let p = pivot(n);
    if n == 0 {
        sentinel()
    } else if n >= 2 && 0 < p && p < n {
        combine(raw_root(leaves.take(p as int)), raw_root(leaves.skip(p as int)))
    } else {
        leaves[0]
    }
}

/// The root of a leaf sequence: its raw root bound to the leaf count.
pub open spec fn merkle_root(leaves: Seq<Seq<u8>>) -> Seq<u8> {
    combine(le_bytes_spec(leaves.len(), 8), raw_root(leaves))
}

/// The raw root that a proof for position `i` among `n` leaves determines:
/// its last hash is the sibling at the top level, on the side opposite to the
/// one the descent takes.
pub open spec fn raw_root_from_proof(i: nat, n: nat, proof: Seq<Seq<u8>>) -> Seq<u8>
    decreases n,
{
    let p = pivot(n);
    if n == 0 {
        sentinel()
    } else if n >= 2 && 0 < p && p < n {
        if i < p {
            combine(raw_root_from_proof(i, p, proof.drop_last()), proof.last())
        } else {
            combine(proof.last(), raw_root_from_proof((i - p) as nat, (n - p) as nat, proof.drop_last()))
        }
    } else {
        proof[0]
    }
}

/// The root that a proof determines: its raw root bound to the leaf count.
pub open spec fn root_from_proof(i: nat, n: u64, proof: Seq<Seq<u8>>) -> Seq<u8> {
    combine(le_bytes(n), raw_root_from_proof(i, n as nat, proof))
}

/// A node of the fold that builds a proof: a plain subtree hash, or the
/// proof gathered so far for the subtree that holds the target leaf.
pub enum HashOrProof {
    Hash(Blake2bHash),
    Proof(Vec<Blake2bHash>),
}

/// What a fold node holds, as digests.
pub enum NodeView {
    Hash(Seq<u8>),
    Proof(Seq<Seq<u8>>),
}

impl HashOrProof {
    pub open spec fn view(&self) -> NodeView {
        match self {
            HashOrProof::Hash(h) => NodeView::Hash(h.bytes()),
            HashOrProof::Proof(p) => NodeView::Proof(hashes_view(p@)),
        }
    }
}

/// A fold node with the number of leaves it covers.
pub open spec fn node_view(x: (u64, HashOrProof)) -> (nat, NodeView) {
    (x.0 as nat, x.1.view())
}

/// Combines two adjacent fold nodes, left then right.
pub open spec fn combine_node(x: (nat, NodeView), y: (nat, NodeView)) -> (nat, NodeView) {
    let c = x.0 + y.0;
    match (x.1, y.1) {
        (NodeView::Hash(a), NodeView::Hash(b)) => (c, NodeView::Hash(combine(a, b))),
        (NodeView::Hash(h), NodeView::Proof(p)) => (c, NodeView::Proof(p.push(h))),
        (NodeView::Proof(p), NodeView::Hash(h)) => (c, NodeView::Proof(p.push(h))),
        (NodeView::Proof(p), NodeView::Proof(_)) => (c, NodeView::Proof(p)),
    }
}

/// The result of folding nodes as a tree of the canonical shape.
pub open spec fn fold_nodes(s: Seq<(nat, NodeView)>) -> (nat, NodeView)
    decreases s.len(),
{
    let n = s.len();
    let p = pivot(n);
    if n >= 2 && 0 < p && p < n {
        combine_node(fold_nodes(s.take(p as int)), fold_nodes(s.skip(p as int)))
    } else {
        s[0]
    }
}

/// Combines two adjacent fold nodes.
pub fn combine_nodes(x: (u64, HashOrProof), y: (u64, HashOrProof)) -> (r: (u64, HashOrProof))
    requires
        !(x.1 is Proof && y.1 is Proof),
        x.0 + y.0 <= u64::MAX,
    ensures
        node_view(r) == combine_node(node_view(x), node_view(y)),
{
    let (count_x, node_x) = x;
    let (count_y, node_y) = y;
    let count = count_x + count_y;
    match (node_x, node_y) {
        (HashOrProof::Hash(a), HashOrProof::Hash(b)) => {
            (count, HashOrProof::Hash(combine_digests(&a, &b)))
        },
        (HashOrProof::Hash(h), HashOrProof::Proof(mut p)) => {
            let ghost before = p@;
            p.push(h);
            proof {
                assert(hashes_view(p@) =~= hashes_view(before).push(h.bytes()));
            }
            (count, HashOrProof::Proof(p))
        },
        (HashOrProof::Proof(mut p), HashOrProof::Hash(h)) => {
            let ghost before = p@;
            p.push(h);
            proof {
                assert(hashes_view(p@) =~= hashes_view(before).push(h.bytes()));
            }
            (count, HashOrProof::Proof(p))
        },
        (HashOrProof::Proof(p), HashOrProof::Proof(_)) => (count, HashOrProof::Proof(p)),
    }
}

/// Nodes that may be handed to the fold: each covers one leaf, and at most one
/// holds a proof.
pub open spec fn fold_ready(s: Seq<(u64, HashOrProof)>) -> bool {
    &&& s.len() <= u64::MAX
    &&& forall|j: int| 0 <= j < s.len() ==> (#[trigger] s[j]).0 == 1
    &&& forall|j: int, k: int|
        0 <= j < s.len() && 0 <= k < s.len() && (#[trigger] s[j]).1 is Proof && (#[trigger] s[k]).1
            is Proof ==> j == k
}

/// What a sequence of fold nodes holds.
pub open spec fn nodes_view(s: Seq<(u64, HashOrProof)>) -> Seq<(nat, NodeView)> {
    s.map_values(|x: (u64, HashOrProof)| node_view(x))
}

/// Relies on itertools' `Itertools::tree_fold1`, which combines the items in
/// a tree whose left subtrees hold the largest power of two of items below
/// their total (its documentation gives `f(f(f(1, 2), f(3, 4)), f(f(5, 6), 7))`
/// for seven items), and returns `None` for no items. The nodes cover
/// disjoint ranges of at most `u64::MAX` leaves, so the combinator's
/// preconditions hold at every step.
#[verifier::external_body]
pub(crate) fn tree_fold(nodes: Vec<(u64, HashOrProof)>) -> (r: Option<(u64, HashOrProof)>)
    requires
        fold_ready(nodes@),
    ensures
        r is None <==> nodes@.len() == 0,
        r matches Some(x) ==> node_view(x) == fold_nodes(nodes_view(nodes@)),
{
    nodes.into_iter().tree_fold1(|x, y| combine_nodes(x, y))
}

/// The fold nodes for a leaf sequence: one leaf each, the leaf at position
/// `i` (if any) starting a proof.
pub open spec fn leaf_nodes(leaves: Seq<Seq<u8>>, i: int) -> Seq<(nat, NodeView)> {
    Seq::new(
        leaves.len(),
        |j: int|
            if j == i {
                (1nat, NodeView::Proof(seq![leaves[j]]))
            } else {
                (1nat, NodeView::Hash(leaves[j]))
            },
    )
}

proof fn lemma_leaf_nodes_split(leaves: Seq<Seq<u8>>, i: int, p: int)
    requires
        0 <= p <= leaves.len(),
    ensures
        leaf_nodes(leaves, i).take(p) == leaf_nodes(leaves.take(p), i),
        leaf_nodes(leaves, i).skip(p) == leaf_nodes(leaves.skip(p), i - p),
{
    assert(leaf_nodes(leaves, i).take(p) =~= leaf_nodes(leaves.take(p), i));
    assert(leaf_nodes(leaves, i).skip(p) =~= leaf_nodes(leaves.skip(p), i - p));
}

/// Folding leaves none of which is marked gives their raw root.
pub(crate) proof fn lemma_fold_plain(leaves: Seq<Seq<u8>>, i: int)
    requires
        leaves.len() >= 1,
        i < 0 || i >= leaves.len(),
    ensures
        fold_nodes(leaf_nodes(leaves, i)) == (leaves.len(), NodeView::Hash(raw_root(leaves))),
    decreases leaves.len(),
{
    let n = leaves.len();
    if n >= 2 {
        lemma_pivot(n);
        let p = pivot(n) as int;
        lemma_leaf_nodes_split(leaves, i, p);
        lemma_fold_plain(leaves.take(p), i);
        lemma_fold_plain(leaves.skip(p), i - p);
    }
}

/// The inclusion proof of the leaf at position `i`: the leaf itself, then the
/// root of the sibling subtree at each level, from the bottom up.
pub open spec fn inclusion_proof(leaves: Seq<Seq<u8>>, i: nat) -> Seq<Seq<u8>>
    decreases leaves.len(),
{
    let n = leaves.len();
    let p = pivot(n);
    if n >= 2 && 0 < p && p < n {
        if i < p {
            inclusion_proof(leaves.take(p as int), i).push(raw_root(leaves.skip(p as int)))
        } else {
            inclusion_proof(leaves.skip(p as int), (i - p) as nat).push(
                raw_root(leaves.take(p as int)),
            )
        }
    } else {
        seq![leaves[0]]
    }
}

/// Folding leaves with the one at `i` marked gives a proof of the expected
/// length that starts with that leaf and determines their raw root.
pub(crate) proof fn lemma_fold_marked(leaves: Seq<Seq<u8>>, i: int) -> (pr: Seq<Seq<u8>>)
    requires
        0 <= i < leaves.len(),
    ensures
        pr == inclusion_proof(leaves, i as nat),
        fold_nodes(leaf_nodes(leaves, i)) == (leaves.len(), NodeView::Proof(pr)),
        pr.len() == expected_proof_length(i as nat, leaves.len()),
        pr[0] == leaves[i],
        raw_root_from_proof(i as nat, leaves.len(), pr) == raw_root(leaves),
    decreases leaves.len(),
{
    let n = leaves.len();
    if n >= 2 {
        lemma_pivot(n);
        let p = pivot(n) as int;
        lemma_leaf_nodes_split(leaves, i, p);
        if i < p {
            let pl = lemma_fold_marked(leaves.take(p), i);
            lemma_fold_plain(leaves.skip(p), i - p);
            let pr = pl.push(raw_root(leaves.skip(p)));
            assert(pr.drop_last() =~= pl);
            pr
        } else {
            lemma_fold_plain(leaves.take(p), i);
            let pl = lemma_fold_marked(leaves.skip(p), i - p);
            let pr = pl.push(raw_root(leaves.take(p)));
            assert(pr.drop_last() =~= pl);
            pr
        }
    } else {
        seq![leaves[0]]
    }
}

/// Builds the fold nodes for `leaves`, the one at position `index` (if any)
/// starting a proof.
pub(crate) fn leaf_nodes_of(leaves: &Vec<Blake2bHash>, index: u64) -> (r: Vec<(u64, HashOrProof)>)
    ensures
        nodes_view(r@) == leaf_nodes(hashes_view(leaves@), index as int),
        r@.len() == leaves@.len(),
        fold_ready(r@),
{
    let ghost target = leaf_nodes(hashes_view(leaves@), index as int);
    let mut nodes: Vec<(u64, HashOrProof)> = Vec::new();
    let mut j: usize = 0;
    while j < leaves.len()
        invariant
            j <= leaves.len(),
            nodes@.len() == j,
            target == leaf_nodes(hashes_view(leaves@), index as int),
            forall|k: int| 0 <= k < j ==> node_view(#[trigger] nodes@[k]) == target[k],
            forall|k: int| 0 <= k < j ==> (#[trigger] nodes@[k]).0 == 1,
            forall|k: int| 0 <= k < j && (#[trigger] nodes@[k]).1 is Proof ==> k == index,
        decreases leaves.len() - j,
    {
        let leaf = leaves[j];
        if j as u64 == index {
            let mut p: Vec<Blake2bHash> = Vec::new();
            p.push(leaf);
            assert(hashes_view(p@) =~= seq![leaf.bytes()]);
            let node = (1u64, HashOrProof::Proof(p));
            nodes.push(node);
        } else {
            let node = (1u64, HashOrProof::Hash(leaf));
            nodes.push(node);
        }
        assert(hashes_view(leaves@)[j as int] == leaf.bytes());
        assert(node_view(nodes@[j as int]) == target[j as int]);
        j = j + 1;
    }
    assert(nodes_view(nodes@) =~= target);
    nodes
}

/// Computes the root of a leaf sequence directly from all its leaves.
pub fn hash_merkle_tree(leaves: &Vec<Blake2bHash>) -> (r: Blake2bHash)
    ensures
        r.bytes() == merkle_root(hashes_view(leaves@)),
{
    let nodes = leaf_nodes_of(leaves, u64::MAX);
    let ghost hs = hashes_view(leaves@);
    let raw = match tree_fold(nodes) {
        None => {
            assert(hs =~= Seq::<Seq<u8>>::empty());
            empty_sentinel()
        },
        Some((_, HashOrProof::Hash(h))) => {
            proof {
                lemma_fold_plain(hs, u64::MAX as int);
            }
            assert(h.bytes() == raw_root(hs));
            h
        },
        Some((_, HashOrProof::Proof(p))) => {
            proof {
                lemma_fold_plain(hs, u64::MAX as int);
            }
            empty_sentinel()
        },
    };
    bind_count(leaves.len() as u64, &raw)
}

/// The direction bit that decides the `k`-th combination above the leaf,
/// read from the end of a root-first path; `false` past its top.
pub open spec fn bit_from_leaf(path: Seq<bool>, k: int) -> bool {
    if 0 <= k < path.len() {
        path[path.len() - 1 - k]
    } else {
        false
    }
}

/// The accumulator after folding `proof[1..=k]` into `proof[0]`, each hash
/// combined on the side that the path's bits give, from the leaf upwards.
pub open spec fn fold_up(path: Seq<bool>, proof: Seq<Seq<u8>>, k: nat) -> Seq<u8>
    decreases k,
{
    if k == 0 {
        proof[0]
    } else {
        let acc = fold_up(path, proof, (k - 1) as nat);
        if bit_from_leaf(path, k - 1) {
            combine(proof[k as int], acc)
        } else {
            combine(acc, proof[k as int])
        }
    }
}

/// The raw root that the iterative reconstruction computes from a proof:
/// the sentinel for an empty proof, else the fold of all its hashes along
/// the path to position `i` among `n` leaves.
pub open spec fn raw_root_iterative(i: nat, n: nat, proof: Seq<Seq<u8>>) -> Seq<u8> {
    if proof.len() == 0 {
        sentinel()
    } else {
        fold_up(path(i, n), proof, (proof.len() - 1) as nat)
    }
}

proof fn lemma_fold_up_prefix(b: bool, path: Seq<bool>, proof: Seq<Seq<u8>>, k: nat)
    requires
        k <= path.len(),
        proof.len() == path.len() + 2,
    ensures
        fold_up(seq![b] + path, proof, k) == fold_up(path, proof.drop_last(), k),
    decreases k,
{
    if k > 0 {
        lemma_fold_up_prefix(b, path, proof, (k - 1) as nat);
    }
}

/// On a proof of the expected length, folding it from the leaf upwards gives
/// the raw root that the recursive split determines.
pub proof fn lemma_iterative_matches_recursive(i: nat, n: nat, proof: Seq<Seq<u8>>)
    requires
        proof.len() == expected_proof_length(i, n),
    ensures
        raw_root_iterative(i, n, proof) == raw_root_from_proof(i, n, proof),
    decreases n,
{
    if n >= 2 {
        lemma_pivot(n);
        let p = pivot(n);
        let rest = proof.drop_last();
        if i < p {
            lemma_iterative_matches_recursive(i, p, rest);
            lemma_fold_up_prefix(false, path(i, p), proof, path(i, p).len());
        } else {
            lemma_iterative_matches_recursive((i - p) as nat, (n - p) as nat, rest);
            lemma_fold_up_prefix(
                true,
                path((i - p) as nat, (n - p) as nat),
                proof,
                path((i - p) as nat, (n - p) as nat).len(),
            );
        }
    }
}

} // verus!
