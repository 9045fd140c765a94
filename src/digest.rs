//! Fixed-size digests and the order-sensitive pair combinator.
use blake2::digest::{Update, VariableOutput};
use blake2::VarBlake2b;
use vstd::prelude::*;

verus! {

/// A 256-bit BLAKE2b digest.
#[derive(Clone, Copy, Debug, PartialEq, Eq)]
pub struct Blake2bHash(pub [u8; 32]);

impl Blake2bHash {
    /// The bytes of the digest.
    pub open spec fn bytes(self) -> Seq<u8> {
        self.0@
    }
}

/// What 256-bit BLAKE2b (unkeyed) returns for the given input bytes.
pub uninterp spec fn blake2b_256(data: Seq<u8>) -> Seq<u8>;

/// The combinator: the digest of `a` followed by `b`.
pub open spec fn combine(a: Seq<u8>, b: Seq<u8>) -> Seq<u8> {
    blake2b_256(a + b)
}

/// Relies on blake2's `VarBlake2b` with a 32-byte output: feeding `left` and
/// then `right` digests their concatenation, and the output has 32 bytes.
#[verifier::external_body]
pub(crate) fn hash_pair(left: &[u8], right: &[u8]) -> (r: Blake2bHash)
    ensures
        r.bytes() == blake2b_256(left@ + right@),
{
    let mut hasher = VarBlake2b::new(32).unwrap();
    hasher.update(left);
    hasher.update(right);
    let mut out = [0u8; 32];
    hasher.finalize_variable(|slice| out.copy_from_slice(slice));
    Blake2bHash(out)
}

/// The raw root of an empty leaf sequence: 32 bytes of value 2, which no
/// digest of real content is expected to equal.
pub open spec fn sentinel() -> Seq<u8> {
    Seq::new(32, |i: int| 2u8)
}

/// Returns the empty-sequence sentinel.
pub fn empty_sentinel() -> (r: Blake2bHash)
    ensures
        r.bytes() == sentinel(),
{
    let r = Blake2bHash([2u8; 32]);
    assert(r.bytes() =~= sentinel());
    r
}

/// The first `k` little-endian bytes of `x`.
pub open spec fn le_bytes_spec(x: nat, k: nat) -> Seq<u8>
    decreases k,
{
    if k == 0 {
        Seq::empty()
    } else {
        seq![(x % 256) as u8] + le_bytes_spec(x / 256, (k - 1) as nat)
    }
}

/// The 8-byte little-endian encoding of a 64-bit count.
pub open spec fn le_bytes(x: u64) -> Seq<u8> {
    le_bytes_spec(x as nat, 8)
}

/// Encodes `x` as eight little-endian bytes.
pub fn u64_le_bytes(x: u64) -> (r: Vec<u8>)
    ensures
        r@ == le_bytes(x),
{
    let mut out: Vec<u8> = Vec::new();
    let mut v: u64 = x;
    let mut k: usize = 0;
    while k < 8
        invariant
            k <= 8,
            out@ + le_bytes_spec(v as nat, (8 - k) as nat) == le_bytes(x),
        decreases 8 - k,
    {
        let b: u8 = (v % 256) as u8;
        proof {
            let rest = le_bytes_spec((v / 256) as nat, (8 - k - 1) as nat);
            assert(le_bytes_spec(v as nat, (8 - k) as nat) == seq![b] + rest);
            assert(out@.push(b) + rest =~= out@ + (seq![b] + rest));
        }
        out.push(b);
        v = v / 256;
        k = k + 1;
    }
    assert(out@ + le_bytes_spec(v as nat, 0) =~= out@);
    out
}

/// Combines two digests, `left` first.
pub fn combine_digests(left: &Blake2bHash, right: &Blake2bHash) -> (r: Blake2bHash)
    ensures
        r.bytes() == combine(left.bytes(), right.bytes()),
{
    hash_pair(&left.0, &right.0)
}

/// Binds a raw root to a leaf count: the combination of the count's
/// little-endian bytes with the raw root.
pub fn bind_count(count: u64, raw_root: &Blake2bHash) -> (r: Blake2bHash)
    ensures
        r.bytes() == combine(le_bytes(count), raw_root.bytes()),
{
    let bytes = u64_le_bytes(count);
    hash_pair(bytes.as_slice(), &raw_root.0)
}

} // verus!
