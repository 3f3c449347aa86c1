//! Guest-side hashing.
//!
//! JAM's standard hash is blake2b-256; the head commitment's tree elements use
//! keccak-256. Both are computed by their crates and named here: a digest is
//! a function of the input bytes alone.

use tiny_keccak::Hasher;
use vstd::prelude::*;

verus! {

/// A 32-octet hash.
pub type Hash32 = [u8; 32];

/// blake2b with a 32-octet output, over `data`.
pub uninterp spec fn blake2b_256(data: Seq<u8>) -> Seq<u8>;

/// keccak-256 over `data`.
pub uninterp spec fn keccak_256_of(data: Seq<u8>) -> Seq<u8>;

/// blake2b-256 of `data`, through `blake2b_simd::Params` with a 32-octet
/// hash length. Claimed: the digest is `blake2b_256(data)`, a function of the
/// bytes alone.
#[verifier::external_body]
pub fn blake2_256(data: &[u8]) -> (h: Hash32)
    ensures
        h@ == blake2b_256(data@),
{
    let hash = blake2b_simd::Params::new().hash_length(32).hash(data);
    let mut out = [0u8; 32];
    out.copy_from_slice(hash.as_bytes());
    out
}

/// keccak-256 of `data`, through `tiny_keccak::Keccak::v256`. Claimed: the
/// digest is `keccak_256_of(data)`, a function of the bytes alone.
#[verifier::external_body]
pub(crate) fn keccak_256(data: &[u8]) -> (h: Hash32)
    ensures
        h@ == keccak_256_of(data@),
{
    let mut keccak = tiny_keccak::Keccak::v256();
    keccak.update(data);
    let mut out = [0u8; 32];
    keccak.finalize(&mut out);
    out
}

/// Do two hashes hold the same octets?
pub fn hash_eq(a: &Hash32, b: &Hash32) -> (r: bool)
    ensures
        r == (a@ == b@),
{
    let mut i: usize = 0;
    while i < 32
        invariant
            i <= 32,
            forall|j: int| 0 <= j < i ==> a@[j] == b@[j],
        decreases 32 - i,
    {
        if a[i] != b[i] {
            return false;
        }
        i = i + 1;
    }
    proof {
        assert(a@ =~= b@);
    }
    true
}

/// Do two byte strings hold the same octets?
pub fn bytes_eq(a: &[u8], b: &[u8]) -> (r: bool)
    ensures
        r == (a@ == b@),
{
    if a.len() != b.len() {
        return false;
    }
    let mut i: usize = 0;
    while i < a.len()
        invariant
            i <= a@.len() == b@.len(),
            forall|j: int| 0 <= j < i ==> a@[j] == b@[j],
        decreases a@.len() - i,
    {
        if a[i] != b[i] {
            return false;
        }
        i = i + 1;
    }
    proof {
        assert(a@ =~= b@);
    }
    true
}

} // verus!
