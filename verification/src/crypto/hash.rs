//! BLAKE3 hashing.

use vstd::prelude::*;

verus! {

/// The 256-bit BLAKE3 digest of `data`, as the `blake3` crate computes it.
pub uninterp spec fn blake3_digest(data: Seq<u8>) -> Seq<u8>;

/// Hashes `data` with `blake3::hash`.
///
/// Trusted: the result is the digest of the argument and of nothing else. No
/// clause says which bytes a digest holds, nor that two digests differ.
#[verifier::external_body]
pub fn blake3_hash(data: &[u8]) -> (r: [u8; 32])
    ensures
        r@ == blake3_digest(data@),
{
    *blake3::hash(data).as_bytes()
}

} // verus!
