//! The hash that names every node: Keccak-256.

use vstd::prelude::*;

verus! {

/// The Keccak-256 digest of `data`.
pub uninterp spec fn keccak256_digest(data: Seq<u8>) -> Seq<u8>;

/// Calls `tiny_keccak::keccak256`, which absorbs `data` into a Keccak sponge
/// of rate 136 with the padding byte 0x01 and squeezes 32 bytes out of it.
/// The digest depends on `data` alone; the contract gives it its name and
/// claims nothing else of it.
#[verifier::external_body]
pub(crate) fn keccak256(data: &[u8]) -> (digest: [u8; 32])
    ensures
        digest@ == keccak256_digest(data@),
{
    tiny_keccak::keccak256(data)
}

/// The hasher of the trie.
#[derive(Default, Debug, Clone, Copy, PartialEq)]
pub struct KeccakHasher;

impl KeccakHasher {
    /// The length of a digest in bytes.
    pub const LENGTH: usize = 32;

    /// The digest of `x`.
    pub fn hash(x: &[u8]) -> (out: [u8; 32])
        ensures
            out@ == keccak256_digest(x@),
    {
        keccak256(x)
    }
}

} // verus!
