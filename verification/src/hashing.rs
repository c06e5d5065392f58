//! Digests computed by cryptographic crates.
//!
//! Each digest is given a name in contracts; nothing in the library depends
//! on what a digest is, only on the fact that equal inputs give equal outputs.

use vstd::prelude::*;

verus! {

/// The SHA-256 digest of `data`, as `ring` computes it.
pub uninterp spec fn sha256(data: Seq<u8>) -> Seq<u8>;

/// The SHA-256 digest of `data`, as the `sha2` crate computes it.
pub uninterp spec fn sha2_256(data: Seq<u8>) -> Seq<u8>;

/// The 256-bit BLAKE2b digest of `data`, as `sp_core::Blake2Hasher` computes it.
pub uninterp spec fn blake2_256(data: Seq<u8>) -> Seq<u8>;

/// Calls `ring::digest::digest` with the SHA-256 algorithm. The contract
/// claims only that the 32 bytes returned are the digest of exactly the bytes
/// passed in.
#[verifier::external_body]
pub(crate) fn sha256_digest(data: &[u8]) -> (digest: [u8; 32])
    ensures
        digest@ == sha256(data@),
{
    let mut digest = [0u8; 32];
    digest.copy_from_slice(ring::digest::digest(&ring::digest::SHA256, data).as_ref());
    digest
}

/// Calls `sha2::Sha256::digest`. The contract claims only that the 32 bytes
/// returned are the digest of exactly the bytes passed in.
#[verifier::external_body]
pub(crate) fn sha2_256_digest(data: &[u8]) -> (digest: [u8; 32])
    ensures
        digest@ == sha2_256(data@),
{
    <sha2::Sha256 as sha2::Digest>::digest(data).into()
}

/// Calls `sp_core::Blake2Hasher::hash`, the hasher of the state trie. The
/// contract claims only that the 32 bytes returned are the digest of exactly
/// the bytes passed in.
#[verifier::external_body]
pub(crate) fn blake2_256_digest(data: &[u8]) -> (digest: [u8; 32])
    ensures
        digest@ == blake2_256(data@),
{
    <sp_core::Blake2Hasher as sp_core::Hasher>::hash(data).0
}

} // verus!
