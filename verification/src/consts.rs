//! Sizes of the values that the circuits handle.

use vstd::prelude::*;

verus! {

/// Bytes in a BLAKE2 digest of 256 bits.
pub const BLAKE2_DIGEST_SIZE: usize = 32;

/// Bits in a BLAKE2 digest of 256 bits.
pub const BLAKE2_DIGEST_SIZE_IN_BITS: usize = 256;

/// Bytes in a SHA-256 digest.
pub const SHA256_DIGEST_SIZE: usize = 32;

/// Bytes in an Ed25519 public key.
pub const ED25519_PUBLIC_KEY_SIZE: usize = 32;

/// Bits in an Ed25519 public key.
pub const ED25519_PUBLIC_KEY_SIZE_IN_BITS: usize = 256;

/// Bytes in an Ed25519 signature.
pub const ED25519_SIGNATURE_SIZE: usize = 64;

/// Bytes in a GRANDPA vote.
pub const GRANDPA_VOTE_LENGTH: usize = 53;

/// Bits in a GRANDPA vote.
pub const GRANDPA_VOTE_LENGTH_IN_BITS: usize = 424;

} // verus!
