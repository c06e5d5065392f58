//! The SHA-256 hash of a validator set.

use vstd::prelude::*;
use crate::hashing::{sha2_256, sha2_256_digest};

verus! {

/// The keys of a validator set laid out one after another.
pub open spec fn concat_keys(validator_set: Seq<[u8; 32]>) -> Seq<u8> {
    Seq::new(32 * validator_set.len(), |i: int| validator_set[i / 32]@[i % 32])
}

/// Lays the keys of a validator set out one after another.
pub fn flatten_keys(validator_set: &Vec<[u8; 32]>) -> (bytes: Vec<u8>)
    ensures
        bytes@ == concat_keys(validator_set@),
{
    let mut bytes: Vec<u8> = Vec::new();
    let mut i: usize = 0;
    while i < validator_set.len()
        invariant
            i <= validator_set@.len(),
            bytes@.len() == 32 * i,
            forall|k: int|
                0 <= k < bytes@.len() ==> bytes@[k] == validator_set@[k / 32]@[k % 32],
        decreases validator_set@.len() - i,
    {
        let key = &validator_set[i];
        let mut j: usize = 0;
        while j < 32
            invariant
                j <= 32,
                i < validator_set@.len(),
                *key == validator_set@[i as int],
                bytes@.len() == 32 * i + j,
                forall|k: int|
                    0 <= k < bytes@.len() ==> bytes@[k] == validator_set@[k / 32]@[k % 32],
            decreases 32 - j,
        {
            bytes.push(key[j]);
            j += 1;
        }
        i += 1;
    }
    assert(bytes@ =~= concat_keys(validator_set@));
    bytes
}

/// A validator set whose hash is to be proved.
#[derive(Debug)]
pub struct ValidatorSetHash {
    pub validator_set: Vec<[u8; 32]>,
}

/// What the proof of a validator set's hash exposes.
#[derive(Debug)]
pub struct ValidatorSetHashPublicInputs {
    /// SHA-256 of the keys laid out one after another.
    pub hash: [u8; 32],
    pub validator_set: Vec<[u8; 32]>,
}

impl ValidatorSetHash {
    /// Returns what the proof of the set's hash exposes: the SHA-256 digest of
    /// the keys laid out one after another, and the set itself.
    pub fn prove(&self) -> (public_inputs: ValidatorSetHashPublicInputs)
        ensures
            public_inputs.hash@ == sha2_256(concat_keys(self.validator_set@)),
            public_inputs.validator_set@ == self.validator_set@,
    {
        let bytes = flatten_keys(&self.validator_set);
        let hash = sha2_256_digest(bytes.as_slice());
        ValidatorSetHashPublicInputs {
            hash,
            validator_set: crate::block_finality::copy_keys(&self.validator_set),
        }
    }
}

} // verus!
