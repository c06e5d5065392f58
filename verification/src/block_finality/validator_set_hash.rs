//! The BLAKE2 hash of a validator set of any size up to a bound.
//!
//! The set is padded with zero keys to the bound, and its true length is
//! exposed beside it, so that one circuit serves every size.

use vstd::prelude::*;
use crate::common::ProofError;
use crate::hashing::{blake2_256, blake2_256_digest};
use crate::validator_set_hash::{concat_keys, flatten_keys};

verus! {

/// A validator set whose hash is to be proved.
#[derive(Debug)]
pub struct ValidatorSetHash {
    /// All the validators that take part in GRANDPA voting.
    pub validator_set: Vec<[u8; 32]>,
}

/// What the proof of a validator set's hash exposes.
#[derive(Debug)]
pub struct ValidatorSetHashPublicInputs {
    /// BLAKE2 hash of the keys laid out one after another.
    pub hash: [u8; 32],
    /// The set, padded with zero keys to the bound.
    pub validator_set: Vec<[u8; 32]>,
    /// Number of keys of the set.
    pub validator_set_length: u64,
}

/// `validator_set` followed by zero keys up to `length` keys.
pub open spec fn padded_keys(validator_set: Seq<[u8; 32]>, length: nat) -> Seq<Seq<u8>> {
    Seq::new(
        length,
        |i: int|
            if i < validator_set.len() {
                validator_set[i]@
            } else {
                Seq::new(32, |k: int| 0u8)
            },
    )
}

/// The byte strings of a list of keys.
pub open spec fn key_views(keys: Seq<[u8; 32]>) -> Seq<Seq<u8>> {
    Seq::new(keys.len(), |i: int| keys[i]@)
}

impl ValidatorSetHash {
    /// BLAKE2 hash of the keys laid out one after another.
    pub open spec fn spec_compute_hash(&self) -> Seq<u8> {
        blake2_256(concat_keys(self.validator_set@))
    }

    /// Computes the BLAKE2 hash of the keys laid out one after another.
    pub fn compute_hash(&self) -> (hash: [u8; 32])
        ensures
            hash@ == self.spec_compute_hash(),
    {
        let bytes = flatten_keys(&self.validator_set);
        blake2_256_digest(bytes.as_slice())
    }

    /// Returns what the proof of the set's hash exposes. A set that is empty
    /// or holds more than `max_validator_count` keys has no proof.
    pub fn prove(self, max_validator_count: usize) -> (public_inputs: Result<
        ValidatorSetHashPublicInputs,
        ProofError,
    >)
        ensures
            public_inputs is Ok <==> 1 <= self.validator_set@.len() <= max_validator_count,
            public_inputs matches Ok(exposed) ==> {
                &&& exposed.hash@ == self.spec_compute_hash()
                &&& key_views(exposed.validator_set@) == padded_keys(
                    self.validator_set@,
                    max_validator_count as nat,
                )
                &&& exposed.validator_set_length == self.validator_set@.len()
            },
            public_inputs matches Err(error) ==> error == ProofError::InvalidWitness,
    {
        let validator_count = self.validator_set.len();
        if validator_count == 0 || validator_count > max_validator_count {
            return Err(ProofError::InvalidWitness);
        }
        let hash = self.compute_hash();
        let mut padded: Vec<[u8; 32]> = Vec::new();
        let mut i: usize = 0;
        while i < max_validator_count
            invariant
                i <= max_validator_count,
                validator_count == self.validator_set@.len(),
                padded@.len() == i,
                forall|k: int|
                    0 <= k < i ==> (#[trigger] padded@[k])@ == padded_keys(
                        self.validator_set@,
                        max_validator_count as nat,
                    )[k],
            decreases max_validator_count - i,
        {
            let key = if i < validator_count {
                self.validator_set[i]
            } else {
                [0u8; 32]
            };
            assert(key@ =~= padded_keys(self.validator_set@, max_validator_count as nat)[i as int]);
            padded.push(key);
            i += 1;
        }
        assert(key_views(padded@) =~= padded_keys(
            self.validator_set@,
            max_validator_count as nat,
        ));
        Ok(
            ValidatorSetHashPublicInputs {
                hash,
                validator_set: padded,
                validator_set_length: validator_count as u64,
            },
        )
    }
}

} // verus!
