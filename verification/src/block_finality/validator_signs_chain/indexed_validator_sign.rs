//! A validator at an index of a hashed set has signed a GRANDPA vote.

use vstd::prelude::*;
use crate::beacon::hashes_equal;
use crate::block_finality::validator_set_hash::ValidatorSetHashPublicInputs;
use crate::block_finality::SingleValidatorSign;
use crate::common::ProofError;
use crate::consts::{ED25519_PUBLIC_KEY_SIZE, ED25519_SIGNATURE_SIZE, GRANDPA_VOTE_LENGTH};
use crate::signature::ed25519_verifies;

verus! {

/// What the proof of an indexed sign exposes.
#[derive(Clone, Copy, Debug)]
pub struct IndexedValidatorSignPublicInputs {
    /// BLAKE2 hash of the validator set.
    pub validator_set_hash: [u8; 32],
    /// Number of validators in the set.
    pub validator_count: u64,
    /// Place of the signer in the set.
    pub validator_idx: u64,
    /// The vote that was signed.
    pub message: [u8; GRANDPA_VOTE_LENGTH],
}

/// A validator, named by its place in a set and by its key, has signed a vote.
#[derive(Clone, Copy, Debug)]
pub struct IndexedValidatorSign {
    /// Key of the validator at the index.
    pub public_key: [u8; ED25519_PUBLIC_KEY_SIZE],
    /// Place of the validator in the set.
    pub index: usize,
    /// The vote.
    pub message: [u8; GRANDPA_VOTE_LENGTH],
    /// Signature of the vote by the validator.
    pub signature: [u8; ED25519_SIGNATURE_SIZE],
}

impl IndexedValidatorSign {
    /// Whether the signature verifies under the key, and the key is the one
    /// that stands at the index of the padded set.
    pub open spec fn provable(&self, validator_set: Seq<[u8; 32]>) -> bool {
        &&& ed25519_verifies(self.public_key@, self.message@, self.signature@)
        &&& self.index < validator_set.len()
        &&& validator_set[self.index as int]@ == self.public_key@
    }

    /// Returns what the proof of the indexed sign exposes, given what the
    /// proof of the set's hash exposes. The key read from the padded set at
    /// the index must be the key under which the signature verifies.
    pub fn prove(&self, validator_set_hash_proof: &ValidatorSetHashPublicInputs) -> (public_inputs:
        Result<IndexedValidatorSignPublicInputs, ProofError>)
        ensures
            public_inputs is Ok <==> self.provable(validator_set_hash_proof.validator_set@),
            public_inputs matches Ok(exposed) ==> {
                &&& exposed.validator_set_hash == validator_set_hash_proof.hash
                &&& exposed.validator_count == validator_set_hash_proof.validator_set_length
                &&& exposed.validator_idx == self.index
                &&& exposed.message == self.message
            },
            public_inputs matches Err(error) ==> error == ProofError::InvalidWitness,
    {
        let sign = SingleValidatorSign {
            public_key: self.public_key,
            signature: self.signature,
            message: self.message,
        };
        let sign_proof = match sign.prove() {
            Ok(proof) => proof,
            Err(error) => {
                return Err(error);
            },
        };
        if self.index >= validator_set_hash_proof.validator_set.len() {
            return Err(ProofError::InvalidWitness);
        }
        let validator = &validator_set_hash_proof.validator_set[self.index];
        if !hashes_equal(validator, &sign_proof.public_key) {
            return Err(ProofError::InvalidWitness);
        }
        Ok(
            IndexedValidatorSignPublicInputs {
                validator_set_hash: validator_set_hash_proof.hash,
                validator_count: validator_set_hash_proof.validator_set_length,
                validator_idx: self.index as u64,
                message: sign_proof.message,
            },
        )
    }
}

} // verus!
