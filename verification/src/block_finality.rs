//! Finality of a block: a set of validators, known by its hash, has signed
//! one GRANDPA vote.
//!
//! The statement is put together from smaller ones. A single sign says that a
//! key has signed the vote. A selector picks the key at an index of the set.
//! An indexed sign joins the two. A chain folds indexed signs in the order of
//! their indices, which must grow strictly, so that every signer is counted
//! once. The outer statement joins the chain with the hash of the set.

use vstd::prelude::*;
use crate::beacon::hashes_equal;
use crate::bits::{array_to_bits, bytes_equal};
use crate::common::ProofError;
use crate::consts::{ED25519_PUBLIC_KEY_SIZE, ED25519_SIGNATURE_SIZE, GRANDPA_VOTE_LENGTH};
use crate::field::{field_sub, in_range_32, reduce};
use crate::signature::{ed25519_verifies, ed25519_verify};
use crate::targets::{BitArrayTarget, Blake2Target, Target, TargetSet};
use crate::block_finality::validator_set_hash::ValidatorSetHash;

pub mod validator_set_hash;
pub mod validator_signs_chain;

verus! {

/// Public inputs of the block-finality proof.
#[derive(Clone, Copy, Debug)]
pub struct BlockFinalityTarget {
    pub validator_set_hash: Blake2Target,
    pub message: GrandpaVoteTarget,
}

/// The bits of a GRANDPA vote: one byte of which nothing is read, the hash of
/// the block, and the block number, round and set id, of which nothing is read.
#[derive(Clone, Copy, Debug)]
pub struct GrandpaVoteTarget {
    pub aux_data: BitArrayTarget<8>,
    pub block_hash: Blake2Target,
    pub aux_data_2: BitArrayTarget<160>,
}

impl TargetSet for GrandpaVoteTarget {
    open spec fn size() -> nat {
        424
    }

    open spec fn targets(&self) -> Seq<Target> {
        self.aux_data.targets() + self.block_hash.targets() + self.aux_data_2.targets()
    }

    proof fn lemma_size(&self) {
    }

    proof fn lemma_same_targets(&self, other: &Self) {
        let mine = self.targets();
        let theirs = other.targets();
        assert(self.aux_data.targets() =~= mine.subrange(0, 8));
        assert(other.aux_data.targets() =~= theirs.subrange(0, 8));
        assert(self.block_hash.targets() =~= mine.subrange(8, 264));
        assert(other.block_hash.targets() =~= theirs.subrange(8, 264));
        assert(self.aux_data_2.targets() =~= mine.subrange(264, 424));
        assert(other.aux_data_2.targets() =~= theirs.subrange(264, 424));
        self.aux_data.lemma_same_targets(&other.aux_data);
        self.block_hash.lemma_same_targets(&other.block_hash);
        self.aux_data_2.lemma_same_targets(&other.aux_data_2);
    }

    fn target_count() -> (count: usize) {
        424
    }

    fn parse(raw: &[Target], start: usize) -> (set: Self) {
        let total = raw.len();
        let aux_data = BitArrayTarget::<8>::parse(raw, start);
        let block_hash = BitArrayTarget::<256>::parse(raw, start + 8);
        let aux_data_2 = BitArrayTarget::<160>::parse(raw, start + 264);
        let set = GrandpaVoteTarget { aux_data, block_hash, aux_data_2 };
        assert(set.targets() =~= raw@.subrange(start as int, start + 424));
        set
    }

    fn into_targets_iter(self) -> (flat: Vec<Target>) {
        let mut flat = self.aux_data.into_targets_iter();
        crate::targets::append_targets(&mut flat, self.block_hash.into_targets_iter());
        crate::targets::append_targets(&mut flat, self.aux_data_2.into_targets_iter());
        flat
    }
}

impl TargetSet for BlockFinalityTarget {
    open spec fn size() -> nat {
        680
    }

    open spec fn targets(&self) -> Seq<Target> {
        self.validator_set_hash.targets() + self.message.targets()
    }

    proof fn lemma_size(&self) {
        self.message.lemma_size();
    }

    proof fn lemma_same_targets(&self, other: &Self) {
        let mine = self.targets();
        let theirs = other.targets();
        self.message.lemma_size();
        other.message.lemma_size();
        assert(self.validator_set_hash.targets() =~= mine.subrange(0, 256));
        assert(other.validator_set_hash.targets() =~= theirs.subrange(0, 256));
        assert(self.message.targets() =~= mine.subrange(256, 680));
        assert(other.message.targets() =~= theirs.subrange(256, 680));
        self.validator_set_hash.lemma_same_targets(&other.validator_set_hash);
        self.message.lemma_same_targets(&other.message);
    }

    fn target_count() -> (count: usize) {
        680
    }

    fn parse(raw: &[Target], start: usize) -> (set: Self) {
        let total = raw.len();
        let validator_set_hash = BitArrayTarget::<256>::parse(raw, start);
        let message = GrandpaVoteTarget::parse(raw, start + 256);
        let set = BlockFinalityTarget { validator_set_hash, message };
        assert(set.targets() =~= raw@.subrange(start as int, start + 680));
        set
    }

    fn into_targets_iter(self) -> (flat: Vec<Target>) {
        let mut flat = self.validator_set_hash.into_targets_iter();
        crate::targets::append_targets(&mut flat, self.message.into_targets_iter());
        flat
    }
}

/// A GRANDPA vote as it is signed.
#[derive(Clone, Copy, Debug)]
pub struct GrandpaVote {
    /// First byte of the encoding; the circuits read nothing from it.
    pub aux: u8,
    /// BLAKE2 hash of the block voted for.
    pub block_hash: [u8; 32],
    pub block_number: u32,
    pub round: u64,
    pub authority_set_id: u64,
}

impl GrandpaVote {
    /// The 53 bytes that are signed: the first byte, the block hash, then the
    /// block number, the round and the set id, each least significant byte
    /// first.
    pub open spec fn spec_encode(self) -> Seq<u8> {
        seq![self.aux] + self.block_hash@ + vstd::bytes::spec_u32_to_le_bytes(self.block_number)
            + vstd::bytes::spec_u64_to_le_bytes(self.round) + vstd::bytes::spec_u64_to_le_bytes(
            self.authority_set_id,
        )
    }

    /// Encodes the vote.
    pub fn encode(&self) -> (bytes: [u8; 53])
        ensures
            bytes@ == self.spec_encode(),
    {
        let number = vstd::bytes::u32_to_le_bytes(self.block_number);
        let round = vstd::bytes::u64_to_le_bytes(self.round);
        let set_id = vstd::bytes::u64_to_le_bytes(self.authority_set_id);
        proof {
            vstd::bytes::lemma_auto_spec_u32_to_from_le_bytes();
            vstd::bytes::lemma_auto_spec_u64_to_from_le_bytes();
        }
        let mut bytes = [0u8; 53];
        bytes[0] = self.aux;
        let mut i: usize = 0;
        while i < 32
            invariant
                i <= 32,
                bytes@[0] == self.aux,
                forall|k: int| 0 <= k < i ==> bytes@[1 + k] == self.block_hash@[k],
            decreases 32 - i,
        {
            bytes[1 + i] = self.block_hash[i];
            i += 1;
        }
        let mut i: usize = 0;
        while i < 8
            invariant
                i <= 8,
                number@.len() == 4,
                round@.len() == 8,
                set_id@.len() == 8,
                bytes@[0] == self.aux,
                forall|k: int| 0 <= k < 32 ==> bytes@[1 + k] == self.block_hash@[k],
                forall|k: int| 0 <= k < i && k < 4 ==> bytes@[33 + k] == number@[k],
                forall|k: int| 0 <= k < i ==> bytes@[37 + k] == round@[k],
                forall|k: int| 0 <= k < i ==> bytes@[45 + k] == set_id@[k],
            decreases 8 - i,
        {
            if i < 4 {
                bytes[33 + i] = number[i];
            }
            bytes[37 + i] = round[i];
            bytes[45 + i] = set_id[i];
            i += 1;
        }
        assert(bytes@ =~= self.spec_encode());
        bytes
    }

    /// Decodes a vote from the 53 bytes that are signed.
    pub fn decode(bytes: &[u8; 53]) -> (vote: GrandpaVote)
        ensures
            vote.spec_encode() == bytes@,
    {
        let mut block_hash = [0u8; 32];
        let mut i: usize = 0;
        while i < 32
            invariant
                i <= 32,
                forall|k: int| 0 <= k < i ==> block_hash@[k] == bytes@[1 + k],
            decreases 32 - i,
        {
            block_hash[i] = bytes[1 + i];
            i += 1;
        }
        let number = vstd::slice::slice_subrange(bytes.as_slice(), 33, 37);
        let round = vstd::slice::slice_subrange(bytes.as_slice(), 37, 45);
        let set_id = vstd::slice::slice_subrange(bytes.as_slice(), 45, 53);
        proof {
            vstd::bytes::lemma_auto_spec_u32_to_from_le_bytes();
            vstd::bytes::lemma_auto_spec_u64_to_from_le_bytes();
        }
        let vote = GrandpaVote {
            aux: bytes[0],
            block_hash,
            block_number: vstd::bytes::u32_from_le_bytes(number),
            round: vstd::bytes::u64_from_le_bytes(round),
            authority_set_id: vstd::bytes::u64_from_le_bytes(set_id),
        };
        assert(vote.spec_encode() =~= bytes@);
        vote
    }
}

/// A vote of one validator: its key and its signature of the vote.
#[derive(Clone, Copy, Debug)]
pub struct PreCommit {
    pub public_key: [u8; ED25519_PUBLIC_KEY_SIZE],
    pub signature: [u8; ED25519_SIGNATURE_SIZE],
}

/// A pre-commit whose key was found in the validator set.
#[derive(Clone, Copy, Debug)]
pub struct ProcessedPreCommit {
    /// Place of the signer in the validator set.
    pub validator_idx: usize,
    pub signature: [u8; ED25519_SIGNATURE_SIZE],
}

/// The first place of `key` in `validator_set`, if it has one.
pub open spec fn spec_position(validator_set: Seq<[u8; 32]>, key: Seq<u8>) -> Option<int> {
    if exists|i: int| 0 <= i < validator_set.len() && validator_set[i]@ == key {
        Some(
            choose|i: int|
                0 <= i < validator_set.len() && validator_set[i]@ == key && forall|j: int|
                    0 <= j < i ==> validator_set[j]@ != key,
        )
    } else {
        None
    }
}

/// Finds the first place of `key` in `validator_set`.
pub fn position(validator_set: &Vec<[u8; 32]>, key: &[u8; 32]) -> (found: Option<usize>)
    ensures
        found matches Some(i) ==> spec_position(validator_set@, key@) == Some(i as int) && i
            < validator_set@.len() && validator_set@[i as int]@ == key@,
        found is None ==> spec_position(validator_set@, key@) is None,
{
    let mut i: usize = 0;
    while i < validator_set.len()
        invariant
            i <= validator_set@.len(),
            forall|j: int| 0 <= j < i ==> validator_set@[j]@ != key@,
        decreases validator_set@.len() - i,
    {
        if hashes_equal(&validator_set[i], key) {
            proof {
                let chosen = choose|c: int|
                    0 <= c < validator_set@.len() && validator_set@[c]@ == key@ && forall|j: int|
                        0 <= j < c ==> validator_set@[j]@ != key@;
                assert(chosen == i);
            }
            return Some(i);
        }
        i += 1;
    }
    None
}

/// The pre-commits whose key stands in the validator set, each with the place
/// of its key, in the order in which they were given.
pub open spec fn spec_processed(validator_set: Seq<[u8; 32]>, pre_commits: Seq<PreCommit>) -> Seq<
    ProcessedPreCommit,
>
    decreases pre_commits.len(),
{
    if pre_commits.len() == 0 {
        Seq::empty()
    } else {
        let before = spec_processed(validator_set, pre_commits.drop_last());
        let last = pre_commits.last();
        match spec_position(validator_set, last.public_key@) {
            Some(i) => before.push(
                ProcessedPreCommit { validator_idx: i as usize, signature: last.signature },
            ),
            None => before,
        }
    }
}

/// The first `limit` pre-commits whose key stands in the validator set.
pub open spec fn spec_process_pre_commits(
    validator_set: Seq<[u8; 32]>,
    pre_commits: Seq<PreCommit>,
    limit: nat,
) -> Seq<ProcessedPreCommit> {
    let all = spec_processed(validator_set, pre_commits);
    if all.len() <= limit {
        all
    } else {
        all.subrange(0, limit as int)
    }
}

/// What is processed of a prefix is a prefix of what is processed of the whole.
pub proof fn lemma_processed_prefix(
    validator_set: Seq<[u8; 32]>,
    pre_commits: Seq<PreCommit>,
    count: int,
)
    requires
        0 <= count <= pre_commits.len(),
    ensures
        spec_processed(validator_set, pre_commits.subrange(0, count)).len() <= spec_processed(
            validator_set,
            pre_commits,
        ).len(),
        spec_processed(validator_set, pre_commits.subrange(0, count)) == spec_processed(
            validator_set,
            pre_commits,
        ).subrange(
            0,
            spec_processed(validator_set, pre_commits.subrange(0, count)).len() as int,
        ),
    decreases pre_commits.len(),
{
    let whole = spec_processed(validator_set, pre_commits);
    if count == pre_commits.len() {
        assert(pre_commits.subrange(0, count) =~= pre_commits);
        assert(whole =~= whole.subrange(0, whole.len() as int));
    } else {
        lemma_processed_prefix(validator_set, pre_commits.drop_last(), count);
        assert(pre_commits.drop_last().subrange(0, count) =~= pre_commits.subrange(0, count));
        let part = spec_processed(validator_set, pre_commits.subrange(0, count));
        let before = spec_processed(validator_set, pre_commits.drop_last());
        assert(part =~= whole.subrange(0, part.len() as int));
    }
}

/// Copies a list of keys.
pub fn copy_keys(keys: &Vec<[u8; 32]>) -> (copy: Vec<[u8; 32]>)
    ensures
        copy@ == keys@,
{
    let mut copy: Vec<[u8; 32]> = Vec::new();
    let mut i: usize = 0;
    while i < keys.len()
        invariant
            i <= keys@.len(),
            copy@ == keys@.subrange(0, i as int),
        decreases keys@.len() - i,
    {
        copy.push(keys[i]);
        assert(copy@ =~= keys@.subrange(0, i + 1));
        i += 1;
    }
    assert(keys@.subrange(0, keys@.len() as int) =~= keys@);
    copy
}

/// Where `item` goes in a list sorted by index: behind every entry whose index
/// is not greater.
pub open spec fn spec_insert_place(sorted: Seq<ProcessedPreCommit>, item: ProcessedPreCommit)
    -> int
    decreases sorted.len(),
{
    if sorted.len() == 0 {
        0
    } else if sorted.last().validator_idx <= item.validator_idx {
        sorted.len() as int
    } else {
        spec_insert_place(sorted.drop_last(), item)
    }
}

/// The pre-commits sorted by the index of their signer; entries with the same
/// index keep their order.
pub open spec fn spec_sorted(pre_commits: Seq<ProcessedPreCommit>) -> Seq<ProcessedPreCommit>
    decreases pre_commits.len(),
{
    if pre_commits.len() == 0 {
        Seq::empty()
    } else {
        let before = spec_sorted(pre_commits.drop_last());
        before.insert(spec_insert_place(before, pre_commits.last()), pre_commits.last())
    }
}

/// Whether the indices of the signers do not fall from one entry to the next.
pub open spec fn indices_ascend(pre_commits: Seq<ProcessedPreCommit>) -> bool {
    forall|i: int, j: int|
        0 <= i < j < pre_commits.len() ==> pre_commits[i].validator_idx
            <= pre_commits[j].validator_idx
}

/// Whether the indices of the signers grow strictly from one entry to the next.
pub open spec fn indices_grow_strictly(pre_commits: Seq<ProcessedPreCommit>) -> bool {
    forall|i: int, j: int|
        0 <= i < j < pre_commits.len() ==> pre_commits[i].validator_idx
            < pre_commits[j].validator_idx
}

/// The place found for an item lies in the list, everything before it has an
/// index that is not greater, and everything from it on a greater one.
pub proof fn lemma_insert_place(sorted: Seq<ProcessedPreCommit>, item: ProcessedPreCommit)
    requires
        indices_ascend(sorted),
    ensures
        0 <= spec_insert_place(sorted, item) <= sorted.len(),
        forall|k: int|
            0 <= k < spec_insert_place(sorted, item) ==> sorted[k].validator_idx
                <= item.validator_idx,
        forall|k: int|
            spec_insert_place(sorted, item) <= k < sorted.len() ==> sorted[k].validator_idx
                > item.validator_idx,
    decreases sorted.len(),
{
    if sorted.len() > 0 && sorted.last().validator_idx > item.validator_idx {
        assert(indices_ascend(sorted.drop_last())) by {
            assert forall|i: int, j: int| 0 <= i < j < sorted.drop_last().len() implies sorted.drop_last()[i].validator_idx
                <= sorted.drop_last()[j].validator_idx by {
                assert(sorted.drop_last()[i] == sorted[i]);
                assert(sorted.drop_last()[j] == sorted[j]);
            }
        }
        lemma_insert_place(sorted.drop_last(), item);
        assert forall|k: int| 0 <= k < spec_insert_place(sorted, item) implies sorted[k].validator_idx
            <= item.validator_idx by {
            assert(sorted.drop_last()[k] == sorted[k]);
        }
        assert forall|k: int|
            spec_insert_place(sorted, item) <= k < sorted.len() implies sorted[k].validator_idx
            > item.validator_idx by {
            if k < sorted.len() - 1 {
                assert(sorted.drop_last()[k] == sorted[k]);
            }
        }
    }
}

/// Sorting gives a list whose indices do not fall, with the same entries.
pub proof fn lemma_sorted(pre_commits: Seq<ProcessedPreCommit>)
    ensures
        indices_ascend(spec_sorted(pre_commits)),
        spec_sorted(pre_commits).len() == pre_commits.len(),
        spec_sorted(pre_commits).to_multiset() == pre_commits.to_multiset(),
    decreases pre_commits.len(),
{
    broadcast use vstd::seq_lib::to_multiset_insert, vstd::seq_lib::to_multiset_build;

    if pre_commits.len() == 0 {
        assert(pre_commits =~= Seq::empty());
    } else {
        let before = spec_sorted(pre_commits.drop_last());
        let item = pre_commits.last();
        lemma_sorted(pre_commits.drop_last());
        lemma_insert_place(before, item);
        let place = spec_insert_place(before, item);
        let after = before.insert(place, item);
        assert forall|i: int, j: int| 0 <= i < j < after.len() implies after[i].validator_idx
            <= after[j].validator_idx by {
            if i < place {
                assert(after[i] == before[i]);
            } else if i > place {
                assert(after[i] == before[i - 1]);
            }
            if j < place {
                assert(after[j] == before[j]);
            } else if j > place {
                assert(after[j] == before[j - 1]);
            }
        }
        assert(pre_commits =~= pre_commits.drop_last().push(item));
        assert(after.to_multiset() == before.to_multiset().insert(item));
        assert(pre_commits.to_multiset() == pre_commits.drop_last().to_multiset().insert(item));
    }
}

/// Sorts pre-commits by the index of their signer.
pub fn sort_pre_commits(pre_commits: &Vec<ProcessedPreCommit>) -> (sorted: Vec<ProcessedPreCommit>)
    ensures
        sorted@ == spec_sorted(pre_commits@),
        indices_ascend(sorted@),
        sorted@.len() == pre_commits@.len(),
        sorted@.to_multiset() == pre_commits@.to_multiset(),
{
    let mut sorted: Vec<ProcessedPreCommit> = Vec::new();
    let mut i: usize = 0;
    proof {
        assert(pre_commits@.subrange(0, 0) =~= Seq::empty());
    }
    while i < pre_commits.len()
        invariant
            i <= pre_commits@.len(),
            sorted@ == spec_sorted(pre_commits@.subrange(0, i as int)),
        decreases pre_commits@.len() - i,
    {
        let item = pre_commits[i];
        proof {
            lemma_sorted(pre_commits@.subrange(0, i as int));
            assert(sorted@.subrange(0, sorted@.len() as int) =~= sorted@);
        }
        let mut place: usize = sorted.len();
        while place > 0 && sorted[place - 1].validator_idx > item.validator_idx
            invariant
                place <= sorted@.len(),
                spec_insert_place(sorted@, item) == spec_insert_place(
                    sorted@.subrange(0, place as int),
                    item,
                ),
            decreases place,
        {
            proof {
                let part = sorted@.subrange(0, place as int);
                assert(part.last() == sorted@[place - 1]);
                assert(part.drop_last() =~= sorted@.subrange(0, place - 1));
            }
            place -= 1;
        }
        proof {
            let part = sorted@.subrange(0, place as int);
            if place > 0 {
                assert(part.last() == sorted@[place - 1]);
            }
            assert(spec_insert_place(part, item) == place);
            assert(pre_commits@.subrange(0, i + 1).drop_last() =~= pre_commits@.subrange(
                0,
                i as int,
            ));
            assert(pre_commits@.subrange(0, i + 1).last() == item);
        }
        sorted.insert(place, item);
        i += 1;
    }
    proof {
        assert(pre_commits@.subrange(0, pre_commits@.len() as int) =~= pre_commits@);
        lemma_sorted(pre_commits@);
    }
    sorted
}

/// The bits of a list of keys, key by key.
pub open spec fn key_bits(validator_set: Seq<[u8; 32]>) -> Seq<Seq<bool>> {
    Seq::new(validator_set.len(), |i: int| crate::bits::spec_array_to_bits(validator_set[i]@))
}

/// The key that a selector reads at `index`: for every key a flag tells
/// whether its place is the one asked for, every bit of every key is masked
/// with the flag of its key, and the masked bits of one position are joined
/// by `or`. An index beyond the set reads a key of zero bits.
pub fn validator_selector_circuit(validator_set: &Vec<Vec<bool>>, index: u64) -> (validator: Vec<
    bool,
>)
    requires
        forall|i: int| 0 <= i < validator_set@.len() ==> (#[trigger] validator_set@[i])@.len() == 256,
    ensures
        validator@.len() == 256,
        index < validator_set@.len() ==> validator@ == validator_set@[index as int]@,
        index >= validator_set@.len() ==> validator@ == Seq::new(256, |k: int| false),
{
    let validator_count = validator_set.len();
    let mut equality: Vec<bool> = Vec::new();
    let mut i: usize = 0;
    while i < validator_count
        invariant
            i <= validator_count == validator_set@.len(),
            equality@.len() == i,
            forall|k: int| 0 <= k < i ==> equality@[k] == (k == index),
        decreases validator_count - i,
    {
        equality.push(i as u64 == index);
        i += 1;
    }
    let mut validator: Vec<bool> = Vec::new();
    let mut bit_idx: usize = 0;
    while bit_idx < 256
        invariant
            bit_idx <= 256,
            validator_count == validator_set@.len(),
            equality@.len() == validator_count,
            forall|k: int| 0 <= k < validator_count ==> equality@[k] == (k == index),
            forall|i: int|
                0 <= i < validator_set@.len() ==> (#[trigger] validator_set@[i])@.len() == 256,
            validator@.len() == bit_idx,
            forall|b: int|
                0 <= b < bit_idx ==> validator@[b] == (index < validator_count
                    && validator_set@[index as int]@[b]),
        decreases 256 - bit_idx,
    {
        let mut joined = false;
        let mut i: usize = 0;
        while i < validator_count
            invariant
                i <= validator_count == validator_set@.len(),
                bit_idx < 256,
                equality@.len() == validator_count,
                forall|k: int| 0 <= k < validator_count ==> equality@[k] == (k == index),
                forall|i: int|
                    0 <= i < validator_set@.len() ==> (#[trigger] validator_set@[i])@.len()
                        == 256,
                joined == (index < i && validator_set@[index as int]@[bit_idx as int]),
            decreases validator_count - i,
        {
            let masked = validator_set[i][bit_idx] && equality[i];
            joined = !(!joined && !masked);
            i += 1;
        }
        validator.push(joined);
        bit_idx += 1;
    }
    proof {
        if index < validator_count {
            assert(validator@ =~= validator_set@[index as int]@);
        } else {
            assert(validator@ =~= Seq::new(256, |k: int| false));
        }
    }
    validator
}

/// A key has signed a vote.
#[derive(Clone, Copy, Debug)]
pub struct SingleValidatorSign {
    pub public_key: [u8; ED25519_PUBLIC_KEY_SIZE],
    pub signature: [u8; ED25519_SIGNATURE_SIZE],
    pub message: [u8; GRANDPA_VOTE_LENGTH],
}

/// What the proof of a single sign exposes.
#[derive(Clone, Copy, Debug)]
pub struct SingleValidatorSignPublicInputs {
    pub message: [u8; GRANDPA_VOTE_LENGTH],
    pub public_key: [u8; ED25519_PUBLIC_KEY_SIZE],
}

impl SingleValidatorSign {
    /// Whether the signature is one of the vote under the key.
    pub open spec fn provable(&self) -> bool {
        ed25519_verifies(self.public_key@, self.message@, self.signature@)
    }

    /// Returns what the proof of the sign exposes. A signature that does not
    /// verify has no proof.
    pub fn prove(&self) -> (public_inputs: Result<SingleValidatorSignPublicInputs, ProofError>)
        ensures
            public_inputs is Ok <==> self.provable(),
            public_inputs matches Ok(exposed) ==> exposed.message == self.message
                && exposed.public_key == self.public_key,
            public_inputs matches Err(error) ==> error == ProofError::InvalidWitness,
    {
        if !ed25519_verify(&self.public_key, self.message.as_slice(), &self.signature) {
            return Err(ProofError::InvalidWitness);
        }
        Ok(SingleValidatorSignPublicInputs { message: self.message, public_key: self.public_key })
    }
}

/// The key at an index of a validator set.
#[derive(Debug)]
pub struct ValidatorSelector {
    pub validator_set: Vec<[u8; ED25519_PUBLIC_KEY_SIZE]>,
    pub index: usize,
}

/// What the proof of a selection exposes.
#[derive(Debug)]
pub struct ValidatorSelectorPublicInputs {
    pub index: u64,
    pub validator_set: Vec<[u8; ED25519_PUBLIC_KEY_SIZE]>,
    pub validator: [u8; ED25519_PUBLIC_KEY_SIZE],
}

impl ValidatorSelector {
    /// Whether the index names a key of the set and fits in 32 bits.
    pub open spec fn provable(&self) -> bool {
        self.index < self.validator_set@.len() && self.index <= u32::MAX
    }

    /// Returns what the proof of the selection exposes: the index, the set,
    /// and the key that the selector reads. An index that is beyond the set,
    /// or that does not fit in 32 bits, has no proof.
    pub fn prove(&self) -> (public_inputs: Result<ValidatorSelectorPublicInputs, ProofError>)
        ensures
            public_inputs is Ok <==> self.provable(),
            public_inputs matches Ok(exposed) ==> {
                &&& exposed.index == self.index
                &&& exposed.validator_set@ == self.validator_set@
                &&& exposed.validator == self.validator_set@[self.index as int]
            },
            public_inputs matches Err(error) ==> error == ProofError::InvalidWitness,
    {
        if self.index >= self.validator_set.len() || self.index > u32::MAX as usize {
            return Err(ProofError::InvalidWitness);
        }
        let mut set_bits: Vec<Vec<bool>> = Vec::new();
        let mut i: usize = 0;
        while i < self.validator_set.len()
            invariant
                i <= self.validator_set@.len(),
                set_bits@.len() == i,
                forall|k: int|
                    0 <= k < i ==> (#[trigger] set_bits@[k])@ == crate::bits::spec_array_to_bits(
                        self.validator_set@[k]@,
                    ),
            decreases self.validator_set@.len() - i,
        {
            set_bits.push(array_to_bits(self.validator_set[i].as_slice()));
            i += 1;
        }
        let selected = validator_selector_circuit(&set_bits, self.index as u64);
        let packed = crate::bits::bits_to_bytes(selected.as_slice());
        let claimed = self.validator_set[self.index];
        proof {
            crate::bits::lemma_array_bits_round_trip(claimed@);
        }
        assert(packed@ == claimed@);
        Ok(
            ValidatorSelectorPublicInputs {
                index: self.index as u64,
                validator_set: copy_keys(&self.validator_set),
                validator: claimed,
            },
        )
    }
}

/// What a link of the chain of signs exposes: the index of the last signer,
/// the validator set and the vote.
#[derive(Debug)]
pub struct ValidatorSignsChainPublicInputs {
    pub validator_idx: u64,
    pub validator_set: Vec<[u8; ED25519_PUBLIC_KEY_SIZE]>,
    pub message: [u8; GRANDPA_VOTE_LENGTH],
}

/// Whether the validator at the index of `pre_commit` has signed `message`.
pub open spec fn sign_provable(
    validator_set: Seq<[u8; 32]>,
    message: Seq<u8>,
    pre_commit: ProcessedPreCommit,
) -> bool {
    &&& pre_commit.validator_idx < validator_set.len()
    &&& pre_commit.validator_idx <= u32::MAX
    &&& ed25519_verifies(
        validator_set[pre_commit.validator_idx as int]@,
        message,
        pre_commit.signature@,
    )
}

/// The validator at an index of a set has signed a vote.
#[derive(Debug)]
pub struct IndexedValidatorSign {
    pub validator_set: Vec<[u8; ED25519_PUBLIC_KEY_SIZE]>,
    pub index: usize,
    pub message: [u8; GRANDPA_VOTE_LENGTH],
    pub signature: [u8; ED25519_SIGNATURE_SIZE],
}

impl IndexedValidatorSign {
    /// Whether the index names a key of the set and that key has signed.
    pub open spec fn provable(&self) -> bool {
        sign_provable(
            self.validator_set@,
            self.message@,
            ProcessedPreCommit { validator_idx: self.index, signature: self.signature },
        )
    }

    /// Returns what the proof of the indexed sign exposes. The key that the
    /// selector reads must be the key under which the signature verifies.
    pub fn prove(&self) -> (public_inputs: Result<ValidatorSignsChainPublicInputs, ProofError>)
        ensures
            public_inputs is Ok <==> self.provable(),
            public_inputs matches Ok(exposed) ==> {
                &&& exposed.validator_idx == self.index
                &&& exposed.validator_set@ == self.validator_set@
                &&& exposed.message == self.message
            },
            public_inputs matches Err(error) ==> error == ProofError::InvalidWitness,
    {
        let selector = ValidatorSelector {
            validator_set: copy_keys(&self.validator_set),
            index: self.index,
        };
        let selected = match selector.prove() {
            Ok(selected) => selected,
            Err(error) => {
                return Err(error);
            },
        };
        let sign = SingleValidatorSign {
            public_key: self.validator_set[self.index],
            signature: self.signature,
            message: self.message,
        };
        let signed = match sign.prove() {
            Ok(signed) => signed,
            Err(error) => {
                return Err(error);
            },
        };
        assert(selected.validator == signed.public_key);
        Ok(
            ValidatorSignsChainPublicInputs {
                validator_idx: selected.index,
                validator_set: selected.validator_set,
                message: signed.message,
            },
        )
    }
}

/// Whether a link may follow another: both speak of the same set and the same
/// vote, and the index of the second less the index of the first less one
/// passes a range check of 32 bits in the field.
pub open spec fn spec_links_compose(
    previous: ValidatorSignsChainPublicInputs,
    next: ValidatorSignsChainPublicInputs,
) -> bool {
    &&& previous.message@ == next.message@
    &&& crate::validator_set_hash::concat_keys(previous.validator_set@)
        == crate::validator_set_hash::concat_keys(next.validator_set@)
    &&& reduce(
        reduce(reduce(next.validator_idx as int) - reduce(previous.validator_idx as int)) - 1,
    ) < 0x1_0000_0000
}

/// For indices of 32 bits the range check passes exactly when the second
/// index is greater than the first: the difference cannot wrap around.
pub proof fn lemma_range_check_orders(previous: u64, next: u64)
    requires
        previous <= u32::MAX,
        next <= u32::MAX,
    ensures
        (reduce(reduce(reduce(next as int) - reduce(previous as int)) - 1) < 0x1_0000_0000)
            <==> previous < next,
{
    let order = crate::field::ORDER as int;
    assert(reduce(next as int) == next);
    assert(reduce(previous as int) == previous);
    if previous < next {
        assert(reduce(next - previous) == next - previous);
        assert(reduce(next - previous - 1) == next - previous - 1);
    } else if previous == next {
        assert(reduce(0) == 0);
        assert(reduce(-1) == order - 1) by {
            vstd::arithmetic::div_mod::lemma_fundamental_div_mod_converse(-1, order, -1, order - 1);
        }
    } else {
        assert(reduce(next - previous) == next - previous + order) by {
            vstd::arithmetic::div_mod::lemma_fundamental_div_mod_converse(
                next - previous,
                order,
                -1,
                next - previous + order,
            );
        }
        assert(reduce(next - previous + order - 1) == next - previous + order - 1);
    }
}

/// Two links of the chain joined into one.
#[derive(Clone, Copy, Debug)]
pub struct ComposedValidatorSigns {}

impl ComposedValidatorSigns {
    /// Joins the chain so far with the next indexed sign. The result exposes
    /// the index, the set and the vote of the next sign.
    pub fn prove(
        &self,
        previous_composed_proof: ValidatorSignsChainPublicInputs,
        indexed_sign_proof: ValidatorSignsChainPublicInputs,
    ) -> (public_inputs: Result<ValidatorSignsChainPublicInputs, ProofError>)
        ensures
            public_inputs is Ok <==> spec_links_compose(
                previous_composed_proof,
                indexed_sign_proof,
            ),
            public_inputs matches Ok(exposed) ==> exposed == indexed_sign_proof,
            public_inputs matches Err(error) ==> error == ProofError::InvalidWitness,
    {
        if !messages_equal(
            &previous_composed_proof.message,
            &indexed_sign_proof.message,
        ) {
            return Err(ProofError::InvalidWitness);
        }
        let previous_keys = crate::validator_set_hash::flatten_keys(
            &previous_composed_proof.validator_set,
        );
        let next_keys = crate::validator_set_hash::flatten_keys(&indexed_sign_proof.validator_set);
        if !bytes_equal(previous_keys.as_slice(), next_keys.as_slice()) {
            return Err(ProofError::InvalidWitness);
        }
        let next_index = crate::field::from_noncanonical_u64(indexed_sign_proof.validator_idx);
        let previous_index = crate::field::from_noncanonical_u64(
            previous_composed_proof.validator_idx,
        );
        let new_index_sub_latest = field_sub(next_index, previous_index);
        let to_compare_with_0 = field_sub(new_index_sub_latest, 1);
        if !in_range_32(to_compare_with_0) {
            return Err(ProofError::InvalidWitness);
        }
        Ok(indexed_sign_proof)
    }
}

/// Whether two votes are the same.
pub fn messages_equal(a: &[u8; GRANDPA_VOTE_LENGTH], b: &[u8; GRANDPA_VOTE_LENGTH]) -> (equal:
    bool)
    ensures
        equal == (a@ == b@),
{
    bytes_equal(a.as_slice(), b.as_slice())
}

/// Whether a chain of signs over `pre_commits` can be proved: there is at
/// least one, every signer has signed the vote, and once sorted the indices of
/// the signers grow strictly, so that nobody signs twice.
pub open spec fn chain_provable(
    validator_set: Seq<[u8; 32]>,
    message: Seq<u8>,
    pre_commits: Seq<ProcessedPreCommit>,
) -> bool {
    let sorted = spec_sorted(pre_commits);
    &&& sorted.len() > 0
    &&& forall|k: int| 0 <= k < sorted.len() ==> sign_provable(validator_set, message, sorted[k])
    &&& indices_grow_strictly(sorted)
}

/// Several validators of one set have signed one vote.
#[derive(Debug)]
pub struct ValidatorSignsChain {
    pub validator_set: Vec<[u8; ED25519_PUBLIC_KEY_SIZE]>,
    pub pre_commits: Vec<ProcessedPreCommit>,
    pub message: [u8; GRANDPA_VOTE_LENGTH],
}

impl ValidatorSignsChain {
    /// Whether the chain can be proved.
    pub open spec fn provable(&self) -> bool {
        chain_provable(self.validator_set@, self.message@, self.pre_commits@)
    }

    /// Proves the sign of `pre_commit` and joins it to the chain so far.
    fn next_link(&self, composed: ValidatorSignsChainPublicInputs, pre_commit: ProcessedPreCommit)
        -> (joined: Result<ValidatorSignsChainPublicInputs, ProofError>)
        requires
            composed.validator_idx <= u32::MAX,
            composed.validator_set@ == self.validator_set@,
            composed.message == self.message,
        ensures
            joined is Ok <==> sign_provable(self.validator_set@, self.message@, pre_commit)
                && composed.validator_idx < pre_commit.validator_idx,
            joined matches Ok(exposed) ==> {
                &&& exposed.validator_idx == pre_commit.validator_idx
                &&& exposed.validator_set@ == self.validator_set@
                &&& exposed.message == self.message
            },
            joined matches Err(error) ==> error == ProofError::InvalidWitness,
    {
        let sign = IndexedValidatorSign {
            validator_set: copy_keys(&self.validator_set),
            index: pre_commit.validator_idx,
            message: self.message,
            signature: pre_commit.signature,
        };
        let proof = match sign.prove() {
            Ok(proof) => proof,
            Err(error) => {
                return Err(error);
            },
        };
        proof {
            lemma_range_check_orders(composed.validator_idx, proof.validator_idx);
        }
        (ComposedValidatorSigns {  }).prove(composed, proof)
    }

    /// Returns what the proof of the chain exposes. The signs are taken in
    /// the order of their indices and joined one by one; the chain exposes
    /// the greatest index, the set and the vote.
    pub fn prove(&self) -> (public_inputs: Result<ValidatorSignsChainPublicInputs, ProofError>)
        ensures
            public_inputs is Ok <==> self.provable(),
            public_inputs matches Ok(exposed) ==> {
                &&& exposed.validator_idx == spec_sorted(
                    self.pre_commits@,
                ).last().validator_idx
                &&& exposed.validator_set@ == self.validator_set@
                &&& exposed.message == self.message
            },
            public_inputs matches Err(error) ==> error == ProofError::InvalidWitness,
    {
        let pre_commits = sort_pre_commits(&self.pre_commits);
        if pre_commits.len() == 0 {
            return Err(ProofError::InvalidWitness);
        }
        let first = IndexedValidatorSign {
            validator_set: copy_keys(&self.validator_set),
            index: pre_commits[0].validator_idx,
            message: self.message,
            signature: pre_commits[0].signature,
        };
        let mut composed = match first.prove() {
            Ok(proof) => proof,
            Err(error) => {
                return Err(error);
            },
        };
        let mut id: usize = 1;
        while id < pre_commits.len()
            invariant
                1 <= id <= pre_commits@.len(),
                pre_commits@ == spec_sorted(self.pre_commits@),
                indices_ascend(pre_commits@),
                forall|k: int|
                    0 <= k < id ==> sign_provable(
                        self.validator_set@,
                        self.message@,
                        pre_commits@[k],
                    ),
                forall|k: int|
                    1 <= k < id ==> pre_commits@[k - 1].validator_idx < (
                    #[trigger] pre_commits@[k]).validator_idx,
                composed.validator_idx == pre_commits@[id - 1].validator_idx,
                composed.validator_idx <= u32::MAX,
                composed.validator_set@ == self.validator_set@,
                composed.message == self.message,
            decreases pre_commits@.len() - id,
        {
            composed = match self.next_link(composed, pre_commits[id]) {
                Ok(joined) => joined,
                Err(error) => {
                    return Err(error);
                },
            };
            id += 1;
        }
        proof {
            assert forall|i: int, j: int|
                0 <= i < j < pre_commits@.len() implies pre_commits@[i].validator_idx
                < pre_commits@[j].validator_idx by {
                assert(pre_commits@[j - 1].validator_idx < pre_commits@[j].validator_idx);
                if i < j - 1 {
                    assert(pre_commits@[i].validator_idx <= pre_commits@[j - 1].validator_idx);
                }
            }
        }
        Ok(composed)
    }
}

/// A block is final: validators of a set have signed a vote for it.
#[derive(Debug)]
pub struct BlockFinality {
    pub validator_set: Vec<[u8; ED25519_PUBLIC_KEY_SIZE]>,
    pub pre_commits: Vec<PreCommit>,
    pub message: [u8; GRANDPA_VOTE_LENGTH],
}

/// What the proof of a block's finality exposes.
#[derive(Clone, Copy, Debug)]
pub struct BlockFinalityPublicInputs {
    /// BLAKE2 hash of the keys of the validator set, laid out one after
    /// another.
    pub validator_set_hash: [u8; 32],
    /// The vote that was signed.
    pub message: [u8; GRANDPA_VOTE_LENGTH],
}

impl BlockFinalityPublicInputs {
    /// The public inputs as the proof lists them: the bits of the hash of the
    /// validator set, then the bits of the vote, each bit a field element.
    pub open spec fn spec_to_public_inputs(self) -> Seq<u64> {
        crate::targets::spec_bits_to_field(
            crate::bits::spec_array_to_bits(self.validator_set_hash@ + self.message@),
        )
    }

    /// Lists the public inputs as the proof lists them. There are as many as
    /// the target set of the proof holds targets.
    pub fn to_public_inputs(&self) -> (values: Vec<u64>)
        ensures
            values@ == self.spec_to_public_inputs(),
            values@.len() == BlockFinalityTarget::size(),
    {
        let mut bytes: Vec<u8> = Vec::new();
        let mut i: usize = 0;
        while i < 32
            invariant
                i <= 32,
                bytes@ == self.validator_set_hash@.subrange(0, i as int),
            decreases 32 - i,
        {
            bytes.push(self.validator_set_hash[i]);
            assert(bytes@ =~= self.validator_set_hash@.subrange(0, i + 1));
            i += 1;
        }
        let mut i: usize = 0;
        while i < 53
            invariant
                i <= 53,
                bytes@ == self.validator_set_hash@ + self.message@.subrange(0, i as int),
            decreases 53 - i,
        {
            bytes.push(self.message[i]);
            assert(bytes@ =~= self.validator_set_hash@ + self.message@.subrange(0, i + 1));
            i += 1;
        }
        assert(bytes@ =~= self.validator_set_hash@ + self.message@);
        let bits = array_to_bits(bytes.as_slice());
        crate::targets::bits_to_field(bits.as_slice())
    }

    /// Reads the public inputs of a proof. The list must hold one field
    /// element for every target of the target set, and every one of them must
    /// carry a bit.
    pub fn parse_public_inputs(values: &[u64]) -> (parsed: Option<BlockFinalityPublicInputs>)
        ensures
            parsed is Some <==> values@.len() == BlockFinalityTarget::size()
                && crate::targets::carries_bits(values@),
            parsed matches Some(exposed) ==> exposed.validator_set_hash@ + exposed.message@
                == crate::bits::spec_bits_to_bytes(crate::targets::spec_field_to_bits(values@)),
    {
        if values.len() != 680 {
            return None;
        }
        let bits = match crate::targets::field_to_bits(values) {
            Some(bits) => bits,
            None => {
                return None;
            },
        };
        let bytes = crate::bits::bits_to_bytes(bits.as_slice());
        let mut validator_set_hash = [0u8; 32];
        let mut message = [0u8; 53];
        let mut i: usize = 0;
        while i < 53
            invariant
                i <= 53,
                bytes@.len() == 85,
                forall|k: int| 0 <= k < i && k < 32 ==> validator_set_hash@[k] == bytes@[k],
                forall|k: int| 0 <= k < i ==> message@[k] == bytes@[32 + k],
            decreases 53 - i,
        {
            if i < 32 {
                validator_set_hash[i] = bytes[i];
            }
            message[i] = bytes[32 + i];
            i += 1;
        }
        assert(validator_set_hash@ + message@ =~= bytes@);
        Some(BlockFinalityPublicInputs { validator_set_hash, message })
    }
}

/// Reading the public inputs that a proof lists gives what the proof exposes.
pub proof fn lemma_public_inputs_round_trip(exposed: BlockFinalityPublicInputs)
    ensures
        exposed.spec_to_public_inputs().len() == BlockFinalityTarget::size(),
        crate::targets::carries_bits(exposed.spec_to_public_inputs()),
        crate::bits::spec_bits_to_bytes(
            crate::targets::spec_field_to_bits(exposed.spec_to_public_inputs()),
        ) == exposed.validator_set_hash@ + exposed.message@,
{
    let bytes = exposed.validator_set_hash@ + exposed.message@;
    crate::targets::lemma_bits_field_round_trip(crate::bits::spec_array_to_bits(bytes));
    crate::bits::lemma_array_bits_round_trip(bytes);
}

impl BlockFinality {
    /// The pre-commits that are proved: the first `limit` whose key stands in
    /// the validator set.
    pub open spec fn spec_processed_pre_commits(&self, limit: nat) -> Seq<ProcessedPreCommit> {
        spec_process_pre_commits(self.validator_set@, self.pre_commits@, limit)
    }

    /// Whether finality can be proved from the first `limit` pre-commits of
    /// validators of the set: the set holds between one and `max` keys, and
    /// the chain of signs can be proved.
    pub open spec fn provable(&self, limit: nat, max: nat) -> bool {
        &&& 1 <= self.validator_set@.len() <= max
        &&& chain_provable(
            self.validator_set@,
            self.message@,
            self.spec_processed_pre_commits(limit),
        )
    }

    /// Picks the pre-commits to prove: those whose key stands in the validator
    /// set, each with the place of its key, and of those the first
    /// `processed_validator_count`. Pre-commits of strangers are dropped.
    pub fn process_pre_commits(&self, processed_validator_count: usize) -> (processed: Vec<
        ProcessedPreCommit,
    >)
        ensures
            processed@ == self.spec_processed_pre_commits(processed_validator_count as nat),
    {
        let mut processed: Vec<ProcessedPreCommit> = Vec::new();
        let mut i: usize = 0;
        proof {
            assert(self.pre_commits@.subrange(0, 0) =~= Seq::empty());
        }
        while i < self.pre_commits.len() && processed.len() < processed_validator_count
            invariant
                i <= self.pre_commits@.len(),
                processed@.len() <= processed_validator_count,
                processed@ == spec_processed(
                    self.validator_set@,
                    self.pre_commits@.subrange(0, i as int),
                ),
            decreases self.pre_commits@.len() - i,
        {
            let pre_commit = self.pre_commits[i];
            proof {
                assert(self.pre_commits@.subrange(0, i + 1).drop_last()
                    =~= self.pre_commits@.subrange(0, i as int));
                assert(self.pre_commits@.subrange(0, i + 1).last() == pre_commit);
            }
            match position(&self.validator_set, &pre_commit.public_key) {
                Some(validator_idx) => {
                    processed.push(
                        ProcessedPreCommit { validator_idx, signature: pre_commit.signature },
                    );
                },
                None => {},
            }
            i += 1;
        }
        proof {
            lemma_processed_prefix(self.validator_set@, self.pre_commits@, i as int);
            if i == self.pre_commits@.len() {
                assert(self.pre_commits@.subrange(0, i as int) =~= self.pre_commits@);
            }
        }
        processed
    }

    /// Returns what the proof of the block's finality exposes: the BLAKE2
    /// hash of the keys of the validator set laid out one after another, and
    /// the vote. The chain of signs is joined with the proof of the set's
    /// hash, which takes sets of one up to `max_validator_count` keys. The
    /// order in which the pre-commits were handed in leaves no trace in what
    /// is exposed.
    pub fn prove(&self, processed_validator_count: usize, max_validator_count: usize) -> (public_inputs:
        Result<BlockFinalityPublicInputs, ProofError>)
        ensures
            public_inputs is Ok <==> self.provable(
                processed_validator_count as nat,
                max_validator_count as nat,
            ),
            public_inputs matches Ok(exposed) ==> {
                &&& exposed.validator_set_hash@ == crate::hashing::blake2_256(
                    crate::validator_set_hash::concat_keys(self.validator_set@),
                )
                &&& exposed.message == self.message
            },
            public_inputs matches Err(error) ==> error == ProofError::InvalidWitness,
    {
        let processed_pre_commits = self.process_pre_commits(processed_validator_count);
        let validator_set_hash_proof = match (ValidatorSetHash {
            validator_set: copy_keys(&self.validator_set),
        }).prove(max_validator_count) {
            Ok(proof) => proof,
            Err(error) => {
                return Err(error);
            },
        };
        let validator_signs_proof = match (ValidatorSignsChain {
            validator_set: copy_keys(&self.validator_set),
            pre_commits: processed_pre_commits,
            message: self.message,
        }).prove() {
            Ok(proof) => proof,
            Err(error) => {
                return Err(error);
            },
        };
        assert(validator_set_hash_proof.validator_set_length
            == validator_signs_proof.validator_set@.len());
        Ok(
            BlockFinalityPublicInputs {
                validator_set_hash: validator_set_hash_proof.hash,
                message: validator_signs_proof.message,
            },
        )
    }
}

/// A key that stands in the set has a first place there.
pub proof fn lemma_first_place(validator_set: Seq<[u8; 32]>, key: Seq<u8>, place: int)
    requires
        0 <= place < validator_set.len(),
        validator_set[place]@ == key,
    ensures
        exists|i: int|
            0 <= i <= place && validator_set[i]@ == key && forall|j: int|
                0 <= j < i ==> validator_set[j]@ != key,
    decreases place,
{
    if exists|earlier: int| 0 <= earlier < place && validator_set[earlier]@ == key {
        let earlier = choose|earlier: int| 0 <= earlier < place && validator_set[earlier]@ == key;
        lemma_first_place(validator_set, key, earlier);
    }
}

/// The position of a key that stands in the set is a place where it stands.
pub proof fn lemma_position_found(validator_set: Seq<[u8; 32]>, key: Seq<u8>)
    requires
        spec_position(validator_set, key) is Some,
    ensures
        0 <= spec_position(validator_set, key).unwrap() < validator_set.len(),
        validator_set[spec_position(validator_set, key).unwrap()]@ == key,
{
    let place = choose|i: int| 0 <= i < validator_set.len() && validator_set[i]@ == key;
    lemma_first_place(validator_set, key, place);
}

/// A pre-commit with the place of its key in the set.
pub open spec fn processed_entry(validator_set: Seq<[u8; 32]>, pre_commit: PreCommit)
    -> ProcessedPreCommit {
    ProcessedPreCommit {
        validator_idx: spec_position(validator_set, pre_commit.public_key@).unwrap() as usize,
        signature: pre_commit.signature,
    }
}

/// Whether the key of a pre-commit stands in the set.
pub open spec fn is_known(validator_set: Seq<[u8; 32]>, pre_commit: PreCommit) -> bool {
    spec_position(validator_set, pre_commit.public_key@) is Some
}

/// Where every pre-commit comes from a validator of the set, every one of
/// them is kept, with the place of its key.
pub proof fn lemma_processed_all(validator_set: Seq<[u8; 32]>, pre_commits: Seq<PreCommit>)
    requires
        forall|i: int|
            0 <= i < pre_commits.len() ==> is_known(validator_set, #[trigger] pre_commits[i]),
    ensures
        spec_processed(validator_set, pre_commits) == Seq::new(
            pre_commits.len(),
            |i: int| processed_entry(validator_set, pre_commits[i]),
        ),
    decreases pre_commits.len(),
{
    let mapped = Seq::new(
        pre_commits.len(),
        |i: int| processed_entry(validator_set, pre_commits[i]),
    );
    if pre_commits.len() == 0 {
        assert(spec_processed(validator_set, pre_commits) =~= mapped);
    } else {
        let front = pre_commits.drop_last();
        assert forall|i: int| 0 <= i < front.len() implies is_known(
            validator_set,
            #[trigger] front[i],
        ) by {
            assert(front[i] == pre_commits[i]);
        }
        lemma_processed_all(validator_set, front);
        assert(is_known(validator_set, pre_commits[pre_commits.len() - 1]));
        assert(spec_processed(validator_set, pre_commits) =~= mapped);
    }
}

/// Whether no two entries name the same signer.
pub open spec fn signers_differ(pre_commits: Seq<ProcessedPreCommit>) -> bool {
    forall|i: int, j: int|
        0 <= i < j < pre_commits.len() ==> pre_commits[i].validator_idx
            != pre_commits[j].validator_idx
}

/// Sorting neither adds nor changes an entry, and where no two entries name
/// the same signer the indices of the sorted entries grow strictly.
pub proof fn lemma_sorted_strict(pre_commits: Seq<ProcessedPreCommit>)
    ensures
        spec_sorted(pre_commits).len() == pre_commits.len(),
        forall|k: int|
            0 <= k < pre_commits.len() ==> exists|j: int|
                0 <= j < pre_commits.len() && pre_commits[j] == #[trigger] spec_sorted(
                    pre_commits,
                )[k],
        signers_differ(pre_commits) ==> indices_grow_strictly(spec_sorted(pre_commits)),
    decreases pre_commits.len(),
{
    if pre_commits.len() > 0 {
        let front = pre_commits.drop_last();
        let item = pre_commits.last();
        let before = spec_sorted(front);
        lemma_sorted_strict(front);
        lemma_sorted(front);
        lemma_insert_place(before, item);
        let place = spec_insert_place(before, item);
        let after = spec_sorted(pre_commits);
        assert forall|k: int| 0 <= k < pre_commits.len() implies exists|j: int|
            0 <= j < pre_commits.len() && pre_commits[j] == #[trigger] after[k] by {
            if k == place {
                assert(pre_commits[pre_commits.len() - 1] == after[k]);
            } else {
                let origin = if k < place {
                    k
                } else {
                    k - 1
                };
                assert(after[k] == before[origin]);
                let j = choose|j: int| 0 <= j < front.len() && front[j] == before[origin];
                assert(pre_commits[j] == after[k]);
            }
        }
        if signers_differ(pre_commits) {
            assert(signers_differ(front)) by {
                assert forall|i: int, j: int| 0 <= i < j < front.len() implies front[i].validator_idx
                    != front[j].validator_idx by {
                    assert(front[i] == pre_commits[i] && front[j] == pre_commits[j]);
                }
            }
            assert forall|k: int| 0 <= k < before.len() implies (#[trigger] before[k]).validator_idx
                != item.validator_idx by {
                let j = choose|j: int| 0 <= j < front.len() && front[j] == before[k];
                assert(pre_commits[j] == before[k]);
            }
            assert forall|i: int, j: int| 0 <= i < j < after.len() implies after[i].validator_idx
                < after[j].validator_idx by {
                if i < place {
                    assert(after[i] == before[i]);
                } else if i > place {
                    assert(after[i] == before[i - 1]);
                }
                if j < place {
                    assert(after[j] == before[j]);
                } else if j > place {
                    assert(after[j] == before[j - 1]);
                }
            }
        }
    }
}

/// Finality signed by validators can be proved. Where there is at least one
/// pre-commit, every pre-commit carries the key of a validator of the set and
/// a signature of the vote that verifies under that key, no key signs twice,
/// and the set fits the bound, the block's finality has a proof, and the
/// indices along its chain of signs grow strictly.
pub proof fn lemma_signed_finality_is_provable(finality: BlockFinality, limit: nat, max: nat)
    requires
        limit > 0,
        finality.pre_commits@.len() > 0,
        finality.validator_set@.len() <= u32::MAX,
        finality.validator_set@.len() <= max,
        forall|i: int|
            0 <= i < finality.pre_commits@.len() ==> is_known(
                finality.validator_set@,
                #[trigger] finality.pre_commits@[i],
            ),
        forall|i: int|
            0 <= i < finality.pre_commits@.len() ==> ed25519_verifies(
                (#[trigger] finality.pre_commits@[i]).public_key@,
                finality.message@,
                finality.pre_commits@[i].signature@,
            ),
        forall|i: int, j: int|
            0 <= i < j < finality.pre_commits@.len() ==> finality.pre_commits@[i].public_key@
                != finality.pre_commits@[j].public_key@,
    ensures
        finality.provable(limit, max),
        indices_grow_strictly(spec_sorted(finality.spec_processed_pre_commits(limit))),
{
    let set = finality.validator_set@;
    let given = finality.pre_commits@;
    assert(is_known(set, given[0]));
    lemma_position_found(set, given[0].public_key@);
    let taken = finality.spec_processed_pre_commits(limit);
    lemma_processed_all(set, given);
    assert forall|i: int| 0 <= i < taken.len() implies #[trigger] taken[i] == processed_entry(
        set,
        given[i],
    ) by {}
    assert forall|i: int| 0 <= i < taken.len() implies sign_provable(
        set,
        finality.message@,
        #[trigger] taken[i],
    ) by {
        assert(is_known(set, given[i]));
        lemma_position_found(set, given[i].public_key@);
    }
    assert(signers_differ(taken)) by {
        assert forall|i: int, j: int| 0 <= i < j < taken.len() implies taken[i].validator_idx
            != taken[j].validator_idx by {
            assert(is_known(set, given[i]) && is_known(set, given[j]));
            lemma_position_found(set, given[i].public_key@);
            lemma_position_found(set, given[j].public_key@);
            assert(taken[i] == processed_entry(set, given[i]));
            assert(taken[j] == processed_entry(set, given[j]));
        }
    }
    lemma_sorted_strict(taken);
    let sorted = spec_sorted(taken);
    assert forall|k: int| 0 <= k < sorted.len() implies sign_provable(
        set,
        finality.message@,
        sorted[k],
    ) by {
        let j = choose|j: int| 0 <= j < taken.len() && taken[j] == sorted[k];
        assert(sign_provable(set, finality.message@, taken[j]));
    }
}

} // verus!
