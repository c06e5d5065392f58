//! The beacon light client: a state machine that follows the finalized
//! header of the beacon chain from sync-committee updates.
//!
//! The client starts from a bootstrap, then takes updates one at a time. An
//! update is signed by the sync committee of the period of its signature
//! slot; the client knows the committee of its own period and, once an update
//! has brought it, the committee of the next one. Every update either leaves
//! the client as it was and names the reason, or moves it forward.

use vstd::prelude::*;
use crate::beacon::{
    calculate_period, hash_nodes, hash_pair, hashes_equal, spec_period, BeaconBlockHeader,
    Network, SyncCommittee, SLOTS_PER_EPOCH,
};
use crate::light_client::checkpoints::{spec_evict, spec_put, Checkpoints};
use crate::merkle::{
    is_current_committee_proof_valid, is_finality_proof_valid, is_next_committee_proof_valid,
    spec_is_current_committee_proof_valid, spec_is_finality_proof_valid,
    spec_is_next_committee_proof_valid,
};
use crate::signature::{
    bls_add_keys, bls_key_sum, bls_signature_verifies, spec_bls_signature_verifies,
};

pub mod checkpoints;
pub mod replay_back;

verus! {

/// Votes that a sync committee of 512 members needs: two thirds of them.
pub const MIN_SYNC_COMMITTEE_PARTICIPANTS: usize = 342;

/// Why an update was not taken.
#[derive(Clone, Copy, Debug, PartialEq, Eq, Structural)]
pub enum Error {
    /// Fewer than two thirds of the committee have signed.
    LowVoteCount,
    /// The committee that has signed is not known: the headers up to the
    /// period named have to be replayed first.
    ReplayBackRequired { target_period: u64 },
    /// The branch from the finalized header to the attested state is wrong.
    InvalidFinalityBranch,
    /// The branch from a sync committee to the attested state is wrong.
    InvalidCommitteeBranch,
    /// The signature of the committee does not verify.
    InvalidSignature,
    /// The update brings nothing that the client does not have.
    StaleUpdate,
    /// The slots of the update do not follow one another, or the update does
    /// not go on from the header that the client stands on.
    ForkMismatch,
}

/// One fork of the chain: the epoch in which it starts and its version.
#[derive(Clone, Copy, Debug)]
pub struct Fork {
    pub epoch: u64,
    pub version: [u8; 4],
}

/// What a network fixes about signatures: the root of its genesis validators
/// and the versions of its forks, in the order in which they start.
#[derive(Debug)]
pub struct ForkSchedule {
    pub genesis_validators_root: [u8; 32],
    pub genesis_version: [u8; 4],
    pub forks: Vec<Fork>,
}

/// The votes of a sync committee: one bit for every member, the bit of member
/// `i` being bit `i % 8` of byte `i / 8`, and the aggregate signature.
#[derive(Clone, Copy, Debug)]
pub struct SyncAggregate {
    pub sync_committee_bits: [u8; 64],
    pub sync_committee_signature: [u8; 96],
}

/// An update of the light client. A finality update is an update that brings
/// no next sync committee.
#[derive(Debug)]
pub struct SyncUpdate {
    pub attested_header: BeaconBlockHeader,
    pub next_sync_committee: Option<SyncCommittee>,
    pub next_sync_committee_branch: Vec<[u8; 32]>,
    pub finalized_header: BeaconBlockHeader,
    pub finality_branch: Vec<[u8; 32]>,
    pub sync_aggregate: SyncAggregate,
    pub signature_slot: u64,
}

/// What the client starts from.
#[derive(Debug)]
pub struct Bootstrap {
    pub header: BeaconBlockHeader,
    pub current_sync_committee: SyncCommittee,
    pub current_sync_committee_branch: Vec<[u8; 32]>,
}

/// The mode that the client is in.
#[derive(Debug)]
pub enum Mode {
    /// Started from a bootstrap; no update has moved the client yet.
    Bootstrapped,
    /// A replay was started and waits for its first headers.
    AwaitingReplayBack {
        target_header: BeaconBlockHeader,
        target_period: u64,
        queued_sync_update: SyncUpdate,
    },
    /// A replay is under way.
    ReplayingBack {
        /// Root that the next header must have.
        expected_parent_root: [u8; 32],
        /// Slot that every header still to come must lie above.
        remaining_slot_lower_bound: u64,
        /// Slot that the next header must lie below.
        last_slot: u64,
        /// The update that is taken up again when the replay ends.
        queued_sync_update: SyncUpdate,
    },
    /// Updates have moved the client.
    Operational,
}

/// The beacon light client.
#[derive(Debug)]
pub struct LightClient {
    pub network: Network,
    pub forks: ForkSchedule,
    pub mode: Mode,
    pub finalized_header: BeaconBlockHeader,
    pub current_committee: SyncCommittee,
    pub next_committee: Option<SyncCommittee>,
    pub period: u64,
    pub checkpoints: Checkpoints,
}

/// The tag under which messages are hashed to the curve for signatures of
/// the beacon chain.
pub open spec fn spec_signature_tag() -> Seq<u8> {
    seq![
        66u8, 76, 83, 95, 83, 73, 71, 95, 66, 76, 83, 49, 50, 51, 56, 49, 71, 50, 95, 88, 77, 68,
        58, 83, 72, 65, 45, 50, 53, 54, 95, 83, 83, 87, 85, 95, 82, 79, 95, 80, 79, 80, 95,
    ]
}

/// Returns the tag under which messages are hashed to the curve:
/// `BLS_SIG_BLS12381G2_XMD:SHA-256_SSWU_RO_POP_`.
pub fn signature_tag() -> (tag: [u8; 43])
    ensures
        tag@ == spec_signature_tag(),
{
    let tag = [
        66u8, 76, 83, 95, 83, 73, 71, 95, 66, 76, 83, 49, 50, 51, 56, 49, 71, 50, 95, 88, 77, 68,
        58, 83, 72, 65, 45, 50, 53, 54, 95, 83, 83, 87, 85, 95, 82, 79, 95, 80, 79, 80, 95,
    ];
    assert(tag@ =~= spec_signature_tag());
    tag
}

/// Whether member `member` of the committee has voted.
pub open spec fn spec_has_voted(bits: Seq<u8>, member: int) -> bool {
    (bits[member / 8] as int / crate::bits::two_to((member % 8) as nat)) % 2 == 1
}

/// Number of members among the first `count` that have voted.
pub open spec fn spec_votes(bits: Seq<u8>, count: int) -> int
    decreases count,
{
    if count <= 0 {
        0
    } else {
        spec_votes(bits, count - 1) + if spec_has_voted(bits, count - 1) {
            1int
        } else {
            0
        }
    }
}

/// The sum of the keys of the members that have voted.
#[derive(Clone, Copy, Debug)]
pub enum AggregateKey {
    /// Nobody has voted.
    Empty,
    /// A key is no point of the group.
    Invalid,
    /// The sum of the keys, in compressed form.
    Key([u8; 48]),
}

/// The plain form of an aggregate key: `None` where nobody has voted,
/// `Some(None)` where a key is no point of the group.
pub open spec fn aggregate_view(aggregate: AggregateKey) -> Option<Option<Seq<u8>>> {
    match aggregate {
        AggregateKey::Empty => None,
        AggregateKey::Invalid => Some(None),
        AggregateKey::Key(key) => Some(Some(key@)),
    }
}

/// The sum of the keys of those among the first `count` members that have
/// voted.
pub open spec fn spec_aggregate(keys: Seq<[u8; 48]>, bits: Seq<u8>, count: int) -> Option<
    Option<Seq<u8>>,
>
    decreases count,
{
    if count <= 0 {
        None
    } else {
        let before = spec_aggregate(keys, bits, count - 1);
        if spec_has_voted(bits, count - 1) {
            match before {
                None => Some(Some(keys[count - 1]@)),
                Some(None) => Some(None),
                Some(Some(sum)) => Some(bls_key_sum(sum, keys[count - 1]@)),
            }
        } else {
            before
        }
    }
}

/// Counts the votes and sums the keys of the members that have voted.
pub fn aggregate_votes(committee: &SyncCommittee, bits: &[u8; 64]) -> (result: (
    usize,
    AggregateKey,
))
    ensures
        result.0 == spec_votes(bits@, 512),
        aggregate_view(result.1) == spec_aggregate(committee.pubkeys@, bits@, 512),
{
    let mut votes: usize = 0;
    let mut aggregate = AggregateKey::Empty;
    let mut member: usize = 0;
    let mut weight: u8 = 1;
    while member < 512
        invariant
            member <= 512,
            member < 512 ==> weight == crate::bits::two_to((member % 8) as nat),
            votes == spec_votes(bits@, member as int),
            votes <= member,
            aggregate_view(aggregate) == spec_aggregate(committee.pubkeys@, bits@, member as int),
        decreases 512 - member,
    {
        proof {
            crate::bits::lemma_two_to_values();
        }
        let byte = bits[member / 8];
        if (byte / weight) % 2 == 1 {
            votes += 1;
            aggregate = match aggregate {
                AggregateKey::Empty => AggregateKey::Key(committee.pubkeys[member]),
                AggregateKey::Invalid => AggregateKey::Invalid,
                AggregateKey::Key(sum) => match bls_add_keys(&sum, &committee.pubkeys[member]) {
                    Some(next) => AggregateKey::Key(next),
                    None => AggregateKey::Invalid,
                },
            };
        }
        member += 1;
        if member % 8 == 0 {
            weight = 1;
        } else {
            weight = weight * 2;
        }
    }
    (votes, aggregate)
}

/// The version of the fork that runs in `epoch`, going by the first `count`
/// forks of the schedule: the version of the last of them that has started,
/// and the version of genesis if none has.
pub open spec fn spec_fork_version(schedule: ForkSchedule, epoch: u64, count: int) -> [u8; 4]
    decreases count,
{
    if count <= 0 {
        schedule.genesis_version
    } else if schedule.forks@[count - 1].epoch <= epoch {
        schedule.forks@[count - 1].version
    } else {
        spec_fork_version(schedule, epoch, count - 1)
    }
}

/// The epoch whose fork signs at `signature_slot`: the epoch of the slot
/// before it.
pub open spec fn spec_signing_epoch(signature_slot: u64) -> u64 {
    if signature_slot == 0 {
        0
    } else {
        ((signature_slot - 1) / SLOTS_PER_EPOCH as int) as u64
    }
}

/// The domain of sync-committee signatures under a fork version: the kind of
/// the domain, then the first 28 bytes of the root of the fork data.
pub open spec fn spec_domain(version: [u8; 4], genesis_validators_root: [u8; 32]) -> Seq<u8> {
    let fork_data_root = hash_pair(
        version@ + Seq::new(28, |i: int| 0u8),
        genesis_validators_root@,
    );
    seq![7u8, 0, 0, 0] + fork_data_root.subrange(0, 28)
}

/// The root that the committee signs for a header: the root of the header
/// hashed with the domain.
pub open spec fn spec_signing_root(
    schedule: ForkSchedule,
    header: BeaconBlockHeader,
    signature_slot: u64,
) -> Seq<u8> {
    let version = spec_fork_version(
        schedule,
        spec_signing_epoch(signature_slot),
        schedule.forks@.len() as int,
    );
    hash_pair(header.spec_tree_hash_root(), spec_domain(version, schedule.genesis_validators_root))
}

impl ForkSchedule {
    /// Finds the version of the fork that runs in `epoch`.
    pub fn fork_version(&self, epoch: u64) -> (version: [u8; 4])
        ensures
            version == spec_fork_version(*self, epoch, self.forks@.len() as int),
    {
        let mut i: usize = self.forks.len();
        while i > 0
            invariant
                i <= self.forks@.len(),
                spec_fork_version(*self, epoch, self.forks@.len() as int) == spec_fork_version(
                    *self,
                    epoch,
                    i as int,
                ),
            decreases i,
        {
            if self.forks[i - 1].epoch <= epoch {
                return self.forks[i - 1].version;
            }
            i -= 1;
        }
        self.genesis_version
    }

    /// Computes the root that the committee signs for `header` at
    /// `signature_slot`.
    pub fn signing_root(&self, header: &BeaconBlockHeader, signature_slot: u64) -> (root: [u8; 32])
        ensures
            root@ == spec_signing_root(*self, *header, signature_slot),
    {
        let epoch = if signature_slot == 0 {
            0
        } else {
            (signature_slot - 1) / SLOTS_PER_EPOCH
        };
        let version = self.fork_version(epoch);
        let mut version_chunk = [0u8; 32];
        version_chunk[0] = version[0];
        version_chunk[1] = version[1];
        version_chunk[2] = version[2];
        version_chunk[3] = version[3];
        assert(version_chunk@ =~= version@ + Seq::new(28, |i: int| 0u8));
        let fork_data_root = hash_nodes(&version_chunk, &self.genesis_validators_root);
        let mut domain = [0u8; 32];
        domain[0] = 7;
        let mut i: usize = 0;
        while i < 28
            invariant
                i <= 28,
                domain@[0] == 7 && domain@[1] == 0 && domain@[2] == 0 && domain@[3] == 0,
                forall|k: int| 0 <= k < i ==> domain@[4 + k] == fork_data_root@[k],
            decreases 28 - i,
        {
            domain[4 + i] = fork_data_root[i];
            i += 1;
        }
        assert(domain@ =~= spec_domain(version, self.genesis_validators_root));
        let header_root = header.tree_hash_root();
        hash_nodes(&header_root, &domain)
    }
}

/// The light client as a plain value.
pub struct ClientView {
    pub network: Network,
    pub forks: ForkSchedule,
    pub mode: Mode,
    pub finalized_header: BeaconBlockHeader,
    pub current_committee: SyncCommittee,
    pub next_committee: Option<SyncCommittee>,
    pub period: u64,
    /// The verified headers that the client remembers, lowest slot first.
    pub checkpoints: Seq<(u64, Seq<u8>)>,
    /// The greatest number of headers that the client remembers.
    pub capacity: nat,
}

/// The committee that has signed an update, as the client knows it: the
/// current one for a signature of the client's period, the next one for a
/// signature of the period after it.
pub open spec fn spec_signer(view: ClientView, update: SyncUpdate) -> Result<SyncCommittee, Error> {
    let signature_period = spec_period(update.signature_slot);
    if signature_period == view.period {
        Ok(view.current_committee)
    } else if signature_period < view.period {
        Err(Error::StaleUpdate)
    } else if signature_period == view.period + 1 && view.next_committee is Some {
        Ok(view.next_committee.unwrap())
    } else {
        Err(Error::ReplayBackRequired { target_period: signature_period })
    }
}

/// Whether the signature of an update verifies under the keys of the members
/// of `committee` that have voted.
pub open spec fn spec_signature_valid(
    forks: ForkSchedule,
    committee: SyncCommittee,
    update: SyncUpdate,
) -> bool {
    spec_aggregate(committee.pubkeys@, update.sync_aggregate.sync_committee_bits@, 512)
        matches Some(Some(key)) && spec_bls_signature_verifies(
        key,
        spec_signing_root(forks, update.attested_header, update.signature_slot),
        update.sync_aggregate.sync_committee_signature@,
        spec_signature_tag(),
    )
}

/// Whether an update brings a finalized header beyond the one of the client.
pub open spec fn spec_advances(view: ClientView, update: SyncUpdate) -> bool {
    update.finalized_header.slot > view.finalized_header.slot
}

/// Whether an update brings the next committee to a client that has none.
pub open spec fn spec_brings_committee(view: ClientView, update: SyncUpdate) -> bool {
    &&& update.next_sync_committee is Some
    &&& view.next_committee is None
    &&& spec_period(update.attested_header.slot) == view.period
}

/// The first rule that an update breaks, if it breaks one. The rules, in
/// order: the signature slot lies behind the attested slot, which does not
/// lie before the finalized slot; the committee that has signed is known; two
/// thirds of it have voted; its signature verifies; the finalized header
/// hangs on the attested state; the next committee, if the update brings one,
/// hangs on the attested state.
pub open spec fn spec_verify(view: ClientView, update: SyncUpdate) -> Option<Error> {
    if !(update.signature_slot > update.attested_header.slot && update.attested_header.slot
        >= update.finalized_header.slot) {
        Some(Error::ForkMismatch)
    } else {
        match spec_signer(view, update) {
            Err(error) => Some(error),
            Ok(committee) => {
                if spec_votes(update.sync_aggregate.sync_committee_bits@, 512)
                    < MIN_SYNC_COMMITTEE_PARTICIPANTS {
                    Some(Error::LowVoteCount)
                } else if !spec_signature_valid(view.forks, committee, update) {
                    Some(Error::InvalidSignature)
                } else if !spec_is_finality_proof_valid(
                    view.network,
                    update.attested_header,
                    update.finalized_header,
                    update.finality_branch@,
                ) {
                    Some(Error::InvalidFinalityBranch)
                } else if update.next_sync_committee is Some
                    && !spec_is_next_committee_proof_valid(
                    view.network,
                    update.attested_header,
                    update.next_sync_committee.unwrap(),
                    update.next_sync_committee_branch@,
                ) {
                    Some(Error::InvalidCommitteeBranch)
                } else {
                    None
                }
            },
        }
    }
}

/// The client after it has taken a verified update. A finalized header
/// beyond the client's becomes the client's and is remembered; if it lies in
/// the next period, the next committee becomes the current one. The committee
/// that the update brings becomes the next one if it is the committee of the
/// period after the client's.
pub open spec fn spec_apply(view: ClientView, update: SyncUpdate) -> ClientView {
    let attested_period = spec_period(update.attested_header.slot);
    if spec_advances(view, update) {
        let new_period = spec_period(update.finalized_header.slot);
        let rotates = new_period > view.period;
        let period = if rotates {
            new_period
        } else {
            view.period
        };
        ClientView {
            mode: Mode::Operational,
            finalized_header: update.finalized_header,
            current_committee: if rotates && view.next_committee is Some {
                view.next_committee.unwrap()
            } else {
                view.current_committee
            },
            next_committee: if update.next_sync_committee is Some && attested_period == period {
                update.next_sync_committee
            } else if rotates {
                None
            } else {
                view.next_committee
            },
            period,
            checkpoints: spec_evict(
                spec_put(
                    view.checkpoints,
                    update.finalized_header.slot,
                    update.finalized_header.spec_tree_hash_root(),
                ),
                view.capacity,
            ),
            ..view
        }
    } else {
        ClientView {
            mode: Mode::Operational,
            next_committee: if spec_brings_committee(view, update) {
                update.next_sync_committee
            } else {
                view.next_committee
            },
            ..view
        }
    }
}

/// What taking an update does to a client that is not replaying: the client
/// afterwards, and the answer. An update that breaks a rule, or that brings
/// neither a new finalized header nor a committee, leaves the client as it
/// is.
pub open spec fn spec_take(view: ClientView, update: SyncUpdate) -> (ClientView, Result<(), Error>) {
    match spec_verify(view, update) {
        Some(error) => (view, Err(error)),
        None => if spec_advances(view, update) || spec_brings_committee(view, update) {
            (spec_apply(view, update), Ok(()))
        } else {
            (view, Err(Error::StaleUpdate))
        },
    }
}

/// The period that a replay under way leads to.
pub open spec fn spec_replay_target(mode: Mode) -> Option<u64> {
    match mode {
        Mode::AwaitingReplayBack { target_period, .. } => Some(target_period),
        Mode::ReplayingBack { queued_sync_update, .. } => Some(
            spec_period(queued_sync_update.signature_slot),
        ),
        _ => None,
    }
}

/// What `process` does: the client afterwards, and the answer. While a replay
/// is under way no update is taken.
pub open spec fn spec_process(view: ClientView, update: SyncUpdate) -> (
    ClientView,
    Result<(), Error>,
) {
    match spec_replay_target(view.mode) {
        Some(target_period) => (view, Err(Error::ReplayBackRequired { target_period })),
        None => spec_take(view, update),
    }
}

/// What `init` gives: a client that stands on the header of the bootstrap,
/// or the rule that was broken. The finalized header of the update must be
/// the header of the bootstrap, the committee of the bootstrap must hang on
/// the state of that header, and the update must verify against that
/// committee. The committee that the update brings becomes the next one.
pub open spec fn spec_init(
    network: Network,
    forks: ForkSchedule,
    bootstrap: Bootstrap,
    update: SyncUpdate,
    capacity: nat,
) -> Result<ClientView, Error> {
    let fresh = ClientView {
        network,
        forks,
        mode: Mode::Bootstrapped,
        finalized_header: bootstrap.header,
        current_committee: bootstrap.current_sync_committee,
        next_committee: None,
        period: spec_period(bootstrap.header.slot),
        checkpoints: spec_evict(
            spec_put(Seq::empty(), bootstrap.header.slot, bootstrap.header.spec_tree_hash_root()),
            capacity,
        ),
        capacity,
    };
    if update.finalized_header.spec_tree_hash_root() != bootstrap.header.spec_tree_hash_root() {
        Err(Error::ForkMismatch)
    } else if !spec_is_current_committee_proof_valid(
        network,
        bootstrap.header,
        bootstrap.current_sync_committee,
        bootstrap.current_sync_committee_branch@,
    ) {
        Err(Error::InvalidCommitteeBranch)
    } else {
        match spec_verify(fresh, update) {
            Some(error) => Err(error),
            None => Ok(
                ClientView {
                    next_committee: if spec_brings_committee(fresh, update) {
                        update.next_sync_committee
                    } else {
                        None
                    },
                    ..fresh
                },
            ),
        }
    }
}

impl LightClient {
    /// The client as a plain value.
    pub open spec fn view(&self) -> ClientView {
        ClientView {
            network: self.network,
            forks: self.forks,
            mode: self.mode,
            finalized_header: self.finalized_header,
            current_committee: self.current_committee,
            next_committee: self.next_committee,
            period: self.period,
            checkpoints: self.checkpoints@,
            capacity: self.checkpoints.spec_capacity(),
        }
    }

    /// The headers that the client remembers are in order and within the
    /// capacity.
    pub open spec fn well_formed(&self) -> bool {
        self.checkpoints.well_formed()
    }

    /// The slot of the finalized header that the client stands on.
    pub fn finalized_slot(&self) -> (slot: u64)
        ensures
            slot == self@.finalized_header.slot,
    {
        self.finalized_header.slot
    }

    /// Looks up the root of the verified header of `slot`.
    pub fn checkpoint(&self, slot: u64) -> (root: Option<[u8; 32]>)
        requires
            self.well_formed(),
        ensures
            root matches Some(bytes) ==> self.checkpoints.spec_get(slot) == Some(bytes@),
            root is None ==> self.checkpoints.spec_get(slot) is None,
    {
        self.checkpoints.get(slot)
    }

    /// Checks an update against the rules, in their order.
    pub fn verify(&self, update: &SyncUpdate) -> (broken: Option<Error>)
        ensures
            broken == spec_verify(self@, *update),
    {
        if !(update.signature_slot > update.attested_header.slot && update.attested_header.slot
            >= update.finalized_header.slot) {
            return Some(Error::ForkMismatch);
        }
        let signature_period = calculate_period(update.signature_slot);
        let committee = if signature_period == self.period {
            self.current_committee
        } else if signature_period < self.period {
            return Some(Error::StaleUpdate);
        } else {
            match self.next_committee {
                Some(next) if signature_period - 1 == self.period => next,
                _ => {
                    return Some(Error::ReplayBackRequired { target_period: signature_period });
                },
            }
        };
        let (votes, aggregate) = aggregate_votes(
            &committee,
            &update.sync_aggregate.sync_committee_bits,
        );
        if votes < MIN_SYNC_COMMITTEE_PARTICIPANTS {
            return Some(Error::LowVoteCount);
        }
        let key = match aggregate {
            AggregateKey::Key(key) => key,
            _ => {
                return Some(Error::InvalidSignature);
            },
        };
        let signing_root = self.forks.signing_root(&update.attested_header, update.signature_slot);
        let tag = signature_tag();
        if !bls_signature_verifies(
            &key,
            &signing_root,
            &update.sync_aggregate.sync_committee_signature,
            tag.as_slice(),
        ) {
            return Some(Error::InvalidSignature);
        }
        if !is_finality_proof_valid(
            &self.network,
            &update.attested_header,
            &update.finalized_header,
            update.finality_branch.as_slice(),
        ) {
            return Some(Error::InvalidFinalityBranch);
        }
        match &update.next_sync_committee {
            Some(next) => {
                if !is_next_committee_proof_valid(
                    &self.network,
                    &update.attested_header,
                    next,
                    update.next_sync_committee_branch.as_slice(),
                ) {
                    return Some(Error::InvalidCommitteeBranch);
                }
            },
            None => {},
        }
        None
    }

    /// Takes a verified update if it brings anything.
    pub fn take(&mut self, update: &SyncUpdate) -> (taken: Result<(), Error>)
        requires
            old(self).well_formed(),
            old(self).mode is Bootstrapped || old(self).mode is Operational,
        ensures
            final(self).well_formed(),
            (final(self)@, taken) == spec_take(old(self)@, *update),
    {
        match self.verify(update) {
            Some(error) => {
                return Err(error);
            },
            None => {},
        }
        let attested_period = calculate_period(update.attested_header.slot);
        if update.finalized_header.slot > self.finalized_header.slot {
            let new_period = calculate_period(update.finalized_header.slot);
            let rotates = new_period > self.period;
            if rotates {
                match self.next_committee {
                    Some(next) => {
                        self.current_committee = next;
                    },
                    None => {},
                }
                self.period = new_period;
            }
            if update.next_sync_committee.is_some() && attested_period == self.period {
                self.next_committee = update.next_sync_committee;
            } else if rotates {
                self.next_committee = None;
            }
            let root = update.finalized_header.tree_hash_root();
            self.checkpoints.insert(update.finalized_header.slot, root);
            self.finalized_header = update.finalized_header;
            self.mode = Mode::Operational;
            Ok(())
        } else if update.next_sync_committee.is_some() && self.next_committee.is_none()
            && attested_period == self.period {
            self.next_committee = update.next_sync_committee;
            self.mode = Mode::Operational;
            Ok(())
        } else {
            Err(Error::StaleUpdate)
        }
    }

    /// Processes an update. The client afterwards and the answer are a
    /// function of the client before and the update: the same update on the
    /// same client always gives the same.
    pub fn process(&mut self, update: &SyncUpdate) -> (answer: Result<(), Error>)
        requires
            old(self).well_formed(),
        ensures
            final(self).well_formed(),
            (final(self)@, answer) == spec_process(old(self)@, *update),
    {
        match &self.mode {
            Mode::AwaitingReplayBack { target_period, .. } => {
                return Err(Error::ReplayBackRequired { target_period: *target_period });
            },
            Mode::ReplayingBack { queued_sync_update, .. } => {
                return Err(
                    Error::ReplayBackRequired {
                        target_period: calculate_period(queued_sync_update.signature_slot),
                    },
                );
            },
            _ => {},
        }
        self.take(update)
    }

    /// Starts a client from a bootstrap and a first update.
    pub fn init(
        network: Network,
        forks: ForkSchedule,
        bootstrap: Bootstrap,
        update: &SyncUpdate,
        capacity: usize,
    ) -> (started: Result<LightClient, Error>)
        ensures
            started matches Ok(client) ==> client.well_formed() && Ok::<ClientView, Error>(client@)
                == spec_init(network, forks, bootstrap, *update, capacity as nat),
            started matches Err(error) ==> spec_init(
                network,
                forks,
                bootstrap,
                *update,
                capacity as nat,
            ) == Err::<ClientView, Error>(error),
    {
        let bootstrap_root = bootstrap.header.tree_hash_root();
        let update_root = update.finalized_header.tree_hash_root();
        if !hashes_equal(&update_root, &bootstrap_root) {
            return Err(Error::ForkMismatch);
        }
        if !is_current_committee_proof_valid(
            &network,
            &bootstrap.header,
            &bootstrap.current_sync_committee,
            bootstrap.current_sync_committee_branch.as_slice(),
        ) {
            return Err(Error::InvalidCommitteeBranch);
        }
        let mut checkpoints = Checkpoints::new(capacity);
        checkpoints.insert(bootstrap.header.slot, bootstrap_root);
        let mut client = LightClient {
            network,
            forks,
            mode: Mode::Bootstrapped,
            finalized_header: bootstrap.header,
            current_committee: bootstrap.current_sync_committee,
            next_committee: None,
            period: calculate_period(bootstrap.header.slot),
            checkpoints,
        };
        match client.verify(update) {
            Some(error) => {
                return Err(error);
            },
            None => {},
        }
        if update.next_sync_committee.is_some() && calculate_period(update.attested_header.slot)
            == client.period {
            client.next_committee = update.next_sync_committee;
        }
        Ok(client)
    }
}

/// An update signed past the next period asks for a replay and moves
/// nothing: where no replay is under way, the slots of the update follow one
/// another and the period of its signature slot lies beyond the period after
/// the client's, `process` answers with that period and leaves the client as
/// it was.
pub proof fn lemma_signature_past_next_period(view: ClientView, update: SyncUpdate)
    requires
        view.mode is Bootstrapped || view.mode is Operational,
        update.signature_slot > update.attested_header.slot,
        update.attested_header.slot >= update.finalized_header.slot,
        spec_period(update.signature_slot) > view.period + 1,
    ensures
        spec_process(view, update) == (
            view,
            Err::<(), Error>(
                Error::ReplayBackRequired { target_period: spec_period(update.signature_slot) },
            ),
        ),
{
}

/// The client after it has processed `updates` one after another.
pub open spec fn spec_process_all(view: ClientView, updates: Seq<SyncUpdate>) -> ClientView
    decreases updates.len(),
{
    if updates.len() == 0 {
        view
    } else {
        spec_process(spec_process_all(view, updates.drop_last()), updates.last()).0
    }
}

/// Updates take effect in the order in which they are handed in: processing
/// a list of updates and then another is processing the two lists joined.
pub proof fn lemma_process_in_order(view: ClientView, first: Seq<SyncUpdate>, second: Seq<SyncUpdate>)
    ensures
        spec_process_all(view, first + second) == spec_process_all(
            spec_process_all(view, first),
            second,
        ),
    decreases second.len(),
{
    if second.len() == 0 {
        assert(first + second =~= first);
    } else {
        lemma_process_in_order(view, first, second.drop_last());
        assert((first + second).drop_last() =~= first + second.drop_last());
    }
}

impl LightClient {
    /// Processes updates one after another, in the order of the list, and
    /// returns the answer to each.
    pub fn process_all(&mut self, updates: &Vec<SyncUpdate>) -> (answers: Vec<Result<(), Error>>)
        requires
            old(self).well_formed(),
        ensures
            final(self).well_formed(),
            final(self)@ == spec_process_all(old(self)@, updates@),
            answers@.len() == updates@.len(),
            forall|i: int|
                0 <= i < updates@.len() ==> #[trigger] answers@[i] == spec_process(
                    spec_process_all(old(self)@, updates@.subrange(0, i)),
                    updates@[i],
                ).1,
    {
        let mut answers: Vec<Result<(), Error>> = Vec::new();
        let mut i: usize = 0;
        assert(updates@.subrange(0, 0) =~= Seq::empty());
        while i < updates.len()
            invariant
                i <= updates@.len(),
                self.well_formed(),
                self@ == spec_process_all(old(self)@, updates@.subrange(0, i as int)),
                answers@.len() == i,
                forall|k: int|
                    0 <= k < i ==> #[trigger] answers@[k] == spec_process(
                        spec_process_all(old(self)@, updates@.subrange(0, k)),
                        updates@[k],
                    ).1,
            decreases updates@.len() - i,
        {
            let answer = self.process(&updates[i]);
            answers.push(answer);
            proof {
                let next = updates@.subrange(0, i + 1);
                assert(next.drop_last() =~= updates@.subrange(0, i as int));
                assert(next.last() == updates@[i as int]);
            }
            i += 1;
        }
        assert(updates@.subrange(0, updates@.len() as int) =~= updates@);
        answers
    }
}

} // verus!
