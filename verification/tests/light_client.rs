use ark_bls12_381::{g2, Fr, G1Affine, G2Projective};
use ark_ec::hashing::curve_maps::wb::WBMap;
use ark_ec::hashing::map_to_curve_hasher::MapToCurveBasedHasher;
use ark_ec::hashing::HashToCurve;
use ark_ec::{AffineRepr, CurveGroup};
use ark_ff::field_hashers::DefaultFieldHasher;
use ark_serialize::CanonicalSerialize;
use bridge_core::beacon::{BeaconBlockHeader, Network, SyncCommittee};
use bridge_core::light_client::checkpoints::Checkpoints;
use bridge_core::light_client::replay_back::{
    process as replay_process, start as replay_start, walk_headers, ReplayBackError,
    ReplayBackStatus,
};
use bridge_core::signature::{bls_generator, bls_signature_verifies};
use bridge_core::light_client::{
    aggregate_votes, signature_tag, AggregateKey, Bootstrap, Error, Fork, ForkSchedule,
    LightClient, Mode, SyncAggregate, SyncUpdate,
};
use sha2::{Digest, Sha256};

const SLOTS_PER_PERIOD: u64 = 8192;
const BOOTSTRAP_SLOT: u64 = 10 * SLOTS_PER_PERIOD + 100;

fn sha(left: &[u8], right: &[u8]) -> [u8; 32] {
    let mut hasher = Sha256::new();
    hasher.update(left);
    hasher.update(right);
    hasher.finalize().into()
}

fn secret(generation: u64, member: usize) -> Fr {
    Fr::from(generation * 100 + (member % 3) as u64 + 2)
}

fn public_key(secret: Fr) -> [u8; 48] {
    let mut bytes = [0u8; 48];
    (G1Affine::generator() * secret)
        .into_affine()
        .serialize_compressed(&mut bytes[..])
        .unwrap();
    bytes
}

fn committee(generation: u64) -> SyncCommittee {
    let keys: Vec<[u8; 48]> = (0..3)
        .map(|member| public_key(secret(generation, member)))
        .collect();
    let mut pubkeys = [[0u8; 48]; 512];
    for (member, key) in pubkeys.iter_mut().enumerate() {
        *key = keys[member % 3];
    }
    SyncCommittee {
        pubkeys,
        aggregate_pubkey: keys[0],
    }
}

fn votes(count: usize) -> [u8; 64] {
    let mut bits = [0u8; 64];
    for member in 0..count {
        bits[member / 8] |= 1 << (member % 8);
    }
    bits
}

fn has_voted(bits: &[u8; 64], member: usize) -> bool {
    bits[member / 8] >> (member % 8) & 1 == 1
}

fn sign(generation: u64, bits: &[u8; 64], message: &[u8; 32]) -> [u8; 96] {
    let mut sum = Fr::from(0u64);
    for member in 0..512 {
        if has_voted(bits, member) {
            sum += secret(generation, member);
        }
    }
    let hasher = MapToCurveBasedHasher::<
        G2Projective,
        DefaultFieldHasher<Sha256, 128>,
        WBMap<g2::Config>,
    >::new(&signature_tag())
    .unwrap();
    let point = hasher.hash(message).unwrap();
    let mut bytes = [0u8; 96];
    (point * sum)
        .into_affine()
        .serialize_compressed(&mut bytes[..])
        .unwrap();
    bytes
}

fn forks() -> ForkSchedule {
    ForkSchedule {
        genesis_validators_root: [0x4B; 32],
        genesis_version: [0, 0, 0, 0],
        forks: vec![
            Fork {
                epoch: 100,
                version: [1, 0, 0, 0],
            },
            Fork {
                epoch: 3_000,
                version: [2, 0, 0, 0],
            },
        ],
    }
}

fn header(slot: u64, parent_root: [u8; 32]) -> BeaconBlockHeader {
    BeaconBlockHeader {
        slot,
        proposer_index: slot % 1000,
        parent_root,
        state_root: [0x51; 32],
        body_root: [0xB0; 32],
    }
}

fn fold(leaf: [u8; 32], branch: &[[u8; 32]], index: u32) -> [u8; 32] {
    let mut value = leaf;
    for (level, node) in branch.iter().enumerate() {
        value = if (index >> level) & 1 == 1 {
            sha(node, &value)
        } else {
            sha(&value, node)
        };
    }
    value
}

struct StateProofs {
    state_root: [u8; 32],
    finality_branch: Vec<[u8; 32]>,
    next_committee_branch: Vec<[u8; 32]>,
}

// A beacon state in which the finalized header stands under the generalized
// index 105 and the next sync committee under 55.
fn state_proofs(finalized_root: [u8; 32], next_committee_root: [u8; 32]) -> StateProofs {
    let n104 = [0x68; 32];
    let n53 = [0x35; 32];
    let n54 = [0x36; 32];
    let n12 = [0x0C; 32];
    let n7 = [0x07; 32];
    let n2 = [0x02; 32];
    let node52 = sha(&n104, &finalized_root);
    let node26 = sha(&node52, &n53);
    let node27 = sha(&n54, &next_committee_root);
    let node13 = sha(&node26, &node27);
    let node6 = sha(&n12, &node13);
    let node3 = sha(&node6, &n7);
    StateProofs {
        state_root: sha(&n2, &node3),
        finality_branch: vec![n104, n53, node27, n12, n7, n2],
        next_committee_branch: vec![n54, node26, n12, n7, n2],
    }
}

struct UpdatePlan {
    finalized_header: BeaconBlockHeader,
    attested_slot: u64,
    signature_slot: u64,
    signer: u64,
    next_committee: Option<u64>,
    votes: usize,
}

fn update(plan: UpdatePlan) -> SyncUpdate {
    let next = committee(plan.next_committee.unwrap_or(99));
    let proofs = state_proofs(plan.finalized_header.tree_hash_root(), next.tree_hash_root());
    let mut attested_header = header(plan.attested_slot, [0xAA; 32]);
    attested_header.state_root = proofs.state_root;
    let bits = votes(plan.votes);
    let signing_root = forks().signing_root(&attested_header, plan.signature_slot);
    SyncUpdate {
        attested_header,
        next_sync_committee: plan.next_committee.map(|_| next),
        next_sync_committee_branch: if plan.next_committee.is_some() {
            proofs.next_committee_branch
        } else {
            vec![]
        },
        finalized_header: plan.finalized_header,
        finality_branch: proofs.finality_branch,
        sync_aggregate: SyncAggregate {
            sync_committee_bits: bits,
            sync_committee_signature: sign(plan.signer, &bits, &signing_root),
        },
        signature_slot: plan.signature_slot,
    }
}

fn bootstrap_header() -> BeaconBlockHeader {
    let mut bootstrap_header = header(BOOTSTRAP_SLOT, [0x01; 32]);
    let branch: Vec<[u8; 32]> = (0..5).map(|i| [0xC0 + i as u8; 32]).collect();
    bootstrap_header.state_root = fold(committee(10).tree_hash_root(), &branch, 22);
    bootstrap_header
}

fn bootstrap() -> Bootstrap {
    Bootstrap {
        header: bootstrap_header(),
        current_sync_committee: committee(10),
        current_sync_committee_branch: (0..5).map(|i| [0xC0 + i as u8; 32]).collect(),
    }
}

fn first_update() -> SyncUpdate {
    update(UpdatePlan {
        finalized_header: bootstrap_header(),
        attested_slot: BOOTSTRAP_SLOT + 64,
        signature_slot: BOOTSTRAP_SLOT + 65,
        signer: 10,
        next_committee: Some(11),
        votes: 400,
    })
}

fn finality_update(finalized_slot: u64, signer: u64, vote_count: usize) -> SyncUpdate {
    update(UpdatePlan {
        finalized_header: header(finalized_slot, [0x0F; 32]),
        attested_slot: finalized_slot + 64,
        signature_slot: finalized_slot + 65,
        signer,
        next_committee: None,
        votes: vote_count,
    })
}

fn client() -> LightClient {
    LightClient::init(Network::Mainnet, forks(), bootstrap(), &first_update(), 8).unwrap()
}

fn is_bootstrapped(client: &LightClient) -> bool {
    matches!(client.mode, Mode::Bootstrapped)
}

fn is_operational(client: &LightClient) -> bool {
    matches!(client.mode, Mode::Operational)
}

#[test]
fn signing_root_follows_the_domain_rules() {
    let attested = header(BOOTSTRAP_SLOT + 64, [0xAA; 32]);
    let root = forks().signing_root(&attested, BOOTSTRAP_SLOT + 65);
    // epoch of the slot before the signature slot: 2565, so the first fork signs
    let mut version = [0u8; 32];
    version[0] = 1;
    let fork_data_root = sha(&version, &[0x4B; 32]);
    let mut domain = [0u8; 32];
    domain[0] = 7;
    domain[4..].copy_from_slice(&fork_data_root[..28]);
    assert_eq!(root, sha(&attested.tree_hash_root(), &domain));
    assert_eq!(forks().fork_version(0), [0, 0, 0, 0]);
    assert_eq!(forks().fork_version(99), [0, 0, 0, 0]);
    assert_eq!(forks().fork_version(100), [1, 0, 0, 0]);
    assert_eq!(forks().fork_version(2_999), [1, 0, 0, 0]);
    assert_eq!(forks().fork_version(3_000), [2, 0, 0, 0]);
    assert_ne!(
        forks().signing_root(&attested, 3_000 * 32 + 1),
        forks().signing_root(&attested, 3_000 * 32)
    );
}

#[test]
fn signature_tag_names_the_ciphersuite() {
    assert_eq!(
        &signature_tag()[..],
        "BLS_SIG_BLS12381G2_XMD:SHA-256_SSWU_RO_POP_".as_bytes()
    );
}

#[test]
fn votes_are_counted_and_keys_summed() {
    let committee = committee(10);
    let (count, aggregate) = aggregate_votes(&committee, &votes(0));
    assert_eq!(count, 0);
    assert!(matches!(aggregate, AggregateKey::Empty));

    let (count, aggregate) = aggregate_votes(&committee, &votes(1));
    assert_eq!(count, 1);
    assert!(matches!(aggregate, AggregateKey::Key(key) if key == committee.pubkeys[0]));

    let (count, aggregate) = aggregate_votes(&committee, &votes(5));
    assert_eq!(count, 5);
    let sum = secret(10, 0) + secret(10, 1) + secret(10, 2) + secret(10, 0) + secret(10, 1);
    assert!(matches!(aggregate, AggregateKey::Key(key) if key == public_key(sum)));

    let mut bits = [0u8; 64];
    bits[63] = 0x80;
    bits[1] = 0x01;
    let (count, aggregate) = aggregate_votes(&committee, &bits);
    assert_eq!(count, 2);
    let sum = secret(10, 8) + secret(10, 511);
    assert!(matches!(aggregate, AggregateKey::Key(key) if key == public_key(sum)));

    let mut broken = committee;
    // compressed, not the point at infinity, and too large for the field
    broken.pubkeys[1] = [0xFF; 48];
    broken.pubkeys[1][0] = 0x9F;
    let (count, aggregate) = aggregate_votes(&broken, &votes(3));
    assert_eq!(count, 3);
    assert!(matches!(aggregate, AggregateKey::Invalid));
}

#[test]
fn init_stands_on_the_bootstrap_header() {
    let client = client();
    assert_eq!(client.finalized_slot(), BOOTSTRAP_SLOT);
    assert_eq!(client.finalized_slot(), bootstrap().header.slot);
    assert_eq!(client.period, 10);
    assert!(is_bootstrapped(&client));
    assert_eq!(
        client.checkpoint(BOOTSTRAP_SLOT),
        Some(bootstrap_header().tree_hash_root())
    );
    assert_eq!(
        client.next_committee.map(|next| next.tree_hash_root()),
        Some(committee(11).tree_hash_root())
    );
}

#[test]
fn init_refuses_an_update_of_another_header() {
    let mut update = first_update();
    update.finalized_header.slot += 1;
    let result = LightClient::init(Network::Mainnet, forks(), bootstrap(), &update, 8);
    assert_eq!(result.err(), Some(Error::ForkMismatch));
}

#[test]
fn init_refuses_a_wrong_committee_branch() {
    let mut wrong = bootstrap();
    wrong.current_sync_committee_branch[2][0] ^= 1;
    let result = LightClient::init(Network::Mainnet, forks(), wrong, &first_update(), 8);
    assert_eq!(result.err(), Some(Error::InvalidCommitteeBranch));

    let mut wrong = bootstrap();
    wrong.current_sync_committee = committee(12);
    let result = LightClient::init(Network::Mainnet, forks(), wrong, &first_update(), 8);
    assert_eq!(result.err(), Some(Error::InvalidCommitteeBranch));
}

#[test]
fn init_refuses_an_update_that_does_not_verify() {
    let mut update = first_update();
    update.sync_aggregate.sync_committee_signature[95] ^= 1;
    let result = LightClient::init(Network::Mainnet, forks(), bootstrap(), &update, 8);
    assert_eq!(result.err(), Some(Error::InvalidSignature));
}

#[test]
fn finality_update_moves_the_client() {
    let mut client = client();
    let update = finality_update(BOOTSTRAP_SLOT + 320, 10, 342);
    assert_eq!(client.process(&update), Ok(()));
    assert_eq!(client.finalized_slot(), BOOTSTRAP_SLOT + 320);
    assert!(is_operational(&client));
    assert_eq!(client.period, 10);
    assert_eq!(
        client.checkpoint(BOOTSTRAP_SLOT + 320),
        Some(update.finalized_header.tree_hash_root())
    );
    assert_eq!(
        client.checkpoint(BOOTSTRAP_SLOT),
        Some(bootstrap_header().tree_hash_root())
    );
    assert_eq!(client.checkpoint(BOOTSTRAP_SLOT + 1), None);
}

#[test]
fn processing_is_a_function_of_client_and_update() {
    let mut first = client();
    let mut second = client();
    let good = finality_update(BOOTSTRAP_SLOT + 320, 10, 342);
    let low = finality_update(BOOTSTRAP_SLOT + 640, 10, 341);
    for update in [&low, &good, &good, &low] {
        let one = first.process(update);
        let other = second.process(update);
        assert_eq!(one, other);
        assert_eq!(first.finalized_slot(), second.finalized_slot());
        assert_eq!(first.period, second.period);
    }
    assert_eq!(first.finalized_slot(), BOOTSTRAP_SLOT + 320);
}

#[test]
fn updates_take_effect_in_the_order_of_submission() {
    let updates = vec![
        finality_update(BOOTSTRAP_SLOT + 320, 10, 342),
        finality_update(BOOTSTRAP_SLOT + 32, 10, 342),
        finality_update(BOOTSTRAP_SLOT + 640, 10, 342),
    ];
    let mut one_by_one = client();
    let answers: Vec<Result<(), Error>> = updates
        .iter()
        .map(|update| one_by_one.process(update))
        .collect();
    let mut at_once = client();
    assert_eq!(at_once.process_all(&updates), answers);
    assert_eq!(answers, vec![Ok(()), Err(Error::StaleUpdate), Ok(())]);
    assert_eq!(at_once.finalized_slot(), BOOTSTRAP_SLOT + 640);
    assert_eq!(one_by_one.finalized_slot(), BOOTSTRAP_SLOT + 640);
}

#[test]
fn update_signed_past_the_next_period_requires_replay() {
    let mut client = client();
    let update = finality_update(12 * SLOTS_PER_PERIOD + 50, 12, 400);
    assert_eq!(
        client.process(&update),
        Err(Error::ReplayBackRequired { target_period: 12 })
    );
    assert_eq!(client.finalized_slot(), BOOTSTRAP_SLOT);
    assert!(is_bootstrapped(&client));
}

#[test]
fn update_of_the_next_period_needs_the_next_committee() {
    let mut first = first_update();
    first.next_sync_committee = None;
    first.next_sync_committee_branch = vec![];
    let mut client =
        LightClient::init(Network::Mainnet, forks(), bootstrap(), &first, 8).unwrap();
    assert!(client.next_committee.is_none());
    let update = finality_update(11 * SLOTS_PER_PERIOD + 50, 11, 400);
    assert_eq!(
        client.process(&update),
        Err(Error::ReplayBackRequired { target_period: 11 })
    );
}

#[test]
fn low_vote_count_moves_nothing() {
    let mut client = client();
    let update = finality_update(BOOTSTRAP_SLOT + 320, 10, 341);
    assert_eq!(client.process(&update), Err(Error::LowVoteCount));
    assert_eq!(client.finalized_slot(), BOOTSTRAP_SLOT);
    assert!(is_bootstrapped(&client));
    assert_eq!(client.checkpoint(BOOTSTRAP_SLOT + 320), None);
}

#[test]
fn signature_of_another_committee_is_refused() {
    let mut client = client();
    let update = finality_update(BOOTSTRAP_SLOT + 320, 11, 400);
    assert_eq!(client.process(&update), Err(Error::InvalidSignature));
    assert_eq!(client.finalized_slot(), BOOTSTRAP_SLOT);
}

#[test]
fn signature_over_other_votes_is_refused() {
    let mut client = client();
    let mut update = finality_update(BOOTSTRAP_SLOT + 320, 10, 400);
    update.sync_aggregate.sync_committee_bits[63] |= 0x80;
    assert_eq!(client.process(&update), Err(Error::InvalidSignature));
    let mut update = finality_update(BOOTSTRAP_SLOT + 320, 10, 400);
    update.sync_aggregate.sync_committee_signature = [0; 96];
    assert_eq!(client.process(&update), Err(Error::InvalidSignature));
}

#[test]
fn wrong_finality_branch_is_refused() {
    let mut client = client();
    let mut update = finality_update(BOOTSTRAP_SLOT + 320, 10, 342);
    update.finality_branch[0][0] ^= 1;
    assert_eq!(client.process(&update), Err(Error::InvalidFinalityBranch));
    let mut update = finality_update(BOOTSTRAP_SLOT + 320, 10, 342);
    update.finality_branch.pop();
    assert_eq!(client.process(&update), Err(Error::InvalidFinalityBranch));
    let mut update = finality_update(BOOTSTRAP_SLOT + 320, 10, 342);
    update.finalized_header.proposer_index += 1;
    assert_eq!(client.process(&update), Err(Error::InvalidFinalityBranch));
    assert_eq!(client.finalized_slot(), BOOTSTRAP_SLOT);
}

#[test]
fn wrong_committee_branch_is_refused() {
    let mut client = client();
    let mut update = update(UpdatePlan {
        finalized_header: header(BOOTSTRAP_SLOT + 320, [0x0F; 32]),
        attested_slot: BOOTSTRAP_SLOT + 384,
        signature_slot: BOOTSTRAP_SLOT + 385,
        signer: 10,
        next_committee: Some(11),
        votes: 342,
    });
    update.next_sync_committee_branch[1][3] ^= 1;
    assert_eq!(client.process(&update), Err(Error::InvalidCommitteeBranch));
    assert_eq!(client.finalized_slot(), BOOTSTRAP_SLOT);
}

#[test]
fn update_with_slots_out_of_order_is_refused() {
    let mut client = client();
    let plan = |attested_slot, signature_slot| UpdatePlan {
        finalized_header: header(BOOTSTRAP_SLOT + 320, [0x0F; 32]),
        attested_slot,
        signature_slot,
        signer: 10,
        next_committee: None,
        votes: 342,
    };
    let same = update(plan(BOOTSTRAP_SLOT + 384, BOOTSTRAP_SLOT + 384));
    assert_eq!(client.process(&same), Err(Error::ForkMismatch));
    let before = update(plan(BOOTSTRAP_SLOT + 319, BOOTSTRAP_SLOT + 385));
    assert_eq!(client.process(&before), Err(Error::ForkMismatch));
    let equal = update(plan(BOOTSTRAP_SLOT + 320, BOOTSTRAP_SLOT + 321));
    assert_eq!(client.process(&equal), Ok(()));
}

#[test]
fn update_that_brings_nothing_is_stale() {
    let mut client = client();
    let update = finality_update(BOOTSTRAP_SLOT + 320, 10, 342);
    assert_eq!(client.process(&update), Ok(()));
    assert_eq!(client.process(&update), Err(Error::StaleUpdate));
    let older = finality_update(BOOTSTRAP_SLOT + 32, 10, 342);
    assert_eq!(client.process(&older), Err(Error::StaleUpdate));
    assert_eq!(client.finalized_slot(), BOOTSTRAP_SLOT + 320);
}

#[test]
fn update_of_a_past_period_is_stale() {
    let mut client = client();
    let crossing = update(UpdatePlan {
        finalized_header: header(11 * SLOTS_PER_PERIOD + 3, [0x0F; 32]),
        attested_slot: 11 * SLOTS_PER_PERIOD + 67,
        signature_slot: 11 * SLOTS_PER_PERIOD + 68,
        signer: 11,
        next_committee: Some(12),
        votes: 342,
    });
    assert_eq!(client.process(&crossing), Ok(()));
    assert_eq!(client.period, 11);
    let old = finality_update(BOOTSTRAP_SLOT + 320, 10, 342);
    assert_eq!(client.process(&old), Err(Error::StaleUpdate));
}

#[test]
fn committees_rotate_at_the_period_boundary() {
    let mut client = client();
    let crossing = update(UpdatePlan {
        finalized_header: header(11 * SLOTS_PER_PERIOD + 3, [0x0F; 32]),
        attested_slot: 11 * SLOTS_PER_PERIOD + 67,
        signature_slot: 11 * SLOTS_PER_PERIOD + 68,
        signer: 11,
        next_committee: Some(12),
        votes: 342,
    });
    assert_eq!(client.process(&crossing), Ok(()));
    assert_eq!(client.period, 11);
    assert_eq!(client.finalized_slot(), 11 * SLOTS_PER_PERIOD + 3);
    assert_eq!(
        client.current_committee.tree_hash_root(),
        committee(11).tree_hash_root()
    );
    assert_eq!(
        client.next_committee.map(|next| next.tree_hash_root()),
        Some(committee(12).tree_hash_root())
    );
}

#[test]
fn next_committee_signs_before_the_client_crosses_the_boundary() {
    let mut client = client();
    // signed in period 11 over a header finalized in period 10
    let update = update(UpdatePlan {
        finalized_header: header(11 * SLOTS_PER_PERIOD - 70, [0x0F; 32]),
        attested_slot: 11 * SLOTS_PER_PERIOD - 1,
        signature_slot: 11 * SLOTS_PER_PERIOD,
        signer: 11,
        next_committee: None,
        votes: 342,
    });
    assert_eq!(client.process(&update), Ok(()));
    assert_eq!(client.period, 10);
    assert_eq!(client.finalized_slot(), 11 * SLOTS_PER_PERIOD - 70);
    assert_eq!(
        client.current_committee.tree_hash_root(),
        committee(10).tree_hash_root()
    );
}

#[test]
fn checkpoints_keep_order_and_capacity() {
    let mut checkpoints = Checkpoints::new(3);
    checkpoints.insert(30, [3; 32]);
    checkpoints.insert(10, [1; 32]);
    checkpoints.insert(20, [2; 32]);
    assert_eq!(checkpoints.len(), 3);
    assert_eq!(checkpoints.entry(0), (10, [1; 32]));
    assert_eq!(checkpoints.entry(1), (20, [2; 32]));
    assert_eq!(checkpoints.entry(2), (30, [3; 32]));
    assert_eq!(checkpoints.get(20), Some([2; 32]));
    assert_eq!(checkpoints.get(25), None);

    checkpoints.insert(20, [0x22; 32]);
    assert_eq!(checkpoints.len(), 3);
    assert_eq!(checkpoints.get(20), Some([0x22; 32]));

    checkpoints.insert(40, [4; 32]);
    assert_eq!(checkpoints.len(), 3);
    assert_eq!(checkpoints.get(10), None);
    assert_eq!(checkpoints.entry(0), (20, [0x22; 32]));
    assert_eq!(checkpoints.entry(2), (40, [4; 32]));

    // an entry below all others is the oldest and leaves at once
    checkpoints.insert(5, [5; 32]);
    assert_eq!(checkpoints.len(), 3);
    assert_eq!(checkpoints.get(5), None);
    assert_eq!(checkpoints.entry(0), (20, [0x22; 32]));
}

#[test]
fn checkpoints_without_room_hold_nothing() {
    let mut checkpoints = Checkpoints::new(0);
    checkpoints.insert(1, [1; 32]);
    assert_eq!(checkpoints.len(), 0);
    assert_eq!(checkpoints.get(1), None);
}

// Headers from the slot below `top` down to the slot above the finalized
// header of the client, newest first. The oldest one is a child of the
// finalized header.
fn chain(top_parent_slot: u64, length: u64) -> (Vec<BeaconBlockHeader>, [u8; 32]) {
    let mut headers = Vec::new();
    let mut parent = bootstrap_header().tree_hash_root();
    for step in 0..length {
        let next = header(top_parent_slot - length + 1 + step, parent);
        parent = next.tree_hash_root();
        headers.push(next);
    }
    headers.reverse();
    (headers, parent)
}

fn replay_update(attested_parent: [u8; 32], attested_slot: u64) -> SyncUpdate {
    let finalized_header = header(BOOTSTRAP_SLOT + 10, [0x0F; 32]);
    let proofs = state_proofs(
        finalized_header.tree_hash_root(),
        committee(99).tree_hash_root(),
    );
    let mut attested_header = header(attested_slot, attested_parent);
    attested_header.state_root = proofs.state_root;
    let bits = votes(342);
    let signing_root = forks().signing_root(&attested_header, attested_slot + 1);
    SyncUpdate {
        attested_header,
        next_sync_committee: None,
        next_sync_committee_branch: vec![],
        finalized_header,
        finality_branch: proofs.finality_branch,
        sync_aggregate: SyncAggregate {
            sync_committee_bits: bits,
            sync_committee_signature: sign(10, &bits, &signing_root),
        },
        signature_slot: attested_slot + 1,
    }
}

#[test]
fn replay_back_happy_path() {
    let mut client = client();
    let (headers, top) = chain(BOOTSTRAP_SLOT + 40, 40);
    let update = replay_update(top, BOOTSTRAP_SLOT + 41);
    let first_batch = headers[..15].to_vec();
    let rest = headers[15..].to_vec();

    assert_eq!(
        replay_start(&mut client, update, &first_batch),
        Ok(ReplayBackStatus::InProcess)
    );
    assert!(matches!(client.mode, Mode::ReplayingBack { .. }));
    assert_eq!(
        replay_process(&mut client, &rest),
        Ok(ReplayBackStatus::Finished)
    );
    assert!(is_operational(&client));
    // the queued update was taken up
    assert_eq!(client.finalized_slot(), BOOTSTRAP_SLOT + 10);
    // the capacity of eight keeps the newest headers
    assert_eq!(
        client.checkpoint(BOOTSTRAP_SLOT + 40),
        Some(headers[0].tree_hash_root())
    );

    let next = finality_update(BOOTSTRAP_SLOT + 320, 10, 342);
    let answer = client.process(&next);
    assert!(matches!(answer, Ok(_) | Err(Error::LowVoteCount)));
    let low = finality_update(BOOTSTRAP_SLOT + 640, 10, 300);
    let answer = client.process(&low);
    assert!(matches!(answer, Ok(_) | Err(Error::LowVoteCount)));
}

#[test]
fn replay_back_double_start() {
    let mut client = client();
    let (headers, top) = chain(BOOTSTRAP_SLOT + 40, 40);
    let first_batch = headers[..15].to_vec();
    assert_eq!(
        replay_start(
            &mut client,
            replay_update(top, BOOTSTRAP_SLOT + 41),
            &first_batch
        ),
        Ok(ReplayBackStatus::InProcess)
    );
    assert_eq!(
        replay_start(
            &mut client,
            replay_update(top, BOOTSTRAP_SLOT + 41),
            &first_batch
        ),
        Err(ReplayBackError::AlreadyStarted)
    );
    assert!(matches!(client.mode, Mode::ReplayingBack { .. }));
}

#[test]
fn replay_back_without_start() {
    let mut client = client();
    let (headers, _) = chain(BOOTSTRAP_SLOT + 40, 40);
    assert_eq!(
        replay_process(&mut client, &headers),
        Err(ReplayBackError::NotStarted)
    );
    assert_eq!(
        replay_process(&mut client, &vec![]),
        Err(ReplayBackError::NotStarted)
    );
    assert!(is_bootstrapped(&client));
}

#[test]
fn replay_back_refuses_an_empty_batch() {
    let mut client = client();
    let (headers, top) = chain(BOOTSTRAP_SLOT + 40, 40);
    let first_batch = headers[..15].to_vec();
    replay_start(
        &mut client,
        replay_update(top, BOOTSTRAP_SLOT + 41),
        &first_batch,
    )
    .unwrap();
    assert_eq!(
        replay_process(&mut client, &vec![]),
        Err(ReplayBackError::BatchEmpty)
    );
    assert_eq!(
        replay_process(&mut client, &headers[15..].to_vec()),
        Ok(ReplayBackStatus::Finished)
    );
}

#[test]
fn replay_back_started_without_headers_waits_for_them() {
    let mut client = client();
    let (headers, top) = chain(BOOTSTRAP_SLOT + 40, 40);
    assert_eq!(
        replay_start(
            &mut client,
            replay_update(top, BOOTSTRAP_SLOT + 41),
            &vec![]
        ),
        Ok(ReplayBackStatus::InProcess)
    );
    assert!(matches!(
        client.mode,
        Mode::AwaitingReplayBack {
            target_period: 10,
            ..
        }
    ));
    assert_eq!(
        client.process(&finality_update(BOOTSTRAP_SLOT + 320, 10, 342)),
        Err(Error::ReplayBackRequired { target_period: 10 })
    );
    assert_eq!(
        replay_process(&mut client, &headers),
        Ok(ReplayBackStatus::Finished)
    );
    assert_eq!(client.finalized_slot(), BOOTSTRAP_SLOT + 10);
}

#[test]
fn replay_back_refuses_a_gap() {
    let (headers, top) = chain(BOOTSTRAP_SLOT + 40, 40);

    let mut client = client();
    let mut gapped = headers.clone();
    gapped.remove(7);
    assert_eq!(
        replay_start(
            &mut client,
            replay_update(top, BOOTSTRAP_SLOT + 41),
            &gapped
        ),
        Err(ReplayBackError::HeaderChainBroken)
    );
    assert!(is_bootstrapped(&client));
    assert_eq!(client.checkpoint(BOOTSTRAP_SLOT + 40), None);

    replay_start(
        &mut client,
        replay_update(top, BOOTSTRAP_SLOT + 41),
        &headers[..10].to_vec(),
    )
    .unwrap();
    assert_eq!(
        replay_process(&mut client, &headers[11..].to_vec()),
        Err(ReplayBackError::HeaderChainBroken)
    );
    // the replay goes on from where it stood
    assert_eq!(
        replay_process(&mut client, &headers[10..].to_vec()),
        Ok(ReplayBackStatus::Finished)
    );
}

#[test]
fn replay_back_refuses_slots_out_of_order() {
    let finalized_root = bootstrap_header().tree_hash_root();
    // a header whose slot does not lie below the slot before it
    let child = header(BOOTSTRAP_SLOT + 5, finalized_root);
    let grandchild = header(BOOTSTRAP_SLOT + 5, child.tree_hash_root());
    let walk = walk_headers(
        &vec![grandchild, child],
        grandchild.tree_hash_root(),
        BOOTSTRAP_SLOT + 6,
        BOOTSTRAP_SLOT,
        &finalized_root,
    );
    assert!(walk.broken);
    assert!(!walk.reached);
    assert_eq!(walk.recorded.len(), 1);

    // a header at the slot of the finalized header
    let low = header(BOOTSTRAP_SLOT, finalized_root);
    let walk = walk_headers(
        &vec![low],
        low.tree_hash_root(),
        BOOTSTRAP_SLOT + 6,
        BOOTSTRAP_SLOT,
        &finalized_root,
    );
    assert!(walk.broken);

    // the same headers in order lead to the finalized header
    let grandchild = header(BOOTSTRAP_SLOT + 6, child.tree_hash_root());
    let walk = walk_headers(
        &vec![grandchild, child],
        grandchild.tree_hash_root(),
        BOOTSTRAP_SLOT + 7,
        BOOTSTRAP_SLOT,
        &finalized_root,
    );
    assert!(walk.reached && !walk.broken);
    assert_eq!(
        walk.recorded,
        vec![
            (BOOTSTRAP_SLOT + 6, grandchild.tree_hash_root()),
            (BOOTSTRAP_SLOT + 5, child.tree_hash_root())
        ]
    );
}

#[test]
fn replay_in_batches_is_replay_at_once() {
    let (headers, top) = chain(BOOTSTRAP_SLOT + 40, 40);
    let mut at_once = client();
    assert_eq!(
        replay_start(
            &mut at_once,
            replay_update(top, BOOTSTRAP_SLOT + 41),
            &headers
        ),
        Ok(ReplayBackStatus::Finished)
    );
    let mut in_batches = client();
    replay_start(
        &mut in_batches,
        replay_update(top, BOOTSTRAP_SLOT + 41),
        &headers[..13].to_vec(),
    )
    .unwrap();
    assert_eq!(
        replay_process(&mut in_batches, &headers[13..29].to_vec()),
        Ok(ReplayBackStatus::InProcess)
    );
    assert_eq!(
        replay_process(&mut in_batches, &headers[29..].to_vec()),
        Ok(ReplayBackStatus::Finished)
    );
    assert_eq!(at_once.finalized_slot(), in_batches.finalized_slot());
    assert_eq!(at_once.checkpoints.len(), in_batches.checkpoints.len());
    for index in 0..at_once.checkpoints.len() {
        assert_eq!(
            at_once.checkpoints.entry(index),
            in_batches.checkpoints.entry(index)
        );
    }
}

#[test]
fn replay_ends_even_if_the_queued_update_is_not_taken() {
    let mut client = client();
    let (headers, top) = chain(BOOTSTRAP_SLOT + 40, 40);
    let mut update = replay_update(top, BOOTSTRAP_SLOT + 41);
    update.sync_aggregate.sync_committee_signature[0] ^= 1;
    assert_eq!(
        replay_start(&mut client, update, &headers),
        Ok(ReplayBackStatus::Finished)
    );
    assert!(is_operational(&client));
    assert_eq!(client.finalized_slot(), BOOTSTRAP_SLOT);
    assert_eq!(
        client.checkpoint(BOOTSTRAP_SLOT + 40),
        Some(headers[0].tree_hash_root())
    );
}

#[test]
fn generator_is_the_generator_of_the_first_group() {
    assert_eq!(bls_generator(), public_key(Fr::from(1u64)));
}

#[test]
fn signature_verifies_under_its_key_message_and_tag() {
    let message = [0x3E; 32];
    let secret = Fr::from(123_456_789u64);
    let key = public_key(secret);
    let hasher = MapToCurveBasedHasher::<
        G2Projective,
        DefaultFieldHasher<Sha256, 128>,
        WBMap<g2::Config>,
    >::new(&signature_tag())
    .unwrap();
    let mut signature = [0u8; 96];
    (hasher.hash(&message).unwrap() * secret)
        .into_affine()
        .serialize_compressed(&mut signature[..])
        .unwrap();

    assert!(bls_signature_verifies(&key, &message, &signature, &signature_tag()));
    assert!(!bls_signature_verifies(&key, &[0x3F; 32], &signature, &signature_tag()));
    assert!(!bls_signature_verifies(
        &public_key(Fr::from(5u64)),
        &message,
        &signature,
        &signature_tag()
    ));
    assert!(!bls_signature_verifies(&key, &message, &signature, b"another tag"));
    let mut other = signature;
    other[95] ^= 1;
    assert!(!bls_signature_verifies(&key, &message, &other, &signature_tag()));
    assert!(!bls_signature_verifies(&key, &message, &[0; 96], &signature_tag()));
    let mut no_point = key;
    no_point[0] = 0x9F;
    no_point[1] = 0xFF;
    assert!(!bls_signature_verifies(&no_point, &message, &signature, &signature_tag()));
}
