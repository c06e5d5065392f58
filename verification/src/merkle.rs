//! SSZ Merkle branches under a generalized index, and the fork-dependent
//! places of the light client's fields in the beacon state.

use vstd::prelude::*;
use crate::beacon::{
    calculate_epoch, hash_nodes, hash_pair, hashes_equal, spec_epoch, BeaconBlockHeader, Network,
    SyncCommittee,
};

verus! {

/// Depth of the current sync committee in the beacon state before Electra.
pub const DEPTH_CURRENT_SYNC_COMMITTEE: u32 = 5;

/// Subtree index of the current sync committee in the beacon state.
pub const INDEX_CURRENT_SYNC_COMMITTEE: u32 = 22;

/// Depth of the next sync committee in the beacon state before Electra.
pub const DEPTH_NEXT_SYNC_COMMITTEE: u32 = 5;

/// Subtree index of the next sync committee in the beacon state.
pub const INDEX_NEXT_SYNC_COMMITTEE: u32 = 23;

/// Depth of the finalized root in the beacon state before Electra.
pub const DEPTH_FINALITY: u32 = 6;

/// Subtree index of the finalized root in the beacon state.
pub const INDEX_FINALITY: u32 = 41;

/// Depth of the current sync committee in the beacon state from Electra on.
pub const ELECTRA_DEPTH_CURRENT_SYNC_COMMITTEE: u32 = 6;

/// Depth of the next sync committee in the beacon state from Electra on.
pub const ELECTRA_DEPTH_NEXT_SYNC_COMMITTEE: u32 = 6;

/// Depth of the finalized root in the beacon state from Electra on.
pub const ELECTRA_DEPTH_FINALITY: u32 = 7;

/// `index` with its `level` lowest bits dropped.
pub open spec fn index_above(index: nat, level: nat) -> nat
    decreases level,
{
    if level == 0 {
        index
    } else {
        index_above(index, (level - 1) as nat) / 2
    }
}

/// The node reached from `leaf` after `depth` steps up the tree: at step `i`
/// the running node is hashed with `branch[i]`, which stands on the left when
/// bit `i` of `index` is set and on the right when it is not.
pub open spec fn fold_hash(leaf: Seq<u8>, branch: Seq<[u8; 32]>, index: u32, depth: nat) -> Seq<u8>
    decreases depth,
{
    if depth == 0 {
        leaf
    } else {
        let below = fold_hash(leaf, branch, index, (depth - 1) as nat);
        let sibling = branch[depth - 1]@;
        if index_above(index as nat, (depth - 1) as nat) % 2 == 1 {
            hash_pair(sibling, below)
        } else {
            hash_pair(below, sibling)
        }
    }
}

/// Whether `branch` leads from `leaf` to `root` in `depth` steps under `index`.
/// A branch shorter than `depth` never does.
pub open spec fn spec_is_valid_merkle_branch(
    leaf: Seq<u8>,
    branch: Seq<[u8; 32]>,
    depth: u32,
    index: u32,
    root: Seq<u8>,
) -> bool {
    branch.len() >= depth && fold_hash(leaf, branch, index, depth as nat) == root
}

/// Checks that `branch` leads from `leaf` to `root` in `depth` steps, where
/// bit `i` of `index` tells on which side the sibling of step `i` stands.
pub fn is_valid_merkle_branch(
    leaf: [u8; 32],
    branch: &[[u8; 32]],
    depth: u32,
    index: u32,
    root: &[u8; 32],
) -> (valid: bool)
    ensures
        valid == spec_is_valid_merkle_branch(leaf@, branch@, depth, index, root@),
{
    if branch.len() < depth as usize {
        return false;
    }
    let mut value = leaf;
    let mut rest = index;
    let mut i: u32 = 0;
    while i < depth
        invariant
            i <= depth <= branch@.len(),
            rest == index_above(index as nat, i as nat),
            value@ == fold_hash(leaf@, branch@, index, i as nat),
        decreases depth - i,
    {
        let sibling = &branch[i as usize];
        value = if rest % 2 == 1 {
            hash_nodes(sibling, &value)
        } else {
            hash_nodes(&value, sibling)
        };
        rest = rest / 2;
        i += 1;
    }
    hashes_equal(&value, root)
}

/// Depth and subtree index of the current sync committee for the fork that
/// `slot` falls in.
pub open spec fn spec_depth_index_current(network: Network, slot: u64) -> (u32, u32) {
    if spec_epoch(slot) >= network.spec_epoch_electra() {
        (ELECTRA_DEPTH_CURRENT_SYNC_COMMITTEE, INDEX_CURRENT_SYNC_COMMITTEE)
    } else {
        (DEPTH_CURRENT_SYNC_COMMITTEE, INDEX_CURRENT_SYNC_COMMITTEE)
    }
}

/// Depth and subtree index of the next sync committee for the fork that `slot`
/// falls in.
pub open spec fn spec_depth_index_next(network: Network, slot: u64) -> (u32, u32) {
    if spec_epoch(slot) >= network.spec_epoch_electra() {
        (ELECTRA_DEPTH_NEXT_SYNC_COMMITTEE, INDEX_NEXT_SYNC_COMMITTEE)
    } else {
        (DEPTH_NEXT_SYNC_COMMITTEE, INDEX_NEXT_SYNC_COMMITTEE)
    }
}

/// Depth and subtree index of the finalized root for the fork that `slot`
/// falls in.
pub open spec fn spec_depth_index_finality(network: Network, slot: u64) -> (u32, u32) {
    if spec_epoch(slot) >= network.spec_epoch_electra() {
        (ELECTRA_DEPTH_FINALITY, INDEX_FINALITY)
    } else {
        (DEPTH_FINALITY, INDEX_FINALITY)
    }
}

/// Returns the depth and subtree index under which a branch to the current
/// sync committee is checked.
pub fn depth_index_current(network: &Network, slot: u64) -> (place: (u32, u32))
    ensures
        place == spec_depth_index_current(*network, slot),
        spec_epoch(slot) < network.spec_epoch_electra() ==> place == (5u32, 22u32),
        spec_epoch(slot) >= network.spec_epoch_electra() ==> place == (6u32, 22u32),
{
    let epoch_electra = network.epoch_electra();
    let epoch = calculate_epoch(slot);
    if epoch >= epoch_electra {
        return (ELECTRA_DEPTH_CURRENT_SYNC_COMMITTEE, INDEX_CURRENT_SYNC_COMMITTEE);
    }
    (DEPTH_CURRENT_SYNC_COMMITTEE, INDEX_CURRENT_SYNC_COMMITTEE)
}

/// Returns the depth and subtree index under which a branch to the next sync
/// committee is checked.
pub fn depth_index_next(network: &Network, slot: u64) -> (place: (u32, u32))
    ensures
        place == spec_depth_index_next(*network, slot),
        spec_epoch(slot) < network.spec_epoch_electra() ==> place == (5u32, 23u32),
        spec_epoch(slot) >= network.spec_epoch_electra() ==> place == (6u32, 23u32),
{
    let epoch_electra = network.epoch_electra();
    let epoch = calculate_epoch(slot);
    if epoch >= epoch_electra {
        return (ELECTRA_DEPTH_NEXT_SYNC_COMMITTEE, INDEX_NEXT_SYNC_COMMITTEE);
    }
    (DEPTH_NEXT_SYNC_COMMITTEE, INDEX_NEXT_SYNC_COMMITTEE)
}

/// Returns the depth and subtree index under which a branch to the finalized
/// root is checked.
pub fn depth_index_finality(network: &Network, slot: u64) -> (place: (u32, u32))
    ensures
        place == spec_depth_index_finality(*network, slot),
        spec_epoch(slot) < network.spec_epoch_electra() ==> place == (6u32, 41u32),
        spec_epoch(slot) >= network.spec_epoch_electra() ==> place == (7u32, 41u32),
{
    let epoch_electra = network.epoch_electra();
    let epoch = calculate_epoch(slot);
    if epoch >= epoch_electra {
        return (ELECTRA_DEPTH_FINALITY, INDEX_FINALITY);
    }
    (DEPTH_FINALITY, INDEX_FINALITY)
}

/// Whether the branch proves that `committee` is the current sync committee of
/// the state that `attested_header` commits to.
pub open spec fn spec_is_current_committee_proof_valid(
    network: Network,
    attested_header: BeaconBlockHeader,
    committee: SyncCommittee,
    branch: Seq<[u8; 32]>,
) -> bool {
    let place = spec_depth_index_current(network, attested_header.slot);
    spec_is_valid_merkle_branch(
        committee.spec_tree_hash_root(),
        branch,
        place.0,
        place.1,
        attested_header.state_root@,
    )
}

/// Whether the branch proves that `finality_header` is the finalized header of
/// the state that `attested_header` commits to.
pub open spec fn spec_is_finality_proof_valid(
    network: Network,
    attested_header: BeaconBlockHeader,
    finality_header: BeaconBlockHeader,
    branch: Seq<[u8; 32]>,
) -> bool {
    let place = spec_depth_index_finality(network, attested_header.slot);
    spec_is_valid_merkle_branch(
        finality_header.spec_tree_hash_root(),
        branch,
        place.0,
        place.1,
        attested_header.state_root@,
    )
}

/// Whether the branch proves that `committee` is the next sync committee of the
/// state that `attested_header` commits to.
pub open spec fn spec_is_next_committee_proof_valid(
    network: Network,
    attested_header: BeaconBlockHeader,
    committee: SyncCommittee,
    branch: Seq<[u8; 32]>,
) -> bool {
    let place = spec_depth_index_next(network, attested_header.slot);
    spec_is_valid_merkle_branch(
        committee.spec_tree_hash_root(),
        branch,
        place.0,
        place.1,
        attested_header.state_root@,
    )
}

/// Checks a branch from the current sync committee to the attested state root.
pub fn is_current_committee_proof_valid(
    network: &Network,
    attested_header: &BeaconBlockHeader,
    current_committee: &SyncCommittee,
    current_committee_branch: &[[u8; 32]],
) -> (valid: bool)
    ensures
        valid == spec_is_current_committee_proof_valid(
            *network,
            *attested_header,
            *current_committee,
            current_committee_branch@,
        ),
{
    let (depth, index) = depth_index_current(network, attested_header.slot);
    let leaf_hash = current_committee.tree_hash_root();
    is_valid_merkle_branch(
        leaf_hash,
        current_committee_branch,
        depth,
        index,
        &attested_header.state_root,
    )
}

/// Checks a branch from the finalized header to the attested state root.
pub fn is_finality_proof_valid(
    network: &Network,
    attested_header: &BeaconBlockHeader,
    finality_header: &BeaconBlockHeader,
    finality_branch: &[[u8; 32]],
) -> (valid: bool)
    ensures
        valid == spec_is_finality_proof_valid(
            *network,
            *attested_header,
            *finality_header,
            finality_branch@,
        ),
{
    let (depth, index) = depth_index_finality(network, attested_header.slot);
    let leaf_hash = finality_header.tree_hash_root();
    is_valid_merkle_branch(leaf_hash, finality_branch, depth, index, &attested_header.state_root)
}

/// Checks a branch from the next sync committee to the attested state root.
pub fn is_next_committee_proof_valid(
    network: &Network,
    attested_header: &BeaconBlockHeader,
    next_committee: &SyncCommittee,
    next_committee_branch: &[[u8; 32]],
) -> (valid: bool)
    ensures
        valid == spec_is_next_committee_proof_valid(
            *network,
            *attested_header,
            *next_committee,
            next_committee_branch@,
        ),
{
    let (depth, index) = depth_index_next(network, attested_header.slot);
    let leaf_hash = next_committee.tree_hash_root();
    is_valid_merkle_branch(
        leaf_hash,
        next_committee_branch,
        depth,
        index,
        &attested_header.state_root,
    )
}

} // verus!
