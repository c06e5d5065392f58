//! Beacon-chain data that the light client reads, and its SSZ hash tree roots.

use vstd::prelude::*;
use vstd::bytes::{spec_u64_to_le_bytes, u64_to_le_bytes, lemma_auto_spec_u64_to_from_le_bytes};
use crate::hashing::{sha256, sha256_digest};

verus! {

/// Number of slots that make up one epoch.
pub const SLOTS_PER_EPOCH: u64 = 32;

/// Number of epochs that one sync committee serves.
pub const EPOCHS_PER_SYNC_COMMITTEE: u64 = 256;

/// Number of members of a sync committee.
pub const SYNC_COMMITTEE_SIZE: usize = 512;

/// The Ethereum networks that the bridge knows.
#[derive(Clone, Copy, Debug, PartialEq, Eq, Structural)]
pub enum Network {
    Mainnet,
    Sepolia,
    Holesky,
    Hoodi,
}

impl Network {
    /// First epoch in which the network runs the Electra fork.
    pub open spec fn spec_epoch_electra(self) -> u64 {
        match self {
            Network::Mainnet => 364_032,
            Network::Sepolia => 222_464,
            Network::Holesky => 115_968,
            Network::Hoodi => 2_048,
        }
    }

    /// First epoch in which the network runs the Electra fork.
    pub fn epoch_electra(&self) -> (epoch: u64)
        ensures
            epoch == self.spec_epoch_electra(),
    {
        match self {
            Network::Mainnet => 364_032,
            Network::Sepolia => 222_464,
            Network::Holesky => 115_968,
            Network::Hoodi => 2_048,
        }
    }
}

/// Epoch that a slot belongs to.
pub open spec fn spec_epoch(slot: u64) -> u64 {
    slot / SLOTS_PER_EPOCH
}

/// Sync-committee period that a slot belongs to.
pub open spec fn spec_period(slot: u64) -> u64 {
    spec_epoch(slot) / EPOCHS_PER_SYNC_COMMITTEE
}

/// Computes the epoch that `slot` belongs to.
pub fn calculate_epoch(slot: u64) -> (epoch: u64)
    ensures
        epoch == spec_epoch(slot),
{
    slot / SLOTS_PER_EPOCH
}

/// Computes the sync-committee period that `slot` belongs to.
pub fn calculate_period(slot: u64) -> (period: u64)
    ensures
        period == spec_period(slot),
{
    calculate_epoch(slot) / EPOCHS_PER_SYNC_COMMITTEE
}

/// The hash of two tree nodes laid side by side.
pub open spec fn hash_pair(left: Seq<u8>, right: Seq<u8>) -> Seq<u8> {
    sha256(left + right)
}

/// Thirty-two zero bytes: the SSZ chunk that pads a tree.
pub open spec fn zero_chunk() -> Seq<u8> {
    Seq::new(32, |i: int| 0u8)
}

/// SSZ chunk of a 64-bit number: its bytes, least significant first, then zeros.
pub open spec fn u64_chunk(value: u64) -> Seq<u8> {
    spec_u64_to_le_bytes(value) + Seq::new(24, |i: int| 0u8)
}

/// SSZ hash tree root of a 48-byte BLS public key: its two chunks hashed together.
pub open spec fn pubkey_root(key: Seq<u8>) -> Seq<u8> {
    hash_pair(key.subrange(0, 32), key.subrange(32, 48) + Seq::new(16, |i: int| 0u8))
}

/// Root of the full binary tree over `leaves`, whose number is a power of two.
pub open spec fn merkle_root(leaves: Seq<Seq<u8>>) -> Seq<u8>
    decreases leaves.len(),
{
    if leaves.len() <= 1 {
        if leaves.len() == 1 {
            leaves[0]
        } else {
            zero_chunk()
        }
    } else {
        let half = leaves.len() as int / 2;
        hash_pair(
            merkle_root(leaves.subrange(0, half)),
            merkle_root(leaves.subrange(half, leaves.len() as int)),
        )
    }
}

/// The layer above `layer`: each pair of neighbours hashed together.
pub open spec fn layer_above(layer: Seq<Seq<u8>>) -> Seq<Seq<u8>> {
    Seq::new(layer.len() / 2, |i: int| hash_pair(layer[2 * i], layer[2 * i + 1]))
}

/// Whether `n` is a power of two.
pub open spec fn is_power_of_two(n: nat) -> bool
    decreases n,
{
    n == 1 || (n > 1 && n % 2 == 0 && is_power_of_two(n / 2))
}

/// Hashing neighbours pairwise does not change the root of a full tree.
pub proof fn lemma_merkle_root_layer(layer: Seq<Seq<u8>>)
    requires
        is_power_of_two(layer.len()),
        layer.len() >= 2,
    ensures
        merkle_root(layer) == merkle_root(layer_above(layer)),
    decreases layer.len(),
{
    let n = layer.len() as int;
    let half = n / 2;
    let left = layer.subrange(0, half);
    let right = layer.subrange(half, n);
    let above = layer_above(layer);
    if n == 2 {
        assert(left.len() == 1 && right.len() == 1);
        assert(merkle_root(left) == layer[0]);
        assert(merkle_root(right) == layer[1]);
        assert(above.len() == 1);
    } else {
        assert(is_power_of_two(half as nat));
        assert(half >= 2) by {
            if half == 1 {
                assert(n == 2);
            }
        }
        assert(half % 2 == 0);
        lemma_merkle_root_layer(left);
        lemma_merkle_root_layer(right);
        let quarter = half / 2;
        assert(layer_above(left) =~= above.subrange(0, quarter));
        assert(layer_above(right) =~= above.subrange(quarter, half)) by {
            assert forall|i: int| 0 <= i < quarter implies layer_above(right)[i]
                == above.subrange(quarter, half)[i] by {
                assert(right[2 * i] == layer[2 * (i + quarter)]);
                assert(right[2 * i + 1] == layer[2 * (i + quarter) + 1]);
            }
        }
        assert(above.len() == half);
    }
}

/// Hashes two tree nodes laid side by side.
pub fn hash_nodes(left: &[u8; 32], right: &[u8; 32]) -> (parent: [u8; 32])
    ensures
        parent@ == hash_pair(left@, right@),
{
    let mut buffer = [0u8; 64];
    let mut i: usize = 0;
    while i < 32
        invariant
            i <= 32,
            forall|k: int| 0 <= k < i ==> buffer@[k] == left@[k],
            forall|k: int| 0 <= k < i ==> buffer@[32 + k] == right@[k],
        decreases 32 - i,
    {
        buffer[i] = left[i];
        buffer[32 + i] = right[i];
        i += 1;
    }
    assert(buffer@ =~= left@ + right@);
    sha256_digest(buffer.as_slice())
}

/// Whether two 32-byte values hold the same bytes.
pub fn hashes_equal(a: &[u8; 32], b: &[u8; 32]) -> (equal: bool)
    ensures
        equal == (a@ == b@),
{
    let mut i: usize = 0;
    while i < 32
        invariant
            i <= 32,
            forall|k: int| 0 <= k < i ==> a@[k] == b@[k],
        decreases 32 - i,
    {
        if a[i] != b[i] {
            return false;
        }
        i += 1;
    }
    assert(a@ =~= b@);
    true
}

/// Builds the SSZ chunk of a 64-bit number.
pub fn chunk_of_u64(value: u64) -> (chunk: [u8; 32])
    ensures
        chunk@ == u64_chunk(value),
{
    let bytes = u64_to_le_bytes(value);
    proof {
        lemma_auto_spec_u64_to_from_le_bytes();
    }
    let mut chunk = [0u8; 32];
    let mut i: usize = 0;
    while i < 8
        invariant
            i <= 8,
            bytes@.len() == 8,
            forall|k: int| 0 <= k < i ==> chunk@[k] == bytes@[k],
            forall|k: int| i <= k < 32 ==> chunk@[k] == 0,
        decreases 8 - i,
    {
        chunk[i] = bytes[i];
        i += 1;
    }
    assert(chunk@ =~= u64_chunk(value));
    chunk
}

/// Computes the SSZ hash tree root of a 48-byte public key.
pub fn hash_pubkey(key: &[u8; 48]) -> (root: [u8; 32])
    ensures
        root@ == pubkey_root(key@),
{
    let mut first = [0u8; 32];
    let mut second = [0u8; 32];
    let mut i: usize = 0;
    while i < 32
        invariant
            i <= 32,
            forall|k: int| 0 <= k < i ==> first@[k] == key@[k],
            forall|k: int| 0 <= k < i && k < 16 ==> second@[k] == key@[32 + k],
            forall|k: int| 16 <= k < 32 ==> second@[k] == 0,
        decreases 32 - i,
    {
        first[i] = key[i];
        if i < 16 {
            second[i] = key[32 + i];
        }
        i += 1;
    }
    assert(first@ =~= key@.subrange(0, 32));
    assert(second@ =~= key@.subrange(32, 48) + Seq::new(16, |i: int| 0u8));
    hash_nodes(&first, &second)
}

/// The byte strings that a list of 32-byte nodes holds.
pub open spec fn node_views(nodes: Seq<[u8; 32]>) -> Seq<Seq<u8>> {
    Seq::new(nodes.len(), |i: int| nodes[i]@)
}

/// Computes the root of the full binary tree over `leaves`.
pub fn compute_merkle_root(leaves: Vec<[u8; 32]>) -> (root: [u8; 32])
    requires
        is_power_of_two(leaves@.len()),
    ensures
        root@ == merkle_root(node_views(leaves@)),
{
    let mut layer = leaves;
    while layer.len() > 1
        invariant
            is_power_of_two(layer@.len()),
            merkle_root(node_views(layer@)) == merkle_root(node_views(leaves@)),
        decreases layer@.len(),
    {
        let mut above: Vec<[u8; 32]> = Vec::new();
        let count = layer.len() / 2;
        let mut i: usize = 0;
        while i < count
            invariant
                i <= count,
                count == layer@.len() / 2,
                layer@.len() % 2 == 0,
                layer@.len() <= usize::MAX,
                above@.len() == i,
                forall|k: int|
                    0 <= k < i ==> (#[trigger] above@[k])@ == hash_pair(
                        layer@[2 * k]@,
                        layer@[2 * k + 1]@,
                    ),
            decreases count - i,
        {
            assert(2 * i + 1 < layer@.len());
            let parent = hash_nodes(&layer[2 * i], &layer[2 * i + 1]);
            above.push(parent);
            i += 1;
        }
        proof {
            lemma_merkle_root_layer(node_views(layer@));
            assert(node_views(above@) =~= layer_above(node_views(layer@)));
        }
        layer = above;
    }
    assert(node_views(layer@).len() == 1);
    layer[0]
}

/// Header of a beacon block.
#[derive(Clone, Copy, Debug)]
pub struct BeaconBlockHeader {
    pub slot: u64,
    pub proposer_index: u64,
    pub parent_root: [u8; 32],
    pub state_root: [u8; 32],
    pub body_root: [u8; 32],
}

impl BeaconBlockHeader {
    /// SSZ hash tree root of the header: the root of the tree over its five
    /// fields, padded to eight leaves.
    pub open spec fn spec_tree_hash_root(self) -> Seq<u8> {
        hash_pair(
            hash_pair(
                hash_pair(u64_chunk(self.slot), u64_chunk(self.proposer_index)),
                hash_pair(self.parent_root@, self.state_root@),
            ),
            hash_pair(
                hash_pair(self.body_root@, zero_chunk()),
                hash_pair(zero_chunk(), zero_chunk()),
            ),
        )
    }

    /// Computes the SSZ hash tree root of the header.
    pub fn tree_hash_root(&self) -> (root: [u8; 32])
        ensures
            root@ == self.spec_tree_hash_root(),
    {
        let zero = [0u8; 32];
        assert(zero@ =~= zero_chunk());
        let slot = chunk_of_u64(self.slot);
        let proposer = chunk_of_u64(self.proposer_index);
        let first = hash_nodes(&slot, &proposer);
        let second = hash_nodes(&self.parent_root, &self.state_root);
        let third = hash_nodes(&self.body_root, &zero);
        let fourth = hash_nodes(&zero, &zero);
        let left = hash_nodes(&first, &second);
        let right = hash_nodes(&third, &fourth);
        hash_nodes(&left, &right)
    }
}

/// A sync committee: the public keys of its 512 members and their aggregate.
#[derive(Clone, Copy, Debug)]
pub struct SyncCommittee {
    pub pubkeys: [[u8; 48]; 512],
    pub aggregate_pubkey: [u8; 48],
}

impl SyncCommittee {
    /// Hash tree roots of the members' public keys, in order.
    pub open spec fn pubkey_roots(self) -> Seq<Seq<u8>> {
        Seq::new(512, |i: int| pubkey_root(self.pubkeys@[i]@))
    }

    /// SSZ hash tree root of the committee: the root over the members' keys
    /// hashed with the root of the aggregate key.
    pub open spec fn spec_tree_hash_root(self) -> Seq<u8> {
        hash_pair(merkle_root(self.pubkey_roots()), pubkey_root(self.aggregate_pubkey@))
    }

    /// Computes the SSZ hash tree root of the committee.
    pub fn tree_hash_root(&self) -> (root: [u8; 32])
        ensures
            root@ == self.spec_tree_hash_root(),
    {
        let mut roots: Vec<[u8; 32]> = Vec::new();
        let mut i: usize = 0;
        while i < 512
            invariant
                i <= 512,
                roots@.len() == i,
                forall|k: int|
                    0 <= k < i ==> (#[trigger] roots@[k])@ == pubkey_root(self.pubkeys@[k]@),
            decreases 512 - i,
        {
            let root = hash_pubkey(&self.pubkeys[i]);
            roots.push(root);
            i += 1;
        }
        assert(node_views(roots@) =~= self.pubkey_roots());
        assert(is_power_of_two(512)) by {
            reveal_with_fuel(is_power_of_two, 11);
        }
        let keys_root = compute_merkle_root(roots);
        let aggregate_root = hash_pubkey(&self.aggregate_pubkey);
        hash_nodes(&keys_root, &aggregate_root)
    }
}

} // verus!
