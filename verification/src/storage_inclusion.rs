//! Inclusion of a storage value in the state trie of a block.
//!
//! The path starts at the state root that the block header names, goes
//! through branch nodes, each of which names the hash of the next node, and
//! ends in a leaf that holds the storage value or its hash.

use vstd::prelude::*;
use crate::beacon::hashes_equal;
use crate::common::ProofError;
use crate::hashing::{blake2_256, blake2_256_digest};
use crate::storage_inclusion::branch_parser::{
    copy_bytes, decoded_branch, spec_branch_nibbles, spec_branch_provable, BranchParser,
};
use crate::storage_inclusion::leaf_parser::{
    spec_leaf_nibbles, spec_leaf_provable, spec_leaf_type, spec_storage_data_hash, LeafParser,
};
use crate::storage_inclusion::nibble_parser::byte_at;

pub mod header_parser;
pub mod nibble_parser;
pub mod branch_parser;
pub mod leaf_parser;

verus! {

/// A branch node on a path, with the nibble under which the path goes on.
#[derive(Debug)]
pub struct BranchNodeData {
    pub data: Vec<u8>,
    pub child_nibble: u8,
}

/// A storage value is included in the state of a block.
#[derive(Debug)]
pub struct StorageInclusion {
    /// The encoded header of the block.
    pub block_header_data: Vec<u8>,
    /// The branch nodes of the path, from the root down.
    pub branch_node_data: Vec<BranchNodeData>,
    /// The leaf at the end of the path.
    pub leaf_node_data: Vec<u8>,
}

/// What the proof of a storage inclusion exposes.
#[derive(Debug)]
pub struct StorageInclusionPublicInputs {
    /// BLAKE2 hash of the encoded block header.
    pub block_header_hash: [u8; 32],
    /// BLAKE2 hash of the storage value.
    pub storage_data_hash: [u8; 32],
    /// The nibbles of the path from the root to the leaf.
    pub storage_address: Vec<u8>,
}

/// Number of bytes that the block number takes in an encoded header. The
/// number is written in the compact form, whose first byte tells the size in
/// its two lowest bits.
pub open spec fn spec_number_size(first_byte: u8) -> int {
    if first_byte % 4 == 0 {
        1
    } else if first_byte % 4 == 1 {
        2
    } else if first_byte % 4 == 2 {
        4
    } else {
        5 + first_byte / 4
    }
}

/// Where the state root starts in an encoded header: behind the hash of the
/// parent block and the block number.
pub open spec fn spec_state_root_offset(header: Seq<u8>) -> int {
    32 + spec_number_size(byte_at(header, 32))
}

/// The state root that an encoded header names, if the header is long enough
/// to hold one.
pub open spec fn spec_state_root(header: Seq<u8>) -> Option<Seq<u8>> {
    let offset = spec_state_root_offset(header);
    if offset + 32 <= header.len() {
        Some(header.subrange(offset, offset + 32))
    } else {
        None
    }
}

/// Finds where the state root starts in an encoded block header that is
/// long enough to hold one.
pub fn state_root_offset(header: &[u8]) -> (offset: Option<usize>)
    ensures
        offset is Some <==> spec_state_root(header@) is Some,
        offset matches Some(place) ==> place == spec_state_root_offset(header@) && place + 32
            <= header@.len(),
{
    if header.len() <= 32 {
        return None;
    }
    let first_byte = header[32];
    let number_size: usize = if first_byte % 4 == 0 {
        1
    } else if first_byte % 4 == 1 {
        2
    } else if first_byte % 4 == 2 {
        4
    } else {
        5 + (first_byte / 4) as usize
    };
    let offset = 32 + number_size;
    if header.len() < offset || header.len() - offset < 32 {
        return None;
    }
    Some(offset)
}

/// Reads the state root from an encoded block header.
pub fn state_root(header: &[u8]) -> (root: Option<[u8; 32]>)
    ensures
        root is Some <==> spec_state_root(header@) is Some,
        root matches Some(bytes) ==> spec_state_root(header@) == Some(bytes@),
{
    let offset = match state_root_offset(header) {
        Some(offset) => offset,
        None => {
            return None;
        },
    };
    let length = header.len();
    let mut root = [0u8; 32];
    let mut k: usize = 0;
    while k < 32
        invariant
            k <= 32,
            offset + 32 <= header@.len() <= usize::MAX,
            forall|j: int| 0 <= j < k ==> root@[j] == header@[offset + j],
        decreases 32 - k,
    {
        root[k] = header[offset + k];
        k += 1;
    }
    assert(root@ =~= header@.subrange(offset as int, offset + 32));
    Some(root)
}

/// The hash of the child that a provable branch node leads to.
pub open spec fn spec_child_hash(node: BranchNodeData) -> Seq<u8> {
    decoded_branch(node.data@).unwrap().0[node.child_nibble as int].unwrap().1
}

/// The hash that the node behind the branch nodes from number `from` on must
/// have, if each of them has the hash expected of it and leads on.
pub open spec fn spec_branches_lead(
    branches: Seq<BranchNodeData>,
    from: int,
    expected_hash: Seq<u8>,
) -> Option<Seq<u8>>
    decreases branches.len() - from,
{
    if from < 0 || from >= branches.len() {
        Some(expected_hash)
    } else {
        let node = branches[from];
        if blake2_256(node.data@) == expected_hash && spec_branch_provable(
            node.data@,
            node.child_nibble,
            decoded_branch(node.data@),
        ) {
            spec_branches_lead(branches, from + 1, spec_child_hash(node))
        } else {
            None
        }
    }
}

/// The nibbles of the path through the first `count` branch nodes.
pub open spec fn spec_branch_address(branches: Seq<BranchNodeData>, count: int) -> Seq<u8>
    decreases count,
{
    if count <= 0 {
        Seq::empty()
    } else {
        let node = branches[count - 1];
        spec_branch_address(branches, count - 1) + spec_branch_nibbles(node.data@).push(
            node.child_nibble,
        )
    }
}

impl StorageInclusion {
    /// Whether the inclusion can be proved: the header names a state root,
    /// the branch nodes lead from it to the leaf, each by its hash, and the
    /// leaf is well formed.
    pub open spec fn provable(&self) -> bool {
        match spec_state_root(self.block_header_data@) {
            Some(root) => match spec_branches_lead(self.branch_node_data@, 0, root) {
                Some(leaf_hash) => blake2_256(self.leaf_node_data@) == leaf_hash
                    && spec_leaf_provable(self.leaf_node_data@),
                None => false,
            },
            None => false,
        }
    }

    /// Returns what the proof of the inclusion exposes: the hash of the block
    /// header, the hash of the storage value, and the address of the value.
    pub fn prove(&self) -> (public_inputs: Result<StorageInclusionPublicInputs, ProofError>)
        ensures
            public_inputs is Ok <==> self.provable(),
            public_inputs matches Ok(exposed) ==> {
                &&& exposed.block_header_hash@ == blake2_256(self.block_header_data@)
                &&& exposed.storage_data_hash@ == spec_storage_data_hash(self.leaf_node_data@)
                &&& exposed.storage_address@ == spec_branch_address(
                    self.branch_node_data@,
                    self.branch_node_data@.len() as int,
                ) + spec_leaf_nibbles(
                    self.leaf_node_data@,
                    spec_leaf_type(self.leaf_node_data@).unwrap(),
                )
            },
            public_inputs matches Err(error) ==> error == ProofError::InvalidWitness,
    {
        let block_header_hash = blake2_256_digest(self.block_header_data.as_slice());
        let root = match state_root(self.block_header_data.as_slice()) {
            Some(root) => root,
            None => {
                return Err(ProofError::InvalidWitness);
            },
        };
        let mut expected_hash = root;
        let mut address: Vec<u8> = Vec::new();
        let mut i: usize = 0;
        while i < self.branch_node_data.len()
            invariant
                i <= self.branch_node_data@.len(),
                spec_state_root(self.block_header_data@) == Some(root@),
                spec_branches_lead(self.branch_node_data@, 0, root@) == spec_branches_lead(
                    self.branch_node_data@,
                    i as int,
                    expected_hash@,
                ),
                address@ == spec_branch_address(self.branch_node_data@, i as int),
            decreases self.branch_node_data@.len() - i,
        {
            let node = &self.branch_node_data[i];
            let node_hash = blake2_256_digest(node.data.as_slice());
            if !hashes_equal(&node_hash, &expected_hash) {
                return Err(ProofError::InvalidWitness);
            }
            let parser = BranchParser {
                node_data: copy_bytes(&node.data),
                claimed_child_node_nibble: node.child_nibble,
                partial_address_nibbles: address,
            };
            let parsed = match parser.prove() {
                Ok(parsed) => parsed,
                Err(error) => {
                    return Err(error);
                },
            };
            expected_hash = parsed.child_node_hash;
            address = parsed.resulting_partial_address;
            i += 1;
        }
        let leaf_hash = blake2_256_digest(self.leaf_node_data.as_slice());
        if !hashes_equal(&leaf_hash, &expected_hash) {
            return Err(ProofError::InvalidWitness);
        }
        let leaf = LeafParser {
            node_data: copy_bytes(&self.leaf_node_data),
            partial_address_nibbles: address,
        };
        let parsed = match leaf.prove() {
            Ok(parsed) => parsed,
            Err(error) => {
                return Err(error);
            },
        };
        Ok(
            StorageInclusionPublicInputs {
                block_header_hash,
                storage_data_hash: parsed.storage_data_hash,
                storage_address: parsed.final_address,
            },
        )
    }
}

/// A branch node as a chain client hands it out.
#[derive(Debug)]
pub struct RpcBranchNodeData {
    pub encoded_node: Vec<u8>,
    pub child_nibble: u8,
}

/// Turns an inclusion proof as a chain client hands it out, with its branch
/// nodes from the leaf up, into the statement to prove, with its branch nodes
/// from the root down.
pub fn parse_rpc_inclusion_proof(
    encoded_header: Vec<u8>,
    branch_nodes_data: Vec<RpcBranchNodeData>,
    encoded_leaf_node: Vec<u8>,
) -> (inclusion: StorageInclusion)
    ensures
        inclusion.block_header_data@ == encoded_header@,
        inclusion.leaf_node_data@ == encoded_leaf_node@,
        inclusion.branch_node_data@.len() == branch_nodes_data@.len(),
        forall|i: int|
            0 <= i < branch_nodes_data@.len() ==> (#[trigger] inclusion.branch_node_data@[i]).data@
                == branch_nodes_data@[branch_nodes_data@.len() - 1 - i].encoded_node@
                && inclusion.branch_node_data@[i].child_nibble
                == branch_nodes_data@[branch_nodes_data@.len() - 1 - i].child_nibble,
{
    let mut nodes = branch_nodes_data;
    let mut branch_node_data: Vec<BranchNodeData> = Vec::new();
    let total = nodes.len();
    while nodes.len() > 0
        invariant
            nodes@.len() + branch_node_data@.len() == total == branch_nodes_data@.len(),
            nodes@ == branch_nodes_data@.subrange(0, nodes@.len() as int),
            forall|i: int|
                0 <= i < branch_node_data@.len() ==> (#[trigger] branch_node_data@[i]).data@
                    == branch_nodes_data@[total - 1 - i].encoded_node@
                    && branch_node_data@[i].child_nibble == branch_nodes_data@[total - 1
                    - i].child_nibble,
        decreases nodes@.len(),
    {
        let node = nodes.pop().unwrap();
        assert(nodes@ =~= branch_nodes_data@.subrange(0, nodes@.len() as int));
        branch_node_data.push(
            BranchNodeData { data: node.encoded_node, child_nibble: node.child_nibble },
        );
    }
    StorageInclusion {
        block_header_data: encoded_header,
        branch_node_data,
        leaf_node_data: encoded_leaf_node,
    }
}

} // verus!
