//! A leaf node of the state trie holds the storage value at the end of a path.
//!
//! A leaf holds its header, its partial key, and then either the hash of the
//! value or, behind its length, the value itself. Nothing may follow.

use vstd::prelude::*;
use crate::common::ProofError;
use crate::consts::BLAKE2_DIGEST_SIZE;
use crate::storage_inclusion::header_parser;
use crate::storage_inclusion::header_parser::HeaderDescriptor;
use crate::storage_inclusion::nibble_parser;
use crate::storage_inclusion::nibble_parser::{byte_at, read_byte, spec_nibble_bytes, spec_nibbles};

pub mod hashed_data_parser;
pub mod inlined_data_parser;

verus! {

/// A leaf node at the end of the path to a storage value.
#[derive(Debug)]
pub struct LeafParser {
    /// The node as it is stored.
    pub node_data: Vec<u8>,
    /// The nibbles of the path before this node.
    pub partial_address_nibbles: Vec<u8>,
}

/// The two kinds of leaf.
#[derive(Clone, Copy, Debug, PartialEq, Eq, Structural)]
pub enum LeafType {
    /// The value stands in the leaf.
    Leaf,
    /// The hash of the value stands in the leaf.
    HashedValueLeaf,
}

/// What the proof of a leaf node exposes.
#[derive(Debug)]
pub struct LeafParserPublicInputs {
    /// The node as it is stored; a circuit pads it with zeros.
    pub node_data: Vec<u8>,
    /// Number of bytes of the node.
    pub node_data_length: u64,
    /// BLAKE2 hash of the storage value.
    pub storage_data_hash: [u8; BLAKE2_DIGEST_SIZE],
    /// The nibbles of the path before this node.
    pub partial_address: Vec<u8>,
    /// The nibbles of the whole path: those before this node and its partial
    /// key.
    pub final_address: Vec<u8>,
}

/// The kind of leaf that `node_data` starts as, if it starts as one. The
/// prefix of a leaf with a hashed value is looked for first.
pub open spec fn spec_leaf_type(node_data: Seq<u8>) -> Option<LeafType> {
    if node_data.len() > 0 && HeaderDescriptor::spec_hashed_value_leaf().spec_prefix_matches(
        node_data[0],
    ) {
        Some(LeafType::HashedValueLeaf)
    } else if node_data.len() > 0 && HeaderDescriptor::spec_leaf().spec_prefix_matches(
        node_data[0],
    ) {
        Some(LeafType::Leaf)
    } else {
        None
    }
}

/// The descriptor of a kind of leaf.
pub open spec fn spec_descriptor(leaf_type: LeafType) -> HeaderDescriptor {
    match leaf_type {
        LeafType::HashedValueLeaf => HeaderDescriptor::spec_hashed_value_leaf(),
        LeafType::Leaf => HeaderDescriptor::spec_leaf(),
    }
}

/// Where the value or its hash starts in a leaf, if the leaf has a header.
pub open spec fn spec_data_offset(node_data: Seq<u8>, leaf_type: LeafType) -> Option<int> {
    match header_parser::spec_define(
        byte_at(node_data, 0),
        byte_at(node_data, 1),
        spec_descriptor(leaf_type),
    ) {
        Some(header) => Some(
            header.resulting_offset + spec_nibble_bytes(header.nibble_count as int),
        ),
        None => None,
    }
}

/// The partial key of a leaf.
pub open spec fn spec_leaf_nibbles(node_data: Seq<u8>, leaf_type: LeafType) -> Seq<u8> {
    let header = header_parser::spec_define(
        byte_at(node_data, 0),
        byte_at(node_data, 1),
        spec_descriptor(leaf_type),
    ).unwrap();
    spec_nibbles(node_data, header.resulting_offset as int, header.nibble_count as int)
}

/// Whether a leaf node can be proved: it starts as a leaf of one of the two
/// kinds, its header is read, and its value or the hash of its value ends
/// where the node ends.
pub open spec fn spec_leaf_provable(node_data: Seq<u8>) -> bool {
    match spec_leaf_type(node_data) {
        Some(leaf_type) => match spec_data_offset(node_data, leaf_type) {
            Some(offset) => match leaf_type {
                LeafType::HashedValueLeaf => offset + 32 == node_data.len(),
                LeafType::Leaf => inlined_data_parser::spec_define(node_data, offset) is Some
                    && inlined_data_parser::spec_define(node_data, offset).unwrap().0
                    == node_data.len(),
            },
            None => false,
        },
        None => false,
    }
}

/// The hash of the storage value that a provable leaf holds.
pub open spec fn spec_storage_data_hash(node_data: Seq<u8>) -> Seq<u8> {
    let leaf_type = spec_leaf_type(node_data).unwrap();
    let offset = spec_data_offset(node_data, leaf_type).unwrap();
    match leaf_type {
        LeafType::HashedValueLeaf => hashed_data_parser::spec_data_hash(node_data, offset),
        LeafType::Leaf => inlined_data_parser::spec_define(node_data, offset).unwrap().1,
    }
}

impl LeafParser {
    /// Whether the leaf can be proved.
    pub open spec fn provable(&self) -> bool {
        spec_leaf_provable(self.node_data@)
    }

    /// Returns what the proof of the leaf exposes. Data that does not start
    /// as a leaf, or that goes on behind the value, has no proof.
    pub fn prove(self) -> (public_inputs: Result<LeafParserPublicInputs, ProofError>)
        ensures
            public_inputs is Ok <==> self.provable(),
            public_inputs matches Ok(exposed) ==> {
                &&& exposed.node_data@ == self.node_data@
                &&& exposed.node_data_length == self.node_data@.len()
                &&& exposed.storage_data_hash@ == spec_storage_data_hash(self.node_data@)
                &&& exposed.partial_address@ == self.partial_address_nibbles@
                &&& exposed.final_address@ == self.partial_address_nibbles@ + spec_leaf_nibbles(
                    self.node_data@,
                    spec_leaf_type(self.node_data@).unwrap(),
                )
            },
            public_inputs matches Err(error) ==> error == ProofError::InvalidWitness,
    {
        proof {
            HeaderDescriptor::lemma_kinds_well_formed();
        }
        let node_length = self.node_data.len();
        let (leaf_type, header_descriptor) = if HeaderDescriptor::hashed_value_leaf().prefix_matches(
            self.node_data.as_slice(),
        ) {
            (LeafType::HashedValueLeaf, HeaderDescriptor::hashed_value_leaf())
        } else if HeaderDescriptor::leaf().prefix_matches(self.node_data.as_slice()) {
            (LeafType::Leaf, HeaderDescriptor::leaf())
        } else {
            return Err(ProofError::InvalidWitness);
        };
        let first_bytes = [
            read_byte(self.node_data.as_slice(), 0),
            read_byte(self.node_data.as_slice(), 1),
        ];
        let parsed_header = match header_parser::define(first_bytes, header_descriptor) {
            Some(header) => header,
            None => {
                return Err(ProofError::InvalidWitness);
            },
        };
        let parsed_nibbles = nibble_parser::define(
            self.node_data.as_slice(),
            parsed_header.resulting_offset as usize,
            parsed_header.nibble_count as usize,
            &self.partial_address_nibbles,
        );
        let (resulting_offset, data_hash) = match leaf_type {
            LeafType::HashedValueLeaf => {
                let parsed_data = hashed_data_parser::define(
                    self.node_data.as_slice(),
                    parsed_nibbles.resulting_offset,
                );
                (parsed_data.resulting_offset, parsed_data.data_hash)
            },
            LeafType::Leaf => {
                let parsed_data = match inlined_data_parser::define(
                    self.node_data.as_slice(),
                    parsed_nibbles.resulting_offset,
                ) {
                    Some(parsed) => parsed,
                    None => {
                        return Err(ProofError::InvalidWitness);
                    },
                };
                (parsed_data.resulting_offset, parsed_data.data_hash)
            },
        };
        if resulting_offset != node_length {
            return Err(ProofError::InvalidWitness);
        }
        let partial_address = crate::storage_inclusion::branch_parser::copy_bytes(
            &self.partial_address_nibbles,
        );
        Ok(
            LeafParserPublicInputs {
                node_data_length: node_length as u64,
                node_data: self.node_data,
                storage_data_hash: data_hash,
                partial_address,
                final_address: parsed_nibbles.partial_address,
            },
        )
    }
}

} // verus!
