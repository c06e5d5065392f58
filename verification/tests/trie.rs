use bridge_core::bits::{array_to_bits, pad_byte_vec};
use bridge_core::common::ProofError;
use bridge_core::storage_inclusion::branch_parser::{
    metadata_from, parse_bitmap, parse_children, BranchParser, DecodedBranch, NodeChild,
};
use bridge_core::storage_inclusion::leaf_parser::hashed_data_parser;
use bridge_core::storage_inclusion::leaf_parser::inlined_data_parser;
use bridge_core::storage_inclusion::leaf_parser::LeafParser;
use bridge_core::storage_inclusion::nibble_parser;
use bridge_core::storage_inclusion::{
    parse_rpc_inclusion_proof, state_root, state_root_offset, RpcBranchNodeData, StorageInclusion,
};
use sp_core::{Blake2Hasher, Hasher, H256};
use sp_trie::{LayoutV1, TrieLayout};
use std::iter;
use trie_db::{node::Value, ChildReference, NibbleSlice, NodeCodec};

type TrieCodec = <LayoutV1<Blake2Hasher> as TrieLayout>::Codec;

const BLAKE2_DIGEST_SIZE: usize = 32;
const MAX_ADDRESS_NIBBLES: usize = 64;

fn single_claimed_child(
    hash: [u8; BLAKE2_DIGEST_SIZE],
    position: usize,
) -> [Option<ChildReference<H256>>; 16] {
    vec![None; position]
        .into_iter()
        .chain(iter::once(Some(ChildReference::Hash(H256(hash)))))
        .chain(iter::repeat(None))
        .take(16)
        .collect::<Vec<_>>()
        .try_into()
        .unwrap()
}

fn branch_test_case(
    nibbles: NibbleSlice,
    children: [Option<ChildReference<H256>>; 16],
    claimed_child_node_nibble: u8,
) {
    let node_data = TrieCodec::branch_node_nibbled(
        nibbles.right_iter(),
        nibbles.len(),
        children.into_iter(),
        None,
    );

    let claimed_child_hash =
        if let Some(ChildReference::Hash(hash)) = children[claimed_child_node_nibble as usize] {
            hash.0
        } else {
            panic!("Invalid claimed_child_node_nibble");
        };

    let circuit_input = BranchParser {
        node_data: node_data.clone(),
        claimed_child_node_nibble,
        partial_address_nibbles: vec![],
    };

    let nibble_count = nibbles.len();
    let expected_address_nibbles = (0..nibble_count)
        .map(|idx| nibbles.at(idx))
        .chain(std::iter::once(claimed_child_node_nibble))
        .collect::<Vec<_>>();

    let pis = circuit_input.prove().expect("Failed to prove");

    assert_eq!(
        pis.resulting_partial_address.len() as u64,
        expected_address_nibbles.len() as u64
    );
    assert_eq!(
        pad_byte_vec::<MAX_ADDRESS_NIBBLES>(pis.resulting_partial_address),
        pad_byte_vec::<MAX_ADDRESS_NIBBLES>(expected_address_nibbles)
    );
    assert_eq!(pis.child_node_hash, claimed_child_hash);
    assert_eq!(pis.node_data_length, node_data.len() as u64);
    assert_eq!(pis.node_data, node_data);
    assert!(pis.partial_address.is_empty());
}

#[test]
fn test_branch_node_parser_single_child() {
    branch_test_case(NibbleSlice::new(&[]), single_claimed_child([0; 32], 0), 0);

    branch_test_case(
        NibbleSlice::new(&[]),
        single_claimed_child([0xA; 32], 15),
        15,
    );
}

#[test]
fn test_branch_node_parser_all_children() {
    let all_children = [Some(ChildReference::Hash(H256([0; 32]))); 16];

    branch_test_case(NibbleSlice::new(&[]), all_children, 15);
}

#[test]
fn test_branch_node_parser_nibbles() {
    branch_test_case(
        NibbleSlice::new(&[0x22, 0xBB, 0x00, 0xDD]),
        single_claimed_child([0; 32], 0),
        0,
    );

    branch_test_case(
        NibbleSlice::new_offset(&[0x02, 0xBB, 0x00, 0xDD], 1),
        single_claimed_child([0; 32], 15),
        15,
    );
}

fn leaf_test_case(nibbles: NibbleSlice, data_hash: [u8; BLAKE2_DIGEST_SIZE]) {
    let node_data =
        TrieCodec::leaf_node(nibbles.right_iter(), nibbles.len(), Value::Node(&data_hash));

    let pis = LeafParser {
        node_data: node_data.clone(),
        partial_address_nibbles: vec![],
    }
    .prove()
    .expect("Failed to prove");

    let nibble_count = nibbles.len();
    let expected_address_nibbles = (0..nibble_count)
        .map(|idx| nibbles.at(idx))
        .collect::<Vec<_>>();

    assert_eq!(
        pis.final_address.len() as u64,
        expected_address_nibbles.len() as u64
    );
    assert_eq!(
        pad_byte_vec::<MAX_ADDRESS_NIBBLES>(pis.final_address),
        pad_byte_vec::<MAX_ADDRESS_NIBBLES>(expected_address_nibbles)
    );

    assert_eq!(
        &array_to_bits(&pis.storage_data_hash),
        &array_to_bits(&data_hash)[..]
    );
    assert_eq!(pis.node_data_length, node_data.len() as u64);
}

#[test]
fn test_leaf_node_parser() {
    leaf_test_case(NibbleSlice::new(&[]), [0; BLAKE2_DIGEST_SIZE]);

    leaf_test_case(NibbleSlice::new(&[1, 2, 3, 4]), [0x0D; BLAKE2_DIGEST_SIZE]);

    leaf_test_case(
        NibbleSlice::new_offset(&[0x0A, 0xBB, 0xDF], 1),
        [0xA1; BLAKE2_DIGEST_SIZE],
    );
}

#[test]
fn leaf_with_inline_value_exposes_the_hash_of_the_value() {
    let nibbles = NibbleSlice::new(&[0x12, 0x34]);
    let value = [7u8, 8, 9, 10, 11];
    let node_data = TrieCodec::leaf_node(nibbles.right_iter(), nibbles.len(), Value::Inline(&value));
    let pis = LeafParser {
        node_data,
        partial_address_nibbles: vec![0xF],
    }
    .prove()
    .expect("Failed to prove");
    assert_eq!(pis.storage_data_hash, Blake2Hasher::hash(&value).0);
    assert_eq!(pis.final_address, vec![0xF, 1, 2, 3, 4]);
    assert_eq!(pis.partial_address, vec![0xF]);
}

#[test]
fn leaf_with_trailing_data_is_rejected() {
    let nibbles = NibbleSlice::new(&[0x12]);
    let mut node_data =
        TrieCodec::leaf_node(nibbles.right_iter(), nibbles.len(), Value::Node(&[3; 32]));
    node_data.push(0);
    let result = LeafParser {
        node_data,
        partial_address_nibbles: vec![],
    }
    .prove();
    assert!(matches!(result, Err(ProofError::InvalidWitness)));
}

#[test]
fn leaf_that_is_cut_short_is_rejected() {
    let nibbles = NibbleSlice::new(&[0x12]);
    let mut node_data =
        TrieCodec::leaf_node(nibbles.right_iter(), nibbles.len(), Value::Node(&[3; 32]));
    node_data.pop();
    let result = LeafParser {
        node_data,
        partial_address_nibbles: vec![],
    }
    .prove();
    assert!(matches!(result, Err(ProofError::InvalidWitness)));
}

#[test]
fn data_that_is_no_leaf_is_rejected() {
    let branch = TrieCodec::branch_node_nibbled(
        iter::empty(),
        0,
        single_claimed_child([1; 32], 3).into_iter(),
        None,
    );
    let result = LeafParser {
        node_data: branch,
        partial_address_nibbles: vec![],
    }
    .prove();
    assert!(matches!(result, Err(ProofError::InvalidWitness)));
    let result = LeafParser {
        node_data: vec![],
        partial_address_nibbles: vec![],
    }
    .prove();
    assert!(matches!(result, Err(ProofError::InvalidWitness)));
}

#[test]
fn branch_with_absent_claimed_child_is_rejected() {
    let node_data = TrieCodec::branch_node_nibbled(
        iter::empty(),
        0,
        single_claimed_child([1; 32], 3).into_iter(),
        None,
    );
    let result = BranchParser {
        node_data,
        claimed_child_node_nibble: 4,
        partial_address_nibbles: vec![],
    }
    .prove();
    assert!(matches!(result, Err(ProofError::InvalidWitness)));
}

#[test]
fn branch_with_value_is_rejected() {
    let node_data = TrieCodec::branch_node_nibbled(
        iter::empty(),
        0,
        single_claimed_child([1; 32], 3).into_iter(),
        Some(Value::Inline(&[1, 2, 3])),
    );
    let result = BranchParser {
        node_data,
        claimed_child_node_nibble: 3,
        partial_address_nibbles: vec![],
    }
    .prove();
    assert!(matches!(result, Err(ProofError::InvalidWitness)));
}

#[test]
fn branch_with_nibble_out_of_range_is_rejected() {
    let node_data = TrieCodec::branch_node_nibbled(
        iter::empty(),
        0,
        single_claimed_child([1; 32], 3).into_iter(),
        None,
    );
    let result = BranchParser {
        node_data,
        claimed_child_node_nibble: 16,
        partial_address_nibbles: vec![],
    }
    .prove();
    assert!(matches!(result, Err(ProofError::InvalidWitness)));
}

#[test]
fn data_that_is_no_branch_is_rejected() {
    let nibbles = NibbleSlice::new(&[0x12]);
    let leaf = TrieCodec::leaf_node(nibbles.right_iter(), nibbles.len(), Value::Node(&[3; 32]));
    let result = BranchParser {
        node_data: leaf,
        claimed_child_node_nibble: 0,
        partial_address_nibbles: vec![],
    }
    .prove();
    assert!(matches!(result, Err(ProofError::InvalidWitness)));
}

#[test]
fn branch_with_inline_sibling_is_parsed() {
    let mut children = single_claimed_child([0x77; 32], 9);
    let mut inline = H256::zero();
    inline.0[..3].copy_from_slice(&[0xAA, 0xBB, 0xCC]);
    children[2] = Some(ChildReference::Inline(inline, 3));
    let nibbles = NibbleSlice::new(&[0x5E]);
    let node_data = TrieCodec::branch_node_nibbled(
        nibbles.right_iter(),
        nibbles.len(),
        children.into_iter(),
        None,
    );
    let parser = BranchParser {
        node_data: node_data.clone(),
        claimed_child_node_nibble: 9,
        partial_address_nibbles: vec![1, 2],
    };
    let metadata = parser.parse_metadata().expect("metadata");
    assert_eq!(metadata.children_lengths, vec![4, 33]);
    assert_eq!(metadata.claimed_child_index_in_array, 1);
    assert_eq!(metadata.claimed_child_hash, [0x77; 32]);
    assert_eq!(metadata.children_data_offset, node_data.len() - 37);
    let pis = parser.prove().expect("Failed to prove");
    assert_eq!(pis.resulting_partial_address, vec![1, 2, 5, 0xE, 9]);
    assert_eq!(pis.child_node_hash, [0x77; 32]);
}

#[test]
fn branch_with_inline_claimed_child_is_rejected() {
    let mut children = single_claimed_child([0x77; 32], 9);
    let mut inline = H256::zero();
    inline.0[..3].copy_from_slice(&[0xAA, 0xBB, 0xCC]);
    children[2] = Some(ChildReference::Inline(inline, 3));
    let node_data =
        TrieCodec::branch_node_nibbled(iter::empty(), 0, children.into_iter(), None);
    let result = BranchParser {
        node_data,
        claimed_child_node_nibble: 2,
        partial_address_nibbles: vec![],
    }
    .prove();
    assert!(matches!(result, Err(ProofError::InvalidWitness)));
}

#[test]
fn metadata_of_a_decoded_branch() {
    let mut children: Vec<Option<NodeChild>> = (0..16).map(|_| None).collect();
    children[1] = Some(NodeChild::Inline(vec![1, 2]));
    children[4] = Some(NodeChild::Hash(vec![9; 32]));
    children[15] = Some(NodeChild::Hash(vec![8; 32]));
    let decoded = DecodedBranch {
        children,
        has_value: false,
    };
    let metadata = metadata_from(&decoded, 100, 15).expect("metadata");
    assert_eq!(metadata.children_lengths, vec![3, 33, 33]);
    assert_eq!(metadata.children_data_offset, 100 - 69);
    assert_eq!(metadata.claimed_child_index_in_array, 2);
    assert_eq!(metadata.claimed_child_hash, [8; 32]);

    let metadata = metadata_from(&decoded, 100, 4).expect("metadata");
    assert_eq!(metadata.claimed_child_index_in_array, 1);
    assert_eq!(metadata.claimed_child_hash, [9; 32]);

    assert!(metadata_from(&decoded, 100, 1).is_none());
    assert!(metadata_from(&decoded, 100, 0).is_none());
    assert!(metadata_from(&decoded, 68, 4).is_none());
    assert!(metadata_from(&decoded, 69, 4).is_some());
}

#[test]
fn metadata_needs_sixteen_children_and_no_value() {
    let children: Vec<Option<NodeChild>> = (0..15)
        .map(|_| Some(NodeChild::Hash(vec![0; 32])))
        .collect();
    let decoded = DecodedBranch {
        children,
        has_value: false,
    };
    assert!(metadata_from(&decoded, 1000, 3).is_none());

    let children: Vec<Option<NodeChild>> = (0..16)
        .map(|_| Some(NodeChild::Hash(vec![0; 32])))
        .collect();
    let decoded = DecodedBranch {
        children,
        has_value: true,
    };
    assert!(metadata_from(&decoded, 1000, 3).is_none());

    let mut children: Vec<Option<NodeChild>> = (0..16)
        .map(|_| Some(NodeChild::Hash(vec![0; 32])))
        .collect();
    children[7] = Some(NodeChild::Inline(vec![0; 33]));
    let decoded = DecodedBranch {
        children,
        has_value: false,
    };
    assert!(metadata_from(&decoded, 1000, 3).is_none());
}

#[test]
fn bitmap_counts_children() {
    // children 0, 3 and 9 exist
    let data = [0xEE, 0b0000_1001, 0b0000_0010, 0x55];
    let parsed = parse_bitmap(&data, 1, 9);
    assert_eq!(parsed.resulting_offset, 3);
    assert_eq!(parsed.overall_children_amount, 3);
    assert_eq!(parsed.child_index_in_array, 2);
    let parsed = parse_bitmap(&data, 1, 0);
    assert_eq!(parsed.child_index_in_array, 0);
    let parsed = parse_bitmap(&data, 1, 15);
    assert_eq!(parsed.child_index_in_array, 3);
    let parsed = parse_bitmap(&[0xFF, 0xFF], 0, 15);
    assert_eq!(parsed.overall_children_amount, 16);
    assert_eq!(parsed.child_index_in_array, 15);
}

#[test]
fn children_are_walked_by_their_lengths() {
    let mut data = vec![0xAB, 2 << 2, 1, 2, 32 << 2];
    data.extend_from_slice(&[5; 32]);
    let parsed = parse_children(&data, 1, &vec![3, 33], 1, &[5; 32]).expect("children");
    assert_eq!(parsed.final_read_offset, data.len());
    assert_eq!(parsed.overall_children_amount, 2);
    assert!(parse_children(&data, 1, &vec![3, 33], 1, &[6; 32]).is_none());
    assert!(parse_children(&data, 1, &vec![3, 33], 0, &[5; 32]).is_none());
    assert!(parse_children(&data, 1, &vec![3, 33], 2, &[5; 32]).is_none());
    assert!(parse_children(&data, 1, &vec![4, 33], 1, &[5; 32]).is_none());
    assert!(parse_children(&data, 1, &vec![3, 33, 1], 1, &[5; 32]).is_none());
}

#[test]
fn nibbles_of_odd_and_even_runs() {
    let data = [0xFF, 0x0A, 0xBC, 0xDE];
    let parsed = nibble_parser::define(&data, 1, 5, &vec![7]);
    assert_eq!(parsed.partial_address, vec![7, 0xA, 0xB, 0xC, 0xD, 0xE]);
    assert_eq!(parsed.resulting_offset, 4);
    let parsed = nibble_parser::define(&data, 2, 4, &vec![]);
    assert_eq!(parsed.partial_address, vec![0xB, 0xC, 0xD, 0xE]);
    assert_eq!(parsed.resulting_offset, 4);
    let parsed = nibble_parser::define(&data, 3, 0, &vec![1, 2]);
    assert_eq!(parsed.partial_address, vec![1, 2]);
    assert_eq!(parsed.resulting_offset, 3);
    // behind the end of the data a node reads as zeros
    let parsed = nibble_parser::define(&data, 3, 4, &vec![]);
    assert_eq!(parsed.partial_address, vec![0xD, 0xE, 0, 0]);
    assert_eq!(parsed.resulting_offset, 5);
    assert_eq!(nibble_parser::read_byte(&data, 3), 0xDE);
    assert_eq!(nibble_parser::read_byte(&data, 4), 0);
}

#[test]
fn hashed_data_is_read_at_the_offset() {
    let mut data = vec![1, 2, 3];
    data.extend_from_slice(&[0x3C; 32]);
    let parsed = hashed_data_parser::define(&data, 3);
    assert_eq!(parsed.data_hash, [0x3C; 32]);
    assert_eq!(parsed.resulting_offset, 35);
    let parsed = hashed_data_parser::define(&data, 4);
    let mut expected = [0x3C; 32];
    expected[31] = 0;
    assert_eq!(parsed.data_hash, expected);
}

#[test]
fn inlined_data_is_hashed() {
    let data = [0xFF, 3 << 2, 10, 20, 30, 40];
    let parsed = inlined_data_parser::define(&data, 1).expect("inline data");
    assert_eq!(parsed.resulting_offset, 5);
    assert_eq!(parsed.data_hash, Blake2Hasher::hash(&[10, 20, 30]).0);
    assert!(inlined_data_parser::define(&[0b0000_0101, 1], 0).is_none());
    let parsed = inlined_data_parser::define(&[0], 0).expect("empty value");
    assert_eq!(parsed.resulting_offset, 1);
    assert_eq!(parsed.data_hash, Blake2Hasher::hash(&[]).0);
}

fn encoded_header(number_bytes: &[u8], state_root: [u8; 32]) -> Vec<u8> {
    let mut header = vec![0x11; 32];
    header.extend_from_slice(number_bytes);
    header.extend_from_slice(&state_root);
    header.extend_from_slice(&[0x22; 32]);
    header.push(0);
    header
}

#[test]
fn state_root_stands_behind_the_block_number() {
    let root = [0x9A; 32];
    assert_eq!(state_root(&encoded_header(&[5 << 2], root)), Some(root));
    assert_eq!(state_root(&encoded_header(&[0x01, 0x01], root)), Some(root));
    assert_eq!(
        state_root(&encoded_header(&[0x02, 0x00, 0x01, 0x00], root)),
        Some(root)
    );
    assert_eq!(
        state_root(&encoded_header(&[0x03, 0xFF, 0xFF, 0xFF, 0xFF], root)),
        Some(root)
    );
    assert_eq!(state_root(&[0x11; 32]), None);
    assert_eq!(state_root(&[0x11; 64]), None);
    assert_eq!(state_root(&[]), None);
}

struct Path {
    inclusion: StorageInclusion,
    storage_data_hash: [u8; 32],
    address: Vec<u8>,
}

fn sample_path() -> Path {
    let storage_data_hash = [0x5D; 32];
    let leaf_nibbles = NibbleSlice::new(&[0xAB, 0xCD]);
    let leaf = TrieCodec::leaf_node(
        leaf_nibbles.right_iter(),
        leaf_nibbles.len(),
        Value::Node(&storage_data_hash),
    );
    let lower_nibbles = NibbleSlice::new_offset(&[0x07], 1);
    let lower = TrieCodec::branch_node_nibbled(
        lower_nibbles.right_iter(),
        lower_nibbles.len(),
        single_claimed_child(Blake2Hasher::hash(&leaf).0, 3).into_iter(),
        None,
    );
    let mut upper_children = single_claimed_child(Blake2Hasher::hash(&lower).0, 12);
    upper_children[1] = Some(ChildReference::Hash(H256([0x42; 32])));
    let upper =
        TrieCodec::branch_node_nibbled(iter::empty(), 0, upper_children.into_iter(), None);
    let header = encoded_header(&[0x02, 0x00, 0x01, 0x00], Blake2Hasher::hash(&upper).0);
    Path {
        inclusion: StorageInclusion {
            block_header_data: header,
            branch_node_data: vec![
                bridge_core::storage_inclusion::BranchNodeData {
                    data: upper,
                    child_nibble: 12,
                },
                bridge_core::storage_inclusion::BranchNodeData {
                    data: lower,
                    child_nibble: 3,
                },
            ],
            leaf_node_data: leaf,
        },
        storage_data_hash,
        address: vec![12, 7, 3, 0xA, 0xB, 0xC, 0xD],
    }
}

#[test]
fn valid_path_exposes_header_hash_and_data_hash() {
    let path = sample_path();
    let pis = path.inclusion.prove().expect("Failed to prove");
    assert_eq!(
        pis.block_header_hash,
        Blake2Hasher::hash(&path.inclusion.block_header_data).0
    );
    assert_eq!(pis.storage_data_hash, path.storage_data_hash);
    assert_eq!(pis.storage_address, path.address);
}

#[test]
fn path_with_tampered_nibble_is_rejected() {
    let mut path = sample_path();
    path.inclusion.branch_node_data[0].child_nibble = 1;
    assert!(matches!(
        path.inclusion.prove(),
        Err(ProofError::InvalidWitness)
    ));
    let mut path = sample_path();
    path.inclusion.branch_node_data[1].child_nibble = 4;
    assert!(matches!(
        path.inclusion.prove(),
        Err(ProofError::InvalidWitness)
    ));
}

#[test]
fn path_with_tampered_child_hash_is_rejected() {
    let mut path = sample_path();
    let last = path.inclusion.branch_node_data[1].data.len() - 1;
    path.inclusion.branch_node_data[1].data[last] ^= 1;
    assert!(matches!(
        path.inclusion.prove(),
        Err(ProofError::InvalidWitness)
    ));
}

#[test]
fn path_with_tampered_header_is_rejected() {
    let mut path = sample_path();
    path.inclusion.block_header_data[40] ^= 1;
    assert!(matches!(
        path.inclusion.prove(),
        Err(ProofError::InvalidWitness)
    ));
}

#[test]
fn tampered_header_byte_outside_the_root_changes_the_header_hash() {
    let path = sample_path();
    let before = path.inclusion.prove().expect("Failed to prove");
    let mut path = sample_path();
    path.inclusion.block_header_data[0] ^= 1;
    let after = path.inclusion.prove().expect("Failed to prove");
    assert_ne!(before.block_header_hash, after.block_header_hash);
}

#[test]
fn path_with_tampered_leaf_is_rejected() {
    let mut path = sample_path();
    let last = path.inclusion.leaf_node_data.len() - 1;
    path.inclusion.leaf_node_data[last] ^= 1;
    assert!(matches!(
        path.inclusion.prove(),
        Err(ProofError::InvalidWitness)
    ));
}

#[test]
fn path_without_branches_needs_the_leaf_as_root() {
    let leaf_nibbles = NibbleSlice::new(&[0xAB]);
    let leaf = TrieCodec::leaf_node(
        leaf_nibbles.right_iter(),
        leaf_nibbles.len(),
        Value::Node(&[1; 32]),
    );
    let inclusion = StorageInclusion {
        block_header_data: encoded_header(&[4], Blake2Hasher::hash(&leaf).0),
        branch_node_data: vec![],
        leaf_node_data: leaf,
    };
    let pis = inclusion.prove().expect("Failed to prove");
    assert_eq!(pis.storage_data_hash, [1; 32]);
    assert_eq!(pis.storage_address, vec![0xA, 0xB]);
}

#[test]
fn rpc_proof_lists_branches_from_the_leaf_up() {
    let inclusion = parse_rpc_inclusion_proof(
        vec![1, 2, 3],
        vec![
            RpcBranchNodeData {
                encoded_node: vec![10],
                child_nibble: 1,
            },
            RpcBranchNodeData {
                encoded_node: vec![20, 21],
                child_nibble: 2,
            },
            RpcBranchNodeData {
                encoded_node: vec![30],
                child_nibble: 3,
            },
        ],
        vec![9, 9],
    );
    assert_eq!(inclusion.block_header_data, vec![1, 2, 3]);
    assert_eq!(inclusion.leaf_node_data, vec![9, 9]);
    let branches: Vec<(Vec<u8>, u8)> = inclusion
        .branch_node_data
        .into_iter()
        .map(|node| (node.data, node.child_nibble))
        .collect();
    assert_eq!(
        branches,
        vec![(vec![30], 3), (vec![20, 21], 2), (vec![10], 1)]
    );
}

#[test]
fn state_root_offset_counts_the_bytes_of_the_block_number() {
    let root = [0x9A; 32];
    assert_eq!(state_root_offset(&encoded_header(&[5 << 2], root)), Some(33));
    assert_eq!(state_root_offset(&encoded_header(&[0x01, 0x01], root)), Some(34));
    assert_eq!(
        state_root_offset(&encoded_header(&[0x02, 0x00, 0x01, 0x00], root)),
        Some(36)
    );
    assert_eq!(
        state_root_offset(&encoded_header(&[0x03, 0xFF, 0xFF, 0xFF, 0xFF], root)),
        Some(37)
    );
    assert_eq!(state_root_offset(&[0x11; 64]), None);
    assert_eq!(state_root_offset(&[]), None);
}
