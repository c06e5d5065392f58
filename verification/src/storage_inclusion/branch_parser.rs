//! A branch node of the state trie leads to the child with a claimed hash.
//!
//! A branch node holds its header, its partial key, a bitmap of two bytes that
//! tells which of its sixteen children exist, and the children that exist one
//! after another, each behind its length. The child under the claimed nibble
//! must be the hash of the node that follows on the path.

use vstd::prelude::*;
use crate::bits::two_to;
use crate::common::ProofError;
use crate::consts::BLAKE2_DIGEST_SIZE;
use crate::storage_inclusion::header_parser;
use crate::storage_inclusion::header_parser::HeaderDescriptor;
use crate::storage_inclusion::nibble_parser;
use crate::storage_inclusion::nibble_parser::{
    byte_at, read_byte, read_byte_behind, spec_nibble_bytes, spec_nibbles,
};

verus! {

/// A child of a decoded branch node.
#[derive(Debug)]
pub enum NodeChild {
    /// The hash of a node kept elsewhere.
    Hash(Vec<u8>),
    /// The data of a node kept inside its parent.
    Inline(Vec<u8>),
}

impl NodeChild {
    /// Whether the child is a hash, and its bytes.
    pub open spec fn view(&self) -> (bool, Seq<u8>) {
        match self {
            NodeChild::Hash(hash) => (true, hash@),
            NodeChild::Inline(data) => (false, data@),
        }
    }
}

/// A branch node as the trie's own codec reads it.
#[derive(Debug)]
pub struct DecodedBranch {
    /// The sixteen children, by nibble.
    pub children: Vec<Option<NodeChild>>,
    /// Whether the node holds a value of its own.
    pub has_value: bool,
}

/// The plain form of an optional child.
pub open spec fn child_view(child: Option<NodeChild>) -> Option<(bool, Seq<u8>)> {
    match child {
        Some(child) => Some(child@),
        None => None,
    }
}

impl DecodedBranch {
    /// The children in plain form, and whether the node holds a value.
    pub open spec fn view(&self) -> (Seq<Option<(bool, Seq<u8>)>>, bool) {
        (Seq::new(self.children@.len(), |i: int| child_view(self.children@[i])), self.has_value)
    }
}

/// What the codec of the state trie reads from `node_data`, where it reads a
/// branch node with a partial key: for each of the sixteen nibbles the child,
/// if there is one, as a pair that tells whether it is a hash and gives its
/// bytes; and whether the node holds a value.
pub uninterp spec fn decoded_branch(node_data: Seq<u8>) -> Option<
    (Seq<Option<(bool, Seq<u8>)>>, bool),
>;

/// Calls `decode` of `sp_trie::NodeCodec` over the BLAKE2 hasher. The contract
/// claims that the answer depends on the bytes alone, that it is `None` where
/// the codec fails or reads another kind of node, and that a branch has
/// sixteen places for children.
#[verifier::external_body]
pub(crate) fn decode_branch(node_data: &[u8]) -> (decoded: Option<DecodedBranch>)
    ensures
        decoded matches Some(branch) ==> decoded_branch(node_data@) == Some(branch@)
            && branch.children@.len() == 16,
        decoded is None ==> decoded_branch(node_data@) is None,
{
    let node = <sp_trie::NodeCodec<sp_core::Blake2Hasher> as trie_db::NodeCodec>::decode(node_data);
    let Ok(trie_db::node::Node::NibbledBranch(_, children, value)) = node else { return None };
    let children = children.iter().map(|child| match child {
        Some(trie_db::node::NodeHandle::Hash(hash)) => Some(NodeChild::Hash(hash.to_vec())),
        Some(trie_db::node::NodeHandle::Inline(data)) => Some(NodeChild::Inline(data.to_vec())),
        None => None,
    }).collect();
    Some(DecodedBranch { children, has_value: value.is_some() })
}

/// What the prover learns from decoding a branch node.
#[derive(Debug)]
pub struct Metadata {
    /// Where the children start in the node data.
    pub children_data_offset: usize,
    /// Number of bytes that each child takes, in order.
    pub children_lengths: Vec<usize>,
    /// Place of the claimed child among the children that exist.
    pub claimed_child_index_in_array: usize,
    /// Hash of the claimed child.
    pub claimed_child_hash: [u8; BLAKE2_DIGEST_SIZE],
}

/// Number of bytes that a byte string of `length` bytes takes when it is
/// written behind its length, the length in the compact form: one byte for a
/// length below 64, two below 16384, four below 2^30.
pub open spec fn spec_encoded_size(length: nat) -> nat {
    length + if length < 64 {
        1nat
    } else if length < 16_384 {
        2nat
    } else if length < 1_073_741_824 {
        4nat
    } else {
        5nat
    }
}

/// Calls `encode` of `parity_scale_codec` on a byte string and measures what
/// comes out. The contract claims that the bytes come out behind their
/// length in the compact form, as the crate's source has it; lengths of 2^30
/// and more are left out.
#[verifier::external_body]
pub(crate) fn encoded_size(data: &[u8]) -> (size: usize)
    requires
        data@.len() < 1_073_741_824,
    ensures
        size == spec_encoded_size(data@.len()),
{
    parity_scale_codec::Encode::encode(data).len()
}

/// Number of bytes that a child takes in the node data: its bytes behind
/// their length.
pub open spec fn spec_child_length(child: (bool, Seq<u8>)) -> int {
    spec_encoded_size(child.1.len()) as int
}

/// Whether a child can be handed to the circuit: a hash has 32 bytes, inline
/// data at most 32.
pub open spec fn child_supported(child: (bool, Seq<u8>)) -> bool {
    if child.0 {
        child.1.len() == 32
    } else {
        child.1.len() <= 32
    }
}

/// The lengths of the children that exist among the first `count` places.
pub open spec fn spec_children_lengths(children: Seq<Option<(bool, Seq<u8>)>>, count: int) -> Seq<
    int,
>
    decreases count,
{
    if count <= 0 {
        Seq::empty()
    } else {
        let before = spec_children_lengths(children, count - 1);
        match children[count - 1] {
            Some(child) => before.push(spec_child_length(child)),
            None => before,
        }
    }
}

/// The sum of a list of lengths.
pub open spec fn spec_total(lengths: Seq<int>) -> int
    decreases lengths.len(),
{
    if lengths.len() == 0 {
        0
    } else {
        spec_total(lengths.drop_last()) + lengths.last()
    }
}

/// Whether every child among the first `count` places can be handed to the
/// circuit.
pub open spec fn children_supported(children: Seq<Option<(bool, Seq<u8>)>>, count: int) -> bool {
    forall|i: int|
        0 <= i < count ==> (#[trigger] children[i] matches Some(child) ==> child_supported(child))
}

/// Whether a decoded branch node can be proved to lead to the child under
/// `nibble`: the node holds no value, every child can be handed to the
/// circuit, the child under the nibble exists and is a hash, and the children
/// fit in the node.
pub open spec fn metadata_exists(
    node_length: int,
    nibble: u8,
    decoded: Option<(Seq<Option<(bool, Seq<u8>)>>, bool)>,
) -> bool {
    match decoded {
        Some((children, has_value)) => {
            &&& children.len() == 16
            &&& !has_value
            &&& nibble < 16
            &&& children_supported(children, 16)
            &&& children[nibble as int] matches Some(child) && child.0
            &&& spec_total(spec_children_lengths(children, 16)) <= node_length
        },
        None => false,
    }
}

/// The lengths of a list written as numbers of the machine.
pub open spec fn lengths_view(lengths: Seq<usize>) -> Seq<int> {
    Seq::new(lengths.len(), |i: int| lengths[i] as int)
}

/// Whether `metadata` is what decoding a branch node gives for the child under
/// `nibble`.
pub open spec fn is_metadata_of(
    metadata: Metadata,
    node_length: int,
    nibble: u8,
    children: Seq<Option<(bool, Seq<u8>)>>,
) -> bool {
    &&& lengths_view(metadata.children_lengths@) == spec_children_lengths(children, 16)
    &&& metadata.children_data_offset == node_length - spec_total(
        spec_children_lengths(children, 16),
    )
    &&& metadata.claimed_child_index_in_array == spec_children_lengths(
        children,
        nibble as int,
    ).len()
    &&& children[nibble as int] matches Some(child) && metadata.claimed_child_hash@ == child.1
}

/// Whether child number `child` exists according to the bitmap at
/// `read_offset`: the bitmap is a number of sixteen bits, least significant
/// byte first, and bit `child` of it stands for the child.
pub open spec fn spec_child_present(data: Seq<u8>, read_offset: int, child: int) -> bool {
    (byte_at(data, read_offset + child / 8) as int / two_to((child % 8) as nat)) % 2 == 1
}

/// Number of children that exist among the first `count` according to the
/// bitmap at `read_offset`.
pub open spec fn spec_children_before(data: Seq<u8>, read_offset: int, count: int) -> int
    decreases count,
{
    if count <= 0 {
        0
    } else {
        spec_children_before(data, read_offset, count - 1) + if spec_child_present(
            data,
            read_offset,
            count - 1,
        ) {
            1int
        } else {
            0
        }
    }
}

/// What parsing the bitmap of a branch node gives.
#[derive(Clone, Copy, Debug, PartialEq, Eq, Structural)]
pub struct BitmapParserOutput {
    /// Where the children start.
    pub resulting_offset: usize,
    /// Number of children that exist.
    pub overall_children_amount: usize,
    /// Number of children that exist before the claimed one.
    pub child_index_in_array: usize,
}

/// Reads the bitmap of a branch node: counts the children that exist, and
/// those of them that come before the claimed nibble.
pub fn parse_bitmap(node_data: &[u8], read_offset: usize, claimed_child_node_nibble: u8) -> (output:
    BitmapParserOutput)
    requires
        read_offset + 2 <= usize::MAX,
        claimed_child_node_nibble < 16,
    ensures
        output.resulting_offset == read_offset + 2,
        output.overall_children_amount == spec_children_before(node_data@, read_offset as int, 16),
        output.child_index_in_array == spec_children_before(
            node_data@,
            read_offset as int,
            claimed_child_node_nibble as int,
        ),
{
    let mut overall: usize = 0;
    let mut before: usize = 0;
    let mut child: usize = 0;
    let mut weight: u8 = 1;
    proof {
        crate::bits::lemma_two_to_values();
    }
    while child < 16
        invariant
            child <= 16,
            read_offset + 2 <= usize::MAX,
            claimed_child_node_nibble < 16,
            child < 16 ==> weight == two_to((child % 8) as nat),
            overall == spec_children_before(node_data@, read_offset as int, child as int),
            overall <= child,
            child > claimed_child_node_nibble ==> before == spec_children_before(
                node_data@,
                read_offset as int,
                claimed_child_node_nibble as int,
            ),
        decreases 16 - child,
    {
        proof {
            crate::bits::lemma_two_to_values();
        }
        if child == claimed_child_node_nibble as usize {
            before = overall;
        }
        let byte = read_byte(node_data, read_offset + child / 8);
        if (byte / weight) % 2 == 1 {
            overall += 1;
        }
        child += 1;
        if child % 8 == 0 {
            weight = 1;
        } else {
            weight = weight * 2;
        }
    }
    BitmapParserOutput {
        resulting_offset: read_offset + 2,
        overall_children_amount: overall,
        child_index_in_array: before,
    }
}

/// Whether the bytes at `offset` hold a child of `length` bytes: the first
/// byte gives the length of what follows, shifted left by two bits.
pub open spec fn child_well_encoded(data: Seq<u8>, offset: int, length: int) -> bool {
    let prefix = byte_at(data, offset);
    prefix % 4 == 0 && length == 1 + prefix / 4
}

/// Whether the children from number `child` on are laid out as `lengths`
/// says, the first of them at `offset`, and the child at `claimed_index`, if
/// it is among them, is the hash `claimed_hash`.
pub open spec fn children_parse_from(
    data: Seq<u8>,
    offset: int,
    lengths: Seq<int>,
    child: int,
    claimed_index: int,
    claimed_hash: Seq<u8>,
) -> bool
    decreases lengths.len() - child,
{
    if child < 0 || child >= lengths.len() {
        true
    } else {
        &&& child_well_encoded(data, offset, lengths[child])
        &&& child == claimed_index ==> lengths[child] == 33 && spec_hash_stands_at(
            data,
            offset + 1,
            claimed_hash,
        )
        &&& children_parse_from(
            data,
            offset + lengths[child],
            lengths,
            child + 1,
            claimed_index,
            claimed_hash,
        )
    }
}

/// Whether the children of a node are laid out as `lengths` says from
/// `read_offset` on, and the child at `claimed_index` is the hash
/// `claimed_hash`.
pub open spec fn children_parse(
    data: Seq<u8>,
    read_offset: int,
    lengths: Seq<int>,
    claimed_index: int,
    claimed_hash: Seq<u8>,
) -> bool {
    &&& 0 <= claimed_index < lengths.len()
    &&& children_parse_from(data, read_offset, lengths, 0, claimed_index, claimed_hash)
}

/// Whether the 32 bytes of `hash` stand in `data` from `start` on.
pub open spec fn spec_hash_stands_at(data: Seq<u8>, start: int, hash: Seq<u8>) -> bool {
    forall|k: int| 0 <= k < 32 ==> byte_at(data, start + k) == #[trigger] hash[k]
}

/// Tells whether the 32 bytes of `hash` stand in `node_data` from `start` on.
pub fn hash_stands_at(node_data: &[u8], start: usize, hash: &[u8; 32]) -> (stands: bool)
    ensures
        stands == spec_hash_stands_at(node_data@, start as int, hash@),
{
    let mut k: usize = 0;
    while k < 32
        invariant
            k <= 32,
            forall|j: int| 0 <= j < k ==> byte_at(node_data@, start + j) == #[trigger] hash@[j],
        decreases 32 - k,
    {
        if read_byte_behind(node_data, start, k) != hash[k] {
            return false;
        }
        k += 1;
    }
    true
}

/// What parsing the children of a branch node gives.
#[derive(Clone, Copy, Debug, PartialEq, Eq, Structural)]
pub struct ChildNodeArrayParserOutput {
    /// Where the children end.
    pub final_read_offset: usize,
    /// Number of children.
    pub overall_children_amount: usize,
}

/// The sum of the first lengths grows by the next length.
pub proof fn lemma_total_step(lengths: Seq<int>, child: int)
    requires
        0 <= child < lengths.len(),
    ensures
        spec_total(lengths.subrange(0, child + 1)) == spec_total(lengths.subrange(0, child))
            + lengths[child],
{
    assert(lengths.subrange(0, child + 1).drop_last() =~= lengths.subrange(0, child));
}

/// Walks the children of a branch node from `read_offset` on. Every child
/// must be laid out as its length says, and the child at
/// `claimed_child_index_in_array` must be the hash `claimed_child_hash`.
pub fn parse_children(
    node_data: &[u8],
    read_offset: usize,
    children_lengths: &Vec<usize>,
    claimed_child_index_in_array: usize,
    claimed_child_hash: &[u8; 32],
) -> (output: Option<ChildNodeArrayParserOutput>)
    ensures
        output is Some <==> children_parse(
            node_data@,
            read_offset as int,
            lengths_view(children_lengths@),
            claimed_child_index_in_array as int,
            claimed_child_hash@,
        ) && read_offset + spec_total(lengths_view(children_lengths@)) <= node_data@.len(),
        output matches Some(parsed) ==> parsed.final_read_offset == read_offset + spec_total(
            lengths_view(children_lengths@),
        ) && parsed.overall_children_amount == children_lengths@.len(),
{
    let ghost lengths = lengths_view(children_lengths@);
    if claimed_child_index_in_array >= children_lengths.len() {
        return None;
    }
    proof {
        assert(lengths.subrange(0, 0) =~= Seq::empty());
        lemma_total_nonnegative(lengths);
    }
    let node_length = node_data.len();
    if read_offset > node_length {
        return None;
    }
    let mut offset: usize = read_offset;
    let mut child: usize = 0;
    while child < children_lengths.len()
        invariant
            child <= children_lengths@.len(),
            lengths == lengths_view(children_lengths@),
            node_length == node_data@.len(),
            offset <= node_length,
            offset == read_offset + spec_total(lengths.subrange(0, child as int)),
            children_parse_from(
                node_data@,
                read_offset as int,
                lengths,
                0,
                claimed_child_index_in_array as int,
                claimed_child_hash@,
            ) == children_parse_from(
                node_data@,
                offset as int,
                lengths,
                child as int,
                claimed_child_index_in_array as int,
                claimed_child_hash@,
            ),
        decreases children_lengths@.len() - child,
    {
        let length = children_lengths[child];
        proof {
            assert(lengths[child as int] == length);
            lemma_total_step(lengths, child as int);
            lemma_total_grows(lengths, child + 1);
            lemma_total_grows(lengths, child as int);
        }
        let prefix = read_byte(node_data, offset);
        if prefix % 4 != 0 || length != 1 + (prefix / 4) as usize {
            return None;
        }
        if length > node_length - offset {
            return None;
        }
        if child == claimed_child_index_in_array {
            if length != 33 {
                return None;
            }
            if !hash_stands_at(node_data, offset + 1, claimed_child_hash) {
                return None;
            }
        }
        offset += length;
        child += 1;
    }
    proof {
        assert(lengths.subrange(0, lengths.len() as int) =~= lengths);
    }
    Some(
        ChildNodeArrayParserOutput {
            final_read_offset: offset,
            overall_children_amount: children_lengths.len(),
        },
    )
}

/// The sum of the first lengths is at most the sum of all of them.
pub proof fn lemma_total_grows(lengths: Seq<int>, count: int)
    requires
        0 <= count <= lengths.len(),
        forall|c: int| 0 <= c < lengths.len() ==> 0 <= #[trigger] lengths[c],
    ensures
        0 <= spec_total(lengths.subrange(0, count)) <= spec_total(lengths),
    decreases lengths.len() - count,
{
    if count == lengths.len() {
        assert(lengths.subrange(0, count) =~= lengths);
        lemma_total_nonnegative(lengths);
    } else {
        lemma_total_step(lengths, count);
        lemma_total_grows(lengths, count + 1);
        lemma_total_nonnegative(lengths.subrange(0, count));
    }
}

/// A sum of lengths is not negative.
pub proof fn lemma_total_nonnegative(lengths: Seq<int>)
    requires
        forall|c: int| 0 <= c < lengths.len() ==> 0 <= #[trigger] lengths[c],
    ensures
        0 <= spec_total(lengths),
    decreases lengths.len(),
{
    if lengths.len() > 0 {
        lemma_total_nonnegative(lengths.drop_last());
    }
}

/// A branch node on the path to a storage value.
#[derive(Debug)]
pub struct BranchParser {
    /// The node as it is stored.
    pub node_data: Vec<u8>,
    /// The nibble under which the path goes on.
    pub claimed_child_node_nibble: u8,
    /// The nibbles of the path before this node.
    pub partial_address_nibbles: Vec<u8>,
}

/// What the proof of a branch node exposes.
#[derive(Debug)]
pub struct BranchParserPublicInputs {
    /// The node as it is stored; a circuit pads it with zeros.
    pub node_data: Vec<u8>,
    /// Number of bytes of the node.
    pub node_data_length: u64,
    /// Hash of the child under the claimed nibble.
    pub child_node_hash: [u8; BLAKE2_DIGEST_SIZE],
    /// The nibbles of the path before this node.
    pub partial_address: Vec<u8>,
    /// The nibbles of the path behind this node: those before it, its partial
    /// key, and the claimed nibble.
    pub resulting_partial_address: Vec<u8>,
}

/// Works out from a decoded branch node what the prover needs: the lengths of
/// the children, where they start, the place of the claimed child among them
/// and its hash.
pub fn metadata_from(decoded: &DecodedBranch, node_length: usize, claimed_child_node_nibble: u8)
    -> (metadata: Option<Metadata>)
    ensures
        metadata is Some <==> metadata_exists(
            node_length as int,
            claimed_child_node_nibble,
            Some(decoded@),
        ),
        metadata matches Some(found) ==> is_metadata_of(
            found,
            node_length as int,
            claimed_child_node_nibble,
            decoded@.0,
        ),
{
    let ghost children = decoded@.0;
    if decoded.children.len() != 16 || decoded.has_value || claimed_child_node_nibble >= 16 {
        return None;
    }
    let mut children_lengths: Vec<usize> = Vec::new();
    let mut total: usize = 0;
    let mut claimed_child_index_in_array: usize = 0;
    let mut claimed_child_hash = [0u8; 32];
    let mut claimed_found = false;
    let mut i: usize = 0;
    while i < 16
        invariant
            i <= 16,
            children == decoded@.0,
            children.len() == 16,
            decoded.children@.len() == 16,
            claimed_child_node_nibble < 16,
            children_supported(children, i as int),
            lengths_view(children_lengths@) == spec_children_lengths(children, i as int),
            total == spec_total(spec_children_lengths(children, i as int)),
            total <= 33 * i,
            i > claimed_child_node_nibble ==> claimed_child_index_in_array
                == spec_children_lengths(children, claimed_child_node_nibble as int).len(),
            i > claimed_child_node_nibble ==> claimed_found && (
            children[claimed_child_node_nibble as int] matches Some(child) && child.0
                && claimed_child_hash@ == child.1),
        decreases 16 - i,
    {
        assert(children[i as int] == child_view(decoded.children@[i as int]));
        if i == claimed_child_node_nibble as usize {
            claimed_child_index_in_array = children_lengths.len();
        }
        match &decoded.children[i] {
            Some(NodeChild::Hash(hash)) => {
                if hash.len() != 32 {
                    return None;
                }
                if i == claimed_child_node_nibble as usize {
                    let mut k: usize = 0;
                    while k < 32
                        invariant
                            k <= 32,
                            hash@.len() == 32,
                            forall|j: int| 0 <= j < k ==> claimed_child_hash@[j] == hash@[j],
                        decreases 32 - k,
                    {
                        claimed_child_hash[k] = hash[k];
                        k += 1;
                    }
                    assert(claimed_child_hash@ =~= hash@);
                    claimed_found = true;
                }
                let length = encoded_size(hash.as_slice());
                children_lengths.push(length);
                assert(lengths_view(children_lengths@) =~= spec_children_lengths(
                    children,
                    i as int,
                ).push(length as int));
                total += length;
            },
            Some(NodeChild::Inline(data)) => {
                if data.len() > 32 || i == claimed_child_node_nibble as usize {
                    return None;
                }
                let length = encoded_size(data.as_slice());
                children_lengths.push(length);
                assert(lengths_view(children_lengths@) =~= spec_children_lengths(
                    children,
                    i as int,
                ).push(length as int));
                total += length;
            },
            None => {
                if i == claimed_child_node_nibble as usize {
                    return None;
                }
            },
        }
        proof {
            let after = spec_children_lengths(children, i + 1);
            if children[i as int] is Some {
                assert(after.drop_last() =~= spec_children_lengths(children, i as int));
            }
        }
        i += 1;
    }
    if total > node_length {
        return None;
    }
    Some(
        Metadata {
            children_data_offset: node_length - total,
            children_lengths,
            claimed_child_index_in_array,
            claimed_child_hash,
        },
    )
}

/// Whether a branch node leads to the child under `nibble`, given what the
/// trie's codec reads from it: the prover's metadata exists; the node starts
/// with the header of a branch without value; behind the header and the
/// partial key stands the bitmap, and right behind it the children, which
/// fill the node to its end; the bitmap counts as many children as there are,
/// and as many before the claimed one; and the children are laid out as their
/// lengths say, the claimed one being a hash.
pub open spec fn spec_branch_provable(
    node_data: Seq<u8>,
    nibble: u8,
    decoded: Option<(Seq<Option<(bool, Seq<u8>)>>, bool)>,
) -> bool {
    let header = header_parser::spec_define(
        byte_at(node_data, 0),
        byte_at(node_data, 1),
        HeaderDescriptor::spec_branch_without_value(),
    );
    &&& metadata_exists(node_data.len() as int, nibble, decoded)
    &&& header is Some
    &&& {
        let children = decoded.unwrap().0;
        let lengths = spec_children_lengths(children, 16);
        let bitmap_offset = header.unwrap().resulting_offset + spec_nibble_bytes(
            header.unwrap().nibble_count as int,
        );
        let children_offset = node_data.len() - spec_total(lengths);
        &&& children_offset == bitmap_offset + 2
        &&& lengths.len() == spec_children_before(node_data, bitmap_offset, 16)
        &&& spec_children_lengths(children, nibble as int).len() == spec_children_before(
            node_data,
            bitmap_offset,
            nibble as int,
        )
        &&& children_parse(
            node_data,
            children_offset,
            lengths,
            spec_children_lengths(children, nibble as int).len() as int,
            children[nibble as int].unwrap().1,
        )
    }
}

/// The partial key of a branch node.
pub open spec fn spec_branch_nibbles(node_data: Seq<u8>) -> Seq<u8> {
    let header = header_parser::spec_define(
        byte_at(node_data, 0),
        byte_at(node_data, 1),
        HeaderDescriptor::spec_branch_without_value(),
    ).unwrap();
    spec_nibbles(node_data, header.resulting_offset as int, header.nibble_count as int)
}

impl BranchParser {
    /// Whether the node can be proved to lead to the claimed child.
    pub open spec fn provable(&self) -> bool {
        spec_branch_provable(
            self.node_data@,
            self.claimed_child_node_nibble,
            decoded_branch(self.node_data@),
        )
    }

    /// Decodes the node with the trie's codec and works out what the prover
    /// needs.
    pub fn parse_metadata(&self) -> (metadata: Option<Metadata>)
        ensures
            metadata is Some <==> metadata_exists(
                self.node_data@.len() as int,
                self.claimed_child_node_nibble,
                decoded_branch(self.node_data@),
            ),
            metadata matches Some(found) ==> is_metadata_of(
                found,
                self.node_data@.len() as int,
                self.claimed_child_node_nibble,
                decoded_branch(self.node_data@).unwrap().0,
            ),
    {
        match decode_branch(self.node_data.as_slice()) {
            Some(decoded) => metadata_from(
                &decoded,
                self.node_data.len(),
                self.claimed_child_node_nibble,
            ),
            None => None,
        }
    }

    /// Returns what the proof of the branch node exposes, given the prover's
    /// metadata. The node is parsed as a circuit parses it, and everything
    /// that the metadata says must agree with what is parsed.
    pub fn prove_with(self, metadata: &Metadata) -> (public_inputs: Result<
        BranchParserPublicInputs,
        ProofError,
    >)
        requires
            metadata_exists(
                self.node_data@.len() as int,
                self.claimed_child_node_nibble,
                decoded_branch(self.node_data@),
            ),
            is_metadata_of(
                *metadata,
                self.node_data@.len() as int,
                self.claimed_child_node_nibble,
                decoded_branch(self.node_data@).unwrap().0,
            ),
        ensures
            public_inputs is Ok <==> self.provable(),
            public_inputs matches Ok(exposed) ==> {
                &&& exposed.node_data@ == self.node_data@
                &&& exposed.node_data_length == self.node_data@.len()
                &&& exposed.child_node_hash == metadata.claimed_child_hash
                &&& exposed.partial_address@ == self.partial_address_nibbles@
                &&& exposed.resulting_partial_address@ == self.partial_address_nibbles@
                    + spec_branch_nibbles(self.node_data@).push(self.claimed_child_node_nibble)
            },
            public_inputs matches Err(error) ==> error == ProofError::InvalidWitness,
    {
        let node_length = self.node_data.len();
        let first_bytes = [
            read_byte(self.node_data.as_slice(), 0),
            read_byte(self.node_data.as_slice(), 1),
        ];
        let parsed_node_header = match header_parser::define(
            first_bytes,
            HeaderDescriptor::branch_without_value(),
        ) {
            Some(header) => header,
            None => {
                return Err(ProofError::InvalidWitness);
            },
        };
        proof {
            HeaderDescriptor::lemma_kinds_well_formed();
        }
        let parsed_nibbles = nibble_parser::define(
            self.node_data.as_slice(),
            parsed_node_header.resulting_offset as usize,
            parsed_node_header.nibble_count as usize,
            &self.partial_address_nibbles,
        );
        let mut resulting_address = parsed_nibbles.partial_address;
        resulting_address.push(self.claimed_child_node_nibble);
        let parsed_bitmap = parse_bitmap(
            self.node_data.as_slice(),
            parsed_nibbles.resulting_offset,
            self.claimed_child_node_nibble,
        );
        if metadata.children_data_offset != parsed_bitmap.resulting_offset {
            return Err(ProofError::InvalidWitness);
        }
        if metadata.children_lengths.len() != parsed_bitmap.overall_children_amount {
            return Err(ProofError::InvalidWitness);
        }
        if metadata.claimed_child_index_in_array != parsed_bitmap.child_index_in_array {
            return Err(ProofError::InvalidWitness);
        }
        let parsed_children = match parse_children(
            self.node_data.as_slice(),
            metadata.children_data_offset,
            &metadata.children_lengths,
            metadata.claimed_child_index_in_array,
            &metadata.claimed_child_hash,
        ) {
            Some(parsed) => parsed,
            None => {
                return Err(ProofError::InvalidWitness);
            },
        };
        assert(parsed_children.final_read_offset == node_length);
        assert(resulting_address@ =~= self.partial_address_nibbles@ + spec_branch_nibbles(
            self.node_data@,
        ).push(self.claimed_child_node_nibble));
        let partial_address = copy_bytes(
            &self.partial_address_nibbles,
        );
        Ok(
            BranchParserPublicInputs {
                node_data_length: node_length as u64,
                node_data: self.node_data,
                child_node_hash: metadata.claimed_child_hash,
                partial_address,
                resulting_partial_address: resulting_address,
            },
        )
    }

    /// Returns what the proof of the branch node exposes. A node that the
    /// trie's codec does not read as a branch without value, or whose claimed
    /// child is no hash, has no proof.
    pub fn prove(self) -> (public_inputs: Result<BranchParserPublicInputs, ProofError>)
        ensures
            public_inputs is Ok <==> self.provable(),
            public_inputs matches Ok(exposed) ==> {
                &&& exposed.node_data@ == self.node_data@
                &&& exposed.node_data_length == self.node_data@.len()
                &&& decoded_branch(self.node_data@) matches Some(decoded)
                    && decoded.0[self.claimed_child_node_nibble as int] matches Some(child)
                    && exposed.child_node_hash@ == child.1
                &&& exposed.partial_address@ == self.partial_address_nibbles@
                &&& exposed.resulting_partial_address@ == self.partial_address_nibbles@
                    + spec_branch_nibbles(self.node_data@).push(self.claimed_child_node_nibble)
            },
            public_inputs matches Err(error) ==> error == ProofError::InvalidWitness,
    {
        let metadata = match self.parse_metadata() {
            Some(metadata) => metadata,
            None => {
                return Err(ProofError::InvalidWitness);
            },
        };
        self.prove_with(&metadata)
    }
}

/// Copies a byte string.
pub fn copy_bytes(bytes: &Vec<u8>) -> (copy: Vec<u8>)
    ensures
        copy@ == bytes@,
{
    let mut copy: Vec<u8> = Vec::new();
    let mut i: usize = 0;
    while i < bytes.len()
        invariant
            i <= bytes@.len(),
            copy@ == bytes@.subrange(0, i as int),
        decreases bytes@.len() - i,
    {
        copy.push(bytes[i]);
        assert(copy@ =~= bytes@.subrange(0, i + 1));
        i += 1;
    }
    assert(bytes@.subrange(0, bytes@.len() as int) =~= bytes@);
    copy
}

} // verus!
