//! The partial key of a trie node: a run of nibbles behind the node's header.
//!
//! Two nibbles take one byte, the first in the high half. A run of odd length
//! starts in the low half of its first byte; the high half of that byte is
//! padding.

use vstd::prelude::*;

verus! {

/// The byte of `data` at `position`, or zero behind the end of the data: node
/// data is handed to a circuit padded with zeros.
pub open spec fn byte_at(data: Seq<u8>, position: int) -> u8 {
    if 0 <= position < data.len() {
        data[position]
    } else {
        0
    }
}

/// Reads the byte at `position`, or zero behind the end of the data.
pub fn read_byte(data: &[u8], position: usize) -> (byte: u8)
    ensures
        byte == byte_at(data@, position as int),
{
    if position < data.len() {
        data[position]
    } else {
        0
    }
}

/// Reads the byte that stands `distance` bytes behind `start`, or zero behind
/// the end of the data.
pub fn read_byte_behind(data: &[u8], start: usize, distance: usize) -> (byte: u8)
    ensures
        byte == byte_at(data@, start + distance),
{
    if start < data.len() && distance < data.len() - start {
        data[start + distance]
    } else {
        0
    }
}

/// Nibble number `number` of a run of `nibble_count` nibbles that starts at
/// byte `read_offset`.
pub open spec fn spec_nibble(data: Seq<u8>, read_offset: int, nibble_count: int, number: int)
    -> u8 {
    let place = number + nibble_count % 2;
    let byte = byte_at(data, read_offset + place / 2);
    if place % 2 == 0 {
        byte / 16
    } else {
        byte % 16
    }
}

/// The run of `nibble_count` nibbles that starts at byte `read_offset`.
pub open spec fn spec_nibbles(data: Seq<u8>, read_offset: int, nibble_count: int) -> Seq<u8> {
    Seq::new(nibble_count as nat, |number: int| spec_nibble(data, read_offset, nibble_count, number))
}

/// Number of bytes that a run of `nibble_count` nibbles takes.
pub open spec fn spec_nibble_bytes(nibble_count: int) -> int {
    (nibble_count + 1) / 2
}

/// What parsing the partial key of a node gives.
#[derive(Debug)]
pub struct NibbleParserOutput {
    /// Where the data behind the partial key starts.
    pub resulting_offset: usize,
    /// The address so far with the nibbles of the node behind it.
    pub partial_address: Vec<u8>,
}

/// Reads the partial key of a node and puts its nibbles behind the address so
/// far.
pub fn define(
    node_data: &[u8],
    read_offset: usize,
    nibble_count: usize,
    partial_address: &Vec<u8>,
) -> (output: NibbleParserOutput)
    requires
        read_offset + nibble_count + 1 <= usize::MAX,
    ensures
        output.resulting_offset == read_offset + spec_nibble_bytes(nibble_count as int),
        output.partial_address@ == partial_address@ + spec_nibbles(
            node_data@,
            read_offset as int,
            nibble_count as int,
        ),
{
    let mut address: Vec<u8> = Vec::new();
    let mut i: usize = 0;
    while i < partial_address.len()
        invariant
            i <= partial_address@.len(),
            address@ == partial_address@.subrange(0, i as int),
        decreases partial_address@.len() - i,
    {
        address.push(partial_address[i]);
        assert(address@ =~= partial_address@.subrange(0, i + 1));
        i += 1;
    }
    assert(partial_address@.subrange(0, partial_address@.len() as int) =~= partial_address@);
    let padding = nibble_count % 2;
    let mut number: usize = 0;
    while number < nibble_count
        invariant
            number <= nibble_count,
            padding == nibble_count % 2,
            read_offset + nibble_count + 1 <= usize::MAX,
            address@ == partial_address@ + spec_nibbles(
                node_data@,
                read_offset as int,
                nibble_count as int,
            ).subrange(0, number as int),
        decreases nibble_count - number,
    {
        let place = number + padding;
        let byte = read_byte(node_data, read_offset + place / 2);
        let nibble = if place % 2 == 0 {
            byte / 16
        } else {
            byte % 16
        };
        address.push(nibble);
        assert(address@ =~= partial_address@ + spec_nibbles(
            node_data@,
            read_offset as int,
            nibble_count as int,
        ).subrange(0, number + 1));
        number += 1;
    }
    assert(spec_nibbles(node_data@, read_offset as int, nibble_count as int).subrange(
        0,
        nibble_count as int,
    ) =~= spec_nibbles(node_data@, read_offset as int, nibble_count as int));
    NibbleParserOutput {
        resulting_offset: read_offset + (nibble_count + 1) / 2,
        partial_address: address,
    }
}

} // verus!
