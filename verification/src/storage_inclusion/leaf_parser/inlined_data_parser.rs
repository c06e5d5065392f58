//! The storage value in a leaf that holds the value itself.

use vstd::prelude::*;
use crate::consts::BLAKE2_DIGEST_SIZE;
use crate::hashing::{blake2_256, blake2_256_digest};
use crate::storage_inclusion::nibble_parser::{byte_at, read_byte, read_byte_behind};

verus! {

/// What parsing the inline value of a leaf gives.
#[derive(Clone, Copy, Debug)]
pub struct InlinedDataParserOutput {
    /// Where the data behind the value starts.
    pub resulting_offset: usize,
    /// BLAKE2 hash of the storage value.
    pub data_hash: [u8; BLAKE2_DIGEST_SIZE],
}

/// The `length` bytes that stand at `start`.
pub open spec fn spec_bytes_at(node_data: Seq<u8>, start: int, length: int) -> Seq<u8> {
    Seq::new(length as nat, |k: int| byte_at(node_data, start + k))
}

/// Where the value ends and the hash of the value, if the byte at
/// `read_offset` gives a length in the short form: the length shifted left by
/// two bits.
pub open spec fn spec_define(node_data: Seq<u8>, read_offset: int) -> Option<(int, Seq<u8>)> {
    let prefix = byte_at(node_data, read_offset);
    if prefix % 4 == 0 {
        Some(
            (
                read_offset + 1 + prefix / 4,
                blake2_256(spec_bytes_at(node_data, read_offset + 1, prefix as int / 4)),
            ),
        )
    } else {
        None
    }
}

/// Reads the storage value behind its length and hashes it. A length that is
/// not in the short form is not accepted.
pub fn define(node_data: &[u8], read_offset: usize) -> (output: Option<InlinedDataParserOutput>)
    requires
        read_offset + 64 <= usize::MAX,
    ensures
        output is Some <==> spec_define(node_data@, read_offset as int) is Some,
        output matches Some(parsed) ==> spec_define(node_data@, read_offset as int) == Some(
            (parsed.resulting_offset as int, parsed.data_hash@),
        ),
{
    let prefix = read_byte(node_data, read_offset);
    if prefix % 4 != 0 {
        return None;
    }
    let length = (prefix / 4) as usize;
    let mut data: Vec<u8> = Vec::new();
    let mut k: usize = 0;
    while k < length
        invariant
            k <= length <= 63,
            read_offset + 64 <= usize::MAX,
            data@.len() == k,
            forall|j: int| 0 <= j < k ==> data@[j] == byte_at(node_data@, read_offset + 1 + j),
        decreases length - k,
    {
        data.push(read_byte_behind(node_data, read_offset + 1, k));
        k += 1;
    }
    assert(data@ =~= spec_bytes_at(node_data@, read_offset + 1, length as int));
    let data_hash = blake2_256_digest(data.as_slice());
    Some(InlinedDataParserOutput { resulting_offset: read_offset + 1 + length, data_hash })
}

} // verus!
