//! The hash of the storage value in a leaf that holds the hash.

use vstd::prelude::*;
use crate::consts::BLAKE2_DIGEST_SIZE;
use crate::storage_inclusion::nibble_parser::{byte_at, read_byte_behind};

verus! {

/// What parsing the hashed value of a leaf gives.
#[derive(Clone, Copy, Debug)]
pub struct HashedDataParserOutput {
    /// Where the data behind the hash starts.
    pub resulting_offset: usize,
    /// BLAKE2 hash of the storage value.
    pub data_hash: [u8; BLAKE2_DIGEST_SIZE],
}

/// The 32 bytes that stand at `read_offset`.
pub open spec fn spec_data_hash(node_data: Seq<u8>, read_offset: int) -> Seq<u8> {
    Seq::new(32, |k: int| byte_at(node_data, read_offset + k))
}

/// Reads the hash of the storage value: the 32 bytes at `read_offset`.
pub fn define(node_data: &[u8], read_offset: usize) -> (output: HashedDataParserOutput)
    requires
        read_offset + BLAKE2_DIGEST_SIZE <= usize::MAX,
    ensures
        output.resulting_offset == read_offset + BLAKE2_DIGEST_SIZE,
        output.data_hash@ == spec_data_hash(node_data@, read_offset as int),
{
    let mut data_hash = [0u8; BLAKE2_DIGEST_SIZE];
    let mut k: usize = 0;
    while k < BLAKE2_DIGEST_SIZE
        invariant
            k <= BLAKE2_DIGEST_SIZE,
            forall|j: int| 0 <= j < k ==> data_hash@[j] == byte_at(node_data@, read_offset + j),
        decreases BLAKE2_DIGEST_SIZE - k,
    {
        data_hash[k] = read_byte_behind(node_data, read_offset, k);
        k += 1;
    }
    assert(data_hash@ =~= spec_data_hash(node_data@, read_offset as int));
    HashedDataParserOutput { resulting_offset: read_offset + BLAKE2_DIGEST_SIZE, data_hash }
}

} // verus!
