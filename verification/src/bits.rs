//! Bit and byte layouts shared by every circuit.
//!
//! Bits inside a byte are big-endian: the first bit of a byte is its most
//! significant one. Bytes inside a multi-byte word are little-endian.

use vstd::prelude::*;

verus! {

/// Weight of the bit at position `position` of a byte, counted from the most
/// significant bit.
pub open spec fn bit_weight(position: int) -> int {
    if position == 0 {
        128
    } else if position == 1 {
        64
    } else if position == 2 {
        32
    } else if position == 3 {
        16
    } else if position == 4 {
        8
    } else if position == 5 {
        4
    } else if position == 6 {
        2
    } else {
        1
    }
}

/// Whether the bit at `position` (from the most significant) is set in `byte`.
pub open spec fn bit_of_byte(byte: u8, position: int) -> bool {
    (byte as int / bit_weight(position)) % 2 == 1
}

/// The eight bits of `byte`, most significant first.
pub open spec fn spec_byte_to_bits(byte: u8) -> Seq<bool> {
    Seq::new(8, |position: int| bit_of_byte(byte, position))
}

/// The number that eight bits stand for, most significant first.
pub open spec fn spec_bits_to_byte(bits: Seq<bool>) -> int {
    (if bits[0] { 128int } else { 0 }) + (if bits[1] { 64int } else { 0 })
        + (if bits[2] { 32int } else { 0 }) + (if bits[3] { 16int } else { 0 })
        + (if bits[4] { 8int } else { 0 }) + (if bits[5] { 4int } else { 0 })
        + (if bits[6] { 2int } else { 0 }) + (if bits[7] { 1int } else { 0 })
}

/// The bits of a byte string: eight per byte, bytes in order.
pub open spec fn spec_array_to_bits(data: Seq<u8>) -> Seq<bool> {
    Seq::new(8 * data.len(), |i: int| bit_of_byte(data[i / 8], i % 8))
}

/// Splits a byte into its eight bits, most significant first.
pub fn byte_to_bits(byte: u8) -> (bits: [bool; 8])
    ensures
        bits@ == spec_byte_to_bits(byte),
{
    assert((byte >> 7u8) % 2 == (byte / 128) % 2) by (bit_vector);
    assert((byte >> 6u8) % 2 == (byte / 64) % 2) by (bit_vector);
    assert((byte >> 5u8) % 2 == (byte / 32) % 2) by (bit_vector);
    assert((byte >> 4u8) % 2 == (byte / 16) % 2) by (bit_vector);
    assert((byte >> 3u8) % 2 == (byte / 8) % 2) by (bit_vector);
    assert((byte >> 2u8) % 2 == (byte / 4) % 2) by (bit_vector);
    assert((byte >> 1u8) % 2 == (byte / 2) % 2) by (bit_vector);
    assert((byte >> 0u8) % 2 == (byte / 1) % 2) by (bit_vector);
    let bits = [
        (byte >> 7u8) % 2 == 1,
        (byte >> 6u8) % 2 == 1,
        (byte >> 5u8) % 2 == 1,
        (byte >> 4u8) % 2 == 1,
        (byte >> 3u8) % 2 == 1,
        (byte >> 2u8) % 2 == 1,
        (byte >> 1u8) % 2 == 1,
        (byte >> 0u8) % 2 == 1,
    ];
    assert(bits@ =~= spec_byte_to_bits(byte));
    bits
}

/// Packs eight bits, most significant first, into a byte.
pub fn bits_to_byte(bits: [bool; 8]) -> (byte: u8)
    ensures
        byte == spec_bits_to_byte(bits@),
{
    let mut byte: u8 = 0;
    if bits[0] { byte = byte + 128; }
    if bits[1] { byte = byte + 64; }
    if bits[2] { byte = byte + 32; }
    if bits[3] { byte = byte + 16; }
    if bits[4] { byte = byte + 8; }
    if bits[5] { byte = byte + 4; }
    if bits[6] { byte = byte + 2; }
    if bits[7] { byte = byte + 1; }
    byte
}

/// Spreads a byte string into bits, eight per byte.
pub fn array_to_bits(data: &[u8]) -> (bits: Vec<bool>)
    ensures
        bits@ == spec_array_to_bits(data@),
{
    let mut bits: Vec<bool> = Vec::new();
    let mut i: usize = 0;
    while i < data.len()
        invariant
            i <= data.len(),
            bits@.len() == 8 * i,
            forall|k: int| 0 <= k < bits@.len() ==> bits@[k] == bit_of_byte(data@[k / 8], k % 8),
        decreases data.len() - i,
    {
        let byte_bits = byte_to_bits(data[i]);
        let mut j: usize = 0;
        while j < 8
            invariant
                j <= 8,
                i < data.len(),
                byte_bits@ == spec_byte_to_bits(data@[i as int]),
                bits@.len() == 8 * i + j,
                forall|k: int|
                    0 <= k < bits@.len() ==> bits@[k] == bit_of_byte(data@[k / 8], k % 8),
            decreases 8 - j,
        {
            bits.push(byte_bits[j]);
            j += 1;
        }
        i += 1;
    }
    assert(bits@ =~= spec_array_to_bits(data@));
    bits
}

/// Extends `data` with zero bytes to exactly `L` bytes.
pub fn pad_byte_vec<const L: usize>(data: Vec<u8>) -> (padded: [u8; L])
    requires
        data.len() <= L,
    ensures
        padded@.subrange(0, data@.len() as int) == data@,
        forall|i: int| data@.len() <= i < L ==> padded@[i] == 0,
{
    let mut padded = [0u8; L];
    let mut i: usize = 0;
    while i < data.len()
        invariant
            i <= data.len() <= L,
            forall|k: int| 0 <= k < i ==> padded@[k] == data@[k],
            forall|k: int| i <= k < L ==> padded@[k] == 0,
        decreases data.len() - i,
    {
        padded[i] = data[i];
        i += 1;
    }
    assert(padded@.subrange(0, data@.len() as int) =~= data@);
    padded
}

/// Packing the bits of a byte gives the byte back.
pub proof fn lemma_byte_bits_round_trip(byte: u8)
    ensures
        spec_bits_to_byte(spec_byte_to_bits(byte)) == byte,
{
    assert(byte == ((byte / 128) % 2) * 128 + ((byte / 64) % 2) * 64 + ((byte / 32) % 2) * 32 + ((
    byte / 16) % 2) * 16 + ((byte / 8) % 2) * 8 + ((byte / 4) % 2) * 4 + ((byte / 2) % 2) * 2 + (
    byte % 2)) by (bit_vector);
    let bits = spec_byte_to_bits(byte);
    assert(bits[0] == bit_of_byte(byte, 0));
    assert(bits[1] == bit_of_byte(byte, 1));
    assert(bits[2] == bit_of_byte(byte, 2));
    assert(bits[3] == bit_of_byte(byte, 3));
    assert(bits[4] == bit_of_byte(byte, 4));
    assert(bits[5] == bit_of_byte(byte, 5));
    assert(bits[6] == bit_of_byte(byte, 6));
    assert(bits[7] == bit_of_byte(byte, 7));
}

/// Splitting the byte that eight bits pack into gives the eight bits back.
pub proof fn lemma_bits_byte_round_trip(bits: Seq<bool>)
    requires
        bits.len() == 8,
    ensures
        0 <= spec_bits_to_byte(bits) < 256,
        spec_byte_to_bits(spec_bits_to_byte(bits) as u8) == bits,
{
    let byte = spec_bits_to_byte(bits) as u8;
    assert forall|position: int| 0 <= position < 8 implies bit_of_byte(byte, position)
        == bits[position] by {}
    assert(spec_byte_to_bits(byte) =~= bits);
}

/// The bytes that a list of bits stands for, eight bits per byte.
pub open spec fn spec_bits_to_bytes(bits: Seq<bool>) -> Seq<u8> {
    Seq::new(bits.len() / 8, |i: int| spec_bits_to_byte(bits.subrange(8 * i, 8 * i + 8)) as u8)
}

/// Packs a list of bits into bytes, eight bits per byte.
pub fn bits_to_bytes(bits: &[bool]) -> (bytes: Vec<u8>)
    requires
        bits@.len() % 8 == 0,
    ensures
        bytes@ == spec_bits_to_bytes(bits@),
{
    let count = bits.len() / 8;
    let mut bytes: Vec<u8> = Vec::new();
    let mut i: usize = 0;
    while i < count
        invariant
            i <= count,
            count == bits@.len() / 8,
            bits@.len() % 8 == 0,
            bits@.len() <= usize::MAX,
            bytes@.len() == i,
            forall|k: int|
                0 <= k < i ==> bytes@[k] == spec_bits_to_byte(bits@.subrange(8 * k, 8 * k + 8)) as u8,
        decreases count - i,
    {
        let mut group = [false; 8];
        let mut j: usize = 0;
        while j < 8
            invariant
                j <= 8,
                i < count,
                count == bits@.len() / 8,
                bits@.len() % 8 == 0,
                bits@.len() <= usize::MAX,
                forall|k: int| 0 <= k < j ==> group@[k] == bits@[8 * i + k],
            decreases 8 - j,
        {
            group[j] = bits[8 * i + j];
            j += 1;
        }
        assert(group@ =~= bits@.subrange(8 * i, 8 * i + 8));
        bytes.push(bits_to_byte(group));
        i += 1;
    }
    assert(bytes@ =~= spec_bits_to_bytes(bits@));
    bytes
}

/// Packing the bits of a byte string gives the string back.
pub proof fn lemma_array_bits_round_trip(data: Seq<u8>)
    ensures
        spec_bits_to_bytes(spec_array_to_bits(data)) == data,
{
    let bits = spec_array_to_bits(data);
    assert forall|i: int| 0 <= i < data.len() implies spec_bits_to_bytes(bits)[i] == data[i] by {
        assert(bits.subrange(8 * i, 8 * i + 8) =~= spec_byte_to_bits(data[i]));
        lemma_byte_bits_round_trip(data[i]);
    }
    assert(spec_bits_to_bytes(bits) =~= data);
}

/// Two to the power `exponent`.
pub open spec fn two_to(exponent: nat) -> int
    decreases exponent,
{
    if exponent == 0 {
        1
    } else {
        2 * two_to((exponent - 1) as nat)
    }
}

/// The first eight powers of two.
pub proof fn lemma_two_to_values()
    ensures
        two_to(0) == 1,
        two_to(1) == 2,
        two_to(2) == 4,
        two_to(3) == 8,
        two_to(4) == 16,
        two_to(5) == 32,
        two_to(6) == 64,
        two_to(7) == 128,
{
    reveal_with_fuel(two_to, 9);
}

/// Powers of two are positive and grow with the exponent.
pub proof fn lemma_two_to_monotonic(low: nat, high: nat)
    requires
        low <= high,
    ensures
        two_to(low) <= two_to(high),
        two_to(low) >= 1,
    decreases high,
{
    if low < high {
        lemma_two_to_monotonic(low, (high - 1) as nat);
    } else if low > 0 {
        lemma_two_to_monotonic((low - 1) as nat, (low - 1) as nat);
    }
}

/// The powers of two next to the width of a 64-bit word.
pub proof fn lemma_two_to_high_values()
    ensures
        two_to(32) == 0x1_0000_0000,
        two_to(62) == 0x4000_0000_0000_0000,
        two_to(63) == 0x8000_0000_0000_0000,
        two_to(64) == 0x1_0000_0000_0000_0000,
{
    lemma_two_to_values();
    assert(two_to(16) == 0x1_0000) by {
        reveal_with_fuel(two_to, 10);
    }
    assert(two_to(24) == 0x100_0000) by {
        reveal_with_fuel(two_to, 9);
    }
    assert(two_to(32) == 0x1_0000_0000) by {
        reveal_with_fuel(two_to, 9);
    }
    assert(two_to(40) == 0x100_0000_0000) by {
        reveal_with_fuel(two_to, 9);
    }
    assert(two_to(48) == 0x1_0000_0000_0000) by {
        reveal_with_fuel(two_to, 9);
    }
    assert(two_to(56) == 0x100_0000_0000_0000) by {
        reveal_with_fuel(two_to, 9);
    }
    assert(two_to(62) == 0x4000_0000_0000_0000) by {
        reveal_with_fuel(two_to, 7);
    }
    assert(two_to(64) == 0x1_0000_0000_0000_0000) by {
        reveal_with_fuel(two_to, 3);
    }
}

/// Whether two byte strings are the same.
pub fn bytes_equal(a: &[u8], b: &[u8]) -> (equal: bool)
    ensures
        equal == (a@ == b@),
{
    if a.len() != b.len() {
        return false;
    }
    let mut i: usize = 0;
    while i < a.len()
        invariant
            i <= a@.len() == b@.len(),
            forall|k: int| 0 <= k < i ==> a@[k] == b@[k],
        decreases a@.len() - i,
    {
        if a[i] != b[i] {
            return false;
        }
        i += 1;
    }
    assert(a@ =~= b@);
    true
}

} // verus!
