//! Target sets: typed views over the flat list of a circuit's public inputs.
//!
//! A target names one wire of a circuit. A target set groups targets into a
//! record; it is read from a flat list of targets and written back to one,
//! and the two are inverse to each other.

use vstd::prelude::*;
use crate::bits::two_to;
use crate::field::{field_add, field_mul, is_canonical, reduce};

verus! {

/// One wire of a circuit, named by its number.
#[derive(Clone, Copy, Debug, PartialEq, Eq, Structural)]
pub struct Target {
    pub index: u64,
}

/// A flat list of targets cannot be read as the set asked for: it is too
/// short, or targets are left over.
#[derive(Clone, Copy, Debug, PartialEq, Eq, Structural)]
pub struct TargetSetError {
    /// Number of targets that the set takes.
    pub expected: usize,
    /// Number of targets that were given.
    pub found: usize,
}

/// A record of targets with a fixed flat layout.
pub trait TargetSet: Sized {
    /// Number of targets that a set of this type holds.
    spec fn size() -> nat;

    /// The targets of the set in the order of its layout.
    spec fn targets(&self) -> Seq<Target>;

    /// Every set of the type holds `size()` targets.
    proof fn lemma_size(&self)
        ensures
            self.targets().len() == Self::size(),
    ;

    /// A set is determined by its targets.
    proof fn lemma_same_targets(&self, other: &Self)
        requires
            self.targets() == other.targets(),
        ensures
            *self == *other,
    ;

    /// Returns the number of targets that a set of this type holds.
    fn target_count() -> (count: usize)
        ensures
            count == Self::size(),
    ;

    /// Reads a set from `raw`, starting at `start`.
    fn parse(raw: &[Target], start: usize) -> (set: Self)
        requires
            start + Self::size() <= raw@.len(),
        ensures
            set.targets() == raw@.subrange(start as int, start + Self::size()),
    ;

    /// Writes the set out as a flat list.
    fn into_targets_iter(self) -> (flat: Vec<Target>)
        ensures
            flat@ == self.targets(),
    ;
}

/// The set that a flat list of targets stands for, if it stands for one.
pub open spec fn spec_parse_exact<TS: TargetSet>(raw: Seq<Target>) -> Option<TS> {
    if exists|set: TS| set.targets() == raw {
        Some(choose|set: TS| set.targets() == raw)
    } else {
        None
    }
}

/// Reads a set from a flat list that holds exactly the targets of the set.
/// A list of any other length is refused.
pub fn parse_exact<TS: TargetSet>(raw: &[Target]) -> (parsed: Result<TS, TargetSetError>)
    ensures
        parsed is Ok <==> raw@.len() == TS::size(),
        parsed matches Ok(set) ==> spec_parse_exact::<TS>(raw@) == Some(set) && set.targets()
            == raw@,
        parsed matches Err(error) ==> spec_parse_exact::<TS>(raw@) is None && error.expected
            == TS::size() && error.found == raw@.len(),
{
    let expected = TS::target_count();
    if raw.len() != expected {
        proof {
            assert forall|set: TS| set.targets() != raw@ by {
                set.lemma_size();
            }
        }
        return Err(TargetSetError { expected, found: raw.len() });
    }
    let set = TS::parse(raw, 0);
    proof {
        assert(raw@.subrange(0, raw@.len() as int) =~= raw@);
        let chosen = choose|other: TS| other.targets() == raw@;
        chosen.lemma_same_targets(&set);
    }
    Ok(set)
}

/// Reading back the flat form of a target set gives the set.
pub proof fn lemma_parse_exact_round_trip<TS: TargetSet>(set: TS)
    ensures
        spec_parse_exact::<TS>(set.targets()) == Some(set),
{
    let chosen = choose|other: TS| other.targets() == set.targets();
    chosen.lemma_same_targets(&set);
}

impl TargetSet for Target {
    open spec fn size() -> nat {
        1
    }

    open spec fn targets(&self) -> Seq<Target> {
        seq![*self]
    }

    proof fn lemma_size(&self) {
    }

    proof fn lemma_same_targets(&self, other: &Self) {
        assert(self.targets()[0] == *self);
        assert(other.targets()[0] == *other);
    }

    fn target_count() -> (count: usize) {
        1
    }

    fn parse(raw: &[Target], start: usize) -> (set: Self) {
        let set = raw[start];
        assert(set.targets() =~= raw@.subrange(start as int, start + 1));
        set
    }

    fn into_targets_iter(self) -> (flat: Vec<Target>) {
        let mut flat = Vec::new();
        flat.push(self);
        assert(flat@ =~= self.targets());
        flat
    }
}

/// `N` targets that each carry one bit.
#[derive(Clone, Copy, Debug)]
pub struct BitArrayTarget<const N: usize> {
    pub bits: [Target; N],
}

impl<const N: usize> TargetSet for BitArrayTarget<N> {
    open spec fn size() -> nat {
        N as nat
    }

    open spec fn targets(&self) -> Seq<Target> {
        self.bits@
    }

    proof fn lemma_size(&self) {
    }

    proof fn lemma_same_targets(&self, other: &Self) {
        assert(self.bits =~= other.bits);
    }

    fn target_count() -> (count: usize) {
        N
    }

    fn parse(raw: &[Target], start: usize) -> (set: Self) {
        let total = raw.len();
        let mut bits = [Target { index: 0 }; N];
        let mut i: usize = 0;
        while i < N
            invariant
                i <= N,
                start + N <= raw@.len() <= usize::MAX,
                forall|k: int| 0 <= k < i ==> bits@[k] == raw@[start + k],
            decreases N - i,
        {
            bits[i] = raw[start + i];
            i += 1;
        }
        assert(bits@ =~= raw@.subrange(start as int, start + N));
        BitArrayTarget { bits }
    }

    fn into_targets_iter(self) -> (flat: Vec<Target>) {
        let mut flat = Vec::new();
        let mut i: usize = 0;
        while i < N
            invariant
                i <= N,
                flat@ == self.bits@.subrange(0, i as int),
            decreases N - i,
        {
            flat.push(self.bits[i]);
            assert(flat@ =~= self.bits@.subrange(0, i + 1));
            i += 1;
        }
        assert(flat@ =~= self.bits@);
        flat
    }
}

/// The 256 bits of a SHA-256 digest.
pub type Sha256Target = BitArrayTarget<256>;

/// The 256 bits of a BLAKE2 digest.
pub type Blake2Target = BitArrayTarget<256>;

/// The 256 bits of an Ed25519 public key.
pub type Ed25519PublicKeyTarget = BitArrayTarget<256>;

/// Reads the targets of `N` consecutive bits as a set, and hands back where
/// the next set starts.
pub fn parse_next<TS: TargetSet>(raw: &[Target], start: usize) -> (parsed: (TS, usize))
    requires
        start + TS::size() <= raw@.len(),
    ensures
        parsed.0.targets() == raw@.subrange(start as int, start + TS::size()),
        parsed.1 == start + TS::size(),
{
    let total = raw.len();
    let set = TS::parse(raw, start);
    (set, start + TS::target_count())
}

/// Appends every target of `tail` to `flat`.
pub fn append_targets(flat: &mut Vec<Target>, tail: Vec<Target>)
    ensures
        final(flat)@ == old(flat)@ + tail@,
{
    let mut i: usize = 0;
    while i < tail.len()
        invariant
            i <= tail@.len(),
            flat@ == old(flat)@ + tail@.subrange(0, i as int),
        decreases tail@.len() - i,
    {
        flat.push(tail[i]);
        assert(flat@ =~= old(flat)@ + tail@.subrange(0, i + 1));
        i += 1;
    }
    assert(tail@.subrange(0, tail@.len() as int) =~= tail@);
}

/// The bit that stands at `position` when every group of eight bits is
/// reversed: the bits of each byte come least significant first.
pub open spec fn little_endian_bit(bits: Seq<bool>, position: int) -> bool {
    let group_start = position / 8 * 8;
    let group_end = if group_start + 8 <= bits.len() {
        group_start + 8
    } else {
        bits.len() as int
    };
    bits[group_start + (group_end - 1 - position)]
}

/// `bits` with every group of eight reversed.
pub open spec fn little_endian_bits(bits: Seq<bool>) -> Seq<bool> {
    Seq::new(bits.len(), |position: int| little_endian_bit(bits, position))
}

/// The number that a list of bits stands for, least significant first.
pub open spec fn le_sum(bits: Seq<bool>) -> int
    decreases bits.len(),
{
    if bits.len() == 0 {
        0
    } else {
        (if bits[0] { 1int } else { 0 }) + 2 * le_sum(bits.drop_first())
    }
}

/// The field element that the bits of a little-endian number stand for, the
/// bits of each byte given most significant first.
pub open spec fn spec_from_bool_targets_le(bits: Seq<bool>) -> int {
    reduce(le_sum(little_endian_bits(bits)))
}

/// A list of bits stands for a number below two to the power of its length.
pub proof fn lemma_le_sum_bound(bits: Seq<bool>)
    ensures
        0 <= le_sum(bits) < two_to(bits.len()),
    decreases bits.len(),
{
    if bits.len() > 0 {
        lemma_le_sum_bound(bits.drop_first());
    }
}

/// One more bit at the top adds its weight to the number.
pub proof fn lemma_le_sum_push(bits: Seq<bool>, top: bool)
    ensures
        le_sum(bits.push(top)) == le_sum(bits) + (if top { two_to(bits.len()) } else { 0 }),
    decreases bits.len(),
{
    if bits.len() == 0 {
        assert(bits.push(top).drop_first() =~= Seq::<bool>::empty());
        assert(le_sum(bits.push(top).drop_first()) == 0);
    } else {
        lemma_le_sum_push(bits.drop_first(), top);
        assert(bits.push(top).drop_first() =~= bits.drop_first().push(top));
    }
}

/// Sums at most 63 bits, least significant first.
fn sum_bits(bits: &Vec<bool>) -> (sum: u64)
    requires
        bits@.len() <= 63,
    ensures
        sum == le_sum(bits@),
{
    let mut sum: u64 = 0;
    let mut i: usize = bits.len();
    proof {
        assert(bits@.subrange(bits@.len() as int, bits@.len() as int) =~= Seq::<bool>::empty());
    }
    while i > 0
        invariant
            i <= bits@.len() <= 63,
            sum == le_sum(bits@.subrange(i as int, bits@.len() as int)),
        decreases i,
    {
        proof {
            let rest = bits@.subrange(i as int, bits@.len() as int);
            let next = bits@.subrange(i - 1, bits@.len() as int);
            assert(next.drop_first() =~= rest);
            lemma_le_sum_bound(rest);
            crate::bits::lemma_two_to_monotonic(rest.len(), 62);
            crate::bits::lemma_two_to_high_values();
        }
        i -= 1;
        sum = sum * 2 + (if bits[i] { 1 } else { 0 });
    }
    assert(bits@.subrange(0, bits@.len() as int) =~= bits@);
    sum
}

/// Reverses every group of eight bits.
fn reorder_bits(bits: &[bool]) -> (reordered: Vec<bool>)
    ensures
        reordered@ == little_endian_bits(bits@),
{
    let total = bits.len();
    let mut reordered: Vec<bool> = Vec::new();
    let mut position: usize = 0;
    while position < total
        invariant
            position <= total == bits@.len(),
            reordered@.len() == position,
            forall|k: int| 0 <= k < position ==> reordered@[k] == little_endian_bit(bits@, k),
        decreases total - position,
    {
        let group_start = position / 8 * 8;
        let group_end = if total - group_start >= 8 {
            group_start + 8
        } else {
            total
        };
        reordered.push(bits[group_start + (group_end - 1 - position)]);
        position += 1;
    }
    assert(reordered@ =~= little_endian_bits(bits@));
    reordered
}

/// Numbers put together from their bits.
pub trait TargetBitOperations {
    /// Puts a little-endian number of at most 64 bits together, the bits of
    /// each byte given most significant first. The top bit of a 64-bit number
    /// is added last, with its weight `2^63`, so that no partial sum leaves
    /// the field.
    fn from_bool_targets_le(bits: &[bool]) -> (value: u64)
        requires
            bits@.len() <= 64,
        ensures
            value == spec_from_bool_targets_le(bits@),
            is_canonical(value),
    {
        let mut ordered = reorder_bits(bits);
        let ghost all = ordered@;
        proof {
            lemma_le_sum_bound(all);
            crate::bits::lemma_two_to_high_values();
        }
        if ordered.len() == 64 {
            let most_significant_bit = ordered.pop().unwrap();
            proof {
                assert(all =~= ordered@.push(most_significant_bit));
                lemma_le_sum_push(ordered@, most_significant_bit);
                lemma_le_sum_bound(ordered@);
            }
            let partial_sum = sum_bits(&ordered);
            let most_significant_exp: u64 = 0x8000_0000_0000_0000;
            let top: u64 = if most_significant_bit { 1 } else { 0 };
            let product = field_mul(most_significant_exp, top);
            assert(product == if most_significant_bit {
                two_to(63)
            } else {
                0
            });
            field_add(product, partial_sum)
        } else {
            proof {
                crate::bits::lemma_two_to_monotonic(all.len(), 63);
            }
            sum_bits(&ordered)
        }
    }

    /// Puts a 64-bit little-endian number together. The result is the number
    /// modulo the order of the field.
    fn from_u64_bits_le_lossy(bits: &[bool; 64]) -> (value: u64)
        ensures
            value == spec_from_bool_targets_le(bits@),
            is_canonical(value),
    {
        Self::from_bool_targets_le(bits.as_slice())
    }
}

impl TargetBitOperations for Target {

}

/// The field elements that carry a list of bits: one for a set bit, zero for
/// a cleared one.
pub open spec fn spec_bits_to_field(bits: Seq<bool>) -> Seq<u64> {
    Seq::new(bits.len(), |i: int| if bits[i] { 1u64 } else { 0u64 })
}

/// Whether every field element of the list carries a bit.
pub open spec fn carries_bits(values: Seq<u64>) -> bool {
    forall|i: int| 0 <= i < values.len() ==> #[trigger] values[i] <= 1
}

/// The bits that a list of field elements carries.
pub open spec fn spec_field_to_bits(values: Seq<u64>) -> Seq<bool> {
    Seq::new(values.len(), |i: int| values[i] == 1)
}

/// Writes a list of bits as field elements.
pub fn bits_to_field(bits: &[bool]) -> (values: Vec<u64>)
    ensures
        values@ == spec_bits_to_field(bits@),
        carries_bits(values@),
{
    let mut values: Vec<u64> = Vec::new();
    let mut i: usize = 0;
    while i < bits.len()
        invariant
            i <= bits@.len(),
            values@.len() == i,
            forall|k: int| 0 <= k < i ==> values@[k] == (if bits@[k] { 1u64 } else { 0u64 }),
        decreases bits@.len() - i,
    {
        values.push(if bits[i] { 1 } else { 0 });
        i += 1;
    }
    assert(values@ =~= spec_bits_to_field(bits@));
    values
}

/// Reads a list of field elements as bits. A field element that is neither
/// zero nor one carries no bit.
pub fn field_to_bits(values: &[u64]) -> (bits: Option<Vec<bool>>)
    ensures
        bits is Some <==> carries_bits(values@),
        bits matches Some(list) ==> list@ == spec_field_to_bits(values@),
{
    let mut list: Vec<bool> = Vec::new();
    let mut i: usize = 0;
    while i < values.len()
        invariant
            i <= values@.len(),
            list@.len() == i,
            forall|k: int| 0 <= k < i ==> #[trigger] values@[k] <= 1,
            forall|k: int| 0 <= k < i ==> list@[k] == (values@[k] == 1),
        decreases values@.len() - i,
    {
        if values[i] > 1 {
            return None;
        }
        list.push(values[i] == 1);
        i += 1;
    }
    assert(list@ =~= spec_field_to_bits(values@));
    Some(list)
}

/// Reading the field elements that carry a list of bits gives the bits back.
pub proof fn lemma_bits_field_round_trip(bits: Seq<bool>)
    ensures
        carries_bits(spec_bits_to_field(bits)),
        spec_field_to_bits(spec_bits_to_field(bits)) == bits,
{
    assert(spec_field_to_bits(spec_bits_to_field(bits)) =~= bits);
}

/// The eight bytes of a 64-bit number, least significant first.
pub open spec fn spec_le_bytes(value: u64) -> Seq<u8> {
    Seq::new(8, |k: int| ((value as int / two_to((8 * k) as nat)) % 256) as u8)
}

/// The bits of a number, least significant first.
pub open spec fn spec_number_bits(value: int, count: nat) -> Seq<bool> {
    Seq::new(count, |j: int| (value / two_to(j as nat)) % 2 == 1)
}

/// Powers of two multiply by adding their exponents.
pub proof fn lemma_two_to_add(a: nat, b: nat)
    ensures
        two_to(a + b) == two_to(a) * two_to(b),
        two_to(a) > 0,
    decreases a,
{
    if a > 0 {
        lemma_two_to_add((a - 1) as nat, b);
        assert(two_to(a + b) == 2 * two_to(((a - 1) + b) as nat));
        assert(2 * (two_to((a - 1) as nat) * two_to(b)) == (2 * two_to((a - 1) as nat)) * two_to(b))
            by (nonlinear_arith);
    }
}

/// Bit `shift` of the part of `width` bits that starts at bit `low` of a
/// number is bit `low + shift` of the number.
pub proof fn lemma_bit_of_part(value: int, low: nat, width: nat, shift: nat)
    requires
        0 <= value,
        shift < width,
    ensures
        (((value / two_to(low)) % two_to(width)) / two_to(shift)) % 2 == (value / two_to(
            low + shift,
        )) % 2,
{
    let part = value / two_to(low);
    let a = two_to(shift);
    let rest = two_to((width - shift - 1) as nat);
    let b = 2 * rest;
    lemma_two_to_add(low, shift);
    lemma_two_to_add(shift, (width - shift) as nat);
    lemma_two_to_add((width - shift - 1) as nat, 0);
    assert(two_to((width - shift) as nat) == b);
    assert(two_to(width) == a * b);
    vstd::arithmetic::div_mod::lemma_div_pos_is_pos(value, two_to(low));
    vstd::arithmetic::div_mod::lemma_mod_breakdown(part, a, b);
    vstd::arithmetic::div_mod::lemma_mod_bound(part, a);
    vstd::arithmetic::div_mod::lemma_mod_bound(part / a, b);
    assert(part % (a * b) == ((part / a) % b) * a + part % a) by (nonlinear_arith)
        requires
            part % (a * b) == a * ((part / a) % b) + part % a,
    ;
    vstd::arithmetic::div_mod::lemma_fundamental_div_mod_converse(
        part % (a * b),
        a,
        (part / a) % b,
        part % a,
    );
    assert(((part % (a * b)) / a) % 2 == (part / a) % 2) by {
        assert(b == rest * 2) by (nonlinear_arith)
            requires
                b == 2 * rest,
        ;
        vstd::arithmetic::div_mod::lemma_mod_mod(part / a, 2, rest);
        assert(2 * rest == b);
    }
    vstd::arithmetic::div_mod::lemma_div_denominator(value, two_to(low), a);
}

/// The bits of a number, least significant first, stand for the number
/// modulo two to the power of their count.
pub proof fn lemma_le_sum_of_bits(value: int, count: nat)
    requires
        0 <= value,
    ensures
        le_sum(spec_number_bits(value, count)) == value % two_to(count),
    decreases count,
{
    let bits = spec_number_bits(value, count);
    if count == 0 {
        assert(value % 1 == 0);
    } else {
        let half = value / 2;
        let rest = two_to((count - 1) as nat);
        lemma_two_to_add((count - 1) as nat, 0);
        assert(bits.drop_first() =~= spec_number_bits(half, (count - 1) as nat)) by {
            assert forall|j: int| 0 <= j < count - 1 implies bits.drop_first()[j]
                == spec_number_bits(half, (count - 1) as nat)[j] by {
                lemma_two_to_add(j as nat, 0);
                assert(two_to((j + 1) as nat) == 2 * two_to(j as nat));
                vstd::arithmetic::div_mod::lemma_div_denominator(value, 2, two_to(j as nat));
            }
        }
        lemma_le_sum_of_bits(half, (count - 1) as nat);
        vstd::arithmetic::div_mod::lemma_mod_breakdown(value, 2, rest);
        assert(two_to(0) == 1);
        assert(value / 1 == value);
        assert(bits[0] == ((value / two_to(0)) % 2 == 1));
    }
}

/// The value put together from the bits of a 64-bit number is the number
/// modulo the order of the field: the bytes of the number are taken least
/// significant first, and the bits of each byte most significant first.
pub proof fn lemma_from_u64_bits(value: u64)
    ensures
        spec_from_bool_targets_le(crate::bits::spec_array_to_bits(spec_le_bytes(value)))
            == reduce(value as int),
{
    let bytes = spec_le_bytes(value);
    let bits = crate::bits::spec_array_to_bits(bytes);
    let ordered = little_endian_bits(bits);
    crate::bits::lemma_two_to_values();
    crate::bits::lemma_two_to_high_values();
    assert forall|j: int| 0 <= j < 64 implies ordered[j] == spec_number_bits(value as int, 64)[j] by {
        let group = j / 8;
        let shift = j % 8;
        let place = 8 * group + 7 - shift;
        assert(ordered[j] == bits[place]);
        assert(place / 8 == group && place % 8 == 7 - shift);
        assert(crate::bits::bit_weight(7 - shift) == two_to(shift as nat));
        let part = (value as int / two_to((8 * group) as nat)) % 256;
        lemma_two_to_add((8 * group) as nat, 0);
        vstd::arithmetic::div_mod::lemma_div_pos_is_pos(value as int, two_to((8 * group) as nat));
        vstd::arithmetic::div_mod::lemma_mod_bound(
            value as int / two_to((8 * group) as nat),
            256,
        );
        assert(bytes[group] as int == part);
        assert(two_to(8) == 256) by {
            lemma_two_to_add(7, 1);
        }
        lemma_bit_of_part(value as int, (8 * group) as nat, 8, shift as nat);
    }
    assert(ordered =~= spec_number_bits(value as int, 64));
    lemma_le_sum_of_bits(value as int, 64);
    assert(value as int % two_to(64) == value);
}

} // verus!
