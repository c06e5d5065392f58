use bridge_core::bits::array_to_bits;
use bridge_core::block_finality::{BlockFinalityTarget, GrandpaVoteTarget};
use bridge_core::common::{random_read, select_target_set, xor_targets};
use bridge_core::field::{
    field_add, field_mul, field_sub, from_noncanonical_u64, in_range_32, ORDER,
};
use bridge_core::targets::{
    bits_to_field, field_to_bits, parse_exact, parse_next, BitArrayTarget, Sha256Target, Target,
    TargetBitOperations, TargetSet, TargetSetError,
};

fn wires(count: usize) -> Vec<Target> {
    (0..count)
        .map(|index| Target {
            index: 1000 + index as u64,
        })
        .collect()
}

#[test]
fn test_single_target_from_u64_bits_le_lossy() {
    fn test_case(num: u64) {
        let bits = array_to_bits(&num.to_le_bytes());
        let bit_targets: [bool; 64] = bits.try_into().unwrap();

        let result = Target::from_u64_bits_le_lossy(&bit_targets);

        assert_eq!(result, from_noncanonical_u64(num));
        assert_eq!(result, num % ORDER);
        assert!(result < ORDER);
    }

    test_case(0);
    test_case(100_000);
    test_case(u32::MAX as u64);
    test_case(1 << 48);
    test_case(u64::MAX - (u32::MAX as u64) * 8);
    test_case(u64::MAX);
}

#[test]
fn from_u64_bits_wraps_at_the_order_of_the_field() {
    let bits: [bool; 64] = array_to_bits(&u64::MAX.to_le_bytes()).try_into().unwrap();
    assert_eq!(Target::from_u64_bits_le_lossy(&bits), 4_294_967_294);
    let bits: [bool; 64] = array_to_bits(&ORDER.to_le_bytes()).try_into().unwrap();
    assert_eq!(Target::from_u64_bits_le_lossy(&bits), 0);
    let bits: [bool; 64] = array_to_bits(&(ORDER - 1).to_le_bytes())
        .try_into()
        .unwrap();
    assert_eq!(Target::from_u64_bits_le_lossy(&bits), ORDER - 1);
}

#[test]
fn from_bool_targets_reads_bytes_little_endian() {
    let bits = array_to_bits(&0x1234u16.to_le_bytes());
    assert_eq!(Target::from_bool_targets_le(&bits), 0x1234);
    let bits = array_to_bits(&0xDEAD_BEEFu32.to_le_bytes());
    assert_eq!(Target::from_bool_targets_le(&bits), 0xDEAD_BEEF);
    assert_eq!(Target::from_bool_targets_le(&[]), 0);
    // one byte: most significant bit first
    assert_eq!(
        Target::from_bool_targets_le(&[true, false, false, false, false, false, false, true]),
        0x81
    );
    // a group of fewer than eight bits is reversed as a whole
    assert_eq!(Target::from_bool_targets_le(&[true, false, false]), 4);
}

#[test]
fn field_arithmetic_is_modular() {
    assert_eq!(ORDER, 18_446_744_069_414_584_321);
    assert_eq!(field_add(ORDER - 1, 1), 0);
    assert_eq!(field_add(ORDER - 1, ORDER - 1), ORDER - 2);
    assert_eq!(field_add(5, 7), 12);
    assert_eq!(field_sub(0, 1), ORDER - 1);
    assert_eq!(field_sub(7, 5), 2);
    assert_eq!(field_sub(5, 7), ORDER - 2);
    assert_eq!(field_mul(1 << 63, 2), (1u64 << 32) - 1);
    assert_eq!(field_mul(ORDER - 1, ORDER - 1), 1);
    assert_eq!(field_mul(3, 4), 12);
    assert_eq!(from_noncanonical_u64(ORDER + 5), 5);
    assert!(in_range_32(u32::MAX as u64));
    assert!(!in_range_32(1 << 32));
    assert!(!in_range_32(field_sub(field_sub(3, 3), 1)));
    assert!(in_range_32(field_sub(field_sub(4, 3), 1)));
}

#[test]
fn parse_exact_round_trips_a_bit_array() {
    let raw = wires(256);
    let set: Sha256Target = parse_exact(&raw).unwrap();
    assert_eq!(set.bits[0], raw[0]);
    assert_eq!(set.bits[255], raw[255]);
    assert_eq!(set.into_targets_iter(), raw);
}

#[test]
fn parse_exact_round_trips_a_vote() {
    let raw = wires(424);
    let vote: GrandpaVoteTarget = parse_exact(&raw).unwrap();
    assert_eq!(vote.aux_data.bits[..], raw[..8]);
    assert_eq!(vote.block_hash.bits[..], raw[8..264]);
    assert_eq!(vote.aux_data_2.bits[..], raw[264..]);
    let flat = vote.into_targets_iter();
    assert_eq!(flat, raw);
    let again: GrandpaVoteTarget = parse_exact(&flat).unwrap();
    assert_eq!(again.into_targets_iter(), raw);
}

#[test]
fn parse_exact_round_trips_block_finality() {
    let raw = wires(680);
    let set: BlockFinalityTarget = parse_exact(&raw).unwrap();
    assert_eq!(set.validator_set_hash.bits[..], raw[..256]);
    assert_eq!(set.message.block_hash.bits[..], raw[264..520]);
    assert_eq!(set.into_targets_iter(), raw);
    assert_eq!(BlockFinalityTarget::target_count(), 680);
    assert_eq!(GrandpaVoteTarget::target_count(), 424);
}

#[test]
fn parse_exact_refuses_missing_and_trailing_targets() {
    let short: Result<Sha256Target, TargetSetError> = parse_exact(&wires(255));
    assert_eq!(
        short.err(),
        Some(TargetSetError {
            expected: 256,
            found: 255
        })
    );
    let long: Result<Sha256Target, TargetSetError> = parse_exact(&wires(257));
    assert_eq!(
        long.err(),
        Some(TargetSetError {
            expected: 256,
            found: 257
        })
    );
    let empty: Result<Target, TargetSetError> = parse_exact(&[]);
    assert!(empty.is_err());
    let one: Result<Target, TargetSetError> = parse_exact(&wires(1));
    assert_eq!(one, Ok(Target { index: 1000 }));
}

#[test]
fn sets_are_parsed_one_after_another() {
    let raw = wires(12);
    let (first, next): (BitArrayTarget<8>, usize) = parse_next(&raw, 0);
    assert_eq!(next, 8);
    let (second, next): (Target, usize) = parse_next(&raw, next);
    assert_eq!(next, 9);
    assert_eq!(first.bits[..], raw[..8]);
    assert_eq!(second, raw[8]);
    let third = BitArrayTarget::<3>::parse(&raw, 9);
    assert_eq!(third.bits[..], raw[9..]);
}

#[test]
fn xor_of_two_bits() {
    assert!(!xor_targets(false, false));
    assert!(xor_targets(false, true));
    assert!(xor_targets(true, false));
    assert!(!xor_targets(true, true));
}

#[test]
fn select_picks_one_of_two_sets() {
    assert_eq!(
        select_target_set(true, &[1, 2, 3], &[4, 5, 6]),
        Some(vec![1, 2, 3])
    );
    assert_eq!(
        select_target_set(false, &[1, 2, 3], &[4, 5, 6]),
        Some(vec![4, 5, 6])
    );
    assert_eq!(select_target_set(true, &[1, 2], &[4, 5, 6]), None);
    assert_eq!(select_target_set(false, &[], &[]), Some(vec![]));
}

#[test]
fn random_read_picks_the_element_at_the_index() {
    assert_eq!(random_read(0, &[7, 8, 9]), Some(7));
    assert_eq!(random_read(2, &[7, 8, 9]), Some(9));
    assert_eq!(random_read(3, &[7, 8, 9]), None);
    assert_eq!(random_read(0, &[]), None);
}

#[test]
fn bits_are_carried_by_field_elements() {
    assert_eq!(bits_to_field(&[true, false, true]), vec![1, 0, 1]);
    assert_eq!(bits_to_field(&[]), Vec::<u64>::new());
    assert_eq!(field_to_bits(&[1, 0, 0, 1]), Some(vec![true, false, false, true]));
    assert_eq!(field_to_bits(&[1, 2, 0]), None);
    assert_eq!(field_to_bits(&[u64::MAX]), None);
    assert_eq!(field_to_bits(&[]), Some(vec![]));
}
