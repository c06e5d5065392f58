use bridge_core::bits::{array_to_bits, bits_to_byte, bits_to_bytes, byte_to_bits, pad_byte_vec};

#[test]
fn byte_to_bits_is_most_significant_first() {
    assert_eq!(
        byte_to_bits(0b1000_0001),
        [true, false, false, false, false, false, false, true]
    );
    assert_eq!(
        byte_to_bits(0b0110_0000),
        [false, true, true, false, false, false, false, false]
    );
    assert_eq!(byte_to_bits(0), [false; 8]);
    assert_eq!(byte_to_bits(255), [true; 8]);
}

#[test]
fn bits_to_byte_is_most_significant_first() {
    assert_eq!(
        bits_to_byte([true, false, false, false, false, false, false, false]),
        128
    );
    assert_eq!(
        bits_to_byte([false, false, false, false, false, false, true, true]),
        3
    );
    assert_eq!(bits_to_byte([true; 8]), 255);
    assert_eq!(bits_to_byte([false; 8]), 0);
}

#[test]
fn byte_and_bits_round_trip_on_every_byte() {
    for byte in 0..=255u8 {
        assert_eq!(bits_to_byte(byte_to_bits(byte)), byte);
    }
}

#[test]
fn bits_and_byte_round_trip_on_every_pattern() {
    for pattern in 0..=255u8 {
        let mut bits = [false; 8];
        for (position, bit) in bits.iter_mut().enumerate() {
            *bit = (pattern >> position) & 1 == 1;
        }
        assert_eq!(byte_to_bits(bits_to_byte(bits)), bits);
    }
}

#[test]
fn array_to_bits_keeps_byte_order() {
    let bits = array_to_bits(&[0x01, 0x80]);
    let mut expected = vec![false; 16];
    expected[7] = true;
    expected[8] = true;
    assert_eq!(bits, expected);
    assert_eq!(array_to_bits(&[]), Vec::<bool>::new());
}

#[test]
fn array_to_bits_of_little_endian_number() {
    let bits = array_to_bits(&100_000u64.to_le_bytes());
    assert_eq!(bits.len(), 64);
    // 100_000 = 0x0186A0: the first byte is 0xA0.
    assert_eq!(&bits[..8], &[true, false, true, false, false, false, false, false]);
    assert_eq!(&bits[8..16], &[true, false, false, false, false, true, true, false]);
    assert_eq!(&bits[16..24], &[false, false, false, false, false, false, false, true]);
    assert!(bits[24..].iter().all(|bit| !bit));
}

#[test]
fn pad_byte_vec_fills_with_zeros() {
    let padded: [u8; 6] = pad_byte_vec(vec![7, 8, 9]);
    assert_eq!(padded, [7, 8, 9, 0, 0, 0]);
    let full: [u8; 3] = pad_byte_vec(vec![1, 2, 3]);
    assert_eq!(full, [1, 2, 3]);
    let empty: [u8; 4] = pad_byte_vec(vec![]);
    assert_eq!(empty, [0; 4]);
}

#[test]
fn pad_byte_vec_truncates_back() {
    let data = vec![0xAA, 0, 0xBB, 0];
    let padded: [u8; 32] = pad_byte_vec(data.clone());
    assert_eq!(&padded[..data.len()], &data[..]);
    assert!(padded[data.len()..].iter().all(|byte| *byte == 0));
}

#[test]
fn bits_to_bytes_packs_eight_bits_per_byte() {
    let bits = array_to_bits(&[0xA5, 0x00, 0xFF, 0x81]);
    assert_eq!(bits_to_bytes(&bits), vec![0xA5, 0x00, 0xFF, 0x81]);
    assert_eq!(bits_to_bytes(&[]), Vec::<u8>::new());
    assert_eq!(
        bits_to_bytes(&[false, false, false, false, false, false, true, false]),
        vec![2]
    );
}
