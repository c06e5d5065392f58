use bridge_core::storage_inclusion::header_parser::{define, HeaderDescriptor, HeaderParserOutput};

struct ExpectedData {
    nibble_count: u64,
    resulting_offset: u64,
}

fn test_case(
    first_bytes: &[u8; 2],
    header_descriptor: HeaderDescriptor,
    expected_data: Option<ExpectedData>,
) {
    let output = define(*first_bytes, header_descriptor);
    let expected = expected_data.map(|expected| HeaderParserOutput {
        nibble_count: expected.nibble_count,
        resulting_offset: expected.resulting_offset,
    });
    assert_eq!(output, expected);
}

#[test]
fn test_branch_header_parser() {
    test_case(
        &[0b10_01_00_00, 0],
        HeaderDescriptor::branch_without_value(),
        Some(ExpectedData {
            nibble_count: 16,
            resulting_offset: 1,
        }),
    );

    test_case(
        &[0b10_11_11_11, 0b_00_00_00_00],
        HeaderDescriptor::branch_without_value(),
        Some(ExpectedData {
            nibble_count: 63,
            resulting_offset: 2,
        }),
    );

    test_case(
        &[0b10_11_11_11, 0b_10_00_00_00],
        HeaderDescriptor::branch_without_value(),
        Some(ExpectedData {
            nibble_count: 63 + 128,
            resulting_offset: 2,
        }),
    );
}

#[test]
fn test_leaf_header_parser() {
    test_case(
        &[0b00_11_00_00, 0],
        HeaderDescriptor::hashed_value_leaf(),
        Some(ExpectedData {
            nibble_count: 16,
            resulting_offset: 1,
        }),
    );

    test_case(
        &[0b00_11_11_11, 0b_00_00_00_00],
        HeaderDescriptor::hashed_value_leaf(),
        Some(ExpectedData {
            nibble_count: 31,
            resulting_offset: 2,
        }),
    );

    test_case(
        &[0b00_11_11_11, 0b_10_00_00_00],
        HeaderDescriptor::hashed_value_leaf(),
        Some(ExpectedData {
            nibble_count: 31 + 128,
            resulting_offset: 2,
        }),
    );
}

#[test]
fn branch_header_whose_count_needs_a_third_byte_is_rejected() {
    test_case(
        &[0b10_11_11_11, 0b11_11_11_11],
        HeaderDescriptor::branch_without_value(),
        None,
    );
}

#[test]
fn branch_header_with_wrong_prefix_is_rejected() {
    test_case(
        &[0b00_00_00_11, 0],
        HeaderDescriptor::branch_without_value(),
        None,
    );
    test_case(
        &[0b11_00_00_01, 0],
        HeaderDescriptor::branch_without_value(),
        None,
    );
}

#[test]
fn leaf_header_whose_count_needs_a_third_byte_is_rejected() {
    test_case(
        &[0b00_11_11_11, 0b11_11_11_11],
        HeaderDescriptor::hashed_value_leaf(),
        None,
    );
}

#[test]
fn leaf_header_with_wrong_prefix_is_rejected() {
    test_case(
        &[0b10_00_00_11, 0],
        HeaderDescriptor::hashed_value_leaf(),
        None,
    );
}

#[test]
fn inline_leaf_header_counts_six_bits() {
    test_case(
        &[0b01_00_01_01, 9],
        HeaderDescriptor::leaf(),
        Some(ExpectedData {
            nibble_count: 5,
            resulting_offset: 1,
        }),
    );
    test_case(
        &[0b01_11_11_11, 254],
        HeaderDescriptor::leaf(),
        Some(ExpectedData {
            nibble_count: 63 + 254,
            resulting_offset: 2,
        }),
    );
}

#[test]
fn header_with_zero_count() {
    test_case(
        &[0b10_00_00_00, 0xFF],
        HeaderDescriptor::branch_without_value(),
        Some(ExpectedData {
            nibble_count: 0,
            resulting_offset: 1,
        }),
    );
}

#[test]
fn prefix_matches_looks_at_the_first_byte() {
    assert!(HeaderDescriptor::hashed_value_leaf().prefix_matches(&[0b00_10_00_00]));
    assert!(HeaderDescriptor::hashed_value_leaf().prefix_matches(&[0b00_11_11_11, 1]));
    assert!(!HeaderDescriptor::hashed_value_leaf().prefix_matches(&[0b01_00_00_00]));
    assert!(!HeaderDescriptor::hashed_value_leaf().prefix_matches(&[]));
    assert!(HeaderDescriptor::leaf().prefix_matches(&[0b01_00_00_01]));
    assert!(!HeaderDescriptor::leaf().prefix_matches(&[0b10_00_00_01]));
    assert!(HeaderDescriptor::branch_without_value().prefix_matches(&[0b10_00_00_01]));
}
