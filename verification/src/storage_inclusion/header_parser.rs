//! The header of a trie node: a fixed prefix that names the node's kind,
//! followed by the number of nibbles of the node's partial key.
//!
//! The count starts in the low bits of the first byte. When those bits are all
//! set, the second byte is added to them; a second byte that is itself all ones
//! would announce a third byte, which is not accepted.

use vstd::prelude::*;
use crate::bits::{lemma_two_to_monotonic, lemma_two_to_values, two_to};

verus! {

/// Prefix that names a kind of trie node.
#[derive(Clone, Copy, Debug)]
pub struct HeaderDescriptor {
    /// The first byte of a header with a zero count.
    pub masked_prefix: u8,
    /// Number of leading bits of the first byte that make up the prefix.
    pub prefix_length: usize,
}

/// What the header of a node says.
#[derive(Clone, Copy, Debug, PartialEq, Eq, Structural)]
pub struct HeaderParserOutput {
    /// Number of nibbles of the partial key that follows the header.
    pub nibble_count: u64,
    /// Number of bytes that the header takes.
    pub resulting_offset: u64,
}

impl HeaderDescriptor {
    /// The prefix takes between one and seven bits, and the bits behind it
    /// are zero in `masked_prefix`.
    pub open spec fn well_formed(self) -> bool {
        &&& 1 <= self.prefix_length <= 7
        &&& self.masked_prefix as int % self.span() == 0
    }

    /// Number of values that the count's part of the first byte can take.
    pub open spec fn span(self) -> int {
        two_to((8 - self.prefix_length) as nat)
    }

    /// Whether `first_byte` starts with this prefix.
    pub open spec fn spec_prefix_matches(self, first_byte: u8) -> bool {
        first_byte as int / self.span() == self.masked_prefix as int / self.span()
    }

    /// A branch node that holds no value: prefix `10`.
    pub open spec fn spec_branch_without_value() -> HeaderDescriptor {
        HeaderDescriptor { masked_prefix: 0b1000_0000, prefix_length: 2 }
    }

    /// A leaf node that holds the hash of its value: prefix `001`.
    pub open spec fn spec_hashed_value_leaf() -> HeaderDescriptor {
        HeaderDescriptor { masked_prefix: 0b0010_0000, prefix_length: 3 }
    }

    /// A leaf node that holds its value inline: prefix `01`.
    pub open spec fn spec_leaf() -> HeaderDescriptor {
        HeaderDescriptor { masked_prefix: 0b0100_0000, prefix_length: 2 }
    }

    /// The three kinds of node are well formed.
    pub proof fn lemma_kinds_well_formed()
        ensures
            Self::spec_branch_without_value().well_formed(),
            Self::spec_hashed_value_leaf().well_formed(),
            Self::spec_leaf().well_formed(),
            Self::spec_branch_without_value().span() == 64,
            Self::spec_hashed_value_leaf().span() == 32,
            Self::spec_leaf().span() == 64,
    {
        lemma_two_to_values();
    }

    /// A branch node that holds no value: prefix `10`.
    pub fn branch_without_value() -> (descriptor: HeaderDescriptor)
        ensures
            descriptor.well_formed(),
            descriptor == Self::spec_branch_without_value(),
    {
        proof {
            lemma_two_to_values();
        }
        HeaderDescriptor { masked_prefix: 0b1000_0000, prefix_length: 2 }
    }

    /// A leaf node that holds the hash of its value: prefix `001`.
    pub fn hashed_value_leaf() -> (descriptor: HeaderDescriptor)
        ensures
            descriptor.well_formed(),
            descriptor == Self::spec_hashed_value_leaf(),
    {
        proof {
            lemma_two_to_values();
        }
        HeaderDescriptor { masked_prefix: 0b0010_0000, prefix_length: 3 }
    }

    /// A leaf node that holds its value inline: prefix `01`.
    pub fn leaf() -> (descriptor: HeaderDescriptor)
        ensures
            descriptor.well_formed(),
            descriptor == Self::spec_leaf(),
    {
        proof {
            lemma_two_to_values();
        }
        HeaderDescriptor { masked_prefix: 0b0100_0000, prefix_length: 2 }
    }

    /// Computes the number of values that the count's part of the first byte
    /// can take.
    fn value_span(&self) -> (span: u8)
        requires
            self.well_formed(),
        ensures
            span == self.span(),
            2 <= span <= 128,
    {
        proof {
            lemma_two_to_values();
        }
        let mut span: u8 = 1;
        let mut bits: usize = 0;
        while bits < 8 - self.prefix_length
            invariant
                1 <= self.prefix_length <= 7,
                bits <= 8 - self.prefix_length,
                span == two_to(bits as nat),
                forall|e: nat| e <= 7 ==> 1 <= #[trigger] two_to(e) <= 128,
            decreases 8 - self.prefix_length - bits,
        {
            assert(two_to((bits + 1) as nat) == 2 * two_to(bits as nat));
            assert(two_to((bits + 1) as nat) <= 128);
            span = span * 2;
            bits += 1;
        }
        assert(two_to(1) <= span) by {
            lemma_two_to_monotonic(1, (8 - self.prefix_length) as nat);
        }
        span
    }

    /// Tells whether `node_data` starts with this prefix. Empty data does not.
    pub fn prefix_matches(&self, node_data: &[u8]) -> (matches: bool)
        requires
            self.well_formed(),
        ensures
            matches == (node_data@.len() > 0 && self.spec_prefix_matches(node_data@[0])),
    {
        if node_data.len() == 0 {
            return false;
        }
        let span = self.value_span();
        node_data[0] / span == self.masked_prefix / span
    }
}

/// What a header that starts with `first_byte` and `second_byte` says under
/// `descriptor`, if it is a header of that kind and its count fits in two
/// bytes.
pub open spec fn spec_define(first_byte: u8, second_byte: u8, descriptor: HeaderDescriptor)
    -> Option<HeaderParserOutput> {
    let span = descriptor.span();
    let first_value = first_byte as int % span;
    if !descriptor.spec_prefix_matches(first_byte) {
        None
    } else if first_value != span - 1 {
        Some(HeaderParserOutput { nibble_count: first_value as u64, resulting_offset: 1 })
    } else if second_byte != 255 {
        Some(
            HeaderParserOutput {
                nibble_count: (second_byte as int + span - 1) as u64,
                resulting_offset: 2,
            },
        )
    } else {
        None
    }
}

/// Reads the header of a node from its first two bytes. Returns `None` where
/// the first byte does not start with the descriptor's prefix, and where the
/// count would need a third byte.
pub fn define(first_bytes: [u8; 2], descriptor: HeaderDescriptor) -> (output: Option<
    HeaderParserOutput,
>)
    requires
        descriptor.well_formed(),
    ensures
        output == spec_define(first_bytes@[0], first_bytes@[1], descriptor),
{
    let span = descriptor.value_span();
    let first_byte = first_bytes[0];
    let second_byte = first_bytes[1];
    if first_byte / span != descriptor.masked_prefix / span {
        return None;
    }
    let first_value = first_byte % span;
    let max_first_value = span - 1;
    if first_value != max_first_value {
        Some(HeaderParserOutput { nibble_count: first_value as u64, resulting_offset: 1 })
    } else if second_byte != 255 {
        Some(
            HeaderParserOutput {
                nibble_count: second_byte as u64 + max_first_value as u64,
                resulting_offset: 2,
            },
        )
    } else {
        None
    }
}

} // verus!
