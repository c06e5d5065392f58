//! Arithmetic of the field that the circuits compute in: the integers modulo
//! `2^64 - 2^32 + 1`.

use vstd::prelude::*;

verus! {

/// The order of the field.
pub const ORDER: u64 = 0xFFFF_FFFF_0000_0001;

/// The field element that an integer stands for.
pub open spec fn reduce(value: int) -> int {
    value % (ORDER as int)
}

/// Whether `value` is the least non-negative representative of its class.
pub open spec fn is_canonical(value: u64) -> bool {
    value < ORDER
}

/// Reduces a 64-bit number to the field element that it stands for.
pub fn from_noncanonical_u64(value: u64) -> (element: u64)
    ensures
        element == reduce(value as int),
        is_canonical(element),
{
    value % ORDER
}

/// Adds two field elements.
pub fn field_add(a: u64, b: u64) -> (sum: u64)
    requires
        is_canonical(a),
        is_canonical(b),
    ensures
        sum == reduce(a + b),
        is_canonical(sum),
{
    let wide: u128 = a as u128 + b as u128;
    (wide % (ORDER as u128)) as u64
}

/// Subtracts one field element from another.
pub fn field_sub(a: u64, b: u64) -> (difference: u64)
    requires
        is_canonical(a),
        is_canonical(b),
    ensures
        difference == reduce(a - b),
        is_canonical(difference),
{
    if a >= b {
        a - b
    } else {
        let wide: u128 = a as u128 + ORDER as u128 - b as u128;
        assert(wide == a - b + ORDER);
        assert(0 <= a - b + ORDER < ORDER);
        assert((a - b) % (ORDER as int) == a - b + ORDER) by {
            vstd::arithmetic::div_mod::lemma_fundamental_div_mod_converse(
                a - b,
                ORDER as int,
                -1,
                a - b + ORDER,
            );
        }
        wide as u64
    }
}

/// Multiplies two field elements.
pub fn field_mul(a: u64, b: u64) -> (product: u64)
    requires
        is_canonical(a),
        is_canonical(b),
    ensures
        product == reduce(a * b),
        is_canonical(product),
{
    assert(a * b <= 0xFFFF_FFFF_FFFF_FFFF * 0xFFFF_FFFF_FFFF_FFFF) by (nonlinear_arith)
        requires
            a <= 0xFFFF_FFFF_FFFF_FFFF,
            b <= 0xFFFF_FFFF_FFFF_FFFF,
    ;
    let wide: u128 = a as u128 * b as u128;
    (wide % (ORDER as u128)) as u64
}

/// Tells whether a field element passes a range check of 32 bits.
pub fn in_range_32(value: u64) -> (ok: bool)
    ensures
        ok == (value < 0x1_0000_0000),
{
    value < 0x1_0000_0000
}

} // verus!
