//! Bit-level view of IEEE-754 binary32 values.
//!
//! A vector component is carried as the raw bit pattern of a binary32
//! value. Classification (NaN) and the standard's ordering are pure
//! functions of the bit pattern, so they are defined and verified here
//! directly; only rounding arithmetic needs a software floating-point
//! implementation (see the arithmetic wrappers).

use vstd::prelude::*;

verus! {

/// Bit pattern of the binary32 value one.
pub const ONE_BITS: u32 = 0x3F80_0000;

/// Bit pattern of binary32 positive infinity.
pub const PLUS_INF_BITS: u32 = 0x7F80_0000;

/// Bit pattern of binary32 negative infinity.
pub const MINUS_INF_BITS: u32 = 0xFF80_0000;

/// Bit pattern of the binary32 value ten to the minus tenth power.
/// A vector whose norm is at or below this floor is stored without
/// dividing the norm out.
pub const NORM_FLOOR_BITS: u32 = 0x2EDB_E6FF;

/// A binary32 bit pattern encodes NaN when the exponent field is all
/// ones and the fraction field is not zero.
pub open spec fn is_nan_bits(x: u32) -> bool {
    x & 0x7F80_0000 == 0x7F80_0000 && x & 0x007F_FFFF != 0
}

/// Negative zero denotes the same value as positive zero; map it there
/// so that the order key below identifies the two.
pub open spec fn canon_bits(x: u32) -> u32 {
    if x == 0x8000_0000u32 {
        0u32
    } else {
        x
    }
}

/// An order-preserving key: for bit patterns `a`, `b` that are not NaN,
/// the binary32 values satisfy `a < b` exactly when
/// `key_bits(a) < key_bits(b)`, and denote the same value exactly when
/// the keys are equal. Non-negative patterns are moved above all
/// negative ones; negative patterns are reflected because their raw
/// order is the reverse of the value order.
pub open spec fn key_bits(x: u32) -> u32 {
    let c = canon_bits(x);
    if c < 0x8000_0000u32 {
        c | 0x8000_0000u32
    } else {
        !c
    }
}

/// The strict `greater than` comparison of the standard on binary32 bit
/// patterns: false whenever either side is NaN, otherwise the value
/// order.
pub open spec fn gt_bits(a: u32, b: u32) -> bool {
    &&& !is_nan_bits(a)
    &&& !is_nan_bits(b)
    &&& key_bits(a) > key_bits(b)
}

/// Runtime NaN test, exactly `is_nan_bits`.
pub fn nan32(x: u32) -> (r: bool)
    ensures
        r == is_nan_bits(x),
{
    x & 0x7F80_0000 == 0x7F80_0000 && x & 0x007F_FFFF != 0
}

/// Runtime order key, exactly `key_bits`.
pub fn key32(x: u32) -> (r: u32)
    ensures
        r == key_bits(x),
{
    let c: u32 = if x == 0x8000_0000 {
        0
    } else {
        x
    };
    if c < 0x8000_0000 {
        c | 0x8000_0000
    } else {
        !c
    }
}

/// Runtime strict `greater than`, exactly `gt_bits`.
pub fn gt32(a: u32, b: u32) -> (r: bool)
    ensures
        r == gt_bits(a, b),
{
    !nan32(a) && !nan32(b) && key32(a) > key32(b)
}

/// Nothing is strictly greater than positive infinity.
pub proof fn lemma_nothing_above_plus_inf(x: u32)
    ensures
        !gt_bits(x, PLUS_INF_BITS),
{
    assert(!is_nan_bits(x) ==> key_bits(x) <= key_bits(PLUS_INF_BITS)) by (bit_vector);
}

/// Every bit pattern that is neither NaN nor negative infinity is
/// strictly greater than negative infinity.
pub proof fn lemma_everything_above_minus_inf(x: u32)
    requires
        !is_nan_bits(x),
        x != MINUS_INF_BITS,
    ensures
        gt_bits(x, MINUS_INF_BITS),
{
    assert(!is_nan_bits(MINUS_INF_BITS)) by (bit_vector);
    assert(!is_nan_bits(x) && x != MINUS_INF_BITS ==> key_bits(x) > key_bits(MINUS_INF_BITS))
        by (bit_vector);
}

} // verus!
