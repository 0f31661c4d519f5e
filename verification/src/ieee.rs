//! Comparison of IEEE-754 binary64 values given by their bit patterns.
//!
//! A binary64 value is a sign bit (bit 63) above a 63-bit magnitude field
//! (exponent and fraction). The encoding is chosen so that, for values that
//! are not NaN, the order of the numbers is the order of their magnitude
//! fields, reversed for negative numbers; the two zeros are equal. A value is
//! NaN exactly when its exponent field is all ones and its fraction is not
//! zero, that is when its magnitude field exceeds `0x7FF0_0000_0000_0000`
//! (the magnitude of infinity). NaN is unordered: every comparison with it is
//! false.
//!
//! The functions below compute `<`, `<=`, `==` and the tests against `0.0`
//! exactly as the standard defines them, on bits.
use vstd::prelude::*;

verus! {

/// The sign bit of a binary64 value.
pub const SIGN_BIT: u64 = 0x8000_0000_0000_0000;

/// The magnitude field of positive infinity; larger magnitudes are NaN.
pub const INFINITY_MAGNITUDE: u64 = 0x7FF0_0000_0000_0000;

/// The bit pattern of `+0.0`.
pub const POSITIVE_ZERO: u64 = 0;

/// Whether the sign bit is set.
pub open spec fn sign_set(b: u64) -> bool {
    b >= SIGN_BIT
}

/// The 63-bit magnitude field (exponent and fraction).
pub open spec fn magnitude(b: u64) -> int {
    if sign_set(b) {
        b - SIGN_BIT
    } else {
        b as int
    }
}

/// The value is a NaN.
pub open spec fn nan_bits(b: u64) -> bool {
    magnitude(b) > INFINITY_MAGNITUDE
}

/// The value is `+0.0` or `-0.0`.
pub open spec fn zero_bits(b: u64) -> bool {
    magnitude(b) == 0
}

/// Position of a non-NaN value on the number line: the magnitude field,
/// negated for negative values. Both zeros sit at 0.
pub open spec fn ordinal(b: u64) -> int {
    if sign_set(b) {
        -magnitude(b)
    } else {
        magnitude(b)
    }
}

/// `a < b` on binary64 values.
pub open spec fn lt_bits(a: u64, b: u64) -> bool {
    !nan_bits(a) && !nan_bits(b) && ordinal(a) < ordinal(b)
}

/// `a <= b` on binary64 values.
pub open spec fn le_bits(a: u64, b: u64) -> bool {
    !nan_bits(a) && !nan_bits(b) && ordinal(a) <= ordinal(b)
}

/// `a == b` on binary64 values (so `-0.0 == 0.0` and `NaN != NaN`).
pub open spec fn eq_bits(a: u64, b: u64) -> bool {
    !nan_bits(a) && !nan_bits(b) && ordinal(a) == ordinal(b)
}

/// `b > 0.0` on binary64 values.
pub open spec fn positive_bits(b: u64) -> bool {
    lt_bits(POSITIVE_ZERO, b)
}

/// `x.is_nan()` for the value with bits `b`.
pub fn is_nan(b: u64) -> (r: bool)
    ensures
        r == nan_bits(b),
{
    let m = if b >= SIGN_BIT {
        b - SIGN_BIT
    } else {
        b
    };
    m > INFINITY_MAGNITUDE
}

/// `x == 0.0` for the value with bits `b`.
pub fn is_zero(b: u64) -> (r: bool)
    ensures
        r == zero_bits(b),
        r == eq_bits(b, POSITIVE_ZERO),
{
    b == 0 || b == SIGN_BIT
}

/// Rank of a value: its ordinal shifted into `u64`, so that non-NaN values
/// compare by rank as they compare as numbers.
pub fn rank(b: u64) -> (r: u64)
    ensures
        r == ordinal(b) + SIGN_BIT,
{
    if b >= SIGN_BIT {
        SIGN_BIT - (b - SIGN_BIT)
    } else {
        b + SIGN_BIT
    }
}

/// `a < b` for the values with bits `a` and `b`.
pub fn less(a: u64, b: u64) -> (r: bool)
    ensures
        r == lt_bits(a, b),
{
    !is_nan(a) && !is_nan(b) && rank(a) < rank(b)
}

/// `a <= b` for the values with bits `a` and `b`.
pub fn less_eq(a: u64, b: u64) -> (r: bool)
    ensures
        r == le_bits(a, b),
{
    !is_nan(a) && !is_nan(b) && rank(a) <= rank(b)
}

/// `b > 0.0` for the value with bits `b`.
pub fn is_positive(b: u64) -> (r: bool)
    ensures
        r == positive_bits(b),
{
    less(POSITIVE_ZERO, b)
}

/// On values that are not NaN, `<` is a strict total order and `<=` is its
/// reflexive closure up to the equality of the two zeros; `<` and `<=` are
/// never true of a NaN.
pub proof fn lemma_float_order(a: u64, b: u64, c: u64)
    ensures
        lt_bits(a, b) ==> !lt_bits(b, a),
        lt_bits(a, b) && lt_bits(b, c) ==> lt_bits(a, c),
        le_bits(a, b) && le_bits(b, c) ==> le_bits(a, c),
        lt_bits(a, b) ==> le_bits(a, b),
        !nan_bits(a) && !nan_bits(b) ==> (lt_bits(a, b) || le_bits(b, a)),
        !nan_bits(a) && !nan_bits(b) ==> (le_bits(a, b) <==> !lt_bits(b, a)),
        nan_bits(a) ==> !lt_bits(a, b) && !lt_bits(b, a) && !le_bits(a, b) && !le_bits(b, a),
        eq_bits(a, b) <==> le_bits(a, b) && le_bits(b, a),
{
}

/// The two zeros are equal and are neither positive nor NaN.
pub proof fn lemma_zeros()
    ensures
        eq_bits(POSITIVE_ZERO, SIGN_BIT),
        zero_bits(POSITIVE_ZERO),
        zero_bits(SIGN_BIT),
        !positive_bits(POSITIVE_ZERO),
        !positive_bits(SIGN_BIT),
        !nan_bits(POSITIVE_ZERO),
{
}

} // verus!
