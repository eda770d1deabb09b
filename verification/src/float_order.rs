//! Comparison of IEEE-754 binary64 values given as their bit patterns.

use vstd::prelude::*;

verus! {

/// Bit pattern of the sign bit of a binary64 value.
pub const SIGN_BIT: u64 = 0x8000_0000_0000_0000;

/// Bit pattern of positive infinity; every magnitude above it is a NaN.
pub const POSITIVE_INFINITY: u64 = 0x7FF0_0000_0000_0000;

/// The value with the sign bit cleared: exponent and mantissa.
pub open spec fn magnitude(bits: u64) -> int {
    if bits >= SIGN_BIT {
        bits - SIGN_BIT
    } else {
        bits as int
    }
}

/// Whether the bit pattern encodes a NaN (all-ones exponent, nonzero mantissa).
pub open spec fn is_nan(bits: u64) -> bool {
    magnitude(bits) > POSITIVE_INFINITY
}

/// An integer with the same order as the number that a non-NaN bit pattern
/// encodes: among non-negative values the order of magnitudes follows the
/// unsigned order of the 63 low bits, and negatives mirror it. Both zeros
/// map to 0.
pub open spec fn numeric_rank(bits: u64) -> int {
    if bits >= SIGN_BIT {
        -magnitude(bits)
    } else {
        magnitude(bits)
    }
}

/// `a < b` on the two encoded numbers, as `f64`'s `<` decides it: false as
/// soon as one of them is NaN.
pub open spec fn float_lt(a: u64, b: u64) -> bool {
    !is_nan(a) && !is_nan(b) && numeric_rank(a) < numeric_rank(b)
}

/// Computes `f64::from_bits(a) < f64::from_bits(b)`.
pub fn lt(a: u64, b: u64) -> (r: bool)
    ensures
        r == float_lt(a, b),
{
    let ma: u64 = if a >= SIGN_BIT { a - SIGN_BIT } else { a };
    let mb: u64 = if b >= SIGN_BIT { b - SIGN_BIT } else { b };
    if ma > POSITIVE_INFINITY || mb > POSITIVE_INFINITY {
        return false;
    }
    let a_negative = a >= SIGN_BIT;
    let b_negative = b >= SIGN_BIT;
    if !a_negative && !b_negative {
        ma < mb
    } else if a_negative && b_negative {
        ma > mb
    } else if a_negative {
        !(ma == 0 && mb == 0)
    } else {
        false
    }
}

/// The order on bit patterns, stated on the bits: NaNs (exponent all ones,
/// mantissa nonzero) compare false with everything; the two zeros are equal;
/// between two non-negative patterns the larger unsigned pattern is the larger
/// number; between two negative ones the larger unsigned pattern is the
/// smaller number; and a negative number is below a non-negative one unless
/// both are zeros.
pub proof fn lemma_lt_on_bits(a: u64, b: u64)
    ensures
        is_nan(a) <==> (a % 0x8000_0000_0000_0000 > 0x7FF0_0000_0000_0000),
        (is_nan(a) || is_nan(b)) ==> !float_lt(a, b),
        !is_nan(a) && !is_nan(b) && a < SIGN_BIT && b < SIGN_BIT ==> (float_lt(a, b) <==> a < b),
        !is_nan(a) && !is_nan(b) && a >= SIGN_BIT && b >= SIGN_BIT ==> (float_lt(a, b) <==> a > b),
        !is_nan(a) && !is_nan(b) && a >= SIGN_BIT && b < SIGN_BIT ==> (float_lt(a, b) <==> !(a == SIGN_BIT && b == 0)),
        !is_nan(a) && !is_nan(b) && a < SIGN_BIT && b >= SIGN_BIT ==> !float_lt(a, b),
{
}

/// Among non-NaN values exactly one of `a < b`, `b < a`, "equal" holds, where
/// equal means the same pattern or the two zeros.
pub proof fn lemma_lt_trichotomy(a: u64, b: u64)
    requires
        !is_nan(a),
        !is_nan(b),
    ensures
        !(float_lt(a, b) && float_lt(b, a)),
        (!float_lt(a, b) && !float_lt(b, a)) <==> (a == b || (magnitude(a) == 0 && magnitude(b) == 0)),
{
}

/// No value is less than itself.
pub proof fn lemma_lt_irreflexive(a: u64)
    ensures
        !float_lt(a, a),
{
}

/// Among non-NaN values `<` is transitive.
pub proof fn lemma_lt_transitive(a: u64, b: u64, c: u64)
    requires
        float_lt(a, b),
        float_lt(b, c),
    ensures
        float_lt(a, c),
{
}

/// Among non-NaN values, `a < b` and `!(c < b)` give `a < c`.
pub proof fn lemma_lt_not_lt(a: u64, b: u64, c: u64)
    requires
        float_lt(a, b),
        !is_nan(c),
        !float_lt(c, b),
    ensures
        float_lt(a, c),
{
}

/// Among non-NaN values, `!(a < b)` and `!(b < c)` give `!(a < c)`.
pub proof fn lemma_not_lt_transitive(a: u64, b: u64, c: u64)
    requires
        !is_nan(a),
        !is_nan(b),
        !is_nan(c),
        !float_lt(a, b),
        !float_lt(b, c),
    ensures
        !float_lt(a, c),
{
}

} // verus!
