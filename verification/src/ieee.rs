//! Questions on binary64 numbers that their bit patterns answer.

use vstd::prelude::*;

verus! {

/// The bit pattern of one.
pub const ONE: u64 = 0x3ff0_0000_0000_0000;

/// The bit pattern of negative zero.
pub const NEGATIVE_ZERO: u64 = 0x8000_0000_0000_0000;

/// The bit pattern of infinity.
pub const INFINITY: u64 = 0x7ff0_0000_0000_0000;

/// The bit pattern without the sign.
pub open spec fn magnitude(bits: u64) -> int {
    if bits >= NEGATIVE_ZERO {
        bits - NEGATIVE_ZERO
    } else {
        bits as int
    }
}

/// Whether a pattern stands for no number.
pub open spec fn is_nan(bits: u64) -> bool {
    magnitude(bits) > INFINITY
}

/// Whether a pattern stands for a finite number.
pub open spec fn is_finite(bits: u64) -> bool {
    magnitude(bits) < INFINITY
}

/// A number that orders patterns as the numbers that they stand for: both
/// zeros have the same, and the magnitude grows with the pattern.
pub open spec fn order(bits: u64) -> int {
    if bits >= NEGATIVE_ZERO {
        -magnitude(bits)
    } else {
        magnitude(bits)
    }
}

/// Whether one number is at most another. No comparison holds of a pattern
/// that stands for no number.
pub open spec fn at_most(left: u64, right: u64) -> bool {
    !is_nan(left) && !is_nan(right) && order(left) <= order(right)
}

/// Whether a pattern stands for a finite number from zero to one.
pub open spec fn is_fraction(bits: u64) -> bool {
    is_finite(bits) && at_most(0, bits) && at_most(bits, ONE)
}

/// Whether a pattern stands for a finite number.
pub fn finite(bits: u64) -> (result: bool)
    ensures
        result == is_finite(bits),
{
    if bits >= NEGATIVE_ZERO {
        bits - NEGATIVE_ZERO < INFINITY
    } else {
        bits < INFINITY
    }
}

/// Whether one number is at most another.
pub fn le(left: u64, right: u64) -> (result: bool)
    ensures
        result == at_most(left, right),
{
    let left_size: u64 = if left >= NEGATIVE_ZERO {
        left - NEGATIVE_ZERO
    } else {
        left
    };
    let right_size: u64 = if right >= NEGATIVE_ZERO {
        right - NEGATIVE_ZERO
    } else {
        right
    };
    if left_size > INFINITY || right_size > INFINITY {
        return false;
    }
    let left_order: i128 = if left >= NEGATIVE_ZERO {
        -(left_size as i128)
    } else {
        left_size as i128
    };
    let right_order: i128 = if right >= NEGATIVE_ZERO {
        -(right_size as i128)
    } else {
        right_size as i128
    };
    left_order <= right_order
}

/// Whether a pattern stands for a finite number from zero to one.
pub fn fraction(bits: u64) -> (result: bool)
    ensures
        result == is_fraction(bits),
{
    finite(bits) && le(0, bits) && le(bits, ONE)
}

/// Patterns compare as their numbers do: without a sign as they stand, with a
/// sign the other way round, a signed one before one without, and the two
/// zeros as equal. What is no number compares with nothing.
pub proof fn patterns_compare_as_numbers(left: u64, right: u64, result: bool)
    requires
        call_ensures(le, (left, right), result),
    ensures
        ({
            let number = |bits: u64|
                bits <= 0x7ff0_0000_0000_0000 || 0x8000_0000_0000_0000 <= bits
                    <= 0xfff0_0000_0000_0000;
            let signed = |bits: u64| bits >= 0x8000_0000_0000_0000;
            &&& !number(left) || !number(right) ==> !result
            &&& number(left) && number(right) ==> {
                &&& !signed(left) && !signed(right) ==> result == (left <= right)
                &&& signed(left) && signed(right) ==> result == (right <= left)
                &&& signed(left) && !signed(right) ==> result
                &&& !signed(left) && signed(right) ==> result == (left == 0 && right
                    == 0x8000_0000_0000_0000)
            }
        }),
{
}

/// The fractions are the patterns from zero to one, and negative zero.
pub proof fn fractions_lie_between_zero_and_one(bits: u64, result: bool)
    requires
        call_ensures(fraction, (bits,), result),
    ensures
        result <==> bits <= 0x3ff0_0000_0000_0000 || bits == 0x8000_0000_0000_0000,
{
}

/// A pattern stands for a finite number unless all bits of its exponent are set.
pub proof fn finite_patterns_have_an_exponent(bits: u64, result: bool)
    requires
        call_ensures(finite, (bits,), result),
    ensures
        result <==> bits & 0x7ff0_0000_0000_0000 != 0x7ff0_0000_0000_0000,
{
    assert(bits & 0x7ff0_0000_0000_0000 == 0x7ff0_0000_0000_0000 <==> (0x7ff0_0000_0000_0000 <= bits
        && bits < 0x8000_0000_0000_0000) || 0xfff0_0000_0000_0000 <= bits) by (bit_vector);
}

} // verus!
