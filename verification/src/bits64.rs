//! The ordering of IEEE 754 binary64 values, stated and implemented directly
//! over their bit patterns.
//!
//! A binary64 value is a sign bit, an 11-bit exponent and a 52-bit fraction.
//! Two values with the same sign order as their magnitude bits do as plain
//! integers; a negative value is below a positive one; the two zeros are
//! equal; a NaN is unordered against everything, itself included.  These few
//! lines are the whole story, so the comparison is written here and proved
//! against that statement rather than taken on trust.

use vstd::prelude::*;

verus! {

/// The sign bit of a binary64 bit pattern.
pub const SIGN_MASK: u64 = 0x8000_0000_0000_0000;

/// Everything but the sign bit: exponent and fraction together.
pub const MAGNITUDE_MASK: u64 = 0x7FFF_FFFF_FFFF_FFFF;

/// The exponent field.  A magnitude above it means an all-ones exponent with
/// a non-zero fraction, which is a NaN; a magnitude equal to it is an
/// infinity.
pub const EXPONENT_MASK: u64 = 0x7FF0_0000_0000_0000;

/// The bit pattern of positive zero.
pub const POS_ZERO: u64 = 0;

pub open spec fn magnitude(bits: u64) -> u64 {
    bits & MAGNITUDE_MASK
}

pub open spec fn sign(bits: u64) -> bool {
    bits & SIGN_MASK != 0
}

pub open spec fn is_nan(bits: u64) -> bool {
    magnitude(bits) > EXPONENT_MASK
}

/// The strict `<` of IEEE 754 on two bit patterns: false whenever either side
/// is a NaN, and otherwise the sign-magnitude order with the two zeros equal.
pub open spec fn is_below(a: u64, b: u64) -> bool {
    &&& !is_nan(a)
    &&& !is_nan(b)
    &&& if sign(a) && !sign(b) {
        magnitude(a) != 0 || magnitude(b) != 0
    } else if !sign(a) && sign(b) {
        false
    } else if !sign(a) {
        magnitude(a) < magnitude(b)
    } else {
        magnitude(b) < magnitude(a)
    }
}

/// Strictly below zero, the order in which a negative hyperparameter is
/// rejected: neither NaN nor a zero, with the sign bit set.
pub open spec fn is_negative(bits: u64) -> bool {
    is_below(bits, POS_ZERO)
}

pub fn is_nan_bits(bits: u64) -> (r: bool)
    ensures
        r == is_nan(bits),
{
    (bits & MAGNITUDE_MASK) > EXPONENT_MASK
}

pub fn below_bits(a: u64, b: u64) -> (r: bool)
    ensures
        r == is_below(a, b),
{
    if is_nan_bits(a) || is_nan_bits(b) {
        false
    } else {
        let sa = (a & SIGN_MASK) != 0;
        let sb = (b & SIGN_MASK) != 0;
        let ma = a & MAGNITUDE_MASK;
        let mb = b & MAGNITUDE_MASK;
        if sa && !sb {
            ma != 0 || mb != 0
        } else if !sa && sb {
            false
        } else if !sa {
            ma < mb
        } else {
            mb < ma
        }
    }
}

pub fn is_negative_bits(bits: u64) -> (r: bool)
    ensures
        r == is_negative(bits),
{
    below_bits(bits, POS_ZERO)
}

pub proof fn lemma_below_irrefl(a: u64)
    ensures
        !is_below(a, a),
{
}

pub proof fn lemma_below_asym(a: u64, b: u64)
    requires
        is_below(a, b),
    ensures
        !is_below(b, a),
{
}

/// From `a` at most `b` (no NaN among them) and `b` strictly below `c`,
/// `a` is strictly below `c`.
pub proof fn lemma_le_below_trans(a: u64, b: u64, c: u64)
    requires
        !is_nan(a),
        !is_nan(b),
        !is_nan(c),
        !is_below(b, a),
        is_below(b, c),
    ensures
        is_below(a, c),
{
}

} // verus!
