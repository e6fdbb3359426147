use vstd::prelude::*;

verus! {

/// Bit pattern of the IEEE-754 double `-1.0`, the pen position a client
/// starts with (off the canvas).
pub const PEN_UP_BITS: u64 = 0xBFF0_0000_0000_0000u64;

/// Bit pattern of negative infinity, the most negative ordered double.
pub const NEG_INFINITY_BITS: u64 = 0xFFF0_0000_0000_0000u64;

/// Bit pattern of negative zero.
pub const NEG_ZERO_BITS: u64 = 0x8000_0000_0000_0000u64;

/// A coordinate is carried as the bit pattern of an IEEE-754 double.
///
/// The double is strictly below zero exactly when its sign bit is set, it
/// is not negative zero and it is not a NaN: the patterns strictly above
/// `NEG_ZERO_BITS` and at most `NEG_INFINITY_BITS`.
pub open spec fn is_below_zero(bits: u64) -> bool {
    NEG_ZERO_BITS < bits <= NEG_INFINITY_BITS
}

/// The double with these bits is finite (neither infinite nor NaN): its
/// exponent field is not all ones.
pub open spec fn is_finite_bits(bits: u64) -> bool {
    (bits as int / 0x10_0000_0000_0000) % 0x800 != 0x7FF
}

/// Whether the double with these bits compares `< 0.0`.
pub fn below_zero(bits: u64) -> (r: bool)
    ensures
        r == is_below_zero(bits),
{
    NEG_ZERO_BITS < bits && bits <= NEG_INFINITY_BITS
}

} // verus!
