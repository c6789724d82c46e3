//! Single-precision numbers as their bit patterns.
//!
//! The library carries such numbers through and compares them. It never computes with them.

use vstd::prelude::*;

verus! {

/// The pattern stands for a number, not for an infinity or for no number at all: its exponent is not
/// all ones.
pub open spec fn finite(bits: u32) -> bool {
    bits / 0x80_0000 % 0x100 != 0xFF
}

/// Whether the pattern stands for a number.
pub fn is_finite(bits: u32) -> (result: bool)
    ensures
        result == finite(bits),
{
    bits / 0x80_0000 % 0x100 != 0xFF
}

/// The pattern stands for zero, whatever its sign.
pub open spec fn zero(bits: u32) -> bool {
    bits % 0x8000_0000 == 0
}

/// The pattern stands for no number.
pub open spec fn not_a_number(bits: u32) -> bool {
    bits / 0x80_0000 % 0x100 == 0xFF && bits % 0x80_0000 != 0
}

/// Two patterns stand for equal numbers.
pub open spec fn equal(first: u32, second: u32) -> bool {
    &&& !not_a_number(first)
    &&& !not_a_number(second)
    &&& first == second || (zero(first) && zero(second))
}

/// Whether two patterns stand for equal numbers.
pub fn is_equal(first: u32, second: u32) -> (result: bool)
    ensures
        result == equal(first, second),
{
    let first_nan: bool = first / 0x80_0000 % 0x100 == 0xFF && first % 0x80_0000 != 0;
    let second_nan: bool = second / 0x80_0000 % 0x100 == 0xFF && second % 0x80_0000 != 0;
    if first_nan || second_nan {
        return false;
    }
    first == second || (first % 0x8000_0000 == 0 && second % 0x8000_0000 == 0)
}

/// All numbers are finite.
pub open spec fn all_finite(values: Seq<u32>) -> bool {
    forall|i: int| 0 <= i < values.len() ==> finite(#[trigger] values[i])
}

/// Whether all numbers are finite.
pub fn are_finite(values: &[u32]) -> (result: bool)
    ensures
        result == all_finite(values@),
{
    let mut index: usize = 0;
    while index < values.len()
        invariant
            index <= values@.len(),
            forall|i: int| 0 <= i < index ==> finite(#[trigger] values@[i]),
        decreases values.len() - index,
    {
        if !is_finite(values[index]) {
            return false;
        }
        index = index + 1;
    }
    true
}

} // verus!
