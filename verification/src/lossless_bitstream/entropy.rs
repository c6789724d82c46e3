//! Selection of the entropy coder.

use crate::bitreader::{bit_at, bit_capacity, BitReader};
use crate::error::CodecError;
use vstd::prelude::*;

verus! {

/// Width of the selector.
pub const LOSSLESS_ENTROPY_MODE_BITS: u8 = 1;

/// Entropy coder of a lossless unit.
#[derive(Clone, Copy, Debug, PartialEq, Eq, Structural)]
pub enum LosslessEntropyMode {
    /// Selector 0.
    Arithmetic,
    /// Selector 1: block-adaptive Golomb-Rice codes.
    GolombRice,
}

impl LosslessEntropyMode {
    /// The coder that a selector bit stands for.
    pub open spec fn of_bit(bit: bool) -> LosslessEntropyMode {
        if bit {
            LosslessEntropyMode::GolombRice
        } else {
            LosslessEntropyMode::Arithmetic
        }
    }

    /// The coder that a selector bit stands for.
    pub fn from_selector_bit(bit: bool) -> (mode: Self)
        ensures
            mode == Self::of_bit(bit),
    {
        if bit {
            LosslessEntropyMode::GolombRice
        } else {
            LosslessEntropyMode::Arithmetic
        }
    }
}

/// Read the selector at bit `bit_offset` of `bytes`; gives the coder and the bit after it.
pub fn decode_lossless_entropy_mode_at(bytes: &[u8], bit_offset: usize) -> (result: Result<
    (LosslessEntropyMode, usize),
    CodecError,
>)
    ensures
        result == if bit_offset + 1 <= bit_capacity(bytes@) {
            Ok::<(LosslessEntropyMode, usize), CodecError>(
                (
                    LosslessEntropyMode::of_bit(bit_at(bytes@, bit_offset as int)),
                    (bit_offset + 1) as usize,
                ),
            )
        } else {
            Err(CodecError::Truncated)
        },
{
    let mut reader = BitReader::with_bit_position(bytes, bit_offset)?;
    let mode = LosslessEntropyMode::from_selector_bit(reader.read_bit()?);
    Ok((mode, reader.position_bits()))
}

} // verus!
