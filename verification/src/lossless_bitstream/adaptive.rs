//! Backward adaptation of the Rice parameter.

use crate::bitreader::{lemma_span_monotone, span};
use crate::error::CodecError;
use crate::lossless_bitstream::primitives::{
    lossless_rice_map_signed, rice_symbol, validate_lossless_rice_block_size,
};
use vstd::prelude::*;

verus! {

/// State of the Rice parameter adaptation.
///
/// A statistic over a window of 32 samples follows the coded values. Predictor seeds enter it as
/// they are, prediction residuals by their unsigned symbols.
#[derive(Clone, Copy, Debug, PartialEq, Eq, Structural)]
pub struct LosslessRiceAdaptationState {
    parameter: u8,
    sum: u64,
    block_size: usize,
}

/// Sum of the first `count` values.
pub open spec fn value_sum(values: Seq<u64>, count: int) -> int
    decreases count,
{
    if count <= 0 {
        0
    } else {
        value_sum(values, count - 1) + values[count - 1]
    }
}

/// The symbols of signed residuals.
pub open spec fn symbols_of(residuals: Seq<i32>) -> Seq<u64> {
    Seq::new(residuals.len(), |i: int| rice_symbol(residuals[i] as int) as u64)
}

/// The statistic after a block: the block's values come in, the same number of average samples go
/// out.
pub open spec fn adapted_sum(sum: int, values: Seq<u64>) -> int {
    sum + value_sum(values, values.len() as int) - sum / 32 * values.len()
}

/// Why a block cannot enter the statistic, if it cannot.
pub open spec fn adaptation_error(sum: int, block_size: int, values: Seq<u64>) -> Option<
    CodecError,
> {
    if values.len() != block_size {
        Some(
            CodecError::InvalidData(
                "lossless Rice adaptation block length does not match configured block size",
            ),
        )
    } else if value_sum(values, values.len() as int) > u64::MAX {
        Some(CodecError::InvalidData("lossless Rice adaptation block sum overflow"))
    } else if sum + value_sum(values, values.len() as int) > u64::MAX {
        Some(CodecError::InvalidData("lossless Rice adaptation statistic overflow"))
    } else {
        None
    }
}

/// Smallest statistic that suits a parameter.
pub open spec fn lower_bound(parameter: int) -> int {
    32 * span(parameter as nat) as int
}

/// Whether the statistic is too large for a parameter.
pub open spec fn wants_more(sum: int, parameter: int) -> bool {
    parameter < 63 && sum > lower_bound(parameter + 1)
}

/// Whether the statistic is too small for a parameter.
pub open spec fn wants_less(sum: int, parameter: int) -> bool {
    parameter > 0 && sum < lower_bound(parameter)
}

/// Partial sums of values never shrink.
proof fn lemma_value_sum_monotone(values: Seq<u64>, a: int, b: int)
    requires
        0 <= a <= b,
    ensures
        0 <= value_sum(values, a) <= value_sum(values, b),
    decreases b,
{
    if a < b {
        lemma_value_sum_monotone(values, a, b - 1);
    } else if a > 0 {
        lemma_value_sum_monotone(values, a - 1, b - 1);
    }
}

impl LosslessRiceAdaptationState {
    /// The current Rice parameter.
    pub closed spec fn rice_parameter(&self) -> int {
        self.parameter as int
    }

    /// The current statistic.
    pub closed spec fn statistic(&self) -> int {
        self.sum as int
    }

    /// Samples per block.
    pub closed spec fn samples(&self) -> int {
        self.block_size as int
    }

    /// The parameter fits a 64-bit code and a block fits the window.
    pub open spec fn well_formed(&self) -> bool {
        &&& 0 <= self.rice_parameter() <= 63
        &&& 0 <= self.statistic() <= u64::MAX
        &&& 1 <= self.samples() <= 32
    }

    /// Start with a parameter, and with the statistic that suits it exactly.
    pub fn new(parameter: u8, block_size: usize) -> (result: Result<Self, CodecError>)
        ensures
            match result {
                Ok(state) => {
                    &&& parameter <= 57
                    &&& 1 <= block_size <= 32
                    &&& state.well_formed()
                    &&& state.rice_parameter() == parameter
                    &&& state.statistic() == lower_bound(parameter as int)
                    &&& state.samples() == block_size
                },
                Err(error) => if parameter > 57 {
                    error == CodecError::InvalidData(
                        "lossless Rice initial parameter overflows 32-sample adaptation sum",
                    )
                } else {
                    &&& !(1 <= block_size <= 32)
                    &&& error == CodecError::InvalidData(
                        "lossless Rice block size must be between one and the adaptation window",
                    )
                },
            },
    {
        if parameter > 57 {
            return Err(
                CodecError::InvalidData(
                    "lossless Rice initial parameter overflows 32-sample adaptation sum",
                ),
            );
        }
        validate_lossless_rice_block_size(block_size)?;
        let mut power: u64 = 1;
        let mut count: u8 = 0;
        while count < parameter
            invariant
                count <= parameter <= 57,
                power == span(count as nat),
                power <= 0x200_0000_0000_0000,
            decreases parameter - count,
        {
            proof {
                lemma_span_monotone(count as nat + 1, 57);
                lemma_span_57();
            }
            power = power * 2;
            count = count + 1;
        }
        Ok(
            LosslessRiceAdaptationState {
                parameter,
                sum: power * 32,
                block_size,
            },
        )
    }

    /// The current Rice parameter.
    pub fn parameter(self) -> (parameter: u8)
        ensures
            parameter == self.rice_parameter(),
    {
        self.parameter
    }

    /// The current statistic.
    pub fn sum(self) -> (sum: u64)
        ensures
            sum == self.statistic(),
    {
        self.sum
    }

    /// Samples per block.
    pub fn block_size(self) -> (block_size: usize)
        ensures
            block_size == self.samples(),
    {
        self.block_size
    }

    /// Enter a block of predictor seeds, each by the value that was decoded for it.
    pub fn update_seed_block(&mut self, values: &[u64]) -> (result: Result<(), CodecError>)
        requires
            old(self).well_formed(),
        ensures
            final(self).well_formed(),
            final(self).rice_parameter() == old(self).rice_parameter(),
            final(self).samples() == old(self).samples(),
            match adaptation_error(old(self).statistic(), old(self).samples(), values@) {
                Some(error) => result == Err::<(), CodecError>(error) && final(self).statistic()
                    == old(self).statistic(),
                None => result is Ok && final(self).statistic() == adapted_sum(
                    old(self).statistic(),
                    values@,
                ),
            },
    {
        if values.len() != self.block_size {
            return Err(
                CodecError::InvalidData(
                    "lossless Rice adaptation block length does not match configured block size",
                ),
            );
        }
        let mut block_sum: u64 = 0;
        let mut index: usize = 0;
        while index < values.len()
            invariant
                index <= values@.len(),
                values@.len() == self.block_size,
                *self == *old(self),
                self.well_formed(),
                block_sum == value_sum(values@, index as int),
            decreases values@.len() - index,
        {
            match block_sum.checked_add(values[index]) {
                Some(next) => {
                    block_sum = next;
                },
                None => {
                    proof {
                        lemma_value_sum_monotone(values@, index as int + 1, values@.len() as int);
                    }
                    return Err(
                        CodecError::InvalidData("lossless Rice adaptation block sum overflow"),
                    );
                },
            }
            index = index + 1;
        }
        self.accept(block_sum)
    }

    /// Enter a block of signed prediction residuals, by their unsigned symbols.
    pub fn update_residual_block(&mut self, residuals: &[i32]) -> (result: Result<(), CodecError>)
        requires
            old(self).well_formed(),
        ensures
            final(self).well_formed(),
            final(self).rice_parameter() == old(self).rice_parameter(),
            final(self).samples() == old(self).samples(),
            match adaptation_error(
                old(self).statistic(),
                old(self).samples(),
                symbols_of(residuals@),
            ) {
                Some(error) => result == Err::<(), CodecError>(error) && final(self).statistic()
                    == old(self).statistic(),
                None => result is Ok && final(self).statistic() == adapted_sum(
                    old(self).statistic(),
                    symbols_of(residuals@),
                ),
            },
    {
        if residuals.len() != self.block_size {
            return Err(
                CodecError::InvalidData(
                    "lossless Rice adaptation block length does not match configured block size",
                ),
            );
        }
        let ghost symbols = symbols_of(residuals@);
        let mut block_sum: u64 = 0;
        let mut index: usize = 0;
        while index < residuals.len()
            invariant
                index <= residuals@.len(),
                residuals@.len() == self.block_size,
                *self == *old(self),
                self.well_formed(),
                symbols == symbols_of(residuals@),
                block_sum == value_sum(symbols, index as int),
                block_sum <= 0x1_0000_0000 * index,
            decreases residuals@.len() - index,
        {
            block_sum = block_sum + lossless_rice_map_signed(residuals[index]);
            index = index + 1;
        }
        self.accept(block_sum)
    }

    /// Enter a block of residuals that are unsigned symbols already.
    pub fn update_mapped_residual_block(&mut self, mapped: &[u64]) -> (result: Result<
        (),
        CodecError,
    >)
        requires
            old(self).well_formed(),
        ensures
            final(self).well_formed(),
            final(self).rice_parameter() == old(self).rice_parameter(),
            final(self).samples() == old(self).samples(),
            match adaptation_error(old(self).statistic(), old(self).samples(), mapped@) {
                Some(error) => result == Err::<(), CodecError>(error) && final(self).statistic()
                    == old(self).statistic(),
                None => result is Ok && final(self).statistic() == adapted_sum(
                    old(self).statistic(),
                    mapped@,
                ),
            },
    {
        self.update_seed_block(mapped)
    }

    /// Let a block whose values sum to `block_sum` enter the statistic.
    fn accept(&mut self, block_sum: u64) -> (result: Result<(), CodecError>)
        requires
            old(self).well_formed(),
        ensures
            final(self).well_formed(),
            final(self).rice_parameter() == old(self).rice_parameter(),
            final(self).samples() == old(self).samples(),
            if old(self).statistic() + block_sum > u64::MAX {
                result == Err::<(), CodecError>(
                    CodecError::InvalidData("lossless Rice adaptation statistic overflow"),
                ) && final(self).statistic() == old(self).statistic()
            } else {
                result is Ok && final(self).statistic() == old(self).statistic() + block_sum - old(
                    self,
                ).statistic() / 32 * old(self).samples()
            },
    {
        let decay_per_symbol: u64 = self.sum / 32;
        assert(decay_per_symbol * self.block_size <= decay_per_symbol * 32) by (nonlinear_arith)
            requires
                self.block_size <= 32,
        ;
        let decay: u64 = decay_per_symbol * self.block_size as u64;
        match self.sum.checked_add(block_sum) {
            Some(sum) => {
                self.sum = sum - decay;
                Ok(())
            },
            None => Err(CodecError::InvalidData("lossless Rice adaptation statistic overflow")),
        }
    }

    /// Move the parameter to the nearest one that suits the statistic.
    pub fn recenter_maximal(&mut self)
        requires
            old(self).well_formed(),
        ensures
            final(self).well_formed(),
            final(self).statistic() == old(self).statistic(),
            final(self).samples() == old(self).samples(),
            !wants_more(final(self).statistic(), final(self).rice_parameter()),
            !wants_less(final(self).statistic(), final(self).rice_parameter()),
            forall|p: int|
                old(self).rice_parameter() <= p < final(self).rice_parameter() ==> #[trigger]
                wants_more(old(self).statistic(), p),
            forall|p: int|
                final(self).rice_parameter() < p <= old(self).rice_parameter() ==> #[trigger]
                wants_less(old(self).statistic(), p),
    {
        let mut power: u128 = 1;
        let mut count: u8 = 0;
        while count < self.parameter
            invariant
                count <= self.parameter <= 63,
                *self == *old(self),
                power == span(count as nat),
                power <= 0x8000_0000_0000_0000,
            decreases self.parameter - count,
        {
            proof {
                lemma_span_monotone(count as nat + 1, 63);
                lemma_span_57();
            }
            power = power * 2;
            count = count + 1;
        }
        let ghost start = self.parameter as int;
        while self.parameter < 63 && self.sum as u128 > power * 64
            invariant
                start == old(self).parameter,
                start <= self.parameter <= 63,
                self.sum == old(self).sum,
                self.block_size == old(self).block_size,
                power == span(self.parameter as nat),
                power <= 0x8000_0000_0000_0000,
                start < self.parameter ==> wants_more(self.sum as int, self.parameter - 1),
                forall|p: int|
                    start <= p < self.parameter ==> #[trigger] wants_more(self.sum as int, p),
            decreases 63 - self.parameter,
        {
            proof {
                lemma_span_monotone(self.parameter as nat + 1, 63);
                lemma_span_57();
                assert(span((self.parameter + 1) as nat) == 2 * span(self.parameter as nat));
            }
            power = power * 2;
            self.parameter = self.parameter + 1;
        }
        assert(span((self.parameter + 1) as nat) == 2 * span(self.parameter as nat));
        let ghost top = self.parameter as int;
        while self.parameter > 0 && (self.sum as u128) < power * 32
            invariant
                start == old(self).parameter,
                self.parameter <= top <= 63,
                start <= top,
                top > start ==> self.parameter == top,
                self.sum == old(self).sum,
                self.block_size == old(self).block_size,
                power == span(self.parameter as nat),
                power <= 0x8000_0000_0000_0000,
                top > start ==> wants_more(self.sum as int, top - 1),
                forall|p: int| start <= p < top ==> #[trigger] wants_more(self.sum as int, p),
                !wants_more(self.sum as int, self.parameter as int),
                forall|p: int|
                    self.parameter < p <= start ==> #[trigger] wants_less(self.sum as int, p),
            decreases self.parameter,
        {
            proof {
                assert(span(self.parameter as nat) == 2 * span((self.parameter - 1) as nat));
            }
            power = power / 2;
            self.parameter = self.parameter - 1;
        }
    }
}

proof fn lemma_span_57()
    ensures
        span(57) == 0x200_0000_0000_0000,
        span(63) == 0x8000_0000_0000_0000,
{
    reveal_with_fuel(span, 64);
}

/// Residuals and their symbols adapt the state alike.
pub proof fn mapped_residuals_adapt_alike(sum: int, block_size: int, residuals: Seq<i32>, mapped: Seq<u64>)
    requires
        mapped.len() == residuals.len(),
        forall|i: int|
            0 <= i < mapped.len() ==> #[trigger] mapped[i] == rice_symbol(residuals[i] as int),
    ensures
        symbols_of(residuals) == mapped,
        adaptation_error(sum, block_size, symbols_of(residuals)) == adaptation_error(
            sum,
            block_size,
            mapped,
        ),
        adapted_sum(sum, symbols_of(residuals)) == adapted_sum(sum, mapped),
{
    assert(symbols_of(residuals) =~= mapped);
}

} // verus!
