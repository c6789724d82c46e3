//! Orders of the lines of a short-window spectrum.

use crate::core_side::TransformType;
use crate::engine::core_side::WindowGrouping;
use crate::engine::model::AVS3_FEATURE_DIMENSIONS;
use crate::engine::neural_qc::NoiseGroup;
use crate::group::{
    blocks_before, degrouped, grouped_index, lemma_block_rank, lemma_blocks_before,
    lemma_grouped_index_range,
};
use crate::text::{decimal, with_two_numbers};
use vstd::prelude::*;

verus! {

/// Lines of one short block.
pub const SHORT_BLOCK_LINES: usize = 128;

/// Why a spectrum can not be put in another order.
#[derive(Debug, Clone, Copy, PartialEq, Eq, Structural)]
pub enum SpectrumReorderError {
    InvalidSpectrumLength { expected: usize, actual: usize },
}

impl SpectrumReorderError {
    /// The error in words.
    pub open spec fn words(self) -> Seq<char> {
        match self {
            SpectrumReorderError::InvalidSpectrumLength { expected, actual } =>
            "short-window spectrum has "@ + decimal(actual as nat) + " lines; expected "@ + decimal(
                expected as nat,
            ) + ""@,
        }
    }

    /// Put the error in words.
    pub fn message(self) -> (text: String)
        ensures
            text@ == self.words(),
    {
        match self {
            SpectrumReorderError::InvalidSpectrumLength { expected, actual } => with_two_numbers(
                "short-window spectrum has ",
                actual as u64,
                " lines; expected ",
                expected as u64,
                "",
            ),
        }
    }
}

/// A spectrum with the blocks interleaved, put in order block by block.
pub open spec fn deinterleaved<T>(spectrum: Seq<T>) -> Seq<T> {
    Seq::new(1024, |k: int| spectrum[k / 128 + 8 * (k % 128)])
}

/// A spectrum in order block by block, with the blocks interleaved.
pub open spec fn interleaved<T>(spectrum: Seq<T>) -> Seq<T> {
    Seq::new(1024, |k: int| spectrum[128 * (k % 8) + k / 8])
}

/// Interleaving and putting in order block by block undo one another.
pub proof fn interleaving_is_undone<T>(spectrum: Seq<T>)
    requires
        spectrum.len() == 1024,
    ensures
        deinterleaved(interleaved(spectrum)) == spectrum,
        interleaved(deinterleaved(spectrum)) == spectrum,
{
    assert forall|k: int| 0 <= k < 1024 implies deinterleaved(interleaved(spectrum))[k]
        == spectrum[k] by {
        let place = k / 128 + 8 * (k % 128);
        assert(0 <= place < 1024 && place % 8 == k / 128 && place / 8 == k % 128);
        assert(interleaved(spectrum)[place] == spectrum[128 * (place % 8) + place / 8]);
    }
    assert forall|k: int| 0 <= k < 1024 implies interleaved(deinterleaved(spectrum))[k]
        == spectrum[k] by {
        let place = 128 * (k % 8) + k / 8;
        assert(0 <= place < 1024 && place / 128 == k % 8 && place % 128 == k / 8);
        assert(deinterleaved(spectrum)[place] == spectrum[place / 128 + 8 * (place % 128)]);
    }
    assert(deinterleaved(interleaved(spectrum)) =~= spectrum);
    assert(interleaved(deinterleaved(spectrum)) =~= spectrum);
}

/// Scratch memory for putting spectra in another order.
#[derive(Debug, Clone)]
pub struct SpectrumReorder<T> {
    scratch: Vec<T>,
}

/// Copy all values.
fn copy_back<T: Copy>(spectrum: &mut [T], source: &Vec<T>)
    requires
        old(spectrum)@.len() == source@.len(),
    ensures
        final(spectrum)@ == source@,
{
    let mut copied: usize = 0;
    while copied < source.len()
        invariant
            copied <= source@.len(),
            spectrum@.len() == source@.len(),
            forall|i: int| 0 <= i < copied ==> #[trigger] spectrum@[i] == source@[i],
        decreases source@.len() - copied,
    {
        let value: T = source[copied];
        spectrum[copied] = value;
        copied = copied + 1;
    }
    assert(spectrum@ =~= source@);
}

impl<T: Copy> SpectrumReorder<T> {
    /// What the scratch memory holds.
    pub closed spec fn held(&self) -> Seq<T> {
        self.scratch@
    }

    /// Start with no scratch memory.
    pub fn new() -> (reorder: Self)
        ensures
            reorder.held() == Seq::<T>::empty(),
    {
        SpectrumReorder { scratch: Vec::new() }
    }

    /// Bring a short-window spectrum from the order of its groups into that of interleaved blocks.
    /// Other spectra, and those of one group, stay as they are.
    pub fn degroup(
        &mut self,
        grouping: WindowGrouping,
        transform_type: TransformType,
        spectrum: &mut [T],
    ) -> (result: Result<(), SpectrumReorderError>)
        requires
            grouping.well_formed(),
        ensures
            if old(spectrum)@.len() != 1024 {
                &&& result == Err::<(), SpectrumReorderError>(
                    SpectrumReorderError::InvalidSpectrumLength {
                        expected: 1024,
                        actual: old(spectrum)@.len() as usize,
                    },
                )
                &&& final(spectrum)@ == old(spectrum)@
            } else {
                &&& result is Ok
                &&& final(spectrum)@ == if transform_type is Short && grouping.groups() != 1 {
                    degrouped(old(spectrum)@, grouping.flags())
                } else {
                    old(spectrum)@
                }
            },
    {
        check_spectrum_len(spectrum)?;
        let short: bool = matches!(transform_type, TransformType::Short);
        if !short || grouping.count() == 1 {
            return Ok(());
        }
        let indicator: [NoiseGroup; 8] = grouping.indicator();
        let ghost flags = grouping.flags();
        let mut ranks: [usize; 8] = [0;8];
        let mut transient_blocks: usize = 0;
        let mut other_blocks: usize = 0;
        let mut block: usize = 0;
        while block < 8
            invariant
                block <= 8,
                indicator@.len() == 8,
                flags.len() == 8,
                forall|i: int| 0 <= i < 8 ==> #[trigger] flags[i] == (indicator@[i] is Other),
                transient_blocks == blocks_before(flags, block as int, false),
                other_blocks == blocks_before(flags, block as int, true),
                transient_blocks + other_blocks == block,
                forall|i: int|
                    0 <= i < block ==> #[trigger] ranks@[i] == blocks_before(flags, i, flags[i]),
            decreases 8 - block,
        {
            assert(flags[block as int] == (indicator@[block as int] is Other));
            match indicator[block] {
                NoiseGroup::Transient => {
                    ranks[block] = transient_blocks;
                    transient_blocks = transient_blocks + 1;
                },
                NoiseGroup::Other => {
                    ranks[block] = other_blocks;
                    other_blocks = other_blocks + 1;
                },
            }
            block = block + 1;
        }
        self.scratch.clear();
        while self.scratch.len() < 1024
            invariant
                self.scratch@.len() <= 1024,
                indicator@.len() == 8,
                flags.len() == 8,
                forall|i: int| 0 <= i < 8 ==> #[trigger] flags[i] == (indicator@[i] is Other),
                spectrum@ == old(spectrum)@,
                spectrum@.len() == 1024,
                transient_blocks == blocks_before(flags, 8, false),
                other_blocks == blocks_before(flags, 8, true),
                forall|i: int|
                    0 <= i < 8 ==> #[trigger] ranks@[i] == blocks_before(flags, i, flags[i]),
                forall|i: int|
                    0 <= i < self.scratch@.len() ==> #[trigger] self.scratch@[i] == degrouped(
                        spectrum@,
                        flags,
                    )[i],
            decreases 1024 - self.scratch@.len(),
        {
            let index: usize = self.scratch.len();
            let block: usize = index % 8;
            let line: usize = index / 8;
            proof {
                lemma_blocks_before(flags, 8);
                lemma_block_rank(flags, block as int, 8, flags[block as int]);
                lemma_grouped_index_range(flags, block as int, line as int);
                assert(other_blocks * line <= 8 * 128 && transient_blocks * line <= 8 * 128)
                    by (nonlinear_arith)
                    requires
                        0 <= other_blocks <= 8,
                        0 <= transient_blocks <= 8,
                        0 <= line <= 128,
                ;
            }
            let rank: usize = ranks[block];
            let source: usize = match indicator[block] {
                NoiseGroup::Other => 128 * transient_blocks + rank + other_blocks * line,
                NoiseGroup::Transient => rank + transient_blocks * line,
            };
            assert(source == grouped_index(flags, block as int, line as int));
            let value: T = spectrum[source];
            self.scratch.push(value);
        }
        assert(self.scratch@ =~= degrouped(old(spectrum)@, flags));
        copy_back(spectrum, &self.scratch);
        Ok(())
    }

    /// Bring interleaved blocks into order block by block.
    pub fn deinterleave(&mut self, spectrum: &mut [T]) -> (result: Result<
        (),
        SpectrumReorderError,
    >)
        ensures
            if old(spectrum)@.len() != 1024 {
                &&& result == Err::<(), SpectrumReorderError>(
                    SpectrumReorderError::InvalidSpectrumLength {
                        expected: 1024,
                        actual: old(spectrum)@.len() as usize,
                    },
                )
                &&& final(spectrum)@ == old(spectrum)@
            } else {
                result is Ok && final(spectrum)@ == deinterleaved(old(spectrum)@)
            },
    {
        check_spectrum_len(spectrum)?;
        self.scratch.clear();
        while self.scratch.len() < 1024
            invariant
                self.scratch@.len() <= 1024,
                spectrum@ == old(spectrum)@,
                spectrum@.len() == 1024,
                forall|i: int|
                    0 <= i < self.scratch@.len() ==> #[trigger] self.scratch@[i] == deinterleaved(
                        spectrum@,
                    )[i],
            decreases 1024 - self.scratch@.len(),
        {
            let index: usize = self.scratch.len();
            let value: T = spectrum[index / 128 + 8 * (index % 128)];
            self.scratch.push(value);
        }
        assert(self.scratch@ =~= deinterleaved(old(spectrum)@));
        copy_back(spectrum, &self.scratch);
        Ok(())
    }

    /// Interleave blocks that are in order block by block.
    pub fn interleave(&mut self, spectrum: &mut [T]) -> (result: Result<(), SpectrumReorderError>)
        ensures
            if old(spectrum)@.len() != 1024 {
                &&& result == Err::<(), SpectrumReorderError>(
                    SpectrumReorderError::InvalidSpectrumLength {
                        expected: 1024,
                        actual: old(spectrum)@.len() as usize,
                    },
                )
                &&& final(spectrum)@ == old(spectrum)@
            } else {
                result is Ok && final(spectrum)@ == interleaved(old(spectrum)@)
            },
    {
        check_spectrum_len(spectrum)?;
        self.scratch.clear();
        while self.scratch.len() < 1024
            invariant
                self.scratch@.len() <= 1024,
                spectrum@ == old(spectrum)@,
                spectrum@.len() == 1024,
                forall|i: int|
                    0 <= i < self.scratch@.len() ==> #[trigger] self.scratch@[i] == interleaved(
                        spectrum@,
                    )[i],
            decreases 1024 - self.scratch@.len(),
        {
            let index: usize = self.scratch.len();
            let value: T = spectrum[128 * (index % 8) + index / 8];
            self.scratch.push(value);
        }
        assert(self.scratch@ =~= interleaved(old(spectrum)@));
        copy_back(spectrum, &self.scratch);
        Ok(())
    }
}

/// Check that a spectrum has all of its lines.
fn check_spectrum_len<T>(spectrum: &[T]) -> (result: Result<(), SpectrumReorderError>)
    ensures
        result == if spectrum@.len() == 1024 {
            Ok::<(), SpectrumReorderError>(())
        } else {
            Err(
                SpectrumReorderError::InvalidSpectrumLength {
                    expected: 1024,
                    actual: spectrum@.len() as usize,
                },
            )
        },
{
    if spectrum.len() == AVS3_FEATURE_DIMENSIONS {
        return Ok(());
    }
    Err(
        SpectrumReorderError::InvalidSpectrumLength {
            expected: AVS3_FEATURE_DIMENSIONS,
            actual: spectrum.len(),
        },
    )
}

} // verus!
