//! Which codewords a frame's spectral envelope is made of.
//!
//! The envelope is the sum of a mean, a first stage of two codewords and a second stage of three
//! or five. Codebooks hold binary32 numbers by their bits.

use crate::core_side::FdShapingSideInfo;
use crate::error::CodecError;
use crate::float_bits::{all_finite, are_finite};
use vstd::prelude::*;

verus! {

/// Number of line spectral frequencies.
pub const LSF_ORDER: usize = 16;

/// Number of bands over which the envelope is averaged.
pub const FD_SHAPING_SUBBANDS: usize = 49;

/// First line of each band, and the end of the last one.
pub const FD_SHAPING_SFB_BOUNDARIES: [u16; 50] = [
    0,
    4,
    8,
    12,
    16,
    20,
    24,
    28,
    32,
    36,
    40,
    48,
    56,
    64,
    72,
    80,
    88,
    96,
    108,
    120,
    132,
    144,
    160,
    176,
    196,
    216,
    240,
    264,
    292,
    320,
    352,
    384,
    416,
    448,
    480,
    512,
    544,
    576,
    608,
    640,
    672,
    704,
    736,
    768,
    800,
    832,
    864,
    896,
    928,
    1024,
];

/// Mean of each line spectral frequency in hertz, as the bits of a binary32 number.
pub const LSF_MEAN: [u32; 16] = [
    0x444C_20B4,
    0x450B_7D3A,
    0x4563_F247,
    0x459E_33AA,
    0x45CA_6E31,
    0x45F6_A8B7,
    0x4611_719F,
    0x4627_8EE2,
    0x463D_AC25,
    0x4653_C969,
    0x4669_E6AC,
    0x4680_01F7,
    0x468B_1099,
    0x4696_1F3B,
    0x46A1_2DDC,
    0x46AC_3C7E,
];

/// A codebook, one codeword behind the other.
#[derive(Clone, Copy, Debug)]
pub struct LsfCodebook<'a> {
    pub values: &'a [u32],
}

/// The codebooks of both precisions.
#[derive(Clone, Copy, Debug)]
pub struct LsfCodebooks<'a> {
    pub high_stage1: [LsfCodebook<'a>; 2],
    pub high_stage2: [LsfCodebook<'a>; 5],
    pub low_stage1: [LsfCodebook<'a>; 2],
    pub low_stage2: [LsfCodebook<'a>; 3],
}

/// Which frequencies a codebook is for, and how many codewords it holds.
#[derive(Clone, Copy, Debug, PartialEq, Eq)]
pub struct SubvectorSpec {
    pub start: usize,
    pub dimension: usize,
    pub entries: usize,
}

/// A codeword that is added to the frequencies from `start` on.
#[derive(Clone, Copy, Debug)]
pub struct LsfCodeword<'a> {
    pub start: usize,
    pub values: &'a [u32],
}

/// What a codeword adds, and where.
pub struct CodewordSyntax {
    pub start: int,
    pub values: Seq<u32>,
}

/// The split of the first stage.
pub open spec fn stage1_spec(slot: int) -> SubvectorSpec {
    if slot == 0 {
        SubvectorSpec { start: 0, dimension: 9, entries: 256 }
    } else {
        SubvectorSpec { start: 9, dimension: 7, entries: 256 }
    }
}

/// The split of the second stage at high precision.
pub open spec fn high_stage2_spec(slot: int) -> SubvectorSpec {
    if slot == 0 {
        SubvectorSpec { start: 0, dimension: 3, entries: 128 }
    } else if slot == 1 {
        SubvectorSpec { start: 3, dimension: 3, entries: 128 }
    } else if slot == 2 {
        SubvectorSpec { start: 6, dimension: 3, entries: 64 }
    } else if slot == 3 {
        SubvectorSpec { start: 9, dimension: 3, entries: 32 }
    } else {
        SubvectorSpec { start: 12, dimension: 4, entries: 32 }
    }
}

/// The split of the second stage at low precision.
pub open spec fn low_stage2_spec(slot: int) -> SubvectorSpec {
    if slot == 0 {
        SubvectorSpec { start: 0, dimension: 5, entries: 128 }
    } else if slot == 1 {
        SubvectorSpec { start: 5, dimension: 4, entries: 128 }
    } else {
        SubvectorSpec { start: 9, dimension: 7, entries: 64 }
    }
}

/// Number of codewords of a frame.
pub open spec fn codeword_count(low_precision: bool) -> int {
    if low_precision {
        5
    } else {
        7
    }
}

/// The split of codeword `slot`, counted over both stages.
pub open spec fn slot_spec(low_precision: bool, slot: int) -> SubvectorSpec {
    if slot < 2 {
        stage1_spec(slot)
    } else if low_precision {
        low_stage2_spec(slot - 2)
    } else {
        high_stage2_spec(slot - 2)
    }
}

impl<'a> LsfCodebooks<'a> {
    /// The codebook of codeword `slot`, counted over both stages.
    pub open spec fn slot(&self, low_precision: bool, slot: int) -> Seq<u32> {
        if low_precision && slot < 2 {
            self.low_stage1@[slot].values@
        } else if low_precision {
            self.low_stage2@[slot - 2].values@
        } else if slot < 2 {
            self.high_stage1@[slot].values@
        } else {
            self.high_stage2@[slot - 2].values@
        }
    }
}

/// Codeword `index` of a codebook, or what is wrong with it.
pub open spec fn codeword_of(table: Seq<u32>, spec: SubvectorSpec, index: u8) -> Result<
    CodewordSyntax,
    CodecError,
> {
    if spec.entries * spec.dimension > usize::MAX {
        Err(CodecError::InvalidData("LSF codebook geometry overflows address space"))
    } else if table.len() != spec.entries * spec.dimension {
        Err(CodecError::InvalidData("LSF codebook length does not match Annex B geometry"))
    } else if !all_finite(table) {
        Err(CodecError::InvalidData("LSF codebook contains a non-finite value"))
    } else if index >= spec.entries {
        Err(CodecError::InvalidData("LSF VQ index exceeds codebook size"))
    } else {
        Ok(
            CodewordSyntax {
                start: spec.start as int,
                values: table.subrange(index * spec.dimension, (index + 1) * spec.dimension),
            },
        )
    }
}

/// The codeword that slot `slot` selects.
pub open spec fn selected(side: FdShapingSideInfo, codebooks: LsfCodebooks<'_>, slot: int) -> Result<
    CodewordSyntax,
    CodecError,
> {
    let low = side.low_bitrate_precision;
    match side.lsf_vq_indices@[slot] {
        None => Err(CodecError::InvalidData("frequency shaping is missing an LSF VQ index")),
        Some(index) => codeword_of(codebooks.slot(low, slot), slot_spec(low, slot), index),
    }
}

/// The first error among the slots from `slot` on.
pub open spec fn selection_error(
    side: FdShapingSideInfo,
    codebooks: LsfCodebooks<'_>,
    slot: int,
) -> Option<CodecError>
    decreases codeword_count(side.low_bitrate_precision) - slot,
{
    if slot >= codeword_count(side.low_bitrate_precision) {
        None
    } else {
        match selected(side, codebooks, slot) {
            Err(error) => Some(error),
            Ok(_) => selection_error(side, codebooks, slot + 1),
        }
    }
}

/// Look up a codeword.
pub fn codeword<'a>(table: LsfCodebook<'a>, spec: SubvectorSpec, index: u8) -> (result: Result<
    LsfCodeword<'a>,
    CodecError,
>)
    ensures
        match codeword_of(table.values@, spec, index) {
            Ok(syntax) => {
                &&& result is Ok
                &&& result->Ok_0.start == syntax.start
                &&& result->Ok_0.values@ == syntax.values
            },
            Err(error) => result is Err && result->Err_0 == error,
        },
{
    let expected: usize = match spec.entries.checked_mul(spec.dimension) {
        Some(expected) => expected,
        None => return Err(CodecError::InvalidData("LSF codebook geometry overflows address space")),
    };
    if table.values.len() != expected {
        return Err(CodecError::InvalidData("LSF codebook length does not match Annex B geometry"));
    }
    if !are_finite(table.values) {
        return Err(CodecError::InvalidData("LSF codebook contains a non-finite value"));
    }
    let entry: usize = index as usize;
    if entry >= spec.entries {
        return Err(CodecError::InvalidData("LSF VQ index exceeds codebook size"));
    }
    proof {
        let count = spec.entries as int;
        let dimension = spec.dimension as int;
        assert(0 <= entry * dimension && (entry + 1) * dimension <= count * dimension && (entry + 1)
            * dimension == entry * dimension + dimension) by (nonlinear_arith)
            requires
                0 <= entry < count,
                0 <= dimension,
        ;
    }
    let start: usize = entry * spec.dimension;
    Ok(
        LsfCodeword {
            start: spec.start,
            values: vstd::slice::slice_subrange(table.values, start, start + spec.dimension),
        },
    )
}

/// The index in slot `slot`.
fn require_index(side: &FdShapingSideInfo, slot: usize) -> (result: Result<u8, CodecError>)
    requires
        slot < 7,
    ensures
        match side.lsf_vq_indices@[slot as int] {
            Some(index) => result == Ok::<u8, CodecError>(index),
            None => result == Err::<u8, CodecError>(
                CodecError::InvalidData("frequency shaping is missing an LSF VQ index"),
            ),
        },
{
    match side.lsf_vq_indices[slot] {
        Some(index) => Ok(index),
        None => Err(CodecError::InvalidData("frequency shaping is missing an LSF VQ index")),
    }
}

/// The split of codeword `slot`, counted over both stages.
fn spec_of_slot(low_precision: bool, slot: usize) -> (spec: SubvectorSpec)
    requires
        slot < codeword_count(low_precision),
    ensures
        spec == slot_spec(low_precision, slot as int),
{
    if slot == 0 {
        SubvectorSpec { start: 0, dimension: 9, entries: 256 }
    } else if slot == 1 {
        SubvectorSpec { start: 9, dimension: 7, entries: 256 }
    } else if low_precision {
        if slot == 2 {
            SubvectorSpec { start: 0, dimension: 5, entries: 128 }
        } else if slot == 3 {
            SubvectorSpec { start: 5, dimension: 4, entries: 128 }
        } else {
            SubvectorSpec { start: 9, dimension: 7, entries: 64 }
        }
    } else {
        if slot == 2 {
            SubvectorSpec { start: 0, dimension: 3, entries: 128 }
        } else if slot == 3 {
            SubvectorSpec { start: 3, dimension: 3, entries: 128 }
        } else if slot == 4 {
            SubvectorSpec { start: 6, dimension: 3, entries: 64 }
        } else if slot == 5 {
            SubvectorSpec { start: 9, dimension: 3, entries: 32 }
        } else {
            SubvectorSpec { start: 12, dimension: 4, entries: 32 }
        }
    }
}

/// Look up every codeword of a frame: the two of the first stage, then those of the second.
pub fn select_lsf_codewords<'a>(side: &FdShapingSideInfo, codebooks: LsfCodebooks<'a>) -> (result:
    Result<Vec<LsfCodeword<'a>>, CodecError>)
    ensures
        match selection_error(*side, codebooks, 0) {
            Some(error) => result is Err && result->Err_0 == error,
            None => {
                &&& result is Ok
                &&& result->Ok_0@.len() == codeword_count(side.low_bitrate_precision)
                &&& forall|slot: int|
                    0 <= slot < result->Ok_0@.len() ==> {
                        let word = #[trigger] result->Ok_0@[slot];
                        let syntax = selected(*side, codebooks, slot)->Ok_0;
                        &&& word.start == syntax.start
                        &&& word.values@ == syntax.values
                    }
            },
        },
{
    let low: bool = side.low_bitrate_precision;
    let count: usize = if low {
        5
    } else {
        7
    };
    let mut words: Vec<LsfCodeword<'a>> = Vec::new();
    let mut slot: usize = 0;
    while slot < count
        invariant
            slot <= count,
            low == side.low_bitrate_precision,
            count == codeword_count(low),
            words@.len() == slot,
            selection_error(*side, codebooks, 0) == selection_error(
                *side,
                codebooks,
                slot as int,
            ),
            forall|i: int|
                0 <= i < slot ==> {
                    let word = #[trigger] words@[i];
                    let syntax = selected(*side, codebooks, i)->Ok_0;
                    &&& word.start == syntax.start
                    &&& word.values@ == syntax.values
                },
        decreases count - slot,
    {
        let index: u8 = require_index(side, slot)?;
        let table: LsfCodebook<'a> = if low {
            if slot < 2 {
                codebooks.low_stage1[slot]
            } else {
                codebooks.low_stage2[slot - 2]
            }
        } else {
            if slot < 2 {
                codebooks.high_stage1[slot]
            } else {
                codebooks.high_stage2[slot - 2]
            }
        };
        let spec: SubvectorSpec = spec_of_slot(low, slot);
        let word: LsfCodeword<'a> = codeword(table, spec, index)?;
        words.push(word);
        slot = slot + 1;
    }
    Ok(words)
}

/// The codewords of each stage cover the sixteen frequencies once.
pub proof fn codewords_cover_every_frequency(low_precision: bool, frequency: int)
    requires
        0 <= frequency < LSF_ORDER,
    ensures
        exists|slot: int| 0 <= slot < 2 && covers(#[trigger] slot_spec(low_precision, slot), frequency),
        exists|slot: int|
            2 <= slot < codeword_count(low_precision) && covers(
                #[trigger] slot_spec(low_precision, slot),
                frequency,
            ),
        forall|a: int, b: int|
            0 <= a < b < codeword_count(low_precision) && covers(
                #[trigger] slot_spec(low_precision, a),
                frequency,
            ) && covers(#[trigger] slot_spec(low_precision, b), frequency) ==> a < 2 <= b,
{
    assert(covers(slot_spec(low_precision, if frequency < 9 {
        0int
    } else {
        1
    }), frequency));
    if low_precision {
        assert(covers(slot_spec(low_precision, if frequency < 5 {
            2int
        } else if frequency < 9 {
            3
        } else {
            4
        }), frequency));
    } else {
        assert(covers(slot_spec(low_precision, if frequency < 3 {
            2int
        } else if frequency < 6 {
            3
        } else if frequency < 9 {
            4
        } else if frequency < 12 {
            5
        } else {
            6
        }), frequency));
    }
}

/// A codebook is for a frequency.
pub open spec fn covers(spec: SubvectorSpec, frequency: int) -> bool {
    spec.start <= frequency < spec.start + spec.dimension
}

} // verus!
