//! How far the first prediction residuals of a block were shifted down.

use crate::error::CodecError;
use vstd::prelude::*;

verus! {

/// Only so many residuals at the start of a block are shifted.
pub const LOSSLESS_PREPROCESS_MAX_SAMPLES: usize = 16;

/// Contribution of a reflection coefficient from the third one on, by the magnitude of its index.
pub const RA_SHIFT: [u16; 65] = [
    0, 1, 6, 13, 23, 36, 52, 71, 93, 118, 146, 177, 211, 249, 290, 334, 381, 432, 487, 545, 607,
    673, 743, 817, 896, 978, 1066, 1158, 1255, 1358, 1466, 1580, 1700, 1826, 1960, 2100, 2248,
    2404, 2569, 2743, 2927, 3122, 3329, 3548, 3781, 4030, 4296, 4580, 4885, 5214, 5570, 5956, 6378,
    6841, 7354, 7927, 8573, 9313, 10176, 11205, 12476, 14128, 16477, 20526, 23147,
];

/// Contribution of the first two reflection coefficients, by their index plus 64.
pub const RA_SHIFT12: [u16; 128] = [
    58348, 48794, 43108, 39207, 36249, 33866, 31870, 30151, 28643, 27298, 26083, 24977, 23959,
    23018, 22141, 21321, 20551, 19824, 19136, 18483, 17862, 17269, 16702, 16159, 15638, 15136,
    14654, 14189, 13740, 13305, 12885, 12479, 12084, 11702, 11330, 10969, 10618, 10277, 9944, 9620,
    9305, 8997, 8697, 8404, 8118, 7839, 7566, 7300, 7039, 6785, 6536, 6293, 6055, 5822, 5594, 5372,
    5154, 4941, 4733, 4529, 4330, 4135, 3944, 3758, 3577, 3399, 3226, 3056, 2891, 2730, 2573, 2420,
    2271, 2127, 1986, 1849, 1717, 1589, 1465, 1345, 1229, 1118, 1012, 909, 812, 719, 631, 548, 469,
    397, 329, 267, 211, 161, 117, 79, 49, 25, 9, 1, 1, 10, 29, 58, 98, 149, 213, 291, 384, 493,
    621, 769, 939, 1135, 1360, 1618, 1915, 2258, 2655, 3119, 3667, 4320, 5117, 6113, 7409, 9209,
    12043, 18365,
];

/// Whether an index is a quantised reflection coefficient.
pub open spec fn is_parcor_index(value: int) -> bool {
    -64 <= value <= 63
}

/// The error for an index that is none.
pub open spec fn parcor_index_error() -> CodecError {
    CodecError::InvalidData("lossless quantized PARCOR coefficient is outside -64..=63")
}

/// Table entry of one of the first two coefficients.
pub open spec fn ra_shift12(value: int) -> u16 {
    RA_SHIFT12[value + 64]
}

/// Table entry of a later coefficient.
pub open spec fn ra_shift(value: int) -> u16 {
    RA_SHIFT[if value < 0 {
        -value
    } else {
        value
    }]
}

/// Look up the contribution of one of the first two coefficients.
pub fn lossless_ra_shift12(value: i8) -> (result: Result<u16, CodecError>)
    ensures
        result == if is_parcor_index(value as int) {
            Ok::<u16, CodecError>(ra_shift12(value as int))
        } else {
            Err(parcor_index_error())
        },
{
    if value < -64 || value > 63 {
        return Err(
            CodecError::InvalidData("lossless quantized PARCOR coefficient is outside -64..=63"),
        );
    }
    let index: usize = (value as i16 + 64) as usize;
    Ok(RA_SHIFT12[index])
}

/// Look up the contribution of a later coefficient.
pub fn lossless_ra_shift(value: i8) -> (result: Result<u16, CodecError>)
    ensures
        result == if is_parcor_index(value as int) {
            Ok::<u16, CodecError>(ra_shift(value as int))
        } else {
            Err(parcor_index_error())
        },
{
    if value < -64 || value > 63 {
        return Err(
            CodecError::InvalidData("lossless quantized PARCOR coefficient is outside -64..=63"),
        );
    }
    let magnitude: usize = if value < 0 {
        (-(value as i16)) as usize
    } else {
        value as usize
    };
    Ok(RA_SHIFT[magnitude])
}

/// Contributions of the first `count` coefficients.
pub open spec fn shift_energy(parcor: Seq<i8>, count: int) -> int
    decreases count,
{
    if count <= 0 {
        0
    } else {
        shift_energy(parcor, count - 1) + if count <= 2 {
            ra_shift12(parcor[count - 1] as int)
        } else {
            ra_shift(parcor[count - 1] as int)
        }
    }
}

/// How far residual `index` was shifted: the contributions up to its coefficient, in units of 8192
/// and rounded.
pub open spec fn residual_shift(parcor: Seq<i8>, index: int) -> int {
    (4096 + shift_energy(parcor, index + 1)) / 8192
}

/// How many residuals are shifted.
pub open spec fn shifted_count(parcor: Seq<i8>) -> int {
    if parcor.len() < 16 {
        parcor.len() as int
    } else {
        16
    }
}

/// All coefficients that take part are quantised reflection coefficients.
pub open spec fn parcor_prefix_is_valid(parcor: Seq<i8>) -> bool {
    forall|i: int| 0 <= i < shifted_count(parcor) ==> is_parcor_index(#[trigger] parcor[i] as int)
}

/// Compute how far the first residuals of a block were shifted, from its quantised reflection
/// coefficients. Gives the number of shifts written to the front of `output`.
pub fn lossless_residual_shift_plan(quantized_parcor: &[i8], output: &mut [u8]) -> (result: Result<
    usize,
    CodecError,
>)
    ensures
        final(output)@.len() == old(output)@.len(),
        ({
            let count = shifted_count(quantized_parcor@);
            if old(output)@.len() < count {
                &&& result == Err::<usize, CodecError>(
                    CodecError::InvalidData(
                        "lossless residual shift output is shorter than the active PARCOR prefix",
                    ),
                )
                &&& final(output)@ == old(output)@
            } else if !parcor_prefix_is_valid(quantized_parcor@) {
                &&& result == Err::<usize, CodecError>(parcor_index_error())
                &&& final(output)@ == old(output)@
            } else {
                &&& result == Ok::<usize, CodecError>(count as usize)
                &&& forall|i: int|
                    0 <= i < old(output)@.len() ==> #[trigger] final(output)@[i] == if i < count {
                        residual_shift(quantized_parcor@, i)
                    } else {
                        old(output)@[i] as int
                    }
            }
        }),
{
    let count: usize = if quantized_parcor.len() < LOSSLESS_PREPROCESS_MAX_SAMPLES {
        quantized_parcor.len()
    } else {
        LOSSLESS_PREPROCESS_MAX_SAMPLES
    };
    if output.len() < count {
        return Err(
            CodecError::InvalidData(
                "lossless residual shift output is shorter than the active PARCOR prefix",
            ),
        );
    }
    let mut checked: usize = 0;
    while checked < count
        invariant
            checked <= count,
            count == shifted_count(quantized_parcor@),
            count <= output@.len(),
            output@ == old(output)@,
            forall|i: int|
                0 <= i < checked ==> is_parcor_index(#[trigger] quantized_parcor@[i] as int),
        decreases count - checked,
    {
        let value: i8 = quantized_parcor[checked];
        if value < -64 || value > 63 {
            assert(!is_parcor_index(quantized_parcor@[checked as int] as int));
            return Err(
                CodecError::InvalidData(
                    "lossless quantized PARCOR coefficient is outside -64..=63",
                ),
            );
        }
        checked = checked + 1;
    }
    let mut accumulated: u32 = 0;
    let mut index: usize = 0;
    while index < count
        invariant
            index <= count,
            count == shifted_count(quantized_parcor@),
            count <= output@.len(),
            output@.len() == old(output)@.len(),
            parcor_prefix_is_valid(quantized_parcor@),
            accumulated == shift_energy(quantized_parcor@, index as int),
            accumulated <= 65535 * index,
            forall|i: int|
                0 <= i < output@.len() ==> #[trigger] output@[i] == if i < index {
                    residual_shift(quantized_parcor@, i)
                } else {
                    old(output)@[i] as int
                },
        decreases count - index,
    {
        let value: i8 = quantized_parcor[index];
        assert(is_parcor_index(quantized_parcor@[index as int] as int));
        let part: u16 = if index < 2 {
            lossless_ra_shift12(value)?
        } else {
            lossless_ra_shift(value)?
        };
        accumulated = accumulated + part as u32;
        output[index] = ((4096 + accumulated) / 8192) as u8;
        index = index + 1;
    }
    Ok(count)
}

} // verus!
