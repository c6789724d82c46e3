//! Linear prediction parameters in twenty-bit fixed point.

use crate::error::CodecError;
use vstd::prelude::*;

verus! {

/// Smallest prediction order.
pub const LOSSLESS_LPC_ORDER_MIN: u8 = 1;

/// Largest prediction order.
pub const LOSSLESS_LPC_ORDER_MAX: u8 = 127;

/// Fractional bits of the predictor.
pub const LOSSLESS_LPC_Q_BITS: u8 = 20;

/// One, in twenty-bit fixed point.
pub const LOSSLESS_LPC_Q_ONE: i32 = 1_048_576;

/// Width of a quantisation bin of a reflection coefficient.
pub const LOSSLESS_UNIFORM_PARCOR_Q20_STEP: i32 = 16_384;

/// Half the width of such a bin.
pub const LOSSLESS_UNIFORM_PARCOR_Q20_HALF_STEP: i32 = 8_192;

/// Check a prediction order.
pub fn validate_lossless_lpc_order(order: u8) -> (result: Result<usize, CodecError>)
    ensures
        result == if 1 <= order <= 127 {
            Ok::<usize, CodecError>(order as usize)
        } else {
            Err(
                CodecError::InvalidData(
                    "lossless LPC order is outside the standardized 1..=127 range",
                ),
            )
        },
{
    if order < LOSSLESS_LPC_ORDER_MIN || order > LOSSLESS_LPC_ORDER_MAX {
        return Err(
            CodecError::InvalidData("lossless LPC order is outside the standardized 1..=127 range"),
        );
    }
    Ok(order as usize)
}

/// The centre of quantisation bin `index`: `(index + 1/2) / 64` in twenty-bit fixed point.
pub open spec fn uniform_parcor(index: int) -> int {
    16_384 * index + 8_192
}

/// The reflection coefficient of an index, from the third coefficient on.
pub open spec fn uniform_parcor_of(index: int) -> Result<i32, CodecError> {
    if -64 <= index <= 63 {
        Ok(uniform_parcor(index) as i32)
    } else {
        Err(CodecError::InvalidData("lossless uniform PARCOR index is outside -64..=63"))
    }
}

/// Dequantise a reflection coefficient, from the third one on; the first two are mapped otherwise.
pub fn dequantize_lossless_uniform_parcor_q20(quantized: i8) -> (result: Result<i32, CodecError>)
    ensures
        result == uniform_parcor_of(quantized as int),
{
    if quantized < -64 || quantized > 63 {
        return Err(CodecError::InvalidData("lossless uniform PARCOR index is outside -64..=63"));
    }
    Ok(
        quantized as i32 * LOSSLESS_UNIFORM_PARCOR_Q20_STEP + LOSSLESS_UNIFORM_PARCOR_Q20_HALF_STEP,
    )
}

/// `output` holds the first `count` coefficients of `input`, and is as it was behind them.
pub open spec fn dequantized_up_to(
    input: Seq<i8>,
    before: Seq<i32>,
    output: Seq<i32>,
    count: int,
) -> bool {
    &&& output.len() == before.len()
    &&& forall|i: int|
        0 <= i < count ==> uniform_parcor_of(input[i] as int) == Ok::<i32, CodecError>(
            #[trigger] output[i],
        )
    &&& forall|i: int| count <= i < output.len() ==> #[trigger] output[i] == before[i]
}

/// Dequantise the coefficients from the third one on into the front of `output`.
///
/// Indices are taken in order. One that is out of range stops the work there, with the
/// coefficients before it written.
pub fn dequantize_lossless_uniform_parcor_tail_q20(input: &[i8], output: &mut [i32]) -> (result:
    Result<usize, CodecError>)
    ensures
        old(output)@.len() < input@.len() ==> result == Err::<usize, CodecError>(
            CodecError::InvalidData(
                "lossless Q20 PARCOR output is shorter than the uniform coefficient tail",
            ),
        ) && final(output)@ == old(output)@,
        old(output)@.len() >= input@.len() ==> match result {
            Ok(count) => count == input@.len() && dequantized_up_to(
                input@,
                old(output)@,
                final(output)@,
                input@.len() as int,
            ),
            Err(error) => exists|count: int| #[trigger]
                dequantized_up_to(input@, old(output)@, final(output)@, count) && 0 <= count
                    < input@.len() && uniform_parcor_of(input@[count] as int) == Err::<
                    i32,
                    CodecError,
                >(error),
        },
{
    if output.len() < input.len() {
        return Err(
            CodecError::InvalidData(
                "lossless Q20 PARCOR output is shorter than the uniform coefficient tail",
            ),
        );
    }
    let mut index: usize = 0;
    while index < input.len()
        invariant
            index <= input@.len(),
            input@.len() <= output@.len(),
            old(output)@.len() >= input@.len(),
            dequantized_up_to(input@, old(output)@, output@, index as int),
        decreases input@.len() - index,
    {
        output[index] = dequantize_lossless_uniform_parcor_q20(input[index])?;
        index = index + 1;
    }
    Ok(input.len())
}

/// Bin centres lie symmetrically about zero: index `b` and index `-b - 1` have opposite centres.
pub proof fn parcor_centres_are_symmetric(index: int)
    requires
        -64 <= index <= 63,
    ensures
        uniform_parcor_of(index) is Ok,
        uniform_parcor_of(-index - 1) is Ok,
        uniform_parcor_of(index)->Ok_0 == -uniform_parcor_of(-index - 1)->Ok_0,
{
}

} // verus!
