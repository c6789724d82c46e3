//! The low-complexity path from range coded bytes to quantised spectral lines.

use crate::engine::range_coder::RangeCoderConfig;
use crate::entropy::{base_shape_error, decode_base_latents, latents_in, widened};
use crate::error::CodecError;
use crate::group::MDCT_LINES;
use crate::qc::BitRange;
use vstd::prelude::*;

verus! {

/// Latents of a frame: sixty-four positions of sixteen channels.
pub const BASE_LATENT_VALUES: usize = 1024;

/// Decode the quantised spectral lines of a low-complexity channel.
///
/// The latents are the lines: no network stands between them.
pub fn decode_low_complexity_latents(
    packet: &[u8],
    base_range: BitRange,
    model_indices: &[u8],
    models: &RangeCoderConfig,
    output_len: usize,
) -> (result: Result<Vec<i32>, CodecError>)
    requires
        models.well_formed(),
    ensures
        if model_indices@.len() != BASE_LATENT_VALUES {
            result is Err && result->Err_0 == CodecError::InvalidData(
                "low-complexity base model-index tensor must be sixty-four positions by sixteen channels",
            )
        } else if output_len != MDCT_LINES {
            result is Err && result->Err_0 == CodecError::InvalidData(
                "low-complexity inverse-QC output must contain 1024 MDCT coefficients",
            )
        } else if let Some(error) = base_shape_error(model_indices@, model_indices@.len() as int) {
            result is Err && result->Err_0 == error
        } else {
            let (outcome, values) = latents_in(
                packet@,
                base_range,
                models.model(),
                widened(model_indices@),
                Seq::new(model_indices@.len(), |i: int| 0i32),
            );
            match outcome {
                Ok(()) => result is Ok && result->Ok_0@ == values,
                Err(error) => result is Err && result->Err_0 == error,
            }
        },
{
    if model_indices.len() != BASE_LATENT_VALUES {
        return Err(
            CodecError::InvalidData(
                "low-complexity base model-index tensor must be sixty-four positions by sixteen channels",
            ),
        );
    }
    if output_len != MDCT_LINES {
        return Err(
            CodecError::InvalidData(
                "low-complexity inverse-QC output must contain 1024 MDCT coefficients",
            ),
        );
    }
    decode_base_latents(packet, base_range, model_indices, models)
}

} // verus!
