//! Entropy decoding of the two latent streams of a channel.

use crate::bitreader::{addressable_bits, bit_capacity, bits, lemma_bits_bound, lemma_span_values, span, BitReader};
use crate::engine::latent::channel_pattern;
use crate::engine::range_coder::{
    fresh_state, values_of, RangeCoderConfig, RangeCoderError, RangeDecoder, RangeModel,
};
use crate::error::CodecError;
use crate::qc::BitRange;
use vstd::prelude::*;

verus! {

/// Number of distributions of the context latents, one for each channel.
pub const CONTEXT_RANGE_MODEL_COUNT: usize = 16;

/// Number of distributions of the base latents.
pub const BASE_RANGE_MODEL_COUNT: usize = 64;

/// Byte `index` of a stretch of bits, whose last byte is filled up with zeros.
pub open spec fn window_byte(packet: Seq<u8>, range: BitRange, index: int) -> u8 {
    let left = range.bit_len - 8 * index;
    if left >= 8 {
        bits(packet, range.bit_offset + 8 * index, 8) as u8
    } else {
        (bits(packet, range.bit_offset + 8 * index, left as nat) * span((8 - left) as nat)) as u8
    }
}

/// The bytes that a stretch of bits holds.
pub open spec fn window_bytes(packet: Seq<u8>, range: BitRange) -> Seq<u8> {
    Seq::new(
        ((range.bit_len + 7) / 8) as nat,
        |i: int| window_byte(packet, range, i),
    )
}

/// The stretch of bits lies inside the packet.
pub open spec fn window_fits(packet: Seq<u8>, range: BitRange) -> bool {
    range.bit_offset + range.bit_len <= bit_capacity(packet)
}

/// Take the bytes out of a stretch of bits, which may start anywhere in a byte.
pub fn range_bytes(packet: &[u8], range: BitRange) -> (result: Result<Vec<u8>, CodecError>)
    ensures
        if window_fits(packet@, range) {
            result is Ok && result->Ok_0@ == window_bytes(packet@, range)
        } else {
            result == Err::<Vec<u8>, CodecError>(CodecError::Truncated)
        },
{
    let capacity: usize = addressable_bits(packet);
    if range.bit_offset > capacity || range.bit_len > capacity - range.bit_offset {
        return Err(CodecError::Truncated);
    }
    let mut reader = BitReader::with_bit_position(packet, range.bit_offset)?;
    let mut bytes: Vec<u8> = Vec::new();
    let mut left: usize = range.bit_len;
    let ghost goal = window_bytes(packet@, range);
    while left > 0
        invariant
            reader.well_formed(),
            reader.source() == packet@,
            reader.end() == bit_capacity(packet@),
            window_fits(packet@, range),
            left <= range.bit_len,
            reader.cursor() == range.bit_offset + range.bit_len - left,
            left > 0 ==> 8 * bytes@.len() == range.bit_len - left,
            left == 0 ==> bytes@.len() == goal.len(),
            bytes@.len() <= goal.len(),
            goal == window_bytes(packet@, range),
            forall|i: int| 0 <= i < bytes@.len() ==> #[trigger] bytes@[i] == goal[i],
        decreases left,
    {
        let width: u8 = if left >= 8 {
            8
        } else {
            left as u8
        };
        let ghost at = reader.cursor();
        proof {
            lemma_bits_bound(packet@, at, width as nat);
            lemma_span_values();
        }
        let value: u32 = reader.read_bits(width)?;
        let pad: u32 = match width {
            1 => 128,
            2 => 64,
            3 => 32,
            4 => 16,
            5 => 8,
            6 => 4,
            7 => 2,
            _ => 1,
        };
        proof {
            let room = span((8 - width) as nat);
            assert(pad == room);
            assert(span(width as nat) * room == 256);
            assert(value * pad < 256) by (nonlinear_arith)
                requires
                    value < span(width as nat),
                    span(width as nat) * room == 256,
                    pad == room,
            ;
        }
        bytes.push((value * pad) as u8);
        left = left - width as usize;
    }
    assert(bytes@ =~= goal);
    Ok(bytes)
}

/// What a failure of the range decoder means for the packet.
pub open spec fn packet_error(error: RangeCoderError) -> CodecError {
    match error {
        RangeCoderError::OverflowCodeTooLong(_) => CodecError::InvalidData(
            "range overflow code is too long",
        ),
        RangeCoderError::IntegerOverflow => CodecError::InvalidData(
            "range decoder integer overflow",
        ),
        _ => CodecError::Internal("range decoder was set up wrongly"),
    }
}

/// Say what a failure of the range decoder means for the packet.
fn to_packet_error(error: RangeCoderError) -> (result: CodecError)
    ensures
        result == packet_error(error),
{
    match error {
        RangeCoderError::OverflowCodeTooLong(_) => CodecError::InvalidData(
            "range overflow code is too long",
        ),
        RangeCoderError::IntegerOverflow => CodecError::InvalidData(
            "range decoder integer overflow",
        ),
        _ => CodecError::Internal("range decoder was set up wrongly"),
    }
}

/// What comes of decoding `indexes` from a stretch of bits into `before`: the result, and what the
/// output holds then.
pub open spec fn latents_in(
    packet: Seq<u8>,
    range: BitRange,
    model: RangeModel,
    indexes: Seq<u16>,
    before: Seq<i32>,
) -> (Result<(), CodecError>, Seq<i32>) {
    if !window_fits(packet, range) {
        (Err(CodecError::Truncated), before)
    } else {
        let (values, _, error) = values_of(
            window_bytes(packet, range),
            fresh_state(),
            model,
            indexes,
            0,
        );
        (
            match error {
                None => Ok(()),
                Some(error) => Err(packet_error(error)),
            },
            values + before.subrange(values.len() as int, before.len() as int),
        )
    }
}

/// Decode `indexes` from a stretch of bits.
fn decode_latents(
    packet: &[u8],
    range: BitRange,
    models: &RangeCoderConfig,
    indexes: &[u16],
    output: &mut [i32],
) -> (result: Result<(), CodecError>)
    requires
        models.well_formed(),
        old(output)@.len() == indexes@.len(),
    ensures
        (result, final(output)@) == latents_in(
            packet@,
            range,
            models.model(),
            indexes@,
            old(output)@,
        ),
{
    let input = range_bytes(packet, range)?;
    let mut decoder = RangeDecoder::new(input.as_slice());
    match decoder.decode_into(models, indexes, output) {
        Ok(()) => Ok(()),
        Err(error) => Err(to_packet_error(error)),
    }
}

/// Why context latents of this shape can not be decoded, if they can not.
pub open spec fn context_shape_error(positions: int, channels: int, output: int) -> Option<
    CodecError,
> {
    if channels == 0 || channels > CONTEXT_RANGE_MODEL_COUNT {
        Some(
            CodecError::InvalidData("context latent channel count must be between one and sixteen"),
        )
    } else if positions * channels > usize::MAX {
        Some(CodecError::InvalidData("context latent geometry overflows address space"))
    } else if output != positions * channels {
        Some(CodecError::InvalidData("context latent output length does not match geometry"))
    } else {
        None
    }
}

/// List the channel of each context latent.
fn context_indexes(positions: usize, channels: usize) -> (indexes: Vec<u16>)
    requires
        0 < channels <= 16,
        positions * channels <= usize::MAX,
    ensures
        indexes@ == channel_pattern(positions as int, channels as int),
{
    let total: usize = positions * channels;
    let mut indexes: Vec<u16> = Vec::new();
    while indexes.len() < total
        invariant
            total == positions * channels,
            0 < channels <= 16,
            indexes@.len() <= total,
            forall|k: int|
                0 <= k < indexes@.len() ==> #[trigger] indexes@[k] == channel_pattern(
                    positions as int,
                    channels as int,
                )[k],
        decreases total - indexes@.len(),
    {
        let at: usize = indexes.len();
        indexes.push((at % channels) as u16);
    }
    assert(indexes@ =~= channel_pattern(positions as int, channels as int));
    indexes
}

/// As many zeros as asked for.
fn zeros(count: usize) -> (values: Vec<i32>)
    ensures
        values@ == Seq::new(count as nat, |i: int| 0i32),
{
    let mut values: Vec<i32> = Vec::new();
    while values.len() < count
        invariant
            values@.len() <= count,
            forall|i: int| 0 <= i < values@.len() ==> #[trigger] values@[i] == 0,
        decreases count - values@.len(),
    {
        values.push(0);
    }
    assert(values@ =~= Seq::new(count as nat, |i: int| 0i32));
    values
}

/// Decode the context latents: for each position, one value for each channel, with the distribution
/// of that channel.
pub fn decode_context_latents(
    packet: &[u8],
    range: BitRange,
    latent_positions: usize,
    latent_channels: usize,
    models: &RangeCoderConfig,
) -> (result: Result<Vec<i32>, CodecError>)
    requires
        models.well_formed(),
    ensures
        ({
            let count = latent_positions * latent_channels;
            if count > usize::MAX {
                result == Err::<Vec<i32>, CodecError>(
                    CodecError::InvalidData("context latent geometry overflows address space"),
                )
            } else if let Some(error) = context_shape_error(
                latent_positions as int,
                latent_channels as int,
                count,
            ) {
                result == Err::<Vec<i32>, CodecError>(error)
            } else {
                let (outcome, values) = latents_in(
                    packet@,
                    range,
                    models.model(),
                    channel_pattern(latent_positions as int, latent_channels as int),
                    Seq::new(count as nat, |i: int| 0i32),
                );
                match outcome {
                    Ok(()) => result is Ok && result->Ok_0@ == values,
                    Err(error) => result == Err::<Vec<i32>, CodecError>(error),
                }
            }
        }),
{
    let count: usize = match latent_positions.checked_mul(latent_channels) {
        Some(count) => count,
        None => {
            return Err(CodecError::InvalidData("context latent geometry overflows address space"));
        },
    };
    let mut output = zeros(count);
    decode_context_latents_into(
        packet,
        range,
        latent_positions,
        latent_channels,
        models,
        output.as_mut_slice(),
    )?;
    Ok(output)
}

/// Decode the context latents into `output`.
pub fn decode_context_latents_into(
    packet: &[u8],
    range: BitRange,
    latent_positions: usize,
    latent_channels: usize,
    models: &RangeCoderConfig,
    output: &mut [i32],
) -> (result: Result<(), CodecError>)
    requires
        models.well_formed(),
    ensures
        match context_shape_error(
            latent_positions as int,
            latent_channels as int,
            old(output)@.len() as int,
        ) {
            Some(error) => result == Err::<(), CodecError>(error) && final(output)@ == old(output)@,
            None => (result, final(output)@) == latents_in(
                packet@,
                range,
                models.model(),
                channel_pattern(latent_positions as int, latent_channels as int),
                old(output)@,
            ),
        },
{
    if latent_channels == 0 || latent_channels > CONTEXT_RANGE_MODEL_COUNT {
        return Err(
            CodecError::InvalidData("context latent channel count must be between one and sixteen"),
        );
    }
    let expected: usize = match latent_positions.checked_mul(latent_channels) {
        Some(expected) => expected,
        None => {
            return Err(CodecError::InvalidData("context latent geometry overflows address space"));
        },
    };
    if output.len() != expected {
        return Err(
            CodecError::InvalidData("context latent output length does not match geometry"),
        );
    }
    let indexes = context_indexes(latent_positions, latent_channels);
    decode_latents(packet, range, models, indexes.as_slice(), output)
}

/// The indexes as the range decoder takes them.
pub open spec fn widened(indices: Seq<u8>) -> Seq<u16> {
    Seq::new(indices.len(), |i: int| indices[i] as u16)
}

/// Some index has no distribution.
pub open spec fn index_beyond_models(indices: Seq<u8>) -> bool {
    exists|i: int| 0 <= i < indices.len() && #[trigger] indices[i] >= BASE_RANGE_MODEL_COUNT
}

/// Why base latents can not be decoded, if they can not.
pub open spec fn base_shape_error(indices: Seq<u8>, output: int) -> Option<CodecError> {
    if output != indices.len() {
        Some(CodecError::InvalidData("base latent output length does not match model-index tensor"))
    } else if index_beyond_models(indices) {
        Some(CodecError::InvalidData("base latent model index exceeds table B.9"))
    } else {
        None
    }
}

/// Decode the base latents, each with the distribution that its index names.
pub fn decode_base_latents(
    packet: &[u8],
    range: BitRange,
    model_indices: &[u8],
    models: &RangeCoderConfig,
) -> (result: Result<Vec<i32>, CodecError>)
    requires
        models.well_formed(),
    ensures
        if let Some(error) = base_shape_error(model_indices@, model_indices@.len() as int) {
            result == Err::<Vec<i32>, CodecError>(error)
        } else {
            let (outcome, values) = latents_in(
                packet@,
                range,
                models.model(),
                widened(model_indices@),
                Seq::new(model_indices@.len(), |i: int| 0i32),
            );
            match outcome {
                Ok(()) => result is Ok && result->Ok_0@ == values,
                Err(error) => result == Err::<Vec<i32>, CodecError>(error),
            }
        },
{
    let mut output = zeros(model_indices.len());
    decode_base_latents_into(packet, range, model_indices, models, output.as_mut_slice())?;
    Ok(output)
}

/// Decode the base latents into `output`.
pub fn decode_base_latents_into(
    packet: &[u8],
    range: BitRange,
    model_indices: &[u8],
    models: &RangeCoderConfig,
    output: &mut [i32],
) -> (result: Result<(), CodecError>)
    requires
        models.well_formed(),
    ensures
        match base_shape_error(model_indices@, old(output)@.len() as int) {
            Some(error) => result == Err::<(), CodecError>(error) && final(output)@ == old(output)@,
            None => (result, final(output)@) == latents_in(
                packet@,
                range,
                models.model(),
                widened(model_indices@),
                old(output)@,
            ),
        },
{
    if output.len() != model_indices.len() {
        return Err(
            CodecError::InvalidData("base latent output length does not match model-index tensor"),
        );
    }
    let mut indexes: Vec<u16> = Vec::new();
    let mut at: usize = 0;
    while at < model_indices.len()
        invariant
            at <= model_indices@.len(),
            output@ == old(output)@,
            output@.len() == model_indices@.len(),
            indexes@.len() == at,
            forall|i: int|
                0 <= i < at ==> #[trigger] indexes@[i] == model_indices@[i] && model_indices@[i] < 64,
        decreases model_indices@.len() - at,
    {
        let index: u8 = model_indices[at];
        if index >= 64 {
            assert(model_indices@[at as int] >= BASE_RANGE_MODEL_COUNT);
            return Err(CodecError::InvalidData("base latent model index exceeds table B.9"));
        }
        indexes.push(index as u16);
        at = at + 1;
    }
    assert(!index_beyond_models(model_indices@)) by {
        assert forall|i: int| 0 <= i < model_indices@.len() implies !(#[trigger] model_indices@[i]
            >= BASE_RANGE_MODEL_COUNT) by {
            assert(indexes@[i] == model_indices@[i]);
        }
    }
    assert(indexes@ =~= widened(model_indices@));
    decode_latents(packet, range, models, indexes.as_slice(), output)
}

} // verus!
