//! The quantisation and coding block of one channel: scale, noise filling and the two range coded
//! byte strings.

use crate::bitreader::{bit_at, bit_capacity, bits, lemma_span_values, BitReader};
use crate::config::NeuralNetworkType;
use crate::error::CodecError;
use vstd::prelude::*;

verus! {

/// A stretch of bits inside a payload.
#[derive(Clone, Copy, Debug, PartialEq, Eq, Structural)]
pub struct BitRange {
    pub bit_offset: usize,
    pub bit_len: usize,
}

/// Decoded fields of a quantisation and coding block.
#[derive(Clone, Copy, Debug, PartialEq, Eq)]
pub struct QcSideInfo {
    /// Only the basic network has it.
    pub is_feat_amplified: Option<bool>,
    /// Only the basic network has it.
    pub scale_q_idx: Option<u8>,
    /// Only the low-complexity network has it.
    pub scale_q_idx_lc: Option<u8>,
    /// One noise filling index per group.
    pub nf_param_q_idx: [Option<u8>; 2],
    pub context_bitstream: BitRange,
    pub base_bitstream: BitRange,
    pub channel_bytes: usize,
    pub next_bit_offset: usize,
}

/// Why a block cannot be sized, if it cannot.
pub open spec fn qc_header_error(nn_type: NeuralNetworkType, num_groups: int) -> Option<
    CodecError,
> {
    match nn_type {
        NeuralNetworkType::Reserved(_) => Some(
            CodecError::Unsupported("reserved AVS3 neural-network type"),
        ),
        _ => if num_groups == 1 || num_groups == 2 {
            None
        } else {
            Some(CodecError::InvalidData("QC block requires one or two groups"))
        },
    }
}

/// Width of the fields in front of the range coded bytes: scale, one noise filling index per
/// group, and the length of the context bytes.
pub open spec fn qc_header_bits(num_groups: int) -> int {
    8 + 3 * num_groups + 8
}

/// Width of the fields in front of the range coded bytes.
pub fn qc_fixed_header_bits(nn_type: NeuralNetworkType, num_groups: u8) -> (result: Result<
    usize,
    CodecError,
>)
    ensures
        match qc_header_error(nn_type, num_groups as int) {
            Some(error) => result == Err::<usize, CodecError>(error),
            None => result == Ok::<usize, CodecError>(qc_header_bits(num_groups as int) as usize),
        },
{
    match nn_type {
        NeuralNetworkType::Reserved(_) => Err(
            CodecError::Unsupported("reserved AVS3 neural-network type"),
        ),
        _ => if num_groups == 1 || num_groups == 2 {
            Ok(8 + 3 * num_groups as usize + 8)
        } else {
            Err(CodecError::InvalidData("QC block requires one or two groups"))
        },
    }
}

/// What a quantisation and coding block says, in terms of the bits it is written in.
pub struct QcSyntax {
    pub is_feat_amplified: Option<bool>,
    pub scale_q_idx: Option<u8>,
    pub scale_q_idx_lc: Option<u8>,
    pub noise: Seq<Option<u8>>,
    pub context_start: int,
    pub context_bytes: int,
    pub channel_bytes: int,
    pub end: int,
}

/// The quantisation and coding block of `channel_bytes` range coded bytes written at bit `start`.
#[verifier::opaque]
pub open spec fn qc_syntax_at(
    bytes: Seq<u8>,
    end: int,
    start: int,
    nn_type: NeuralNetworkType,
    num_groups: int,
    channel_bytes: int,
) -> Result<QcSyntax, CodecError> {
    let length_start = start + 8 + 3 * num_groups;
    let context_start = start + qc_header_bits(num_groups);
    let context_bytes = bits(bytes, length_start, 8) as int;
    if let Some(error) = qc_header_error(nn_type, num_groups) {
        Err(error)
    } else if context_start > end {
        Err(CodecError::Truncated)
    } else if context_bytes > channel_bytes {
        Err(CodecError::InvalidData("QC context bytes exceed the channel byte budget"))
    } else if context_start + 8 * channel_bytes > end {
        Err(CodecError::Truncated)
    } else {
        Ok(
            QcSyntax {
                is_feat_amplified: if nn_type == NeuralNetworkType::Basic {
                    Some(bit_at(bytes, start))
                } else {
                    None
                },
                scale_q_idx: if nn_type == NeuralNetworkType::Basic {
                    Some(bits(bytes, start + 1, 7) as u8)
                } else {
                    None
                },
                scale_q_idx_lc: if nn_type == NeuralNetworkType::Basic {
                    None
                } else {
                    Some(bits(bytes, start, 8) as u8)
                },
                noise: seq![
                    Some(bits(bytes, start + 8, 3) as u8),
                    if num_groups == 2 {
                        Some(bits(bytes, start + 11, 3) as u8)
                    } else {
                        None
                    },
                ],
                context_start,
                context_bytes,
                channel_bytes,
                end: context_start + 8 * channel_bytes,
            },
        )
    }
}

impl QcSideInfo {
    /// The side information holds exactly what `syntax` says.
    pub open spec fn matches(&self, syntax: QcSyntax) -> bool {
        &&& self.is_feat_amplified == syntax.is_feat_amplified
        &&& self.scale_q_idx == syntax.scale_q_idx
        &&& self.scale_q_idx_lc == syntax.scale_q_idx_lc
        &&& self.nf_param_q_idx@ == syntax.noise
        &&& self.context_bitstream.bit_offset == syntax.context_start
        &&& self.context_bitstream.bit_len == 8 * syntax.context_bytes
        &&& self.base_bitstream.bit_offset == syntax.context_start + 8 * syntax.context_bytes
        &&& self.base_bitstream.bit_len == 8 * (syntax.channel_bytes - syntax.context_bytes)
        &&& self.channel_bytes == syntax.channel_bytes
        &&& self.next_bit_offset == syntax.end
    }
}

/// Read the quantisation and coding block of one channel, up to the last of its `channel_bytes` range
/// coded bytes.
pub fn read_qc_side_info(
    reader: &mut BitReader<'_>,
    nn_type: NeuralNetworkType,
    num_groups: u8,
    channel_bytes: usize,
) -> (result: Result<QcSideInfo, CodecError>)
    requires
        old(reader).well_formed(),
    ensures
        final(reader).same_source(old(reader)),
        match qc_syntax_at(
            old(reader).source(),
            old(reader).end(),
            old(reader).cursor(),
            nn_type,
            num_groups as int,
            channel_bytes as int,
        ) {
            Ok(syntax) => result is Ok && result->Ok_0.matches(syntax) && final(reader).cursor()
                == syntax.end,
            Err(error) => result == Err::<QcSideInfo, CodecError>(error),
        },
{
    proof {
        lemma_span_values();
        reveal(qc_syntax_at);
    }
    let _header: usize = qc_fixed_header_bits(nn_type, num_groups)?;
    let mut is_feat_amplified: Option<bool> = None;
    let mut scale_q_idx: Option<u8> = None;
    let mut scale_q_idx_lc: Option<u8> = None;
    if nn_type == NeuralNetworkType::Basic {
        is_feat_amplified = Some(reader.read_bit()?);
        scale_q_idx = Some(reader.read_bits(7)? as u8);
    } else {
        scale_q_idx_lc = Some(reader.read_bits(8)? as u8);
    }
    let first: u8 = reader.read_bits(3)? as u8;
    let second: Option<u8> = if num_groups == 2 {
        Some(reader.read_bits(3)? as u8)
    } else {
        None
    };
    let context_bytes: usize = reader.read_bits(8)? as usize;
    if context_bytes > channel_bytes {
        return Err(CodecError::InvalidData("QC context bytes exceed the channel byte budget"));
    }
    let context_start: usize = reader.position_bits();
    if channel_bytes > reader.remaining_bits() / 8 {
        return Err(CodecError::Truncated);
    }
    reader.skip_bits(8 * channel_bytes);
    let nf_param_q_idx: [Option<u8>; 2] = [Some(first), second];
    let ghost noise = seq![Some(first), second];
    assert(nf_param_q_idx@ =~= noise);
    Ok(
        QcSideInfo {
            is_feat_amplified,
            scale_q_idx,
            scale_q_idx_lc,
            nf_param_q_idx,
            context_bitstream: BitRange { bit_offset: context_start, bit_len: 8 * context_bytes },
            base_bitstream: BitRange {
                bit_offset: context_start + 8 * context_bytes,
                bit_len: 8 * (channel_bytes - context_bytes),
            },
            channel_bytes,
            next_bit_offset: context_start + 8 * channel_bytes,
        },
    )
}

/// Parse the quantisation and coding block that starts at bit `bit_offset` of `bytes` and holds
/// `channel_bytes` range coded bytes.
pub fn parse_qc_side_info_at(
    bytes: &[u8],
    bit_offset: usize,
    nn_type: NeuralNetworkType,
    num_groups: u8,
    channel_bytes: usize,
) -> (result: Result<QcSideInfo, CodecError>)
    ensures
        match qc_syntax_at(
            bytes@,
            bit_capacity(bytes@),
            bit_offset as int,
            nn_type,
            num_groups as int,
            channel_bytes as int,
        ) {
            Ok(syntax) => result is Ok && result->Ok_0.matches(syntax),
            Err(error) => result == Err::<QcSideInfo, CodecError>(error),
        },
{
    proof {
        reveal(qc_syntax_at);
    }
    let _header: usize = qc_fixed_header_bits(nn_type, num_groups)?;
    let mut reader = BitReader::with_bit_position(bytes, bit_offset)?;
    read_qc_side_info(&mut reader, nn_type, num_groups, channel_bytes)
}

} // verus!
