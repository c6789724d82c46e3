//! Side information of a mono frame.

use crate::bitreader::{addressable_bits, bit_capacity};
use crate::bwe::BweConfig;
use crate::config::NeuralNetworkType;
use crate::core_side::TnsCodebook;
use crate::error::CodecError;
use crate::ga_frame::{
    channel_head_at, lemma_channel_head_bounds, parse_channel_core_and_bwe, ChannelHead,
    GaChannelSideInfo,
};
use crate::group::{group_syntax_at, parse_group_bits_at, GroupSyntax};
use crate::qc::{
    parse_qc_side_info_at, qc_fixed_header_bits, qc_header_bits, qc_header_error, qc_syntax_at,
    QcSyntax,
};
use vstd::prelude::*;

verus! {

/// Side information of a mono frame.
#[derive(Clone, Copy, Debug, PartialEq, Eq)]
pub struct GaMonoFrameSideInfo {
    pub channel: GaChannelSideInfo,
    pub bwe_config: Option<BweConfig>,
    pub next_bit_offset: usize,
    /// Unused bits behind the range coded bytes.
    pub trailing_bits: usize,
}

/// What a frame with a single coded channel says behind its head and grouping blocks.
pub struct SoleChannelSyntax {
    pub head: ChannelHead,
    pub group: GroupSyntax,
    pub qc: QcSyntax,
    pub trailing_bits: int,
}

/// The quantisation and coding block of a frame's only coded channel: it owns every whole byte
/// behind bit `start`, once its own fixed fields are set aside.
pub open spec fn sole_qc_at(
    bytes: Seq<u8>,
    end: int,
    start: int,
    nn_type: NeuralNetworkType,
    num_groups: int,
) -> Result<(QcSyntax, int), CodecError> {
    let coded_bits = end - start - qc_header_bits(num_groups);
    if let Some(error) = qc_header_error(nn_type, num_groups) {
        Err(error)
    } else if coded_bits < 0 {
        Err(CodecError::Truncated)
    } else {
        match qc_syntax_at(bytes, end, start, nn_type, num_groups, coded_bits / 8) {
            Err(error) => Err(error),
            Ok(qc) => Ok((qc, coded_bits % 8)),
        }
    }
}

/// The mono frame written at bit `start`.
pub open spec fn mono_syntax_at(
    codebook: TnsCodebook,
    bytes: Seq<u8>,
    end: int,
    start: int,
    nn_type: NeuralNetworkType,
    low_bitrate_precision: bool,
    bwe_config: Option<BweConfig>,
) -> Result<SoleChannelSyntax, CodecError> {
    match channel_head_at(codebook, bytes, end, start, low_bitrate_precision, bwe_config) {
        Err(error) => Err(error),
        Ok(head) => match group_syntax_at(bytes, end, head.end, head.core.transform) {
            Err(error) => Err(error),
            Ok(group) => match sole_qc_at(bytes, end, group.end, nn_type, group.num_groups) {
                Err(error) => Err(error),
                Ok((qc, trailing_bits)) => Ok(
                    SoleChannelSyntax { head, group, qc, trailing_bits },
                ),
            },
        },
    }
}

/// Parse a mono frame through its quantisation and coding block.
///
/// Behind the core, bandwidth extension and grouping blocks the fixed fields of the last block are
/// set aside, and as many whole bytes as remain are range coded. Up to seven bits are left over.
pub fn parse_mono_frame_side_info(
    payload: &[u8],
    core_bit_offset: usize,
    nn_type: NeuralNetworkType,
    low_bitrate_precision: bool,
    bwe_config: Option<BweConfig>,
    codebook: &TnsCodebook,
) -> (result: Result<GaMonoFrameSideInfo, CodecError>)
    ensures
        match mono_syntax_at(
            *codebook,
            payload@,
            bit_capacity(payload@),
            core_bit_offset as int,
            nn_type,
            low_bitrate_precision,
            bwe_config,
        ) {
            Err(error) => result == Err::<GaMonoFrameSideInfo, CodecError>(error),
            Ok(syntax) => {
                &&& result matches Ok(frame)
                &&& frame.channel.matches(syntax.head, syntax.group, syntax.qc)
                &&& frame.bwe_config == bwe_config
                &&& frame.next_bit_offset == syntax.qc.end
                &&& frame.trailing_bits == syntax.trailing_bits
            },
        },
{
    let (core, bwe, offset) = parse_channel_core_and_bwe(
        payload,
        core_bit_offset,
        low_bitrate_precision,
        bwe_config,
        codebook,
    )?;
    proof {
        lemma_channel_head_bounds(
            *codebook,
            payload@,
            bit_capacity(payload@),
            core_bit_offset as int,
            low_bitrate_precision,
            bwe_config,
        );
    }
    let group = parse_group_bits_at(payload, offset, core.transform_type)?;
    let payload_bits: usize = addressable_bits(payload);
    let remaining: usize = payload_bits - group.next_bit_offset;
    let fixed_qc_bits: usize = qc_fixed_header_bits(nn_type, group.num_groups)?;
    if remaining < fixed_qc_bits {
        return Err(CodecError::Truncated);
    }
    let coded_bits: usize = remaining - fixed_qc_bits;
    let channel_bytes: usize = coded_bits / 8;
    let trailing_bits: usize = coded_bits % 8;
    let qc = parse_qc_side_info_at(
        payload,
        group.next_bit_offset,
        nn_type,
        group.num_groups,
        channel_bytes,
    )?;
    Ok(
        GaMonoFrameSideInfo {
            channel: GaChannelSideInfo { core, bwe, group, qc },
            bwe_config,
            next_bit_offset: qc.next_bit_offset,
            trailing_bits,
        },
    )
}

/// The blocks of a mono frame and the bits left over make up the whole payload, and fewer than
/// eight bits are left over.
pub proof fn mono_frame_accounts_for_every_bit(
    codebook: TnsCodebook,
    bytes: Seq<u8>,
    end: int,
    start: int,
    nn_type: NeuralNetworkType,
    low_bitrate_precision: bool,
    bwe_config: Option<BweConfig>,
)
    ensures
        mono_syntax_at(
            codebook,
            bytes,
            end,
            start,
            nn_type,
            low_bitrate_precision,
            bwe_config,
        ) matches Ok(syntax) ==> {
            &&& syntax.qc.end + syntax.trailing_bits == end
            &&& 0 <= syntax.trailing_bits < 8
        },
{
    reveal(qc_syntax_at);
}

} // verus!
