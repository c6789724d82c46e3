//! Side information of a stereo frame, in its conventional and in its low-bitrate form.

use crate::bitreader::{addressable_bits, bit_at, bit_capacity, bits, lemma_span_values, BitReader};
use crate::bwe::{BweConfig, BweSideInfo};
use crate::config::NeuralNetworkType;
use crate::core_side::{CoreSidePrefix, TnsCodebook, TransformType};
use crate::error::CodecError;
use crate::ga_frame::{
    channel_head_at, head_matches, lemma_channel_head_bounds, parse_channel_core_and_bwe,
    ChannelHead, GaChannelSideInfo,
};
use crate::ga_mono::{sole_qc_at, SoleChannelSyntax};
use crate::group::{group_syntax_at, parse_group_bits_at, GroupSideInfo, GroupSyntax};
use crate::qc::{
    parse_qc_side_info_at, qc_fixed_header_bits, qc_header_bits, qc_header_error, qc_syntax_at,
    QcSideInfo, QcSyntax,
};
use vstd::prelude::*;

verus! {

/// Rotation vectors per subspectrum in the low-bitrate form.
pub const MCR_VQ_VECTORS: usize = 6;

/// How the two channels are coupled.
#[derive(Clone, Copy, Debug, PartialEq, Eq)]
pub enum StereoCouplingSideInfo {
    /// Two coded channels, which may be a mid and a side channel.
    Ms {
        is_ms: bool,
        ild_q_idx: Option<u8>,
        bits_ratio: u8,
    },
    /// One coded channel and rotations that give the other: six vectors for the even and six for
    /// the odd lines, nine bits each, or eight in short windows.
    Mcr {
        is_short_window: bool,
        vq_bits: u8,
        even_vq_indices: [u16; 6],
        odd_vq_indices: [u16; 6],
    },
}

/// The coupling block of a stereo frame.
#[derive(Clone, Copy, Debug, PartialEq, Eq)]
pub struct StereoSideInfo {
    pub coupling: StereoCouplingSideInfo,
    pub next_bit_offset: usize,
}

/// Side information of a conventional stereo frame.
#[derive(Clone, Copy, Debug, PartialEq, Eq)]
pub struct GaStereoFrameSideInfo {
    pub channels: [GaChannelSideInfo; 2],
    pub bwe_config: Option<BweConfig>,
    pub stereo: StereoSideInfo,
    pub channel_bytes: [usize; 2],
    pub next_bit_offset: usize,
    /// Unused bits behind the range coded bytes.
    pub trailing_bits: usize,
}

/// Side information of a low-bitrate stereo frame.
///
/// Both channels have core and bandwidth extension blocks, but only the left one is grouped and
/// range coded; the right spectrum is rotated out of it.
#[derive(Clone, Copy, Debug, PartialEq, Eq)]
pub struct GaStereoMcrFrameSideInfo {
    pub left: GaChannelSideInfo,
    pub right_core: CoreSidePrefix,
    pub right_bwe: Option<BweSideInfo>,
    pub bwe_config: Option<BweConfig>,
    pub stereo: StereoSideInfo,
    pub channel_bytes: [usize; 2],
    pub next_bit_offset: usize,
    pub trailing_bits: usize,
}

/// What a coupling block says, in terms of the bits it is written in.
pub enum CouplingSyntax {
    Ms { is_ms: bool, ild: Option<u8>, bits_ratio: u8, end: int },
    Mcr { is_short: bool, vq_bits: int, even: Seq<u16>, odd: Seq<u16>, end: int },
}

/// The bit after a coupling block.
pub open spec fn coupling_end(syntax: CouplingSyntax) -> int {
    match syntax {
        CouplingSyntax::Ms { is_ms, ild, bits_ratio, end } => end,
        CouplingSyntax::Mcr { is_short, vq_bits, even, odd, end } => end,
    }
}

/// The coupling block written at bit `start`. A total bitrate of at most 32 kb/s selects the
/// rotation form, which alternates between even and odd vectors.
pub open spec fn coupling_at(
    bytes: Seq<u8>,
    end: int,
    start: int,
    total_bitrate_kbps: int,
    left_transform: TransformType,
) -> Result<CouplingSyntax, CodecError> {
    let width = if left_transform == TransformType::Short {
        8nat
    } else {
        9nat
    };
    if start > end {
        Err(CodecError::Truncated)
    } else if total_bitrate_kbps <= 32 {
        if start + 12 * width > end {
            Err(CodecError::Truncated)
        } else {
            Ok(
                CouplingSyntax::Mcr {
                    is_short: left_transform == TransformType::Short,
                    vq_bits: width as int,
                    even: Seq::new(
                        6,
                        |i: int| bits(bytes, start + 2 * i * width, width) as u16,
                    ),
                    odd: Seq::new(
                        6,
                        |i: int| bits(bytes, start + 2 * i * width + width, width) as u16,
                    ),
                    end: start + 12 * width,
                },
            )
        }
    } else if start + 1 > end {
        Err(CodecError::Truncated)
    } else if !bit_at(bytes, start) {
        if start + 4 > end {
            Err(CodecError::Truncated)
        } else {
            Ok(
                CouplingSyntax::Ms {
                    is_ms: false,
                    ild: None,
                    bits_ratio: bits(bytes, start + 1, 3) as u8,
                    end: start + 4,
                },
            )
        }
    } else if start + 5 > end {
        Err(CodecError::Truncated)
    } else if bits(bytes, start + 1, 4) == 0 {
        Err(
            CodecError::InvalidData("stereo ILD index zero would make inverse ILD undefined"),
        )
    } else if start + 8 > end {
        Err(CodecError::Truncated)
    } else {
        Ok(
            CouplingSyntax::Ms {
                is_ms: true,
                ild: Some(bits(bytes, start + 1, 4) as u8),
                bits_ratio: bits(bytes, start + 5, 3) as u8,
                end: start + 8,
            },
        )
    }
}

impl StereoSideInfo {
    /// The block holds exactly what `syntax` says.
    pub open spec fn matches(&self, syntax: CouplingSyntax) -> bool {
        &&& self.next_bit_offset == coupling_end(syntax)
        &&& match (self.coupling, syntax) {
            (
                StereoCouplingSideInfo::Ms { is_ms, ild_q_idx, bits_ratio },
                CouplingSyntax::Ms { is_ms: ms, ild, bits_ratio: ratio, end },
            ) => is_ms == ms && ild_q_idx == ild && bits_ratio == ratio && bits_ratio < 8,
            (
                StereoCouplingSideInfo::Mcr {
                    is_short_window,
                    vq_bits,
                    even_vq_indices,
                    odd_vq_indices,
                },
                CouplingSyntax::Mcr { is_short, vq_bits: width, even, odd, end },
            ) => is_short_window == is_short && vq_bits == width && even_vq_indices@ == even
                && odd_vq_indices@ == odd,
            _ => false,
        }
    }
}

/// Parse the coupling block that starts at bit `bit_offset` of `bytes`.
///
/// The form is not transmitted: it follows from the total bitrate of both channels.
pub fn parse_stereo_side_info_at(
    bytes: &[u8],
    bit_offset: usize,
    total_bitrate_kbps: u32,
    left_transform: TransformType,
) -> (result: Result<StereoSideInfo, CodecError>)
    ensures
        match coupling_at(
            bytes@,
            bit_capacity(bytes@),
            bit_offset as int,
            total_bitrate_kbps as int,
            left_transform,
        ) {
            Ok(syntax) => result is Ok && result->Ok_0.matches(syntax),
            Err(error) => result == Err::<StereoSideInfo, CodecError>(error),
        },
{
    proof {
        lemma_span_values();
    }
    let mut reader = BitReader::with_bit_position(bytes, bit_offset)?;
    let coupling = if total_bitrate_kbps <= 32 {
        let is_short_window: bool = left_transform == TransformType::Short;
        let vq_bits: u8 = if is_short_window {
            8
        } else {
            9
        };
        let mut even_vq_indices: [u16; 6] = [0;6];
        let mut odd_vq_indices: [u16; 6] = [0;6];
        let mut index: usize = 0;
        while index < 6
            invariant
                index <= 6,
                vq_bits == 8 || vq_bits == 9,
                total_bitrate_kbps <= 32,
                is_short_window == (left_transform == TransformType::Short),
                vq_bits == 8 <==> is_short_window,
                reader.well_formed(),
                reader.source() == bytes@,
                reader.end() == bit_capacity(bytes@),
                bit_offset <= bit_capacity(bytes@),
                reader.cursor() == bit_offset + 2 * index * vq_bits,
                forall|i: int|
                    0 <= i < index ==> #[trigger] even_vq_indices[i] == bits(
                        bytes@,
                        bit_offset + 2 * i * vq_bits,
                        vq_bits as nat,
                    ) as u16,
                forall|i: int|
                    0 <= i < index ==> #[trigger] odd_vq_indices[i] == bits(
                        bytes@,
                        bit_offset + 2 * i * vq_bits + vq_bits,
                        vq_bits as nat,
                    ) as u16,
            decreases 6 - index,
        {
            proof {
                lemma_span_values();
                assert(2 * (index + 1) * vq_bits == 2 * index * vq_bits + 2 * vq_bits)
                    by (nonlinear_arith);
                assert(2 * (index + 1) * vq_bits <= 12 * vq_bits) by (nonlinear_arith)
                    requires
                        index + 1 <= 6,
                ;
            }
            even_vq_indices[index] = reader.read_bits(vq_bits)? as u16;
            odd_vq_indices[index] = reader.read_bits(vq_bits)? as u16;
            index = index + 1;
        }
        proof {
            if let Ok(CouplingSyntax::Mcr { is_short, vq_bits: width, even, odd, end }) =
                coupling_at(
                bytes@,
                bit_capacity(bytes@),
                bit_offset as int,
                total_bitrate_kbps as int,
                left_transform,
            ) {
                assert(even_vq_indices@ =~= even);
                assert(odd_vq_indices@ =~= odd);
            }
        }
        StereoCouplingSideInfo::Mcr { is_short_window, vq_bits, even_vq_indices, odd_vq_indices }
    } else {
        let is_ms: bool = reader.read_bit()?;
        let ild_q_idx: Option<u8> = if is_ms {
            let index: u8 = reader.read_bits(4)? as u8;
            if index == 0 {
                return Err(
                    CodecError::InvalidData(
                        "stereo ILD index zero would make inverse ILD undefined",
                    ),
                );
            }
            Some(index)
        } else {
            None
        };
        let bits_ratio: u8 = reader.read_bits(3)? as u8;
        StereoCouplingSideInfo::Ms { is_ms, ild_q_idx, bits_ratio }
    };
    Ok(StereoSideInfo { coupling, next_bit_offset: reader.position_bits() })
}

/// Bits for range coded bytes once the fixed fields of both channels are set aside.
pub open spec fn stereo_coded_bits(remaining: int, first_groups: int, second_groups: int) -> int {
    remaining - qc_header_bits(first_groups) - qc_header_bits(second_groups)
}

/// Bytes of the first channel: `bits_ratio` eighths of the whole bytes, rounded down per eighth.
pub open spec fn stereo_first_share(coded_bits: int, bits_ratio: int) -> int {
    bits_ratio * (coded_bits / 8 / 8)
}

/// Why the bytes of a stereo frame cannot be divided, if they cannot.
pub open spec fn stereo_allocation_error(
    remaining: int,
    nn_type: NeuralNetworkType,
    first_groups: int,
    second_groups: int,
    bits_ratio: int,
) -> Option<CodecError> {
    if bits_ratio >= 8 {
        Some(CodecError::InvalidData("stereo bitsRatio exceeds its 3-bit domain"))
    } else if qc_header_error(nn_type, first_groups) is Some {
        qc_header_error(nn_type, first_groups)
    } else if qc_header_error(nn_type, second_groups) is Some {
        qc_header_error(nn_type, second_groups)
    } else if stereo_coded_bits(remaining, first_groups, second_groups) < 0 {
        Some(CodecError::Truncated)
    } else {
        None
    }
}

/// Divide the bits behind the coupling block between the two channels.
///
/// The fixed fields of both channels come off first, and the rest is rounded down to whole bytes.
/// The first channel gets `bits_ratio` times an eighth of them, rounded down, and the second one
/// whatever remains. The second value is the number of bits behind the last whole byte.
pub fn allocate_stereo_ms_bytes(
    remaining_payload_bits: usize,
    nn_type: NeuralNetworkType,
    groups: [GroupSideInfo; 2],
    bits_ratio: u8,
) -> (result: Result<([usize; 2], usize), CodecError>)
    ensures
        match stereo_allocation_error(
            remaining_payload_bits as int,
            nn_type,
            groups[0].num_groups as int,
            groups[1].num_groups as int,
            bits_ratio as int,
        ) {
            Some(error) => result == Err::<([usize; 2], usize), CodecError>(error),
            None => {
                let coded = stereo_coded_bits(
                    remaining_payload_bits as int,
                    groups[0].num_groups as int,
                    groups[1].num_groups as int,
                );
                &&& result matches Ok((bytes, trailing))
                &&& bytes[0] == stereo_first_share(coded, bits_ratio as int)
                &&& bytes[0] + bytes[1] == coded / 8
                &&& trailing == coded % 8
            },
        },
{
    if bits_ratio >= 8 {
        return Err(CodecError::InvalidData("stereo bitsRatio exceeds its 3-bit domain"));
    }
    let first: usize = qc_fixed_header_bits(nn_type, groups[0].num_groups)?;
    let second: usize = qc_fixed_header_bits(nn_type, groups[1].num_groups)?;
    let fixed_qc_bits: usize = first + second;
    if remaining_payload_bits < fixed_qc_bits {
        return Err(CodecError::Truncated);
    }
    let available_bits: usize = remaining_payload_bits - fixed_qc_bits;
    let available_bytes: usize = available_bits / 8;
    let bytes_per_ratio_group: usize = available_bytes / 8;
    assert(bits_ratio * bytes_per_ratio_group <= 7 * bytes_per_ratio_group) by (nonlinear_arith)
        requires
            bits_ratio <= 7,
    ;
    let channel_zero: usize = bits_ratio as usize * bytes_per_ratio_group;
    let channel_one: usize = available_bytes - channel_zero;
    Ok(([channel_zero, channel_one], available_bits % 8))
}

/// Byte budget of a low-bitrate stereo frame: its only coded channel owns every whole byte. The
/// second value is the number of bits behind the last whole byte.
pub fn allocate_stereo_mcr_bytes(
    remaining_payload_bits: usize,
    nn_type: NeuralNetworkType,
    group: GroupSideInfo,
) -> (result: Result<(usize, usize), CodecError>)
    ensures
        match qc_header_error(nn_type, group.num_groups as int) {
            Some(error) => result == Err::<(usize, usize), CodecError>(error),
            None => {
                let coded = remaining_payload_bits - qc_header_bits(group.num_groups as int);
                if coded < 0 {
                    result == Err::<(usize, usize), CodecError>(CodecError::Truncated)
                } else {
                    result == Ok::<(usize, usize), CodecError>(
                        ((coded / 8) as usize, (coded % 8) as usize),
                    )
                }
            },
        },
{
    let fixed_qc_bits: usize = qc_fixed_header_bits(nn_type, group.num_groups)?;
    if remaining_payload_bits < fixed_qc_bits {
        return Err(CodecError::Truncated);
    }
    let available_bits: usize = remaining_payload_bits - fixed_qc_bits;
    Ok((available_bits / 8, available_bits % 8))
}

/// What a conventional stereo frame says.
pub struct StereoSyntax {
    pub heads: (ChannelHead, ChannelHead),
    pub groups: (GroupSyntax, GroupSyntax),
    pub coupling: CouplingSyntax,
    pub tail: StereoTail,
}

/// The byte split ratio of a coupling block.
pub open spec fn coupling_ratio(syntax: CouplingSyntax) -> int {
    match syntax {
        CouplingSyntax::Ms { is_ms, ild, bits_ratio, end } => bits_ratio as int,
        CouplingSyntax::Mcr { is_short, vq_bits, even, odd, end } => 0,
    }
}

/// Both heads of a stereo frame, one after the other.
pub open spec fn stereo_heads_at(
    codebook: TnsCodebook,
    bytes: Seq<u8>,
    end: int,
    start: int,
    low_bitrate_precision: bool,
    bwe_config: Option<BweConfig>,
) -> Result<(ChannelHead, ChannelHead), CodecError> {
    match channel_head_at(codebook, bytes, end, start, low_bitrate_precision, bwe_config) {
        Err(error) => Err(error),
        Ok(first) => match channel_head_at(
            codebook,
            bytes,
            end,
            first.end,
            low_bitrate_precision,
            bwe_config,
        ) {
            Err(error) => Err(error),
            Ok(second) => Ok((first, second)),
        },
    }
}

/// Both quantisation and coding blocks of a conventional stereo frame.
pub open spec fn stereo_qcs_at(
    bytes: Seq<u8>,
    end: int,
    start: int,
    nn_type: NeuralNetworkType,
    first_groups: int,
    second_groups: int,
    first_bytes: int,
    second_bytes: int,
) -> Result<(QcSyntax, QcSyntax), CodecError> {
    match qc_syntax_at(bytes, end, start, nn_type, first_groups, first_bytes) {
        Err(error) => Err(error),
        Ok(first) => match qc_syntax_at(
            bytes,
            end,
            first.end,
            nn_type,
            second_groups,
            second_bytes,
        ) {
            Err(error) => Err(error),
            Ok(second) => Ok((first, second)),
        },
    }
}

/// The conventional stereo frame written at bit `start`: both heads, both grouping blocks, the
/// coupling block, both quantisation and coding blocks.
pub open spec fn stereo_syntax_at(
    codebook: TnsCodebook,
    bytes: Seq<u8>,
    end: int,
    start: int,
    nn_type: NeuralNetworkType,
    low_bitrate_precision: bool,
    bwe_config: Option<BweConfig>,
    total_bitrate_kbps: int,
) -> Result<StereoSyntax, CodecError> {
    match stereo_heads_at(codebook, bytes, end, start, low_bitrate_precision, bwe_config) {
        Err(error) => Err(error),
        Ok(heads) => match group_syntax_at(bytes, end, heads.1.end, heads.0.core.transform) {
            Err(error) => Err(error),
            Ok(first_group) => match group_syntax_at(
                bytes,
                end,
                first_group.end,
                heads.1.core.transform,
            ) {
                Err(error) => Err(error),
                Ok(second_group) => match coupling_at(
                    bytes,
                    end,
                    second_group.end,
                    total_bitrate_kbps,
                    heads.0.core.transform,
                ) {
                    Err(error) => Err(error),
                    Ok(coupling) => match stereo_tail_at(
                        bytes,
                        end,
                        coupling_end(coupling),
                        nn_type,
                        first_group.num_groups,
                        second_group.num_groups,
                        coupling_ratio(coupling),
                    ) {
                        Err(error) => Err(error),
                        Ok(tail) => Ok(
                            StereoSyntax {
                                heads,
                                groups: (first_group, second_group),
                                coupling,
                                tail,
                            },
                        ),
                    },
                },
            },
        },
    }
}

/// What a conventional stereo frame says behind its coupling block.
pub struct StereoTail {
    pub bytes: (int, int),
    pub qcs: (QcSyntax, QcSyntax),
    pub trailing_bits: int,
}

/// The rest of a conventional stereo frame, behind a coupling block that ends at bit `start`.
pub open spec fn stereo_tail_at(
    bytes: Seq<u8>,
    end: int,
    start: int,
    nn_type: NeuralNetworkType,
    first_groups: int,
    second_groups: int,
    ratio: int,
) -> Result<StereoTail, CodecError> {
    let coded = stereo_coded_bits(end - start, first_groups, second_groups);
    let first = stereo_first_share(coded, ratio);
    let second = coded / 8 - first;
    match stereo_allocation_error(end - start, nn_type, first_groups, second_groups, ratio) {
        Some(error) => Err(error),
        None => match stereo_qcs_at(
            bytes,
            end,
            start,
            nn_type,
            first_groups,
            second_groups,
            first,
            second,
        ) {
            Err(error) => Err(error),
            Ok(qcs) => Ok(
                StereoTail { bytes: (first, second), qcs, trailing_bits: coded % 8 },
            ),
        },
    }
}

/// Parse both quantisation and coding blocks of a conventional stereo frame.
fn parse_stereo_tail(
    payload: &[u8],
    bit_offset: usize,
    nn_type: NeuralNetworkType,
    groups: [GroupSideInfo; 2],
    bits_ratio: u8,
) -> (result: Result<([usize; 2], usize, QcSideInfo, QcSideInfo), CodecError>)
    requires
        bit_offset <= bit_capacity(payload@),
    ensures
        match stereo_tail_at(
            payload@,
            bit_capacity(payload@),
            bit_offset as int,
            nn_type,
            groups[0].num_groups as int,
            groups[1].num_groups as int,
            bits_ratio as int,
        ) {
            Err(error) => result == Err::<
                ([usize; 2], usize, QcSideInfo, QcSideInfo),
                CodecError,
            >(error),
            Ok(tail) => {
                &&& result matches Ok((bytes, trailing, first, second))
                &&& bytes[0] == tail.bytes.0
                &&& bytes[1] == tail.bytes.1
                &&& trailing == tail.trailing_bits
                &&& first.matches(tail.qcs.0)
                &&& second.matches(tail.qcs.1)
            },
        },
{
    let payload_bits: usize = addressable_bits(payload);
    let (channel_bytes, trailing_bits) = allocate_stereo_ms_bytes(
        payload_bits - bit_offset,
        nn_type,
        groups,
        bits_ratio,
    )?;
    let first = parse_qc_side_info_at(
        payload,
        bit_offset,
        nn_type,
        groups[0].num_groups,
        channel_bytes[0],
    )?;
    let second = parse_qc_side_info_at(
        payload,
        first.next_bit_offset,
        nn_type,
        groups[1].num_groups,
        channel_bytes[1],
    )?;
    Ok((channel_bytes, trailing_bits, first, second))
}

/// Parse a conventional stereo frame, which takes a total bitrate above 32 kb/s, through both of
/// its quantisation and coding blocks.
pub fn parse_stereo_frame_side_info(
    payload: &[u8],
    core_bit_offset: usize,
    nn_type: NeuralNetworkType,
    low_bitrate_precision: bool,
    bwe_config: Option<BweConfig>,
    total_bitrate_kbps: u32,
    codebook: &TnsCodebook,
) -> (result: Result<GaStereoFrameSideInfo, CodecError>)
    ensures
        total_bitrate_kbps <= 32 ==> result == Err::<GaStereoFrameSideInfo, CodecError>(
            CodecError::Unsupported("low-bitrate AVS3 stereo uses the dedicated MCR frame parser"),
        ),
        total_bitrate_kbps > 32 ==> match stereo_syntax_at(
            *codebook,
            payload@,
            bit_capacity(payload@),
            core_bit_offset as int,
            nn_type,
            low_bitrate_precision,
            bwe_config,
            total_bitrate_kbps as int,
        ) {
            Err(error) => result == Err::<GaStereoFrameSideInfo, CodecError>(error),
            Ok(syntax) => {
                &&& result matches Ok(frame)
                &&& frame.channels[0].matches(syntax.heads.0, syntax.groups.0, syntax.tail.qcs.0)
                &&& frame.channels[1].matches(syntax.heads.1, syntax.groups.1, syntax.tail.qcs.1)
                &&& frame.bwe_config == bwe_config
                &&& frame.stereo.matches(syntax.coupling)
                &&& frame.channel_bytes[0] == syntax.tail.bytes.0
                &&& frame.channel_bytes[1] == syntax.tail.bytes.1
                &&& frame.next_bit_offset == syntax.tail.qcs.1.end
                &&& frame.trailing_bits == syntax.tail.trailing_bits
            },
        },
{
    if total_bitrate_kbps <= 32 {
        return Err(
            CodecError::Unsupported("low-bitrate AVS3 stereo uses the dedicated MCR frame parser"),
        );
    }
    let (core0, bwe0, after_core0) = parse_channel_core_and_bwe(
        payload,
        core_bit_offset,
        low_bitrate_precision,
        bwe_config,
        codebook,
    )?;
    let (core1, bwe1, after_core1) = parse_channel_core_and_bwe(
        payload,
        after_core0,
        low_bitrate_precision,
        bwe_config,
        codebook,
    )?;
    proof {
        lemma_channel_head_bounds(
            *codebook,
            payload@,
            bit_capacity(payload@),
            after_core0 as int,
            low_bitrate_precision,
            bwe_config,
        );
    }
    let group0 = parse_group_bits_at(payload, after_core1, core0.transform_type)?;
    let group1 = parse_group_bits_at(payload, group0.next_bit_offset, core1.transform_type)?;
    let stereo = parse_stereo_side_info_at(
        payload,
        group1.next_bit_offset,
        total_bitrate_kbps,
        core0.transform_type,
    )?;
    let bits_ratio: u8 = match stereo.coupling {
        StereoCouplingSideInfo::Ms { is_ms: _, ild_q_idx: _, bits_ratio } => bits_ratio,
        StereoCouplingSideInfo::Mcr {
            is_short_window: _,
            vq_bits: _,
            even_vq_indices: _,
            odd_vq_indices: _,
        } => {
            assert(false);
            return Err(
                CodecError::Internal("conventional stereo parser unexpectedly selected MCR"),
            );
        },
    };
    let (channel_bytes, trailing_bits, qc0, qc1) = parse_stereo_tail(
        payload,
        stereo.next_bit_offset,
        nn_type,
        [group0, group1],
        bits_ratio,
    )?;
    Ok(
        GaStereoFrameSideInfo {
            channels: [
                GaChannelSideInfo { core: core0, bwe: bwe0, group: group0, qc: qc0 },
                GaChannelSideInfo { core: core1, bwe: bwe1, group: group1, qc: qc1 },
            ],
            bwe_config,
            stereo,
            channel_bytes,
            next_bit_offset: qc1.next_bit_offset,
            trailing_bits,
        },
    )
}

/// What a low-bitrate stereo frame says.
pub struct McrSyntax {
    pub left: SoleChannelSyntax,
    pub right: ChannelHead,
    pub coupling: CouplingSyntax,
}

/// The low-bitrate stereo frame written at bit `start`: both heads, one grouping block, the
/// coupling block, one quantisation and coding block.
pub open spec fn mcr_syntax_at(
    codebook: TnsCodebook,
    bytes: Seq<u8>,
    end: int,
    start: int,
    nn_type: NeuralNetworkType,
    low_bitrate_precision: bool,
    bwe_config: Option<BweConfig>,
    total_bitrate_kbps: int,
) -> Result<McrSyntax, CodecError> {
    match stereo_heads_at(codebook, bytes, end, start, low_bitrate_precision, bwe_config) {
        Err(error) => Err(error),
        Ok(heads) => match group_syntax_at(bytes, end, heads.1.end, heads.0.core.transform) {
            Err(error) => Err(error),
            Ok(group) => match coupling_at(
                bytes,
                end,
                group.end,
                total_bitrate_kbps,
                heads.0.core.transform,
            ) {
                Err(error) => Err(error),
                Ok(coupling) => match sole_qc_at(
                    bytes,
                    end,
                    coupling_end(coupling),
                    nn_type,
                    group.num_groups,
                ) {
                    Err(error) => Err(error),
                    Ok((qc, trailing_bits)) => Ok(
                        McrSyntax {
                            left: SoleChannelSyntax { head: heads.0, group, qc, trailing_bits },
                            right: heads.1,
                            coupling,
                        },
                    ),
                },
            },
        },
    }
}

/// Parse a low-bitrate stereo frame, which takes a total bitrate of at most 32 kb/s.
pub fn parse_stereo_mcr_frame_side_info(
    payload: &[u8],
    core_bit_offset: usize,
    nn_type: NeuralNetworkType,
    low_bitrate_precision: bool,
    bwe_config: Option<BweConfig>,
    total_bitrate_kbps: u32,
    codebook: &TnsCodebook,
) -> (result: Result<GaStereoMcrFrameSideInfo, CodecError>)
    ensures
        total_bitrate_kbps > 32 ==> result == Err::<GaStereoMcrFrameSideInfo, CodecError>(
            CodecError::InvalidData(
                "MCR stereo parser requires a total bitrate at or below 32 kb/s",
            ),
        ),
        total_bitrate_kbps <= 32 ==> match mcr_syntax_at(
            *codebook,
            payload@,
            bit_capacity(payload@),
            core_bit_offset as int,
            nn_type,
            low_bitrate_precision,
            bwe_config,
            total_bitrate_kbps as int,
        ) {
            Err(error) => result == Err::<GaStereoMcrFrameSideInfo, CodecError>(error),
            Ok(syntax) => {
                &&& result matches Ok(frame)
                &&& frame.left.matches(syntax.left.head, syntax.left.group, syntax.left.qc)
                &&& head_matches(frame.right_core, frame.right_bwe, syntax.right)
                &&& frame.bwe_config == bwe_config
                &&& frame.stereo.matches(syntax.coupling)
                &&& frame.channel_bytes[0] == syntax.left.qc.channel_bytes
                &&& frame.channel_bytes[1] == 0
                &&& frame.next_bit_offset == syntax.left.qc.end
                &&& frame.trailing_bits == syntax.left.trailing_bits
            },
        },
{
    if total_bitrate_kbps > 32 {
        return Err(
            CodecError::InvalidData(
                "MCR stereo parser requires a total bitrate at or below 32 kb/s",
            ),
        );
    }
    let (left_core, left_bwe, after_left) = parse_channel_core_and_bwe(
        payload,
        core_bit_offset,
        low_bitrate_precision,
        bwe_config,
        codebook,
    )?;
    let (right_core, right_bwe, after_right) = parse_channel_core_and_bwe(
        payload,
        after_left,
        low_bitrate_precision,
        bwe_config,
        codebook,
    )?;
    proof {
        lemma_channel_head_bounds(
            *codebook,
            payload@,
            bit_capacity(payload@),
            after_left as int,
            low_bitrate_precision,
            bwe_config,
        );
    }
    let left_group = parse_group_bits_at(payload, after_right, left_core.transform_type)?;
    let stereo = parse_stereo_side_info_at(
        payload,
        left_group.next_bit_offset,
        total_bitrate_kbps,
        left_core.transform_type,
    )?;
    let payload_bits: usize = addressable_bits(payload);
    let remaining_payload_bits: usize = payload_bits - stereo.next_bit_offset;
    let (left_bytes, trailing_bits) = allocate_stereo_mcr_bytes(
        remaining_payload_bits,
        nn_type,
        left_group,
    )?;
    proof {
        reveal(qc_syntax_at);
    }
    let left_qc = parse_qc_side_info_at(
        payload,
        stereo.next_bit_offset,
        nn_type,
        left_group.num_groups,
        left_bytes,
    )?;
    Ok(
        GaStereoMcrFrameSideInfo {
            left: GaChannelSideInfo {
                core: left_core,
                bwe: left_bwe,
                group: left_group,
                qc: left_qc,
            },
            right_core,
            right_bwe,
            bwe_config,
            stereo,
            channel_bytes: [left_bytes, 0],
            next_bit_offset: left_qc.next_bit_offset,
            trailing_bits,
        },
    )
}

/// The blocks of a conventional stereo frame and the bits left over make up the whole payload, and
/// fewer than eight bits are left over.
pub proof fn stereo_frame_accounts_for_every_bit(
    codebook: TnsCodebook,
    bytes: Seq<u8>,
    end: int,
    start: int,
    nn_type: NeuralNetworkType,
    low_bitrate_precision: bool,
    bwe_config: Option<BweConfig>,
    total_bitrate_kbps: int,
)
    ensures
        stereo_syntax_at(
            codebook,
            bytes,
            end,
            start,
            nn_type,
            low_bitrate_precision,
            bwe_config,
            total_bitrate_kbps,
        ) matches Ok(syntax) ==> {
            &&& syntax.tail.qcs.1.end + syntax.tail.trailing_bits == end
            &&& 0 <= syntax.tail.trailing_bits < 8
        },
{
    reveal(qc_syntax_at);
}

/// The same holds of a low-bitrate stereo frame.
pub proof fn mcr_frame_accounts_for_every_bit(
    codebook: TnsCodebook,
    bytes: Seq<u8>,
    end: int,
    start: int,
    nn_type: NeuralNetworkType,
    low_bitrate_precision: bool,
    bwe_config: Option<BweConfig>,
    total_bitrate_kbps: int,
)
    ensures
        mcr_syntax_at(
            codebook,
            bytes,
            end,
            start,
            nn_type,
            low_bitrate_precision,
            bwe_config,
            total_bitrate_kbps,
        ) matches Ok(syntax) ==> {
            &&& syntax.left.qc.end + syntax.left.trailing_bits == end
            &&& 0 <= syntax.left.trailing_bits < 8
        },
{
    reveal(qc_syntax_at);
}

} // verus!
