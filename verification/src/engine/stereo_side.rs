//! The side information of stereo frames in the engine.

use crate::bitreader::{addressable_bits, bit_at, bit_capacity, bits, lemma_span_values, BitReader};
use crate::bwe::{BweConfig, BweSideInfo};
use crate::config::{ChannelConfiguration, NeuralNetworkType};
use crate::core_side::{read_core_side_prefix, CoreSidePrefix, TnsCodebook, TransformType};
use crate::engine::bwe::{is_stereo_config, StereoBweBands};
use crate::engine::core_side::WindowGrouping;
use crate::engine::header::{CodecProfile, FrameHeader, NnType, SoundBedType};
use crate::engine::neural_qc::{NeuralBitstreams, NeuralQcError, MAX_QC_BITSTREAM_BYTES};
use crate::entropy::{range_bytes, window_bytes};
use crate::error::CodecError;
use crate::ga_frame::{channel_head_at, head_matches, ChannelHead};
use crate::group::{group_syntax_at, read_group_bits, GroupSideInfo, GroupSyntax};
use crate::qc::{qc_header_bits, qc_header_error, qc_syntax_at, read_qc_side_info, QcSideInfo, QcSyntax};
use crate::text::{decimal, plain, push_decimal, with_number, with_two_numbers};
use vstd::prelude::*;

verus! {

pub const STEREO_CHANNELS: usize = 2;

/// Highest total rate at which only one channel is coded.
pub const STEREO_MCR_BITRATE_THRESHOLD: u32 = 32_000;

/// How the two channels are coded together.
#[derive(Debug, Clone, Copy, PartialEq, Eq, Structural)]
pub enum StereoCodingMode {
    MidSide,
    Mcr,
}

impl StereoCodingMode {
    /// The mode that goes with a total rate.
    pub open spec fn at(total_bitrate: u32) -> StereoCodingMode {
        if total_bitrate <= STEREO_MCR_BITRATE_THRESHOLD {
            StereoCodingMode::Mcr
        } else {
            StereoCodingMode::MidSide
        }
    }

    /// The mode that goes with a total rate.
    pub fn for_bitrate(total_bitrate: u32) -> (mode: Self)
        ensures
            mode == StereoCodingMode::at(total_bitrate),
    {
        if total_bitrate <= STEREO_MCR_BITRATE_THRESHOLD {
            StereoCodingMode::Mcr
        } else {
            StereoCodingMode::MidSide
        }
    }
}

/// Why the coded part of a payload can not be read.
#[derive(Debug, Clone, Copy, PartialEq, Eq)]
pub enum CoreBitstreamError {
    PayloadTooShort { declared_bits: usize, available_bits: usize },
    QcBudgetUnderflow { payload_bits: usize, used_bits: usize, reserved_bits: usize },
    EntropyPayloadTooLarge { bytes: usize, limit: usize },
    /// A block could not be read.
    Syntax(CodecError),
}

/// Why the vectors of a frame of which only one channel is coded can not be read.
#[derive(Debug, Clone, Copy, PartialEq, Eq)]
pub enum McrError {
    Bitstream(CodecError),
}

/// Why a stereo frame can not be read.
#[derive(Debug, Clone, Copy, PartialEq, Eq)]
pub enum StereoError {
    NotStereo {
        profile: CodecProfile,
        channel_config: Option<ChannelConfiguration>,
        channels: u8,
    },
    UnexpectedCodingMode { expected: StereoCodingMode, actual: StereoCodingMode, bitrate: u32 },
    InvalidBitsRatio(u8),
    InvalidIld(u8),
    ChannelLengthMismatch { left: usize, right: usize },
    AllocationOverflow,
    /// The vectors could not be read.
    Mcr(McrError),
    /// The coupling bits could not be read.
    Bitstream(CodecError),
    CoreBitstream(CoreBitstreamError),
}

/// The name of a profile.
pub open spec fn profile_name(profile: CodecProfile) -> &'static str {
    match profile {
        CodecProfile::ChannelBased => "ChannelBased",
        CodecProfile::Mixed => "Mixed",
        CodecProfile::Hoa => "Hoa",
    }
}

/// The name of a coding mode.
pub open spec fn mode_name(mode: StereoCodingMode) -> &'static str {
    match mode {
        StereoCodingMode::MidSide => "MidSide",
        StereoCodingMode::Mcr => "Mcr",
    }
}

/// A layout in words, or that there is none.
pub open spec fn layout_words(layout: Option<ChannelConfiguration>) -> Seq<char> {
    match layout {
        None => "None"@,
        Some(ChannelConfiguration::Reserved(index)) => "Some(Reserved("@ + decimal(index as nat)
            + "))"@,
        Some(ChannelConfiguration::Mono) => "Some(Mono)"@,
        Some(ChannelConfiguration::Stereo) => "Some(Stereo)"@,
        Some(ChannelConfiguration::Surround5_1) => "Some(Mc5_1)"@,
        Some(ChannelConfiguration::Surround7_1) => "Some(Mc7_1)"@,
        Some(ChannelConfiguration::Surround10_2) => "Some(Mc10_2)"@,
        Some(ChannelConfiguration::Surround22_2) => "Some(Mc22_2)"@,
        Some(ChannelConfiguration::Surround4_0) => "Some(Mc4_0)"@,
        Some(ChannelConfiguration::Surround5_1_2) => "Some(Mc5_1_2)"@,
        Some(ChannelConfiguration::Surround5_1_4) => "Some(Mc5_1_4)"@,
        Some(ChannelConfiguration::Surround7_1_2) => "Some(Mc7_1_2)"@,
        Some(ChannelConfiguration::Surround7_1_4) => "Some(Mc7_1_4)"@,
    }
}

/// Put a layout in words.
fn layout_text(layout: Option<ChannelConfiguration>) -> (text: String)
    ensures
        text@ == layout_words(layout),
{
    match layout {
        None => plain("None"),
        Some(ChannelConfiguration::Reserved(index)) => with_number(
            "Some(Reserved(",
            index as u64,
            "))",
        ),
        Some(ChannelConfiguration::Mono) => plain("Some(Mono)"),
        Some(ChannelConfiguration::Stereo) => plain("Some(Stereo)"),
        Some(ChannelConfiguration::Surround5_1) => plain("Some(Mc5_1)"),
        Some(ChannelConfiguration::Surround7_1) => plain("Some(Mc7_1)"),
        Some(ChannelConfiguration::Surround10_2) => plain("Some(Mc10_2)"),
        Some(ChannelConfiguration::Surround22_2) => plain("Some(Mc22_2)"),
        Some(ChannelConfiguration::Surround4_0) => plain("Some(Mc4_0)"),
        Some(ChannelConfiguration::Surround5_1_2) => plain("Some(Mc5_1_2)"),
        Some(ChannelConfiguration::Surround5_1_4) => plain("Some(Mc5_1_4)"),
        Some(ChannelConfiguration::Surround7_1_2) => plain("Some(Mc7_1_2)"),
        Some(ChannelConfiguration::Surround7_1_4) => plain("Some(Mc7_1_4)"),
    }
}

impl StereoError {
    /// The error in words, but for an error of the bits themselves.
    pub open spec fn words(self) -> Option<Seq<char>> {
        match self {
            StereoError::NotStereo { profile, channel_config, channels } => Some(
                "stereo parser requires channel-based stereo; got profile "@ + profile_name(
                    profile,
                )@ + ", configuration "@ + layout_words(channel_config) + ", "@ + decimal(
                    channels as nat,
                ) + " channels"@,
            ),
            StereoError::UnexpectedCodingMode { expected, actual, bitrate } => Some(
                "stereo bitrate "@ + decimal(bitrate as nat) + " selects "@ + mode_name(actual)@
                    + " coding, but this parser expects "@ + mode_name(expected)@,
            ),
            StereoError::InvalidBitsRatio(value) => Some(
                "stereo bit-split ratio "@ + decimal(value as nat)
                    + " does not fit its three-bit field"@,
            ),
            StereoError::InvalidIld(value) => Some(
                "stereo ILD "@ + decimal(value as nat) + " is invalid; expected 1..=15"@,
            ),
            StereoError::ChannelLengthMismatch { left, right } => Some(
                "stereo spectra have different lengths: left "@ + decimal(left as nat)
                    + ", right "@ + decimal(right as nat) + ""@,
            ),
            StereoError::AllocationOverflow => Some("stereo byte allocation overflow"@),
            StereoError::Mcr(_) => None,
            StereoError::Bitstream(_) => None,
            StereoError::CoreBitstream(_) => None,
        }
    }

    /// The error in words, but for an error of the bits themselves.
    pub fn message(self) -> (text: Option<String>)
        ensures
            text is Some <==> self.words() is Some,
            text matches Some(words) ==> words@ == self.words()->0,
    {
        match self {
            StereoError::NotStereo { profile, channel_config, channels } => {
                let mut text = plain("stereo parser requires channel-based stereo; got profile ");
                match profile {
                    CodecProfile::ChannelBased => text.append("ChannelBased"),
                    CodecProfile::Mixed => text.append("Mixed"),
                    CodecProfile::Hoa => text.append("Hoa"),
                }
                text.append(", configuration ");
                let layout = layout_text(channel_config);
                text.append(layout.as_str());
                text.append(", ");
                push_decimal(&mut text, channels as u64);
                text.append(" channels");
                Some(text)
            },
            StereoError::UnexpectedCodingMode { expected, actual, bitrate } => {
                let mut text = with_number("stereo bitrate ", bitrate as u64, " selects ");
                match actual {
                    StereoCodingMode::MidSide => text.append("MidSide"),
                    StereoCodingMode::Mcr => text.append("Mcr"),
                }
                text.append(" coding, but this parser expects ");
                match expected {
                    StereoCodingMode::MidSide => text.append("MidSide"),
                    StereoCodingMode::Mcr => text.append("Mcr"),
                }
                Some(text)
            },
            StereoError::InvalidBitsRatio(value) => Some(
                with_number(
                    "stereo bit-split ratio ",
                    value as u64,
                    " does not fit its three-bit field",
                ),
            ),
            StereoError::InvalidIld(value) => Some(
                with_number("stereo ILD ", value as u64, " is invalid; expected 1..=15"),
            ),
            StereoError::ChannelLengthMismatch { left, right } => Some(
                with_two_numbers(
                    "stereo spectra have different lengths: left ",
                    left as u64,
                    ", right ",
                    right as u64,
                    "",
                ),
            ),
            StereoError::AllocationOverflow => Some(plain("stereo byte allocation overflow")),
            StereoError::Mcr(_) => None,
            StereoError::Bitstream(_) => None,
            StereoError::CoreBitstream(_) => None,
        }
    }
}

/// The coupling of the two channels.
#[derive(Debug, Clone, Copy, PartialEq, Eq, Structural)]
pub struct StereoSideInfo {
    mid_side: bool,
    ild: Option<u8>,
    bits_ratio: u8,
}

/// What the coupling bits at `start` say: a flag, four bits of level difference where it is set, and
/// three bits of byte split.
pub ghost struct StereoModeSyntax {
    pub mid_side: bool,
    pub ild: Option<u8>,
    pub bits_ratio: u8,
    pub end: int,
}

/// The coupling bits at `start`.
pub open spec fn stereo_mode_at(bytes: Seq<u8>, end: int, start: int) -> Result<
    StereoModeSyntax,
    CodecError,
> {
    if start + 1 > end {
        Err(CodecError::Truncated)
    } else if bit_at(bytes, start) {
        if start + 8 > end {
            Err(CodecError::Truncated)
        } else {
            Ok(
                StereoModeSyntax {
                    mid_side: true,
                    ild: Some(bits(bytes, start + 1, 4) as u8),
                    bits_ratio: bits(bytes, start + 5, 3) as u8,
                    end: start + 8,
                },
            )
        }
    } else if start + 4 > end {
        Err(CodecError::Truncated)
    } else {
        Ok(
            StereoModeSyntax {
                mid_side: false,
                ild: None,
                bits_ratio: bits(bytes, start + 1, 3) as u8,
                end: start + 4,
            },
        )
    }
}

impl StereoSideInfo {
    /// Whether sum and difference are coded.
    pub closed spec fn is_mid_side(self) -> bool {
        self.mid_side
    }

    /// The level difference.
    pub closed spec fn level(self) -> Option<u8> {
        self.ild
    }

    /// The byte split.
    pub closed spec fn ratio(self) -> u8 {
        self.bits_ratio
    }

    /// The coupling is what the bits say.
    pub open spec fn matches(self, syntax: StereoModeSyntax) -> bool {
        &&& self.is_mid_side() == syntax.mid_side
        &&& self.level() == syntax.ild
        &&& self.ratio() == syntax.bits_ratio
        &&& self.ratio() < 8
    }

    /// Read the coupling bits.
    pub fn parse(reader: &mut BitReader<'_>) -> (result: Result<Self, StereoError>)
        requires
            old(reader).well_formed(),
        ensures
            final(reader).same_source(old(reader)),
            match stereo_mode_at(old(reader).source(), old(reader).end(), old(reader).cursor()) {
                Ok(syntax) => result is Ok && result->Ok_0.matches(syntax)
                    && final(reader).cursor() == syntax.end,
                Err(error) => result == Err::<Self, StereoError>(StereoError::Bitstream(error)),
            },
    {
        match Self::read(reader) {
            Ok(side) => Ok(side),
            Err(error) => Err(StereoError::Bitstream(error)),
        }
    }

    fn read(reader: &mut BitReader<'_>) -> (result: Result<Self, CodecError>)
        requires
            old(reader).well_formed(),
        ensures
            final(reader).same_source(old(reader)),
            match stereo_mode_at(old(reader).source(), old(reader).end(), old(reader).cursor()) {
                Ok(syntax) => result is Ok && result->Ok_0.matches(syntax)
                    && final(reader).cursor() == syntax.end,
                Err(error) => result == Err::<Self, CodecError>(error),
            },
    {
        proof {
            lemma_span_values();
        }
        let mid_side: bool = reader.read_bit()?;
        let ild: Option<u8> = if mid_side {
            Some(reader.read_bits(4)? as u8)
        } else {
            None
        };
        let bits_ratio: u8 = reader.read_bits(3)? as u8;
        Ok(StereoSideInfo { mid_side, ild, bits_ratio })
    }

    pub fn mid_side(self) -> (mid_side: bool)
        ensures
            mid_side == self.is_mid_side(),
    {
        self.mid_side
    }

    pub fn ild(self) -> (ild: Option<u8>)
        ensures
            ild == self.level(),
    {
        self.ild
    }

    pub fn bits_ratio(self) -> (ratio: u8)
        ensures
            ratio == self.ratio(),
    {
        self.bits_ratio
    }
}

/// Bytes of the left channel: as many eighths of the whole bytes as the ratio says, each rounded
/// down. The right channel gets the rest.
pub open spec fn left_bytes(available_bits: int, bits_ratio: int) -> int {
    bits_ratio * (available_bits / 8 / 8)
}

/// Divide the bytes of a frame between its channels.
pub fn stereo_bytes_allocation(available_bits: usize, bits_ratio: u8) -> (result: Result<
    [usize; 2],
    StereoError,
>)
    ensures
        if bits_ratio >= 8 {
            result == Err::<[usize; 2], StereoError>(StereoError::InvalidBitsRatio(bits_ratio))
        } else {
            &&& result is Ok
            &&& result->Ok_0@[0] == left_bytes(available_bits as int, bits_ratio as int)
            &&& result->Ok_0@[0] + result->Ok_0@[1] == available_bits / 8
        },
{
    if bits_ratio >= 8 {
        return Err(StereoError::InvalidBitsRatio(bits_ratio));
    }
    let available_bytes: usize = available_bits / 8;
    let eighth: usize = available_bytes / 8;
    assert(0 <= bits_ratio * eighth <= 7 * eighth) by (nonlinear_arith)
        requires
            0 <= bits_ratio <= 7,
            0 <= eighth,
    ;
    let left: usize = bits_ratio as usize * eighth;
    Ok([left, available_bytes - left])
}

/// The header is that of a stereo frame: two channels, or two objects and nothing else.
pub open spec fn stereo_coded(header: FrameHeader) -> bool {
    &&& header.channels == 2
    &&& !header.has_lfe
    &&& {
        ||| {
            &&& header.profile is ChannelBased
            &&& header.channel_config == Some(ChannelConfiguration::Stereo)
            &&& header.sound_bed_type is None
            &&& header.objects == 0
            &&& header.bed_channels == 2
            &&& header.bed_bitrate == Some(header.bitrate)
            &&& header.object_bitrate is None
        }
        ||| {
            &&& header.profile is Mixed
            &&& header.channel_config is None
            &&& header.sound_bed_type == Some(SoundBedType::ObjectsOnly)
            &&& header.objects == 2
            &&& header.bed_channels == 0
            &&& header.bed_bitrate is None
            &&& header.object_bitrate matches Some(rate) && 2 * rate == header.bitrate
        }
    }
}

/// Whether the header is that of a stereo frame.
pub fn is_stereo_coded_header(header: &FrameHeader) -> (result: bool)
    ensures
        result == stereo_coded(*header),
{
    if header.channels != 2 || header.has_lfe {
        return false;
    }
    let stereo_layout: bool = match header.channel_config {
        Some(ChannelConfiguration::Stereo) => true,
        _ => false,
    };
    let whole_rate: bool = match header.bed_bitrate {
        Some(rate) => rate == header.bitrate,
        None => false,
    };
    let channel_stereo: bool = matches!(header.profile, CodecProfile::ChannelBased)
        && stereo_layout && header.sound_bed_type.is_none() && header.objects == 0
        && header.bed_channels == 2 && whole_rate && header.object_bitrate.is_none();
    let objects_only: bool = match header.sound_bed_type {
        Some(SoundBedType::ObjectsOnly) => true,
        _ => false,
    };
    let half_rate: bool = match header.object_bitrate {
        Some(rate) => match rate.checked_mul(2) {
            Some(total) => total == header.bitrate,
            None => false,
        },
        None => false,
    };
    let object_stereo: bool = matches!(header.profile, CodecProfile::Mixed)
        && header.channel_config.is_none() && objects_only && header.objects == 2
        && header.bed_channels == 0 && header.bed_bitrate.is_none() && half_rate;
    channel_stereo || object_stereo
}

/// What a channel is decoded from: side information and range coded bytes.
#[derive(Debug, Clone, PartialEq, Eq)]
pub struct ParsedNeuralQc {
    pub side: QcSideInfo,
    pub context: Vec<u8>,
    pub base: Vec<u8>,
}

impl ParsedNeuralQc {
    /// The block is what the bits say.
    pub open spec fn matches(&self, bytes: Seq<u8>, syntax: QcSyntax) -> bool {
        &&& self.side.matches(syntax)
        &&& self.context@ == window_bytes(bytes, self.side.context_bitstream)
        &&& self.base@ == window_bytes(bytes, self.side.base_bitstream)
        &&& self.context@.len() == syntax.context_bytes
        &&& self.base@.len() == syntax.channel_bytes - syntax.context_bytes
        &&& self.context@.len() + self.base@.len() <= MAX_QC_BITSTREAM_BYTES
    }

    /// The range coded streams. Those of a parsed frame are never too long.
    pub fn bitstreams(&self) -> (result: Result<NeuralBitstreams<'_>, NeuralQcError>)
        ensures
            if self.context@.len() > MAX_QC_BITSTREAM_BYTES {
                &&& result is Err
                &&& result->Err_0 == (NeuralQcError::BitstreamTooLong {
                    stream: "context",
                    bytes: self.context@.len() as usize,
                    limit: MAX_QC_BITSTREAM_BYTES,
                })
            } else if self.base@.len() > MAX_QC_BITSTREAM_BYTES {
                &&& result is Err
                &&& result->Err_0 == (NeuralQcError::BitstreamTooLong {
                    stream: "base",
                    bytes: self.base@.len() as usize,
                    limit: MAX_QC_BITSTREAM_BYTES,
                })
            } else {
                &&& result is Ok
                &&& result->Ok_0.context_stream() == self.context@
                &&& result->Ok_0.base_stream() == self.base@
            },
    {
        NeuralBitstreams::new(self.context.as_slice(), self.base.as_slice())
    }
}

/// The block of one channel at `start`. A channel has at most 1024 range coded bytes.
pub open spec fn engine_qc_at(
    bytes: Seq<u8>,
    end: int,
    start: int,
    nn_type: NeuralNetworkType,
    groups: int,
    channel_bytes: int,
) -> Result<QcSyntax, CoreBitstreamError> {
    if channel_bytes > MAX_QC_BITSTREAM_BYTES {
        Err(
            CoreBitstreamError::EntropyPayloadTooLarge {
                bytes: channel_bytes as usize,
                limit: MAX_QC_BITSTREAM_BYTES,
            },
        )
    } else {
        match qc_syntax_at(bytes, end, start, nn_type, groups, channel_bytes) {
            Err(error) => Err(CoreBitstreamError::Syntax(error)),
            Ok(syntax) => Ok(syntax),
        }
    }
}

proof fn lemma_qc_bounds(
    bytes: Seq<u8>,
    end: int,
    start: int,
    nn_type: NeuralNetworkType,
    groups: int,
    channel_bytes: int,
)
    requires
        0 <= channel_bytes,
    ensures
        qc_syntax_at(bytes, end, start, nn_type, groups, channel_bytes) matches Ok(syntax) ==> {
            &&& 0 <= syntax.context_bytes <= syntax.channel_bytes == channel_bytes
            &&& syntax.context_start == start + qc_header_bits(groups)
            &&& syntax.end == syntax.context_start + 8 * channel_bytes
            &&& syntax.end <= end
            &&& qc_header_error(nn_type, groups) is None
        },
{
    reveal(qc_syntax_at);
}

/// Read the block of one channel.
fn read_engine_qc(
    payload: &[u8],
    reader: &mut BitReader<'_>,
    nn_type: NeuralNetworkType,
    groups: u8,
    channel_bytes: usize,
) -> (result: Result<ParsedNeuralQc, CoreBitstreamError>)
    requires
        old(reader).well_formed(),
        old(reader).source() == payload@,
    ensures
        final(reader).same_source(old(reader)),
        match engine_qc_at(
            old(reader).source(),
            old(reader).end(),
            old(reader).cursor(),
            nn_type,
            groups as int,
            channel_bytes as int,
        ) {
            Ok(syntax) => {
                &&& result is Ok
                &&& result->Ok_0.matches(payload@, syntax)
                &&& final(reader).cursor() == syntax.end
            },
            Err(error) => result == Err::<ParsedNeuralQc, CoreBitstreamError>(error),
        },
{
    if channel_bytes > MAX_QC_BITSTREAM_BYTES {
        return Err(
            CoreBitstreamError::EntropyPayloadTooLarge {
                bytes: channel_bytes,
                limit: MAX_QC_BITSTREAM_BYTES,
            },
        );
    }
    proof {
        lemma_qc_bounds(
            reader.source(),
            reader.end(),
            reader.cursor(),
            nn_type,
            groups as int,
            channel_bytes as int,
        );
    }
    let side: QcSideInfo = match read_qc_side_info(reader, nn_type, groups, channel_bytes) {
        Ok(side) => side,
        Err(error) => {
            return Err(CoreBitstreamError::Syntax(error));
        },
    };
    let context = match range_bytes(payload, side.context_bitstream) {
        Ok(bytes) => bytes,
        Err(error) => {
            return Err(CoreBitstreamError::Syntax(error));
        },
    };
    let base = match range_bytes(payload, side.base_bitstream) {
        Ok(bytes) => bytes,
        Err(error) => {
            return Err(CoreBitstreamError::Syntax(error));
        },
    };
    Ok(ParsedNeuralQc { side, context, base })
}

/// The core of one channel.
#[derive(Debug, Clone, Copy, PartialEq, Eq)]
pub struct CoreSideInfo {
    pub core: CoreSidePrefix,
    pub bwe: Option<BweSideInfo>,
    pub grouping: WindowGrouping,
}

impl CoreSideInfo {
    /// The core is what the bits say.
    pub open spec fn matches(&self, head: ChannelHead) -> bool {
        head_matches(self.core, self.bwe, head)
    }
}

/// Read the core and bandwidth extension blocks of one channel.
fn read_head(
    reader: &mut BitReader<'_>,
    low_bitrate_precision: bool,
    config: Option<BweConfig>,
    codebook: &TnsCodebook,
) -> (result: Result<(CoreSidePrefix, Option<BweSideInfo>), CodecError>)
    requires
        old(reader).well_formed(),
    ensures
        final(reader).same_source(old(reader)),
        match channel_head_at(
            *codebook,
            old(reader).source(),
            old(reader).end(),
            old(reader).cursor(),
            low_bitrate_precision,
            config,
        ) {
            Ok(head) => {
                &&& result is Ok
                &&& head_matches((result->Ok_0).0, (result->Ok_0).1, head)
                &&& final(reader).cursor() == head.end
            },
            Err(error) => result == Err::<(CoreSidePrefix, Option<BweSideInfo>), CodecError>(error),
        },
{
    let core = read_core_side_prefix(reader, low_bitrate_precision, codebook)?;
    match config {
        None => Ok((core, None)),
        Some(config) => {
            let side = config.read_side_info(reader)?;
            Ok((core, Some(side)))
        },
    }
}

/// What both cores of a stereo frame say, with the grouping of the left one.
pub ghost struct PairSyntax {
    pub left: ChannelHead,
    pub right: ChannelHead,
    pub left_group: GroupSyntax,
}

/// Both cores at the start of a payload, and the grouping of the left channel.
pub open spec fn pair_at(
    codebook: TnsCodebook,
    bytes: Seq<u8>,
    end: int,
    low_bitrate_precision: bool,
    config: Option<BweConfig>,
) -> Result<PairSyntax, CodecError> {
    match channel_head_at(codebook, bytes, end, 0, low_bitrate_precision, config) {
        Err(error) => Err(error),
        Ok(left) => match channel_head_at(
            codebook,
            bytes,
            end,
            left.end,
            low_bitrate_precision,
            config,
        ) {
            Err(error) => Err(error),
            Ok(right) => match group_syntax_at(bytes, end, right.end, left.core.transform) {
                Err(error) => Err(error),
                Ok(left_group) => Ok(PairSyntax { left, right, left_group }),
            },
        },
    }
}

/// Both cores of a stereo frame, with the grouping of the left one.
struct Pair {
    left: (CoreSidePrefix, Option<BweSideInfo>),
    right: (CoreSidePrefix, Option<BweSideInfo>),
    left_group: GroupSideInfo,
}

/// Read both cores of a stereo frame, and the grouping of the left one.
fn read_pair(
    reader: &mut BitReader<'_>,
    low_bitrate_precision: bool,
    config: Option<BweConfig>,
    codebook: &TnsCodebook,
) -> (result: Result<Pair, CodecError>)
    requires
        old(reader).well_formed(),
        old(reader).cursor() == 0,
    ensures
        final(reader).same_source(old(reader)),
        match pair_at(
            *codebook,
            old(reader).source(),
            old(reader).end(),
            low_bitrate_precision,
            config,
        ) {
            Ok(syntax) => {
                &&& result is Ok
                &&& head_matches(result->Ok_0.left.0, result->Ok_0.left.1, syntax.left)
                &&& head_matches(result->Ok_0.right.0, result->Ok_0.right.1, syntax.right)
                &&& result->Ok_0.left_group.matches(syntax.left_group)
                &&& final(reader).cursor() == syntax.left_group.end
            },
            Err(error) => result == Err::<Pair, CodecError>(error),
        },
{
    let left = read_head(reader, low_bitrate_precision, config, codebook)?;
    let right = read_head(reader, low_bitrate_precision, config, codebook)?;
    let left_group = read_group_bits(reader, left.0.transform_type)?;
    Ok(Pair { left, right, left_group })
}

/// What precedes the parsing of a payload: which frames are refused.
pub open spec fn entry_error(header: FrameHeader, len: int, expected: StereoCodingMode) -> Option<
    StereoError,
> {
    let available = if 8 * len > usize::MAX {
        usize::MAX as int
    } else {
        8 * len
    };
    if !stereo_coded(header) {
        Some(
            StereoError::NotStereo {
                profile: header.profile,
                channel_config: header.channel_config,
                channels: header.channels,
            },
        )
    } else if StereoCodingMode::at(header.bitrate) != expected {
        Some(
            StereoError::UnexpectedCodingMode {
                expected,
                actual: StereoCodingMode::at(header.bitrate),
                bitrate: header.bitrate,
            },
        )
    } else if header.payload_bits > available {
        Some(
            StereoError::CoreBitstream(
                CoreBitstreamError::PayloadTooShort {
                    declared_bits: header.payload_bits,
                    available_bits: available as usize,
                },
            ),
        )
    } else {
        None
    }
}

/// Refuse frames that are not for this parser.
fn check_entry(header: &FrameHeader, payload: &[u8], expected: StereoCodingMode) -> (result: Result<
    (),
    StereoError,
>)
    ensures
        match entry_error(*header, payload@.len() as int, expected) {
            Some(error) => result == Err::<(), StereoError>(error),
            None => result is Ok && header.payload_bits <= bit_capacity(payload@),
        },
{
    if !is_stereo_coded_header(header) {
        return Err(
            StereoError::NotStereo {
                profile: header.profile,
                channel_config: header.channel_config,
                channels: header.channels,
            },
        );
    }
    let actual: StereoCodingMode = StereoCodingMode::for_bitrate(header.bitrate);
    if actual != expected {
        return Err(
            StereoError::UnexpectedCodingMode { expected, actual, bitrate: header.bitrate },
        );
    }
    let available_bits: usize = addressable_bits(payload);
    if header.payload_bits > available_bits {
        return Err(
            StereoError::CoreBitstream(
                CoreBitstreamError::PayloadTooShort {
                    declared_bits: header.payload_bits,
                    available_bits,
                },
            ),
        );
    }
    Ok(())
}

/// The envelope of each channel has the low precision where the channel has at most 32 kb/s.
pub open spec fn low_precision(bitrate: u32) -> bool {
    bitrate / 2 <= 32_000
}

/// What a stereo frame says.
pub ghost struct EngineStereoSyntax {
    pub pair: PairSyntax,
    pub right_group: GroupSyntax,
    pub mode: StereoModeSyntax,
    pub left_bytes: int,
    pub right_bytes: int,
    pub left_qc: QcSyntax,
    pub right_qc: QcSyntax,
}

/// A block that could not be read.
pub open spec fn syntax_error(error: CodecError) -> StereoError {
    StereoError::CoreBitstream(CoreBitstreamError::Syntax(error))
}

/// Both quantisation and coding blocks, behind coupling bits that end at `start`.
pub open spec fn engine_tail_at(
    bytes: Seq<u8>,
    end: int,
    start: int,
    nn_type: NeuralNetworkType,
    left_groups: int,
    right_groups: int,
    ratio: int,
) -> Result<(int, int, QcSyntax, QcSyntax), StereoError> {
    let reserved = qc_header_bits(left_groups) + qc_header_bits(right_groups);
    let available = end - start - reserved;
    let left = left_bytes(available, ratio);
    let right = available / 8 - left;
    if available < 0 {
        Err(
            StereoError::CoreBitstream(
                CoreBitstreamError::QcBudgetUnderflow {
                    payload_bits: end as usize,
                    used_bits: start as usize,
                    reserved_bits: reserved as usize,
                },
            ),
        )
    } else {
        match engine_qc_at(bytes, end, start, nn_type, left_groups, left) {
            Err(error) => Err(StereoError::CoreBitstream(error)),
            Ok(left_qc) => match engine_qc_at(
                bytes,
                end,
                left_qc.end,
                nn_type,
                right_groups,
                right,
            ) {
                Err(error) => Err(StereoError::CoreBitstream(error)),
                Ok(right_qc) => Ok((left, right, left_qc, right_qc)),
            },
        }
    }
}

/// The stereo frame in a payload: both cores, both groupings, the coupling bits, both quantisation
/// and coding blocks.
pub open spec fn engine_stereo_at(
    codebook: TnsCodebook,
    bytes: Seq<u8>,
    header: FrameHeader,
    config: Option<BweConfig>,
) -> Result<EngineStereoSyntax, StereoError> {
    let end = header.payload_bits as int;
    match pair_at(codebook, bytes, end, low_precision(header.bitrate), config) {
        Err(error) => Err(syntax_error(error)),
        Ok(pair) => match group_syntax_at(
            bytes,
            end,
            pair.left_group.end,
            pair.right.core.transform,
        ) {
            Err(error) => Err(syntax_error(error)),
            Ok(right_group) => match stereo_mode_at(bytes, end, right_group.end) {
                Err(error) => Err(StereoError::Bitstream(error)),
                Ok(mode) => match engine_tail_at(
                    bytes,
                    end,
                    mode.end,
                    header.nn_type.network(),
                    pair.left_group.num_groups,
                    right_group.num_groups,
                    mode.bits_ratio as int,
                ) {
                    Err(error) => Err(error),
                    Ok((left_bytes, right_bytes, left_qc, right_qc)) => Ok(
                        EngineStereoSyntax {
                            pair,
                            right_group,
                            mode,
                            left_bytes,
                            right_bytes,
                            left_qc,
                            right_qc,
                        },
                    ),
                },
            },
        },
    }
}

/// The side information of a stereo frame.
#[derive(Debug, PartialEq, Eq)]
pub struct StereoFrameSideInfo {
    pub cores: [CoreSideInfo; 2],
    pub stereo: StereoSideInfo,
    pub neural_qc: (ParsedNeuralQc, ParsedNeuralQc),
    pub entropy_bytes: [usize; 2],
    pub consumed_bits: usize,
    pub padding_bits: usize,
}

impl StereoFrameSideInfo {
    /// The frame is what the bits say, and less than a byte of it is padding.
    pub open spec fn matches(&self, bytes: Seq<u8>, end: int, syntax: EngineStereoSyntax) -> bool {
        &&& self.cores@[0].matches(syntax.pair.left)
        &&& self.cores@[1].matches(syntax.pair.right)
        &&& self.cores@[0].grouping.groups() == syntax.pair.left_group.num_groups
        &&& self.cores@[0].grouping.flags() == syntax.pair.left_group.indicator
        &&& self.cores@[1].grouping.groups() == syntax.right_group.num_groups
        &&& self.cores@[1].grouping.flags() == syntax.right_group.indicator
        &&& self.stereo.matches(syntax.mode)
        &&& self.neural_qc.0.matches(bytes, syntax.left_qc)
        &&& self.neural_qc.1.matches(bytes, syntax.right_qc)
        &&& self.entropy_bytes@[0] == syntax.left_bytes
        &&& self.entropy_bytes@[1] == syntax.right_bytes
        &&& self.consumed_bits == syntax.right_qc.end
        &&& self.consumed_bits + self.padding_bits == end
        &&& self.padding_bits < 8
    }

    /// The side information of the two channels.
    pub fn cores(&self) -> (cores: [CoreSideInfo; 2])
        ensures
            cores == self.cores,
    {
        self.cores
    }

    /// How the channels are coupled.
    pub fn stereo(&self) -> (stereo: StereoSideInfo)
        ensures
            stereo == self.stereo,
    {
        self.stereo
    }

    /// The quantized spectra of the two channels.
    pub fn neural_qc(&self) -> (qcs: (&ParsedNeuralQc, &ParsedNeuralQc))
        ensures
            *qcs.0 == self.neural_qc.0,
            *qcs.1 == self.neural_qc.1,
    {
        (&self.neural_qc.0, &self.neural_qc.1)
    }

    /// How many entropy coded bytes each channel has.
    pub fn entropy_bytes(&self) -> (bytes: [usize; 2])
        ensures
            bytes == self.entropy_bytes,
    {
        self.entropy_bytes
    }

    /// How many bits were read.
    pub fn consumed_bits(&self) -> (bits: usize)
        ensures
            bits == self.consumed_bits,
    {
        self.consumed_bits
    }

    /// How many bits are left behind them.
    pub fn padding_bits(&self) -> (bits: usize)
        ensures
            bits == self.padding_bits,
    {
        self.padding_bits
    }
}

/// What comes of parsing a stereo frame with a bandwidth extension.
pub open spec fn stereo_outcome(
    result: Result<StereoFrameSideInfo, StereoError>,
    codebook: TnsCodebook,
    bytes: Seq<u8>,
    header: FrameHeader,
    config: Option<BweConfig>,
) -> bool {
    match engine_stereo_at(codebook, bytes, header, config) {
        Err(error) => result == Err::<StereoFrameSideInfo, StereoError>(error),
        Ok(syntax) => result is Ok && result->Ok_0.matches(
            bytes,
            header.payload_bits as int,
            syntax,
        ),
    }
}

/// A parser for the side information of stereo frames.
#[derive(Debug, Clone, PartialEq, Eq)]
pub struct StereoSideInfoDecoder {
    pub codebook: TnsCodebook,
    pub bands: StereoBweBands,
}

/// Read both quantisation and coding blocks.
fn read_tail(
    payload: &[u8],
    reader: &mut BitReader<'_>,
    nn_type: NnType,
    left_groups: u8,
    right_groups: u8,
    ratio: u8,
) -> (result: Result<([usize; 2], ParsedNeuralQc, ParsedNeuralQc), StereoError>)
    requires
        old(reader).well_formed(),
        old(reader).source() == payload@,
        1 <= left_groups <= 2,
        1 <= right_groups <= 2,
        ratio < 8,
    ensures
        final(reader).same_source(old(reader)),
        match engine_tail_at(
            old(reader).source(),
            old(reader).end(),
            old(reader).cursor(),
            nn_type.network(),
            left_groups as int,
            right_groups as int,
            ratio as int,
        ) {
            Ok((left, right, left_qc, right_qc)) => {
                &&& result is Ok
                &&& (result->Ok_0).0@[0] == left
                &&& (result->Ok_0).0@[1] == right
                &&& (result->Ok_0).1.matches(payload@, left_qc)
                &&& (result->Ok_0).2.matches(payload@, right_qc)
                &&& final(reader).cursor() == right_qc.end
                &&& old(reader).end() - right_qc.end < 8
            },
            Err(error) => result == Err::<
                ([usize; 2], ParsedNeuralQc, ParsedNeuralQc),
                StereoError,
            >(error),
        },
{
    let network: NeuralNetworkType = nn_type.to_network();
    let reserved: usize = (8 + 3 * left_groups as usize + 8) + (8 + 3 * right_groups as usize + 8);
    let used: usize = reader.position_bits();
    let left: usize = reader.remaining_bits();
    if left < reserved {
        return Err(
            StereoError::CoreBitstream(
                CoreBitstreamError::QcBudgetUnderflow {
                    payload_bits: used + left,
                    used_bits: used,
                    reserved_bits: reserved,
                },
            ),
        );
    }
    let available: usize = left - reserved;
    let ghost end = reader.end();
    let entropy_bytes = stereo_bytes_allocation(available, ratio)?;
    proof {
        lemma_qc_bounds(
            reader.source(),
            end,
            reader.cursor(),
            network,
            left_groups as int,
            entropy_bytes@[0] as int,
        );
    }
    let left_qc = match read_engine_qc(payload, reader, network, left_groups, entropy_bytes[0]) {
        Ok(qc) => qc,
        Err(error) => {
            return Err(StereoError::CoreBitstream(error));
        },
    };
    proof {
        lemma_qc_bounds(
            reader.source(),
            end,
            reader.cursor(),
            network,
            right_groups as int,
            entropy_bytes@[1] as int,
        );
    }
    let right_qc = match read_engine_qc(payload, reader, network, right_groups, entropy_bytes[1]) {
        Ok(qc) => qc,
        Err(error) => {
            return Err(StereoError::CoreBitstream(error));
        },
    };
    Ok((entropy_bytes, left_qc, right_qc))
}

/// The vectors of a frame of which only one channel is coded.
#[derive(Debug, Clone, Copy, PartialEq, Eq)]
pub struct McrSideInfo {
    short_window: bool,
    vq_indexes: [[u16; 6]; 2],
}

impl McrSideInfo {
    /// Whether the vectors are those of short windows.
    pub closed spec fn is_short(self) -> bool {
        self.short_window
    }

    /// The vector indexes of one of the two interleaved halves of the spectrum.
    pub closed spec fn half(self, half: int) -> Seq<u16> {
        self.vq_indexes@[half]@
    }

    /// The vectors are what the bits at `start` say: the two halves take turns.
    pub open spec fn is_at(self, bytes: Seq<u8>, start: int, short: bool) -> bool {
        let width = if short {
            8nat
        } else {
            9nat
        };
        &&& self.is_short() == short
        &&& self.half(0) == Seq::new(6, |i: int| bits(bytes, start + 2 * i * width, width) as u16)
        &&& self.half(1) == Seq::new(
            6,
            |i: int| bits(bytes, start + 2 * i * width + width, width) as u16,
        )
    }

    /// Read the vectors.
    pub fn parse(reader: &mut BitReader<'_>, transform_type: TransformType) -> (result: Result<
        Self,
        McrError,
    >)
        requires
            old(reader).well_formed(),
        ensures
            final(reader).same_source(old(reader)),
            ({
                let start = old(reader).cursor();
                let short = transform_type is Short;
                let end = start + if short {
                    96int
                } else {
                    108int
                };
                if end > old(reader).end() {
                    result == Err::<Self, McrError>(McrError::Bitstream(CodecError::Truncated))
                } else {
                    &&& result is Ok
                    &&& result->Ok_0.is_at(old(reader).source(), start, short)
                    &&& final(reader).cursor() == end
                }
            }),
    {
        let short_window: bool = matches!(transform_type, TransformType::Short);
        let width: u8 = if short_window {
            8
        } else {
            9
        };
        let ghost bytes = reader.source();
        let ghost start = reader.cursor();
        let mut even: [u16; 6] = [0;6];
        let mut odd: [u16; 6] = [0;6];
        let mut index: usize = 0;
        while index < 6
            invariant
                index <= 6,
                width == 8 || width == 9,
                short_window == (transform_type is Short),
                width == 8 <==> short_window,
                reader.same_source(old(reader)),
                bytes == old(reader).source(),
                start == old(reader).cursor(),
                reader.cursor() == start + 2 * index * width,
                forall|i: int|
                    0 <= i < index ==> #[trigger] even[i] == bits(
                        bytes,
                        start + 2 * i * width,
                        width as nat,
                    ) as u16,
                forall|i: int|
                    0 <= i < index ==> #[trigger] odd[i] == bits(
                        bytes,
                        start + 2 * i * width + width,
                        width as nat,
                    ) as u16,
            decreases 6 - index,
        {
            proof {
                lemma_span_values();
                assert(2 * (index + 1) * width == 2 * index * width + 2 * width)
                    by (nonlinear_arith);
                assert(2 * (index + 1) * width <= 12 * width) by (nonlinear_arith)
                    requires
                        index + 1 <= 6,
                ;
            }
            even[index] = match reader.read_bits(width) {
                Ok(value) => value as u16,
                Err(error) => {
                    return Err(McrError::Bitstream(error));
                },
            };
            odd[index] = match reader.read_bits(width) {
                Ok(value) => value as u16,
                Err(error) => {
                    return Err(McrError::Bitstream(error));
                },
            };
            index = index + 1;
        }
        let side = McrSideInfo { short_window, vq_indexes: [even, odd] };
        assert(side.half(0) =~= Seq::new(
            6,
            |i: int| bits(bytes, start + 2 * i * width, width as nat) as u16,
        ));
        assert(side.half(1) =~= Seq::new(
            6,
            |i: int| bits(bytes, start + 2 * i * width + width, width as nat) as u16,
        ));
        Ok(side)
    }

    pub fn short_window(&self) -> (short: bool)
        ensures
            short == self.is_short(),
    {
        self.short_window
    }

    /// The vector indexes of both halves.
    pub fn vq_indexes(&self) -> (indexes: &[[u16; 6]; 2])
        ensures
            indexes@[0]@ == self.half(0),
            indexes@[1]@ == self.half(1),
    {
        &self.vq_indexes
    }
}

/// What a frame of which only one channel is coded says.
pub ghost struct EngineMcrSyntax {
    pub pair: PairSyntax,
    pub mcr_start: int,
    pub entropy_bytes: int,
    pub qc: QcSyntax,
}

/// The frame of which only one channel is coded: both cores, the grouping of the left one, the
/// vectors, one quantisation and coding block.
pub open spec fn engine_mcr_at(
    codebook: TnsCodebook,
    bytes: Seq<u8>,
    header: FrameHeader,
    config: Option<BweConfig>,
) -> Result<EngineMcrSyntax, StereoError> {
    let end = header.payload_bits as int;
    match pair_at(codebook, bytes, end, low_precision(header.bitrate), config) {
        Err(error) => Err(syntax_error(error)),
        Ok(pair) => {
            let mcr_start = pair.left_group.end;
            let start = mcr_start + if pair.left.core.transform is Short {
                96int
            } else {
                108int
            };
            let reserved = qc_header_bits(pair.left_group.num_groups);
            let available = end - start - reserved;
            if start > end {
                Err(StereoError::Mcr(McrError::Bitstream(CodecError::Truncated)))
            } else if available < 0 {
                Err(
                    StereoError::CoreBitstream(
                        CoreBitstreamError::QcBudgetUnderflow {
                            payload_bits: end as usize,
                            used_bits: start as usize,
                            reserved_bits: reserved as usize,
                        },
                    ),
                )
            } else {
                match engine_qc_at(
                    bytes,
                    end,
                    start,
                    header.nn_type.network(),
                    pair.left_group.num_groups,
                    available / 8,
                ) {
                    Err(error) => Err(StereoError::CoreBitstream(error)),
                    Ok(qc) => Ok(
                        EngineMcrSyntax { pair, mcr_start, entropy_bytes: available / 8, qc },
                    ),
                }
            }
        },
    }
}

/// The side information of a frame of which only one channel is coded.
#[derive(Debug, Clone, PartialEq, Eq)]
pub struct McrFrameSideInfo {
    pub cores: [CoreSideInfo; 2],
    pub mcr: McrSideInfo,
    pub neural_qc: ParsedNeuralQc,
    pub entropy_bytes: usize,
    pub consumed_bits: usize,
    pub padding_bits: usize,
}

impl McrFrameSideInfo {
    /// The frame is what the bits say, and less than a byte of it is padding.
    pub open spec fn matches(&self, bytes: Seq<u8>, end: int, syntax: EngineMcrSyntax) -> bool {
        &&& self.cores@[0].matches(syntax.pair.left)
        &&& self.cores@[1].matches(syntax.pair.right)
        &&& self.cores@[0].grouping.groups() == syntax.pair.left_group.num_groups
        &&& self.cores@[0].grouping.flags() == syntax.pair.left_group.indicator
        &&& self.cores@[1].grouping.groups() == 1
        &&& forall|i: int| 0 <= i < 8 ==> !(#[trigger] self.cores@[1].grouping.flags()[i])
        &&& self.mcr.is_at(bytes, syntax.mcr_start, syntax.pair.left.core.transform is Short)
        &&& self.neural_qc.matches(bytes, syntax.qc)
        &&& self.entropy_bytes == syntax.entropy_bytes
        &&& self.consumed_bits == syntax.qc.end
        &&& self.consumed_bits + self.padding_bits == end
        &&& self.padding_bits < 8
    }

    /// The side information of the two channels.
    pub fn cores(&self) -> (cores: [CoreSideInfo; 2])
        ensures
            cores == self.cores,
    {
        self.cores
    }

    /// How one channel is turned into two.
    pub fn mcr(&self) -> (mcr: McrSideInfo)
        ensures
            mcr == self.mcr,
    {
        self.mcr
    }

    /// The quantized spectrum that both channels share.
    pub fn neural_qc(&self) -> (qc: &ParsedNeuralQc)
        ensures
            *qc == self.neural_qc,
    {
        &self.neural_qc
    }

    /// How many entropy coded bytes there are.
    pub fn entropy_bytes(&self) -> (bytes: usize)
        ensures
            bytes == self.entropy_bytes,
    {
        self.entropy_bytes
    }

    /// How many bits were read.
    pub fn consumed_bits(&self) -> (bits: usize)
        ensures
            bits == self.consumed_bits,
    {
        self.consumed_bits
    }

    /// How many bits are left behind them.
    pub fn padding_bits(&self) -> (bits: usize)
        ensures
            bits == self.padding_bits,
    {
        self.padding_bits
    }
}

/// What comes of parsing a frame of which only one channel is coded.
pub open spec fn mcr_outcome(
    result: Result<McrFrameSideInfo, StereoError>,
    codebook: TnsCodebook,
    bytes: Seq<u8>,
    header: FrameHeader,
    config: Option<BweConfig>,
) -> bool {
    match engine_mcr_at(codebook, bytes, header, config) {
        Err(error) => result == Err::<McrFrameSideInfo, StereoError>(error),
        Ok(syntax) => result is Ok && result->Ok_0.matches(
            bytes,
            header.payload_bits as int,
            syntax,
        ),
    }
}

impl StereoSideInfoDecoder {
    /// Parsing a frame of which both channels are coded gives `result`.
    pub open spec fn parses(
        &self,
        payload: Seq<u8>,
        header: FrameHeader,
        result: Result<StereoFrameSideInfo, StereoError>,
    ) -> bool {
        match entry_error(header, payload.len() as int, StereoCodingMode::MidSide) {
            Some(error) => result == Err::<StereoFrameSideInfo, StereoError>(error),
            None => exists|config: Option<BweConfig>|
                {
                    &&& #[trigger] is_stereo_config(config, header.bitrate, self.bands)
                    &&& stereo_outcome(result, self.codebook, payload, header, config)
                },
        }
    }

    /// Parsing a frame of which only one channel is coded gives `result`.
    pub open spec fn parses_mcr(
        &self,
        payload: Seq<u8>,
        header: FrameHeader,
        result: Result<McrFrameSideInfo, StereoError>,
    ) -> bool {
        match entry_error(header, payload.len() as int, StereoCodingMode::Mcr) {
            Some(error) => result == Err::<McrFrameSideInfo, StereoError>(error),
            None => exists|config: Option<BweConfig>|
                {
                    &&& #[trigger] is_stereo_config(config, header.bitrate, self.bands)
                    &&& mcr_outcome(result, self.codebook, payload, header, config)
                },
        }
    }

    /// A parser with these tables.
    pub fn new(codebook: TnsCodebook, bands: StereoBweBands) -> (decoder: Self)
        ensures
            decoder.codebook == codebook,
            decoder.bands == bands,
    {
        StereoSideInfoDecoder { codebook, bands }
    }

    /// Parse a frame of which both channels are coded.
    pub fn parse(&self, payload: &[u8], header: &FrameHeader) -> (result: Result<
        StereoFrameSideInfo,
        StereoError,
    >)
        ensures
            self.parses(payload@, *header, result),
    {
        check_entry(header, payload, StereoCodingMode::MidSide)?;
        let config = BweConfig::for_stereo_bitrate(header.bitrate, &self.bands);
        let result = self.parse_with(payload, header, config);
        assert(is_stereo_config(config, header.bitrate, self.bands));
        result
    }

    /// Parse a frame of which both channels are coded, with the given bandwidth extension.
    fn parse_with(&self, payload: &[u8], header: &FrameHeader, config: Option<BweConfig>) -> (result:
        Result<StereoFrameSideInfo, StereoError>)
        requires
            header.payload_bits <= bit_capacity(payload@),
        ensures
            stereo_outcome(result, self.codebook, payload@, *header, config),
    {
        let low: bool = header.bitrate / 2 <= 32_000;
        let mut reader = match BitReader::with_bit_len(payload, header.payload_bits) {
            Ok(reader) => reader,
            Err(error) => {
                return Err(StereoError::Bitstream(error));
            },
        };
        let pair = match read_pair(&mut reader, low, config, &self.codebook) {
            Ok(pair) => pair,
            Err(error) => {
                return Err(StereoError::CoreBitstream(CoreBitstreamError::Syntax(error)));
            },
        };
        let right_group = match read_group_bits(&mut reader, pair.right.0.transform_type) {
            Ok(group) => group,
            Err(error) => {
                return Err(StereoError::CoreBitstream(CoreBitstreamError::Syntax(error)));
            },
        };
        let stereo = StereoSideInfo::parse(&mut reader)?;
        let (entropy_bytes, left_qc, right_qc) = read_tail(
            payload,
            &mut reader,
            header.nn_type,
            pair.left_group.num_groups,
            right_group.num_groups,
            stereo.bits_ratio,
        )?;
        let consumed_bits: usize = reader.position_bits();
        let padding_bits: usize = reader.remaining_bits();
        let left = CoreSideInfo {
            core: pair.left.0,
            bwe: pair.left.1,
            grouping: WindowGrouping::from_group(&pair.left_group),
        };
        let right = CoreSideInfo {
            core: pair.right.0,
            bwe: pair.right.1,
            grouping: WindowGrouping::from_group(&right_group),
        };
        Ok(
            StereoFrameSideInfo {
                cores: [left, right],
                stereo,
                neural_qc: (left_qc, right_qc),
                entropy_bytes,
                consumed_bits,
                padding_bits,
            },
        )
    }

    /// Parse a frame of which only one channel is coded.
    pub fn parse_mcr(&self, payload: &[u8], header: &FrameHeader) -> (result: Result<
        McrFrameSideInfo,
        StereoError,
    >)
        ensures
            self.parses_mcr(payload@, *header, result),
    {
        check_entry(header, payload, StereoCodingMode::Mcr)?;
        let config = BweConfig::for_stereo_bitrate(header.bitrate, &self.bands);
        let result = self.parse_mcr_with(payload, header, config);
        assert(is_stereo_config(config, header.bitrate, self.bands));
        result
    }

    /// Parse a frame of which only one channel is coded, with the given bandwidth extension.
    fn parse_mcr_with(
        &self,
        payload: &[u8],
        header: &FrameHeader,
        config: Option<BweConfig>,
    ) -> (result: Result<McrFrameSideInfo, StereoError>)
        requires
            header.payload_bits <= bit_capacity(payload@),
        ensures
            mcr_outcome(result, self.codebook, payload@, *header, config),
    {
        let low: bool = header.bitrate / 2 <= 32_000;
        let network: NeuralNetworkType = header.nn_type.to_network();
        let mut reader = match BitReader::with_bit_len(payload, header.payload_bits) {
            Ok(reader) => reader,
            Err(error) => {
                return Err(StereoError::Bitstream(error));
            },
        };
        let pair = match read_pair(&mut reader, low, config, &self.codebook) {
            Ok(pair) => pair,
            Err(error) => {
                return Err(StereoError::CoreBitstream(CoreBitstreamError::Syntax(error)));
            },
        };
        let mcr = match McrSideInfo::parse(&mut reader, pair.left.0.transform_type) {
            Ok(mcr) => mcr,
            Err(error) => {
                return Err(StereoError::Mcr(error));
            },
        };
        let groups: u8 = pair.left_group.num_groups;
        let reserved: usize = 8 + 3 * groups as usize + 8;
        let used: usize = reader.position_bits();
        let left: usize = reader.remaining_bits();
        if left < reserved {
            return Err(
                StereoError::CoreBitstream(
                    CoreBitstreamError::QcBudgetUnderflow {
                        payload_bits: header.payload_bits,
                        used_bits: used,
                        reserved_bits: reserved,
                    },
                ),
            );
        }
        let entropy_bytes: usize = (left - reserved) / 8;
        proof {
            lemma_qc_bounds(
                reader.source(),
                reader.end(),
                reader.cursor(),
                network,
                groups as int,
                entropy_bytes as int,
            );
        }
        let neural_qc = match read_engine_qc(payload, &mut reader, network, groups, entropy_bytes) {
            Ok(qc) => qc,
            Err(error) => {
                return Err(StereoError::CoreBitstream(error));
            },
        };
        let consumed_bits: usize = reader.position_bits();
        let padding_bits: usize = reader.remaining_bits();
        let first = CoreSideInfo {
            core: pair.left.0,
            bwe: pair.left.1,
            grouping: WindowGrouping::from_group(&pair.left_group),
        };
        let second = CoreSideInfo {
            core: pair.right.0,
            bwe: pair.right.1,
            grouping: WindowGrouping::single(),
        };
        Ok(
            McrFrameSideInfo {
                cores: [first, second],
                mcr,
                neural_qc,
                entropy_bytes,
                consumed_bits,
                padding_bits,
            },
        )
    }
}

} // verus!
