//! The frame header of the decoding engine: the fields of an AATF header, with the rates and sizes
//! that follow from them.

use crate::config::{
    AudioCodingMethod, ChannelConfiguration, CodingProfile, NeuralNetworkType,
    QuantizationResolution,
};
use crate::error::CodecError;
use crate::frame::{
    aatf_header, longer_packets_parse_alike, parse_aatf_frame_header, AatfFrameHeader,
};
use vstd::prelude::*;

verus! {

/// Samples of each channel in a frame.
pub const FRAME_SAMPLES: u32 = 1_024;

/// Most bytes of a header.
pub const MAX_HEADER_BYTES: usize = 9;

/// Most bytes behind a header.
pub const MAX_PAYLOAD_BYTES: usize = 65_536;

/// What a frame carries.
#[derive(Debug, Clone, Copy, PartialEq, Eq, Structural)]
pub enum CodecProfile {
    ChannelBased,
    Mixed,
    Hoa,
}

/// The neural network that a frame was coded with.
#[derive(Debug, Clone, Copy, PartialEq, Eq, Structural)]
pub enum NnType {
    Main,
    LowComplexity,
}

impl NnType {
    /// The network type as the bit syntax knows it.
    pub open spec fn network(self) -> NeuralNetworkType {
        match self {
            NnType::Main => NeuralNetworkType::Basic,
            NnType::LowComplexity => NeuralNetworkType::LowComplexity,
        }
    }

    /// The network type as the bit syntax knows it.
    pub fn to_network(self) -> (network: NeuralNetworkType)
        ensures
            network == self.network(),
    {
        match self {
            NnType::Main => NeuralNetworkType::Basic,
            NnType::LowComplexity => NeuralNetworkType::LowComplexity,
        }
    }
}

/// The resolution of the samples before coding.
#[derive(Debug, Clone, Copy, PartialEq, Eq, Structural)]
pub enum BitDepth {
    Eight,
    Sixteen,
    TwentyFour,
}

/// Whether objects come alone or on top of a channel bed.
#[derive(Debug, Clone, Copy, PartialEq, Eq, Structural)]
pub enum SoundBedType {
    ObjectsOnly,
    ChannelBed,
}

/// Rates in bits per second that the header codes stand for.
#[derive(Debug, Clone, PartialEq, Eq)]
pub struct BitrateTable {
    /// By channel layout index, then by rate index.
    pub channel: Vec<Vec<u32>>,
    /// By ambisonic order, then by rate index.
    pub hoa: Vec<Vec<u32>>,
    /// Of one object, by rate index.
    pub object: Vec<u32>,
}

/// A rate of a table, if it has it.
pub open spec fn rate_in(rates: Seq<u32>, index: int) -> Option<u32> {
    if 0 <= index < rates.len() {
        Some(rates[index])
    } else {
        None
    }
}

/// A rate of a table of tables, if it has it.
pub open spec fn rate_in_row(rows: Seq<Vec<u32>>, row: int, index: int) -> Option<u32> {
    if 0 <= row < rows.len() {
        rate_in(rows[row]@, index)
    } else {
        None
    }
}

/// Look a rate up.
fn find_rate(rates: &Vec<u32>, index: u8) -> (rate: Option<u32>)
    ensures
        rate == rate_in(rates@, index as int),
{
    if (index as usize) < rates.len() {
        Some(rates[index as usize])
    } else {
        None
    }
}

/// Look a rate up in a table of tables.
fn find_rate_in_row(rows: &Vec<Vec<u32>>, row: u8, index: u8) -> (rate: Option<u32>)
    ensures
        rate == rate_in_row(rows@, row as int, index as int),
{
    if (row as usize) < rows.len() {
        find_rate(&rows[row as usize], index)
    } else {
        None
    }
}

/// Why there is no header.
#[derive(Debug, Clone, Copy, PartialEq, Eq)]
pub enum HeaderError {
    /// The bytes end inside the header.
    NeedMoreData { offset: usize, available: usize },
    /// The bytes do not start with a syncword, or a field holds a forbidden value.
    InvalidData { offset: usize, reason: &'static str },
    /// A field holds a value that is reserved or that this engine does not decode.
    Unsupported { offset: usize, reason: &'static str },
    /// No rate belongs to the rate index.
    UnknownBitrate { offset: usize },
    /// The rate is too low for a header, or sizes do not fit.
    ArithmeticOverflow,
}

/// The codec that a frame is for.
#[derive(Debug, Clone, Copy, PartialEq, Eq, Structural)]
pub enum AudioCodecId {
    Avs3P3,
}

/// The header of a frame.
#[derive(Debug, Clone, Copy, PartialEq, Eq, Structural)]
pub struct FrameHeader {
    pub codec_id: AudioCodecId,
    pub nn_type: NnType,
    pub profile: CodecProfile,
    pub sample_rate: u32,
    pub bit_depth: BitDepth,
    pub channel_config: Option<ChannelConfiguration>,
    pub sound_bed_type: Option<SoundBedType>,
    pub hoa_order: Option<u8>,
    pub objects: u8,
    pub bed_channels: u8,
    pub channels: u8,
    pub has_lfe: bool,
    pub bed_bitrate: Option<u32>,
    pub object_bitrate: Option<u32>,
    pub bitrate: u32,
    pub crc: u16,
    pub header_len: usize,
    pub payload_bits: usize,
    pub payload_len: usize,
    pub frame_len: usize,
    pub samples_per_channel: u32,
}

/// Whether a layout has low-frequency channels.
pub open spec fn layout_has_lfe(layout: ChannelConfiguration) -> bool {
    !(layout is Mono || layout is Stereo || layout is Surround4_0 || layout is Reserved)
}

/// Whether a layout has low-frequency channels.
fn has_lfe(layout: ChannelConfiguration) -> (result: bool)
    ensures
        result == layout_has_lfe(layout),
{
    match layout {
        ChannelConfiguration::Mono => false,
        ChannelConfiguration::Stereo => false,
        ChannelConfiguration::Surround4_0 => false,
        ChannelConfiguration::Reserved(_) => false,
        _ => true,
    }
}

/// What the signals of a frame are, and at what rates.
#[derive(Clone, Copy, PartialEq, Eq, Structural)]
pub struct SignalPlan {
    pub profile: CodecProfile,
    pub channel_config: Option<ChannelConfiguration>,
    pub sound_bed_type: Option<SoundBedType>,
    pub hoa_order: Option<u8>,
    pub objects: u8,
    pub bed_channels: u8,
    pub has_lfe: bool,
    pub bed_bitrate: Option<u32>,
    pub object_bitrate: Option<u32>,
    pub bitrate: u32,
    /// Width of the header, with its check sums.
    pub header_bits: u8,
}

/// A channel bed alone.
pub open spec fn channel_plan(header: AatfFrameHeader, rates: BitrateTable, offset: int) -> Result<
    SignalPlan,
    HeaderError,
> {
    match (header.channel_configuration, header.channel_number_index, header.bitrate_index) {
        (Some(layout), Some(index), Some(rate_index)) => match layout.channel_count() {
            None => Err(
                HeaderError::Unsupported {
                    offset: offset as usize,
                    reason: "reserved channel layout",
                },
            ),
            Some(count) => match rate_in_row(rates.channel@, index as int, rate_index as int) {
                None => Err(HeaderError::UnknownBitrate { offset: offset as usize }),
                Some(rate) => Ok(
                    SignalPlan {
                        profile: CodecProfile::ChannelBased,
                        channel_config: Some(layout),
                        sound_bed_type: None,
                        hoa_order: None,
                        objects: 0,
                        bed_channels: count as u8,
                        has_lfe: layout_has_lfe(layout),
                        bed_bitrate: Some(rate),
                        object_bitrate: None,
                        bitrate: rate,
                        header_bits: 56,
                    },
                ),
            },
        },
        _ => Err(
            HeaderError::InvalidData { offset: offset as usize, reason: "incomplete header" },
        ),
    }
}

/// Objects alone.
pub open spec fn object_plan(header: AatfFrameHeader, rates: BitrateTable, offset: int) -> Result<
    SignalPlan,
    HeaderError,
> {
    match (header.object_channel_number, header.bitrate_index_per_channel) {
        (Some(number), Some(rate_index)) => if number > 127 {
            Err(HeaderError::InvalidData { offset: offset as usize, reason: "incomplete header" })
        } else {
            match rate_in(rates.object@, rate_index as int) {
                None => Err(HeaderError::UnknownBitrate { offset: offset as usize }),
                Some(rate) => if rate * (number + 1) > u32::MAX {
                    Err(HeaderError::ArithmeticOverflow)
                } else {
                    Ok(
                        SignalPlan {
                            profile: CodecProfile::Mixed,
                            channel_config: None,
                            sound_bed_type: Some(SoundBedType::ObjectsOnly),
                            hoa_order: None,
                            objects: (number + 1) as u8,
                            bed_channels: 0,
                            has_lfe: false,
                            bed_bitrate: None,
                            object_bitrate: Some(rate),
                            bitrate: (rate * (number + 1)) as u32,
                            header_bits: 58,
                        },
                    )
                },
            }
        },
        _ => Err(
            HeaderError::InvalidData { offset: offset as usize, reason: "incomplete header" },
        ),
    }
}

/// Objects on top of a channel bed.
pub open spec fn bed_plan(header: AatfFrameHeader, rates: BitrateTable, offset: int) -> Result<
    SignalPlan,
    HeaderError,
> {
    match channel_plan(header, rates, offset) {
        Err(error) => Err(error),
        Ok(bed) => match object_plan(header, rates, offset) {
            Err(error) => Err(error),
            Ok(objects) => if bed.bitrate + objects.bitrate > u32::MAX {
                Err(HeaderError::ArithmeticOverflow)
            } else {
                Ok(
                    SignalPlan {
                        profile: CodecProfile::Mixed,
                        channel_config: bed.channel_config,
                        sound_bed_type: Some(SoundBedType::ChannelBed),
                        hoa_order: None,
                        objects: objects.objects,
                        bed_channels: bed.bed_channels,
                        has_lfe: bed.has_lfe,
                        bed_bitrate: bed.bed_bitrate,
                        object_bitrate: objects.object_bitrate,
                        bitrate: (bed.bitrate + objects.bitrate) as u32,
                        header_bits: 69,
                    },
                )
            },
        },
    }
}

/// Ambisonics.
pub open spec fn hoa_plan(header: AatfFrameHeader, rates: BitrateTable, offset: int) -> Result<
    SignalPlan,
    HeaderError,
> {
    match (header.hoa_order, header.bitrate_index) {
        (Some(order), Some(rate_index)) => if order > 14 {
            Err(
                HeaderError::Unsupported {
                    offset: offset as usize,
                    reason: "ambisonic order is too high",
                },
            )
        } else {
            match rate_in_row(rates.hoa@, order as int, rate_index as int) {
                None => Err(HeaderError::UnknownBitrate { offset: offset as usize }),
                Some(rate) => Ok(
                    SignalPlan {
                        profile: CodecProfile::Hoa,
                        channel_config: None,
                        sound_bed_type: None,
                        hoa_order: Some(order),
                        objects: 0,
                        bed_channels: ((order + 1) * (order + 1)) as u8,
                        has_lfe: false,
                        bed_bitrate: Some(rate),
                        object_bitrate: None,
                        bitrate: rate,
                        header_bits: 53,
                    },
                ),
            }
        },
        _ => Err(
            HeaderError::InvalidData { offset: offset as usize, reason: "incomplete header" },
        ),
    }
}

/// What the signals of a frame are, by profile.
pub open spec fn signal_plan(header: AatfFrameHeader, rates: BitrateTable, offset: int) -> Result<
    SignalPlan,
    HeaderError,
> {
    match header.coding_profile {
        CodingProfile::Basic => channel_plan(header, rates, offset),
        CodingProfile::ObjectMetadata => match header.sound_bed_type {
            Some(crate::frame::SoundBedType::ObjectsOnly) => object_plan(header, rates, offset),
            _ => bed_plan(header, rates, offset),
        },
        CodingProfile::Hoa => hoa_plan(header, rates, offset),
        CodingProfile::Reserved(_) => Err(
            HeaderError::Unsupported { offset: offset as usize, reason: "reserved profile" },
        ),
    }
}

fn plan_channels(header: &AatfFrameHeader, rates: &BitrateTable, offset: usize) -> (result: Result<
    SignalPlan,
    HeaderError,
>)
    ensures
        result == channel_plan(*header, *rates, offset as int),
        result matches Ok(plan) ==> plan.bed_channels <= 24 && plan.objects == 0,
{
    let (layout, index, rate_index): (ChannelConfiguration, u8, u8) = match (
        header.channel_configuration,
        header.channel_number_index,
        header.bitrate_index,
    ) {
        (Some(layout), Some(index), Some(rate_index)) => (layout, index, rate_index),
        _ => {
            return Err(HeaderError::InvalidData { offset, reason: "incomplete header" });
        },
    };
    let count: u16 = match layout.channels() {
        Some(count) => count,
        None => {
            return Err(HeaderError::Unsupported { offset, reason: "reserved channel layout" });
        },
    };
    let rate: u32 = match find_rate_in_row(&rates.channel, index, rate_index) {
        Some(rate) => rate,
        None => {
            return Err(HeaderError::UnknownBitrate { offset });
        },
    };
    Ok(
        SignalPlan {
            profile: CodecProfile::ChannelBased,
            channel_config: Some(layout),
            sound_bed_type: None,
            hoa_order: None,
            objects: 0,
            bed_channels: count as u8,
            has_lfe: has_lfe(layout),
            bed_bitrate: Some(rate),
            object_bitrate: None,
            bitrate: rate,
            header_bits: 56,
        },
    )
}

fn plan_objects(header: &AatfFrameHeader, rates: &BitrateTable, offset: usize) -> (result: Result<
    SignalPlan,
    HeaderError,
>)
    ensures
        result == object_plan(*header, *rates, offset as int),
        result matches Ok(plan) ==> plan.bed_channels == 0 && plan.objects <= 128,
{
    let (number, rate_index): (u8, u8) = match (
        header.object_channel_number,
        header.bitrate_index_per_channel,
    ) {
        (Some(number), Some(rate_index)) => (number, rate_index),
        _ => {
            return Err(HeaderError::InvalidData { offset, reason: "incomplete header" });
        },
    };
    if number > 127 {
        return Err(HeaderError::InvalidData { offset, reason: "incomplete header" });
    }
    let rate: u32 = match find_rate(&rates.object, rate_index) {
        Some(rate) => rate,
        None => {
            return Err(HeaderError::UnknownBitrate { offset });
        },
    };
    let objects: u8 = number + 1;
    let bitrate: u32 = match rate.checked_mul(objects as u32) {
        Some(bitrate) => bitrate,
        None => {
            return Err(HeaderError::ArithmeticOverflow);
        },
    };
    Ok(
        SignalPlan {
            profile: CodecProfile::Mixed,
            channel_config: None,
            sound_bed_type: Some(SoundBedType::ObjectsOnly),
            hoa_order: None,
            objects,
            bed_channels: 0,
            has_lfe: false,
            bed_bitrate: None,
            object_bitrate: Some(rate),
            bitrate,
            header_bits: 58,
        },
    )
}

fn plan_bed(header: &AatfFrameHeader, rates: &BitrateTable, offset: usize) -> (result: Result<
    SignalPlan,
    HeaderError,
>)
    ensures
        result == bed_plan(*header, *rates, offset as int),
        result matches Ok(plan) ==> plan.bed_channels <= 24 && plan.objects <= 128,
{
    let bed = plan_channels(header, rates, offset)?;
    let objects = plan_objects(header, rates, offset)?;
    let bitrate: u32 = match bed.bitrate.checked_add(objects.bitrate) {
        Some(bitrate) => bitrate,
        None => {
            return Err(HeaderError::ArithmeticOverflow);
        },
    };
    Ok(
        SignalPlan {
            profile: CodecProfile::Mixed,
            channel_config: bed.channel_config,
            sound_bed_type: Some(SoundBedType::ChannelBed),
            hoa_order: None,
            objects: objects.objects,
            bed_channels: bed.bed_channels,
            has_lfe: bed.has_lfe,
            bed_bitrate: bed.bed_bitrate,
            object_bitrate: objects.object_bitrate,
            bitrate,
            header_bits: 69,
        },
    )
}

fn plan_hoa(header: &AatfFrameHeader, rates: &BitrateTable, offset: usize) -> (result: Result<
    SignalPlan,
    HeaderError,
>)
    ensures
        result == hoa_plan(*header, *rates, offset as int),
        result matches Ok(plan) ==> plan.bed_channels <= 225 && plan.objects == 0,
{
    let (order, rate_index): (u8, u8) = match (header.hoa_order, header.bitrate_index) {
        (Some(order), Some(rate_index)) => (order, rate_index),
        _ => {
            return Err(HeaderError::InvalidData { offset, reason: "incomplete header" });
        },
    };
    if order > 14 {
        return Err(HeaderError::Unsupported { offset, reason: "ambisonic order is too high" });
    }
    let rate: u32 = match find_rate_in_row(&rates.hoa, order, rate_index) {
        Some(rate) => rate,
        None => {
            return Err(HeaderError::UnknownBitrate { offset });
        },
    };
    assert((order + 1) * (order + 1) <= 225) by (nonlinear_arith)
        requires
            0 <= order <= 14,
    ;
    Ok(
        SignalPlan {
            profile: CodecProfile::Hoa,
            channel_config: None,
            sound_bed_type: None,
            hoa_order: Some(order),
            objects: 0,
            bed_channels: (order + 1) * (order + 1),
            has_lfe: false,
            bed_bitrate: Some(rate),
            object_bitrate: None,
            bitrate: rate,
            header_bits: 53,
        },
    )
}

/// The header that an AATF header stands for. The frame takes as many bits as the rate yields in the
/// time of its samples, and what the header leaves of them is payload.
pub open spec fn resolved_header(header: AatfFrameHeader, rates: BitrateTable, offset: int) -> Result<
    FrameHeader,
    HeaderError,
> {
    let unsupported = |reason: &'static str|
        Err::<FrameHeader, HeaderError>(
            HeaderError::Unsupported { offset: offset as usize, reason },
        );
    match (header.coding_method, header.nn_type, header.sample_rate, header.frame_crc) {
        (
            AudioCodingMethod::GeneralFullRate,
            Some(nn_type),
            Some(sample_rate),
            Some(frame_crc),
        ) => if nn_type is Reserved {
            unsupported("reserved neural network")
        } else if header.resolution is Reserved {
            unsupported("reserved resolution")
        } else {
            match signal_plan(header, rates, offset) {
                Err(error) => Err(error),
                Ok(plan) => {
                    let frame_bits = (plan.bitrate * 1_024) / (sample_rate as int);
                    let payload_bits = frame_bits - plan.header_bits;
                    let header_len = (plan.header_bits + 7) / 8;
                    let payload_len = (payload_bits + 7) / 8;
                    let channels = plan.bed_channels + plan.objects;
                    if sample_rate == 0 || payload_bits < 0 || payload_len > MAX_PAYLOAD_BYTES
                        || channels > 255 {
                        Err(HeaderError::ArithmeticOverflow)
                    } else {
                        Ok(
                            FrameHeader {
                                codec_id: AudioCodecId::Avs3P3,
                                nn_type: if nn_type is Basic {
                                    NnType::Main
                                } else {
                                    NnType::LowComplexity
                                },
                                profile: plan.profile,
                                sample_rate,
                                bit_depth: match header.resolution {
                                    QuantizationResolution::Pcm8 => BitDepth::Eight,
                                    QuantizationResolution::Pcm16 => BitDepth::Sixteen,
                                    _ => BitDepth::TwentyFour,
                                },
                                channel_config: plan.channel_config,
                                sound_bed_type: plan.sound_bed_type,
                                hoa_order: plan.hoa_order,
                                objects: plan.objects,
                                bed_channels: plan.bed_channels,
                                channels: channels as u8,
                                has_lfe: plan.has_lfe,
                                bed_bitrate: plan.bed_bitrate,
                                object_bitrate: plan.object_bitrate,
                                bitrate: plan.bitrate,
                                crc: (0x100 * header.header_crc + frame_crc) as u16,
                                header_len: header_len as usize,
                                payload_bits: payload_bits as usize,
                                payload_len: payload_len as usize,
                                frame_len: (header_len + payload_len) as usize,
                                samples_per_channel: FRAME_SAMPLES,
                            },
                        )
                    }
                },
            }
        },
        (AudioCodingMethod::Lossless, _, _, _) => unsupported("lossless frame"),
        _ => unsupported("reserved sampling rate"),
    }
}

/// The header at the start of `input`, which stands `offset` bytes into a stream.
#[verifier::opaque]
pub open spec fn header_at(input: Seq<u8>, rates: BitrateTable, offset: int) -> Result<
    FrameHeader,
    HeaderError,
> {
    match aatf_header(input) {
        Err(CodecError::Truncated) => Err(
            HeaderError::NeedMoreData {
                offset: offset as usize,
                available: input.len() as usize,
            },
        ),
        Err(CodecError::InvalidData(reason)) => Err(
            HeaderError::InvalidData { offset: offset as usize, reason },
        ),
        Err(CodecError::Unsupported(reason)) => Err(
            HeaderError::Unsupported { offset: offset as usize, reason },
        ),
        Err(CodecError::Internal(reason)) => Err(
            HeaderError::Unsupported { offset: offset as usize, reason },
        ),
        Ok(header) => resolved_header(header, rates, offset),
    }
}

/// Parse the header at the start of `input`.
pub fn parse_header(input: &[u8], rates: &BitrateTable) -> (result: Result<
    FrameHeader,
    HeaderError,
>)
    ensures
        result == header_at(input@, *rates, 0),
{
    parse_header_at(input, rates, 0)
}

/// Parse the header at the start of `input`, which stands `offset` bytes into a stream.
pub fn parse_header_at(input: &[u8], rates: &BitrateTable, offset: usize) -> (result: Result<
    FrameHeader,
    HeaderError,
>)
    ensures
        result == header_at(input@, *rates, offset as int),
        result matches Ok(header) ==> {
            &&& 7 <= header.header_len <= MAX_HEADER_BYTES
            &&& header.frame_len == header.header_len + header.payload_len
            &&& header.payload_len <= MAX_PAYLOAD_BYTES
        },
{
    proof {
        reveal(header_at);
    }
    match parse_aatf_frame_header(input) {
        Err(CodecError::Truncated) => Err(
            HeaderError::NeedMoreData { offset, available: input.len() },
        ),
        Err(CodecError::InvalidData(reason)) => Err(HeaderError::InvalidData { offset, reason }),
        Err(CodecError::Unsupported(reason)) => Err(HeaderError::Unsupported { offset, reason }),
        Err(CodecError::Internal(reason)) => Err(HeaderError::Unsupported { offset, reason }),
        Ok(header) => resolve_header(&header, rates, offset),
    }
}

/// Work out what an AATF header stands for.
fn resolve_header(header: &AatfFrameHeader, rates: &BitrateTable, offset: usize) -> (result: Result<
    FrameHeader,
    HeaderError,
>)
    ensures
        result == resolved_header(*header, *rates, offset as int),
        result matches Ok(resolved) ==> {
            &&& 7 <= resolved.header_len <= MAX_HEADER_BYTES
            &&& resolved.frame_len == resolved.header_len + resolved.payload_len
            &&& resolved.payload_len <= MAX_PAYLOAD_BYTES
        },
{
    if let AudioCodingMethod::Lossless = header.coding_method {
        return Err(HeaderError::Unsupported { offset, reason: "lossless frame" });
    }
    let (nn_type, sample_rate, frame_crc): (NeuralNetworkType, u32, u8) = match (
        header.nn_type,
        header.sample_rate,
        header.frame_crc,
    ) {
        (Some(nn_type), Some(sample_rate), Some(frame_crc)) => (nn_type, sample_rate, frame_crc),
        _ => {
            return Err(HeaderError::Unsupported { offset, reason: "reserved sampling rate" });
        },
    };
    let nn_type: NnType = match nn_type {
        NeuralNetworkType::Basic => NnType::Main,
        NeuralNetworkType::LowComplexity => NnType::LowComplexity,
        NeuralNetworkType::Reserved(_) => {
            return Err(HeaderError::Unsupported { offset, reason: "reserved neural network" });
        },
    };
    let bit_depth: BitDepth = match header.resolution {
        QuantizationResolution::Pcm8 => BitDepth::Eight,
        QuantizationResolution::Pcm16 => BitDepth::Sixteen,
        QuantizationResolution::Pcm24 => BitDepth::TwentyFour,
        QuantizationResolution::Reserved => {
            return Err(HeaderError::Unsupported { offset, reason: "reserved resolution" });
        },
    };
    let plan: SignalPlan = match header.coding_profile {
        CodingProfile::Basic => plan_channels(header, rates, offset)?,
        CodingProfile::ObjectMetadata => match header.sound_bed_type {
            Some(crate::frame::SoundBedType::ObjectsOnly) => plan_objects(header, rates, offset)?,
            _ => plan_bed(header, rates, offset)?,
        },
        CodingProfile::Hoa => plan_hoa(header, rates, offset)?,
        CodingProfile::Reserved(_) => {
            return Err(HeaderError::Unsupported { offset, reason: "reserved profile" });
        },
    };
    if sample_rate == 0 {
        return Err(HeaderError::ArithmeticOverflow);
    }
    let frame_bits: u64 = plan.bitrate as u64 * 1_024 / sample_rate as u64;
    if frame_bits < plan.header_bits as u64 {
        return Err(HeaderError::ArithmeticOverflow);
    }
    let payload_bits: u64 = frame_bits - plan.header_bits as u64;
    let header_len: usize = (plan.header_bits as usize + 7) / 8;
    assert(frame_bits <= plan.bitrate * 1_024) by (nonlinear_arith)
        requires
            frame_bits == (plan.bitrate * 1_024) / (sample_rate as int),
            sample_rate > 0,
            plan.bitrate >= 0,
    ;
    let payload_len: u64 = (payload_bits + 7) / 8;
    let channels: u16 = plan.bed_channels as u16 + plan.objects as u16;
    if payload_len > MAX_PAYLOAD_BYTES as u64 || channels > 255 {
        return Err(HeaderError::ArithmeticOverflow);
    }
    Ok(
        FrameHeader {
            codec_id: AudioCodecId::Avs3P3,
            nn_type,
            profile: plan.profile,
            sample_rate,
            bit_depth,
            channel_config: plan.channel_config,
            sound_bed_type: plan.sound_bed_type,
            hoa_order: plan.hoa_order,
            objects: plan.objects,
            bed_channels: plan.bed_channels,
            channels: channels as u8,
            has_lfe: plan.has_lfe,
            bed_bitrate: plan.bed_bitrate,
            object_bitrate: plan.object_bitrate,
            bitrate: plan.bitrate,
            crc: header.header_crc as u16 * 0x100 + frame_crc as u16,
            header_len,
            payload_bits: payload_bits as usize,
            payload_len: payload_len as usize,
            frame_len: header_len + payload_len as usize,
            samples_per_channel: FRAME_SAMPLES,
        },
    )
}

/// The header does not depend on what follows it.
pub proof fn longer_input_gives_the_same_header(
    input: Seq<u8>,
    more: Seq<u8>,
    rates: BitrateTable,
    offset: int,
)
    requires
        !(header_at(input, rates, offset) matches Err(HeaderError::NeedMoreData { .. })),
    ensures
        header_at(input + more, rates, offset) == header_at(input, rates, offset),
{
    reveal(header_at);
    longer_packets_parse_alike(input, more);
}

/// A header that was found is bigger than nothing, and its frame no smaller than it.
pub proof fn lemma_header_sizes(input: Seq<u8>, rates: BitrateTable, offset: int)
    ensures
        header_at(input, rates, offset) matches Ok(header) ==> {
            &&& 7 <= header.header_len <= MAX_HEADER_BYTES
            &&& header.frame_len == header.header_len + header.payload_len
            &&& header.payload_len <= MAX_PAYLOAD_BYTES
        },
{
    reveal(header_at);
}

} // verus!
