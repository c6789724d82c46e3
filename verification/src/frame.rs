//! The AATF frame header: everything from the syncword up to the coded block.

use crate::bitreader::{bit_at, bit_capacity, bits, BitReader};
use crate::config::{
    full_rate_hertz, full_rate_sample_rate, lossless_hertz, lossless_sample_rate,
    AudioCodingMethod, ChannelConfiguration, CodingProfile, NeuralNetworkType,
    QuantizationResolution,
};
use crate::error::CodecError;
use vstd::prelude::*;

verus! {

/// The twelve bits that open every frame.
pub const AATF_SYNCWORD: u16 = 0x0FFF;

/// Whether objects come alone or on top of a channel bed.
#[derive(Clone, Copy, Debug, PartialEq, Eq, Structural)]
pub enum SoundBedType {
    ObjectsOnly,
    ChannelBedAndObjects,
}

/// The decoded header of one frame.
#[derive(Clone, Copy, Debug, PartialEq, Eq, Structural)]
pub struct AatfFrameHeader {
    pub coding_method: AudioCodingMethod,
    pub anc_data_index: bool,
    pub nn_type: Option<NeuralNetworkType>,
    pub coding_profile: CodingProfile,
    pub sampling_frequency_index: u8,
    pub sample_rate: Option<u32>,
    pub raw_frame_length: Option<u16>,
    /// The check byte of the header as transmitted.
    pub header_crc: u8,
    pub channel_number: Option<u16>,
    pub channel_number_index: Option<u8>,
    pub channel_configuration: Option<ChannelConfiguration>,
    pub sound_bed_type: Option<SoundBedType>,
    /// The seven-bit field; there is one object channel more than its value.
    pub object_channel_number: Option<u8>,
    pub bitrate_index_per_channel: Option<u8>,
    /// The ambisonic order, one more than the transmitted field.
    pub hoa_order: Option<u8>,
    pub resolution: QuantizationResolution,
    pub bitrate_index: Option<u8>,
    /// The check byte of a general full-rate frame, which follows the header. A lossless frame
    /// carries it behind the coded block instead.
    pub frame_crc: Option<u8>,
    /// First byte of the coded block.
    pub payload_offset_bytes: usize,
}

impl AatfFrameHeader {
    /// Number of object channels.
    pub open spec fn object_count(self) -> Option<u16> {
        match self.object_channel_number {
            Some(number) => Some((number + 1) as u16),
            None => None,
        }
    }

    /// Number of output signals that the header describes.
    pub open spec fn signal_count(self) -> Option<u16> {
        match (self.coding_method, self.coding_profile) {
            (AudioCodingMethod::Lossless, _) => self.channel_number,
            (AudioCodingMethod::GeneralFullRate, CodingProfile::Basic) => {
                match self.channel_configuration {
                    Some(layout) => layout.channel_count(),
                    None => None,
                }
            },
            (AudioCodingMethod::GeneralFullRate, CodingProfile::ObjectMetadata) => {
                match (self.sound_bed_type, self.channel_configuration) {
                    (Some(SoundBedType::ObjectsOnly), _) => self.object_count(),
                    (Some(SoundBedType::ChannelBedAndObjects), Some(layout)) => {
                        match (layout.channel_count(), self.object_count()) {
                            (Some(bed), Some(objects)) => Some((bed + objects) as u16),
                            _ => None,
                        }
                    },
                    _ => None,
                }
            },
            (AudioCodingMethod::GeneralFullRate, CodingProfile::Hoa) => match self.hoa_order {
                Some(order) => Some(
                    if order == 255 {
                        u16::MAX
                    } else {
                        ((order + 1) * (order + 1)) as u16
                    },
                ),
                None => None,
            },
            (AudioCodingMethod::GeneralFullRate, CodingProfile::Reserved(_)) => None,
        }
    }

    /// Number of object channels, if the header has any.
    pub fn object_channels(&self) -> (count: Option<u16>)
        ensures
            count == self.object_count(),
    {
        match self.object_channel_number {
            Some(number) => Some(number as u16 + 1),
            None => None,
        }
    }

    /// Number of output signals that the header describes, where it determines one. An ambisonic
    /// order whose signal count does not fit in 16 bits gives the largest 16-bit number.
    pub fn resolved_channels(&self) -> (count: Option<u16>)
        ensures
            count == self.signal_count(),
    {
        match self.coding_method {
            AudioCodingMethod::Lossless => self.channel_number,
            AudioCodingMethod::GeneralFullRate => match self.coding_profile {
                CodingProfile::Basic => match self.channel_configuration {
                    Some(layout) => layout.channels(),
                    None => None,
                },
                CodingProfile::ObjectMetadata => match self.sound_bed_type {
                    Some(SoundBedType::ObjectsOnly) => self.object_channels(),
                    Some(SoundBedType::ChannelBedAndObjects) => match self.channel_configuration {
                        Some(layout) => match (layout.channels(), self.object_channels()) {
                            (Some(bed), Some(objects)) => Some(bed + objects),
                            _ => None,
                        },
                        None => None,
                    },
                    None => None,
                },
                CodingProfile::Hoa => match self.hoa_order {
                    Some(order) => {
                        if order == 255 {
                            Some(u16::MAX)
                        } else {
                            let side: u16 = order as u16 + 1;
                            assert(side * side <= 255 * 255) by (nonlinear_arith)
                                requires
                                    side <= 255,
                            ;
                            Some(side * side)
                        }
                    },
                    None => None,
                },
                CodingProfile::Reserved(_) => None,
            },
        }
    }
}

/// Bytes needed to hold `count` bits.
pub open spec fn bytes_for(count: int) -> int {
    (count + 7) / 8
}

/// The header written at the start of `packet`, or the first reason why there is none.
pub open spec fn aatf_header(packet: Seq<u8>) -> Result<AatfFrameHeader, CodecError> {
    if bit_capacity(packet) < 12 {
        Err(CodecError::Truncated)
    } else if bits(packet, 0, 12) != AATF_SYNCWORD {
        Err(CodecError::InvalidData("invalid AATF syncword"))
    } else if bit_capacity(packet) < 16 {
        Err(CodecError::Truncated)
    } else if bits(packet, 12, 4) == 1 {
        lossless_header(packet)
    } else if bits(packet, 12, 4) == 2 {
        full_rate_header(packet)
    } else {
        Err(CodecError::Unsupported("reserved AATF audio_codec_id"))
    }
}

/// Where the rate index of a lossless header ends: after the index, or after the rate written out.
pub open spec fn lossless_rate_end(packet: Seq<u8>) -> int {
    if bits(packet, 20, 4) == 15 {
        48
    } else {
        24
    }
}

/// Sampling rate of a lossless header.
pub open spec fn lossless_rate(packet: Seq<u8>) -> Option<u32> {
    lossless_hertz(
        bits(packet, 20, 4) as int,
        if bits(packet, 20, 4) == 15 {
            Some(bits(packet, 24, 24) as u32)
        } else {
            None
        },
    )
}

/// Where the resolution of a lossless header begins.
pub open spec fn lossless_resolution_start(packet: Seq<u8>) -> int {
    let base = lossless_rate_end(packet);
    if bits(packet, base + 24, 4) == 15 {
        base + 36
    } else {
        base + 28
    }
}

/// Channel count of a lossless header: four bits, or eight more where those are all ones.
pub open spec fn lossless_channels(packet: Seq<u8>) -> u16 {
    let base = lossless_rate_end(packet);
    if bits(packet, base + 24, 4) == 15 {
        bits(packet, base + 28, 8) as u16
    } else {
        bits(packet, base + 24, 4) as u16
    }
}

/// The remainder of a header whose coding method is lossless.
pub open spec fn lossless_header(packet: Seq<u8>) -> Result<AatfFrameHeader, CodecError> {
    let available = bit_capacity(packet);
    let base = lossless_rate_end(packet);
    let resolution = lossless_resolution_start(packet);
    if available < 20 {
        Err(CodecError::Truncated)
    } else if bits(packet, 17, 3) > 2 {
        Err(CodecError::Unsupported("reserved AATF coding_profile"))
    } else if available < 24 || available < base {
        Err(CodecError::Truncated)
    } else if bits(packet, 20, 4) == 15 && bits(packet, 24, 24) == 0xFF_FFFF {
        Err(CodecError::InvalidData("reserved explicit AATF sampling frequency"))
    } else if lossless_rate(packet) is None {
        Err(CodecError::Unsupported("reserved lossless AATF sampling_frequency_index"))
    } else if available < base + 28 || available < resolution + 2 {
        Err(CodecError::Truncated)
    } else {
        Ok(
            AatfFrameHeader {
                coding_method: AudioCodingMethod::Lossless,
                anc_data_index: bit_at(packet, 16),
                nn_type: None,
                coding_profile: CodingProfile::of_code(bits(packet, 17, 3) as int),
                sampling_frequency_index: bits(packet, 20, 4) as u8,
                sample_rate: lossless_rate(packet),
                raw_frame_length: Some(bits(packet, base, 16) as u16),
                header_crc: bits(packet, base + 16, 8) as u8,
                channel_number: Some(lossless_channels(packet)),
                channel_number_index: None,
                channel_configuration: None,
                sound_bed_type: None,
                object_channel_number: None,
                bitrate_index_per_channel: None,
                hoa_order: None,
                resolution: QuantizationResolution::of_code(bits(packet, resolution, 2) as int),
                bitrate_index: None,
                frame_crc: None,
                payload_offset_bytes: bytes_for(resolution + 2) as usize,
            },
        )
    }
}

/// The layout fields of a full-rate header, from bit 35 on.
pub struct FullRateLayout {
    pub channel_number_index: Option<u8>,
    pub sound_bed_type: Option<SoundBedType>,
    pub object_channel_number: Option<u8>,
    pub bitrate_index_per_channel: Option<u8>,
    pub hoa_order: Option<u8>,
    pub bitrate_index: Option<u8>,
    /// First bit of the resolution.
    pub resolution: int,
    /// First bit of the frame check byte.
    pub frame_crc: int,
}

/// The layout fields of a full-rate header, by profile.
pub open spec fn full_rate_layout(packet: Seq<u8>) -> FullRateLayout {
    if bits(packet, 20, 3) == 0 {
        FullRateLayout {
            channel_number_index: Some(bits(packet, 35, 7) as u8),
            sound_bed_type: None,
            object_channel_number: None,
            bitrate_index_per_channel: None,
            hoa_order: None,
            bitrate_index: Some(bits(packet, 44, 4) as u8),
            resolution: 42,
            frame_crc: 48,
        }
    } else if bits(packet, 20, 3) == 2 {
        FullRateLayout {
            channel_number_index: None,
            sound_bed_type: None,
            object_channel_number: None,
            bitrate_index_per_channel: None,
            hoa_order: Some((bits(packet, 35, 4) + 1) as u8),
            bitrate_index: Some(bits(packet, 41, 4) as u8),
            resolution: 39,
            frame_crc: 45,
        }
    } else if bits(packet, 35, 2) == 0 {
        FullRateLayout {
            channel_number_index: None,
            sound_bed_type: Some(SoundBedType::ObjectsOnly),
            object_channel_number: Some(bits(packet, 37, 7) as u8),
            bitrate_index_per_channel: Some(bits(packet, 44, 4) as u8),
            hoa_order: None,
            bitrate_index: None,
            resolution: 48,
            frame_crc: 50,
        }
    } else {
        FullRateLayout {
            channel_number_index: Some(bits(packet, 37, 7) as u8),
            sound_bed_type: Some(SoundBedType::ChannelBedAndObjects),
            object_channel_number: Some(bits(packet, 48, 7) as u8),
            bitrate_index_per_channel: Some(bits(packet, 55, 4) as u8),
            hoa_order: None,
            bitrate_index: Some(bits(packet, 44, 4) as u8),
            resolution: 59,
            frame_crc: 61,
        }
    }
}

/// The remainder of a header whose coding method is general full-rate.
pub open spec fn full_rate_header(packet: Seq<u8>) -> Result<AatfFrameHeader, CodecError> {
    let available = bit_capacity(packet);
    let layout = full_rate_layout(packet);
    if available < 23 {
        Err(CodecError::Truncated)
    } else if bits(packet, 20, 3) > 2 {
        Err(CodecError::Unsupported("reserved AATF coding_profile"))
    } else if bits(packet, 20, 3) == 1 && available < 37 {
        Err(CodecError::Truncated)
    } else if bits(packet, 20, 3) == 1 && bits(packet, 35, 2) > 1 {
        Err(CodecError::Unsupported("reserved AATF soundBedType"))
    } else if available < layout.frame_crc + 8 {
        Err(CodecError::Truncated)
    } else {
        Ok(
            AatfFrameHeader {
                coding_method: AudioCodingMethod::GeneralFullRate,
                anc_data_index: bit_at(packet, 16),
                nn_type: Some(NeuralNetworkType::of_code(bits(packet, 17, 3) as int)),
                coding_profile: CodingProfile::of_code(bits(packet, 20, 3) as int),
                sampling_frequency_index: bits(packet, 23, 4) as u8,
                sample_rate: full_rate_hertz(bits(packet, 23, 4) as int),
                raw_frame_length: None,
                header_crc: bits(packet, 27, 8) as u8,
                channel_number: None,
                channel_number_index: layout.channel_number_index,
                channel_configuration: match layout.channel_number_index {
                    Some(index) => Some(ChannelConfiguration::of_index(index as int)),
                    None => None,
                },
                sound_bed_type: layout.sound_bed_type,
                object_channel_number: layout.object_channel_number,
                bitrate_index_per_channel: layout.bitrate_index_per_channel,
                hoa_order: layout.hoa_order,
                resolution: QuantizationResolution::of_code(
                    bits(packet, layout.resolution, 2) as int,
                ),
                bitrate_index: layout.bitrate_index,
                frame_crc: Some(bits(packet, layout.frame_crc, 8) as u8),
                payload_offset_bytes: bytes_for(layout.frame_crc + 8) as usize,
            },
        )
    }
}

/// Parse the syncword and the header fields at the start of `packet`.
///
/// Parsing stops at the first byte of the coded block. A reserved code is refused where it is met,
/// so a packet that is both malformed and too short is reported for whichever comes first.
pub fn parse_aatf_frame_header(packet: &[u8]) -> (result: Result<AatfFrameHeader, CodecError>)
    ensures
        result == aatf_header(packet@),
{
    proof {
        crate::bitreader::lemma_span_values();
    }
    let mut reader = BitReader::new(packet);
    let syncword: u16 = reader.read_bits(12)? as u16;
    if syncword != AATF_SYNCWORD {
        return Err(CodecError::InvalidData("invalid AATF syncword"));
    }
    let audio_codec_id: u8 = reader.read_bits(4)? as u8;
    let coding_method = if audio_codec_id == 1 {
        AudioCodingMethod::Lossless
    } else if audio_codec_id == 2 {
        AudioCodingMethod::GeneralFullRate
    } else {
        return Err(CodecError::Unsupported("reserved AATF audio_codec_id"));
    };
    let anc_data_index: bool = reader.read_bit()?;

    let nn_type = if coding_method == AudioCodingMethod::GeneralFullRate {
        Some(NeuralNetworkType::from_code(reader.read_bits(3)? as u8))
    } else {
        None
    };
    let coding_profile = CodingProfile::from_code(reader.read_bits(3)? as u8);
    if let CodingProfile::Reserved(_) = coding_profile {
        return Err(CodecError::Unsupported("reserved AATF coding_profile"));
    }
    let sampling_frequency_index: u8 = reader.read_bits(4)? as u8;
    let explicit_sample_rate: Option<u32> = if coding_method == AudioCodingMethod::Lossless
        && sampling_frequency_index == 15 {
        let sample_rate: u32 = reader.read_bits(24)?;
        if sample_rate == 0xFF_FFFF {
            return Err(CodecError::InvalidData("reserved explicit AATF sampling frequency"));
        }
        Some(sample_rate)
    } else {
        None
    };
    let sample_rate: Option<u32> = match coding_method {
        AudioCodingMethod::GeneralFullRate => full_rate_sample_rate(sampling_frequency_index),
        AudioCodingMethod::Lossless => {
            let sample_rate: Option<u32> = lossless_sample_rate(
                sampling_frequency_index,
                explicit_sample_rate,
            );
            if sample_rate.is_none() {
                return Err(
                    CodecError::Unsupported("reserved lossless AATF sampling_frequency_index"),
                );
            }
            sample_rate
        },
    };
    let raw_frame_length: Option<u16> = if coding_method != AudioCodingMethod::GeneralFullRate {
        Some(reader.read_bits(16)? as u16)
    } else {
        None
    };
    let header_crc: u8 = reader.read_bits(8)? as u8;

    let mut channel_number: Option<u16> = None;
    let mut channel_number_index: Option<u8> = None;
    let mut channel_configuration: Option<ChannelConfiguration> = None;
    let mut sound_bed_type: Option<SoundBedType> = None;
    let mut object_channel_number: Option<u8> = None;
    let mut bitrate_index_per_channel: Option<u8> = None;
    let mut hoa_order: Option<u8> = None;
    let mut bitrate_index: Option<u8> = None;
    match coding_method {
        AudioCodingMethod::Lossless => {
            let compact: u8 = reader.read_bits(4)? as u8;
            channel_number = Some(
                if compact == 15 {
                    reader.read_bits(8)? as u16
                } else {
                    compact as u16
                },
            );
        },
        AudioCodingMethod::GeneralFullRate => match coding_profile {
            CodingProfile::Basic => {
                let index: u8 = reader.read_bits(7)? as u8;
                channel_number_index = Some(index);
                channel_configuration = Some(ChannelConfiguration::from_index(index));
            },
            CodingProfile::ObjectMetadata => {
                let raw_sound_bed_type: u8 = reader.read_bits(2)? as u8;
                if raw_sound_bed_type == 0 {
                    sound_bed_type = Some(SoundBedType::ObjectsOnly);
                    object_channel_number = Some(reader.read_bits(7)? as u8);
                    bitrate_index_per_channel = Some(reader.read_bits(4)? as u8);
                } else if raw_sound_bed_type == 1 {
                    sound_bed_type = Some(SoundBedType::ChannelBedAndObjects);
                    let index: u8 = reader.read_bits(7)? as u8;
                    channel_number_index = Some(index);
                    channel_configuration = Some(ChannelConfiguration::from_index(index));
                    bitrate_index = Some(reader.read_bits(4)? as u8);
                    object_channel_number = Some(reader.read_bits(7)? as u8);
                    bitrate_index_per_channel = Some(reader.read_bits(4)? as u8);
                } else {
                    return Err(CodecError::Unsupported("reserved AATF soundBedType"));
                }
            },
            CodingProfile::Hoa => {
                let order: u8 = reader.read_bits(4)? as u8;
                hoa_order = Some(order + 1);
            },
            CodingProfile::Reserved(_) => {},
        },
    }

    let resolution = QuantizationResolution::from_code(reader.read_bits(2)? as u8);
    if coding_method == AudioCodingMethod::GeneralFullRate && coding_profile
        != CodingProfile::ObjectMetadata {
        bitrate_index = Some(reader.read_bits(4)? as u8);
    }
    let frame_crc: Option<u8> = if coding_method == AudioCodingMethod::GeneralFullRate {
        Some(reader.read_bits(8)? as u8)
    } else {
        None
    };
    reader.align_byte();
    let payload_offset_bytes: usize = reader.position_bits() / 8;

    Ok(
        AatfFrameHeader {
            coding_method,
            anc_data_index,
            nn_type,
            coding_profile,
            sampling_frequency_index,
            sample_rate,
            raw_frame_length,
            header_crc,
            channel_number,
            channel_number_index,
            channel_configuration,
            sound_bed_type,
            object_channel_number,
            bitrate_index_per_channel,
            hoa_order,
            resolution,
            bitrate_index,
            frame_crc,
            payload_offset_bytes,
        },
    )
}

proof fn lemma_longer_bits(packet: Seq<u8>, more: Seq<u8>, start: int, width: nat)
    requires
        0 <= start,
        start + width <= 8 * packet.len(),
    ensures
        bits(packet + more, start, width) == bits(packet, start, width),
    decreases width,
{
    if width > 0 {
        lemma_longer_bits(packet, more, start, (width - 1) as nat);
        let last = start + width - 1;
        assert((packet + more)[last / 8] == packet[last / 8]);
    }
}

/// A header does not depend on what follows it: bytes behind a packet matter only where the packet
/// was too short.
pub proof fn longer_packets_parse_alike(packet: Seq<u8>, more: Seq<u8>)
    requires
        aatf_header(packet) != Err::<AatfFrameHeader, CodecError>(CodecError::Truncated),
    ensures
        aatf_header(packet + more) == aatf_header(packet),
{
    let longer = packet + more;
    assert(bit_capacity(longer) >= bit_capacity(packet));
    assert(bit_capacity(packet) <= 8 * packet.len());
    assert forall|start: int, width: nat|
        0 <= start && start + width <= bit_capacity(packet) implies #[trigger] bits(
        longer,
        start,
        width,
    ) == bits(packet, start, width) by {
        lemma_longer_bits(packet, more, start, width);
    }
    if bit_capacity(packet) >= 17 {
        assert(longer[2] == packet[2]);
        assert(bit_at(longer, 16) == bit_at(packet, 16));
    }
}

} // verus!
