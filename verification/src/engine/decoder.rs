//! What the decoder backends share: their configuration, their errors, and taking the metadata off
//! a frame.

use crate::config::ChannelConfiguration;
use crate::engine::header::{
    BitDepth, CodecProfile, FrameHeader, NnType, SoundBedType, MAX_PAYLOAD_BYTES,
};
use crate::engine::metadata::{
    audio_of, metadata_and_audio_share_the_payload, payload_at, MetadataError,
    MetadataPayloadParser, MetadataSummary,
};
use crate::engine::mono_core::MonoCoreDecodeError;
use crate::engine::stereo_core::StereoCoreDecodeError;
use vstd::prelude::*;

verus! {

/// The stream that a backend is to decode.
#[derive(Debug, Clone, Copy, PartialEq, Eq)]
pub struct DecoderConfig {
    pub sample_rate: u32,
    pub bitrate: u32,
    pub channels: u8,
    pub samples_per_channel: u32,
    pub bit_depth: BitDepth,
    pub profile: CodecProfile,
    pub nn_type: NnType,
    pub channel_config: Option<ChannelConfiguration>,
    pub sound_bed_type: Option<SoundBedType>,
    pub hoa_order: Option<u8>,
    pub objects: u8,
    pub bed_channels: u8,
    pub has_lfe: bool,
    pub bed_bitrate: Option<u32>,
    pub object_bitrate: Option<u32>,
}

/// Why a backend does not decode a stream or a frame.
#[derive(Debug, Clone, Copy, PartialEq, Eq)]
pub enum DecodeError {
    ChannelCount { expected: usize, actual: usize },
    SampleCount { expected: usize, actual: usize },
    UnsupportedBackend,
    Metadata(MetadataError),
    Mono(MonoCoreDecodeError),
    Stereo(StereoCoreDecodeError),
}

impl DecoderConfig {
    /// The stream is `count` channels without objects, in the given layout.
    pub open spec fn is_bed(self, layout: ChannelConfiguration, count: u8) -> bool {
        &&& self.profile == CodecProfile::ChannelBased
        &&& self.channel_config == Some(layout)
        &&& self.sound_bed_type is None
        &&& self.objects == 0
        &&& self.bed_channels == count
        &&& !self.has_lfe
        &&& self.bed_bitrate == Some(self.bitrate)
        &&& self.object_bitrate is None
    }

    /// The stream is `count` objects that share its rate, without a channel bed.
    pub open spec fn is_objects(self, count: u8) -> bool {
        &&& self.profile == CodecProfile::Mixed
        &&& self.channel_config is None
        &&& self.sound_bed_type == Some(SoundBedType::ObjectsOnly)
        &&& self.objects == count
        &&& self.bed_channels == 0
        &&& !self.has_lfe
        &&& self.bed_bitrate is None
        &&& self.object_bitrate is Some
        &&& self.object_bitrate->0 * count == self.bitrate
    }

    /// Whether the stream is `count` channels without objects, in the given layout.
    pub fn holds_bed(&self, layout: ChannelConfiguration, count: u8) -> (result: bool)
        ensures
            result == self.is_bed(layout, count),
    {
        let same_layout: bool = match self.channel_config {
            Some(actual) => actual == layout,
            None => false,
        };
        let same_rate: bool = match self.bed_bitrate {
            Some(rate) => rate == self.bitrate,
            None => false,
        };
        self.profile == CodecProfile::ChannelBased && same_layout && self.sound_bed_type.is_none()
            && self.objects == 0 && self.bed_channels == count && !self.has_lfe && same_rate
            && self.object_bitrate.is_none()
    }

    /// Whether the stream is `count` objects that share its rate, without a channel bed.
    pub fn holds_objects(&self, count: u8) -> (result: bool)
        ensures
            result == self.is_objects(count),
    {
        let alone: bool = match self.sound_bed_type {
            Some(SoundBedType::ObjectsOnly) => true,
            _ => false,
        };
        let shared: bool = match self.object_bitrate {
            Some(rate) => match rate.checked_mul(count as u32) {
                Some(total) => total == self.bitrate,
                None => false,
            },
            None => false,
        };
        self.profile == CodecProfile::Mixed && self.channel_config.is_none() && alone
            && self.objects == count && self.bed_channels == 0 && !self.has_lfe
            && self.bed_bitrate.is_none() && shared
    }
}

/// Why a backend for `count` channels in the given layout does not take a stream, if it does not.
pub open spec fn config_error(
    config: DecoderConfig,
    layout: ChannelConfiguration,
    count: u8,
) -> Option<DecodeError> {
    if config.channels != count {
        Some(
            DecodeError::ChannelCount {
                expected: count as usize,
                actual: config.channels as usize,
            },
        )
    } else if config.samples_per_channel != 1024 {
        Some(
            DecodeError::SampleCount {
                expected: 1024,
                actual: config.samples_per_channel as usize,
            },
        )
    } else if !config.is_bed(layout, count) && !config.is_objects(count) {
        Some(DecodeError::UnsupportedBackend)
    } else {
        None
    }
}

/// Check whether a backend for `count` channels in the given layout takes a stream.
pub fn check_config(config: &DecoderConfig, layout: ChannelConfiguration, count: u8) -> (result:
    Result<(), DecodeError>)
    ensures
        result == match config_error(*config, layout, count) {
            Some(error) => Err::<(), DecodeError>(error),
            None => Ok(()),
        },
{
    if config.channels != count {
        return Err(
            DecodeError::ChannelCount {
                expected: count as usize,
                actual: config.channels as usize,
            },
        );
    }
    if config.samples_per_channel != 1024 {
        return Err(
            DecodeError::SampleCount {
                expected: 1024,
                actual: config.samples_per_channel as usize,
            },
        );
    }
    if !config.holds_bed(layout, count) && !config.holds_objects(count) {
        return Err(DecodeError::UnsupportedBackend);
    }
    Ok(())
}

/// The header of a frame whose metadata was taken off.
pub open spec fn audio_header_of(header: FrameHeader, bits: int, len: int) -> FrameHeader {
    FrameHeader {
        payload_bits: bits as usize,
        payload_len: len as usize,
        frame_len: (header.header_len + len) as usize,
        ..header
    }
}

/// A frame whose metadata was taken off.
#[derive(Debug)]
pub struct StartedFrame {
    pub header: FrameHeader,
    pub audio: Vec<u8>,
    pub metadata: MetadataSummary,
}

/// Take the metadata off a frame.
pub fn start_frame(parser: &mut MetadataPayloadParser, header: &FrameHeader, payload: &[u8]) -> (
    result: Result<StartedFrame, DecodeError>)
    requires
        header.header_len + MAX_PAYLOAD_BYTES <= usize::MAX,
    ensures
        match payload_at(payload@, header.payload_bits as int, header.objects as int) {
            Err(error) => {
                &&& result is Err
                &&& result->Err_0 == DecodeError::Metadata(error)
                &&& final(parser).last() is None
            },
            Ok((metadata, consumed)) => {
                &&& result is Ok
                &&& result->Ok_0.audio@ == audio_of(
                    payload@,
                    consumed,
                    header.payload_bits as int,
                )
                &&& result->Ok_0.metadata.summarises(
                    metadata,
                    consumed,
                    header.payload_bits as int,
                )
                &&& result->Ok_0.header == audio_header_of(
                    *header,
                    header.payload_bits - consumed,
                    result->Ok_0.audio@.len() as int,
                )
                &&& final(parser).last() == Some(metadata)
            },
        },
{
    proof {
        metadata_and_audio_share_the_payload(
            payload@,
            header.payload_bits as int,
            header.objects as int,
        );
    }
    let parsed = match parser.parse_with_object_count(
        payload,
        header.payload_bits,
        header.objects as usize,
    ) {
        Ok(parsed) => parsed,
        Err(error) => return Err(DecodeError::Metadata(error)),
    };
    let metadata: MetadataSummary = parsed.summary();
    let audio: Vec<u8> = vstd::slice::slice_to_vec(parsed.audio_payload());
    let mut audio_header: FrameHeader = *header;
    audio_header.payload_bits = parsed.audio_bits();
    audio_header.payload_len = audio.len();
    audio_header.frame_len = audio_header.header_len + audio_header.payload_len;
    Ok(StartedFrame { header: audio_header, audio, metadata })
}

} // verus!
