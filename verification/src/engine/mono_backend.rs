//! The backend for frames of one channel or one object.

use crate::config::ChannelConfiguration;
use crate::engine::decoder::{
    audio_header_of, check_config, config_error, start_frame, DecodeError, DecoderConfig,
    StartedFrame,
};
use crate::engine::header::{FrameHeader, MAX_PAYLOAD_BYTES};
use crate::engine::metadata::{audio_of, payload_at, MetadataPayloadParser, MetadataSummary};
use crate::engine::metadata_values::{FrameMetadata, FrameMetadataSyntax};
use crate::engine::model::AVS3_FEATURE_DIMENSIONS;
use crate::engine::mono_core::MonoCoreDecoder;
use crate::engine::random::{initial_seed, Avs3Random};
use vstd::prelude::*;

verus! {

/// What a mono decoder remembers between frames, but for the overlap of its transform.
#[derive(Debug)]
pub struct MonoDecoderBackend {
    core: MonoCoreDecoder,
    metadata: MetadataPayloadParser,
    configured: Option<DecoderConfig>,
    last_metadata: Option<MetadataSummary>,
}

impl MonoDecoderBackend {
    /// The stream that is decoded, if one was accepted.
    pub closed spec fn configuration(&self) -> Option<DecoderConfig> {
        self.configured
    }

    /// The state of the noise stream.
    pub closed spec fn noise(&self) -> int {
        self.core.noise()
    }

    /// How the last frame that was decoded is divided.
    pub closed spec fn summary(&self) -> Option<MetadataSummary> {
        self.last_metadata
    }

    /// What the metadata of the last frame that was started says.
    pub closed spec fn started(&self) -> Option<FrameMetadataSyntax> {
        self.metadata.last()
    }

    /// A backend without a stream.
    pub fn new() -> (backend: Self)
        ensures
            backend.configuration() is None,
            backend.noise() == initial_seed(),
            backend.summary() is None,
            backend.started() is None,
    {
        MonoDecoderBackend {
            core: MonoCoreDecoder::new(),
            metadata: MetadataPayloadParser::new(),
            configured: None,
            last_metadata: None,
        }
    }

    /// The core.
    pub fn core_decoder(&self) -> (decoder: &MonoCoreDecoder)
        ensures
            decoder.noise() == self.noise(),
    {
        &self.core
    }

    /// The core, to decode with it.
    pub fn core_decoder_mut(&mut self) -> (decoder: &mut MonoCoreDecoder)
        ensures
            decoder.noise() == old(self).noise(),
            final(self).noise() == final(decoder).noise(),
            final(self).configuration() == old(self).configuration(),
            final(self).summary() == old(self).summary(),
            final(self).started() == old(self).started(),
    {
        &mut self.core
    }

    /// How the last frame that was decoded is divided.
    pub fn last_metadata(&self) -> (summary: Option<MetadataSummary>)
        ensures
            summary == self.summary(),
    {
        self.last_metadata
    }

    /// The metadata of the last frame that was decoded.
    pub fn last_metadata_values(&self) -> (metadata: Option<&FrameMetadata>)
        ensures
            metadata is Some <==> self.summary() is Some && self.started() is Some,
            metadata matches Some(value) ==> value@ == self.started()->0,
    {
        if self.last_metadata.is_none() {
            return None;
        }
        self.metadata.last_metadata()
    }

    /// Accept a stream of one channel or one object, and start it anew.
    pub fn configure(&mut self, config: DecoderConfig) -> (result: Result<(), DecodeError>)
        ensures
            match config_error(config, ChannelConfiguration::Mono, 1) {
                Some(error) => {
                    &&& result == Err::<(), DecodeError>(error)
                    &&& *final(self) == *old(self)
                },
                None => {
                    &&& result is Ok
                    &&& final(self).configuration() == Some(config)
                    &&& final(self).noise() == initial_seed()
                    &&& final(self).summary() is None
                    &&& final(self).started() == old(self).started()
                },
            },
    {
        check_config(&config, ChannelConfiguration::Mono, 1)?;
        self.core.reset();
        self.last_metadata = None;
        self.configured = Some(config);
        Ok(())
    }

    /// Start a frame: check the room for its samples and take its metadata off.
    pub fn begin_frame(&mut self, header: &FrameHeader, payload: &[u8], output_len: usize) -> (
        result: Result<StartedFrame, DecodeError>)
        requires
            header.header_len + MAX_PAYLOAD_BYTES <= usize::MAX,
        ensures
            final(self).configuration() == old(self).configuration(),
            final(self).noise() == old(self).noise(),
            if output_len != AVS3_FEATURE_DIMENSIONS {
                &&& result is Err
                &&& result->Err_0 == (DecodeError::SampleCount {
                    expected: AVS3_FEATURE_DIMENSIONS,
                    actual: output_len,
                })
                &&& *final(self) == *old(self)
            } else if old(self).configuration() is None {
                &&& result is Err
                &&& result->Err_0 == DecodeError::UnsupportedBackend
                &&& *final(self) == *old(self)
            } else {
                &&& final(self).summary() is None
                &&& match payload_at(payload@, header.payload_bits as int, header.objects as int) {
                    Err(error) => {
                        &&& result is Err
                        &&& result->Err_0 == DecodeError::Metadata(error)
                        &&& final(self).started() is None
                    },
                    Ok((metadata, consumed)) => {
                        &&& result is Ok
                        &&& result->Ok_0.audio@ == audio_of(
                            payload@,
                            consumed,
                            header.payload_bits as int,
                        )
                        &&& result->Ok_0.metadata.summarises(
                            metadata,
                            consumed,
                            header.payload_bits as int,
                        )
                        &&& result->Ok_0.header == audio_header_of(
                            *header,
                            header.payload_bits - consumed,
                            result->Ok_0.audio@.len() as int,
                        )
                        &&& final(self).started() == Some(metadata)
                    },
                }
            },
    {
        if output_len != AVS3_FEATURE_DIMENSIONS {
            return Err(
                DecodeError::SampleCount { expected: AVS3_FEATURE_DIMENSIONS, actual: output_len },
            );
        }
        if self.configured.is_none() {
            return Err(DecodeError::UnsupportedBackend);
        }
        self.last_metadata = None;
        start_frame(&mut self.metadata, header, payload)
    }

    /// Finish a frame that the core has decoded: keep its noise stream and its metadata.
    pub fn finish_frame(&mut self, random: Avs3Random, metadata: MetadataSummary)
        ensures
            final(self).configuration() == old(self).configuration(),
            final(self).started() == old(self).started(),
            final(self).noise() == random.state(),
            final(self).summary() == Some(metadata),
    {
        self.core.commit(random);
        self.last_metadata = Some(metadata);
    }
}

} // verus!
