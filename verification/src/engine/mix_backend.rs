//! The backend for frames with objects, which hands them to the backend for as many channels.

use crate::config::ChannelConfiguration;
use crate::engine::decoder::{
    audio_header_of, config_error, DecodeError, DecoderConfig, StartedFrame,
};
use crate::engine::header::{CodecProfile, FrameHeader, SoundBedType, MAX_PAYLOAD_BYTES};
use crate::engine::metadata::{audio_of, payload_at, MetadataSummary};
use crate::engine::metadata_values::{FrameMetadata, FrameMetadataSyntax};
use crate::engine::model::AVS3_FEATURE_DIMENSIONS;
use crate::engine::mono_backend::MonoDecoderBackend;
use crate::engine::random::{initial_seed, Avs3Random};
use crate::engine::stereo_backend::StereoDecoderBackend;
use crate::engine::stereo_core::STEREO_FRAME_SAMPLES;
use crate::engine::stereo_side::StereoSideInfoDecoder;
use vstd::prelude::*;

verus! {

/// The backend that decodes a stream with objects.
#[derive(Debug, Clone, Copy, PartialEq, Eq, Structural)]
pub enum MixCoreKind {
    Mono,
    Stereo,
    Multichannel,
}

/// The backend for a stream: one for a single object, one for two, and the multichannel one for
/// more objects or for any channel bed.
pub open spec fn kind_of(config: DecoderConfig) -> Result<MixCoreKind, DecodeError> {
    if config.profile != CodecProfile::Mixed {
        Err(DecodeError::UnsupportedBackend)
    } else {
        match config.sound_bed_type {
            None => Err(DecodeError::UnsupportedBackend),
            Some(SoundBedType::ChannelBed) => Ok(MixCoreKind::Multichannel),
            Some(SoundBedType::ObjectsOnly) => if config.objects == 1 {
                Ok(MixCoreKind::Mono)
            } else if config.objects == 2 {
                Ok(MixCoreKind::Stereo)
            } else {
                Ok(MixCoreKind::Multichannel)
            },
        }
    }
}

/// The backend for a stream, or why that backend does not take it. What the multichannel one says
/// of the stream is `multichannel`.
pub open spec fn selection(
    config: DecoderConfig,
    multichannel: Result<(), DecodeError>,
) -> Result<MixCoreKind, DecodeError> {
    match kind_of(config) {
        Err(error) => Err(error),
        Ok(MixCoreKind::Mono) => match config_error(config, ChannelConfiguration::Mono, 1) {
            Some(error) => Err(error),
            None => Ok(MixCoreKind::Mono),
        },
        Ok(MixCoreKind::Stereo) => match config_error(config, ChannelConfiguration::Stereo, 2) {
            Some(error) => Err(error),
            None => Ok(MixCoreKind::Stereo),
        },
        Ok(MixCoreKind::Multichannel) => match multichannel {
            Err(error) => Err(error),
            Ok(_) => Ok(MixCoreKind::Multichannel),
        },
    }
}

/// Choose the backend for a stream.
pub fn select_core(config: &DecoderConfig) -> (result: Result<MixCoreKind, DecodeError>)
    ensures
        result == kind_of(*config),
{
    if config.profile != CodecProfile::Mixed {
        return Err(DecodeError::UnsupportedBackend);
    }
    match config.sound_bed_type {
        None => Err(DecodeError::UnsupportedBackend),
        Some(SoundBedType::ChannelBed) => Ok(MixCoreKind::Multichannel),
        Some(SoundBedType::ObjectsOnly) => if config.objects == 1 {
            Ok(MixCoreKind::Mono)
        } else if config.objects == 2 {
            Ok(MixCoreKind::Stereo)
        } else {
            Ok(MixCoreKind::Multichannel)
        },
    }
}

/// What is returned when a frame of so many samples is started by a backend for one or two objects.
pub open spec fn started_or_refused(
    result: Result<Option<StartedFrame>, DecodeError>,
    configured: bool,
    samples: usize,
    output_len: usize,
    header: FrameHeader,
    payload: Seq<u8>,
) -> bool {
    if output_len != samples {
        &&& result is Err
        &&& result->Err_0 == (DecodeError::SampleCount { expected: samples, actual: output_len })
    } else if !configured {
        &&& result is Err
        &&& result->Err_0 == DecodeError::UnsupportedBackend
    } else {
        match payload_at(payload, header.payload_bits as int, header.objects as int) {
            Err(error) => {
                &&& result is Err
                &&& result->Err_0 == DecodeError::Metadata(error)
            },
            Ok((metadata, consumed)) => {
                &&& result is Ok
                &&& result->Ok_0 matches Some(started)
                &&& started.audio@ == audio_of(payload, consumed, header.payload_bits as int)
                &&& started.metadata.summarises(metadata, consumed, header.payload_bits as int)
                &&& started.header == audio_header_of(
                    header,
                    header.payload_bits - consumed,
                    started.audio@.len() as int,
                )
            },
        }
    }
}

/// What the metadata of a payload says, if it can be read.
pub open spec fn metadata_of(header: FrameHeader, payload: Seq<u8>) -> Option<FrameMetadataSyntax> {
    match payload_at(payload, header.payload_bits as int, header.objects as int) {
        Err(_) => None,
        Ok((metadata, _)) => Some(metadata),
    }
}

/// The backends for streams with objects, and which of them is in use.
#[derive(Debug)]
pub struct MixDecoderBackend {
    kind: Option<MixCoreKind>,
    mono: MonoDecoderBackend,
    stereo: StereoDecoderBackend,
}

impl MixDecoderBackend {
    /// Which backend is in use.
    pub closed spec fn in_use(&self) -> Option<MixCoreKind> {
        self.kind
    }

    /// The backend for one object.
    pub closed spec fn mono(&self) -> MonoDecoderBackend {
        self.mono
    }

    /// The backend for two objects.
    pub closed spec fn stereo(&self) -> StereoDecoderBackend {
        self.stereo
    }

    /// A backend without a stream.
    pub fn new(side_information: StereoSideInfoDecoder) -> (backend: Self)
        ensures
            backend.in_use() is None,
            backend.mono().configuration() is None,
            backend.mono().noise() == initial_seed(),
            backend.mono().summary() is None,
            backend.mono().started() is None,
            backend.stereo().configuration() is None,
            backend.stereo().parser() == side_information,
            backend.stereo().noise() == initial_seed(),
            backend.stereo().summary() is None,
            backend.stereo().started() is None,
    {
        MixDecoderBackend {
            kind: None,
            mono: MonoDecoderBackend::new(),
            stereo: StereoDecoderBackend::new(side_information),
        }
    }

    /// Which backend is in use.
    pub fn core_kind(&self) -> (kind: Option<MixCoreKind>)
        ensures
            kind == self.in_use(),
    {
        self.kind
    }

    /// The backend for one object, if it is in use.
    pub fn mono_backend(&self) -> (backend: Option<&MonoDecoderBackend>)
        ensures
            backend is Some <==> self.in_use() == Some(MixCoreKind::Mono),
            backend matches Some(value) ==> *value == self.mono(),
    {
        match self.kind {
            Some(MixCoreKind::Mono) => Some(&self.mono),
            _ => None,
        }
    }

    /// The backend for two objects, if it is in use.
    pub fn stereo_backend(&self) -> (backend: Option<&StereoDecoderBackend>)
        ensures
            backend is Some <==> self.in_use() == Some(MixCoreKind::Stereo),
            backend matches Some(value) ==> *value == self.stereo(),
    {
        match self.kind {
            Some(MixCoreKind::Stereo) => Some(&self.stereo),
            _ => None,
        }
    }

    /// Accept a stream with objects, and start its backend anew.
    ///
    /// What the multichannel backend says of the stream is `multichannel`; it matters only where
    /// [`select_core`] chooses that backend. A stream that its backend refuses leaves everything as
    /// it was.
    pub fn configure(
        &mut self,
        config: DecoderConfig,
        multichannel: Result<(), DecodeError>,
    ) -> (result: Result<MixCoreKind, DecodeError>)
        ensures
            result == selection(config, multichannel),
            match selection(config, multichannel) {
                Err(_) => *final(self) == *old(self),
                Ok(kind) => {
                    &&& final(self).in_use() == Some(kind)
                    &&& kind == MixCoreKind::Mono ==> {
                        &&& final(self).mono().configuration() == Some(config)
                        &&& final(self).mono().noise() == initial_seed()
                        &&& final(self).mono().summary() is None
                    }
                    &&& kind == MixCoreKind::Stereo ==> {
                        &&& final(self).stereo().configuration() == Some(config)
                        &&& final(self).stereo().noise() == initial_seed()
                        &&& final(self).stereo().parser() == old(self).stereo().parser()
                        &&& final(self).stereo().summary() is None
                    }
                    &&& kind != MixCoreKind::Mono ==> final(self).mono() == old(self).mono()
                    &&& kind != MixCoreKind::Stereo ==> final(self).stereo() == old(self).stereo()
                },
            },
    {
        let kind: MixCoreKind = select_core(&config)?;
        match kind {
            MixCoreKind::Mono => {
                self.mono.configure(config)?;
            },
            MixCoreKind::Stereo => {
                self.stereo.configure(config)?;
            },
            MixCoreKind::Multichannel => {
                multichannel?;
            },
        }
        self.kind = Some(kind);
        Ok(kind)
    }

    /// Start a frame with the backend in use. The multichannel one starts its frames itself.
    pub fn begin_frame(&mut self, header: &FrameHeader, payload: &[u8], output_len: usize) -> (
        result: Result<Option<StartedFrame>, DecodeError>)
        requires
            header.header_len + MAX_PAYLOAD_BYTES <= usize::MAX,
        ensures
            final(self).in_use() == old(self).in_use(),
            match old(self).in_use() {
                None => {
                    &&& result is Err
                    &&& result->Err_0 == DecodeError::UnsupportedBackend
                    &&& *final(self) == *old(self)
                },
                Some(MixCoreKind::Mono) => {
                    let backend = old(self).mono();
                    &&& started_or_refused(
                        result,
                        backend.configuration() is Some,
                        AVS3_FEATURE_DIMENSIONS,
                        output_len,
                        *header,
                        payload@,
                    )
                    &&& final(self).mono().configuration() == backend.configuration()
                    &&& final(self).mono().noise() == backend.noise()
                    &&& if output_len == AVS3_FEATURE_DIMENSIONS && backend.configuration() is Some {
                        &&& final(self).mono().summary() is None
                        &&& final(self).mono().started() == metadata_of(*header, payload@)
                    } else {
                        final(self).mono() == backend
                    }
                    &&& final(self).stereo() == old(self).stereo()
                },
                Some(MixCoreKind::Stereo) => {
                    let backend = old(self).stereo();
                    &&& started_or_refused(
                        result,
                        backend.configuration() is Some,
                        STEREO_FRAME_SAMPLES,
                        output_len,
                        *header,
                        payload@,
                    )
                    &&& final(self).stereo().configuration() == backend.configuration()
                    &&& final(self).stereo().parser() == backend.parser()
                    &&& final(self).stereo().noise() == backend.noise()
                    &&& if output_len == STEREO_FRAME_SAMPLES && backend.configuration() is Some {
                        &&& final(self).stereo().summary() is None
                        &&& final(self).stereo().started() == metadata_of(*header, payload@)
                    } else {
                        final(self).stereo() == backend
                    }
                    &&& final(self).mono() == old(self).mono()
                },
                Some(MixCoreKind::Multichannel) => {
                    &&& result is Ok
                    &&& result->Ok_0 is None
                    &&& *final(self) == *old(self)
                },
            },
    {
        match self.kind {
            None => Err(DecodeError::UnsupportedBackend),
            Some(MixCoreKind::Mono) => match self.mono.begin_frame(header, payload, output_len) {
                Ok(started) => Ok(Some(started)),
                Err(error) => Err(error),
            },
            Some(MixCoreKind::Stereo) => match self.stereo.begin_frame(
                header,
                payload,
                output_len,
            ) {
                Ok(started) => Ok(Some(started)),
                Err(error) => Err(error),
            },
            Some(MixCoreKind::Multichannel) => Ok(None),
        }
    }

    /// Finish a frame that the core of the backend in use has decoded.
    pub fn finish_frame(&mut self, random: Avs3Random, metadata: MetadataSummary)
        ensures
            final(self).in_use() == old(self).in_use(),
            match old(self).in_use() {
                Some(MixCoreKind::Mono) => {
                    &&& final(self).mono().configuration() == old(self).mono().configuration()
                    &&& final(self).mono().started() == old(self).mono().started()
                    &&& final(self).mono().noise() == random.state()
                    &&& final(self).mono().summary() == Some(metadata)
                    &&& final(self).stereo() == old(self).stereo()
                },
                Some(MixCoreKind::Stereo) => {
                    &&& final(self).stereo().configuration() == old(self).stereo().configuration()
                    &&& final(self).stereo().parser() == old(self).stereo().parser()
                    &&& final(self).stereo().started() == old(self).stereo().started()
                    &&& final(self).stereo().noise() == random.state()
                    &&& final(self).stereo().summary() == Some(metadata)
                    &&& final(self).mono() == old(self).mono()
                },
                _ => *final(self) == *old(self),
            },
    {
        match self.kind {
            Some(MixCoreKind::Mono) => self.mono.finish_frame(random, metadata),
            Some(MixCoreKind::Stereo) => self.stereo.finish_frame(random, metadata),
            _ => {},
        }
    }

    /// How the last frame that was decoded is divided, given what the multichannel backend says of
    /// its own.
    pub fn last_metadata(&self, multichannel: Option<MetadataSummary>) -> (summary: Option<
        MetadataSummary,
    >)
        ensures
            summary == match self.in_use() {
                None => None::<MetadataSummary>,
                Some(MixCoreKind::Mono) => self.mono().summary(),
                Some(MixCoreKind::Stereo) => self.stereo().summary(),
                Some(MixCoreKind::Multichannel) => multichannel,
            },
    {
        match self.kind {
            None => None,
            Some(MixCoreKind::Mono) => self.mono.last_metadata(),
            Some(MixCoreKind::Stereo) => self.stereo.last_metadata(),
            Some(MixCoreKind::Multichannel) => multichannel,
        }
    }

    /// The metadata of the last frame that was decoded by the backend for one or two objects.
    pub fn last_metadata_values(&self) -> (metadata: Option<&FrameMetadata>)
        ensures
            metadata is Some <==> match self.in_use() {
                Some(MixCoreKind::Mono) => self.mono().summary() is Some && self.mono().started()
                    is Some,
                Some(MixCoreKind::Stereo) => self.stereo().summary() is Some
                    && self.stereo().started() is Some,
                _ => false,
            },
            metadata matches Some(value) ==> value@ == if self.in_use() == Some(
                MixCoreKind::Mono,
            ) {
                self.mono().started()->0
            } else {
                self.stereo().started()->0
            },
    {
        match self.kind {
            Some(MixCoreKind::Mono) => self.mono.last_metadata_values(),
            Some(MixCoreKind::Stereo) => self.stereo.last_metadata_values(),
            _ => None,
        }
    }
}

} // verus!
