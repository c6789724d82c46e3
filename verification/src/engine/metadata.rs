//! The metadata in front of the audio of a frame.

use crate::bitreader::{bit_at, bit_capacity, bits, lemma_span_values, span, BitReader};
use crate::engine::header::MAX_PAYLOAD_BYTES;
use crate::engine::metadata_basic::{basic_at, cut, lemma_basic_forward, parse_basic_l1};
use crate::engine::metadata_dynamic::{
    dynamic_at, lemma_dynamic_forward, parse_dynamic_metadata,
};
use crate::engine::metadata_syntax::{at_most, code, read_code};
use crate::engine::metadata_values::{
    option_view, BasicMetadata, DynamicMetadata, FrameMetadata, FrameMetadataSyntax,
    StaticMetadata, StaticSyntax, VrExtensionMetadata,
};
use crate::engine::metadata_vr::{
    extension_end, extension_of, lemma_extension_grows, parse_vr_extension_l1,
};
use crate::entropy::{range_bytes, window_byte, window_bytes};
use crate::error::CodecError;
use crate::qc::BitRange;
use crate::text::{decimal, with_number, with_two_numbers};
use vstd::prelude::*;

verus! {

/// Bits that say whether there is static and dynamic metadata.
pub const METADATA_PRESENCE_BITS: usize = 2;

/// The largest number of objects that a frame can describe.
pub const MAX_DYNAMIC_METADATA_OBJECTS: usize = 32;

/// Why metadata was refused.
#[derive(Debug, Clone, Copy, PartialEq, Eq)]
pub enum MetadataError {
    TooManyDynamicObjects { objects: usize, limit: usize },
    UnmappedChannelFormat { index: u8 },
    PayloadTooLarge { bytes: usize, limit: usize },
    Bitstream(CodecError),
}

impl MetadataError {
    /// The error in words, but for an error of the bits themselves.
    pub open spec fn words(self) -> Option<Seq<char>> {
        match self {
            MetadataError::TooManyDynamicObjects { objects, limit } => Some(
                "dynamic metadata has "@ + decimal(objects as nat) + " objects; parser limit is "@
                    + decimal(limit as nat) + ""@,
            ),
            MetadataError::UnmappedChannelFormat { index } => Some(
                "metadata channel format "@ + decimal(index as nat)
                    + " is not referenced by a pack"@,
            ),
            MetadataError::PayloadTooLarge { bytes, limit } => Some(
                "metadata-stripped payload needs "@ + decimal(bytes as nat)
                    + " bytes; workspace limit is "@ + decimal(limit as nat) + ""@,
            ),
            MetadataError::Bitstream(_) => None,
        }
    }

    /// The error in words, but for an error of the bits themselves.
    pub fn message(self) -> (text: Option<String>)
        ensures
            text is Some <==> self.words() is Some,
            text matches Some(words) ==> words@ == self.words()->0,
    {
        match self {
            MetadataError::TooManyDynamicObjects { objects, limit } => Some(
                with_two_numbers(
                    "dynamic metadata has ",
                    objects as u64,
                    " objects; parser limit is ",
                    limit as u64,
                    "",
                ),
            ),
            MetadataError::UnmappedChannelFormat { index } => Some(
                with_number(
                    "metadata channel format ",
                    index as u64,
                    " is not referenced by a pack",
                ),
            ),
            MetadataError::PayloadTooLarge { bytes, limit } => Some(
                with_two_numbers(
                    "metadata-stripped payload needs ",
                    bytes as u64,
                    " bytes; workspace limit is ",
                    limit as u64,
                    "",
                ),
            ),
            MetadataError::Bitstream(_) => None,
        }
    }
}

/// How much static metadata a frame holds.
#[derive(Debug, Clone, Copy, PartialEq, Eq)]
pub struct StaticMetadataSummary {
    pub consumed_bits: usize,
    pub basic_level: u8,
    pub contents: u8,
    pub objects: u8,
    pub packs: u8,
    pub channels: u8,
    pub vr_extension_level: Option<u8>,
}

impl StaticMetadataSummary {
    /// Bits that the static metadata takes.
    pub fn consumed_bits(self) -> (value: usize)
        ensures
            value == self.consumed_bits,
    {
        self.consumed_bits
    }

    /// Level of the basic description.
    pub fn basic_level(self) -> (value: u8)
        ensures
            value == self.basic_level,
    {
        self.basic_level
    }

    /// Number of contents.
    pub fn contents(self) -> (value: u8)
        ensures
            value == self.contents,
    {
        self.contents
    }

    /// Number of objects.
    pub fn objects(self) -> (value: u8)
        ensures
            value == self.objects,
    {
        self.objects
    }

    /// Number of packs.
    pub fn packs(self) -> (value: u8)
        ensures
            value == self.packs,
    {
        self.packs
    }

    /// Number of channel formats.
    pub fn channels(self) -> (value: u8)
        ensures
            value == self.channels,
    {
        self.channels
    }

    /// Level of the extension for virtual reality, if there is one.
    pub fn vr_extension_level(self) -> (value: Option<u8>)
        ensures
            value == self.vr_extension_level,
    {
        self.vr_extension_level
    }
}

/// How much dynamic metadata a frame holds.
#[derive(Debug, Clone, Copy, PartialEq, Eq)]
pub struct DynamicMetadataSummary {
    pub consumed_bits: usize,
    pub level: u8,
    pub objects: u8,
}

impl DynamicMetadataSummary {
    /// Bits that the dynamic metadata takes.
    pub fn consumed_bits(self) -> (value: usize)
        ensures
            value == self.consumed_bits,
    {
        self.consumed_bits
    }

    /// Level of the description.
    pub fn level(self) -> (value: u8)
        ensures
            value == self.level,
    {
        self.level
    }

    /// Number of objects.
    pub fn objects(self) -> (value: u8)
        ensures
            value == self.objects,
    {
        self.objects
    }
}

/// How a payload is divided into metadata and audio.
#[derive(Debug, Clone, Copy, PartialEq, Eq)]
pub struct MetadataSummary {
    pub static_metadata: Option<StaticMetadataSummary>,
    pub dynamic_metadata: Option<DynamicMetadataSummary>,
    pub consumed_bits: usize,
    pub audio_bits: usize,
}

impl MetadataSummary {
    /// There is static metadata.
    pub fn has_static_metadata(self) -> (present: bool)
        ensures
            present == (self.static_metadata is Some),
    {
        self.static_metadata.is_some()
    }

    /// There is dynamic metadata.
    pub fn has_dynamic_metadata(self) -> (present: bool)
        ensures
            present == (self.dynamic_metadata is Some),
    {
        self.dynamic_metadata.is_some()
    }

    /// How much static metadata there is.
    pub fn static_metadata(self) -> (value: Option<StaticMetadataSummary>)
        ensures
            value == self.static_metadata,
    {
        self.static_metadata
    }

    /// How much dynamic metadata there is.
    pub fn dynamic_metadata(self) -> (value: Option<DynamicMetadataSummary>)
        ensures
            value == self.dynamic_metadata,
    {
        self.dynamic_metadata
    }

    /// Bits in front of the audio.
    pub fn consumed_bits(self) -> (value: usize)
        ensures
            value == self.consumed_bits,
    {
        self.consumed_bits
    }

    /// Bits of audio.
    pub fn audio_bits(self) -> (value: usize)
        ensures
            value == self.audio_bits,
    {
        self.audio_bits
    }

    /// The summary tells what `metadata` says, which ends at bit `consumed` of `payload_bits`.
    pub open spec fn summarises(
        self,
        metadata: FrameMetadataSyntax,
        consumed: int,
        payload_bits: int,
    ) -> bool {
        &&& self.consumed_bits == consumed
        &&& self.audio_bits == payload_bits - consumed
        &&& match metadata.static_metadata {
            None => self.static_metadata is None,
            Some(syntax) => {
                &&& self.static_metadata matches Some(summary)
                &&& summary.consumed_bits == syntax.consumed_bits
                &&& summary.basic_level == syntax.basic_level
                &&& summary.contents == syntax.basic.contents.len()
                &&& summary.objects == syntax.basic.objects.len()
                &&& summary.packs == syntax.basic.packs.len()
                &&& summary.channels == syntax.basic.channels.len()
                &&& summary.vr_extension_level == syntax.vr_extension_level
            },
        }
        &&& match metadata.dynamic_metadata {
            None => self.dynamic_metadata is None,
            Some(syntax) => {
                &&& self.dynamic_metadata matches Some(summary)
                &&& summary.consumed_bits == syntax.consumed_bits
                &&& summary.level == syntax.level
                &&& summary.objects == syntax.objects.len()
            },
        }
    }
}

/// The static metadata at bit `start`, and the bit behind it.
///
/// A flag for the extension, the level, the basic description and the extension. Only the lowest
/// level of the extension is described.
pub open spec fn static_at(bytes: Seq<u8>, end: int, start: int) -> Result<
    (StaticSyntax, int),
    MetadataError,
> {
    if start + 4 > end {
        Err(cut())
    } else {
        match basic_at(bytes, end, start + 4) {
            Err(error) => Err(error),
            Ok((basic, at)) => {
                let has_extension = bit_at(bytes, start);
                let level = code(bytes, at, 3);
                let described = has_extension && level == 0;
                let behind = if described {
                    extension_end(bytes, at + 3)
                } else if has_extension {
                    at + 3
                } else {
                    at
                };
                if has_extension && at + 3 > end || behind > end {
                    Err(cut())
                } else {
                    Ok(
                        (
                            StaticSyntax {
                                consumed_bits: behind - start,
                                basic_level: at_most(code(bytes, start + 1, 3), 1),
                                basic,
                                vr_extension_level: if has_extension {
                                    Some(level)
                                } else {
                                    None
                                },
                                vr_extension_l1: if described {
                                    Some(extension_of(bytes, at + 3))
                                } else {
                                    None
                                },
                            },
                            behind,
                        ),
                    )
                }
            },
        }
    }
}

/// The static metadata of a frame if a flag announces it, and the bit behind it.
pub open spec fn static_option_at(bytes: Seq<u8>, end: int) -> Result<
    (Option<StaticSyntax>, int),
    MetadataError,
> {
    if 1 > end {
        Err(cut())
    } else if !bit_at(bytes, 0) {
        Ok((None, 1))
    } else {
        match static_at(bytes, end, 1) {
            Err(error) => Err(error),
            Ok((syntax, behind)) => Ok((Some(syntax), behind)),
        }
    }
}

/// The metadata of a frame with `objects` objects, and the first bit of the audio.
pub open spec fn metadata_at(bytes: Seq<u8>, end: int, objects: int) -> Result<
    (FrameMetadataSyntax, int),
    MetadataError,
> {
    match static_option_at(bytes, end) {
        Err(error) => Err(error),
        Ok((static_metadata, at)) => {
            if at + 1 > end {
                Err(cut())
            } else if !bit_at(bytes, at) {
                Ok((FrameMetadataSyntax { static_metadata, dynamic_metadata: None }, at + 1))
            } else {
                match dynamic_at(bytes, end, at + 1, objects) {
                    Err(error) => Err(error),
                    Ok((dynamic, behind)) => Ok(
                        (
                            FrameMetadataSyntax {
                                static_metadata,
                                dynamic_metadata: Some(dynamic),
                            },
                            behind,
                        ),
                    ),
                }
            }
        },
    }
}

/// Bytes that `count` bits fill.
pub open spec fn byte_count(count: int) -> int {
    (count + 7) / 8
}

/// How a payload of `payload_bits` bits is divided, or why it is refused.
pub open spec fn payload_at(bytes: Seq<u8>, payload_bits: int, objects: int) -> Result<
    (FrameMetadataSyntax, int),
    MetadataError,
> {
    if payload_bits > bit_capacity(bytes) {
        Err(cut())
    } else {
        match metadata_at(bytes, payload_bits, objects) {
            Err(error) => Err(error),
            Ok((metadata, consumed)) => {
                let needed = byte_count(payload_bits - consumed);
                if needed > MAX_PAYLOAD_BYTES {
                    Err(
                        MetadataError::PayloadTooLarge {
                            bytes: needed as usize,
                            limit: MAX_PAYLOAD_BYTES,
                        },
                    )
                } else {
                    Ok((metadata, consumed))
                }
            },
        }
    }
}

/// The bits from `consumed` to `payload_bits`, moved to the start of a byte.
pub open spec fn audio_of(bytes: Seq<u8>, consumed: int, payload_bits: int) -> Seq<u8> {
    window_bytes(
        bytes,
        BitRange {
            bit_offset: consumed as usize,
            bit_len: (payload_bits - consumed) as usize,
        },
    )
}

/// Read the static metadata.
pub fn parse_static_metadata(reader: &mut BitReader<'_>) -> (result: Result<
    StaticMetadata,
    MetadataError,
>)
    requires
        old(reader).well_formed(),
    ensures
        final(reader).same_source(old(reader)),
        match static_at(old(reader).source(), old(reader).end(), old(reader).cursor()) {
            Ok((syntax, behind)) => {
                &&& result is Ok
                &&& result->Ok_0@ == syntax
                &&& result->Ok_0.basic.counted()
                &&& final(reader).cursor() == behind
            },
            Err(error) => result == Err::<StaticMetadata, MetadataError>(error),
        },
{
    proof {
        lemma_basic_forward(reader.source(), reader.end(), reader.end(), reader.cursor() + 4);
    }
    let start: usize = reader.position_bits();
    let has_vr_extension: bool = match reader.read_bit() {
        Ok(flag) => flag,
        Err(error) => return Err(MetadataError::Bitstream(error)),
    };
    let level: u8 = match read_code(reader, 3) {
        Ok(level) => level,
        Err(error) => return Err(MetadataError::Bitstream(error)),
    };
    let basic_level: u8 = if level > 1 {
        1
    } else {
        level
    };
    let basic: BasicMetadata = parse_basic_l1(reader)?;
    proof {
        lemma_extension_grows(reader.source(), reader.cursor() + 3);
    }
    let mut vr_extension_level: Option<u8> = None;
    let mut vr_extension_l1: Option<VrExtensionMetadata> = None;
    if has_vr_extension {
        let extension_level: u8 = match read_code(reader, 3) {
            Ok(level) => level,
            Err(error) => return Err(MetadataError::Bitstream(error)),
        };
        vr_extension_level = Some(extension_level);
        if extension_level == 0 {
            match parse_vr_extension_l1(reader) {
                Ok(extension) => {
                    vr_extension_l1 = Some(extension);
                },
                Err(error) => return Err(MetadataError::Bitstream(error)),
            }
        }
    }
    let consumed_bits: usize = reader.position_bits() - start;
    Ok(StaticMetadata { consumed_bits, basic_level, basic, vr_extension_level, vr_extension_l1 })
}

/// A frame whose metadata was taken off.
#[derive(Debug)]
pub struct ParsedMetadataPayload<'parser> {
    pub(crate) summary: MetadataSummary,
    pub(crate) metadata: &'parser FrameMetadata,
    pub(crate) audio_payload: &'parser [u8],
}

impl<'parser> ParsedMetadataPayload<'parser> {
    /// How the payload was divided.
    pub closed spec fn division(&self) -> MetadataSummary {
        self.summary
    }

    /// What the metadata says.
    pub closed spec fn said(&self) -> FrameMetadataSyntax {
        self.metadata@
    }

    /// The audio that was left.
    pub closed spec fn audio(&self) -> Seq<u8> {
        self.audio_payload@
    }

    /// How the payload was divided.
    pub fn summary(&self) -> (summary: MetadataSummary)
        ensures
            summary == self.division(),
    {
        self.summary
    }

    /// The metadata.
    pub fn metadata(&self) -> (metadata: &FrameMetadata)
        ensures
            metadata@ == self.said(),
    {
        self.metadata
    }

    /// The audio, which starts at bit zero.
    pub fn audio_payload(&self) -> (audio: &[u8])
        ensures
            audio@ == self.audio(),
    {
        self.audio_payload
    }

    /// Bits of audio.
    pub fn audio_bits(&self) -> (value: usize)
        ensures
            value == self.division().audio_bits,
    {
        self.summary.audio_bits
    }
}

/// Takes the metadata off a payload and moves the audio behind it to bit zero.
#[derive(Debug, Clone)]
pub struct MetadataPayloadParser {
    audio_payload: Vec<u8>,
    metadata: Option<FrameMetadata>,
}

impl MetadataPayloadParser {
    /// What the metadata of the last payload says, if it was accepted.
    pub closed spec fn last(&self) -> Option<FrameMetadataSyntax> {
        option_view(self.metadata)
    }

    /// A parser that has seen no payload.
    pub fn new() -> (parser: Self)
        ensures
            parser.last() is None,
    {
        MetadataPayloadParser { audio_payload: Vec::new(), metadata: None }
    }

    /// The metadata of the last payload, if it was accepted.
    pub fn last_metadata(&self) -> (metadata: Option<&FrameMetadata>)
        ensures
            metadata is Some <==> self.last() is Some,
            metadata matches Some(value) ==> value@ == self.last()->0,
    {
        match &self.metadata {
            Some(value) => Some(value),
            None => None,
        }
    }

    /// Take the metadata off a payload without dynamic objects.
    pub fn parse<'parser>(&'parser mut self, payload: &[u8], payload_bits: usize) -> (result:
        Result<ParsedMetadataPayload<'parser>, MetadataError>)
        ensures
            match payload_at(payload@, payload_bits as int, 0) {
                Ok((metadata, consumed)) => {
                    &&& result is Ok
                    &&& result->Ok_0.said() == metadata
                    &&& result->Ok_0.division().summarises(metadata, consumed, payload_bits as int)
                    &&& result->Ok_0.audio() == audio_of(payload@, consumed, payload_bits as int)
                    &&& final(self).last() == Some(metadata)
                },
                Err(error) => {
                    &&& result is Err
                    &&& result->Err_0 == error
                    &&& final(self).last() is None
                },
            },
    {
        self.parse_with_object_count(payload, payload_bits, 0)
    }

    /// Take the metadata off a payload with `dynamic_objects` dynamic objects.
    pub fn parse_with_object_count<'parser>(
        &'parser mut self,
        payload: &[u8],
        payload_bits: usize,
        dynamic_objects: usize,
    ) -> (result: Result<ParsedMetadataPayload<'parser>, MetadataError>)
        ensures
            match payload_at(payload@, payload_bits as int, dynamic_objects as int) {
                Ok((metadata, consumed)) => {
                    &&& result is Ok
                    &&& result->Ok_0.said() == metadata
                    &&& result->Ok_0.division().summarises(metadata, consumed, payload_bits as int)
                    &&& result->Ok_0.audio() == audio_of(payload@, consumed, payload_bits as int)
                    &&& final(self).last() == Some(metadata)
                },
                Err(error) => {
                    &&& result is Err
                    &&& result->Err_0 == error
                    &&& final(self).last() is None
                },
            },
    {
        self.metadata = None;
        let (metadata, summary, audio) = split_payload(payload, payload_bits, dynamic_objects)?;
        self.audio_payload = audio;
        self.metadata = Some(metadata);
        match &self.metadata {
            Some(stored) => Ok(
                ParsedMetadataPayload {
                    summary,
                    metadata: stored,
                    audio_payload: self.audio_payload.as_slice(),
                },
            ),
            None => Err(MetadataError::Bitstream(CodecError::Truncated)),
        }
    }
}

impl Default for MetadataPayloadParser {
    fn default() -> (parser: Self)
        ensures
            parser.last() is None,
    {
        MetadataPayloadParser::new()
    }
}

/// Divide a payload into metadata and audio.
fn split_payload(payload: &[u8], payload_bits: usize, dynamic_objects: usize) -> (result: Result<
    (FrameMetadata, MetadataSummary, Vec<u8>),
    MetadataError,
>)
    ensures
        match payload_at(payload@, payload_bits as int, dynamic_objects as int) {
            Ok((metadata, consumed)) => {
                &&& result is Ok
                &&& (result->Ok_0).0@ == metadata
                &&& (result->Ok_0).1.summarises(metadata, consumed, payload_bits as int)
                &&& (result->Ok_0).2@ == audio_of(payload@, consumed, payload_bits as int)
            },
            Err(error) => result is Err && result->Err_0 == error,
        },
{
    proof {
        lemma_metadata_forward(
            payload@,
            payload_bits as int,
            payload_bits as int,
            dynamic_objects as int,
        );
    }
    let mut reader = match BitReader::with_bit_len(payload, payload_bits) {
        Ok(reader) => reader,
        Err(error) => return Err(MetadataError::Bitstream(error)),
    };
    let mut static_metadata: Option<StaticMetadata> = None;
    let mut static_summary: Option<StaticMetadataSummary> = None;
    let has_static_metadata: bool = match reader.read_bit() {
        Ok(flag) => flag,
        Err(error) => return Err(MetadataError::Bitstream(error)),
    };
    if has_static_metadata {
        let metadata: StaticMetadata = parse_static_metadata(&mut reader)?;
        static_summary = Some(
            StaticMetadataSummary {
                consumed_bits: metadata.consumed_bits,
                basic_level: metadata.basic_level,
                contents: metadata.basic.contents.len() as u8,
                objects: metadata.basic.objects.len() as u8,
                packs: metadata.basic.packs.len() as u8,
                channels: metadata.basic.channels.len() as u8,
                vr_extension_level: metadata.vr_extension_level,
            },
        );
        static_metadata = Some(metadata);
    }
    let mut dynamic_metadata: Option<DynamicMetadata> = None;
    let mut dynamic_summary: Option<DynamicMetadataSummary> = None;
    let has_dynamic_metadata: bool = match reader.read_bit() {
        Ok(flag) => flag,
        Err(error) => return Err(MetadataError::Bitstream(error)),
    };
    if has_dynamic_metadata {
        let metadata: DynamicMetadata = parse_dynamic_metadata(&mut reader, dynamic_objects)?;
        dynamic_summary = Some(
            DynamicMetadataSummary {
                consumed_bits: metadata.consumed_bits,
                level: metadata.level,
                objects: metadata.objects.len() as u8,
            },
        );
        dynamic_metadata = Some(metadata);
    }
    let consumed_bits: usize = reader.position_bits();
    let audio_bits: usize = reader.remaining_bits();
    let audio_bytes: usize = audio_bits / 8 + if audio_bits % 8 != 0 {
        1
    } else {
        0
    };
    assert(audio_bytes == byte_count(audio_bits as int));
    if audio_bytes > MAX_PAYLOAD_BYTES {
        return Err(
            MetadataError::PayloadTooLarge { bytes: audio_bytes, limit: MAX_PAYLOAD_BYTES },
        );
    }
    let audio: Vec<u8> = match range_bytes(
        payload,
        BitRange { bit_offset: consumed_bits, bit_len: audio_bits },
    ) {
        Ok(audio) => audio,
        Err(error) => return Err(MetadataError::Bitstream(error)),
    };
    let summary = MetadataSummary {
        static_metadata: static_summary,
        dynamic_metadata: dynamic_summary,
        consumed_bits,
        audio_bits,
    };
    Ok((FrameMetadata::new(static_metadata, dynamic_metadata), summary, audio))
}

/// Where the static metadata ends does not depend on what follows it, and it is refused if it is
/// cut.
proof fn lemma_static_forward(bytes: Seq<u8>, end: int, other: int, start: int)
    ensures
        static_at(bytes, end, start) matches Ok((syntax, behind)) ==> {
            &&& start <= behind <= end
            &&& behind <= other ==> static_at(bytes, other, start) == static_at(bytes, end, start)
            &&& other < behind ==> static_at(bytes, other, start) is Err
        },
{
    lemma_basic_forward(bytes, end, other, start + 4);
    if let Ok((basic, at)) = basic_at(bytes, end, start + 4) {
        lemma_extension_grows(bytes, at + 3);
    }
}

/// Where the metadata ends does not depend on what follows it, and it is refused if it is cut.
proof fn lemma_metadata_forward(bytes: Seq<u8>, end: int, other: int, objects: int)
    requires
        objects >= 0,
    ensures
        metadata_at(bytes, end, objects) matches Ok((metadata, consumed)) ==> {
            &&& METADATA_PRESENCE_BITS <= consumed <= end
            &&& consumed <= other ==> metadata_at(bytes, other, objects) == metadata_at(
                bytes,
                end,
                objects,
            )
            &&& other < consumed ==> metadata_at(bytes, other, objects) is Err
        },
{
    lemma_static_forward(bytes, end, other, 1);
    if let Ok((syntax, at)) = static_option_at(bytes, end) {
        lemma_dynamic_forward(bytes, end, other, at + 1, objects);
    }
}

/// The metadata and the audio together are the payload: no bit is lost and none is used twice.
pub proof fn metadata_and_audio_share_the_payload(bytes: Seq<u8>, payload_bits: int, objects: int)
    requires
        objects >= 0,
    ensures
        payload_at(bytes, payload_bits, objects) matches Ok((metadata, consumed)) ==> {
            &&& METADATA_PRESENCE_BITS <= consumed <= payload_bits
            &&& audio_of(bytes, consumed, payload_bits).len() == byte_count(payload_bits - consumed)
            &&& forall|summary: MetadataSummary|
                #[trigger] summary.summarises(metadata, consumed, payload_bits)
                    ==> summary.consumed_bits + summary.audio_bits == payload_bits
        },
{
    lemma_metadata_forward(bytes, payload_bits, payload_bits, objects);
}

/// A payload that ends inside its metadata is refused, and what follows the metadata does not
/// change what it says.
pub proof fn metadata_is_read_whole(bytes: Seq<u8>, payload_bits: int, other: int, objects: int)
    requires
        objects >= 0,
        metadata_at(bytes, payload_bits, objects) is Ok,
    ensures
        ({
            let consumed = (metadata_at(bytes, payload_bits, objects)->Ok_0).1;
            &&& other < consumed ==> payload_at(bytes, other, objects) is Err
            &&& consumed <= other ==> metadata_at(bytes, other, objects) == metadata_at(
                bytes,
                payload_bits,
                objects,
            )
        }),
{
    lemma_metadata_forward(bytes, payload_bits, other, objects);
}

/// One or zero.
spec fn bit_value(flag: bool) -> u8 {
    if flag {
        1
    } else {
        0
    }
}

/// A byte that is written bit by bit gives its bits back.
proof fn lemma_byte_of_bits(
    byte: u8,
    b0: u8,
    b1: u8,
    b2: u8,
    b3: u8,
    b4: u8,
    b5: u8,
    b6: u8,
    b7: u8,
)
    by (bit_vector)
    requires
        b0 <= 1,
        b1 <= 1,
        b2 <= 1,
        b3 <= 1,
        b4 <= 1,
        b5 <= 1,
        b6 <= 1,
        b7 <= 1,
        byte == 128 * b0 + 64 * b1 + 32 * b2 + 16 * b3 + 8 * b4 + 4 * b5 + 2 * b6 + b7,
    ensures
        (byte >> 7) & 1 == b0,
        (byte >> 6) & 1 == b1,
        (byte >> 5) & 1 == b2,
        (byte >> 4) & 1 == b3,
        (byte >> 3) & 1 == b4,
        (byte >> 2) & 1 == b5,
        (byte >> 1) & 1 == b6,
        (byte >> 0) & 1 == b7,
{
}

/// The number in the first few of eight bits.
proof fn lemma_bits_of_byte(bytes: Seq<u8>, at: int)
    ensures
        ({
            let b0 = bit_value(bit_at(bytes, at));
            let b1 = bit_value(bit_at(bytes, at + 1));
            let b2 = bit_value(bit_at(bytes, at + 2));
            let b3 = bit_value(bit_at(bytes, at + 3));
            let b4 = bit_value(bit_at(bytes, at + 4));
            let b5 = bit_value(bit_at(bytes, at + 5));
            let b6 = bit_value(bit_at(bytes, at + 6));
            let b7 = bit_value(bit_at(bytes, at + 7));
            &&& bits(bytes, at, 1) == b0
            &&& bits(bytes, at, 2) == 2 * b0 + b1
            &&& bits(bytes, at, 3) == 4 * b0 + 2 * b1 + b2
            &&& bits(bytes, at, 4) == 8 * b0 + 4 * b1 + 2 * b2 + b3
            &&& bits(bytes, at, 5) == 16 * b0 + 8 * b1 + 4 * b2 + 2 * b3 + b4
            &&& bits(bytes, at, 6) == 32 * b0 + 16 * b1 + 8 * b2 + 4 * b3 + 2 * b4 + b5
            &&& bits(bytes, at, 7) == 64 * b0 + 32 * b1 + 16 * b2 + 8 * b3 + 4 * b4 + 2 * b5 + b6
            &&& bits(bytes, at, 8) == 128 * b0 + 64 * b1 + 32 * b2 + 16 * b3 + 8 * b4 + 4 * b5 + 2
                * b6 + b7
        }),
{
    assert(bits(bytes, at, 0) == 0);
    assert(bits(bytes, at, 1) == 2 * bits(bytes, at, 0) + bit_value(bit_at(bytes, at)));
    assert(bits(bytes, at, 2) == 2 * bits(bytes, at, 1) + bit_value(bit_at(bytes, at + 1)));
    assert(bits(bytes, at, 3) == 2 * bits(bytes, at, 2) + bit_value(bit_at(bytes, at + 2)));
    assert(bits(bytes, at, 4) == 2 * bits(bytes, at, 3) + bit_value(bit_at(bytes, at + 3)));
    assert(bits(bytes, at, 5) == 2 * bits(bytes, at, 4) + bit_value(bit_at(bytes, at + 4)));
    assert(bits(bytes, at, 6) == 2 * bits(bytes, at, 5) + bit_value(bit_at(bytes, at + 5)));
    assert(bits(bytes, at, 7) == 2 * bits(bytes, at, 6) + bit_value(bit_at(bytes, at + 6)));
    assert(bits(bytes, at, 8) == 2 * bits(bytes, at, 7) + bit_value(bit_at(bytes, at + 7)));
}

/// The bits of a byte whose last bits are zero.
proof fn lemma_padded_byte(
    byte: u8,
    b0: u8,
    b1: u8,
    b2: u8,
    b3: u8,
    b4: u8,
    b5: u8,
    b6: u8,
    b7: u8,
    k: int,
)
    requires
        b0 <= 1,
        b1 <= 1,
        b2 <= 1,
        b3 <= 1,
        b4 <= 1,
        b5 <= 1,
        b6 <= 1,
        b7 <= 1,
        byte == 128 * b0 + 64 * b1 + 32 * b2 + 16 * b3 + 8 * b4 + 4 * b5 + 2 * b6 + b7,
        0 <= k < 8,
    ensures
        (byte >> ((7 - k) as u8)) & 1u8 == (if k == 0 {
            b0
        } else if k == 1 {
            b1
        } else if k == 2 {
            b2
        } else if k == 3 {
            b3
        } else if k == 4 {
            b4
        } else if k == 5 {
            b5
        } else if k == 6 {
            b6
        } else {
            b7
        }),
{
    lemma_byte_of_bits(byte, b0, b1, b2, b3, b4, b5, b6, b7);
}

/// A byte of the audio holds the bits that stood in the payload, from the most significant on.
proof fn lemma_window_byte(bytes: Seq<u8>, range: BitRange, index: int, k: int)
    requires
        0 <= k < 8,
        0 <= 8 * index,
        8 * index + k < range.bit_len,
    ensures
        ((window_byte(bytes, range, index) >> ((7 - k) as u8)) & 1u8 == 1u8) == bit_at(
            bytes,
            range.bit_offset + 8 * index + k,
        ),
{
    let at = range.bit_offset + 8 * index;
    let left = range.bit_len - 8 * index;
    let byte = window_byte(bytes, range, index);
    let b0 = bit_value(bit_at(bytes, at));
    let b1 = bit_value(bit_at(bytes, at + 1));
    let b2 = bit_value(bit_at(bytes, at + 2));
    let b3 = bit_value(bit_at(bytes, at + 3));
    let b4 = bit_value(bit_at(bytes, at + 4));
    let b5 = bit_value(bit_at(bytes, at + 5));
    let b6 = bit_value(bit_at(bytes, at + 6));
    let b7 = bit_value(bit_at(bytes, at + 7));
    lemma_span_values();
    lemma_bits_of_byte(bytes, at);
    if left >= 8 {
        lemma_padded_byte(byte, b0, b1, b2, b3, b4, b5, b6, b7, k);
    } else if left == 7 {
        assert(bits(bytes, at, 7) * span(1) == 2 * bits(bytes, at, 7)) by (nonlinear_arith)
            requires
                span(1) == 2,
        ;
        lemma_padded_byte(byte, b0, b1, b2, b3, b4, b5, b6, 0, k);
    } else if left == 6 {
        assert(bits(bytes, at, 6) * span(2) == 4 * bits(bytes, at, 6)) by (nonlinear_arith)
            requires
                span(2) == 4,
        ;
        lemma_padded_byte(byte, b0, b1, b2, b3, b4, b5, 0, 0, k);
    } else if left == 5 {
        assert(bits(bytes, at, 5) * span(3) == 8 * bits(bytes, at, 5)) by (nonlinear_arith)
            requires
                span(3) == 8,
        ;
        lemma_padded_byte(byte, b0, b1, b2, b3, b4, 0, 0, 0, k);
    } else if left == 4 {
        assert(bits(bytes, at, 4) * span(4) == 16 * bits(bytes, at, 4)) by (nonlinear_arith)
            requires
                span(4) == 16,
        ;
        lemma_padded_byte(byte, b0, b1, b2, b3, 0, 0, 0, 0, k);
    } else if left == 3 {
        assert(bits(bytes, at, 3) * span(5) == 32 * bits(bytes, at, 3)) by (nonlinear_arith)
            requires
                span(5) == 32,
        ;
        lemma_padded_byte(byte, b0, b1, b2, 0, 0, 0, 0, 0, k);
    } else if left == 2 {
        assert(bits(bytes, at, 2) * span(6) == 64 * bits(bytes, at, 2)) by (nonlinear_arith)
            requires
                span(6) == 64,
        ;
        lemma_padded_byte(byte, b0, b1, 0, 0, 0, 0, 0, 0, k);
    } else {
        assert(bits(bytes, at, 1) * span(7) == 128 * bits(bytes, at, 1)) by (nonlinear_arith)
            requires
                span(7) == 128,
        ;
        lemma_padded_byte(byte, b0, 0, 0, 0, 0, 0, 0, 0, k);
    }
}

/// The audio that is handed on holds bit for bit what stands behind the metadata.
pub proof fn audio_keeps_its_bits(bytes: Seq<u8>, payload_bits: int, objects: int, index: int)
    requires
        objects >= 0,
        payload_bits <= usize::MAX,
        payload_at(bytes, payload_bits, objects) is Ok,
        ({
            let consumed = (payload_at(bytes, payload_bits, objects)->Ok_0).1;
            0 <= index < payload_bits - consumed
        }),
    ensures
        ({
            let consumed = (payload_at(bytes, payload_bits, objects)->Ok_0).1;
            bit_at(audio_of(bytes, consumed, payload_bits), index) == bit_at(
                bytes,
                consumed + index,
            )
        }),
{
    lemma_metadata_forward(bytes, payload_bits, payload_bits, objects);
    let consumed = (payload_at(bytes, payload_bits, objects)->Ok_0).1;
    let range = BitRange {
        bit_offset: consumed as usize,
        bit_len: (payload_bits - consumed) as usize,
    };
    lemma_window_byte(bytes, range, index / 8, index % 8);
}

} // verus!
