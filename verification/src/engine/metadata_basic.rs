//! The basic description of a frame, in which each channel format is read as the pack that refers
//! to it says.

use crate::bitreader::{bit_at, lemma_span_values, BitReader};
use crate::engine::metadata::MetadataError;
use crate::engine::metadata_static::{
    content_end, content_of, gain_of, lemma_content_grows, lemma_loudness_grows, lemma_pack_grows,
    list_len, object_end, object_of, programme_loudness_at, pack_end, pack_of, parse_audio_content, parse_audio_object, parse_audio_pack,
    parse_audio_programme, parse_direct_speaker_position, parse_static_gain, programme_end,
    programme_of, read_count, speaker_of,
};
use crate::engine::metadata_syntax::{
    chain_start, code, codes, lemma_chain_grows, option_width, read_code, read_codes,
};
use crate::engine::metadata_values::{
    items_view, AudioChannelMetadata, AudioContentMetadata, AudioObjectMetadata, AudioPackMetadata,
    AudioProgrammeMetadata, BasicMetadata, BasicSyntax, ChannelSyntax, ContentSyntax,
    DirectSpeakerPosition, MetadataGain, MetadataList, ObjectSyntax, PackSyntax,
};
use crate::error::CodecError;
use vstd::prelude::*;

verus! {

/// A pack refers to the channel `index`.
pub open spec fn lists_channel(pack: PackSyntax, index: u8) -> bool {
    exists|i: int| 0 <= i < pack.channels.len() && #[trigger] pack.channels[i].channel_index == index
}

/// The last pack that refers to the channel `index`.
pub open spec fn pack_of_channel(packs: Seq<PackSyntax>, index: u8) -> Option<PackSyntax>
    decreases packs.len(),
{
    if packs.len() == 0 {
        None
    } else if lists_channel(packs.last(), index) {
        Some(packs.last())
    } else {
        pack_of_channel(packs.drop_last(), index)
    }
}

/// The channels of a pack with explicit positions are followed by theirs.
pub open spec fn has_position(pack: PackSyntax) -> bool {
    pack.type_label == 1 && pack.pack_format_id == Some(63u8)
}

/// How many matrix coefficients follow a channel of a pack.
pub open spec fn coefficient_count(pack: PackSyntax) -> int {
    if pack.type_label == 2 {
        pack.matrix_output_positions.len() as int
    } else {
        0
    }
}

/// A cut that no other error comes before.
pub open spec fn cut() -> MetadataError {
    MetadataError::Bitstream(CodecError::Truncated)
}

/// The channel format at bit `start`, and the bit behind it.
///
/// An index, a flag for a gain and the gain; then, as the last pack says that refers to the
/// channel, a position or the coefficients of a matrix.
pub open spec fn channel_at(bytes: Seq<u8>, end: int, start: int, packs: Seq<PackSyntax>) -> Result<
    (ChannelSyntax, int),
    MetadataError,
> {
    let index = code(bytes, start, 5);
    let has_gain = bit_at(bytes, start + 5);
    let at = start + 6 + option_width(has_gain, 8);
    if at > end {
        Err(cut())
    } else {
        match pack_of_channel(packs, index) {
            None => Err(MetadataError::UnmappedChannelFormat { index }),
            Some(pack) => {
                let behind = at + option_width(has_position(pack), 20) + 8 * coefficient_count(
                    pack,
                );
                if behind > end {
                    Err(cut())
                } else {
                    Ok(
                        (
                            ChannelSyntax {
                                index,
                                gain: if has_gain {
                                    Some(gain_of(bytes, start + 6))
                                } else {
                                    None
                                },
                                direct_speaker_position: if has_position(pack) {
                                    Some(speaker_of(bytes, at))
                                } else {
                                    None
                                },
                                matrix_coefficients: codes(bytes, at, coefficient_count(pack), 8),
                            },
                            behind,
                        ),
                    )
                }
            },
        }
    }
}

/// `count` channel formats from bit `start` on, and the bit behind them.
pub open spec fn channels_at(
    bytes: Seq<u8>,
    end: int,
    start: int,
    packs: Seq<PackSyntax>,
    count: int,
) -> Result<(Seq<ChannelSyntax>, int), MetadataError>
    decreases count,
{
    if count <= 0 {
        Ok((Seq::empty(), start))
    } else {
        match channel_at(bytes, end, start, packs) {
            Err(error) => Err(error),
            Ok((channel, next)) => match channels_at(bytes, end, next, packs, count - 1) {
                Err(error) => Err(error),
                Ok((rest, behind)) => Ok((seq![channel] + rest, behind)),
            },
        }
    }
}

/// Where the content behind the one at `at` starts.
pub open spec fn content_step(bytes: Seq<u8>) -> spec_fn(int) -> int {
    |at: int| content_end(bytes, at)
}

/// Where the object behind the one at `at` starts.
pub open spec fn object_step(bytes: Seq<u8>) -> spec_fn(int) -> int {
    |at: int| object_end(bytes, at)
}

/// Where the pack behind the one at `at` starts.
pub open spec fn pack_step(bytes: Seq<u8>) -> spec_fn(int) -> int {
    |at: int| pack_end(bytes, at)
}

/// The contents at bit `at`, in front of which stands their number.
pub open spec fn contents_of(bytes: Seq<u8>, at: int) -> Seq<ContentSyntax> {
    Seq::new(
        list_len(bytes, at, 2) as nat,
        |i: int| content_of(bytes, chain_start(content_step(bytes), at + 2, i)),
    )
}

/// Bit behind the contents.
pub open spec fn contents_end(bytes: Seq<u8>, at: int) -> int {
    chain_start(content_step(bytes), at + 2, list_len(bytes, at, 2))
}

/// The objects at bit `at`, in front of which stands their number.
pub open spec fn objects_of(bytes: Seq<u8>, at: int) -> Seq<ObjectSyntax> {
    Seq::new(
        list_len(bytes, at, 3) as nat,
        |i: int| object_of(bytes, chain_start(object_step(bytes), at + 3, i)),
    )
}

/// Bit behind the objects.
pub open spec fn objects_end(bytes: Seq<u8>, at: int) -> int {
    chain_start(object_step(bytes), at + 3, list_len(bytes, at, 3))
}

/// The packs at bit `at`, in front of which stands their number.
pub open spec fn packs_of(bytes: Seq<u8>, at: int) -> Seq<PackSyntax> {
    Seq::new(
        list_len(bytes, at, 3) as nat,
        |i: int| pack_of(bytes, chain_start(pack_step(bytes), at + 3, i)),
    )
}

/// Bit behind the packs.
pub open spec fn packs_end(bytes: Seq<u8>, at: int) -> int {
    chain_start(pack_step(bytes), at + 3, list_len(bytes, at, 3))
}

/// Bit at which the packs of a description stand.
pub open spec fn basic_packs_at(bytes: Seq<u8>, start: int) -> int {
    objects_end(bytes, contents_end(bytes, programme_end(bytes, start)))
}

/// Bit at which the channel formats of a description stand.
pub open spec fn basic_channels_at(bytes: Seq<u8>, start: int) -> int {
    packs_end(bytes, basic_packs_at(bytes, start))
}

/// A programme, contents, objects, packs and channel formats, and the bit behind them.
#[verifier::opaque]
pub open spec fn basic_at(bytes: Seq<u8>, end: int, start: int) -> Result<
    (BasicSyntax, int),
    MetadataError,
> {
    let contents_at = programme_end(bytes, start);
    let objects_at = contents_end(bytes, contents_at);
    let packs_at = objects_end(bytes, objects_at);
    let at = packs_end(bytes, packs_at);
    let packs = packs_of(bytes, packs_at);
    if at + 5 > end {
        Err(cut())
    } else {
        match channels_at(bytes, end, at + 5, packs, list_len(bytes, at, 5)) {
            Err(error) => Err(error),
            Ok((channels, behind)) => Ok(
                (
                    BasicSyntax {
                        programme: programme_of(bytes, start),
                        contents: contents_of(bytes, contents_at),
                        objects: objects_of(bytes, objects_at),
                        packs,
                        channels,
                    },
                    behind,
                ),
            ),
        }
    }
}

/// Chains of blocks move forward.
proof fn lemma_steps_grow(bytes: Seq<u8>)
    ensures
        forall|at: int| #[trigger] content_step(bytes)(at) >= at,
        forall|at: int| #[trigger] object_step(bytes)(at) >= at,
        forall|at: int| #[trigger] pack_step(bytes)(at) >= at,
{
    assert forall|at: int| #[trigger] content_step(bytes)(at) >= at by {
        lemma_content_grows(bytes, at);
    }
    assert forall|at: int| #[trigger] object_step(bytes)(at) >= at by {}
    assert forall|at: int| #[trigger] pack_step(bytes)(at) >= at by {
        lemma_pack_grows(bytes, at);
    }
}

/// The lists of a description follow each other.
proof fn lemma_basic_grows(bytes: Seq<u8>, start: int)
    ensures
        start <= programme_end(bytes, start),
        programme_end(bytes, start) + 2 <= contents_end(bytes, programme_end(bytes, start)),
        contents_end(bytes, programme_end(bytes, start)) + 3 <= basic_packs_at(bytes, start),
        basic_packs_at(bytes, start) + 3 <= basic_channels_at(bytes, start),
{
    lemma_steps_grow(bytes);
    lemma_loudness_grows(bytes, programme_loudness_at(bytes, start));
    let contents_at = programme_end(bytes, start);
    let objects_at = contents_end(bytes, contents_at);
    let packs_at = objects_end(bytes, objects_at);
    lemma_chain_grows(content_step(bytes), contents_at + 2, 0, list_len(bytes, contents_at, 2));
    lemma_chain_grows(object_step(bytes), objects_at + 3, 0, list_len(bytes, objects_at, 3));
    lemma_chain_grows(pack_step(bytes), packs_at + 3, 0, list_len(bytes, packs_at, 3));
}

/// Read the contents.
fn read_contents(reader: &mut BitReader<'_>) -> (result: Result<
    MetadataList<AudioContentMetadata, 4>,
    CodecError,
>)
    requires
        old(reader).well_formed(),
    ensures
        final(reader).same_source(old(reader)),
        if contents_end(old(reader).source(), old(reader).cursor()) <= old(reader).end() {
            &&& result is Ok
            &&& result->Ok_0.well_formed()
            &&& items_view(result->Ok_0@) == contents_of(old(reader).source(), old(reader).cursor())
            &&& final(reader).cursor() == contents_end(old(reader).source(), old(reader).cursor())
        } else {
            result == Err::<MetadataList<AudioContentMetadata, 4>, CodecError>(
                CodecError::Truncated,
            )
        },
{
    let ghost bytes = reader.source();
    let ghost at = reader.cursor();
    let ghost step = content_step(bytes);
    let ghost goal = contents_of(bytes, at);
    proof {
        lemma_span_values();
        lemma_steps_grow(bytes);
        lemma_chain_grows(step, at + 2, 0, list_len(bytes, at, 2));
    }
    let count: usize = read_count(reader, 2)?;
    let mut contents: MetadataList<AudioContentMetadata, 4> = MetadataList::new();
    let mut index: usize = 0;
    while index < count
        invariant
            index <= count <= 4,
            reader.same_source(old(reader)),
            bytes == old(reader).source(),
            at == old(reader).cursor(),
            step == content_step(bytes),
            forall|q: int| #[trigger] step(q) >= q,
            count == list_len(bytes, at, 2),
            goal == contents_of(bytes, at),
            reader.cursor() == chain_start(step, at + 2, index as int),
            contents@.len() == index,
            items_view(contents@) == goal.take(index as int),
        decreases count - index,
    {
        proof {
            lemma_chain_grows(step, at + 2, index as int + 1, count as int);
        }
        let content: AudioContentMetadata = parse_audio_content(reader)?;
        contents.push(content);
        index = index + 1;
        assert(items_view(contents@) =~= goal.take(index as int));
    }
    assert(goal.take(count as int) =~= goal);
    Ok(contents)
}

/// Read the objects.
fn read_objects(reader: &mut BitReader<'_>) -> (result: Result<
    MetadataList<AudioObjectMetadata, 8>,
    CodecError,
>)
    requires
        old(reader).well_formed(),
    ensures
        final(reader).same_source(old(reader)),
        if objects_end(old(reader).source(), old(reader).cursor()) <= old(reader).end() {
            &&& result is Ok
            &&& result->Ok_0.well_formed()
            &&& items_view(result->Ok_0@) == objects_of(old(reader).source(), old(reader).cursor())
            &&& final(reader).cursor() == objects_end(old(reader).source(), old(reader).cursor())
        } else {
            result == Err::<MetadataList<AudioObjectMetadata, 8>, CodecError>(CodecError::Truncated)
        },
{
    let ghost bytes = reader.source();
    let ghost at = reader.cursor();
    let ghost step = object_step(bytes);
    let ghost goal = objects_of(bytes, at);
    proof {
        lemma_span_values();
        lemma_steps_grow(bytes);
        lemma_chain_grows(step, at + 3, 0, list_len(bytes, at, 3));
    }
    let count: usize = read_count(reader, 3)?;
    let mut objects: MetadataList<AudioObjectMetadata, 8> = MetadataList::new();
    let mut index: usize = 0;
    while index < count
        invariant
            index <= count <= 8,
            reader.same_source(old(reader)),
            bytes == old(reader).source(),
            at == old(reader).cursor(),
            step == object_step(bytes),
            forall|q: int| #[trigger] step(q) >= q,
            count == list_len(bytes, at, 3),
            goal == objects_of(bytes, at),
            reader.cursor() == chain_start(step, at + 3, index as int),
            objects@.len() == index,
            items_view(objects@) == goal.take(index as int),
        decreases count - index,
    {
        proof {
            lemma_chain_grows(step, at + 3, index as int + 1, count as int);
        }
        let object: AudioObjectMetadata = parse_audio_object(reader)?;
        objects.push(object);
        index = index + 1;
        assert(items_view(objects@) =~= goal.take(index as int));
    }
    assert(goal.take(count as int) =~= goal);
    Ok(objects)
}

/// Read the packs.
fn read_packs(reader: &mut BitReader<'_>) -> (result: Result<
    MetadataList<AudioPackMetadata, 8>,
    CodecError,
>)
    requires
        old(reader).well_formed(),
    ensures
        final(reader).same_source(old(reader)),
        if packs_end(old(reader).source(), old(reader).cursor()) <= old(reader).end() {
            &&& result is Ok
            &&& result->Ok_0.well_formed()
            &&& items_view(result->Ok_0@) == packs_of(old(reader).source(), old(reader).cursor())
            &&& final(reader).cursor() == packs_end(old(reader).source(), old(reader).cursor())
        } else {
            result == Err::<MetadataList<AudioPackMetadata, 8>, CodecError>(CodecError::Truncated)
        },
{
    let ghost bytes = reader.source();
    let ghost at = reader.cursor();
    let ghost step = pack_step(bytes);
    let ghost goal = packs_of(bytes, at);
    proof {
        lemma_span_values();
        lemma_steps_grow(bytes);
        lemma_chain_grows(step, at + 3, 0, list_len(bytes, at, 3));
    }
    let count: usize = read_count(reader, 3)?;
    let mut packs: MetadataList<AudioPackMetadata, 8> = MetadataList::new();
    let mut index: usize = 0;
    while index < count
        invariant
            index <= count <= 8,
            reader.same_source(old(reader)),
            bytes == old(reader).source(),
            at == old(reader).cursor(),
            step == pack_step(bytes),
            forall|q: int| #[trigger] step(q) >= q,
            count == list_len(bytes, at, 3),
            goal == packs_of(bytes, at),
            reader.cursor() == chain_start(step, at + 3, index as int),
            packs@.len() == index,
            items_view(packs@) == goal.take(index as int),
        decreases count - index,
    {
        proof {
            lemma_chain_grows(step, at + 3, index as int + 1, count as int);
        }
        let pack: AudioPackMetadata = parse_audio_pack(reader)?;
        packs.push(pack);
        index = index + 1;
        assert(items_view(packs@) =~= goal.take(index as int));
    }
    assert(goal.take(count as int) =~= goal);
    Ok(packs)
}

/// Whether a pack refers to the channel `index`.
fn refers_to(pack: &AudioPackMetadata, index: u8) -> (listed: bool)
    ensures
        listed == lists_channel(pack@, index),
{
    let mut at: usize = 0;
    let channels = pack.channels.as_slice();
    while at < channels.len()
        invariant
            at <= channels@.len(),
            channels@ == pack.channels@,
            forall|i: int|
                0 <= i < at ==> (#[trigger] pack@.channels[i]).channel_index != index,
        decreases channels.len() - at,
    {
        if channels[at].channel_index == index {
            assert(pack@.channels[at as int].channel_index == index);
            return true;
        }
        at = at + 1;
    }
    false
}

/// The last pack that refers to the channel `index`.
fn find_pack<'a>(packs: &'a [AudioPackMetadata], index: u8) -> (found: Option<
    &'a AudioPackMetadata,
>)
    ensures
        match found {
            Some(pack) => pack_of_channel(items_view(packs@), index) == Some(pack@),
            None => pack_of_channel(items_view(packs@), index) is None,
        },
{
    let ghost all = items_view(packs@);
    let mut left: usize = packs.len();
    assert(all.take(left as int) =~= all);
    while left > 0
        invariant
            left <= packs@.len(),
            all == items_view(packs@),
            pack_of_channel(all.take(left as int), index) == pack_of_channel(all, index),
        decreases left,
    {
        assert(all.take(left as int).last() == packs@[left - 1]@);
        assert(all.take(left as int).drop_last() =~= all.take(left - 1));
        if refers_to(&packs[left - 1], index) {
            return Some(&packs[left - 1]);
        }
        left = left - 1;
    }
    None
}

/// Read a channel format.
fn parse_audio_channel(reader: &mut BitReader<'_>, packs: &[AudioPackMetadata]) -> (result: Result<
    AudioChannelMetadata,
    MetadataError,
>)
    requires
        old(reader).well_formed(),
        forall|i: int|
            0 <= i < packs@.len() ==> (#[trigger] packs@[i]).matrix_output_positions@.len() <= 32,
    ensures
        final(reader).same_source(old(reader)),
        match channel_at(
            old(reader).source(),
            old(reader).end(),
            old(reader).cursor(),
            items_view(packs@),
        ) {
            Ok((channel, behind)) => result is Ok && result->Ok_0@ == channel
                && final(reader).cursor() == behind,
            Err(error) => result == Err::<AudioChannelMetadata, MetadataError>(error),
        },
{
    let ghost bytes = reader.source();
    let ghost start = reader.cursor();
    let index: u8 = match read_code(reader, 5) {
        Ok(index) => index,
        Err(error) => return Err(MetadataError::Bitstream(error)),
    };
    let has_gain: bool = match reader.read_bit() {
        Ok(flag) => flag,
        Err(error) => return Err(MetadataError::Bitstream(error)),
    };
    let gain: Option<MetadataGain> = if has_gain {
        match parse_static_gain(reader) {
            Ok(gain) => Some(gain),
            Err(error) => return Err(MetadataError::Bitstream(error)),
        }
    } else {
        None
    };
    let pack: &AudioPackMetadata = match find_pack(packs, index) {
        Some(pack) => pack,
        None => return Err(MetadataError::UnmappedChannelFormat { index }),
    };
    let explicit: bool = match pack.pack_format_id {
        Some(id) => pack.type_label == 1 && id == 63,
        None => false,
    };
    let direct_speaker_position: Option<DirectSpeakerPosition> = if explicit {
        match parse_direct_speaker_position(reader) {
            Ok(position) => Some(position),
            Err(error) => return Err(MetadataError::Bitstream(error)),
        }
    } else {
        None
    };
    let count: usize = if pack.type_label == 2 {
        pack.matrix_output_positions.len()
    } else {
        0
    };
    proof {
        lemma_found_is_listed(items_view(packs@), index);
    }
    let matrix_coefficients: MetadataList<u8, 32> = match read_codes::<32>(reader, count, 8) {
        Ok(list) => list,
        Err(error) => return Err(MetadataError::Bitstream(error)),
    };
    let channel = AudioChannelMetadata {
        index,
        gain,
        direct_speaker_position,
        matrix_coefficients,
    };
    proof {
        if has_position(pack@) {
            assert(codes(bytes, reader.cursor(), 0, 8) =~= codes(
                bytes,
                reader.cursor() - 20,
                0,
                8,
            ));
        }
        assert(channel@ =~= channel_at(
            bytes,
            old(reader).end(),
            start,
            items_view(packs@),
        )->Ok_0.0);
    }
    Ok(channel)
}

/// The pack that is found is one of the packs.
proof fn lemma_found_is_listed(packs: Seq<PackSyntax>, index: u8)
    ensures
        pack_of_channel(packs, index) matches Some(pack) ==> exists|i: int|
            0 <= i < packs.len() && #[trigger] packs[i] == pack,
    decreases packs.len(),
{
    if packs.len() > 0 {
        if lists_channel(packs.last(), index) {
            assert(packs[packs.len() - 1] == packs.last());
        } else {
            lemma_found_is_listed(packs.drop_last(), index);
            if let Some(pack) = pack_of_channel(packs.drop_last(), index) {
                let i = choose|i: int|
                    0 <= i < packs.drop_last().len() && #[trigger] packs.drop_last()[i] == pack;
                assert(packs[i] == pack);
            }
        }
    }
}

/// Read the channel formats.
fn read_channels(reader: &mut BitReader<'_>, packs: &[AudioPackMetadata], count: usize) -> (result:
    Result<MetadataList<AudioChannelMetadata, 32>, MetadataError>)
    requires
        old(reader).well_formed(),
        count <= 32,
        forall|i: int|
            0 <= i < packs@.len() ==> (#[trigger] packs@[i]).matrix_output_positions@.len() <= 32,
    ensures
        final(reader).same_source(old(reader)),
        match channels_at(
            old(reader).source(),
            old(reader).end(),
            old(reader).cursor(),
            items_view(packs@),
            count as int,
        ) {
            Ok((channels, behind)) => {
                &&& result is Ok
                &&& result->Ok_0.well_formed()
                &&& items_view(result->Ok_0@) == channels
                &&& final(reader).cursor() == behind
            },
            Err(error) => result == Err::<MetadataList<AudioChannelMetadata, 32>, MetadataError>(
                error,
            ),
        },
{
    let ghost bytes = reader.source();
    let ghost end = reader.end();
    let ghost all = items_view(packs@);
    let ghost goal = channels_at(bytes, end, reader.cursor(), all, count as int);
    let mut channels: MetadataList<AudioChannelMetadata, 32> = MetadataList::new();
    let mut index: usize = 0;
    proof {
        if let Ok((rest, behind)) = goal {
            assert(items_view(channels@) + rest =~= rest);
        }
    }
    while index < count
        invariant
            index <= count <= 32,
            reader.same_source(old(reader)),
            bytes == old(reader).source(),
            end == old(reader).end(),
            all == items_view(packs@),
            goal == channels_at(bytes, end, old(reader).cursor(), all, count as int),
            channels@.len() == index,
            forall|i: int|
                0 <= i < packs@.len() ==> (#[trigger] packs@[i]).matrix_output_positions@.len()
                    <= 32,
            match channels_at(bytes, end, reader.cursor(), all, count - index) {
                Ok((rest, behind)) => goal == Ok::<(Seq<ChannelSyntax>, int), MetadataError>(
                    (items_view(channels@) + rest, behind),
                ),
                Err(error) => goal == Err::<(Seq<ChannelSyntax>, int), MetadataError>(error),
            },
        decreases count - index,
    {
        let ghost done = items_view(channels@);
        let ghost here = reader.cursor();
        let channel: AudioChannelMetadata = parse_audio_channel(reader, packs)?;
        proof {
            match channels_at(bytes, end, reader.cursor(), all, count - index - 1) {
                Ok((rest, behind)) => {
                    assert(done + (seq![channel@] + rest) =~= done.push(channel@) + rest);
                },
                Err(error) => {},
            }
        }
        channels.push(channel);
        index = index + 1;
        assert(items_view(channels@) =~= done.push(channel@));
    }
    assert(items_view(channels@) + Seq::<ChannelSyntax>::empty() =~= items_view(channels@));
    Ok(channels)
}

/// No pack that was read feeds more than thirty-two loudspeakers.
proof fn lemma_speaker_counts(bytes: Seq<u8>, at: int)
    ensures
        forall|i: int|
            0 <= i < packs_of(bytes, at).len() ==> (#[trigger] packs_of(
                bytes,
                at,
            )[i]).matrix_output_positions.len() <= 32,
{
    assert forall|i: int| 0 <= i < packs_of(bytes, at).len() implies (#[trigger] packs_of(
        bytes,
        at,
    )[i]).matrix_output_positions.len() <= 32 by {
        let start = chain_start(pack_step(bytes), at + 3, i);
        let matrix = crate::engine::metadata_static::pack_matrix_at(bytes, start);
        crate::engine::metadata_syntax::lemma_code(bytes, matrix, 5);
        lemma_span_values();
    }
}

/// Read the basic description.
pub fn parse_basic_l1(reader: &mut BitReader<'_>) -> (result: Result<BasicMetadata, MetadataError>)
    requires
        old(reader).well_formed(),
    ensures
        final(reader).same_source(old(reader)),
        match basic_at(old(reader).source(), old(reader).end(), old(reader).cursor()) {
            Ok((basic, behind)) => {
                &&& result is Ok
                &&& result->Ok_0@ == basic
                &&& result->Ok_0.counted()
                &&& final(reader).cursor() == behind
            },
            Err(error) => result == Err::<BasicMetadata, MetadataError>(error),
        },
{
    let ghost bytes = reader.source();
    let ghost start = reader.cursor();
    proof {
        reveal(basic_at);
        lemma_basic_grows(bytes, start);
        lemma_span_values();
    }
    let programme: AudioProgrammeMetadata = match parse_audio_programme(reader) {
        Ok(programme) => programme,
        Err(error) => return Err(MetadataError::Bitstream(error)),
    };
    let contents: MetadataList<AudioContentMetadata, 4> = match read_contents(reader) {
        Ok(contents) => contents,
        Err(error) => return Err(MetadataError::Bitstream(error)),
    };
    let objects: MetadataList<AudioObjectMetadata, 8> = match read_objects(reader) {
        Ok(objects) => objects,
        Err(error) => return Err(MetadataError::Bitstream(error)),
    };
    let ghost packs_at = reader.cursor();
    let packs: MetadataList<AudioPackMetadata, 8> = match read_packs(reader) {
        Ok(packs) => packs,
        Err(error) => return Err(MetadataError::Bitstream(error)),
    };
    let count: usize = match read_count(reader, 5) {
        Ok(count) => count,
        Err(error) => return Err(MetadataError::Bitstream(error)),
    };
    proof {
        lemma_speaker_counts(bytes, packs_at);
        assert forall|i: int| 0 <= i < packs@.len() implies (
        #[trigger] packs@[i]).matrix_output_positions@.len() <= 32 by {
            assert(items_view(packs@)[i] == packs@[i]@);
            assert(packs_of(bytes, packs_at)[i].matrix_output_positions.len() <= 32);
        }
    }
    let channels: MetadataList<AudioChannelMetadata, 32> = read_channels(
        reader,
        packs.as_slice(),
        count,
    )?;
    Ok(BasicMetadata { programme, contents, objects, packs, channels })
}

impl BasicMetadata {
    /// No list exceeds its capacity.
    pub open spec fn counted(&self) -> bool {
        &&& self.contents.well_formed()
        &&& self.objects.well_formed()
        &&& self.packs.well_formed()
        &&& self.channels.well_formed()
    }
}

/// Where a channel format ends does not depend on what follows it, and it is refused if it is cut.
proof fn lemma_channel_forward(
    bytes: Seq<u8>,
    end: int,
    other: int,
    start: int,
    packs: Seq<PackSyntax>,
)
    ensures
        channel_at(bytes, end, start, packs) matches Ok((channel, behind)) ==> {
            &&& start <= behind <= end
            &&& behind <= other ==> channel_at(bytes, other, start, packs) == channel_at(
                bytes,
                end,
                start,
                packs,
            )
            &&& other < behind ==> channel_at(bytes, other, start, packs) is Err
        },
{
}

/// The same of `count` channel formats.
proof fn lemma_channels_forward(
    bytes: Seq<u8>,
    end: int,
    other: int,
    start: int,
    packs: Seq<PackSyntax>,
    count: int,
)
    requires
        start <= end,
    ensures
        channels_at(bytes, end, start, packs, count) matches Ok((channels, behind)) ==> {
            &&& start <= behind <= end
            &&& behind <= other ==> channels_at(bytes, other, start, packs, count) == channels_at(
                bytes,
                end,
                start,
                packs,
                count,
            )
            &&& start <= other < behind ==> channels_at(bytes, other, start, packs, count) is Err
        },
    decreases count,
{
    if count > 0 {
        lemma_channel_forward(bytes, end, other, start, packs);
        if let Ok((channel, next)) = channel_at(bytes, end, start, packs) {
            lemma_channels_forward(bytes, end, other, next, packs, count - 1);
        }
    }
}

/// Where the basic description ends does not depend on what follows it, and it is refused if it
/// is cut.
pub proof fn lemma_basic_forward(bytes: Seq<u8>, end: int, other: int, start: int)
    ensures
        basic_at(bytes, end, start) matches Ok((basic, behind)) ==> {
            &&& start <= behind <= end
            &&& behind <= other ==> basic_at(bytes, other, start) == basic_at(bytes, end, start)
            &&& other < behind ==> basic_at(bytes, other, start) is Err
        },
{
    reveal(basic_at);
    lemma_basic_grows(bytes, start);
    let at = basic_channels_at(bytes, start);
    let packs = packs_of(bytes, basic_packs_at(bytes, start));
    if at + 5 <= end {
        lemma_channels_forward(bytes, end, other, at + 5, packs, list_len(bytes, at, 5));
    }
}

} // verus!
