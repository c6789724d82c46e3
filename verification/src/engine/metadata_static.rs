//! The description of programmes, contents, objects, packs and channels.

use crate::bitreader::{bit_at, lemma_span_values, BitReader};
use crate::engine::metadata_syntax::{
    at_most, block_read, block_viewed, chain_start, code, codes, lemma_chain_grows, option_code,
    option_width, read_code, read_codes, read_option,
};
use crate::engine::metadata_values::{
    items_view, AudioContentMetadata, AudioObjectInteractionMetadata, AudioObjectMetadata,
    AudioPackMetadata, AudioProgrammeMetadata, ComplementaryObjectGroup, DialogueMetadata,
    DirectSpeakerPosition, GainInteractionMetadata, HoaPackMetadata, LoudnessMetadata, MetadataGain,
    MetadataGainUnit, MetadataList, PackChannelReference, PositionInteractionMetadata,
    ProgrammeReferenceScreen, ProgrammeScreenPosition, ContentSyntax, ObjectSyntax, PackSyntax,
    ProgrammeSyntax,
};
use crate::error::CodecError;
use vstd::prelude::*;

verus! {

/// Bit at which the field behind `fields` optional loudness codes starts.
pub open spec fn loudness_field(bytes: Seq<u8>, start: int, fields: int) -> int
    decreases fields,
{
    if fields <= 0 {
        start + 6
    } else {
        loudness_field(bytes, start, fields - 1) + option_width(
            bit_at(bytes, start + fields - 1),
            5,
        )
    }
}

/// One of the six optional loudness codes.
pub open spec fn loudness_code(bytes: Seq<u8>, start: int, field: int) -> Option<u8> {
    option_code(bytes, loudness_field(bytes, start, field), 5, bit_at(bytes, start + field))
}

/// Six flags, then a code for each that is set.
pub open spec fn loudness_of(bytes: Seq<u8>, start: int) -> LoudnessMetadata {
    LoudnessMetadata {
        integrated_loudness: loudness_code(bytes, start, 0),
        loudness_range: loudness_code(bytes, start, 1),
        max_true_peak: loudness_code(bytes, start, 2),
        max_momentary: loudness_code(bytes, start, 3),
        max_short_term: loudness_code(bytes, start, 4),
        dialogue_loudness: loudness_code(bytes, start, 5),
    }
}

/// Bit behind a loudness block.
pub open spec fn loudness_end(bytes: Seq<u8>, start: int) -> int {
    loudness_field(bytes, start, 6)
}

/// Read a loudness block.
pub fn parse_loudness(reader: &mut BitReader<'_>) -> (result: Result<LoudnessMetadata, CodecError>)
    requires
        old(reader).well_formed(),
    ensures
        final(reader).same_source(old(reader)),
        block_read(
            old(reader),
            final(reader),
            result,
            loudness_of(old(reader).source(), old(reader).cursor()),
            loudness_end(old(reader).source(), old(reader).cursor()),
        ),
        loudness_end(old(reader).source(), old(reader).cursor()) >= old(reader).cursor(),
{
    proof {
        reveal_with_fuel(loudness_field, 7);
    }
    let has_integrated_loudness: bool = reader.read_bit()?;
    let has_loudness_range: bool = reader.read_bit()?;
    let has_max_true_peak: bool = reader.read_bit()?;
    let has_max_momentary: bool = reader.read_bit()?;
    let has_max_short_term: bool = reader.read_bit()?;
    let has_dialogue_loudness: bool = reader.read_bit()?;
    let integrated_loudness: Option<u8> = read_option(reader, has_integrated_loudness, 5)?;
    let loudness_range: Option<u8> = read_option(reader, has_loudness_range, 5)?;
    let max_true_peak: Option<u8> = read_option(reader, has_max_true_peak, 5)?;
    let max_momentary: Option<u8> = read_option(reader, has_max_momentary, 5)?;
    let max_short_term: Option<u8> = read_option(reader, has_max_short_term, 5)?;
    let dialogue_loudness: Option<u8> = read_option(reader, has_dialogue_loudness, 5)?;
    Ok(
        LoudnessMetadata {
            integrated_loudness,
            loudness_range,
            max_true_peak,
            max_momentary,
            max_short_term,
            dialogue_loudness,
        },
    )
}

/// A flag for the coordinates, the aspect ratio, three coordinates and a width.
pub open spec fn screen_of(bytes: Seq<u8>, start: int) -> ProgrammeReferenceScreen {
    ProgrammeReferenceScreen {
        aspect_ratio: code(bytes, start + 1, 3),
        position: if bit_at(bytes, start) {
            ProgrammeScreenPosition::Cartesian {
                x: code(bytes, start + 4, 8),
                y: code(bytes, start + 12, 6),
                z: code(bytes, start + 18, 4),
                width: code(bytes, start + 22, 7),
            }
        } else {
            ProgrammeScreenPosition::Polar {
                azimuth: code(bytes, start + 4, 8),
                elevation: code(bytes, start + 12, 6),
                distance: code(bytes, start + 18, 4),
                width: code(bytes, start + 22, 7),
            }
        },
    }
}

/// Read a reference screen.
pub fn parse_programme_reference_screen(reader: &mut BitReader<'_>) -> (result: Result<
    ProgrammeReferenceScreen,
    CodecError,
>)
    requires
        old(reader).well_formed(),
    ensures
        final(reader).same_source(old(reader)),
        block_read(
            old(reader),
            final(reader),
            result,
            screen_of(old(reader).source(), old(reader).cursor()),
            old(reader).cursor() + 29,
        ),
{
    let cartesian: bool = reader.read_bit()?;
    let aspect_ratio: u8 = read_code(reader, 3)?;
    let first: u8 = read_code(reader, 8)?;
    let second: u8 = read_code(reader, 6)?;
    let third: u8 = read_code(reader, 4)?;
    let width: u8 = read_code(reader, 7)?;
    let position: ProgrammeScreenPosition = if cartesian {
        ProgrammeScreenPosition::Cartesian { x: first, y: second, z: third, width }
    } else {
        ProgrammeScreenPosition::Polar {
            azimuth: first,
            elevation: second,
            distance: third,
            width,
        }
    };
    Ok(ProgrammeReferenceScreen { aspect_ratio, position })
}

/// Two bits for the attribute, three for the type.
pub open spec fn dialogue_of(bytes: Seq<u8>, start: int) -> DialogueMetadata {
    DialogueMetadata {
        attribute: code(bytes, start, 2),
        dialogue_type: code(bytes, start + 2, 3),
    }
}

/// Read a dialogue block.
pub fn parse_dialogue(reader: &mut BitReader<'_>) -> (result: Result<DialogueMetadata, CodecError>)
    requires
        old(reader).well_formed(),
    ensures
        final(reader).same_source(old(reader)),
        block_read(
            old(reader),
            final(reader),
            result,
            dialogue_of(old(reader).source(), old(reader).cursor()),
            old(reader).cursor() + 5,
        ),
{
    let attribute: u8 = read_code(reader, 2)?;
    let dialogue_type: u8 = read_code(reader, 3)?;
    Ok(DialogueMetadata { attribute, dialogue_type })
}

/// A loudness block takes six bits or more.
pub proof fn lemma_loudness_grows(bytes: Seq<u8>, start: int)
    ensures
        loudness_end(bytes, start) >= start + 6,
{
    reveal_with_fuel(loudness_field, 7);
}

/// Read the length of a list, which is written as one less.
pub fn read_count(reader: &mut BitReader<'_>, width: u8) -> (result: Result<usize, CodecError>)
    requires
        old(reader).well_formed(),
        width <= 8,
    ensures
        final(reader).same_source(old(reader)),
        if old(reader).cursor() + width <= old(reader).end() {
            &&& result is Ok
            &&& result->Ok_0 == list_len(old(reader).source(), old(reader).cursor(), width as int)
            &&& 1 <= result->Ok_0 <= crate::bitreader::span(width as nat)
            &&& final(reader).cursor() == old(reader).cursor() + width
        } else {
            result == Err::<usize, CodecError>(CodecError::Truncated)
        },
{
    let value: u8 = read_code(reader, width)?;
    Ok(value as usize + 1)
}

/// Length of a list, which is written as one less in `width` bits.
pub open spec fn list_len(bytes: Seq<u8>, at: int, width: int) -> int {
    code(bytes, at, width) + 1
}

/// Bit behind a list of codes of `width` bits, whose length takes `head` bits.
pub open spec fn list_end(bytes: Seq<u8>, at: int, head: int, width: int) -> int {
    at + head + list_len(bytes, at, head) * width
}

/// The codes of such a list.
pub open spec fn list_of(bytes: Seq<u8>, at: int, head: int, width: int) -> Seq<u8> {
    codes(bytes, at + head, list_len(bytes, at, head), width)
}

/// Read a list of codes with its length.
fn read_list<const CAPACITY: usize>(reader: &mut BitReader<'_>, head: u8, width: u8) -> (result:
    Result<MetadataList<u8, CAPACITY>, CodecError>)
    requires
        old(reader).well_formed(),
        head <= 8,
        width <= 8,
        crate::bitreader::span(head as nat) <= CAPACITY,
    ensures
        final(reader).same_source(old(reader)),
        block_viewed(
            old(reader),
            final(reader),
            result,
            list_of(old(reader).source(), old(reader).cursor(), head as int, width as int),
            list_end(old(reader).source(), old(reader).cursor(), head as int, width as int),
        ),
{
    proof {
        let count = list_len(reader.source(), reader.cursor(), head as int);
        assert(count * width >= 0) by (nonlinear_arith)
            requires
                count >= 0,
                width >= 0,
        ;
    }
    let count: usize = read_count(reader, head)?;
    read_codes::<CAPACITY>(reader, count, width)
}

/// Bit at which the loudness of a programme starts.
pub open spec fn programme_loudness_at(bytes: Seq<u8>, start: int) -> int {
    start + 4 + option_width(bit_at(bytes, start), 4) + option_width(bit_at(bytes, start + 1), 5)
}

/// Bit at which the reference screen of a programme starts.
pub open spec fn programme_screen_at(bytes: Seq<u8>, start: int) -> int {
    let at = programme_loudness_at(bytes, start);
    if bit_at(bytes, start + 2) {
        loudness_end(bytes, at)
    } else {
        at
    }
}

/// Bit at which the content references of a programme start.
pub open spec fn programme_list_at(bytes: Seq<u8>, start: int) -> int {
    programme_screen_at(bytes, start) + option_width(bit_at(bytes, start + 3), 29)
}

/// Four flags, what they announce, and a list of contents.
pub open spec fn programme_of(bytes: Seq<u8>, start: int) -> ProgrammeSyntax {
    ProgrammeSyntax {
        language: option_code(bytes, start + 4, 4, bit_at(bytes, start)),
        max_ducking_depth: option_code(
            bytes,
            start + 4 + option_width(bit_at(bytes, start), 4),
            5,
            bit_at(bytes, start + 1),
        ),
        loudness: if bit_at(bytes, start + 2) {
            Some(loudness_of(bytes, programme_loudness_at(bytes, start)))
        } else {
            None
        },
        reference_screen: if bit_at(bytes, start + 3) {
            Some(screen_of(bytes, programme_screen_at(bytes, start)))
        } else {
            None
        },
        content_references: list_of(bytes, programme_list_at(bytes, start), 2, 2),
    }
}

/// Bit behind a programme.
pub open spec fn programme_end(bytes: Seq<u8>, start: int) -> int {
    list_end(bytes, programme_list_at(bytes, start), 2, 2)
}

/// Read a loudness block if it is there.
fn read_loudness_option(reader: &mut BitReader<'_>, present: bool) -> (result: Result<
    Option<LoudnessMetadata>,
    CodecError,
>)
    requires
        old(reader).well_formed(),
    ensures
        final(reader).same_source(old(reader)),
        block_read(
            old(reader),
            final(reader),
            result,
            if present {
                Some(loudness_of(old(reader).source(), old(reader).cursor()))
            } else {
                None
            },
            if present {
                loudness_end(old(reader).source(), old(reader).cursor())
            } else {
                old(reader).cursor()
            },
        ),
{
    if present {
        let loudness: LoudnessMetadata = parse_loudness(reader)?;
        Ok(Some(loudness))
    } else {
        Ok(None)
    }
}

/// Read a dialogue block if it is there.
fn read_dialogue_option(reader: &mut BitReader<'_>, present: bool) -> (result: Result<
    Option<DialogueMetadata>,
    CodecError,
>)
    requires
        old(reader).well_formed(),
    ensures
        final(reader).same_source(old(reader)),
        block_read(
            old(reader),
            final(reader),
            result,
            if present {
                Some(dialogue_of(old(reader).source(), old(reader).cursor()))
            } else {
                None
            },
            old(reader).cursor() + option_width(present, 5),
        ),
{
    if present {
        let dialogue: DialogueMetadata = parse_dialogue(reader)?;
        Ok(Some(dialogue))
    } else {
        Ok(None)
    }
}

/// Read a programme.
pub fn parse_audio_programme(reader: &mut BitReader<'_>) -> (result: Result<
    AudioProgrammeMetadata,
    CodecError,
>)
    requires
        old(reader).well_formed(),
    ensures
        final(reader).same_source(old(reader)),
        block_viewed(
            old(reader),
            final(reader),
            result,
            programme_of(old(reader).source(), old(reader).cursor()),
            programme_end(old(reader).source(), old(reader).cursor()),
        ),
{
    proof {
        let bytes = reader.source();
        let start = reader.cursor();
        lemma_loudness_grows(bytes, programme_loudness_at(bytes, start));
        lemma_span_values();
    }
    let has_language: bool = reader.read_bit()?;
    let has_max_ducking_depth: bool = reader.read_bit()?;
    let has_loudness: bool = reader.read_bit()?;
    let has_reference_screen: bool = reader.read_bit()?;
    let language: Option<u8> = read_option(reader, has_language, 4)?;
    let max_ducking_depth: Option<u8> = read_option(reader, has_max_ducking_depth, 5)?;
    let loudness: Option<LoudnessMetadata> = read_loudness_option(reader, has_loudness)?;
    let reference_screen: Option<ProgrammeReferenceScreen> = if has_reference_screen {
        let screen: ProgrammeReferenceScreen = parse_programme_reference_screen(reader)?;
        Some(screen)
    } else {
        None
    };
    let content_references: MetadataList<u8, 4> = read_list::<4>(reader, 2, 2)?;
    Ok(
        AudioProgrammeMetadata {
            language,
            max_ducking_depth,
            loudness,
            reference_screen,
            content_references,
        },
    )
}

/// Where the complementary group behind the one at `at` starts.
pub open spec fn group_step(bytes: Seq<u8>) -> spec_fn(int) -> int {
    |at: int| list_end(bytes, at, 3, 3)
}

/// Bit at which the loudness of a content starts.
pub open spec fn content_loudness_at(bytes: Seq<u8>, start: int) -> int {
    start + 6 + option_width(bit_at(bytes, start + 2), 4)
}

/// Bit at which the dialogue block of a content starts.
pub open spec fn content_dialogue_at(bytes: Seq<u8>, start: int) -> int {
    let at = content_loudness_at(bytes, start);
    if bit_at(bytes, start + 3) {
        loudness_end(bytes, at)
    } else {
        at
    }
}

/// Bit at which the complementary groups of a content start.
pub open spec fn content_groups_at(bytes: Seq<u8>, start: int) -> int {
    content_dialogue_at(bytes, start) + option_width(bit_at(bytes, start + 4), 5)
}

/// Bit at which the object references of a content start.
pub open spec fn content_list_at(bytes: Seq<u8>, start: int) -> int {
    let at = content_groups_at(bytes, start);
    if bit_at(bytes, start + 5) {
        chain_start(group_step(bytes), at + 2, list_len(bytes, at, 2))
    } else {
        at
    }
}

/// The complementary groups at bit `at`, in front of which stands their number.
pub open spec fn groups_of(bytes: Seq<u8>, at: int) -> Seq<Seq<u8>> {
    Seq::new(
        list_len(bytes, at, 2) as nat,
        |i: int| list_of(bytes, chain_start(group_step(bytes), at + 2, i), 3, 3),
    )
}

/// An index, four flags, what they announce, and a list of objects.
pub open spec fn content_of(bytes: Seq<u8>, start: int) -> ContentSyntax {
    ContentSyntax {
        index: code(bytes, start, 2),
        language: option_code(bytes, start + 6, 4, bit_at(bytes, start + 2)),
        loudness: if bit_at(bytes, start + 3) {
            Some(loudness_of(bytes, content_loudness_at(bytes, start)))
        } else {
            None
        },
        dialogue: if bit_at(bytes, start + 4) {
            Some(dialogue_of(bytes, content_dialogue_at(bytes, start)))
        } else {
            None
        },
        complementary_object_groups: if bit_at(bytes, start + 5) {
            groups_of(bytes, content_groups_at(bytes, start))
        } else {
            Seq::empty()
        },
        object_references: list_of(bytes, content_list_at(bytes, start), 3, 3),
    }
}

/// Bit behind a content.
pub open spec fn content_end(bytes: Seq<u8>, start: int) -> int {
    list_end(bytes, content_list_at(bytes, start), 3, 3)
}

/// Read the complementary groups of a content.
fn read_groups(reader: &mut BitReader<'_>) -> (result: Result<
    MetadataList<ComplementaryObjectGroup, 4>,
    CodecError,
>)
    requires
        old(reader).well_formed(),
    ensures
        final(reader).same_source(old(reader)),
        ({
            let bytes = old(reader).source();
            let at = old(reader).cursor();
            let end = chain_start(group_step(bytes), at + 2, list_len(bytes, at, 2));
            if end <= old(reader).end() {
                &&& result is Ok
                &&& items_view(result->Ok_0@) == groups_of(bytes, at)
                &&& final(reader).cursor() == end
            } else {
                result == Err::<MetadataList<ComplementaryObjectGroup, 4>, CodecError>(
                    CodecError::Truncated,
                )
            }
        }),
{
    let ghost bytes = reader.source();
    let ghost at = reader.cursor();
    let ghost step = group_step(bytes);
    let ghost goal = groups_of(bytes, at);
    proof {
        lemma_span_values();
        assert forall|q: int| #[trigger] step(q) >= q by {}
        lemma_chain_grows(step, at + 2, 0, list_len(bytes, at, 2));
    }
    let count: usize = read_count(reader, 2)?;
    let mut groups: MetadataList<ComplementaryObjectGroup, 4> = MetadataList::new();
    let mut index: usize = 0;
    while index < count
        invariant
            index <= count <= 4,
            reader.same_source(old(reader)),
            bytes == old(reader).source(),
            at == old(reader).cursor(),
            step == group_step(bytes),
            forall|q: int| #[trigger] step(q) >= q,
            count == list_len(bytes, at, 2),
            goal == groups_of(bytes, at),
            reader.cursor() == chain_start(step, at + 2, index as int),
            groups@.len() == index,
            items_view(groups@) == goal.take(index as int),
        decreases count - index,
    {
        proof {
            lemma_span_values();
            lemma_chain_grows(step, at + 2, index as int + 1, count as int);
        }
        let object_references: MetadataList<u8, 8> = read_list::<8>(reader, 3, 3)?;
        groups.push(ComplementaryObjectGroup { object_references });
        index = index + 1;
        assert(items_view(groups@) =~= goal.take(index as int));
    }
    assert(goal.take(count as int) =~= goal);
    Ok(groups)
}

/// A content takes up room.
pub proof fn lemma_content_grows(bytes: Seq<u8>, start: int)
    ensures
        start + 6 <= content_loudness_at(bytes, start) <= content_dialogue_at(bytes, start)
            <= content_groups_at(bytes, start) <= content_list_at(bytes, start) <= content_end(
            bytes,
            start,
        ),
{
    lemma_loudness_grows(bytes, content_loudness_at(bytes, start));
    let step = group_step(bytes);
    let at = content_groups_at(bytes, start);
    assert forall|q: int| #[trigger] step(q) >= q by {}
    lemma_chain_grows(step, at + 2, 0, list_len(bytes, at, 2));
}

/// Read a content.
pub fn parse_audio_content(reader: &mut BitReader<'_>) -> (result: Result<
    AudioContentMetadata,
    CodecError,
>)
    requires
        old(reader).well_formed(),
    ensures
        final(reader).same_source(old(reader)),
        block_viewed(
            old(reader),
            final(reader),
            result,
            content_of(old(reader).source(), old(reader).cursor()),
            content_end(old(reader).source(), old(reader).cursor()),
        ),
{
    proof {
        lemma_content_grows(reader.source(), reader.cursor());
        lemma_span_values();
    }
    let index: u8 = read_code(reader, 2)?;
    let has_language: bool = reader.read_bit()?;
    let has_loudness: bool = reader.read_bit()?;
    let has_dialogue: bool = reader.read_bit()?;
    let has_complementary_groups: bool = reader.read_bit()?;
    let language: Option<u8> = read_option(reader, has_language, 4)?;
    let loudness: Option<LoudnessMetadata> = read_loudness_option(reader, has_loudness)?;
    let dialogue: Option<DialogueMetadata> = read_dialogue_option(reader, has_dialogue)?;
    let complementary_object_groups: MetadataList<ComplementaryObjectGroup, 4> =
        if has_complementary_groups {
        read_groups(reader)?
    } else {
        MetadataList::new()
    };
    let object_references: MetadataList<u8, 8> = read_list::<8>(reader, 3, 3)?;
    let content = AudioContentMetadata {
        index,
        language,
        loudness,
        dialogue,
        complementary_object_groups,
        object_references,
    };
    assert(content@ =~= content_of(old(reader).source(), old(reader).cursor()));
    Ok(content)
}

/// The unit that a flag names.
pub open spec fn gain_unit_of(flag: bool) -> MetadataGainUnit {
    if flag {
        MetadataGainUnit::Decibels
    } else {
        MetadataGainUnit::Linear
    }
}

/// Read the unit of a gain.
fn read_gain_unit(reader: &mut BitReader<'_>) -> (result: Result<MetadataGainUnit, CodecError>)
    requires
        old(reader).well_formed(),
    ensures
        final(reader).same_source(old(reader)),
        block_read(
            old(reader),
            final(reader),
            result,
            gain_unit_of(bit_at(old(reader).source(), old(reader).cursor())),
            old(reader).cursor() + 1,
        ),
{
    let decibels: bool = reader.read_bit()?;
    if decibels {
        Ok(MetadataGainUnit::Decibels)
    } else {
        Ok(MetadataGainUnit::Linear)
    }
}

/// The unit, the half of the scale and a code.
pub open spec fn gain_of(bytes: Seq<u8>, start: int) -> MetadataGain {
    MetadataGain {
        unit: gain_unit_of(bit_at(bytes, start)),
        upper_half: bit_at(bytes, start + 1),
        value: code(bytes, start + 2, 6),
    }
}

/// Read a gain.
pub fn parse_static_gain(reader: &mut BitReader<'_>) -> (result: Result<MetadataGain, CodecError>)
    requires
        old(reader).well_formed(),
    ensures
        final(reader).same_source(old(reader)),
        block_read(
            old(reader),
            final(reader),
            result,
            gain_of(old(reader).source(), old(reader).cursor()),
            old(reader).cursor() + 8,
        ),
{
    let unit: MetadataGainUnit = read_gain_unit(reader)?;
    let upper_half: bool = reader.read_bit()?;
    let value: u8 = read_code(reader, 6)?;
    Ok(MetadataGain { unit, upper_half, value })
}

/// The range in which a gain may be changed.
pub open spec fn gain_interaction_of(bytes: Seq<u8>, start: int) -> GainInteractionMetadata {
    GainInteractionMetadata {
        unit: gain_unit_of(bit_at(bytes, start)),
        minimum: code(bytes, start + 1, 7),
        maximum: code(bytes, start + 8, 7),
    }
}

/// The range in which an object may be moved.
pub open spec fn position_interaction_of(bytes: Seq<u8>, start: int) -> PositionInteractionMetadata {
    if bit_at(bytes, start) {
        PositionInteractionMetadata::Cartesian {
            x_min: code(bytes, start + 1, 8),
            x_max: code(bytes, start + 9, 8),
            y_min: code(bytes, start + 17, 6),
            y_max: code(bytes, start + 23, 6),
            z_min: code(bytes, start + 29, 4),
            z_max: code(bytes, start + 33, 4),
        }
    } else {
        PositionInteractionMetadata::Polar {
            azimuth_min: code(bytes, start + 1, 8),
            azimuth_max: code(bytes, start + 9, 8),
            elevation_min: code(bytes, start + 17, 6),
            elevation_max: code(bytes, start + 23, 6),
            distance_min: code(bytes, start + 29, 4),
            distance_max: code(bytes, start + 33, 4),
        }
    }
}

/// Three flags, then the two ranges as far as they are there.
pub open spec fn interaction_of(bytes: Seq<u8>, start: int) -> AudioObjectInteractionMetadata {
    AudioObjectInteractionMetadata {
        on_off_interact: bit_at(bytes, start),
        gain: if bit_at(bytes, start + 1) {
            Some(gain_interaction_of(bytes, start + 3))
        } else {
            None
        },
        position: if bit_at(bytes, start + 2) {
            Some(
                position_interaction_of(
                    bytes,
                    start + 3 + option_width(bit_at(bytes, start + 1), 15),
                ),
            )
        } else {
            None
        },
    }
}

/// Bit behind an interaction block.
pub open spec fn interaction_end(bytes: Seq<u8>, start: int) -> int {
    start + 3 + option_width(bit_at(bytes, start + 1), 15) + option_width(
        bit_at(bytes, start + 2),
        37,
    )
}

/// Read the range in which a gain may be changed.
fn read_gain_interaction(reader: &mut BitReader<'_>) -> (result: Result<
    GainInteractionMetadata,
    CodecError,
>)
    requires
        old(reader).well_formed(),
    ensures
        final(reader).same_source(old(reader)),
        block_read(
            old(reader),
            final(reader),
            result,
            gain_interaction_of(old(reader).source(), old(reader).cursor()),
            old(reader).cursor() + 15,
        ),
{
    let unit: MetadataGainUnit = read_gain_unit(reader)?;
    let minimum: u8 = read_code(reader, 7)?;
    let maximum: u8 = read_code(reader, 7)?;
    Ok(GainInteractionMetadata { unit, minimum, maximum })
}

/// Read the range in which an object may be moved.
fn read_position_interaction(reader: &mut BitReader<'_>) -> (result: Result<
    PositionInteractionMetadata,
    CodecError,
>)
    requires
        old(reader).well_formed(),
    ensures
        final(reader).same_source(old(reader)),
        block_read(
            old(reader),
            final(reader),
            result,
            position_interaction_of(old(reader).source(), old(reader).cursor()),
            old(reader).cursor() + 37,
        ),
{
    let cartesian: bool = reader.read_bit()?;
    let first_min: u8 = read_code(reader, 8)?;
    let first_max: u8 = read_code(reader, 8)?;
    let second_min: u8 = read_code(reader, 6)?;
    let second_max: u8 = read_code(reader, 6)?;
    let third_min: u8 = read_code(reader, 4)?;
    let third_max: u8 = read_code(reader, 4)?;
    if cartesian {
        Ok(
            PositionInteractionMetadata::Cartesian {
                x_min: first_min,
                x_max: first_max,
                y_min: second_min,
                y_max: second_max,
                z_min: third_min,
                z_max: third_max,
            },
        )
    } else {
        Ok(
            PositionInteractionMetadata::Polar {
                azimuth_min: first_min,
                azimuth_max: first_max,
                elevation_min: second_min,
                elevation_max: second_max,
                distance_min: third_min,
                distance_max: third_max,
            },
        )
    }
}

/// Read what a listener may do with an object.
pub fn parse_audio_object_interaction(reader: &mut BitReader<'_>) -> (result: Result<
    AudioObjectInteractionMetadata,
    CodecError,
>)
    requires
        old(reader).well_formed(),
    ensures
        final(reader).same_source(old(reader)),
        block_read(
            old(reader),
            final(reader),
            result,
            interaction_of(old(reader).source(), old(reader).cursor()),
            interaction_end(old(reader).source(), old(reader).cursor()),
        ),
{
    let on_off_interact: bool = reader.read_bit()?;
    let has_gain: bool = reader.read_bit()?;
    let has_position: bool = reader.read_bit()?;
    let gain: Option<GainInteractionMetadata> = if has_gain {
        let range: GainInteractionMetadata = read_gain_interaction(reader)?;
        Some(range)
    } else {
        None
    };
    let position: Option<PositionInteractionMetadata> = if has_position {
        let range: PositionInteractionMetadata = read_position_interaction(reader)?;
        Some(range)
    } else {
        None
    };
    Ok(AudioObjectInteractionMetadata { on_off_interact, gain, position })
}

/// Bit at which the importance of an object starts.
pub open spec fn object_importance_at(bytes: Seq<u8>, start: int) -> int {
    start + 11 + option_width(bit_at(bytes, start + 3), 4) + option_width(
        bit_at(bytes, start + 4),
        5,
    )
}

/// Bit at which the name of an object starts.
pub open spec fn object_name_at(bytes: Seq<u8>, start: int) -> int {
    object_importance_at(bytes, start) + option_width(bit_at(bytes, start + 5), 4)
}

/// Bit at which the gain of an object starts.
pub open spec fn object_gain_at(bytes: Seq<u8>, start: int) -> int {
    let at = object_name_at(bytes, start);
    if bit_at(bytes, start + 7) {
        interaction_end(bytes, at + 192)
    } else {
        at
    }
}

/// Bit at which the pack references of an object start.
pub open spec fn object_list_at(bytes: Seq<u8>, start: int) -> int {
    object_gain_at(bytes, start) + option_width(bit_at(bytes, start + 8), 8)
}

/// An importance, which is ten at most.
pub open spec fn importance_of(bytes: Seq<u8>, at: int, present: bool) -> Option<u8> {
    if present {
        Some(at_most(code(bytes, at, 4), 10))
    } else {
        None
    }
}

/// An index, eight flags, what they announce, and a list of packs.
///
/// The fifth flag announces both the name of the object and what a listener may do with it.
pub open spec fn object_of(bytes: Seq<u8>, start: int) -> ObjectSyntax {
    ObjectSyntax {
        index: code(bytes, start, 3),
        language: option_code(bytes, start + 11, 4, bit_at(bytes, start + 3)),
        dialogue: if bit_at(bytes, start + 4) {
            Some(
                dialogue_of(bytes, start + 11 + option_width(bit_at(bytes, start + 3), 4)),
            )
        } else {
            None
        },
        importance: importance_of(
            bytes,
            object_importance_at(bytes, start),
            bit_at(bytes, start + 5),
        ),
        disable_ducking: bit_at(bytes, start + 6),
        head_locked: bit_at(bytes, start + 9),
        muted: bit_at(bytes, start + 10),
        name: if bit_at(bytes, start + 7) {
            Some(codes(bytes, object_name_at(bytes, start), 24, 8))
        } else {
            None
        },
        interaction: if bit_at(bytes, start + 7) {
            Some(interaction_of(bytes, object_name_at(bytes, start) + 192))
        } else {
            None
        },
        gain: if bit_at(bytes, start + 8) {
            Some(gain_of(bytes, object_gain_at(bytes, start)))
        } else {
            None
        },
        pack_references: list_of(bytes, object_list_at(bytes, start), 3, 3),
    }
}

/// Bit behind an object.
pub open spec fn object_end(bytes: Seq<u8>, start: int) -> int {
    list_end(bytes, object_list_at(bytes, start), 3, 3)
}

/// Read an importance if it is there.
pub fn read_importance(reader: &mut BitReader<'_>, present: bool) -> (result: Result<
    Option<u8>,
    CodecError,
>)
    requires
        old(reader).well_formed(),
    ensures
        final(reader).same_source(old(reader)),
        block_read(
            old(reader),
            final(reader),
            result,
            importance_of(old(reader).source(), old(reader).cursor(), present),
            old(reader).cursor() + option_width(present, 4),
        ),
{
    if present {
        let value: u8 = read_code(reader, 4)?;
        if value > 10 {
            Ok(Some(10))
        } else {
            Ok(Some(value))
        }
    } else {
        Ok(None)
    }
}

/// Read the twenty-four characters of a name.
fn read_name(reader: &mut BitReader<'_>) -> (result: Result<[u8; 24], CodecError>)
    requires
        old(reader).well_formed(),
    ensures
        final(reader).same_source(old(reader)),
        block_viewed(
            old(reader),
            final(reader),
            result,
            codes(old(reader).source(), old(reader).cursor(), 24, 8),
            old(reader).cursor() + 192,
        ),
{
    let ghost bytes = reader.source();
    let ghost start = reader.cursor();
    let mut name: [u8; 24] = [0u8;24];
    let mut index: usize = 0;
    while index < 24
        invariant
            index <= 24,
            reader.same_source(old(reader)),
            bytes == old(reader).source(),
            start == old(reader).cursor(),
            reader.cursor() == start + index * 8,
            forall|i: int| 0 <= i < index ==> #[trigger] name@[i] == code(bytes, start + i * 8, 8),
        decreases 24 - index,
    {
        name[index] = read_code(reader, 8)?;
        index = index + 1;
    }
    assert(name@ =~= codes(bytes, start, 24, 8));
    Ok(name)
}

/// Read an object.
#[verifier::rlimit(60)]
pub fn parse_audio_object(reader: &mut BitReader<'_>) -> (result: Result<
    AudioObjectMetadata,
    CodecError,
>)
    requires
        old(reader).well_formed(),
    ensures
        final(reader).same_source(old(reader)),
        block_viewed(
            old(reader),
            final(reader),
            result,
            object_of(old(reader).source(), old(reader).cursor()),
            object_end(old(reader).source(), old(reader).cursor()),
        ),
{
    let ghost bytes = reader.source();
    let ghost start = reader.cursor();
    proof {
        lemma_span_values();
    }
    let index: u8 = read_code(reader, 3)?;
    let has_language: bool = reader.read_bit()?;
    let has_dialogue: bool = reader.read_bit()?;
    let has_importance: bool = reader.read_bit()?;
    let disable_ducking: bool = reader.read_bit()?;
    let has_interaction: bool = reader.read_bit()?;
    let has_gain: bool = reader.read_bit()?;
    let head_locked: bool = reader.read_bit()?;
    let muted: bool = reader.read_bit()?;
    assert(reader.cursor() == start + 11);
    let language: Option<u8> = read_option(reader, has_language, 4)?;
    let dialogue: Option<DialogueMetadata> = read_dialogue_option(reader, has_dialogue)?;
    assert(reader.cursor() == object_importance_at(bytes, start));
    let importance: Option<u8> = read_importance(reader, has_importance)?;
    assert(reader.cursor() == object_name_at(bytes, start));
    let mut name: Option<[u8; 24]> = None;
    let mut interaction: Option<AudioObjectInteractionMetadata> = None;
    if has_interaction {
        name = Some(read_name(reader)?);
        interaction = Some(parse_audio_object_interaction(reader)?);
    }
    assert(reader.cursor() == object_gain_at(bytes, start));
    let gain: Option<MetadataGain> = if has_gain {
        let value: MetadataGain = parse_static_gain(reader)?;
        Some(value)
    } else {
        None
    };
    assert(reader.cursor() == object_list_at(bytes, start));
    let pack_references: MetadataList<u8, 8> = read_list::<8>(reader, 3, 3)?;
    let object = AudioObjectMetadata {
        index,
        language,
        dialogue,
        importance,
        disable_ducking,
        head_locked,
        muted,
        name,
        interaction,
        gain,
        pack_references,
    };
    assert(object@ =~= object_of(old(reader).source(), old(reader).cursor()));
    Ok(object)
}

/// Two angles, a distance and a lock, in twenty bits.
pub open spec fn speaker_of(bytes: Seq<u8>, start: int) -> DirectSpeakerPosition {
    DirectSpeakerPosition {
        azimuth: code(bytes, start, 8),
        elevation: code(bytes, start + 8, 6),
        distance: code(bytes, start + 14, 4),
        screen_edge_lock: code(bytes, start + 18, 2),
    }
}

/// Read where a loudspeaker stands.
pub fn parse_direct_speaker_position(reader: &mut BitReader<'_>) -> (result: Result<
    DirectSpeakerPosition,
    CodecError,
>)
    requires
        old(reader).well_formed(),
    ensures
        final(reader).same_source(old(reader)),
        block_read(
            old(reader),
            final(reader),
            result,
            speaker_of(old(reader).source(), old(reader).cursor()),
            old(reader).cursor() + 20,
        ),
{
    let azimuth: u8 = read_code(reader, 8)?;
    let elevation: u8 = read_code(reader, 6)?;
    let distance: u8 = read_code(reader, 4)?;
    let screen_edge_lock: u8 = read_code(reader, 2)?;
    Ok(DirectSpeakerPosition { azimuth, elevation, distance, screen_edge_lock })
}

/// Normalisation, distance, screen flag and order of an ambisonic pack.
pub open spec fn hoa_pack_of(bytes: Seq<u8>, start: int) -> HoaPackMetadata {
    HoaPackMetadata {
        normalization: code(bytes, start, 2),
        nfc_reference_distance: code(bytes, start + 2, 4),
        screen_reference: bit_at(bytes, start + 6),
        order: code(bytes, start + 7, 3),
    }
}

/// Read how the channels of an ambisonic pack are to be read.
fn read_hoa_pack(reader: &mut BitReader<'_>) -> (result: Result<HoaPackMetadata, CodecError>)
    requires
        old(reader).well_formed(),
    ensures
        final(reader).same_source(old(reader)),
        block_read(
            old(reader),
            final(reader),
            result,
            hoa_pack_of(old(reader).source(), old(reader).cursor()),
            old(reader).cursor() + 10,
        ),
{
    let normalization: u8 = read_code(reader, 2)?;
    let nfc_reference_distance: u8 = read_code(reader, 4)?;
    let screen_reference: bool = reader.read_bit()?;
    let order: u8 = read_code(reader, 3)?;
    Ok(HoaPackMetadata { normalization, nfc_reference_distance, screen_reference, order })
}

/// Bit at which the type label of a pack starts.
pub open spec fn pack_label_at(bytes: Seq<u8>, start: int) -> int {
    start + 5 + option_width(bit_at(bytes, start + 3), 4)
}

/// The type label of a pack, which lies between one and five.
pub open spec fn pack_label(bytes: Seq<u8>, start: int) -> u8 {
    let label = code(bytes, pack_label_at(bytes, start), 3);
    if label < 1 {
        1
    } else {
        at_most(label, 5)
    }
}

/// Bit at which the format of a pack starts, behind what is said of an ambisonic one.
pub open spec fn pack_format_at(bytes: Seq<u8>, start: int) -> int {
    pack_label_at(bytes, start) + 8 + option_width(pack_label(bytes, start) == 4, 10)
}

/// A pack of loudspeakers or of a matrix has a format.
pub open spec fn pack_has_format(bytes: Seq<u8>, start: int) -> bool {
    pack_label(bytes, start) == 1 || pack_label(bytes, start) == 2
}

/// Bit at which the positions of a matrix start.
pub open spec fn pack_matrix_at(bytes: Seq<u8>, start: int) -> int {
    pack_format_at(bytes, start) + option_width(pack_has_format(bytes, start), 6)
}

/// Bit at which the start index of a pack stands.
pub open spec fn pack_index_at(bytes: Seq<u8>, start: int) -> int {
    let at = pack_matrix_at(bytes, start);
    if pack_label(bytes, start) == 2 {
        at + 5 + list_len(bytes, at, 5) * 20
    } else {
        at
    }
}

/// Bit at which the channels of a pack start.
pub open spec fn pack_channels_at(bytes: Seq<u8>, start: int) -> int {
    pack_index_at(bytes, start) + option_width(!bit_at(bytes, start + 4), 5)
}

/// Bits that one channel of a pack takes.
pub open spec fn pack_channel_width(reuse: bool) -> int {
    if reuse {
        10
    } else {
        5
    }
}

/// A channel of a pack, with a second reference where channels are used again.
pub open spec fn pack_channel_of(bytes: Seq<u8>, at: int, reuse: bool) -> PackChannelReference {
    PackChannelReference {
        channel_index: code(bytes, at, 5),
        transformed_channel_reference: option_code(bytes, at + 5, 5, reuse),
    }
}

/// The channels of a pack.
pub open spec fn pack_channels_of(bytes: Seq<u8>, at: int, reuse: bool) -> Seq<
    PackChannelReference,
> {
    Seq::new(
        list_len(bytes, at, 5) as nat,
        |i: int| pack_channel_of(bytes, at + 5 + i * pack_channel_width(reuse), reuse),
    )
}

/// The loudspeakers that a matrix feeds.
pub open spec fn speakers_of(bytes: Seq<u8>, at: int) -> Seq<DirectSpeakerPosition> {
    Seq::new(list_len(bytes, at, 5) as nat, |i: int| speaker_of(bytes, at + 5 + i * 20))
}

/// What a pack says.
pub open spec fn pack_of(bytes: Seq<u8>, start: int) -> PackSyntax {
    let reuse = bit_at(bytes, start + 4);
    PackSyntax {
        index: code(bytes, start, 3),
        importance: importance_of(bytes, start + 5, bit_at(bytes, start + 3)),
        channel_reuse: reuse,
        type_label: pack_label(bytes, start),
        absolute_distance: code(bytes, pack_label_at(bytes, start) + 3, 5),
        hoa: if pack_label(bytes, start) == 4 {
            Some(hoa_pack_of(bytes, pack_label_at(bytes, start) + 8))
        } else {
            None
        },
        pack_format_id: option_code(
            bytes,
            pack_format_at(bytes, start),
            6,
            pack_has_format(bytes, start),
        ),
        matrix_output_positions: if pack_label(bytes, start) == 2 {
            speakers_of(bytes, pack_matrix_at(bytes, start))
        } else {
            Seq::empty()
        },
        pack_format_start_index: option_code(bytes, pack_index_at(bytes, start), 5, !reuse),
        channels: pack_channels_of(bytes, pack_channels_at(bytes, start), reuse),
    }
}

/// Bit behind a pack.
pub open spec fn pack_end(bytes: Seq<u8>, start: int) -> int {
    let at = pack_channels_at(bytes, start);
    at + 5 + list_len(bytes, at, 5) * pack_channel_width(bit_at(bytes, start + 4))
}

/// Read the loudspeakers that a matrix feeds.
fn read_speakers(reader: &mut BitReader<'_>) -> (result: Result<
    MetadataList<DirectSpeakerPosition, 32>,
    CodecError,
>)
    requires
        old(reader).well_formed(),
    ensures
        final(reader).same_source(old(reader)),
        block_viewed(
            old(reader),
            final(reader),
            result,
            speakers_of(old(reader).source(), old(reader).cursor()),
            old(reader).cursor() + 5 + list_len(old(reader).source(), old(reader).cursor(), 5) * 20,
        ),
{
    let ghost bytes = reader.source();
    let ghost at = reader.cursor();
    let ghost goal = speakers_of(bytes, at);
    proof {
        lemma_span_values();
    }
    let count: usize = read_count(reader, 5)?;
    let mut positions: MetadataList<DirectSpeakerPosition, 32> = MetadataList::new();
    let mut index: usize = 0;
    while index < count
        invariant
            index <= count <= 32,
            reader.same_source(old(reader)),
            bytes == old(reader).source(),
            at == old(reader).cursor(),
            count == list_len(bytes, at, 5),
            goal == speakers_of(bytes, at),
            reader.cursor() == at + 5 + index * 20,
            positions@ == goal.take(index as int),
        decreases count - index,
    {
        let position: DirectSpeakerPosition = parse_direct_speaker_position(reader)?;
        positions.push(position);
        index = index + 1;
        assert(positions@ =~= goal.take(index as int));
    }
    assert(goal.take(count as int) =~= goal);
    Ok(positions)
}

/// Read the channels of a pack.
fn read_pack_channels(reader: &mut BitReader<'_>, reuse: bool) -> (result: Result<
    MetadataList<PackChannelReference, 32>,
    CodecError,
>)
    requires
        old(reader).well_formed(),
    ensures
        final(reader).same_source(old(reader)),
        block_viewed(
            old(reader),
            final(reader),
            result,
            pack_channels_of(old(reader).source(), old(reader).cursor(), reuse),
            old(reader).cursor() + 5 + list_len(old(reader).source(), old(reader).cursor(), 5)
                * pack_channel_width(reuse),
        ),
        result matches Ok(channels) ==> channels.well_formed(),
{
    let ghost bytes = reader.source();
    let ghost at = reader.cursor();
    let ghost goal = pack_channels_of(bytes, at, reuse);
    let ghost width = pack_channel_width(reuse);
    proof {
        lemma_span_values();
        let len = list_len(bytes, at, 5);
        assert(len * width >= 0) by (nonlinear_arith)
            requires
                len >= 0,
                width >= 0,
        ;
        assert(0 * width == 0) by (nonlinear_arith);
    }
    let count: usize = read_count(reader, 5)?;
    let mut channels: MetadataList<PackChannelReference, 32> = MetadataList::new();
    let mut index: usize = 0;
    while index < count
        invariant
            index <= count <= 32,
            reader.same_source(old(reader)),
            bytes == old(reader).source(),
            at == old(reader).cursor(),
            width == pack_channel_width(reuse),
            count == list_len(bytes, at, 5),
            goal == pack_channels_of(bytes, at, reuse),
            reader.cursor() == at + 5 + index * width,
            channels.well_formed(),
            channels@ == goal.take(index as int),
        decreases count - index,
    {
        proof {
            assert((index + 1) * width == index * width + width) by (nonlinear_arith);
            assert((index + 1) * width <= count * width) by (nonlinear_arith)
                requires
                    index < count,
                    width >= 0,
            ;
        }
        let channel_index: u8 = read_code(reader, 5)?;
        let transformed_channel_reference: Option<u8> = read_option(reader, reuse, 5)?;
        channels.push(PackChannelReference { channel_index, transformed_channel_reference });
        index = index + 1;
        assert(channels@ =~= goal.take(index as int));
    }
    assert(goal.take(count as int) =~= goal);
    Ok(channels)
}

/// A pack takes up room.
pub proof fn lemma_pack_grows(bytes: Seq<u8>, start: int)
    ensures
        start + 5 <= pack_label_at(bytes, start) < pack_format_at(bytes, start) <= pack_matrix_at(
            bytes,
            start,
        ) <= pack_index_at(bytes, start) <= pack_channels_at(bytes, start) <= pack_end(bytes, start)
            - 5,
{
    let at = pack_channels_at(bytes, start);
    let len = list_len(bytes, at, 5);
    let width = pack_channel_width(bit_at(bytes, start + 4));
    assert(len * width >= 0) by (nonlinear_arith)
        requires
            len >= 0,
            width >= 0,
    ;
}

/// Read a pack.
pub fn parse_audio_pack(reader: &mut BitReader<'_>) -> (result: Result<
    AudioPackMetadata,
    CodecError,
>)
    requires
        old(reader).well_formed(),
    ensures
        final(reader).same_source(old(reader)),
        block_viewed(
            old(reader),
            final(reader),
            result,
            pack_of(old(reader).source(), old(reader).cursor()),
            pack_end(old(reader).source(), old(reader).cursor()),
        ),
{
    proof {
        lemma_pack_grows(reader.source(), reader.cursor());
        lemma_span_values();
    }
    let index: u8 = read_code(reader, 3)?;
    let has_importance: bool = reader.read_bit()?;
    let channel_reuse: bool = reader.read_bit()?;
    let importance: Option<u8> = read_importance(reader, has_importance)?;
    let mut type_label: u8 = read_code(reader, 3)?;
    if type_label < 1 {
        type_label = 1;
    } else if type_label > 5 {
        type_label = 5;
    }
    assert(type_label == pack_label(old(reader).source(), old(reader).cursor()));
    let absolute_distance: u8 = read_code(reader, 5)?;
    let hoa: Option<HoaPackMetadata> = if type_label == 4 {
        let pack: HoaPackMetadata = read_hoa_pack(reader)?;
        Some(pack)
    } else {
        None
    };
    let pack_format_id: Option<u8> = read_option(reader, type_label == 1 || type_label == 2, 6)?;
    let matrix_output_positions: MetadataList<DirectSpeakerPosition, 32> = if type_label == 2 {
        read_speakers(reader)?
    } else {
        MetadataList::new()
    };
    let pack_format_start_index: Option<u8> = read_option(reader, !channel_reuse, 5)?;
    let channels: MetadataList<PackChannelReference, 32> = read_pack_channels(
        reader,
        channel_reuse,
    )?;
    let pack = AudioPackMetadata {
        index,
        importance,
        channel_reuse,
        type_label,
        absolute_distance,
        hoa,
        pack_format_id,
        matrix_output_positions,
        pack_format_start_index,
        channels,
    };
    assert(pack@ =~= pack_of(old(reader).source(), old(reader).cursor()));
    Ok(pack)
}

} // verus!
