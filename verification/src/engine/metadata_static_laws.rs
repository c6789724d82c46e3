//! Writing the description of programmes, contents, objects, packs and channels, and what reading
//! does with it.
//!
//! Each writer puts the bits of one block in front of `rest`, which is what follows the block. Each
//! law holds wherever the block stands.

use crate::bit_writing::{lemma_all, lemma_strings, put, put_all, put_flag, spells};
use crate::bitreader::{bit_at, bits, lemma_span_values, span};
use crate::engine::metadata_basic::{
    channel_at, coefficient_count, has_position, lists_channel, pack_of_channel,
};
use crate::engine::metadata::MetadataError;
use crate::engine::metadata_dynamic_laws::{option_below, put_option};
use crate::engine::metadata_static::{
    content_dialogue_at, content_end, content_groups_at, content_list_at, content_loudness_at,
    content_of, dialogue_of, gain_of, group_step, groups_of, importance_of, interaction_end,
    interaction_of, list_end, list_len, list_of, loudness_end, loudness_field, loudness_of,
    object_end, object_gain_at, object_list_at, object_name_at, object_of, pack_channel_of,
    pack_channel_width, pack_channels_at, pack_channels_of, pack_end, pack_format_at, pack_index_at,
    pack_label_at, pack_matrix_at, pack_of, programme_end, programme_list_at, programme_loudness_at,
    programme_of, programme_screen_at, screen_of, speaker_of, speakers_of,
};
use crate::engine::metadata_syntax::{chain_start, code, codes};
use crate::engine::metadata_values::{
    AudioObjectInteractionMetadata, ChannelSyntax, ContentSyntax, DialogueMetadata,
    DirectSpeakerPosition, HoaPackMetadata, LoudnessMetadata, MetadataGain, ObjectSyntax,
    PackChannelReference, PackSyntax, PositionInteractionMetadata, ProgrammeReferenceScreen,
    ProgrammeScreenPosition, ProgrammeSyntax,
};
use vstd::prelude::*;

verus! {

/// The bits of a list of codes: one less than its length, then each code.
pub open spec fn put_list(values: Seq<u8>, head: int, width: int, rest: Seq<bool>) -> Seq<bool> {
    put(values.len() - 1, head, put_all(values, width, 0, rest))
}

/// A list is not empty, its length fits its field, and so does each code.
pub open spec fn list_fits(values: Seq<u8>, head: int, width: int) -> bool {
    &&& 1 <= values.len() <= span(head as nat)
    &&& forall|i: int| 0 <= i < values.len() ==> #[trigger] values[i] < span(width as nat)
}

/// A list of codes is read as it was written.
pub proof fn written_lists_read_back(
    bytes: Seq<u8>,
    at: int,
    values: Seq<u8>,
    head: int,
    width: int,
    rest: Seq<bool>,
)
    requires
        0 <= head < 8,
        0 <= width <= 8,
        list_fits(values, head, width),
        spells(bytes, at, put_list(values, head, width, rest)),
    ensures
        list_of(bytes, at, head, width) == values,
        spells(bytes, list_end(bytes, at, head, width), rest),
        list_end(bytes, at, head, width) == at + put_list(values, head, width, rest).len()
            - rest.len(),
{
    let tail = put_all(values, width, 0, rest);
    assert(bits(bytes, at, head as nat) == values.len() - 1 && spells(bytes, at + head, tail)
        && put_list(values, head, width, rest).len() == head + tail.len()) by {
        lemma_strings();
    }
    crate::bitreader::lemma_span_monotone(head as nat, 7);
    lemma_span_values();
    assert(list_len(bytes, at, head) == values.len());
    assert(0 * width == 0) by (nonlinear_arith);
    lemma_all(bytes, at + head, values, width, 0, rest);
    assert(list_of(bytes, at, head, width) =~= values);
}

/// The bits of a loudness block: six flags, then a code for each that is set.
pub open spec fn loudness_bits(loudness: LoudnessMetadata, rest: Seq<bool>) -> Seq<bool> {
    let sixth = put_option(loudness.dialogue_loudness, 5, rest);
    let fifth = put_option(loudness.max_short_term, 5, sixth);
    let fourth = put_option(loudness.max_momentary, 5, fifth);
    let third = put_option(loudness.max_true_peak, 5, fourth);
    let second = put_option(loudness.loudness_range, 5, third);
    let first = put_option(loudness.integrated_loudness, 5, second);
    put_flag(
        loudness.integrated_loudness is Some,
        put_flag(
            loudness.loudness_range is Some,
            put_flag(
                loudness.max_true_peak is Some,
                put_flag(
                    loudness.max_momentary is Some,
                    put_flag(
                        loudness.max_short_term is Some,
                        put_flag(loudness.dialogue_loudness is Some, first),
                    ),
                ),
            ),
        ),
    )
}

/// The codes of a loudness block fit.
pub open spec fn loudness_fits(loudness: LoudnessMetadata) -> bool {
    &&& option_below(loudness.integrated_loudness, 32)
    &&& option_below(loudness.loudness_range, 32)
    &&& option_below(loudness.max_true_peak, 32)
    &&& option_below(loudness.max_momentary, 32)
    &&& option_below(loudness.max_short_term, 32)
    &&& option_below(loudness.dialogue_loudness, 32)
}

/// A loudness block is read as it was written.
pub proof fn written_loudness_reads_back(
    bytes: Seq<u8>,
    at: int,
    loudness: LoudnessMetadata,
    rest: Seq<bool>,
)
    requires
        loudness_fits(loudness),
        spells(bytes, at, loudness_bits(loudness, rest)),
    ensures
        loudness_of(bytes, at) == loudness,
        spells(bytes, loudness_end(bytes, at), rest),
        loudness_end(bytes, at) == at + loudness_bits(loudness, rest).len() - rest.len(),
{
    reveal_with_fuel(loudness_field, 7);
    lemma_strings();
    lemma_span_values();
}

/// The bits of a reference screen.
pub open spec fn screen_bits(screen: ProgrammeReferenceScreen, rest: Seq<bool>) -> Seq<bool> {
    let (first, second, third, width) = match screen.position {
        ProgrammeScreenPosition::Polar { azimuth, elevation, distance, width } => (
            azimuth,
            elevation,
            distance,
            width,
        ),
        ProgrammeScreenPosition::Cartesian { x, y, z, width } => (x, y, z, width),
    };
    put_flag(
        screen.position is Cartesian,
        put(
            screen.aspect_ratio as int,
            3,
            put(
                first as int,
                8,
                put(second as int, 6, put(third as int, 4, put(width as int, 7, rest))),
            ),
        ),
    )
}

/// The codes of a reference screen fit.
pub open spec fn screen_fits(screen: ProgrammeReferenceScreen) -> bool {
    &&& screen.aspect_ratio < 8
    &&& match screen.position {
        ProgrammeScreenPosition::Polar { azimuth, elevation, distance, width } => elevation < 64
            && distance < 16 && width < 128,
        ProgrammeScreenPosition::Cartesian { x, y, z, width } => y < 64 && z < 16 && width < 128,
    }
}

/// A reference screen is read as it was written.
pub proof fn written_screens_read_back(
    bytes: Seq<u8>,
    at: int,
    screen: ProgrammeReferenceScreen,
    rest: Seq<bool>,
)
    requires
        screen_fits(screen),
        spells(bytes, at, screen_bits(screen, rest)),
    ensures
        screen_of(bytes, at) == screen,
        spells(bytes, at + 29, rest),
        screen_bits(screen, rest).len() == 29 + rest.len(),
{
    lemma_strings();
    lemma_span_values();
}

/// The bits of a programme: four flags, what they announce, and the contents that it refers to.
pub open spec fn programme_bits(programme: ProgrammeSyntax, rest: Seq<bool>) -> Seq<bool> {
    let list = put_list(programme.content_references, 2, 2, rest);
    let screen = match programme.reference_screen {
        Some(screen) => screen_bits(screen, list),
        None => list,
    };
    let loudness = match programme.loudness {
        Some(loudness) => loudness_bits(loudness, screen),
        None => screen,
    };
    let front = put_option(
        programme.language,
        4,
        put_option(programme.max_ducking_depth, 5, loudness),
    );
    put_flag(
        programme.language is Some,
        put_flag(
            programme.max_ducking_depth is Some,
            put_flag(
                programme.loudness is Some,
                put_flag(programme.reference_screen is Some, front),
            ),
        ),
    )
}

/// The parts of a programme fit.
pub open spec fn programme_fits(programme: ProgrammeSyntax) -> bool {
    &&& option_below(programme.language, 16)
    &&& option_below(programme.max_ducking_depth, 32)
    &&& programme.loudness matches Some(loudness) ==> loudness_fits(loudness)
    &&& programme.reference_screen matches Some(screen) ==> screen_fits(screen)
    &&& list_fits(programme.content_references, 2, 2)
}

/// A programme is read as it was written.
pub proof fn written_programmes_read_back(
    bytes: Seq<u8>,
    at: int,
    programme: ProgrammeSyntax,
    rest: Seq<bool>,
)
    requires
        programme_fits(programme),
        spells(bytes, at, programme_bits(programme, rest)),
    ensures
        programme_of(bytes, at) == programme,
        spells(bytes, programme_end(bytes, at), rest),
        programme_end(bytes, at) == at + programme_bits(programme, rest).len() - rest.len(),
{
    let list = put_list(programme.content_references, 2, 2, rest);
    let screen = match programme.reference_screen {
        Some(screen) => screen_bits(screen, list),
        None => list,
    };
    let loudness = match programme.loudness {
        Some(loudness) => loudness_bits(loudness, screen),
        None => screen,
    };
    let found = programme_of(bytes, at);
    let loudness_at = programme_loudness_at(bytes, at);
    assert(bit_at(bytes, at + 2) == (programme.loudness is Some) && bit_at(bytes, at + 3) == (
    programme.reference_screen is Some) && found.language == programme.language
        && found.max_ducking_depth == programme.max_ducking_depth && spells(
        bytes,
        loudness_at,
        loudness,
    ) && programme_bits(programme, rest).len() == loudness_at - at + loudness.len()) by {
        lemma_strings();
        lemma_span_values();
    }
    if let Some(value) = programme.loudness {
        written_loudness_reads_back(bytes, loudness_at, value, screen);
    }
    if let Some(value) = programme.reference_screen {
        written_screens_read_back(bytes, programme_screen_at(bytes, at), value, list);
    }
    written_lists_read_back(
        bytes,
        programme_list_at(bytes, at),
        programme.content_references,
        2,
        2,
        rest,
    );
    assert(found =~= programme);
}

/// The bits of a dialogue block, if there is one.
pub open spec fn dialogue_bits(dialogue: Option<DialogueMetadata>, rest: Seq<bool>) -> Seq<bool> {
    match dialogue {
        Some(dialogue) => put(
            dialogue.attribute as int,
            2,
            put(dialogue.dialogue_type as int, 3, rest),
        ),
        None => rest,
    }
}

/// The codes of a dialogue block fit.
pub open spec fn dialogue_fits(dialogue: Option<DialogueMetadata>) -> bool {
    dialogue matches Some(dialogue) ==> dialogue.attribute < 4 && dialogue.dialogue_type < 8
}

/// The bits of the lists from `from` on.
pub open spec fn put_lists(lists: Seq<Seq<u8>>, from: int, rest: Seq<bool>) -> Seq<bool>
    decreases lists.len() - from,
{
    if from >= lists.len() {
        rest
    } else {
        put_list(lists[from], 3, 3, put_lists(lists, from + 1, rest))
    }
}

proof fn lemma_lists(
    bytes: Seq<u8>,
    at: int,
    lists: Seq<Seq<u8>>,
    index: int,
    rest: Seq<bool>,
)
    requires
        forall|i: int| 0 <= i < lists.len() ==> list_fits(#[trigger] lists[i], 3, 3),
        spells(bytes, at, put_lists(lists, 0, rest)),
        0 <= index <= lists.len(),
    ensures
        ({
            let here = chain_start(group_step(bytes), at, index);
            &&& spells(bytes, here, put_lists(lists, index, rest))
            &&& here == at + put_lists(lists, 0, rest).len() - put_lists(lists, index, rest).len()
            &&& index < lists.len() ==> list_of(bytes, here, 3, 3) == lists[index]
        }),
    decreases index,
{
    let step = group_step(bytes);
    if index > 0 {
        lemma_lists(bytes, at, lists, index - 1, rest);
        written_lists_read_back(
            bytes,
            chain_start(step, at, index - 1),
            lists[index - 1],
            3,
            3,
            put_lists(lists, index, rest),
        );
    }
    if index < lists.len() {
        written_lists_read_back(
            bytes,
            chain_start(step, at, index),
            lists[index],
            3,
            3,
            put_lists(lists, index + 1, rest),
        );
    }
}

/// The bits of a content up to its loudness: its index, four flags and its language.
pub open spec fn content_front_bits(content: ContentSyntax, rest: Seq<bool>) -> Seq<bool> {
    put(
        content.index as int,
        2,
        put_flag(
            content.language is Some,
            put_flag(
                content.loudness is Some,
                put_flag(
                    content.dialogue is Some,
                    put_flag(
                        content.complementary_object_groups.len() > 0,
                        put_option(content.language, 4, rest),
                    ),
                ),
            ),
        ),
    )
}

/// The bits of a list of lists, if it is not empty: one less than its length, then each list.
pub open spec fn groups_bits(groups: Seq<Seq<u8>>, rest: Seq<bool>) -> Seq<bool> {
    if groups.len() > 0 {
        put(groups.len() - 1, 2, put_lists(groups, 0, rest))
    } else {
        rest
    }
}

/// The bits of a content: its front, its loudness and dialogue, the objects that stand in for each
/// other, and the objects that it refers to.
pub open spec fn content_bits(content: ContentSyntax, rest: Seq<bool>) -> Seq<bool> {
    let list = put_list(content.object_references, 3, 3, rest);
    let others = groups_bits(content.complementary_object_groups, list);
    let dialogue = dialogue_bits(content.dialogue, others);
    let loudness = match content.loudness {
        Some(loudness) => loudness_bits(loudness, dialogue),
        None => dialogue,
    };
    content_front_bits(content, loudness)
}

/// The parts of a content fit.
pub open spec fn content_fits(content: ContentSyntax) -> bool {
    &&& content.index < 4
    &&& option_below(content.language, 16)
    &&& content.loudness matches Some(loudness) ==> loudness_fits(loudness)
    &&& dialogue_fits(content.dialogue)
    &&& content.complementary_object_groups.len() <= 4
    &&& forall|i: int|
        0 <= i < content.complementary_object_groups.len() ==> list_fits(
            #[trigger] content.complementary_object_groups[i],
            3,
            3,
        )
    &&& list_fits(content.object_references, 3, 3)
}

proof fn lemma_content_front(bytes: Seq<u8>, at: int, content: ContentSyntax, rest: Seq<bool>)
    requires
        content_fits(content),
        spells(bytes, at, content_front_bits(content, rest)),
    ensures
        content_of(bytes, at).index == content.index,
        content_of(bytes, at).language == content.language,
        bit_at(bytes, at + 3) == (content.loudness is Some),
        bit_at(bytes, at + 4) == (content.dialogue is Some),
        bit_at(bytes, at + 5) == (content.complementary_object_groups.len() > 0),
        spells(bytes, content_loudness_at(bytes, at), rest),
        content_front_bits(content, rest).len() == content_loudness_at(bytes, at) - at
            + rest.len(),
{
    lemma_strings();
    lemma_span_values();
}

proof fn lemma_dialogue(bytes: Seq<u8>, at: int, dialogue: DialogueMetadata, rest: Seq<bool>)
    requires
        dialogue_fits(Some(dialogue)),
        spells(bytes, at, dialogue_bits(Some(dialogue), rest)),
    ensures
        dialogue_of(bytes, at) == dialogue,
        spells(bytes, at + 5, rest),
        dialogue_bits(Some(dialogue), rest).len() == 5 + rest.len(),
{
    lemma_strings();
    lemma_span_values();
}

proof fn lemma_groups(bytes: Seq<u8>, at: int, groups: Seq<Seq<u8>>, rest: Seq<bool>)
    requires
        1 <= groups.len() <= 4,
        forall|i: int| 0 <= i < groups.len() ==> list_fits(#[trigger] groups[i], 3, 3),
        spells(bytes, at, groups_bits(groups, rest)),
    ensures
        groups_of(bytes, at) == groups,
        ({
            let end = chain_start(group_step(bytes), at + 2, list_len(bytes, at, 2));
            &&& spells(bytes, end, rest)
            &&& end == at + groups_bits(groups, rest).len() - rest.len()
        }),
{
    let lists = put_lists(groups, 0, rest);
    assert(list_len(bytes, at, 2) == groups.len() && spells(bytes, at + 2, lists) && groups_bits(
        groups,
        rest,
    ).len() == 2 + lists.len()) by {
        lemma_strings();
        lemma_span_values();
    }
    lemma_lists(bytes, at + 2, groups, groups.len() as int, rest);
    let found = groups_of(bytes, at);
    assert forall|i: int| 0 <= i < groups.len() implies found[i] == #[trigger] groups[i] by {
        lemma_lists(bytes, at + 2, groups, i, rest);
    }
    assert(found =~= groups);
}

/// A content is read as it was written.
pub proof fn written_contents_read_back(
    bytes: Seq<u8>,
    at: int,
    content: ContentSyntax,
    rest: Seq<bool>,
)
    requires
        content_fits(content),
        spells(bytes, at, content_bits(content, rest)),
    ensures
        content_of(bytes, at) == content,
        spells(bytes, content_end(bytes, at), rest),
        content_end(bytes, at) == at + content_bits(content, rest).len() - rest.len(),
{
    let groups = content.complementary_object_groups;
    let list = put_list(content.object_references, 3, 3, rest);
    let others = groups_bits(groups, list);
    let dialogue = dialogue_bits(content.dialogue, others);
    let loudness = match content.loudness {
        Some(loudness) => loudness_bits(loudness, dialogue),
        None => dialogue,
    };
    lemma_content_front(bytes, at, content, loudness);
    if let Some(value) = content.loudness {
        written_loudness_reads_back(bytes, content_loudness_at(bytes, at), value, dialogue);
    }
    if let Some(value) = content.dialogue {
        lemma_dialogue(bytes, content_dialogue_at(bytes, at), value, others);
    }
    if groups.len() > 0 {
        lemma_groups(bytes, content_groups_at(bytes, at), groups, list);
    } else {
        assert(groups =~= Seq::empty());
    }
    written_lists_read_back(
        bytes,
        content_list_at(bytes, at),
        content.object_references,
        3,
        3,
        rest,
    );
    assert(content_of(bytes, at) =~= content);
}

/// The bits of a gain: the unit, the half of the scale and a code.
pub open spec fn gain_bits(gain: Option<MetadataGain>, rest: Seq<bool>) -> Seq<bool> {
    match gain {
        Some(gain) => put_flag(
            gain.unit is Decibels,
            put_flag(gain.upper_half, put(gain.value as int, 6, rest)),
        ),
        None => rest,
    }
}

/// The bits of what a listener may do with an object: whether it may be switched, the range of its
/// gain, and the range of each coordinate.
pub open spec fn interaction_bits(
    interaction: AudioObjectInteractionMetadata,
    rest: Seq<bool>,
) -> Seq<bool> {
    let position = match interaction.position {
        Some(
            PositionInteractionMetadata::Polar {
                azimuth_min,
                azimuth_max,
                elevation_min,
                elevation_max,
                distance_min,
                distance_max,
            },
        ) => put_flag(
            false,
            ranges_bits(
                azimuth_min,
                azimuth_max,
                elevation_min,
                elevation_max,
                distance_min,
                distance_max,
                rest,
            ),
        ),
        Some(
            PositionInteractionMetadata::Cartesian { x_min, x_max, y_min, y_max, z_min, z_max },
        ) => put_flag(true, ranges_bits(x_min, x_max, y_min, y_max, z_min, z_max, rest)),
        None => rest,
    };
    let gain = match interaction.gain {
        Some(range) => put_flag(
            range.unit is Decibels,
            put(range.minimum as int, 7, put(range.maximum as int, 7, position)),
        ),
        None => position,
    };
    put_flag(
        interaction.on_off_interact,
        put_flag(
            interaction.gain is Some,
            put_flag(interaction.position is Some, gain),
        ),
    )
}

/// The bits of three ranges, least before most: of eight, six and four bits.
pub open spec fn ranges_bits(
    first_min: u8,
    first_max: u8,
    second_min: u8,
    second_max: u8,
    third_min: u8,
    third_max: u8,
    rest: Seq<bool>,
) -> Seq<bool> {
    put(
        first_min as int,
        8,
        put(
            first_max as int,
            8,
            put(
                second_min as int,
                6,
                put(
                    second_max as int,
                    6,
                    put(third_min as int, 4, put(third_max as int, 4, rest)),
                ),
            ),
        ),
    )
}

/// The ranges of an interaction fit.
pub open spec fn interaction_fits(interaction: AudioObjectInteractionMetadata) -> bool {
    &&& interaction.gain matches Some(range) ==> range.minimum < 128 && range.maximum < 128
    &&& match interaction.position {
        Some(
            PositionInteractionMetadata::Polar {
                elevation_min,
                elevation_max,
                distance_min,
                distance_max,
                ..
            },
        ) => elevation_min < 64 && elevation_max < 64 && distance_min < 16 && distance_max < 16,
        Some(PositionInteractionMetadata::Cartesian { y_min, y_max, z_min, z_max, .. }) => y_min
            < 64 && y_max < 64 && z_min < 16 && z_max < 16,
        None => true,
    }
}

/// What a listener may do with an object is read as it was written.
pub proof fn written_interactions_read_back(
    bytes: Seq<u8>,
    at: int,
    interaction: AudioObjectInteractionMetadata,
    rest: Seq<bool>,
)
    requires
        interaction_fits(interaction),
        spells(bytes, at, interaction_bits(interaction, rest)),
    ensures
        interaction_of(bytes, at) == interaction,
        spells(bytes, interaction_end(bytes, at), rest),
        interaction_end(bytes, at) == at + interaction_bits(interaction, rest).len() - rest.len(),
{
    lemma_strings();
    lemma_span_values();
}

/// The bits of an object up to its name: its index, eight flags, and what the first three of them
/// announce.
pub open spec fn object_front_bits(object: ObjectSyntax, rest: Seq<bool>) -> Seq<bool> {
    let body = object_body_bits(object, rest);
    let later = put_flag(
        object.interaction is Some,
        put_flag(
            object.gain is Some,
            put_flag(object.head_locked, put_flag(object.muted, body)),
        ),
    );
    put(
        object.index as int,
        3,
        put_flag(
            object.language is Some,
            put_flag(
                object.dialogue is Some,
                put_flag(object.importance is Some, put_flag(object.disable_ducking, later)),
            ),
        ),
    )
}

/// The language, the dialogue and the importance of an object.
pub open spec fn object_body_bits(object: ObjectSyntax, rest: Seq<bool>) -> Seq<bool> {
    put_option(
        object.language,
        4,
        dialogue_bits(object.dialogue, put_option(object.importance, 4, rest)),
    )
}

/// The bits of an object: its front, its name and what a listener may do with it, its gain, and the
/// packs that it refers to.
pub open spec fn static_object_bits(object: ObjectSyntax, rest: Seq<bool>) -> Seq<bool> {
    let list = put_list(object.pack_references, 3, 3, rest);
    let gain = gain_bits(object.gain, list);
    let name = match (object.name, object.interaction) {
        (Some(name), Some(interaction)) => put_all(name, 8, 0, interaction_bits(interaction, gain)),
        _ => gain,
    };
    object_front_bits(object, name)
}

/// The parts of an object fit: it has a name of twenty-four bytes and an interaction, or neither.
pub open spec fn static_object_fits(object: ObjectSyntax) -> bool {
    &&& object.index < 8
    &&& option_below(object.language, 16)
    &&& dialogue_fits(object.dialogue)
    &&& option_below(object.importance, 11)
    &&& object.name is Some <==> object.interaction is Some
    &&& object.name matches Some(name) ==> name.len() == 24
    &&& object.interaction matches Some(interaction) ==> interaction_fits(interaction)
    &&& object.gain matches Some(gain) ==> gain.value < 64
    &&& list_fits(object.pack_references, 3, 3)
}

proof fn lemma_object_flags(bytes: Seq<u8>, at: int, object: ObjectSyntax, rest: Seq<bool>)
    requires
        static_object_fits(object),
        spells(bytes, at, object_front_bits(object, rest)),
    ensures
        code(bytes, at, 3) == object.index,
        bit_at(bytes, at + 3) == (object.language is Some),
        bit_at(bytes, at + 4) == (object.dialogue is Some),
        bit_at(bytes, at + 5) == (object.importance is Some),
        bit_at(bytes, at + 6) == object.disable_ducking,
        bit_at(bytes, at + 7) == (object.interaction is Some),
        bit_at(bytes, at + 8) == (object.gain is Some),
        bit_at(bytes, at + 9) == object.head_locked,
        bit_at(bytes, at + 10) == object.muted,
        spells(bytes, at + 11, object_body_bits(object, rest)),
        object_front_bits(object, rest).len() == 11 + object_body_bits(object, rest).len(),
{
    lemma_strings();
    lemma_span_values();
}

proof fn lemma_object_front(bytes: Seq<u8>, at: int, object: ObjectSyntax, rest: Seq<bool>)
    requires
        static_object_fits(object),
        spells(bytes, at, object_front_bits(object, rest)),
    ensures
        ({
            let found = object_of(bytes, at);
            &&& found.language == object.language
            &&& found.dialogue == object.dialogue
            &&& found.importance == object.importance
            &&& spells(bytes, object_name_at(bytes, at), rest)
            &&& object_front_bits(object, rest).len() == object_name_at(bytes, at) - at
                + rest.len()
        }),
{
    lemma_object_flags(bytes, at, object, rest);
    lemma_strings();
    lemma_span_values();
}

proof fn lemma_name(bytes: Seq<u8>, at: int, name: Seq<u8>, rest: Seq<bool>)
    requires
        name.len() == 24,
        spells(bytes, at, put_all(name, 8, 0, rest)),
    ensures
        codes(bytes, at, 24, 8) == name,
        spells(bytes, at + 192, rest),
        put_all(name, 8, 0, rest).len() == 192 + rest.len(),
{
    lemma_span_values();
    assert(at + 0 * 8 == at);
    lemma_all(bytes, at, name, 8, 0, rest);
    let read = codes(bytes, at, 24, 8);
    assert forall|i: int| 0 <= i < 24 implies #[trigger] read[i] == name[i] by {
        assert(bits(bytes, at + i * 8, 8) == name[i]);
    }
    assert(read =~= name);
}

proof fn lemma_gain(bytes: Seq<u8>, at: int, gain: MetadataGain, rest: Seq<bool>)
    requires
        gain.value < 64,
        spells(bytes, at, gain_bits(Some(gain), rest)),
    ensures
        gain_of(bytes, at) == gain,
        spells(bytes, at + 8, rest),
        gain_bits(Some(gain), rest).len() == 8 + rest.len(),
{
    lemma_strings();
    lemma_span_values();
}

/// An object is read as it was written.
pub proof fn written_objects_read_back(
    bytes: Seq<u8>,
    at: int,
    object: ObjectSyntax,
    rest: Seq<bool>,
)
    requires
        static_object_fits(object),
        spells(bytes, at, static_object_bits(object, rest)),
    ensures
        object_of(bytes, at) == object,
        spells(bytes, object_end(bytes, at), rest),
        object_end(bytes, at) == at + static_object_bits(object, rest).len() - rest.len(),
{
    let list = put_list(object.pack_references, 3, 3, rest);
    let gain = gain_bits(object.gain, list);
    let name = match (object.name, object.interaction) {
        (Some(name), Some(interaction)) => put_all(name, 8, 0, interaction_bits(interaction, gain)),
        _ => gain,
    };
    let found = object_of(bytes, at);
    let name_at = object_name_at(bytes, at);
    lemma_object_flags(bytes, at, object, name);
    lemma_object_front(bytes, at, object, name);
    if object.name is Some {
        lemma_name(bytes, name_at, object.name->0, interaction_bits(object.interaction->0, gain));
        written_interactions_read_back(bytes, name_at + 192, object.interaction->0, gain);
    }
    if let Some(value) = object.gain {
        lemma_gain(bytes, object_gain_at(bytes, at), value, list);
    }
    written_lists_read_back(bytes, object_list_at(bytes, at), object.pack_references, 3, 3, rest);
    assert(found =~= object);
}

/// The bits of a loudspeaker: eight, six, four and two.
pub open spec fn speaker_bits(speaker: DirectSpeakerPosition, rest: Seq<bool>) -> Seq<bool> {
    put(
        speaker.azimuth as int,
        8,
        put(
            speaker.elevation as int,
            6,
            put(speaker.distance as int, 4, put(speaker.screen_edge_lock as int, 2, rest)),
        ),
    )
}

/// The codes of a loudspeaker fit.
pub open spec fn speaker_fits(speaker: DirectSpeakerPosition) -> bool {
    speaker.elevation < 64 && speaker.distance < 16 && speaker.screen_edge_lock < 4
}

/// Where a loudspeaker stands is read as it was written.
pub proof fn written_speakers_read_back(
    bytes: Seq<u8>,
    at: int,
    speaker: DirectSpeakerPosition,
    rest: Seq<bool>,
)
    requires
        speaker_fits(speaker),
        spells(bytes, at, speaker_bits(speaker, rest)),
    ensures
        speaker_of(bytes, at) == speaker,
        spells(bytes, at + 20, rest),
        speaker_bits(speaker, rest).len() == 20 + rest.len(),
{
    lemma_strings();
    lemma_span_values();
}

/// The bits of the loudspeakers from `from` on.
pub open spec fn speakers_bits(
    speakers: Seq<DirectSpeakerPosition>,
    from: int,
    rest: Seq<bool>,
) -> Seq<bool>
    decreases speakers.len() - from,
{
    if from >= speakers.len() {
        rest
    } else {
        speaker_bits(speakers[from], speakers_bits(speakers, from + 1, rest))
    }
}

proof fn lemma_speakers(
    bytes: Seq<u8>,
    at: int,
    speakers: Seq<DirectSpeakerPosition>,
    from: int,
    rest: Seq<bool>,
)
    requires
        forall|i: int| 0 <= i < speakers.len() ==> speaker_fits(#[trigger] speakers[i]),
        0 <= from <= speakers.len(),
        spells(bytes, at + 20 * from, speakers_bits(speakers, from, rest)),
    ensures
        forall|i: int|
            from <= i < speakers.len() ==> speaker_of(bytes, at + 20 * i) == #[trigger] speakers[i],
        spells(bytes, at + 20 * speakers.len(), rest),
        speakers_bits(speakers, from, rest).len() == 20 * (speakers.len() - from) + rest.len(),
    decreases speakers.len() - from,
{
    if from < speakers.len() {
        written_speakers_read_back(
            bytes,
            at + 20 * from,
            speakers[from],
            speakers_bits(speakers, from + 1, rest),
        );
        lemma_speakers(bytes, at, speakers, from + 1, rest);
    }
}

/// The bits of the channels of a pack from `from` on.
pub open spec fn references_bits(
    channels: Seq<PackChannelReference>,
    from: int,
    rest: Seq<bool>,
) -> Seq<bool>
    decreases channels.len() - from,
{
    if from >= channels.len() {
        rest
    } else {
        put(
            channels[from].channel_index as int,
            5,
            put_option(
                channels[from].transformed_channel_reference,
                5,
                references_bits(channels, from + 1, rest),
            ),
        )
    }
}

/// A channel of a pack fits: it has a second reference where channels are used again.
pub open spec fn reference_fits(channel: PackChannelReference, reuse: bool) -> bool {
    &&& channel.channel_index < 32
    &&& channel.transformed_channel_reference is Some <==> reuse
    &&& option_below(channel.transformed_channel_reference, 32)
}

proof fn lemma_references(
    bytes: Seq<u8>,
    at: int,
    channels: Seq<PackChannelReference>,
    reuse: bool,
    from: int,
    rest: Seq<bool>,
)
    requires
        forall|i: int| 0 <= i < channels.len() ==> reference_fits(#[trigger] channels[i], reuse),
        0 <= from <= channels.len(),
        spells(bytes, at + from * pack_channel_width(reuse), references_bits(channels, from, rest)),
    ensures
        forall|i: int|
            from <= i < channels.len() ==> pack_channel_of(
                bytes,
                at + i * pack_channel_width(reuse),
                reuse,
            ) == #[trigger] channels[i],
        spells(bytes, at + channels.len() * pack_channel_width(reuse), rest),
        references_bits(channels, from, rest).len() == (channels.len() - from) * pack_channel_width(
            reuse,
        ) + rest.len(),
    decreases channels.len() - from,
{
    if from < channels.len() {
        let here = at + from * pack_channel_width(reuse);
        let later = references_bits(channels, from + 1, rest);
        assert(reference_fits(channels[from], reuse));
        assert(pack_channel_of(bytes, here, reuse) == channels[from] && spells(
            bytes,
            here + pack_channel_width(reuse),
            later,
        ) && references_bits(channels, from, rest).len() == pack_channel_width(reuse)
            + later.len()) by {
            lemma_strings();
            lemma_span_values();
        }
        if reuse {
            assert((from + 1) * 10 == from * 10 + 10);
        } else {
            assert((from + 1) * 5 == from * 5 + 5);
        }
        lemma_references(bytes, at, channels, reuse, from + 1, rest);
    }
}

/// The bits of what is said of an ambisonic pack.
pub open spec fn hoa_pack_bits(hoa: Option<HoaPackMetadata>, rest: Seq<bool>) -> Seq<bool> {
    match hoa {
        Some(hoa) => put(
            hoa.normalization as int,
            2,
            put(
                hoa.nfc_reference_distance as int,
                4,
                put_flag(hoa.screen_reference, put(hoa.order as int, 3, rest)),
            ),
        ),
        None => rest,
    }
}

/// The bits of a pack.
pub open spec fn pack_bits(pack: PackSyntax, rest: Seq<bool>) -> Seq<bool> {
    let channels = put(
        pack.channels.len() - 1,
        5,
        references_bits(pack.channels, 0, rest),
    );
    let index = put_option(pack.pack_format_start_index, 5, channels);
    let matrix = if pack.type_label == 2 {
        put(
            pack.matrix_output_positions.len() - 1,
            5,
            speakers_bits(pack.matrix_output_positions, 0, index),
        )
    } else {
        index
    };
    let format = put_option(pack.pack_format_id, 6, matrix);
    let label = put(
        pack.type_label as int,
        3,
        put(pack.absolute_distance as int, 5, hoa_pack_bits(pack.hoa, format)),
    );
    put(
        pack.index as int,
        3,
        put_flag(
            pack.importance is Some,
            put_flag(pack.channel_reuse, put_option(pack.importance, 4, label)),
        ),
    )
}

/// The parts of a pack fit: one of loudspeakers or of a matrix has a format, one of a matrix has the
/// loudspeakers that it feeds, and an ambisonic one says how it is to be read.
pub open spec fn pack_fits(pack: PackSyntax) -> bool {
    &&& pack.index < 8
    &&& option_below(pack.importance, 11)
    &&& 1 <= pack.type_label <= 5
    &&& pack.absolute_distance < 32
    &&& pack.hoa is Some <==> pack.type_label == 4
    &&& pack.hoa matches Some(hoa) ==> hoa.normalization < 4 && hoa.nfc_reference_distance < 16
        && hoa.order < 8
    &&& pack.pack_format_id is Some <==> pack.type_label <= 2
    &&& option_below(pack.pack_format_id, 64)
    &&& if pack.type_label == 2 {
        1 <= pack.matrix_output_positions.len() <= 32
    } else {
        pack.matrix_output_positions.len() == 0
    }
    &&& forall|i: int|
        0 <= i < pack.matrix_output_positions.len() ==> speaker_fits(
            #[trigger] pack.matrix_output_positions[i],
        )
    &&& pack.pack_format_start_index is Some <==> !pack.channel_reuse
    &&& option_below(pack.pack_format_start_index, 32)
    &&& 1 <= pack.channels.len() <= 32
    &&& forall|i: int|
        0 <= i < pack.channels.len() ==> reference_fits(
            #[trigger] pack.channels[i],
            pack.channel_reuse,
        )
}

/// A pack is read as it was written.
#[verifier::rlimit(40)]
pub proof fn written_packs_read_back(bytes: Seq<u8>, at: int, pack: PackSyntax, rest: Seq<bool>)
    requires
        pack_fits(pack),
        spells(bytes, at, pack_bits(pack, rest)),
    ensures
        pack_of(bytes, at) == pack,
        spells(bytes, pack_end(bytes, at), rest),
        pack_end(bytes, at) == at + pack_bits(pack, rest).len() - rest.len(),
{
    let last = references_bits(pack.channels, 0, rest);
    let channels = put(pack.channels.len() - 1, 5, last);
    let index = put_option(pack.pack_format_start_index, 5, channels);
    let places = speakers_bits(pack.matrix_output_positions, 0, index);
    let matrix = if pack.type_label == 2 {
        put(pack.matrix_output_positions.len() - 1, 5, places)
    } else {
        index
    };
    let format = put_option(pack.pack_format_id, 6, matrix);
    let found = pack_of(bytes, at);
    let label_at = pack_label_at(bytes, at);
    let format_at = pack_format_at(bytes, at);
    let matrix_at = pack_matrix_at(bytes, at);
    assert(found.index == pack.index && found.importance == pack.importance && found.channel_reuse
        == pack.channel_reuse && found.type_label == pack.type_label && found.absolute_distance
        == pack.absolute_distance && spells(
        bytes,
        label_at + 8,
        hoa_pack_bits(pack.hoa, format),
    ) && pack_bits(pack, rest).len() == label_at + 8 - at + hoa_pack_bits(pack.hoa, format).len())
        by {
        lemma_strings();
        lemma_span_values();
    }
    assert(found.hoa == pack.hoa && found.pack_format_id == pack.pack_format_id && spells(
        bytes,
        matrix_at,
        matrix,
    ) && hoa_pack_bits(pack.hoa, format).len() == matrix_at - (label_at + 8) + matrix.len()) by {
        lemma_strings();
        lemma_span_values();
    }
    let index_at = pack_index_at(bytes, at);
    if pack.type_label == 2 {
        let count = pack.matrix_output_positions.len() as int;
        assert(list_len(bytes, matrix_at, 5) == count && spells(bytes, matrix_at + 5, places)
            && matrix.len() == 5 + places.len()) by {
            lemma_strings();
            lemma_span_values();
        }
        lemma_speakers(bytes, matrix_at + 5, pack.matrix_output_positions, 0, index);
        let read = speakers_of(bytes, matrix_at);
        assert forall|i: int| 0 <= i < count implies #[trigger] read[i]
            == pack.matrix_output_positions[i] by {
            assert(speaker_of(bytes, matrix_at + 5 + 20 * i) == pack.matrix_output_positions[i]);
        }
        assert(read =~= pack.matrix_output_positions);
    } else {
        assert(pack.matrix_output_positions =~= Seq::empty());
    }
    let channels_at = pack_channels_at(bytes, at);
    assert(found.pack_format_start_index == pack.pack_format_start_index && list_len(
        bytes,
        channels_at,
        5,
    ) == pack.channels.len() && spells(bytes, channels_at + 5, last) && index.len() == channels_at
        - index_at + 5 + last.len()) by {
        lemma_strings();
        lemma_span_values();
    }
    let reuse = pack.channel_reuse;
    assert(0 * pack_channel_width(reuse) == 0) by (nonlinear_arith);
    lemma_references(bytes, channels_at + 5, pack.channels, reuse, 0, rest);
    let read = pack_channels_of(bytes, channels_at, reuse);
    assert forall|i: int| 0 <= i < pack.channels.len() implies #[trigger] read[i]
        == pack.channels[i] by {
        assert(pack_channel_of(
            bytes,
            channels_at + 5 + i * pack_channel_width(reuse),
            reuse,
        ) == pack.channels[i]);
    }
    assert(read =~= pack.channels);
    assert(found =~= pack);
}

/// The bits of a channel format.
pub open spec fn channel_bits(channel: ChannelSyntax, rest: Seq<bool>) -> Seq<bool> {
    let tail = put_all(channel.matrix_coefficients, 8, 0, rest);
    let position = match channel.direct_speaker_position {
        Some(speaker) => speaker_bits(speaker, tail),
        None => tail,
    };
    put(
        channel.index as int,
        5,
        put_flag(channel.gain is Some, gain_bits(channel.gain, position)),
    )
}

/// A channel format fits the pack that speaks for it: in a pack of loudspeakers with positions it
/// has one, and in a matrix a coefficient for each loudspeaker that the matrix feeds.
pub open spec fn channel_fits(channel: ChannelSyntax, pack: PackSyntax) -> bool {
    &&& channel.index < 32
    &&& channel.gain matches Some(gain) ==> gain.value < 64
    &&& channel.direct_speaker_position is Some <==> pack.type_label == 1 && pack.pack_format_id
        == Some(63u8)
    &&& channel.direct_speaker_position matches Some(speaker) ==> speaker_fits(speaker)
    &&& channel.matrix_coefficients.len() == (if pack.type_label == 2 {
        pack.matrix_output_positions.len()
    } else {
        0
    })
}

proof fn lemma_last_pack(packs: Seq<PackSyntax>, index: u8, pick: int)
    requires
        0 <= pick < packs.len(),
        lists_channel(packs[pick], index),
        forall|i: int| pick < i < packs.len() ==> !lists_channel(#[trigger] packs[i], index),
    ensures
        pack_of_channel(packs, index) == Some(packs[pick]),
    decreases packs.len(),
{
    if pick < packs.len() - 1 {
        assert(!lists_channel(packs[packs.len() - 1], index));
        let fewer = packs.drop_last();
        assert(fewer[pick] == packs[pick]);
        assert forall|i: int| pick < i < fewer.len() implies !lists_channel(
            #[trigger] fewer[i],
            index,
        ) by {
            assert(fewer[i] == packs[i]);
        }
        lemma_last_pack(fewer, index, pick);
    }
}

/// A channel format is read as it was written. Of several packs with the channel the last one
/// speaks for it.
pub proof fn written_channels_read_back(
    bytes: Seq<u8>,
    end: int,
    at: int,
    packs: Seq<PackSyntax>,
    pick: int,
    channel: ChannelSyntax,
    rest: Seq<bool>,
)
    requires
        0 <= pick < packs.len(),
        exists|i: int|
            0 <= i < packs[pick].channels.len() && #[trigger] packs[pick].channels[i].channel_index
                == channel.index,
        forall|j: int, i: int|
            pick < j < packs.len() && 0 <= i < packs[j].channels.len()
                ==> #[trigger] packs[j].channels[i].channel_index != channel.index,
        channel_fits(channel, packs[pick]),
        spells(bytes, at, channel_bits(channel, rest)),
        at + channel_bits(channel, rest).len() - rest.len() <= end,
    ensures
        channel_at(bytes, end, at, packs) == Ok::<(ChannelSyntax, int), MetadataError>(
            (channel, at + channel_bits(channel, rest).len() - rest.len()),
        ),
        spells(bytes, at + channel_bits(channel, rest).len() - rest.len(), rest),
{
    let pack = packs[pick];
    assert(lists_channel(pack, channel.index));
    assert forall|j: int| pick < j < packs.len() implies !lists_channel(
        #[trigger] packs[j],
        channel.index,
    ) by {}
    lemma_last_pack(packs, channel.index, pick);
    let tail = put_all(channel.matrix_coefficients, 8, 0, rest);
    let position = match channel.direct_speaker_position {
        Some(speaker) => speaker_bits(speaker, tail),
        None => tail,
    };
    let has_gain = bit_at(bytes, at + 5);
    let position_at = at + 6 + if has_gain {
        8int
    } else {
        0
    };
    assert(code(bytes, at, 5) == channel.index && has_gain == (channel.gain is Some) && (
    channel.gain is Some ==> gain_of(bytes, at + 6) == channel.gain->0) && spells(
        bytes,
        position_at,
        position,
    ) && channel_bits(channel, rest).len() == position_at - at + position.len()) by {
        lemma_strings();
        lemma_span_values();
    }
    let tail_at = position_at + if channel.direct_speaker_position is Some {
        20int
    } else {
        0
    };
    if let Some(speaker) = channel.direct_speaker_position {
        written_speakers_read_back(bytes, position_at, speaker, tail);
    }
    lemma_span_values();
    assert(tail_at + 0 * 8 == tail_at);
    lemma_all(bytes, tail_at, channel.matrix_coefficients, 8, 0, rest);
    let count = coefficient_count(pack);
    let read = codes(bytes, position_at, count, 8);
    assert forall|i: int| 0 <= i < count implies #[trigger] read[i]
        == channel.matrix_coefficients[i] by {
        assert(bits(bytes, tail_at + i * 8, 8) == channel.matrix_coefficients[i]);
    }
    assert(read =~= channel.matrix_coefficients);
    assert(has_position(pack) == (channel.direct_speaker_position is Some));
}

/// A channel that no pack refers to is refused.
pub proof fn channels_without_a_pack_are_refused(
    bytes: Seq<u8>,
    end: int,
    at: int,
    packs: Seq<PackSyntax>,
)
    requires
        at + 14 <= end,
        forall|j: int, i: int|
            0 <= j < packs.len() && 0 <= i < packs[j].channels.len()
                ==> #[trigger] packs[j].channels[i].channel_index != code(bytes, at, 5),
    ensures
        channel_at(bytes, end, at, packs) == Err::<(ChannelSyntax, int), MetadataError>(
            MetadataError::UnmappedChannelFormat { index: code(bytes, at, 5) },
        ),
{
    lemma_no_pack(packs, code(bytes, at, 5));
}

proof fn lemma_no_pack(packs: Seq<PackSyntax>, index: u8)
    requires
        forall|j: int, i: int|
            0 <= j < packs.len() && 0 <= i < packs[j].channels.len()
                ==> #[trigger] packs[j].channels[i].channel_index != index,
    ensures
        pack_of_channel(packs, index) is None,
    decreases packs.len(),
{
    if packs.len() > 0 {
        assert(packs.last() == packs[packs.len() - 1]);
        let fewer = packs.drop_last();
        assert forall|j: int, i: int|
            0 <= j < fewer.len() && 0 <= i
                < fewer[j].channels.len() implies #[trigger] fewer[j].channels[i].channel_index
            != index by {
            assert(fewer[j] == packs[j]);
            assert(packs[j].channels[i].channel_index != index);
        }
        lemma_no_pack(fewer, index);
    }
}

/// An importance above ten counts as ten.
pub proof fn importance_is_ten_at_most(bytes: Seq<u8>, at: int, value: u8, rest: Seq<bool>)
    requires
        value < 16,
        spells(bytes, at, put(value as int, 4, rest)),
    ensures
        importance_of(bytes, at, true) == Some(
            if value < 10 {
                value
            } else {
                10
            },
        ),
        importance_of(bytes, at, false) is None,
{
    lemma_strings();
    lemma_span_values();
}

/// A type label in front of the first counts as the first, and one behind the last as the last.
pub proof fn labels_lie_between_one_and_five(
    bytes: Seq<u8>,
    at: int,
    index: u8,
    importance: Option<u8>,
    reuse: bool,
    label: u8,
    rest: Seq<bool>,
)
    requires
        index < 8,
        option_below(importance, 16),
        label < 8,
        spells(
            bytes,
            at,
            put(
                index as int,
                3,
                put_flag(
                    importance is Some,
                    put_flag(reuse, put_option(importance, 4, put(label as int, 3, rest))),
                ),
            ),
        ),
    ensures
        1 <= pack_of(bytes, at).type_label <= 5,
        1 <= label <= 5 ==> pack_of(bytes, at).type_label == label,
        label == 0 ==> pack_of(bytes, at).type_label == 1,
        label > 5 ==> pack_of(bytes, at).type_label == 5,
{
    lemma_strings();
    lemma_span_values();
}

} // verus!
