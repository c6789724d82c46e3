//! Writing what a frame says of its moving objects, and what reading does with it.
//!
//! Each writer puts the bits of one block in front of `rest`, which is what follows the block.

use crate::bit_writing::{lemma_packed, lemma_strings, packed, put, put_flag, spells};
use crate::bitreader::lemma_span_values;
use crate::engine::metadata::MetadataError;
use crate::engine::metadata_dynamic::{
    dynamic_at, dynamic_object_end, dynamic_object_of, dynamic_object_step, level1_end, level1_of,
    level2_end, level2_of,
};
use crate::engine::metadata_syntax::{chain_start, code};
use crate::engine::metadata_values::{
    ChannelLockMetadata, DynamicLevel1Metadata, DynamicLevel2Metadata, DynamicObjectExtent,
    DynamicObjectMetadata, DynamicObjectPosition, DynamicSyntax, ObjectDivergenceMetadata,
};
use vstd::prelude::*;

verus! {

/// The bits of a code, if there is one.
pub open spec fn put_option(value: Option<u8>, width: int, rest: Seq<bool>) -> Seq<bool> {
    match value {
        Some(value) => put(value as int, width, rest),
        None => rest,
    }
}

/// A code that is below `limit`, if there is one.
pub open spec fn option_below(value: Option<u8>, limit: int) -> bool {
    value matches Some(value) ==> value < limit
}

/// The bits of a position: eight, six and four.
pub open spec fn position_bits(position: DynamicObjectPosition, rest: Seq<bool>) -> Seq<bool> {
    match position {
        DynamicObjectPosition::Polar { azimuth, elevation, distance } => put(
            azimuth as int,
            8,
            put(elevation as int, 6, put(distance as int, 4, rest)),
        ),
        DynamicObjectPosition::Cartesian { x, y, z } => put(
            x as int,
            8,
            put(y as int, 6, put(z as int, 4, rest)),
        ),
    }
}

/// The bits of an extent, if there is one: seven, five and four.
pub open spec fn extent_bits(extent: Option<DynamicObjectExtent>, rest: Seq<bool>) -> Seq<bool> {
    match extent {
        Some(DynamicObjectExtent::Polar { width, height, depth }) => put(
            width as int,
            7,
            put(height as int, 5, put(depth as int, 4, rest)),
        ),
        Some(DynamicObjectExtent::Cartesian { width_x, height_y, depth_z }) => put(
            width_x as int,
            7,
            put(height_y as int, 5, put(depth_z as int, 4, rest)),
        ),
        None => rest,
    }
}

/// The first level can be written: each code fits its field, the extent is given in the coordinates
/// of the position, and no importance is above ten.
pub open spec fn level1_can_be_written(level: DynamicLevel1Metadata) -> bool {
    &&& match level.position {
        DynamicObjectPosition::Polar { azimuth, elevation, distance } => elevation < 64 && distance
            < 16,
        DynamicObjectPosition::Cartesian { x, y, z } => y < 64 && z < 16,
    }
    &&& match level.extent {
        Some(DynamicObjectExtent::Polar { width, height, depth }) => level.position is Polar && width
            < 128 && height < 32 && depth < 16,
        Some(DynamicObjectExtent::Cartesian { width_x, height_y, depth_z }) =>
        level.position is Cartesian && width_x < 128 && height_y < 32 && depth_z < 16,
        None => true,
    }
    &&& option_below(level.gain, 128)
    &&& option_below(level.diffuse, 128)
    &&& option_below(level.importance, 11)
}

/// The bits of the first level: five flags, the position, and what the flags announce.
pub open spec fn level1_bits(level: DynamicLevel1Metadata, rest: Seq<bool>) -> Seq<bool> {
    let importance = put_option(level.importance, 4, rest);
    let jump = put_flag(level.jump_position, importance);
    let diffuse = put_option(level.diffuse, 7, jump);
    let gain = put_option(level.gain, 7, diffuse);
    let extent = extent_bits(level.extent, gain);
    let position = position_bits(level.position, extent);
    put_flag(
        level.position is Cartesian,
        put_flag(
            level.extent is Some,
            put_flag(
                level.gain is Some,
                put_flag(
                    level.diffuse is Some,
                    put_flag(level.importance is Some, position),
                ),
            ),
        ),
    )
}

proof fn lemma_level1(bytes: Seq<u8>, at: int, level: DynamicLevel1Metadata, rest: Seq<bool>)
    requires
        level1_can_be_written(level),
        spells(bytes, at, level1_bits(level, rest)),
    ensures
        level1_of(bytes, at) == level,
        spells(bytes, level1_end(bytes, at), rest),
        level1_end(bytes, at) == at + level1_bits(level, rest).len() - rest.len(),
{
    lemma_strings();
    lemma_span_values();
}

/// The first level of an object is read as it was written, wherever it stands, and not a bit
/// more.
pub proof fn written_positions_read_back(
    before: Seq<bool>,
    level: DynamicLevel1Metadata,
    rest: Seq<bool>,
)
    requires
        level1_can_be_written(level),
    ensures
        ({
            let bytes = packed(before + level1_bits(level, rest));
            &&& level1_of(bytes, before.len() as int) == level
            &&& level1_end(bytes, before.len() as int) == before.len() + level1_bits(
                level,
                rest,
            ).len() - rest.len()
        }),
{
    let string = level1_bits(level, rest);
    lemma_packed(before, string);
    lemma_level1(packed(before + string), before.len() as int, level, rest);
}

/// The second level can be written: a lock has a distance if it is on, a spread has a range if it is
/// not zero, and each code fits its field.
pub open spec fn level2_can_be_written(level: DynamicLevel2Metadata) -> bool {
    &&& level.channel_lock matches Some(lock) ==> lock.locked == (lock.maximum_distance is Some)
        && option_below(lock.maximum_distance, 16)
    &&& level.object_divergence matches Some(spread) ==> spread.divergence < 16 && (
    spread.divergence != 0) == (spread.azimuth_range is Some) && option_below(
        spread.azimuth_range,
        64,
    )
    &&& option_below(level.screen_edge_lock, 4)
}

/// The bits of a lock, if there is one.
pub open spec fn lock_bits(lock: Option<ChannelLockMetadata>, rest: Seq<bool>) -> Seq<bool> {
    match lock {
        Some(lock) => put_flag(lock.locked, put_option(lock.maximum_distance, 4, rest)),
        None => rest,
    }
}

/// The bits of a spread, if there is one.
pub open spec fn divergence_bits(spread: Option<ObjectDivergenceMetadata>, rest: Seq<bool>) -> Seq<
    bool,
> {
    match spread {
        Some(spread) => put(spread.divergence as int, 4, put_option(spread.azimuth_range, 6, rest)),
        None => rest,
    }
}

/// The bits of the second level: four parts, each behind a flag.
pub open spec fn level2_bits(level: DynamicLevel2Metadata, rest: Seq<bool>) -> Seq<bool> {
    let edge = put_flag(
        level.screen_edge_lock is Some,
        put_option(level.screen_edge_lock, 2, rest),
    );
    let screen = match level.object_screen_reference {
        Some(reference) => put_flag(true, put_flag(reference, edge)),
        None => put_flag(false, edge),
    };
    let spread = put_flag(
        level.object_divergence is Some,
        divergence_bits(level.object_divergence, screen),
    );
    put_flag(level.channel_lock is Some, lock_bits(level.channel_lock, spread))
}

proof fn lemma_level2(bytes: Seq<u8>, at: int, level: DynamicLevel2Metadata, rest: Seq<bool>)
    requires
        level2_can_be_written(level),
        spells(bytes, at, level2_bits(level, rest)),
    ensures
        level2_of(bytes, at) == level,
        spells(bytes, level2_end(bytes, at), rest),
        level2_end(bytes, at) == at + level2_bits(level, rest).len() - rest.len(),
{
    lemma_strings();
    lemma_span_values();
}

/// An object can be written at a level: it has the levels that are written then, unless it is muted.
pub open spec fn object_can_be_written(object: DynamicObjectMetadata, level: u8) -> bool {
    &&& object.transport_channel_reference < 32
    &&& object.level1 is Some <==> !object.muted && level <= 1
    &&& object.level2 is Some <==> !object.muted && level == 1
    &&& object.level1 matches Some(first) ==> level1_can_be_written(first)
    &&& object.level2 matches Some(second) ==> level2_can_be_written(second)
}

/// The bits of an object: whether it is muted, its transport channel, and its levels.
pub open spec fn object_bits(object: DynamicObjectMetadata, rest: Seq<bool>) -> Seq<bool> {
    let second = match object.level2 {
        Some(second) => level2_bits(second, rest),
        None => rest,
    };
    let first = match object.level1 {
        Some(first) => level1_bits(first, second),
        None => second,
    };
    put_flag(object.muted, put(object.transport_channel_reference as int, 5, first))
}

proof fn lemma_object(
    bytes: Seq<u8>,
    at: int,
    object: DynamicObjectMetadata,
    level: u8,
    rest: Seq<bool>,
)
    requires
        object_can_be_written(object, level),
        spells(bytes, at, object_bits(object, rest)),
    ensures
        dynamic_object_of(bytes, at, level) == object,
        spells(bytes, dynamic_object_end(bytes, at, level), rest),
        dynamic_object_end(bytes, at, level) == at + object_bits(object, rest).len() - rest.len(),
{
    let second = match object.level2 {
        Some(second) => level2_bits(second, rest),
        None => rest,
    };
    assert(spells(bytes, at + 6, match object.level1 {
        Some(first) => level1_bits(first, second),
        None => second,
    }) && dynamic_object_of(bytes, at, level).transport_channel_reference
        == object.transport_channel_reference && dynamic_object_of(bytes, at, level).muted
        == object.muted && object_bits(object, rest).len() == 6 + (match object.level1 {
        Some(first) => level1_bits(first, second),
        None => second,
    }).len()) by {
        lemma_strings();
        lemma_span_values();
    }
    if let Some(first) = object.level1 {
        lemma_level1(bytes, at + 6, first, second);
        if let Some(last) = object.level2 {
            lemma_level2(bytes, level1_end(bytes, at + 6), last, rest);
        }
    }
}

/// The bits of the objects from `from` on.
pub open spec fn objects_bits(
    objects: Seq<DynamicObjectMetadata>,
    from: int,
    rest: Seq<bool>,
) -> Seq<bool>
    decreases objects.len() - from,
{
    if from >= objects.len() {
        rest
    } else {
        object_bits(objects[from], objects_bits(objects, from + 1, rest))
    }
}

proof fn lemma_objects(
    bytes: Seq<u8>,
    at: int,
    objects: Seq<DynamicObjectMetadata>,
    level: u8,
    rest: Seq<bool>,
    index: int,
)
    requires
        forall|i: int|
            0 <= i < objects.len() ==> object_can_be_written(#[trigger] objects[i], level),
        spells(bytes, at, objects_bits(objects, 0, rest)),
        0 <= index <= objects.len(),
    ensures
        ({
            let here = chain_start(dynamic_object_step(bytes, level), at, index);
            &&& spells(bytes, here, objects_bits(objects, index, rest))
            &&& here == at + objects_bits(objects, 0, rest).len() - objects_bits(
                objects,
                index,
                rest,
            ).len()
            &&& index < objects.len() ==> dynamic_object_of(bytes, here, level) == objects[index]
        }),
    decreases index,
{
    let step = dynamic_object_step(bytes, level);
    if index > 0 {
        lemma_objects(bytes, at, objects, level, rest, index - 1);
        lemma_object(
            bytes,
            chain_start(step, at, index - 1),
            objects[index - 1],
            level,
            objects_bits(objects, index, rest),
        );
    }
    if index < objects.len() {
        lemma_object(
            bytes,
            chain_start(step, at, index),
            objects[index],
            level,
            objects_bits(objects, index + 1, rest),
        );
    }
}

/// The bits of the dynamic metadata: the level, then the objects.
pub open spec fn dynamic_bits(
    level: u8,
    objects: Seq<DynamicObjectMetadata>,
    rest: Seq<bool>,
) -> Seq<bool> {
    put(level as int, 3, objects_bits(objects, 0, rest))
}

/// The dynamic metadata of a frame is read as it was written, wherever it stands, and not a bit more.
pub proof fn written_dynamic_metadata_is_found(
    bytes: Seq<u8>,
    end: int,
    start: int,
    level: u8,
    objects: Seq<DynamicObjectMetadata>,
    rest: Seq<bool>,
)
    requires
        level < 8,
        objects.len() <= 32,
        forall|i: int|
            0 <= i < objects.len() ==> object_can_be_written(#[trigger] objects[i], level),
        spells(bytes, start, dynamic_bits(level, objects, rest)),
        start + dynamic_bits(level, objects, rest).len() - rest.len() <= end,
    ensures
        ({
            let size = dynamic_bits(level, objects, rest).len() - rest.len();
            &&& spells(bytes, start + size, rest)
            &&& dynamic_at(bytes, end, start, objects.len() as int) == Ok::<
                (DynamicSyntax, int),
                MetadataError,
            >((DynamicSyntax { consumed_bits: size, level, objects }, start + size))
        }),
{
    let string = dynamic_bits(level, objects, rest);
    assert(code(bytes, start, 3) == level && spells(
        bytes,
        start + 3,
        objects_bits(objects, 0, rest),
    ) && string.len() == 3 + objects_bits(objects, 0, rest).len()) by {
        lemma_strings();
        lemma_span_values();
    }
    let step = dynamic_object_step(bytes, level);
    lemma_objects(bytes, start + 3, objects, level, rest, objects.len() as int);
    assert forall|i: int| 0 <= i < objects.len() implies dynamic_object_of(
        bytes,
        chain_start(step, start + 3, i),
        level,
    ) == #[trigger] objects[i] by {
        lemma_objects(bytes, start + 3, objects, level, rest, i);
    }
    reveal(dynamic_at);
    assert(Seq::new(
        objects.len(),
        |i: int| dynamic_object_of(bytes, chain_start(step, start + 3, i), level),
    ) =~= objects);
}

/// What was written is found in the bytes that it was packed into.
pub proof fn written_dynamic_metadata_reads_back(
    before: Seq<bool>,
    level: u8,
    objects: Seq<DynamicObjectMetadata>,
    rest: Seq<bool>,
)
    requires
        level < 8,
        objects.len() <= 32,
        forall|i: int|
            0 <= i < objects.len() ==> object_can_be_written(#[trigger] objects[i], level),
    ensures
        ({
            let bytes = packed(before + dynamic_bits(level, objects, rest));
            let size = dynamic_bits(level, objects, rest).len() - rest.len();
            let start = before.len() as int;
            dynamic_at(bytes, 8 * bytes.len() as int, start, objects.len() as int) == Ok::<
                (DynamicSyntax, int),
                MetadataError,
            >((DynamicSyntax { consumed_bits: size, level, objects }, start + size))
        }),
{
    let string = dynamic_bits(level, objects, rest);
    let bytes = packed(before + string);
    lemma_packed(before, string);
    written_dynamic_metadata_is_found(
        bytes,
        8 * bytes.len() as int,
        before.len() as int,
        level,
        objects,
        rest,
    );
}

} // verus!
