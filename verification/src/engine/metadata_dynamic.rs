//! What a frame says of its objects while they move.

use crate::bitreader::{bit_at, BitReader};
use crate::engine::metadata::{MetadataError, MAX_DYNAMIC_METADATA_OBJECTS};
use crate::engine::metadata_basic::cut;
use crate::engine::metadata_static::{importance_of, read_importance};
use crate::engine::metadata_syntax::{
    block_read, chain_start, code, lemma_chain_grows, option_code, option_width, read_code,
    read_option,
};
use crate::engine::metadata_values::{
    ChannelLockMetadata, DynamicLevel1Metadata, DynamicLevel2Metadata, DynamicMetadata,
    DynamicObjectExtent, DynamicObjectMetadata, DynamicObjectPosition, DynamicSyntax, MetadataList,
    ObjectDivergenceMetadata,
};
use crate::error::CodecError;
use vstd::prelude::*;

verus! {

/// Where an object is, in eighteen bits.
pub open spec fn position_of(bytes: Seq<u8>, at: int, cartesian: bool) -> DynamicObjectPosition {
    if cartesian {
        DynamicObjectPosition::Cartesian {
            x: code(bytes, at, 8),
            y: code(bytes, at + 8, 6),
            z: code(bytes, at + 14, 4),
        }
    } else {
        DynamicObjectPosition::Polar {
            azimuth: code(bytes, at, 8),
            elevation: code(bytes, at + 8, 6),
            distance: code(bytes, at + 14, 4),
        }
    }
}

/// How large an object is, in sixteen bits.
pub open spec fn extent_of(bytes: Seq<u8>, at: int, cartesian: bool) -> DynamicObjectExtent {
    if cartesian {
        DynamicObjectExtent::Cartesian {
            width_x: code(bytes, at, 7),
            height_y: code(bytes, at + 7, 5),
            depth_z: code(bytes, at + 12, 4),
        }
    } else {
        DynamicObjectExtent::Polar {
            width: code(bytes, at, 7),
            height: code(bytes, at + 7, 5),
            depth: code(bytes, at + 12, 4),
        }
    }
}

/// Bit at which the gain of an object stands.
pub open spec fn level1_gain_at(bytes: Seq<u8>, start: int) -> int {
    start + 23 + option_width(bit_at(bytes, start + 1), 16)
}

/// Bit at which the diffuseness of an object stands.
pub open spec fn level1_diffuse_at(bytes: Seq<u8>, start: int) -> int {
    level1_gain_at(bytes, start) + option_width(bit_at(bytes, start + 2), 7)
}

/// Bit at which the jump flag of an object stands.
pub open spec fn level1_jump_at(bytes: Seq<u8>, start: int) -> int {
    level1_diffuse_at(bytes, start) + option_width(bit_at(bytes, start + 3), 7)
}

/// Five flags, a position, and what the flags announce.
pub open spec fn level1_of(bytes: Seq<u8>, start: int) -> DynamicLevel1Metadata {
    DynamicLevel1Metadata {
        position: position_of(bytes, start + 5, bit_at(bytes, start)),
        extent: if bit_at(bytes, start + 1) {
            Some(extent_of(bytes, start + 23, bit_at(bytes, start)))
        } else {
            None
        },
        gain: option_code(bytes, level1_gain_at(bytes, start), 7, bit_at(bytes, start + 2)),
        diffuse: option_code(bytes, level1_diffuse_at(bytes, start), 7, bit_at(bytes, start + 3)),
        jump_position: bit_at(bytes, level1_jump_at(bytes, start)),
        importance: importance_of(
            bytes,
            level1_jump_at(bytes, start) + 1,
            bit_at(bytes, start + 4),
        ),
    }
}

/// Bit behind the first level.
pub open spec fn level1_end(bytes: Seq<u8>, start: int) -> int {
    level1_jump_at(bytes, start) + 1 + option_width(bit_at(bytes, start + 4), 4)
}

/// Read the first level of what is said of an object.
pub fn parse_dynamic_l1(reader: &mut BitReader<'_>) -> (result: Result<
    DynamicLevel1Metadata,
    CodecError,
>)
    requires
        old(reader).well_formed(),
    ensures
        final(reader).same_source(old(reader)),
        block_read(
            old(reader),
            final(reader),
            result,
            level1_of(old(reader).source(), old(reader).cursor()),
            level1_end(old(reader).source(), old(reader).cursor()),
        ),
{
    let cartesian: bool = reader.read_bit()?;
    let has_extent: bool = reader.read_bit()?;
    let has_gain: bool = reader.read_bit()?;
    let has_diffuse: bool = reader.read_bit()?;
    let has_importance: bool = reader.read_bit()?;
    let first: u8 = read_code(reader, 8)?;
    let second: u8 = read_code(reader, 6)?;
    let third: u8 = read_code(reader, 4)?;
    let position: DynamicObjectPosition = if cartesian {
        DynamicObjectPosition::Cartesian { x: first, y: second, z: third }
    } else {
        DynamicObjectPosition::Polar { azimuth: first, elevation: second, distance: third }
    };
    let mut extent: Option<DynamicObjectExtent> = None;
    if has_extent {
        let width: u8 = read_code(reader, 7)?;
        let height: u8 = read_code(reader, 5)?;
        let depth: u8 = read_code(reader, 4)?;
        extent = if cartesian {
            Some(
                DynamicObjectExtent::Cartesian { width_x: width, height_y: height, depth_z: depth },
            )
        } else {
            Some(DynamicObjectExtent::Polar { width, height, depth })
        };
    }
    let gain: Option<u8> = read_option(reader, has_gain, 7)?;
    let diffuse: Option<u8> = read_option(reader, has_diffuse, 7)?;
    let jump_position: bool = reader.read_bit()?;
    let importance: Option<u8> = read_importance(reader, has_importance)?;
    Ok(DynamicLevel1Metadata { position, extent, gain, diffuse, jump_position, importance })
}

/// Whether an object is locked, and how far away if it is.
pub open spec fn lock_of(bytes: Seq<u8>, at: int) -> ChannelLockMetadata {
    ChannelLockMetadata {
        locked: bit_at(bytes, at),
        maximum_distance: option_code(bytes, at + 1, 4, bit_at(bytes, at)),
    }
}

/// Bit at which the divergence flag stands.
pub open spec fn level2_divergence_at(bytes: Seq<u8>, start: int) -> int {
    start + 1 + option_width(
        bit_at(bytes, start),
        1 + option_width(bit_at(bytes, start + 1), 4),
    )
}

/// How far an object is spread, and over which angle if it is at all.
pub open spec fn divergence_of(bytes: Seq<u8>, at: int) -> ObjectDivergenceMetadata {
    ObjectDivergenceMetadata {
        divergence: code(bytes, at, 4),
        azimuth_range: option_code(bytes, at + 4, 6, code(bytes, at, 4) != 0),
    }
}

/// Bit at which the screen flag stands.
pub open spec fn level2_screen_at(bytes: Seq<u8>, start: int) -> int {
    let at = level2_divergence_at(bytes, start);
    at + 1 + option_width(
        bit_at(bytes, at),
        4 + option_width(code(bytes, at + 1, 4) != 0, 6),
    )
}

/// Bit at which the edge lock flag stands.
pub open spec fn level2_edge_at(bytes: Seq<u8>, start: int) -> int {
    let at = level2_screen_at(bytes, start);
    at + 1 + option_width(bit_at(bytes, at), 1)
}

/// Four parts, each behind a flag of its own.
pub open spec fn level2_of(bytes: Seq<u8>, start: int) -> DynamicLevel2Metadata {
    let divergence = level2_divergence_at(bytes, start);
    let screen = level2_screen_at(bytes, start);
    let edge = level2_edge_at(bytes, start);
    DynamicLevel2Metadata {
        channel_lock: if bit_at(bytes, start) {
            Some(lock_of(bytes, start + 1))
        } else {
            None
        },
        object_divergence: if bit_at(bytes, divergence) {
            Some(divergence_of(bytes, divergence + 1))
        } else {
            None
        },
        object_screen_reference: if bit_at(bytes, screen) {
            Some(bit_at(bytes, screen + 1))
        } else {
            None
        },
        screen_edge_lock: option_code(bytes, edge + 1, 2, bit_at(bytes, edge)),
    }
}

/// Bit behind the second level.
pub open spec fn level2_end(bytes: Seq<u8>, start: int) -> int {
    let at = level2_edge_at(bytes, start);
    at + 1 + option_width(bit_at(bytes, at), 2)
}

/// Read the second level of what is said of an object.
pub fn parse_dynamic_l2(reader: &mut BitReader<'_>) -> (result: Result<
    DynamicLevel2Metadata,
    CodecError,
>)
    requires
        old(reader).well_formed(),
    ensures
        final(reader).same_source(old(reader)),
        block_read(
            old(reader),
            final(reader),
            result,
            level2_of(old(reader).source(), old(reader).cursor()),
            level2_end(old(reader).source(), old(reader).cursor()),
        ),
{
    let has_lock: bool = reader.read_bit()?;
    let mut channel_lock: Option<ChannelLockMetadata> = None;
    if has_lock {
        let locked: bool = reader.read_bit()?;
        let maximum_distance: Option<u8> = read_option(reader, locked, 4)?;
        channel_lock = Some(ChannelLockMetadata { locked, maximum_distance });
    }
    let has_divergence: bool = reader.read_bit()?;
    let mut object_divergence: Option<ObjectDivergenceMetadata> = None;
    if has_divergence {
        let divergence: u8 = read_code(reader, 4)?;
        let azimuth_range: Option<u8> = read_option(reader, divergence != 0, 6)?;
        object_divergence = Some(ObjectDivergenceMetadata { divergence, azimuth_range });
    }
    let has_screen: bool = reader.read_bit()?;
    let mut object_screen_reference: Option<bool> = None;
    if has_screen {
        let flag: bool = reader.read_bit()?;
        object_screen_reference = Some(flag);
    }
    let has_edge: bool = reader.read_bit()?;
    let screen_edge_lock: Option<u8> = read_option(reader, has_edge, 2)?;
    Ok(
        DynamicLevel2Metadata {
            channel_lock,
            object_divergence,
            object_screen_reference,
            screen_edge_lock,
        },
    )
}

/// Something is said of the object at bit `start`.
pub open spec fn is_described(bytes: Seq<u8>, start: int, level: u8) -> bool {
    !bit_at(bytes, start) && (level == 0 || level == 1)
}

/// A flag, a transport channel, and the levels that are written.
pub open spec fn dynamic_object_of(bytes: Seq<u8>, start: int, level: u8) -> DynamicObjectMetadata {
    let described = is_described(bytes, start, level);
    DynamicObjectMetadata {
        muted: bit_at(bytes, start),
        transport_channel_reference: code(bytes, start + 1, 5),
        level1: if described {
            Some(level1_of(bytes, start + 6))
        } else {
            None
        },
        level2: if described && level == 1 {
            Some(level2_of(bytes, level1_end(bytes, start + 6)))
        } else {
            None
        },
    }
}

/// Bit behind an object.
pub open spec fn dynamic_object_end(bytes: Seq<u8>, start: int, level: u8) -> int {
    if !is_described(bytes, start, level) {
        start + 6
    } else if level == 1 {
        level2_end(bytes, level1_end(bytes, start + 6))
    } else {
        level1_end(bytes, start + 6)
    }
}

/// Read what is said of one object.
fn read_dynamic_object(reader: &mut BitReader<'_>, level: u8) -> (result: Result<
    DynamicObjectMetadata,
    CodecError,
>)
    requires
        old(reader).well_formed(),
    ensures
        final(reader).same_source(old(reader)),
        block_read(
            old(reader),
            final(reader),
            result,
            dynamic_object_of(old(reader).source(), old(reader).cursor(), level),
            dynamic_object_end(old(reader).source(), old(reader).cursor(), level),
        ),
{
    let muted: bool = reader.read_bit()?;
    let transport_channel_reference: u8 = read_code(reader, 5)?;
    let mut level1: Option<DynamicLevel1Metadata> = None;
    let mut level2: Option<DynamicLevel2Metadata> = None;
    if !muted && (level == 0 || level == 1) {
        level1 = Some(parse_dynamic_l1(reader)?);
        if level == 1 {
            level2 = Some(parse_dynamic_l2(reader)?);
        }
    }
    Ok(DynamicObjectMetadata { muted, transport_channel_reference, level1, level2 })
}

/// Where the object behind the one at `at` starts.
pub open spec fn dynamic_object_step(bytes: Seq<u8>, level: u8) -> spec_fn(int) -> int {
    |at: int| dynamic_object_end(bytes, at, level)
}

/// The dynamic metadata at bit `start`, of as many objects as the header says, and the bit behind
/// it.
#[verifier::opaque]
pub open spec fn dynamic_at(bytes: Seq<u8>, end: int, start: int, objects: int) -> Result<
    (DynamicSyntax, int),
    MetadataError,
> {
    let level = code(bytes, start, 3);
    let step = dynamic_object_step(bytes, level);
    let behind = chain_start(step, start + 3, objects);
    if objects > MAX_DYNAMIC_METADATA_OBJECTS {
        Err(
            MetadataError::TooManyDynamicObjects {
                objects: objects as usize,
                limit: MAX_DYNAMIC_METADATA_OBJECTS,
            },
        )
    } else if behind > end {
        Err(cut())
    } else {
        Ok(
            (
                DynamicSyntax {
                    consumed_bits: behind - start,
                    level,
                    objects: Seq::new(
                        objects as nat,
                        |i: int| dynamic_object_of(bytes, chain_start(step, start + 3, i), level),
                    ),
                },
                behind,
            ),
        )
    }
}

/// Read the dynamic metadata.
pub fn parse_dynamic_metadata(reader: &mut BitReader<'_>, objects: usize) -> (result: Result<
    DynamicMetadata,
    MetadataError,
>)
    requires
        old(reader).well_formed(),
    ensures
        final(reader).same_source(old(reader)),
        match dynamic_at(
            old(reader).source(),
            old(reader).end(),
            old(reader).cursor(),
            objects as int,
        ) {
            Ok((dynamic, behind)) => {
                &&& result is Ok
                &&& result->Ok_0@ == dynamic
                &&& result->Ok_0.objects.well_formed()
                &&& final(reader).cursor() == behind
            },
            Err(error) => result == Err::<DynamicMetadata, MetadataError>(error),
        },
{
    proof {
        reveal(dynamic_at);
    }
    if objects > MAX_DYNAMIC_METADATA_OBJECTS {
        return Err(
            MetadataError::TooManyDynamicObjects { objects, limit: MAX_DYNAMIC_METADATA_OBJECTS },
        );
    }
    let ghost bytes = reader.source();
    let ghost at = reader.cursor();
    let ghost wanted = code(bytes, at, 3);
    let ghost step = dynamic_object_step(bytes, wanted);
    let ghost goal = Seq::new(
        objects as nat,
        |i: int| dynamic_object_of(bytes, chain_start(step, at + 3, i), wanted),
    );
    proof {
        assert forall|q: int| #[trigger] step(q) >= q by {}
        lemma_chain_grows(step, at + 3, 0, objects as int);
    }
    let start: usize = reader.position_bits();
    let level: u8 = match read_code(reader, 3) {
        Ok(level) => level,
        Err(error) => return Err(MetadataError::Bitstream(error)),
    };
    let mut list: MetadataList<DynamicObjectMetadata, 32> = MetadataList::new();
    let mut index: usize = 0;
    while index < objects
        invariant
            index <= objects <= 32,
            reader.same_source(old(reader)),
            bytes == old(reader).source(),
            at == old(reader).cursor(),
            level == wanted,
            wanted == code(bytes, at, 3),
            step == dynamic_object_step(bytes, wanted),
            forall|q: int| #[trigger] step(q) >= q,
            goal == Seq::new(
                objects as nat,
                |i: int| dynamic_object_of(bytes, chain_start(step, at + 3, i), wanted),
            ),
            reader.cursor() == chain_start(step, at + 3, index as int),
            list.well_formed(),
            list@ == goal.take(index as int),
        decreases objects - index,
    {
        proof {
            lemma_chain_grows(step, at + 3, index as int + 1, objects as int);
            reveal(dynamic_at);
        }
        match read_dynamic_object(reader, level) {
            Ok(object) => {
                list.push(object);
            },
            Err(error) => return Err(MetadataError::Bitstream(error)),
        }
        index = index + 1;
        assert(list@ =~= goal.take(index as int));
    }
    assert(goal.take(objects as int) =~= goal);
    let consumed_bits: usize = reader.position_bits() - start;
    Ok(DynamicMetadata { consumed_bits, level, objects: list })
}

/// Where the dynamic metadata ends does not depend on what follows it, and it is refused if it is
/// cut.
pub proof fn lemma_dynamic_forward(bytes: Seq<u8>, end: int, other: int, start: int, objects: int)
    requires
        objects >= 0,
    ensures
        dynamic_at(bytes, end, start, objects) matches Ok((dynamic, behind)) ==> {
            &&& start + 3 <= behind <= end
            &&& behind <= other ==> dynamic_at(bytes, other, start, objects) == dynamic_at(
                bytes,
                end,
                start,
                objects,
            )
            &&& other < behind ==> dynamic_at(bytes, other, start, objects) is Err
        },
{
    reveal(dynamic_at);
    let step = dynamic_object_step(bytes, code(bytes, start, 3));
    assert forall|q: int| #[trigger] step(q) >= q by {}
    lemma_chain_grows(step, start + 3, 0, objects);
}

} // verus!
