//! Boxes of an ISO base media file, and the sample tables inside them.

use crate::error::CodecError;
use vstd::prelude::*;
use vstd::slice::slice_subrange;

verus! {

/// Most samples that a track may have.
pub const MAX_SAMPLE_COUNT: usize = 10_000_000;

/// Box types, as big-endian numbers.
pub const BOX_MOOV: u32 = 0x6D6F_6F76;

pub const BOX_TRAK: u32 = 0x7472_616B;

pub const BOX_MDIA: u32 = 0x6D64_6961;

pub const BOX_MDHD: u32 = 0x6D64_6864;

pub const BOX_MINF: u32 = 0x6D69_6E66;

pub const BOX_STBL: u32 = 0x7374_626C;

pub const BOX_STSD: u32 = 0x7374_7364;

pub const BOX_STSZ: u32 = 0x7374_737A;

pub const BOX_STZ2: u32 = 0x7374_7A32;

pub const BOX_STSC: u32 = 0x7374_7363;

pub const BOX_STCO: u32 = 0x7374_636F;

pub const BOX_CO64: u32 = 0x636F_3634;

pub const BOX_STTS: u32 = 0x7374_7473;

pub const BOX_AV3A: u32 = 0x6176_3361;

/// The 32-bit big-endian number at byte `at`.
pub open spec fn be32(bytes: Seq<u8>, at: int) -> int {
    0x100_0000 * bytes[at] + 0x1_0000 * bytes[at + 1] + 0x100 * bytes[at + 2] + bytes[at + 3]
}

/// The 64-bit big-endian number at byte `at`.
pub open spec fn be64(bytes: Seq<u8>, at: int) -> int {
    0x1_0000_0000 * be32(bytes, at) + be32(bytes, at + 4)
}

/// Read the 32-bit big-endian number at byte `at`.
pub fn be_u32(bytes: &[u8], at: usize) -> (value: u32)
    requires
        at + 4 <= bytes@.len(),
    ensures
        value == be32(bytes@, at as int),
{
    bytes[at] as u32 * 0x100_0000 + bytes[at + 1] as u32 * 0x1_0000 + bytes[at + 2] as u32 * 0x100
        + bytes[at + 3] as u32
}

/// Read the 64-bit big-endian number at byte `at`.
pub fn be_u64(bytes: &[u8], at: usize) -> (value: u64)
    requires
        at + 8 <= bytes@.len(),
    ensures
        value == be64(bytes@, at as int),
{
    assert(bytes.len() == bytes@.len());
    be_u32(bytes, at) as u64 * 0x1_0000_0000 + be_u32(bytes, at + 4) as u64
}

/// Where a box lies inside the bytes of its parent.
#[derive(Clone, Copy, Debug, PartialEq, Eq, Structural)]
pub struct MemoryBox {
    pub kind: u32,
    /// First byte of the box.
    pub start: usize,
    /// First byte behind its header.
    pub payload: usize,
    /// First byte behind the box.
    pub end: usize,
}

/// The box that starts at byte `cursor`. A size of one announces a 64-bit size, a size of zero a
/// box that reaches to the end.
pub open spec fn box_at(bytes: Seq<u8>, cursor: int) -> Result<MemoryBox, CodecError> {
    let rest = bytes.len() - cursor;
    let size32 = be32(bytes, cursor);
    let header = if size32 == 1 {
        16int
    } else {
        8int
    };
    let size = if size32 == 1 {
        be64(bytes, cursor + 8)
    } else if size32 == 0 {
        rest
    } else {
        size32
    };
    if rest < 8 {
        Err(CodecError::InvalidData("truncated ISO-BMFF box header"))
    } else if size32 == 1 && rest < 16 {
        Err(CodecError::InvalidData("truncated ISO-BMFF large-size box"))
    } else if size < header {
        Err(CodecError::InvalidData("ISO-BMFF box size is smaller than its header"))
    } else if cursor + size > u64::MAX {
        Err(CodecError::InvalidData("ISO-BMFF box size overflow"))
    } else if cursor + size > usize::MAX {
        Err(CodecError::InvalidData("ISO-BMFF box exceeds addressable memory"))
    } else if cursor + size > bytes.len() {
        Err(CodecError::InvalidData("ISO-BMFF child box exceeds its parent"))
    } else {
        Ok(
            MemoryBox {
                kind: be32(bytes, cursor + 4) as u32,
                start: cursor as usize,
                payload: (cursor + header) as usize,
                end: (cursor + size) as usize,
            },
        )
    }
}

/// The boxes from byte `cursor` to the end.
pub open spec fn boxes_from(bytes: Seq<u8>, cursor: int) -> Result<Seq<MemoryBox>, CodecError>
    decreases bytes.len() - cursor,
{
    if cursor < 0 || cursor >= bytes.len() {
        Ok(Seq::empty())
    } else {
        match box_at(bytes, cursor) {
            Err(error) => Err(error),
            Ok(first) => match boxes_from(bytes, first.end as int) {
                Err(error) => Err(error),
                Ok(rest) => Ok(seq![first] + rest),
            },
        }
    }
}

/// Every box that was found lies inside the bytes.
pub open spec fn boxes_fit(boxes: Seq<MemoryBox>, len: int) -> bool {
    forall|i: int|
        0 <= i < boxes.len() ==> (#[trigger] boxes[i]).start + 8 <= boxes[i].payload
            <= boxes[i].end <= len
}

/// Read the box that starts at byte `cursor`.
fn read_box(bytes: &[u8], cursor: usize) -> (result: Result<MemoryBox, CodecError>)
    requires
        cursor < bytes@.len(),
    ensures
        result == box_at(bytes@, cursor as int),
        result matches Ok(item) ==> item.start == cursor && cursor + 8 <= item.payload <= item.end
            <= bytes@.len(),
{
    let rest: usize = bytes.len() - cursor;
    if rest < 8 {
        return Err(CodecError::InvalidData("truncated ISO-BMFF box header"));
    }
    let size32: u32 = be_u32(bytes, cursor);
    let kind: u32 = be_u32(bytes, cursor + 4);
    let (size, header): (u64, usize) = if size32 == 1 {
        if rest < 16 {
            return Err(CodecError::InvalidData("truncated ISO-BMFF large-size box"));
        }
        (be_u64(bytes, cursor + 8), 16)
    } else if size32 == 0 {
        (rest as u64, 8)
    } else {
        (size32 as u64, 8)
    };
    if size < header as u64 {
        return Err(CodecError::InvalidData("ISO-BMFF box size is smaller than its header"));
    }
    let end64: u64 = match (cursor as u64).checked_add(size) {
        Some(end) => end,
        None => {
            return Err(CodecError::InvalidData("ISO-BMFF box size overflow"));
        },
    };
    if end64 > usize::MAX as u64 {
        return Err(CodecError::InvalidData("ISO-BMFF box exceeds addressable memory"));
    }
    let end: usize = end64 as usize;
    if end > bytes.len() {
        return Err(CodecError::InvalidData("ISO-BMFF child box exceeds its parent"));
    }
    Ok(MemoryBox { kind, start: cursor, payload: cursor + header, end })
}

/// List the boxes that `bytes` is made of.
pub fn memory_boxes(bytes: &[u8]) -> (result: Result<Vec<MemoryBox>, CodecError>)
    ensures
        match boxes_from(bytes@, 0) {
            Ok(boxes) => result is Ok && result->Ok_0@ == boxes && boxes_fit(
                boxes,
                bytes@.len() as int,
            ),
            Err(error) => result == Err::<Vec<MemoryBox>, CodecError>(error),
        },
{
    let mut boxes: Vec<MemoryBox> = Vec::new();
    let mut cursor: usize = 0;
    while cursor < bytes.len()
        invariant
            cursor <= bytes@.len(),
            boxes_fit(boxes@, bytes@.len() as int),
            match boxes_from(bytes@, cursor as int) {
                Ok(rest) => boxes_from(bytes@, 0) == Ok::<Seq<MemoryBox>, CodecError>(
                    boxes@ + rest,
                ),
                Err(error) => boxes_from(bytes@, 0) == Err::<Seq<MemoryBox>, CodecError>(error),
            },
        decreases bytes@.len() - cursor,
    {
        let ghost before = boxes@;
        let item: MemoryBox = read_box(bytes, cursor)?;
        boxes.push(item);
        proof {
            if let Ok(rest) = boxes_from(bytes@, item.end as int) {
                assert(before + (seq![item] + rest) =~= boxes@ + rest);
            }
        }
        cursor = item.end;
    }
    assert(boxes@ + Seq::<MemoryBox>::empty() =~= boxes@);
    Ok(boxes)
}

/// The boxes follow one another without gaps, from `cursor` to the end.
pub open spec fn boxes_tile(boxes: Seq<MemoryBox>, cursor: int, len: int) -> bool {
    &&& boxes.len() == 0 ==> cursor == len
    &&& boxes.len() > 0 ==> boxes[0].start == cursor && boxes[boxes.len() - 1].end == len
    &&& forall|i: int| 0 <= i < boxes.len() - 1 ==> (#[trigger] boxes[i]).end == boxes[i + 1].start
}

/// A list of boxes leaves no byte of the parent out.
pub proof fn boxes_tile_their_parent(bytes: Seq<u8>, cursor: int)
    requires
        0 <= cursor <= bytes.len(),
    ensures
        boxes_from(bytes, cursor) matches Ok(boxes) ==> boxes_tile(
            boxes,
            cursor,
            bytes.len() as int,
        ),
    decreases bytes.len() - cursor,
{
    if cursor < bytes.len() {
        if let Ok(first) = box_at(bytes, cursor) {
            boxes_tile_their_parent(bytes, first.end as int);
            if let Ok(rest) = boxes_from(bytes, first.end as int) {
                let all = seq![first] + rest;
                assert forall|i: int| 0 <= i < all.len() - 1 implies (#[trigger] all[i]).end == all[
                i + 1].start by {
                    if i > 0 {
                        assert(rest[i - 1].end == rest[i].start);
                    }
                }
            }
        }
    }
}

/// The first box of type `kind`, from `from` on.
pub open spec fn find_box(boxes: Seq<MemoryBox>, kind: u32, from: int) -> Option<MemoryBox>
    decreases boxes.len() - from,
{
    if from >= boxes.len() {
        None
    } else if boxes[from].kind == kind {
        Some(boxes[from])
    } else {
        find_box(boxes, kind, from + 1)
    }
}

/// The payload of the first child box of type `kind`, if there is one.
pub open spec fn child_payload(bytes: Seq<u8>, kind: u32) -> Result<Option<Seq<u8>>, CodecError> {
    match boxes_from(bytes, 0) {
        Err(error) => Err(error),
        Ok(boxes) => Ok(
            match find_box(boxes, kind, 0) {
                None => None,
                Some(item) => Some(bytes.subrange(item.payload as int, item.end as int)),
            },
        ),
    }
}

/// Find the payload of the first child box of type `kind`. All boxes of the parent must be whole.
pub fn child<'a>(bytes: &'a [u8], kind: u32) -> (result: Result<Option<&'a [u8]>, CodecError>)
    ensures
        match child_payload(bytes@, kind) {
            Err(error) => result == Err::<Option<&'a [u8]>, CodecError>(error),
            Ok(None) => result == Ok::<Option<&'a [u8]>, CodecError>(None),
            Ok(Some(payload)) => result is Ok && result->Ok_0 is Some && result->Ok_0->0@
                == payload,
        },
{
    let boxes = memory_boxes(bytes)?;
    let mut index: usize = 0;
    while index < boxes.len()
        invariant
            index <= boxes@.len(),
            boxes_from(bytes@, 0) == Ok::<Seq<MemoryBox>, CodecError>(boxes@),
            boxes_fit(boxes@, bytes@.len() as int),
            find_box(boxes@, kind, 0) == find_box(boxes@, kind, index as int),
        decreases boxes@.len() - index,
    {
        let item: MemoryBox = boxes[index];
        if item.kind == kind {
            assert(boxes@[index as int].payload <= boxes@[index as int].end);
            return Ok(Some(slice_subrange(bytes, item.payload, item.end)));
        }
        index = index + 1;
    }
    Ok(None)
}

/// The time scale in a media header box, whose layout depends on its version.
pub open spec fn mdhd_timescale(payload: Seq<u8>) -> Result<u32, CodecError> {
    let offset = if payload[0] == 0 {
        12int
    } else {
        20int
    };
    if payload.len() < 4 {
        Err(CodecError::InvalidData("truncated mdhd full-box header"))
    } else if payload[0] > 1 {
        Err(CodecError::Unsupported("unsupported mdhd version"))
    } else if payload.len() < offset + 4 {
        Err(CodecError::InvalidData("truncated mdhd timescale"))
    } else if be32(payload, offset) == 0 {
        Err(CodecError::InvalidData("mdhd timescale must be non-zero"))
    } else {
        Ok(be32(payload, offset) as u32)
    }
}

/// Read the time scale of a media header box.
pub fn parse_mdhd_timescale(payload: &[u8]) -> (result: Result<u32, CodecError>)
    ensures
        result == mdhd_timescale(payload@),
{
    if payload.len() < 4 {
        return Err(CodecError::InvalidData("truncated mdhd full-box header"));
    }
    let version: u8 = payload[0];
    let offset: usize = if version == 0 {
        12
    } else if version == 1 {
        20
    } else {
        return Err(CodecError::Unsupported("unsupported mdhd version"));
    };
    if payload.len() < offset + 4 {
        return Err(CodecError::InvalidData("truncated mdhd timescale"));
    }
    let timescale: u32 = be_u32(payload, offset);
    if timescale == 0 {
        return Err(CodecError::InvalidData("mdhd timescale must be non-zero"));
    }
    Ok(timescale)
}

/// The sample sizes in a sample size box: one for all, or one each.
pub open spec fn stsz_sizes(payload: Seq<u8>) -> Result<Seq<u32>, CodecError> {
    let constant = be32(payload, 4);
    let count = be32(payload, 8);
    if payload.len() < 12 {
        Err(CodecError::InvalidData("truncated stsz box"))
    } else if count > MAX_SAMPLE_COUNT {
        Err(CodecError::Unsupported("av3a sample count exceeds the demuxer safety limit"))
    } else if constant != 0 {
        Ok(Seq::new(count as nat, |i: int| constant as u32))
    } else if payload.len() < 12 + 4 * count {
        Err(CodecError::InvalidData("truncated stsz sample-size array"))
    } else {
        Ok(Seq::new(count as nat, |i: int| be32(payload, 12 + 4 * i) as u32))
    }
}

/// Read the sample sizes of a sample size box.
pub fn parse_stsz(payload: &[u8]) -> (result: Result<Vec<u32>, CodecError>)
    ensures
        match stsz_sizes(payload@) {
            Ok(sizes) => result is Ok && result->Ok_0@ == sizes,
            Err(error) => result == Err::<Vec<u32>, CodecError>(error),
        },
{
    if payload.len() < 12 {
        return Err(CodecError::InvalidData("truncated stsz box"));
    }
    let constant_size: u32 = be_u32(payload, 4);
    let sample_count: u32 = be_u32(payload, 8);
    if sample_count > 10_000_000 {
        return Err(CodecError::Unsupported("av3a sample count exceeds the demuxer safety limit"));
    }
    let count: usize = sample_count as usize;
    if constant_size == 0 && payload.len() < 12 + 4 * count {
        return Err(CodecError::InvalidData("truncated stsz sample-size array"));
    }
    let mut sizes: Vec<u32> = Vec::new();
    let mut index: usize = 0;
    while index < count
        invariant
            index <= count <= 10_000_000,
            payload@.len() >= 12,
            constant_size == be32(payload@, 4),
            count == be32(payload@, 8),
            constant_size == 0 ==> payload@.len() >= 12 + 4 * count,
            sizes@.len() == index,
            forall|i: int|
                0 <= i < index ==> #[trigger] sizes@[i] == if constant_size != 0 {
                    constant_size as int
                } else {
                    be32(payload@, 12 + 4 * i)
                },
        decreases count - index,
    {
        if constant_size != 0 {
            sizes.push(constant_size);
        } else {
            sizes.push(be_u32(payload, 12 + 4 * index));
        }
        index = index + 1;
    }
    proof {
        assert(sizes@ =~= stsz_sizes(payload@)->Ok_0);
    }
    Ok(sizes)
}

/// One run of chunks with the same number of samples.
#[derive(Clone, Copy, Debug, PartialEq, Eq, Structural)]
pub struct StscEntry {
    pub first_chunk: u32,
    pub samples_per_chunk: u32,
    pub sample_description_index: u32,
}

/// Entry `i` of a sample-to-chunk box.
pub open spec fn stsc_entry(payload: Seq<u8>, i: int) -> StscEntry {
    StscEntry {
        first_chunk: be32(payload, 8 + 12 * i) as u32,
        samples_per_chunk: be32(payload, 12 + 12 * i) as u32,
        sample_description_index: be32(payload, 16 + 12 * i) as u32,
    }
}

/// What is wrong with the entries from `from` on, if anything.
pub open spec fn stsc_error(payload: Seq<u8>, count: int, from: int) -> Option<CodecError>
    decreases count - from,
{
    let entry = stsc_entry(payload, from);
    if from >= count {
        None
    } else if entry.first_chunk == 0 || entry.samples_per_chunk == 0
        || entry.sample_description_index == 0 {
        Some(CodecError::InvalidData("stsc entries must use non-zero one-based fields"))
    } else if from > 0 && stsc_entry(payload, from - 1).first_chunk >= entry.first_chunk {
        Some(CodecError::InvalidData("stsc first_chunk values must be strictly increasing"))
    } else {
        stsc_error(payload, count, from + 1)
    }
}

/// The entries of a sample-to-chunk box.
pub open spec fn stsc_entries(payload: Seq<u8>) -> Result<Seq<StscEntry>, CodecError> {
    let count = be32(payload, 4);
    if payload.len() < 8 {
        Err(CodecError::InvalidData("truncated stsc box"))
    } else if 8 + 12 * count > usize::MAX {
        Err(CodecError::InvalidData("stsc size overflow"))
    } else if payload.len() < 8 + 12 * count || count == 0 {
        Err(CodecError::InvalidData("invalid stsc entry array"))
    } else if stsc_error(payload, count, 0) is Some {
        Err(stsc_error(payload, count, 0)->0)
    } else if stsc_entry(payload, 0).first_chunk != 1 {
        Err(CodecError::InvalidData("stsc must begin at chunk 1"))
    } else {
        Ok(Seq::new(count as nat, |i: int| stsc_entry(payload, i)))
    }
}

/// Number of bytes of an array box with `count` entries of `width` bytes, if a `usize` can say it.
fn array_end(count: u32, width: usize) -> (end: Option<usize>)
    requires
        width <= 12,
    ensures
        end == if 8 + width * count > usize::MAX {
            None::<usize>
        } else {
            Some((8 + width * count) as usize)
        },
{
    assert(count * width == width * count) by (nonlinear_arith);
    match (count as usize).checked_mul(width) {
        Some(size) => size.checked_add(8),
        None => None,
    }
}

/// Read the entries of a sample-to-chunk box.
pub fn parse_stsc(payload: &[u8]) -> (result: Result<Vec<StscEntry>, CodecError>)
    ensures
        match stsc_entries(payload@) {
            Ok(entries) => result is Ok && result->Ok_0@ == entries,
            Err(error) => result == Err::<Vec<StscEntry>, CodecError>(error),
        },
{
    if payload.len() < 8 {
        return Err(CodecError::InvalidData("truncated stsc box"));
    }
    let count: u32 = be_u32(payload, 4);
    let required: usize = match array_end(count, 12) {
        Some(required) => required,
        None => {
            return Err(CodecError::InvalidData("stsc size overflow"));
        },
    };
    if payload.len() < required || count == 0 {
        return Err(CodecError::InvalidData("invalid stsc entry array"));
    }
    let mut entries: Vec<StscEntry> = Vec::new();
    let mut index: u32 = 0;
    while index < count
        invariant
            index <= count,
            count == be32(payload@, 4),
            count > 0,
            required == 8 + 12 * count,
            required <= payload@.len(),
            entries@.len() == index,
            forall|i: int| 0 <= i < index ==> #[trigger] entries@[i] == stsc_entry(payload@, i),
            stsc_error(payload@, count as int, 0) == stsc_error(
                payload@,
                count as int,
                index as int,
            ),
        decreases count - index,
    {
        let at: usize = 8 + 12 * index as usize;
        let entry = StscEntry {
            first_chunk: be_u32(payload, at),
            samples_per_chunk: be_u32(payload, at + 4),
            sample_description_index: be_u32(payload, at + 8),
        };
        assert(entry == stsc_entry(payload@, index as int));
        if entry.first_chunk == 0 || entry.samples_per_chunk == 0 || entry.sample_description_index
            == 0 {
            return Err(CodecError::InvalidData("stsc entries must use non-zero one-based fields"));
        }
        if index > 0 {
            let previous: StscEntry = entries[index as usize - 1];
            if previous.first_chunk >= entry.first_chunk {
                return Err(
                    CodecError::InvalidData(
                        "stsc first_chunk values must be strictly increasing",
                    ),
                );
            }
        }
        entries.push(entry);
        index = index + 1;
    }
    if entries[0].first_chunk != 1 {
        return Err(CodecError::InvalidData("stsc must begin at chunk 1"));
    }
    assert(entries@ =~= stsc_entries(payload@)->Ok_0);
    Ok(entries)
}

/// The chunk offsets of a box whose entries are `width` bytes wide.
pub open spec fn chunk_offsets(payload: Seq<u8>, width: int) -> Result<Seq<u64>, CodecError> {
    let count = be32(payload, 4);
    if payload.len() < 8 {
        Err(CodecError::InvalidData("truncated chunk-offset box"))
    } else if 8 + width * count > usize::MAX {
        Err(CodecError::InvalidData("chunk-offset array size overflow"))
    } else if payload.len() < 8 + width * count {
        Err(CodecError::InvalidData("truncated chunk-offset array"))
    } else if width == 4 {
        Ok(Seq::new(count as nat, |i: int| be32(payload, 8 + 4 * i) as u64))
    } else {
        Ok(Seq::new(count as nat, |i: int| be64(payload, 8 + 8 * i) as u64))
    }
}

/// Read chunk offsets, four or eight bytes each.
fn parse_chunk_offsets(payload: &[u8], wide: bool) -> (result: Result<Vec<u64>, CodecError>)
    ensures
        match chunk_offsets(
            payload@,
            if wide {
                8
            } else {
                4
            },
        ) {
            Ok(offsets) => result is Ok && result->Ok_0@ == offsets,
            Err(error) => result == Err::<Vec<u64>, CodecError>(error),
        },
{
    if payload.len() < 8 {
        return Err(CodecError::InvalidData("truncated chunk-offset box"));
    }
    let width: usize = if wide {
        8
    } else {
        4
    };
    let count: u32 = be_u32(payload, 4);
    let required: usize = match array_end(count, width) {
        Some(required) => required,
        None => {
            return Err(CodecError::InvalidData("chunk-offset array size overflow"));
        },
    };
    if payload.len() < required {
        return Err(CodecError::InvalidData("truncated chunk-offset array"));
    }
    let mut offsets: Vec<u64> = Vec::new();
    let mut index: u32 = 0;
    while index < count
        invariant
            index <= count,
            count == be32(payload@, 4),
            width == if wide {
                8int
            } else {
                4int
            },
            required == if wide {
                8 + 8 * count
            } else {
                8 + 4 * count
            },
            required <= payload@.len(),
            offsets@.len() == index,
            forall|i: int|
                0 <= i < index ==> #[trigger] offsets@[i] == if wide {
                    be64(payload@, 8 + 8 * i)
                } else {
                    be32(payload@, 8 + 4 * i)
                },
        decreases count - index,
    {
        if wide {
            offsets.push(be_u64(payload, 8 + 8 * index as usize));
        } else {
            offsets.push(be_u32(payload, 8 + 4 * index as usize) as u64);
        }
        index = index + 1;
    }
    proof {
        if wide {
            assert(offsets@ =~= chunk_offsets(payload@, 8)->Ok_0);
        } else {
            assert(offsets@ =~= chunk_offsets(payload@, 4)->Ok_0);
        }
    }
    Ok(offsets)
}

/// Read the offsets of a 32-bit chunk offset box.
pub fn parse_stco(payload: &[u8]) -> (result: Result<Vec<u64>, CodecError>)
    ensures
        match chunk_offsets(payload@, 4) {
            Ok(offsets) => result is Ok && result->Ok_0@ == offsets,
            Err(error) => result == Err::<Vec<u64>, CodecError>(error),
        },
{
    parse_chunk_offsets(payload, false)
}

/// Read the offsets of a 64-bit chunk offset box.
pub fn parse_co64(payload: &[u8]) -> (result: Result<Vec<u64>, CodecError>)
    ensures
        match chunk_offsets(payload@, 8) {
            Ok(offsets) => result is Ok && result->Ok_0@ == offsets,
            Err(error) => result == Err::<Vec<u64>, CodecError>(error),
        },
{
    parse_chunk_offsets(payload, true)
}

/// One run of samples with the same duration.
#[derive(Clone, Copy, Debug, PartialEq, Eq, Structural)]
pub struct SttsEntry {
    pub sample_count: u32,
    pub sample_delta: u32,
}

/// Entry `i` of a time-to-sample box.
pub open spec fn stts_entry(payload: Seq<u8>, i: int) -> SttsEntry {
    SttsEntry {
        sample_count: be32(payload, 8 + 8 * i) as u32,
        sample_delta: be32(payload, 12 + 8 * i) as u32,
    }
}

/// Some entry has no samples or no duration.
pub open spec fn stts_has_zero(payload: Seq<u8>, count: int) -> bool {
    exists|i: int|
        0 <= i < count && ((#[trigger] stts_entry(payload, i)).sample_count == 0 || stts_entry(
            payload,
            i,
        ).sample_delta == 0)
}

/// The entries of a time-to-sample box.
pub open spec fn stts_entries(payload: Seq<u8>) -> Result<Seq<SttsEntry>, CodecError> {
    let count = be32(payload, 4);
    if payload.len() < 8 {
        Err(CodecError::InvalidData("truncated stts box"))
    } else if 8 + 8 * count > usize::MAX {
        Err(CodecError::InvalidData("stts size overflow"))
    } else if payload.len() < 8 + 8 * count || count == 0 {
        Err(CodecError::InvalidData("invalid stts entry array"))
    } else if stts_has_zero(payload, count) {
        Err(CodecError::InvalidData("stts entries must have non-zero count and delta"))
    } else {
        Ok(Seq::new(count as nat, |i: int| stts_entry(payload, i)))
    }
}

/// Read the entries of a time-to-sample box.
pub fn parse_stts(payload: &[u8]) -> (result: Result<Vec<SttsEntry>, CodecError>)
    ensures
        match stts_entries(payload@) {
            Ok(entries) => result is Ok && result->Ok_0@ == entries,
            Err(error) => result == Err::<Vec<SttsEntry>, CodecError>(error),
        },
{
    if payload.len() < 8 {
        return Err(CodecError::InvalidData("truncated stts box"));
    }
    let count: u32 = be_u32(payload, 4);
    let required: usize = match array_end(count, 8) {
        Some(required) => required,
        None => {
            return Err(CodecError::InvalidData("stts size overflow"));
        },
    };
    if payload.len() < required || count == 0 {
        return Err(CodecError::InvalidData("invalid stts entry array"));
    }
    let mut entries: Vec<SttsEntry> = Vec::new();
    let mut index: u32 = 0;
    while index < count
        invariant
            index <= count,
            count == be32(payload@, 4),
            count > 0,
            required == 8 + 8 * count,
            required <= payload@.len(),
            entries@.len() == index,
            forall|i: int| 0 <= i < index ==> #[trigger] entries@[i] == stts_entry(payload@, i),
            forall|i: int|
                0 <= i < index ==> (#[trigger] stts_entry(payload@, i)).sample_count != 0
                    && stts_entry(payload@, i).sample_delta != 0,
        decreases count - index,
    {
        let at: usize = 8 + 8 * index as usize;
        let entry = SttsEntry {
            sample_count: be_u32(payload, at),
            sample_delta: be_u32(payload, at + 4),
        };
        assert(entry == stts_entry(payload@, index as int));
        if entry.sample_count == 0 || entry.sample_delta == 0 {
            return Err(CodecError::InvalidData("stts entries must have non-zero count and delta"));
        }
        entries.push(entry);
        index = index + 1;
    }
    assert(entries@ =~= stts_entries(payload@)->Ok_0);
    Ok(entries)
}

} // verus!
