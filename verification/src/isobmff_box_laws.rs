//! Writing boxes and the tables inside them, and what reading does with them.

use crate::error::CodecError;
use crate::isobmff_boxes::{
    be32, be64, box_at, boxes_from, child_payload, chunk_offsets, find_box, mdhd_timescale,
    stsc_entries, stsc_entry, stsc_error, stsz_sizes, stts_entries, stts_entry, stts_has_zero,
    MemoryBox, StscEntry, SttsEntry, MAX_SAMPLE_COUNT,
};
use vstd::prelude::*;

verus! {

/// `value` as four bytes, the most significant first.
pub open spec fn four_bytes(value: int) -> Seq<u8> {
    seq![
        (value / 0x100_0000) as u8,
        (value / 0x1_0000 % 0x100) as u8,
        (value / 0x100 % 0x100) as u8,
        (value % 0x100) as u8,
    ]
}

/// `value` as eight bytes, the most significant first.
pub open spec fn eight_bytes(value: int) -> Seq<u8> {
    four_bytes(value / 0x1_0000_0000) + four_bytes(value % 0x1_0000_0000)
}

/// The parts one after the other.
pub open spec fn joined(parts: Seq<Seq<u8>>) -> Seq<u8>
    decreases parts.len(),
{
    if parts.len() == 0 {
        Seq::empty()
    } else {
        joined(parts.drop_last()) + parts.last()
    }
}

/// The bytes at byte `at` are those of `part`.
pub open spec fn stands_at(bytes: Seq<u8>, at: int, part: Seq<u8>) -> bool {
    &&& 0 <= at && at + part.len() <= bytes.len()
    &&& forall|i: int| 0 <= i < part.len() ==> #[trigger] part[i] == bytes[at + i]
}

/// A number of four bytes is read as it was written.
pub proof fn written_words_read_back(bytes: Seq<u8>, at: int, value: int)
    requires
        0 <= value < 0x1_0000_0000,
        stands_at(bytes, at, four_bytes(value)),
    ensures
        be32(bytes, at) == value,
{
    let part = four_bytes(value);
    assert(part[0] == bytes[at + 0] && part[1] == bytes[at + 1] && part[2] == bytes[at + 2]
        && part[3] == bytes[at + 3]);
}

/// A number of eight bytes is read as it was written.
pub proof fn written_long_words_read_back(bytes: Seq<u8>, at: int, value: int)
    requires
        0 <= value < 0x1_0000_0000_0000_0000,
        stands_at(bytes, at, eight_bytes(value)),
    ensures
        be64(bytes, at) == value,
{
    let high = value / 0x1_0000_0000;
    let low = value % 0x1_0000_0000;
    lemma_split(bytes, at, four_bytes(high), four_bytes(low));
    written_words_read_back(bytes, at, high);
    written_words_read_back(bytes, at + 4, low);
}

proof fn lemma_split(bytes: Seq<u8>, at: int, first: Seq<u8>, rest: Seq<u8>)
    requires
        stands_at(bytes, at, first + rest),
    ensures
        stands_at(bytes, at, first),
        stands_at(bytes, at + first.len(), rest),
{
    let both = first + rest;
    assert forall|i: int| 0 <= i < first.len() implies #[trigger] first[i] == bytes[at + i] by {
        assert(both[i] == bytes[at + i]);
    }
    assert forall|i: int| 0 <= i < rest.len() implies #[trigger] rest[i] == bytes[at + first.len()
        + i] by {
        assert(both[first.len() + i] == bytes[at + (first.len() + i)]);
    }
}

/// Parts of the same width stand at the multiples of it.
proof fn lemma_joined(bytes: Seq<u8>, at: int, parts: Seq<Seq<u8>>, width: int, index: int)
    requires
        0 <= at,
        0 <= width,
        forall|i: int| 0 <= i < parts.len() ==> (#[trigger] parts[i]).len() == width,
        stands_at(bytes, at, joined(parts)),
        0 <= index <= parts.len(),
    ensures
        index < parts.len() ==> stands_at(bytes, at + width * index, parts[index]),
        joined(parts).len() == width * parts.len(),
    decreases parts.len(),
{
    if parts.len() > 0 {
        let fewer = parts.drop_last();
        lemma_split(bytes, at, joined(fewer), parts.last());
        assert(parts[parts.len() - 1].len() == width);
        assert forall|i: int| 0 <= i < fewer.len() implies (#[trigger] fewer[i]).len() == width by {
            assert(parts[i].len() == width);
        }
        lemma_joined(
            bytes,
            at,
            fewer,
            width,
            if index <= fewer.len() {
                index
            } else {
                0
            },
        );
        assert(width * parts.len() == width * fewer.len() + width) by (nonlinear_arith)
            requires
                parts.len() == fewer.len() + 1,
        ;
    } else {
        assert(width * 0 == 0) by (nonlinear_arith);
    }
}

/// A table box: its version and flags, the number of its entries, and the entries.
pub open spec fn table_bytes(head: Seq<u8>, parts: Seq<Seq<u8>>, rest: Seq<u8>) -> Seq<u8> {
    head + four_bytes(parts.len() as int) + joined(parts) + rest
}

proof fn lemma_table(head: Seq<u8>, parts: Seq<Seq<u8>>, rest: Seq<u8>, width: int, index: int)
    requires
        head.len() == 4,
        parts.len() <= u32::MAX,
        0 <= width,
        forall|i: int| 0 <= i < parts.len() ==> (#[trigger] parts[i]).len() == width,
        0 <= index <= parts.len(),
    ensures
        table_bytes(head, parts, rest).len() >= 8 + width * parts.len(),
        table_bytes(head, parts, rest).len() >= 8,
        be32(table_bytes(head, parts, rest), 4) == parts.len(),
        index < parts.len() ==> stands_at(
            table_bytes(head, parts, rest),
            8 + width * index,
            parts[index],
        ),
{
    let bytes = table_bytes(head, parts, rest);
    let body = joined(parts);
    let count = four_bytes(parts.len() as int);
    assert(forall|i: int| 0 <= i < 4 ==> #[trigger] count[i] == bytes[4 + i]);
    written_words_read_back(bytes, 4, parts.len() as int);
    assert forall|i: int| 0 <= i < body.len() implies #[trigger] body[i] == bytes[8 + i] by {}
    lemma_joined(bytes, 8, parts, width, index);
}

/// The offsets, four bytes each.
pub open spec fn offset_words(offsets: Seq<u64>) -> Seq<Seq<u8>> {
    offsets.map_values(|offset: u64| four_bytes(offset as int))
}

/// The offsets, eight bytes each.
pub open spec fn long_offset_words(offsets: Seq<u64>) -> Seq<Seq<u8>> {
    offsets.map_values(|offset: u64| eight_bytes(offset as int))
}

/// A list of chunk offsets is read as it was written, four bytes for each of them.
pub proof fn written_chunk_offsets_read_back(head: Seq<u8>, offsets: Seq<u64>, rest: Seq<u8>)
    requires
        head.len() == 4,
        offsets.len() <= u32::MAX,
        8 + 4 * offsets.len() <= usize::MAX,
        forall|i: int| 0 <= i < offsets.len() ==> #[trigger] offsets[i] <= u32::MAX,
    ensures
        chunk_offsets(table_bytes(head, offset_words(offsets), rest), 4) == Ok::<
            Seq<u64>,
            CodecError,
        >(offsets),
{
    let parts = offset_words(offsets);
    let bytes = table_bytes(head, parts, rest);
    lemma_table(head, parts, rest, 4, 0);
    assert forall|i: int| 0 <= i < offsets.len() implies be32(bytes, 8 + 4 * i)
        == #[trigger] offsets[i] by {
        lemma_table(head, parts, rest, 4, i);
        written_words_read_back(bytes, 8 + 4 * i, offsets[i] as int);
    }
    assert(chunk_offsets(bytes, 4)->Ok_0 =~= offsets);
}

/// A list of wide chunk offsets is read as it was written, eight bytes for each of them.
pub proof fn written_wide_chunk_offsets_read_back(head: Seq<u8>, offsets: Seq<u64>, rest: Seq<u8>)
    requires
        head.len() == 4,
        offsets.len() <= u32::MAX,
        8 + 8 * offsets.len() <= usize::MAX,
    ensures
        chunk_offsets(table_bytes(head, long_offset_words(offsets), rest), 8) == Ok::<
            Seq<u64>,
            CodecError,
        >(offsets),
{
    let parts = long_offset_words(offsets);
    let bytes = table_bytes(head, parts, rest);
    lemma_table(head, parts, rest, 8, 0);
    assert forall|i: int| 0 <= i < offsets.len() implies be64(bytes, 8 + 8 * i)
        == #[trigger] offsets[i] by {
        lemma_table(head, parts, rest, 8, i);
        written_long_words_read_back(bytes, 8 + 8 * i, offsets[i] as int);
    }
    assert(chunk_offsets(bytes, 8)->Ok_0 =~= offsets);
}

/// The bytes of a sample-to-chunk entry.
pub open spec fn run_bytes(entry: StscEntry) -> Seq<u8> {
    four_bytes(entry.first_chunk as int) + four_bytes(entry.samples_per_chunk as int) + four_bytes(
        entry.sample_description_index as int,
    )
}

/// Runs of chunks as they must be: from chunk one on, each behind the one before, with nothing that
/// counts from one left at zero.
pub open spec fn runs_in_order(entries: Seq<StscEntry>) -> bool {
    &&& entries.len() > 0
    &&& entries[0].first_chunk == 1
    &&& forall|i: int|
        0 <= i < entries.len() ==> (#[trigger] entries[i]).first_chunk != 0
            && entries[i].samples_per_chunk != 0 && entries[i].sample_description_index != 0
    &&& forall|i: int, j: int|
        0 <= i < j < entries.len() ==> (#[trigger] entries[i]).first_chunk < (
        #[trigger] entries[j]).first_chunk
}

proof fn lemma_runs(head: Seq<u8>, entries: Seq<StscEntry>, rest: Seq<u8>)
    requires
        head.len() == 4,
        entries.len() <= u32::MAX,
    ensures
        ({
            let parts = entries.map_values(|entry: StscEntry| run_bytes(entry));
            let bytes = table_bytes(head, parts, rest);
            &&& bytes.len() >= 8 + 12 * entries.len()
            &&& be32(bytes, 4) == entries.len()
            &&& forall|i: int|
                0 <= i < entries.len() ==> #[trigger] stsc_entry(bytes, i) == entries[i]
        }),
{
    let parts = entries.map_values(|entry: StscEntry| run_bytes(entry));
    let bytes = table_bytes(head, parts, rest);
    lemma_table(head, parts, rest, 12, 0);
    assert forall|i: int| 0 <= i < entries.len() implies #[trigger] stsc_entry(bytes, i)
        == entries[i] by {
        lemma_table(head, parts, rest, 12, i);
        let first = four_bytes(entries[i].first_chunk as int);
        let second = four_bytes(entries[i].samples_per_chunk as int);
        let third = four_bytes(entries[i].sample_description_index as int);
        lemma_split(bytes, 8 + 12 * i, first + second, third);
        lemma_split(bytes, 8 + 12 * i, first, second);
        written_words_read_back(bytes, 8 + 12 * i, entries[i].first_chunk as int);
        written_words_read_back(bytes, 12 + 12 * i, entries[i].samples_per_chunk as int);
        written_words_read_back(bytes, 16 + 12 * i, entries[i].sample_description_index as int);
    }
}

/// The reader finds no fault in runs as they must be, and one in all others but for their start.
proof fn lemma_run_fault(bytes: Seq<u8>, entries: Seq<StscEntry>, from: int)
    requires
        forall|i: int| 0 <= i < entries.len() ==> #[trigger] stsc_entry(bytes, i) == entries[i],
        0 <= from <= entries.len(),
    ensures
        stsc_error(bytes, entries.len() as int, from) is None <==> forall|i: int|
            from <= i < entries.len() ==> {
                &&& (#[trigger] entries[i]).first_chunk != 0
                &&& entries[i].samples_per_chunk != 0
                &&& entries[i].sample_description_index != 0
                &&& i > 0 ==> entries[i - 1].first_chunk < entries[i].first_chunk
            },
    decreases entries.len() - from,
{
    if from < entries.len() {
        assert(stsc_entry(bytes, from) == entries[from]);
        if from > 0 {
            assert(stsc_entry(bytes, from - 1) == entries[from - 1]);
        }
        lemma_run_fault(bytes, entries, from + 1);
    }
}

proof fn lemma_rising(entries: Seq<StscEntry>, i: int, j: int)
    requires
        forall|i: int|
            0 < i < entries.len() ==> entries[i - 1].first_chunk < (
            #[trigger] entries[i]).first_chunk,
        0 <= i < j < entries.len(),
    ensures
        entries[i].first_chunk < entries[j].first_chunk,
    decreases j,
{
    assert(entries[j - 1].first_chunk < entries[j].first_chunk);
    if i < j - 1 {
        lemma_rising(entries, i, j - 1);
    }
}

/// A list of runs is read as it was written if it is one as it must be, and refused otherwise.
pub proof fn written_chunk_runs_read_back(head: Seq<u8>, entries: Seq<StscEntry>, rest: Seq<u8>)
    requires
        head.len() == 4,
        entries.len() <= u32::MAX,
        8 + 12 * entries.len() <= usize::MAX,
    ensures
        ({
            let parts = entries.map_values(|entry: StscEntry| run_bytes(entry));
            let result = stsc_entries(table_bytes(head, parts, rest));
            if runs_in_order(entries) {
                result == Ok::<Seq<StscEntry>, CodecError>(entries)
            } else {
                result is Err
            }
        }),
{
    let parts = entries.map_values(|entry: StscEntry| run_bytes(entry));
    let bytes = table_bytes(head, parts, rest);
    lemma_runs(head, entries, rest);
    lemma_run_fault(bytes, entries, 0);
    if entries.len() > 0 {
        assert(stsc_entry(bytes, 0) == entries[0]);
        if stsc_error(bytes, entries.len() as int, 0) is None {
            assert forall|i: int, j: int| 0 <= i < j < entries.len() implies (
            #[trigger] entries[i]).first_chunk < (#[trigger] entries[j]).first_chunk by {
                lemma_rising(entries, i, j);
            }
            assert(stsc_entries(bytes) is Ok ==> stsc_entries(bytes)->Ok_0 =~= entries);
        } else if runs_in_order(entries) {
            assert forall|i: int| 0 <= i < entries.len() implies ({
                &&& (#[trigger] entries[i]).first_chunk != 0
                &&& entries[i].samples_per_chunk != 0
                &&& entries[i].sample_description_index != 0
                &&& i > 0 ==> entries[i - 1].first_chunk < entries[i].first_chunk
            }) by {
                if i > 0 {
                    assert(entries[i - 1].first_chunk < entries[i].first_chunk);
                }
            }
        }
    }
}

/// The bytes of a time-to-sample entry.
pub open spec fn duration_bytes(entry: SttsEntry) -> Seq<u8> {
    four_bytes(entry.sample_count as int) + four_bytes(entry.sample_delta as int)
}

/// A list of durations is read as it was written if it is not empty and nothing in it is zero, and
/// refused otherwise.
pub proof fn written_durations_read_back(head: Seq<u8>, entries: Seq<SttsEntry>, rest: Seq<u8>)
    requires
        head.len() == 4,
        entries.len() <= u32::MAX,
        8 + 8 * entries.len() <= usize::MAX,
    ensures
        ({
            let parts = entries.map_values(|entry: SttsEntry| duration_bytes(entry));
            let result = stts_entries(table_bytes(head, parts, rest));
            if entries.len() > 0 && forall|i: int|
                0 <= i < entries.len() ==> (#[trigger] entries[i]).sample_count > 0
                    && entries[i].sample_delta > 0 {
                result == Ok::<Seq<SttsEntry>, CodecError>(entries)
            } else {
                result is Err
            }
        }),
{
    let parts = entries.map_values(|entry: SttsEntry| duration_bytes(entry));
    let bytes = table_bytes(head, parts, rest);
    lemma_table(head, parts, rest, 8, 0);
    assert forall|i: int| 0 <= i < entries.len() implies #[trigger] stts_entry(bytes, i)
        == entries[i] by {
        lemma_table(head, parts, rest, 8, i);
        let first = four_bytes(entries[i].sample_count as int);
        let second = four_bytes(entries[i].sample_delta as int);
        lemma_split(bytes, 8 + 8 * i, first, second);
        written_words_read_back(bytes, 8 + 8 * i, entries[i].sample_count as int);
        written_words_read_back(bytes, 12 + 8 * i, entries[i].sample_delta as int);
    }
    assert forall|i: int| 0 <= i < entries.len() implies (#[trigger] entries[i]) == stts_entry(
        bytes,
        i,
    ) by {}
    if entries.len() > 0 && !stts_has_zero(bytes, entries.len() as int) {
        assert(stts_entries(bytes)->Ok_0 =~= entries);
    }
}

/// A list of sample sizes is read as it was written, four bytes for each of them.
pub proof fn written_sample_sizes_read_back(head: Seq<u8>, sizes: Seq<u32>, rest: Seq<u8>)
    requires
        head.len() == 4,
        sizes.len() <= MAX_SAMPLE_COUNT,
    ensures
        ({
            let parts = sizes.map_values(|size: u32| four_bytes(size as int));
            stsz_sizes(head + table_bytes(four_bytes(0), parts, rest)) == Ok::<
                Seq<u32>,
                CodecError,
            >(sizes)
        }),
{
    let parts = sizes.map_values(|size: u32| four_bytes(size as int));
    let table = table_bytes(four_bytes(0), parts, rest);
    let bytes = head + table;
    lemma_table(four_bytes(0), parts, rest, 4, 0);
    let zero = four_bytes(0);
    let count = four_bytes(sizes.len() as int);
    assert(forall|i: int| 0 <= i < 4 ==> #[trigger] zero[i] == bytes[4 + i]);
    written_words_read_back(bytes, 4, 0);
    assert(forall|i: int| 0 <= i < 4 ==> #[trigger] count[i] == bytes[8 + i]);
    written_words_read_back(bytes, 8, sizes.len() as int);
    assert forall|i: int| 0 <= i < sizes.len() implies be32(bytes, 12 + 4 * i)
        == #[trigger] sizes[i] by {
        lemma_table(four_bytes(0), parts, rest, 4, i);
        let part = parts[i];
        assert forall|j: int| 0 <= j < 4 implies #[trigger] part[j] == bytes[12 + 4 * i + j] by {
            assert(part[j] == table[8 + 4 * i + j]);
        }
        written_words_read_back(bytes, 12 + 4 * i, sizes[i] as int);
    }
    assert(stsz_sizes(bytes)->Ok_0 =~= sizes);
}

/// One size for all samples is read as it was written: each of as many samples has it.
pub proof fn one_size_counts_for_every_sample(head: Seq<u8>, size: u32, count: u32, rest: Seq<u8>)
    requires
        head.len() == 4,
        size > 0,
        count <= MAX_SAMPLE_COUNT,
    ensures
        ({
            let sizes = stsz_sizes(head + four_bytes(size as int) + four_bytes(count as int) + rest);
            &&& sizes is Ok
            &&& sizes->Ok_0.len() == count
            &&& forall|i: int| 0 <= i < count ==> #[trigger] sizes->Ok_0[i] == size
        }),
{
    let bytes = head + four_bytes(size as int) + four_bytes(count as int) + rest;
    let first = four_bytes(size as int);
    let second = four_bytes(count as int);
    assert(forall|i: int| 0 <= i < 4 ==> #[trigger] first[i] == bytes[4 + i]);
    written_words_read_back(bytes, 4, size as int);
    assert(forall|i: int| 0 <= i < 4 ==> #[trigger] second[i] == bytes[8 + i]);
    written_words_read_back(bytes, 8, count as int);
}

/// The time scale of a media header stands behind the version and two times, which have four bytes
/// each in version zero and eight in version one.
pub proof fn written_time_scales_read_back(
    version: u8,
    flags: Seq<u8>,
    created: Seq<u8>,
    changed: Seq<u8>,
    scale: u32,
    rest: Seq<u8>,
)
    requires
        version <= 1,
        flags.len() == 3,
        created.len() == (if version == 0 {
            4int
        } else {
            8
        }),
        changed.len() == created.len(),
    ensures
        mdhd_timescale(seq![version] + flags + created + changed + four_bytes(scale as int) + rest)
            == if scale == 0 {
            Err(CodecError::InvalidData("mdhd timescale must be non-zero"))
        } else {
            Ok(scale)
        },
{
    let bytes = seq![version] + flags + created + changed + four_bytes(scale as int) + rest;
    let at = (4 + 2 * created.len()) as int;
    let part = four_bytes(scale as int);
    assert(forall|i: int| 0 <= i < 4 ==> #[trigger] part[i] == bytes[at + i]);
    assert(bytes[0] == version);
    written_words_read_back(bytes, at, scale as int);
}

/// A box to be written.
#[verifier::ext_equal]
pub ghost struct WrittenBox {
    pub kind: u32,
    pub payload: Seq<u8>,
}

/// The bytes of a box: its size, its kind, and what it holds.
pub open spec fn box_bytes(item: WrittenBox) -> Seq<u8> {
    four_bytes((8 + item.payload.len()) as int) + four_bytes(item.kind as int) + item.payload
}

/// The bytes of the boxes from `from` on.
pub open spec fn boxes_bytes(items: Seq<WrittenBox>, from: int) -> Seq<u8>
    decreases items.len() - from,
{
    if from >= items.len() {
        Seq::empty()
    } else {
        box_bytes(items[from]) + boxes_bytes(items, from + 1)
    }
}

/// A box that was found is the one that was written: it has its kind, a header of eight bytes, and
/// behind the header what it holds.
#[verifier::opaque]
pub open spec fn is_written(bytes: Seq<u8>, found: MemoryBox, item: WrittenBox) -> bool {
    &&& found.kind == item.kind
    &&& found.payload == found.start + 8
    &&& found.end == found.payload + item.payload.len()
    &&& found.end <= bytes.len()
    &&& bytes.subrange(found.payload as int, found.end as int) == item.payload
}

proof fn lemma_box(bytes: Seq<u8>, cursor: int, item: WrittenBox)
    requires
        stands_at(bytes, cursor, box_bytes(item)),
        bytes.len() <= usize::MAX,
        8 + item.payload.len() <= u32::MAX,
    ensures
        box_at(bytes, cursor) is Ok,
        box_at(bytes, cursor)->Ok_0.end == cursor + box_bytes(item).len(),
        is_written(bytes, box_at(bytes, cursor)->Ok_0, item),
{
    let size = four_bytes((8 + item.payload.len()) as int);
    let kind = four_bytes(item.kind as int);
    lemma_split(bytes, cursor, size + kind, item.payload);
    lemma_split(bytes, cursor, size, kind);
    written_words_read_back(bytes, cursor, (8 + item.payload.len()) as int);
    written_words_read_back(bytes, cursor + 4, item.kind as int);
    assert(bytes.subrange(cursor + 8, cursor + 8 + item.payload.len()) =~= item.payload);
    reveal(is_written);
}

proof fn lemma_next_box(bytes: Seq<u8>, cursor: int)
    requires
        0 <= cursor < bytes.len(),
        box_at(bytes, cursor) is Ok,
        boxes_from(bytes, box_at(bytes, cursor)->Ok_0.end as int) is Ok,
    ensures
        boxes_from(bytes, cursor) == Ok::<Seq<MemoryBox>, CodecError>(
            seq![box_at(bytes, cursor)->Ok_0] + boxes_from(
                bytes,
                box_at(bytes, cursor)->Ok_0.end as int,
            )->Ok_0,
        ),
{
}

/// The boxes that were found are those that were written, from `from` on.
pub open spec fn are_written(
    bytes: Seq<u8>,
    found: Seq<MemoryBox>,
    items: Seq<WrittenBox>,
    from: int,
) -> bool {
    &&& found.len() == items.len() - from
    &&& forall|i: int|
        from <= i < items.len() ==> is_written(bytes, found[i - from], #[trigger] items[i])
}

proof fn lemma_boxes(bytes: Seq<u8>, cursor: int, items: Seq<WrittenBox>, from: int)
    requires
        0 <= cursor,
        stands_at(bytes, cursor, boxes_bytes(items, from)),
        cursor + boxes_bytes(items, from).len() == bytes.len(),
        bytes.len() <= usize::MAX,
        forall|i: int|
            0 <= i < items.len() ==> 8 + (#[trigger] items[i]).payload.len() <= u32::MAX,
        0 <= from <= items.len(),
    ensures
        boxes_from(bytes, cursor) is Ok,
        are_written(bytes, boxes_from(bytes, cursor)->Ok_0, items, from),
    decreases items.len() - from,
{
    if from < items.len() {
        let first = box_bytes(items[from]);
        let next = cursor + first.len();
        lemma_split(bytes, cursor, first, boxes_bytes(items, from + 1));
        assert(8 + items[from].payload.len() <= u32::MAX);
        lemma_box(bytes, cursor, items[from]);
        lemma_boxes(bytes, next, items, from + 1);
        lemma_next_box(bytes, cursor);
        let rest = boxes_from(bytes, next)->Ok_0;
        let item = box_at(bytes, cursor)->Ok_0;
        let found = seq![item] + rest;
        assert forall|i: int| from <= i < items.len() implies is_written(
            bytes,
            found[i - from],
            #[trigger] items[i],
        ) by {
            if i > from {
                assert(found[i - from] == rest[i - (from + 1)]);
            }
        }
    }
}

/// Boxes are found as they were written, one behind the other, each with what it holds.
pub proof fn written_boxes_are_found(items: Seq<WrittenBox>)
    requires
        boxes_bytes(items, 0).len() <= usize::MAX,
        forall|i: int|
            0 <= i < items.len() ==> 8 + (#[trigger] items[i]).payload.len() <= u32::MAX,
    ensures
        ({
            let bytes = boxes_bytes(items, 0);
            let found = boxes_from(bytes, 0);
            &&& found is Ok
            &&& found->Ok_0.len() == items.len()
            &&& forall|i: int|
                0 <= i < items.len() ==> is_written(bytes, found->Ok_0[i], #[trigger] items[i])
        }),
{
    lemma_boxes(boxes_bytes(items, 0), 0, items, 0);
    let found = boxes_from(boxes_bytes(items, 0), 0)->Ok_0;
    assert(forall|i: int| 0 <= i < items.len() ==> found[i - 0] == #[trigger] found[i]);
}

proof fn lemma_first_of_kind(boxes: Seq<MemoryBox>, kind: u32, from: int, index: int)
    requires
        0 <= from <= index < boxes.len(),
        boxes[index].kind == kind,
        forall|i: int| from <= i < index ==> (#[trigger] boxes[i]).kind != kind,
    ensures
        find_box(boxes, kind, from) == Some(boxes[index]),
    decreases index - from,
{
    if from < index {
        lemma_first_of_kind(boxes, kind, from + 1, index);
    }
}

proof fn lemma_none_of_kind(boxes: Seq<MemoryBox>, kind: u32, from: int)
    requires
        0 <= from,
        forall|i: int| from <= i < boxes.len() ==> (#[trigger] boxes[i]).kind != kind,
    ensures
        find_box(boxes, kind, from) is None,
    decreases boxes.len() - from,
{
    if from < boxes.len() {
        lemma_none_of_kind(boxes, kind, from + 1);
    }
}

/// Of several boxes of a kind the first is taken, and what it holds is handed on whole.
pub proof fn the_first_box_of_a_kind_is_taken(items: Seq<WrittenBox>, index: int)
    requires
        boxes_bytes(items, 0).len() <= usize::MAX,
        forall|i: int|
            0 <= i < items.len() ==> 8 + (#[trigger] items[i]).payload.len() <= u32::MAX,
        0 <= index < items.len(),
        forall|i: int| 0 <= i < index ==> (#[trigger] items[i]).kind != items[index].kind,
    ensures
        child_payload(boxes_bytes(items, 0), items[index].kind) == Ok::<
            Option<Seq<u8>>,
            CodecError,
        >(Some(items[index].payload)),
{
    written_boxes_are_found(items);
    reveal(is_written);
    let found = boxes_from(boxes_bytes(items, 0), 0)->Ok_0;
    assert forall|i: int| 0 <= i < index implies (#[trigger] found[i]).kind != items[index].kind by {
        assert(items[i].kind != items[index].kind);
    }
    assert(found[index].kind == items[index].kind);
    lemma_first_of_kind(found, items[index].kind, 0, index);
}

/// A kind that no box has is not found.
pub proof fn missing_kinds_are_not_found(items: Seq<WrittenBox>, kind: u32)
    requires
        boxes_bytes(items, 0).len() <= usize::MAX,
        forall|i: int|
            0 <= i < items.len() ==> 8 + (#[trigger] items[i]).payload.len() <= u32::MAX,
        forall|i: int| 0 <= i < items.len() ==> (#[trigger] items[i]).kind != kind,
    ensures
        child_payload(boxes_bytes(items, 0), kind) == Ok::<Option<Seq<u8>>, CodecError>(None),
{
    written_boxes_are_found(items);
    reveal(is_written);
    let found = boxes_from(boxes_bytes(items, 0), 0)->Ok_0;
    assert forall|i: int| 0 <= i < found.len() implies (#[trigger] found[i]).kind != kind by {
        assert(items[i].kind != kind);
    }
    lemma_none_of_kind(found, kind, 0);
}

} // verus!
