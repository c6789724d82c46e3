//! Where the samples of a track lie and when they play, said of the tables themselves.

use crate::error::CodecError;
use crate::isobmff::{
    chunk_run, chunks_from, covering_entry, first_av3a, placed, sample_deltas, sample_locations,
    stsd_entry, tick_at, ticks_of_time, time_of_ticks, top_level_step, MediaTime, TopLevelAction,
    MAX_MOOV_BYTES,
};
use crate::isobmff_box_laws::{
    box_bytes, boxes_bytes, eight_bytes, four_bytes, is_written, runs_in_order,
    written_boxes_are_found, written_long_words_read_back, written_words_read_back, WrittenBox,
};
use crate::isobmff_boxes::{
    be32, box_at, boxes_from, MemoryBox, StscEntry, SttsEntry, BOX_AV3A, BOX_MOOV,
};
use vstd::prelude::*;

verus! {

/// Sum of `count` sizes from `from` on.
pub open spec fn size_sum(sizes: Seq<u32>, from: int, count: int) -> int
    decreases count,
{
    if count <= 0 {
        0
    } else {
        size_sum(sizes, from, count - 1) + sizes[from + count - 1]
    }
}

/// Sum of the first `count` counts.
pub open spec fn count_sum(counts: Seq<int>, count: int) -> int
    decreases count,
{
    if count <= 0 {
        0
    } else {
        count_sum(counts, count - 1) + counts[count - 1]
    }
}

/// Entry `entry` speaks for chunk `chunk`, counted from zero: the chunk is not in front of the first
/// chunk of the entry, and in front of that of the next one.
pub open spec fn speaks_for(runs: Seq<StscEntry>, entry: int, chunk: int) -> bool {
    &&& 0 <= entry < runs.len()
    &&& runs[entry].first_chunk <= chunk + 1
    &&& entry + 1 < runs.len() ==> chunk + 1 < runs[entry + 1].first_chunk
}

/// The counts are those that the entries give to the chunks.
pub open spec fn counts_are(counts: Seq<int>, runs: Seq<StscEntry>) -> bool {
    forall|chunk: int, entry: int|
        0 <= chunk < counts.len() && #[trigger] speaks_for(runs, entry, chunk) ==> counts[chunk]
            == runs[entry].samples_per_chunk
}

proof fn lemma_size_sum_front(sizes: Seq<u32>, from: int, count: int)
    requires
        0 < count,
    ensures
        size_sum(sizes, from, count) == sizes[from] + size_sum(sizes, from + 1, count - 1),
    decreases count,
{
    reveal_with_fuel(size_sum, 2);
    if count > 1 {
        lemma_size_sum_front(sizes, from, count - 1);
    }
}

proof fn lemma_run(
    sizes: Seq<u32>,
    file_len: int,
    offset: int,
    sample: int,
    count: int,
    index: int,
)
    requires
        0 <= sample,
        0 <= offset,
        0 <= index < count,
    ensures
        chunk_run(sizes, file_len, offset, sample, count) matches Ok(run) ==> {
            &&& run.len() == count
            &&& run[index].offset == offset + size_sum(sizes, sample, index)
            &&& run[index].size == sizes[sample + index]
        },
    decreases count,
{
    if sample < sizes.len() && offset + sizes[sample] <= u64::MAX {
        let next = offset + sizes[sample];
        if count > 1 {
            lemma_run(
                sizes,
                file_len,
                next,
                sample + 1,
                count - 1,
                if index > 0 {
                    index - 1
                } else {
                    0
                },
            );
        }
        if let Ok(rest) = chunk_run(sizes, file_len, next, sample + 1, count - 1) {
            let run = seq![placed(offset, sizes[sample])] + rest;
            if index > 0 {
                lemma_size_sum_front(sizes, sample, index);
                assert(run[index] == rest[index - 1]);
            }
        }
    }
}

proof fn lemma_covering(runs: Seq<StscEntry>, number: int, index: int)
    requires
        0 <= index < runs.len(),
        runs[index].first_chunk <= number,
    ensures
        index <= covering_entry(runs, number, index),
        speaks_for(runs, covering_entry(runs, number, index), number - 1),
    decreases runs.len() - index,
{
    if index + 1 < runs.len() && number >= runs[index + 1].first_chunk {
        lemma_covering(runs, number, index + 1);
    }
}

proof fn lemma_count_sum(counts: Seq<int>, low: int, high: int)
    requires
        0 <= low <= high <= counts.len(),
        forall|i: int| 0 <= i < counts.len() ==> #[trigger] counts[i] >= 0,
    ensures
        0 <= count_sum(counts, low) <= count_sum(counts, high),
    decreases high,
{
    if low < high {
        lemma_count_sum(counts, low, high - 1);
        assert(counts[high - 1] >= 0);
    } else if high > 0 {
        lemma_count_sum(counts, low - 1, high - 1);
        assert(counts[high - 1] >= 0);
    }
}

proof fn lemma_chunks(
    sizes: Seq<u32>,
    runs: Seq<StscEntry>,
    offsets: Seq<u64>,
    description: u32,
    file_len: int,
    chunk: int,
    index: int,
    counts: Seq<int>,
    wanted: int,
    inside: int,
)
    requires
        runs_in_order(runs),
        counts.len() == offsets.len(),
        counts_are(counts, runs),
        0 <= chunk <= wanted < offsets.len(),
        0 <= index < runs.len(),
        runs[index].first_chunk <= chunk + 1,
        0 <= inside < counts[wanted],
        forall|i: int| 0 <= i < counts.len() ==> #[trigger] counts[i] >= 0,
    ensures
        chunks_from(
            sizes,
            runs,
            offsets,
            description,
            file_len,
            chunk,
            index,
            count_sum(counts, chunk),
        ) matches Ok(list) ==> {
            let place = count_sum(counts, wanted) - count_sum(counts, chunk) + inside;
            &&& place < list.len()
            &&& list[place].offset == offsets[wanted] + size_sum(
                sizes,
                count_sum(counts, wanted),
                inside,
            )
            &&& list[place].size == sizes[count_sum(counts, wanted) + inside]
        },
    decreases wanted - chunk,
{
    let sample = count_sum(counts, chunk);
    let entry = covering_entry(runs, chunk + 1, index);
    lemma_covering(runs, chunk + 1, index);
    lemma_count_sum(counts, 0, chunk);
    lemma_count_sum(counts, chunk + 1, wanted + 1);
    assert(counts[chunk] == runs[entry].samples_per_chunk);
    assert(count_sum(counts, chunk + 1) == sample + counts[chunk]);
    let all = chunks_from(
        sizes,
        runs,
        offsets,
        description,
        file_len,
        chunk,
        index,
        sample,
    );
    if all is Ok {
        let run = chunk_run(
            sizes,
            file_len,
            offsets[chunk] as int,
            sample,
            runs[entry].samples_per_chunk as int,
        )->Ok_0;
        let rest = chunks_from(
            sizes,
            runs,
            offsets,
            description,
            file_len,
            chunk + 1,
            entry,
            sample + runs[entry].samples_per_chunk,
        )->Ok_0;
        assert(all->Ok_0 == run + rest);
        assert(runs[entry].samples_per_chunk != 0);
        lemma_run(
            sizes,
            file_len,
            offsets[chunk] as int,
            sample,
            counts[chunk],
            if wanted == chunk {
                inside
            } else {
                0
            },
        );
        if wanted > chunk {
            lemma_count_sum(counts, chunk + 1, wanted);
            lemma_chunks(
                sizes,
                runs,
                offsets,
                description,
                file_len,
                chunk + 1,
                entry,
                counts,
                wanted,
                inside,
            );
            let place = count_sum(counts, wanted) - sample + inside;
            assert(all->Ok_0[place] == rest[place - run.len()]);
        }
    }
}

/// The samples of a chunk lie one behind the other from the offset of the chunk on, and each chunk
/// holds as many samples as the entry that speaks for it says.
///
/// So sample `inside` of chunk `chunk`, which is the one behind all samples of the chunks before it
/// and `inside` more, starts at the offset of its chunk and the sizes of those `inside` samples.
pub proof fn samples_follow_each_other_in_their_chunk(
    sizes: Seq<u32>,
    runs: Seq<StscEntry>,
    offsets: Seq<u64>,
    description: u32,
    file_len: int,
    counts: Seq<int>,
    chunk: int,
    inside: int,
)
    requires
        runs_in_order(runs),
        counts.len() == offsets.len(),
        counts_are(counts, runs),
        sizes.len() > 0,
        0 <= chunk < offsets.len(),
        0 <= inside < counts[chunk],
    ensures
        sample_locations(sizes, runs, offsets, description, file_len) matches Ok(list) ==> {
            let place = count_sum(counts, chunk) + inside;
            &&& 0 <= place < list.len()
            &&& list[place].offset == offsets[chunk] + size_sum(
                sizes,
                count_sum(counts, chunk),
                inside,
            )
            &&& list[place].size == sizes[place]
        },
{
    assert forall|i: int| 0 <= i < counts.len() implies #[trigger] counts[i] >= 0 by {
        lemma_covering(runs, i + 1, 0);
    }
    lemma_count_sum(counts, 0, chunk);
    lemma_chunks(
        sizes,
        runs,
        offsets,
        description,
        file_len,
        0,
        0,
        counts,
        chunk,
        inside,
    );
}

/// Samples of the entries in front of `entry`.
pub open spec fn timed_before(times: Seq<SttsEntry>, from: int, entry: int) -> int
    decreases entry - from,
{
    if entry <= from {
        0
    } else {
        timed_before(times, from, entry - 1) + times[entry - 1].sample_count
    }
}

proof fn lemma_timed_front(times: Seq<SttsEntry>, from: int, entry: int)
    requires
        from < entry,
    ensures
        timed_before(times, from, entry) == times[from].sample_count + timed_before(
            times,
            from + 1,
            entry,
        ),
        timed_before(times, from + 1, entry) >= 0,
    decreases entry - from,
{
    reveal_with_fuel(timed_before, 2);
    if from + 1 < entry {
        lemma_timed_front(times, from, entry - 1);
    }
}

proof fn lemma_deltas(times: Seq<SttsEntry>, from: int, entry: int, inside: int)
    requires
        0 <= from <= entry < times.len(),
        0 <= inside < times[entry].sample_count,
    ensures
        ({
            let deltas = sample_deltas(times, from);
            let place = timed_before(times, from, entry) + inside;
            &&& 0 <= place < deltas.len()
            &&& deltas[place] == times[entry].sample_delta
        }),
    decreases entry - from,
{
    if from < entry {
        lemma_timed_front(times, from, entry);
        lemma_deltas(times, from + 1, entry, inside);
        let first = Seq::new(times[from].sample_count as nat, |i: int| times[from].sample_delta);
        let rest = sample_deltas(times, from + 1);
        let place = timed_before(times, from, entry) + inside;
        assert((first + rest)[place] == rest[place - first.len()]);
    }
}

/// As many samples as an entry says last as long as it says: those behind the samples of the entries
/// before it. A sample starts when all samples before it have ended.
pub proof fn samples_last_as_their_entry_says(times: Seq<SttsEntry>, entry: int, inside: int)
    requires
        0 <= entry < times.len(),
        0 <= inside < times[entry].sample_count,
    ensures
        ({
            let deltas = sample_deltas(times, 0);
            let place = timed_before(times, 0, entry) + inside;
            &&& 0 <= place < deltas.len()
            &&& deltas[place] == times[entry].sample_delta
            &&& tick_at(deltas, place + 1) == tick_at(deltas, place) + times[entry].sample_delta
        }),
{
    lemma_deltas(times, 0, entry, inside);
}

/// A number of ticks is a time in seconds and nanoseconds, rounded down by less than one nanosecond.
pub proof fn ticks_are_rounded_down_to_nanoseconds(ticks: int, timescale: int)
    requires
        0 <= ticks <= u64::MAX,
        0 < timescale <= u32::MAX,
    ensures
        ({
            let time = time_of_ticks(ticks, timescale);
            let nanos = 1_000_000_000 * time.seconds + time.nanos;
            &&& time.nanos < 1_000_000_000
            &&& nanos * timescale <= 1_000_000_000 * ticks < (nanos + 1) * timescale
        }),
{
    let whole = ticks / timescale;
    let left = ticks % timescale;
    vstd::arithmetic::div_mod::lemma_fundamental_div_mod(ticks, timescale);
    vstd::arithmetic::div_mod::lemma_mod_bound(ticks, timescale);
    let scaled = left * 1_000_000_000;
    let part = scaled / timescale;
    vstd::arithmetic::div_mod::lemma_fundamental_div_mod(scaled, timescale);
    vstd::arithmetic::div_mod::lemma_mod_bound(scaled, timescale);
    assert(0 <= part < 1_000_000_000) by (nonlinear_arith)
        requires
            scaled == timescale * part + scaled % timescale,
            0 <= scaled % timescale < timescale,
            scaled == left * 1_000_000_000,
            0 <= left < timescale,
    ;
    assert(0 <= whole <= ticks) by (nonlinear_arith)
        requires
            ticks == timescale * whole + left,
            0 <= left < timescale,
            0 <= ticks,
            1 <= timescale,
    ;
    let nanos = 1_000_000_000 * whole + part;
    assert(nanos * timescale == 1_000_000_000 * (timescale * whole) + timescale * part)
        by (nonlinear_arith)
        requires
            nanos == 1_000_000_000 * whole + part,
    ;
    assert((nanos + 1) * timescale == nanos * timescale + timescale) by (nonlinear_arith);
}

/// A time has as many ticks as fit into it whole, unless they are more than 64 bits can say.
pub proof fn times_have_the_ticks_that_fit(time: MediaTime, timescale: int)
    requires
        0 < timescale <= u32::MAX,
    ensures
        ({
            let nanos = 1_000_000_000 * time.seconds + time.nanos;
            let ticks = ticks_of_time(time, timescale);
            &&& 1_000_000_000 * ticks <= nanos * timescale
            &&& nanos * timescale < 1_000_000_000 * (ticks + 1) || ticks == u64::MAX
        }),
{
    let seconds = time.seconds as int;
    let fine = time.nanos as int;
    let nanos = 1_000_000_000 * seconds + fine;
    assert(nanos * timescale == 1_000_000_000 * (seconds * timescale) + fine * timescale)
        by (nonlinear_arith)
        requires
            nanos == 1_000_000_000 * seconds + fine,
    ;
    assert(0 <= fine * timescale && 0 <= seconds * timescale) by (nonlinear_arith)
        requires
            0 <= fine,
            0 <= seconds,
            0 < timescale,
    ;
}

/// The header of a box of a given size and kind.
pub open spec fn header_bytes(size: int, kind: u32, rest: Seq<u8>) -> Seq<u8> {
    four_bytes(size) + four_bytes(kind as int) + rest
}

proof fn lemma_header(size: int, kind: u32, rest: Seq<u8>)
    requires
        0 <= size <= u32::MAX,
    ensures
        be32(header_bytes(size, kind, rest), 0) == size,
        be32(header_bytes(size, kind, rest), 4) == kind,
{
    let bytes = header_bytes(size, kind, rest);
    let first = four_bytes(size);
    let second = four_bytes(kind as int);
    assert(forall|i: int| 0 <= i < 4 ==> #[trigger] first[i] == bytes[0 + i]);
    assert(forall|i: int| 0 <= i < 4 ==> #[trigger] second[i] == bytes[4 + i]);
    written_words_read_back(bytes, 0, size);
    written_words_read_back(bytes, 4, kind as int);
}

proof fn lemma_large_header(size: int, kind: u32, rest: Seq<u8>)
    requires
        0 <= size <= u64::MAX,
    ensures
        crate::isobmff_boxes::be64(header_bytes(1, kind, eight_bytes(size) + rest), 8) == size,
{
    let bytes = header_bytes(1, kind, eight_bytes(size) + rest);
    let part = eight_bytes(size);
    assert(forall|i: int| 0 <= i < 8 ==> #[trigger] part[i] == bytes[8 + i]);
    written_long_words_read_back(bytes, 8, size);
}

/// What a top-level box asks for: a movie box is read, whatever is behind its header; any other box
/// is passed over whole.
pub open spec fn action_of(kind: u32, cursor: int, header_len: int, size: int) -> TopLevelAction {
    if kind == BOX_MOOV {
        TopLevelAction::ReadMovie {
            offset: (cursor + header_len) as u64,
            len: (size - header_len) as u64,
        }
    } else {
        TopLevelAction::SkipTo((cursor + size) as u64)
    }
}

/// A top-level box that fits the file is taken at its size, whether the size has four bytes or
/// eight; a box that gives no size reaches to the end of the file.
pub proof fn top_level_boxes_are_taken_at_their_size(
    size: int,
    kind: u32,
    rest: Seq<u8>,
    cursor: int,
    file_len: int,
)
    requires
        0 <= cursor,
        0 < size,
        cursor + size <= file_len <= u64::MAX,
        kind == BOX_MOOV ==> size <= MAX_MOOV_BYTES,
    ensures
        8 <= size <= u32::MAX ==> top_level_step(
            header_bytes(size, kind, rest),
            cursor,
            file_len,
        ) == Ok::<TopLevelAction, CodecError>(action_of(kind, cursor, 8, size)),
        16 <= size ==> top_level_step(
            header_bytes(1, kind, eight_bytes(size) + rest),
            cursor,
            file_len,
        ) == Ok::<TopLevelAction, CodecError>(action_of(kind, cursor, 16, size)),
        8 <= size == file_len - cursor ==> top_level_step(
            header_bytes(0, kind, rest),
            cursor,
            file_len,
        ) == Ok::<TopLevelAction, CodecError>(action_of(kind, cursor, 8, size)),
{
    if size <= u32::MAX {
        lemma_header(size, kind, rest);
    }
    lemma_header(1, kind, eight_bytes(size) + rest);
    lemma_large_header(size, kind, rest);
    lemma_header(0, kind, rest);
}

/// A box inside another whose size has eight bytes is taken at that size.
pub proof fn large_boxes_are_taken_at_their_size(bytes: Seq<u8>, kind: u32, size: int, rest: Seq<u8>)
    requires
        bytes == header_bytes(1, kind, eight_bytes(size) + rest),
        16 <= size <= bytes.len() <= usize::MAX,
    ensures
        box_at(bytes, 0) == Ok::<MemoryBox, CodecError>(
            MemoryBox { kind, start: 0, payload: 16, end: size as usize },
        ),
{
    lemma_header(1, kind, eight_bytes(size) + rest);
    lemma_large_header(size, kind, rest);
}

/// A box inside another that gives no size reaches to the end.
pub proof fn open_boxes_reach_to_the_end(bytes: Seq<u8>, kind: u32, payload: Seq<u8>)
    requires
        bytes == header_bytes(0, kind, payload),
        bytes.len() <= usize::MAX,
    ensures
        box_at(bytes, 0) == Ok::<MemoryBox, CodecError>(
            MemoryBox { kind, start: 0, payload: 8, end: bytes.len() as usize },
        ),
{
    lemma_header(0, kind, payload);
}

proof fn lemma_first_entry(entries: Seq<MemoryBox>, count: int, from: int, index: int)
    requires
        0 <= from <= index < count <= entries.len(),
        entries[index].kind == BOX_AV3A,
        forall|i: int| from <= i < index ==> (#[trigger] entries[i]).kind != BOX_AV3A,
    ensures
        first_av3a(entries, count, from) == Some(index),
    decreases index - from,
{
    if from < index {
        lemma_first_entry(entries, count, from + 1, index);
    }
}

proof fn lemma_second_word(head: Seq<u8>, value: int, rest: Seq<u8>)
    requires
        head.len() == 4,
        0 <= value <= u32::MAX,
    ensures
        be32(head + four_bytes(value) + rest, 4) == value,
        (head + four_bytes(value) + rest).len() == 8 + rest.len(),
{
    let bytes = head + four_bytes(value) + rest;
    let count = four_bytes(value);
    assert(forall|i: int| 0 <= i < 4 ==> #[trigger] count[i] == bytes[4 + i]);
    written_words_read_back(bytes, 4, value);
}

proof fn lemma_stsd(payload: Seq<u8>, body: Seq<u8>, entries: Seq<MemoryBox>, index: int)
    requires
        payload.len() >= 8,
        payload.subrange(8, payload.len() as int) == body,
        be32(payload, 4) == entries.len(),
        boxes_from(body, 0) == Ok::<Seq<MemoryBox>, CodecError>(entries),
        first_av3a(entries, entries.len() as int, 0) == Some(index),
    ensures
        stsd_entry(payload, true) == Ok::<Option<(Seq<u8>, u32)>, CodecError>(
            Some(
                (
                    body.subrange(entries[index].start as int, entries[index].end as int),
                    (index + 1) as u32,
                ),
            ),
        ),
        stsd_entry(payload, false) is Err,
{
}

/// Of the sample descriptions of a track the first Audio Vivid one is taken, whole and with its
/// header, and its number is counted from one.
pub proof fn the_first_sample_entry_is_taken(head: Seq<u8>, items: Seq<WrittenBox>, index: int)
    requires
        head.len() == 4,
        boxes_bytes(items, 0).len() <= usize::MAX,
        forall|i: int|
            0 <= i < items.len() ==> 8 + (#[trigger] items[i]).payload.len() <= u32::MAX,
        0 <= index < items.len() <= u32::MAX,
        items[index].kind == BOX_AV3A,
        forall|i: int| 0 <= i < index ==> (#[trigger] items[i]).kind != BOX_AV3A,
    ensures
        ({
            let payload = head + four_bytes(items.len() as int) + boxes_bytes(items, 0);
            let found = stsd_entry(payload, true);
            let (entry, number) = found->Ok_0->0;
            &&& found is Ok && found->Ok_0 is Some
            &&& number == index + 1
            &&& entry.len() == box_bytes(items[index]).len()
            &&& entry.subrange(8, entry.len() as int) == items[index].payload
            &&& stsd_entry(payload, false) is Err
        }),
{
    let body = boxes_bytes(items, 0);
    let payload = head + four_bytes(items.len() as int) + body;
    lemma_second_word(head, items.len() as int, body);
    assert(payload.subrange(8, payload.len() as int) =~= body);
    written_boxes_are_found(items);
    let entries = boxes_from(body, 0)->Ok_0;
    let entry = entries[index];
    assert(first_av3a(entries, items.len() as int, 0) == Some(index)) by {
        reveal(is_written);
        assert(is_written(body, entries[index], items[index]));
        assert forall|i: int| 0 <= i < index implies (#[trigger] entries[i]).kind != BOX_AV3A by {
            assert(is_written(body, entries[i], items[i]));
        }
        lemma_first_entry(entries, items.len() as int, 0, index);
    }
    let whole = body.subrange(entry.start as int, entry.end as int);
    assert(whole.len() == box_bytes(items[index]).len() && whole.subrange(8, whole.len() as int)
        == items[index].payload) by {
        reveal(is_written);
        assert(is_written(body, entries[index], items[index]));
        assert(whole.subrange(8, whole.len() as int) =~= body.subrange(
            entry.payload as int,
            entry.end as int,
        ));
    }
    lemma_stsd(payload, body, entries, index);
}

} // verus!
