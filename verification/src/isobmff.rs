//! Demultiplexing of an Audio Vivid track: where its samples lie in the file and when they play.

use crate::error::CodecError;
use crate::isobmff_boxes::{
    be32, be64, be_u32, be_u64, boxes_fit, boxes_from, child, child_payload, chunk_offsets, memory_boxes,
    mdhd_timescale, parse_co64, parse_mdhd_timescale, parse_stco, parse_stsc, parse_stsz,
    parse_stts, stsc_entries, stsz_sizes, stts_entries, stts_entry, MemoryBox, StscEntry, SttsEntry, BOX_AV3A,
    BOX_CO64, BOX_MDHD, BOX_MDIA, BOX_MINF, BOX_MOOV, BOX_STBL, BOX_STCO, BOX_STSC, BOX_STSD,
    BOX_STSZ, BOX_STTS, BOX_STZ2, BOX_TRAK,
};
use vstd::prelude::*;
use vstd::slice::{slice_subrange, slice_to_vec};

verus! {

/// Largest movie box that is read into memory.
pub const MAX_MOOV_BYTES: u64 = 67_108_864;

/// A time or a duration.
#[derive(Clone, Copy, Debug, PartialEq, Eq, Structural)]
pub struct MediaTime {
    pub seconds: u64,
    /// Below one billion.
    pub nanos: u32,
}

/// The time that `ticks` ticks take, rounded down to nanoseconds.
pub open spec fn time_of_ticks(ticks: int, timescale: int) -> MediaTime {
    if timescale == 0 {
        MediaTime { seconds: 0, nanos: 0 }
    } else {
        MediaTime {
            seconds: (ticks / timescale) as u64,
            nanos: (ticks % timescale * 1_000_000_000 / timescale) as u32,
        }
    }
}

/// Convert ticks to a time, rounding down to nanoseconds.
pub fn ticks_to_duration(ticks: u64, timescale: u32) -> (time: MediaTime)
    ensures
        time == time_of_ticks(ticks as int, timescale as int),
        time.nanos < 1_000_000_000,
{
    if timescale == 0 {
        return MediaTime { seconds: 0, nanos: 0 };
    }
    let scale: u64 = timescale as u64;
    let seconds: u64 = ticks / scale;
    let remainder: u64 = ticks % scale;
    assert(remainder * 1_000_000_000 < 0xFFFF_FFFF * 1_000_000_000);
    let nanos: u64 = remainder * 1_000_000_000 / scale;
    assert(nanos < 1_000_000_000) by (nonlinear_arith)
        requires
            nanos == remainder * 1_000_000_000 / scale as int,
            0 <= remainder < scale,
            scale > 0,
    ;
    MediaTime { seconds, nanos: nanos as u32 }
}

/// Whole ticks in a time, or the largest 64-bit number where there are more.
pub open spec fn ticks_of_time(time: MediaTime, timescale: int) -> int {
    let whole = time.seconds * timescale;
    let part = time.nanos * timescale / 1_000_000_000;
    if whole > u64::MAX {
        u64::MAX as int
    } else if whole + part > u64::MAX {
        u64::MAX as int
    } else {
        whole + part
    }
}

/// Convert a time to whole ticks, saturating.
pub fn duration_to_ticks(time: MediaTime, timescale: u32) -> (ticks: u64)
    ensures
        ticks == ticks_of_time(time, timescale as int),
{
    assert(time.nanos * timescale <= 0xFFFF_FFFF * 0xFFFF_FFFF) by (nonlinear_arith)
        requires
            time.nanos <= 0xFFFF_FFFF,
            timescale <= 0xFFFF_FFFF,
    ;
    let part: u64 = time.nanos as u64 * timescale as u64 / 1_000_000_000;
    match time.seconds.checked_mul(timescale as u64) {
        Some(whole) => match whole.checked_add(part) {
            Some(ticks) => ticks,
            None => u64::MAX,
        },
        None => u64::MAX,
    }
}

/// Going from ticks to a time and back never gains a tick, and loses at most one where ticks are
/// not shorter than nanoseconds.
pub proof fn tick_conversion_loses_at_most_one_tick(ticks: int, timescale: int)
    requires
        0 <= ticks <= u64::MAX,
        0 < timescale <= u32::MAX,
    ensures
        ticks_of_time(time_of_ticks(ticks, timescale), timescale) <= ticks,
        timescale <= 1_000_000_000 ==> ticks_of_time(time_of_ticks(ticks, timescale), timescale)
            >= ticks - 1,
{
    let seconds = ticks / timescale;
    let rest = ticks % timescale;
    vstd::arithmetic::div_mod::lemma_fundamental_div_mod(ticks, timescale);
    vstd::arithmetic::mul::lemma_mul_is_commutative(timescale, seconds);
    vstd::arithmetic::div_mod::lemma_mod_bound(ticks, timescale);
    vstd::arithmetic::div_mod::lemma_div_pos_is_pos(ticks, timescale);
    assert(seconds <= ticks) by (nonlinear_arith)
        requires
            0 <= seconds,
            1 <= timescale,
            timescale * seconds <= ticks,
    ;
    let scaled = rest * 1_000_000_000;
    let nanos = scaled / timescale;
    vstd::arithmetic::div_mod::lemma_fundamental_div_mod(scaled, timescale);
    vstd::arithmetic::mul::lemma_mul_is_commutative(timescale, nanos);
    vstd::arithmetic::div_mod::lemma_mod_bound(scaled, timescale);
    vstd::arithmetic::div_mod::lemma_div_pos_is_pos(scaled, timescale);
    assert(nanos < 1_000_000_000) by (nonlinear_arith)
        requires
            timescale * nanos <= scaled,
            scaled == rest * 1_000_000_000,
            rest < timescale,
            timescale > 0,
    ;
}

/// Where a sample lies and when it plays.
#[derive(Clone, Copy, Debug, PartialEq, Eq, Structural)]
pub struct SampleLocation {
    pub offset: u64,
    pub size: u32,
    pub start_tick: u64,
    pub duration_ticks: u32,
}

/// When a sample plays.
#[derive(Clone, Copy, Debug, PartialEq, Eq, Structural)]
pub struct Av3aSampleTiming {
    pub sample_index: usize,
    pub start_tick: u64,
    pub duration_ticks: u32,
    pub timescale: u32,
}

impl Av3aSampleTiming {
    /// When the sample starts.
    pub fn start_time(self) -> (time: MediaTime)
        ensures
            time == time_of_ticks(self.start_tick as int, self.timescale as int),
    {
        ticks_to_duration(self.start_tick, self.timescale)
    }

    /// How long the sample plays.
    pub fn duration(self) -> (time: MediaTime)
        ensures
            time == time_of_ticks(self.duration_ticks as int, self.timescale as int),
    {
        ticks_to_duration(self.duration_ticks as u64, self.timescale)
    }
}

/// A sample that has a place but no time yet.
pub open spec fn placed(offset: int, size: u32) -> SampleLocation {
    SampleLocation { offset: offset as u64, size, start_tick: 0, duration_ticks: 0 }
}

/// `count` samples from `sample` on, one after the other from byte `offset` of the file on.
pub open spec fn chunk_run(
    sizes: Seq<u32>,
    file_len: int,
    offset: int,
    sample: int,
    count: int,
) -> Result<Seq<SampleLocation>, CodecError>
    decreases count,
{
    if count <= 0 {
        Ok(Seq::empty())
    } else if sample >= sizes.len() {
        Err(CodecError::InvalidData("stsc describes more samples than stsz"))
    } else if sizes[sample] == 0 {
        Err(CodecError::InvalidData("av3a sample size must be non-zero"))
    } else if offset + sizes[sample] > u64::MAX {
        Err(CodecError::InvalidData("av3a sample file offset overflow"))
    } else if offset + sizes[sample] > file_len {
        Err(CodecError::InvalidData("av3a sample exceeds file length"))
    } else {
        match chunk_run(sizes, file_len, offset + sizes[sample], sample + 1, count - 1) {
            Err(error) => Err(error),
            Ok(rest) => Ok(seq![placed(offset, sizes[sample])] + rest),
        }
    }
}

/// The entry that covers chunk `number`, looking from entry `index` on.
pub open spec fn covering_entry(stsc: Seq<StscEntry>, number: int, index: int) -> int
    decreases stsc.len() - index,
{
    if index + 1 < stsc.len() && number >= stsc[index + 1].first_chunk {
        covering_entry(stsc, number, index + 1)
    } else {
        index
    }
}

/// The samples of the chunks from `chunk` on, of which `sample` is the first.
pub open spec fn chunks_from(
    sizes: Seq<u32>,
    stsc: Seq<StscEntry>,
    offsets: Seq<u64>,
    description: u32,
    file_len: int,
    chunk: int,
    index: int,
    sample: int,
) -> Result<Seq<SampleLocation>, CodecError>
    decreases offsets.len() - chunk,
{
    if chunk >= offsets.len() {
        if sample != sizes.len() {
            Err(CodecError::InvalidData("stsc/stco do not cover all stsz samples"))
        } else {
            Ok(Seq::empty())
        }
    } else {
        let entry = covering_entry(stsc, chunk + 1, index);
        if stsc[entry].sample_description_index != description {
            Err(
                CodecError::Unsupported(
                    "sample-description switching inside an av3a track is not implemented yet",
                ),
            )
        } else {
            match chunk_run(
                sizes,
                file_len,
                offsets[chunk] as int,
                sample,
                stsc[entry].samples_per_chunk as int,
            ) {
                Err(error) => Err(error),
                Ok(run) => match chunks_from(
                    sizes,
                    stsc,
                    offsets,
                    description,
                    file_len,
                    chunk + 1,
                    entry,
                    sample + stsc[entry].samples_per_chunk,
                ) {
                    Err(error) => Err(error),
                    Ok(rest) => Ok(run + rest),
                },
            }
        }
    }
}

/// The samples of a track, in order.
pub open spec fn sample_locations(
    sizes: Seq<u32>,
    stsc: Seq<StscEntry>,
    offsets: Seq<u64>,
    description: u32,
    file_len: int,
) -> Result<Seq<SampleLocation>, CodecError> {
    if sizes.len() == 0 {
        Ok(Seq::empty())
    } else if offsets.len() == 0 {
        Err(CodecError::InvalidData("non-empty av3a track has no chunks"))
    } else {
        chunks_from(sizes, stsc, offsets, description, file_len, 0, 0, 0)
    }
}

/// Find the entry that covers chunk `number`.
fn find_covering_entry(stsc: &[StscEntry], number: u32, from: usize) -> (index: usize)
    requires
        from < stsc@.len(),
    ensures
        index == covering_entry(stsc@, number as int, from as int),
        from <= index < stsc@.len(),
{
    let mut index: usize = from;
    while index < stsc.len() - 1 && number >= stsc[index + 1].first_chunk
        invariant
            from <= index < stsc@.len(),
            covering_entry(stsc@, number as int, index as int) == covering_entry(
                stsc@,
                number as int,
                from as int,
            ),
        decreases stsc@.len() - index,
    {
        index = index + 1;
    }
    index
}

/// Place the samples of one chunk.
fn place_chunk(
    locations: &mut Vec<SampleLocation>,
    sizes: &[u32],
    file_len: u64,
    chunk_offset: u64,
    count: u32,
) -> (result: Result<(), CodecError>)
    requires
        old(locations)@.len() <= sizes@.len(),
    ensures
        match chunk_run(
            sizes@,
            file_len as int,
            chunk_offset as int,
            old(locations)@.len() as int,
            count as int,
        ) {
            Ok(run) => result is Ok && final(locations)@ == old(locations)@ + run && run.len()
                == count && final(locations)@.len() <= sizes@.len(),
            Err(error) => result == Err::<(), CodecError>(error),
        },
{
    let ghost first = locations@.len() as int;
    let ghost before = locations@;
    let mut offset: u64 = chunk_offset;
    let mut done: u32 = 0;
    let ghost mut run = Seq::<SampleLocation>::empty();
    while done < count
        invariant
            done <= count,
            run.len() == done,
            locations@ == before + run,
            before == old(locations)@,
            before.len() == first,
            locations@.len() <= sizes@.len(),
            match chunk_run(sizes@, file_len as int, offset as int, first + done, count - done) {
                Ok(rest) => chunk_run(
                    sizes@,
                    file_len as int,
                    chunk_offset as int,
                    first,
                    count as int,
                ) == Ok::<Seq<SampleLocation>, CodecError>(run + rest),
                Err(error) => chunk_run(
                    sizes@,
                    file_len as int,
                    chunk_offset as int,
                    first,
                    count as int,
                ) == Err::<Seq<SampleLocation>, CodecError>(error),
            },
        decreases count - done,
    {
        let sample: usize = locations.len();
        if sample >= sizes.len() {
            return Err(CodecError::InvalidData("stsc describes more samples than stsz"));
        }
        let size: u32 = sizes[sample];
        if size == 0 {
            return Err(CodecError::InvalidData("av3a sample size must be non-zero"));
        }
        let end: u64 = match offset.checked_add(size as u64) {
            Some(end) => end,
            None => {
                return Err(CodecError::InvalidData("av3a sample file offset overflow"));
            },
        };
        if end > file_len {
            return Err(CodecError::InvalidData("av3a sample exceeds file length"));
        }
        let location = SampleLocation { offset, size, start_tick: 0, duration_ticks: 0 };
        locations.push(location);
        proof {
            if let Ok(rest) = chunk_run(
                sizes@,
                file_len as int,
                end as int,
                first + done + 1,
                count - done - 1,
            ) {
                assert(run + (seq![location] + rest) =~= run.push(location) + rest);
            }
            run = run.push(location);
            assert(locations@ =~= before + run);
        }
        offset = end;
        done = done + 1;
    }
    assert(run + Seq::<SampleLocation>::empty() =~= run);
    Ok(())
}

/// Work out where the samples of a track lie, from their sizes, the runs of chunks and the chunk
/// offsets.
pub fn build_sample_locations(
    sample_sizes: &[u32],
    stsc: &[StscEntry],
    offsets: &[u64],
    av3a_description_index: u32,
    file_len: u64,
) -> (result: Result<Vec<SampleLocation>, CodecError>)
    requires
        stsc@.len() > 0,
        offsets@.len() <= u32::MAX,
    ensures
        match sample_locations(
            sample_sizes@,
            stsc@,
            offsets@,
            av3a_description_index,
            file_len as int,
        ) {
            Ok(locations) => result is Ok && result->Ok_0@ == locations,
            Err(error) => result == Err::<Vec<SampleLocation>, CodecError>(error),
        },
{
    let mut locations: Vec<SampleLocation> = Vec::new();
    if sample_sizes.len() == 0 {
        assert(locations@ =~= Seq::<SampleLocation>::empty());
        return Ok(locations);
    }
    if offsets.len() == 0 {
        return Err(CodecError::InvalidData("non-empty av3a track has no chunks"));
    }
    let ghost goal = sample_locations(
        sample_sizes@,
        stsc@,
        offsets@,
        av3a_description_index,
        file_len as int,
    );
    assert(locations@ + chunks_from(
        sample_sizes@,
        stsc@,
        offsets@,
        av3a_description_index,
        file_len as int,
        0,
        0,
        0,
    )->Ok_0 =~= chunks_from(
        sample_sizes@,
        stsc@,
        offsets@,
        av3a_description_index,
        file_len as int,
        0,
        0,
        0,
    )->Ok_0);
    let mut index: usize = 0;
    let mut chunk: usize = 0;
    while chunk < offsets.len()
        invariant
            chunk <= offsets@.len() <= u32::MAX,
            index < stsc@.len(),
            locations@.len() <= sample_sizes@.len(),
            goal == sample_locations(
                sample_sizes@,
                stsc@,
                offsets@,
                av3a_description_index,
                file_len as int,
            ),
            match chunks_from(
                sample_sizes@,
                stsc@,
                offsets@,
                av3a_description_index,
                file_len as int,
                chunk as int,
                index as int,
                locations@.len() as int,
            ) {
                Ok(rest) => goal == Ok::<Seq<SampleLocation>, CodecError>(locations@ + rest),
                Err(error) => goal == Err::<Seq<SampleLocation>, CodecError>(error),
            },
        decreases offsets@.len() - chunk,
    {
        let number: u32 = chunk as u32 + 1;
        let ghost from = index;
        index = find_covering_entry(stsc, number, index);
        let mapping: StscEntry = stsc[index];
        if mapping.sample_description_index != av3a_description_index {
            return Err(
                CodecError::Unsupported(
                    "sample-description switching inside an av3a track is not implemented yet",
                ),
            );
        }
        let ghost before = locations@;
        place_chunk(
            &mut locations,
            sample_sizes,
            file_len,
            offsets[chunk],
            mapping.samples_per_chunk,
        )?;
        proof {
            let run = chunk_run(
                sample_sizes@,
                file_len as int,
                offsets@[chunk as int] as int,
                before.len() as int,
                mapping.samples_per_chunk as int,
            )->Ok_0;
            if let Ok(rest) = chunks_from(
                sample_sizes@,
                stsc@,
                offsets@,
                av3a_description_index,
                file_len as int,
                chunk as int + 1,
                index as int,
                locations@.len() as int,
            ) {
                assert(before + (run + rest) =~= locations@ + rest);
            }
        }
        chunk = chunk + 1;
    }
    if locations.len() != sample_sizes.len() {
        return Err(CodecError::InvalidData("stsc/stco do not cover all stsz samples"));
    }
    assert(locations@ + Seq::<SampleLocation>::empty() =~= locations@);
    Ok(locations)
}

/// Sample `i` of the list has its size, is not empty and lies inside the file.
pub open spec fn located_in_file(location: SampleLocation, size: u32, file_len: int) -> bool {
    &&& location.size == size
    &&& size > 0
    &&& location.offset + size <= file_len
}

proof fn lemma_run_in_file(
    sizes: Seq<u32>,
    file_len: int,
    offset: int,
    sample: int,
    count: int,
)
    requires
        0 <= offset,
        0 <= sample,
        0 <= count,
    ensures
        chunk_run(sizes, file_len, offset, sample, count) matches Ok(run) ==> {
            &&& run.len() == count
            &&& sample + count <= sizes.len() || count == 0
            &&& forall|i: int|
                0 <= i < run.len() ==> located_in_file(
                    #[trigger] run[i],
                    sizes[sample + i],
                    file_len,
                )
        },
    decreases count,
{
    if count > 0 && sample < sizes.len() {
        let end = offset + sizes[sample];
        lemma_run_in_file(sizes, file_len, end, sample + 1, count - 1);
        if let Ok(rest) = chunk_run(sizes, file_len, end, sample + 1, count - 1) {
            if sizes[sample] != 0 && end <= u64::MAX && end <= file_len {
                let run = seq![placed(offset, sizes[sample])] + rest;
                assert forall|i: int| 0 <= i < run.len() implies located_in_file(
                    #[trigger] run[i],
                    sizes[sample + i],
                    file_len,
                ) by {
                    if i > 0 {
                        assert(located_in_file(rest[i - 1], sizes[sample + 1 + (i - 1)], file_len));
                    }
                }
            }
        }
    }
}

proof fn lemma_chunks_in_file(
    sizes: Seq<u32>,
    stsc: Seq<StscEntry>,
    offsets: Seq<u64>,
    description: u32,
    file_len: int,
    chunk: int,
    index: int,
    sample: int,
)
    requires
        0 <= chunk,
        0 <= sample,
    ensures
        chunks_from(
            sizes,
            stsc,
            offsets,
            description,
            file_len,
            chunk,
            index,
            sample,
        ) matches Ok(locations) ==> {
            &&& locations.len() == sizes.len() - sample
            &&& forall|i: int|
                0 <= i < locations.len() ==> located_in_file(
                    #[trigger] locations[i],
                    sizes[sample + i],
                    file_len,
                )
        },
    decreases offsets.len() - chunk,
{
    if chunk < offsets.len() {
        let entry = covering_entry(stsc, chunk + 1, index);
        let count = stsc[entry].samples_per_chunk as int;
        lemma_run_in_file(sizes, file_len, offsets[chunk] as int, sample, count);
        lemma_chunks_in_file(
            sizes,
            stsc,
            offsets,
            description,
            file_len,
            chunk + 1,
            entry,
            sample + count,
        );
        if let Ok(run) = chunk_run(sizes, file_len, offsets[chunk] as int, sample, count) {
            if let Ok(rest) = chunks_from(
                sizes,
                stsc,
                offsets,
                description,
                file_len,
                chunk + 1,
                entry,
                sample + count,
            ) {
                let all = run + rest;
                assert forall|i: int| 0 <= i < all.len() implies located_in_file(
                    #[trigger] all[i],
                    sizes[sample + i],
                    file_len,
                ) by {
                    if i < run.len() {
                        assert(located_in_file(run[i], sizes[sample + i], file_len));
                    } else {
                        let j = i - run.len();
                        assert(located_in_file(rest[j], sizes[sample + count + j], file_len));
                    }
                }
            }
        }
    }
}

/// Every sample gets exactly one place, in order, and that place lies inside the file.
pub proof fn samples_lie_inside_the_file(
    sizes: Seq<u32>,
    stsc: Seq<StscEntry>,
    offsets: Seq<u64>,
    description: u32,
    file_len: int,
)
    ensures
        sample_locations(sizes, stsc, offsets, description, file_len) matches Ok(locations) ==> {
            &&& locations.len() == sizes.len()
            &&& forall|i: int|
                0 <= i < locations.len() ==> located_in_file(
                    #[trigger] locations[i],
                    sizes[i],
                    file_len,
                )
        },
{
    lemma_chunks_in_file(sizes, stsc, offsets, description, file_len, 0, 0, 0);
}

/// The duration of each sample, from entry `from` on.
pub open spec fn sample_deltas(stts: Seq<SttsEntry>, from: int) -> Seq<u32>
    decreases stts.len() - from,
{
    if from >= stts.len() {
        Seq::empty()
    } else {
        Seq::new(stts[from].sample_count as nat, |i: int| stts[from].sample_delta) + sample_deltas(
            stts,
            from + 1,
        )
    }
}

/// When sample `index` starts: the durations before it.
pub open spec fn tick_at(deltas: Seq<u32>, index: int) -> int
    decreases index,
{
    if index <= 0 {
        0
    } else {
        tick_at(deltas, index - 1) + deltas[index - 1]
    }
}

/// What comes of giving the durations from `from` on to `samples` samples: how many samples are
/// timed in the end, and what went wrong, if anything.
pub open spec fn timing_outcome(deltas: Seq<u32>, samples: int, from: int) -> (
    int,
    Option<CodecError>,
)
    decreases deltas.len() - from,
{
    if from >= deltas.len() {
        if from != samples {
            (from, Some(CodecError::InvalidData("stts does not cover all av3a samples")))
        } else {
            (from, None)
        }
    } else if from >= samples {
        (from, Some(CodecError::InvalidData("stts describes more samples than stsz")))
    } else if tick_at(deltas, from + 1) > u64::MAX {
        (from + 1, Some(CodecError::InvalidData("av3a track duration overflow")))
    } else {
        timing_outcome(deltas, samples, from + 1)
    }
}

/// The first `count` samples have their times, nothing else has changed.
pub open spec fn timed_up_to(
    before: Seq<SampleLocation>,
    after: Seq<SampleLocation>,
    deltas: Seq<u32>,
    count: int,
) -> bool {
    &&& after.len() == before.len()
    &&& forall|i: int|
        0 <= i < after.len() ==> {
            let sample = #[trigger] after[i];
            &&& sample.offset == before[i].offset
            &&& sample.size == before[i].size
            &&& i < count ==> sample.start_tick == tick_at(deltas, i) && sample.duration_ticks
                == deltas[i]
            &&& i >= count ==> sample == before[i]
        }
}

/// Give the samples their start times and durations; gives the duration of the track.
///
/// Samples are timed in order. An error stops the work there, with the samples before it timed.
pub fn apply_sample_timing(samples: &mut [SampleLocation], stts: &[SttsEntry]) -> (result: Result<
    u64,
    CodecError,
>)
    ensures
        ({
            let deltas = sample_deltas(stts@, 0);
            let (timed, error) = timing_outcome(deltas, old(samples)@.len() as int, 0);
            &&& timed_up_to(old(samples)@, final(samples)@, deltas, timed)
            &&& match error {
                Some(error) => result == Err::<u64, CodecError>(error),
                None => {
                    &&& result is Ok
                    &&& result->Ok_0 == tick_at(deltas, timed)
                    &&& timed == old(samples)@.len() == deltas.len()
                },
            }
        }),
{
    let ghost deltas = sample_deltas(stts@, 0);
    let ghost all = samples@.len() as int;
    let total: usize = samples.len();
    let mut index: usize = 0;
    let mut tick: u64 = 0;
    let mut entry: usize = 0;
    let ghost mut done = Seq::<u32>::empty();
    assert(done + sample_deltas(stts@, 0) =~= deltas);
    while entry < stts.len()
        invariant
            entry <= stts@.len(),
            deltas == sample_deltas(stts@, 0),
            all == old(samples)@.len(),
            samples@.len() == all,
            total == all,
            index <= total,
            done.len() == index,
            deltas == done + sample_deltas(stts@, entry as int),
            tick == tick_at(deltas, index as int),
            timing_outcome(deltas, all, 0) == timing_outcome(deltas, all, index as int),
            timed_up_to(old(samples)@, samples@, deltas, index as int),
        decreases stts@.len() - entry,
    {
        let run: SttsEntry = stts[entry];
        let ghost later = sample_deltas(stts@, entry as int + 1);
        let mut count: u32 = 0;
        assert(Seq::new((run.sample_count - count) as nat, |i: int| run.sample_delta) + later
            =~= sample_deltas(stts@, entry as int));
        while count < run.sample_count
            invariant
                count <= run.sample_count,
                entry < stts@.len(),
                deltas == sample_deltas(stts@, 0),
                all == old(samples)@.len(),
                samples@.len() == all,
                total == all,
                index <= total,
                done.len() == index,
                deltas == done + (Seq::new(
                    (run.sample_count - count) as nat,
                    |i: int| run.sample_delta,
                ) + later),
                tick == tick_at(deltas, index as int),
                timing_outcome(deltas, all, 0) == timing_outcome(deltas, all, index as int),
                timed_up_to(old(samples)@, samples@, deltas, index as int),
            decreases run.sample_count - count,
        {
            assert(deltas[index as int] == run.sample_delta);
            if index >= total {
                return Err(CodecError::InvalidData("stts describes more samples than stsz"));
            }
            let sample: SampleLocation = samples[index];
            samples[index] =
            SampleLocation {
                offset: sample.offset,
                size: sample.size,
                start_tick: tick,
                duration_ticks: run.sample_delta,
            };
            let next: u64 = match tick.checked_add(run.sample_delta as u64) {
                Some(next) => next,
                None => {
                    return Err(CodecError::InvalidData("av3a track duration overflow"));
                },
            };
            proof {
                let rest = Seq::new(
                    (run.sample_count - count - 1) as nat,
                    |i: int| run.sample_delta,
                );
                assert(done + (Seq::new(
                    (run.sample_count - count) as nat,
                    |i: int| run.sample_delta,
                ) + later) =~= done.push(run.sample_delta) + (rest + later));
                done = done.push(run.sample_delta);
            }
            tick = next;
            index = index + 1;
            count = count + 1;
        }
        assert(deltas =~= done + later);
        entry = entry + 1;
    }
    if index != total {
        return Err(CodecError::InvalidData("stts does not cover all av3a samples"));
    }
    Ok(tick)
}

/// The samples follow one another in time without gaps, up to `duration`.
pub open spec fn timeline(samples: Seq<SampleLocation>, duration: int) -> bool {
    &&& samples.len() == 0 ==> duration == 0
    &&& samples.len() > 0 ==> samples[0].start_tick == 0
    &&& forall|i: int|
        0 <= i < samples.len() ==> {
            let sample = #[trigger] samples[i];
            &&& sample.duration_ticks > 0
            &&& sample.start_tick + sample.duration_ticks == if i + 1 < samples.len() {
                samples[i + 1].start_tick as int
            } else {
                duration
            }
        }
}

proof fn lemma_deltas_positive(stts: Seq<SttsEntry>, from: int)
    requires
        0 <= from,
        forall|i: int| 0 <= i < stts.len() ==> (#[trigger] stts[i]).sample_delta > 0,
    ensures
        forall|i: int|
            0 <= i < sample_deltas(stts, from).len() ==> #[trigger] sample_deltas(stts, from)[i] > 0,
    decreases stts.len() - from,
{
    if from < stts.len() {
        lemma_deltas_positive(stts, from + 1);
        let later = sample_deltas(stts, from + 1);
        let head = Seq::new(stts[from].sample_count as nat, |i: int| stts[from].sample_delta);
        assert forall|i: int| 0 <= i < sample_deltas(stts, from).len() implies #[trigger] sample_deltas(
            stts,
            from,
        )[i] > 0 by {
            if i >= head.len() {
                assert(later[i - head.len()] > 0);
            }
        }
    }
}

/// Timing all samples with positive durations gives a timeline.
pub proof fn timed_samples_form_a_timeline(
    before: Seq<SampleLocation>,
    after: Seq<SampleLocation>,
    stts: Seq<SttsEntry>,
)
    requires
        forall|i: int| 0 <= i < stts.len() ==> (#[trigger] stts[i]).sample_delta > 0,
        sample_deltas(stts, 0).len() == before.len(),
        timing_outcome(sample_deltas(stts, 0), before.len() as int, 0).1 is None,
        timed_up_to(before, after, sample_deltas(stts, 0), before.len() as int),
    ensures
        timeline(after, tick_at(sample_deltas(stts, 0), before.len() as int)),
{
    lemma_deltas_positive(stts, 0);
    let deltas = sample_deltas(stts, 0);
    assert forall|i: int| 0 <= i < after.len() implies {
        let sample = #[trigger] after[i];
        &&& sample.duration_ticks > 0
        &&& sample.start_tick + sample.duration_ticks == if i + 1 < after.len() {
            after[i + 1].start_tick as int
        } else {
            tick_at(deltas, before.len() as int)
        }
    } by {
        assert(deltas[i] > 0);
        assert(tick_at(deltas, i + 1) == tick_at(deltas, i) + deltas[i]);
        if i + 1 < after.len() {
            assert(after[i + 1].start_tick == tick_at(deltas, i + 1));
        }
    }
}

/// The first entry of type `av3a` among the first `count` sample entries, from `from` on.
pub open spec fn first_av3a(entries: Seq<MemoryBox>, count: int, from: int) -> Option<int>
    decreases count - from,
{
    if from >= count {
        None
    } else if entries[from].kind == BOX_AV3A {
        Some(from)
    } else {
        first_av3a(entries, count, from + 1)
    }
}

/// The Audio Vivid entry of a sample description box, header included, with its one-based number.
/// Whether what is inside the entry makes sense is `entry_valid`.
pub open spec fn stsd_entry(payload: Seq<u8>, entry_valid: bool) -> Result<
    Option<(Seq<u8>, u32)>,
    CodecError,
> {
    let count = be32(payload, 4);
    let body = payload.subrange(8, payload.len() as int);
    if payload.len() < 8 {
        Err(CodecError::InvalidData("truncated stsd box"))
    } else {
        match boxes_from(body, 0) {
            Err(error) => Err(error),
            Ok(entries) => if entries.len() < count {
                Err(
                    CodecError::InvalidData("stsd entry_count exceeds available sample entries"),
                )
            } else {
                match first_av3a(entries, count, 0) {
                    None => Ok(None),
                    Some(index) => if !entry_valid {
                        Err(CodecError::InvalidData("invalid av3a AudioSampleEntry"))
                    } else {
                        Ok(
                            Some(
                                (
                                    body.subrange(
                                        entries[index].start as int,
                                        entries[index].end as int,
                                    ),
                                    (index + 1) as u32,
                                ),
                            ),
                        )
                    },
                }
            },
        }
    }
}

/// Find the Audio Vivid entry of a sample description box.
///
/// Gives the whole entry, header included. The caller has looked into it: `entry_valid` is whether
/// it makes sense, and an entry that does not is refused.
pub fn parse_av3a_stsd<'a>(payload: &'a [u8], entry_valid: bool) -> (result: Result<
    Option<(&'a [u8], u32)>,
    CodecError,
>)
    ensures
        match stsd_entry(payload@, entry_valid) {
            Err(error) => result == Err::<Option<(&'a [u8], u32)>, CodecError>(error),
            Ok(None) => result == Ok::<Option<(&'a [u8], u32)>, CodecError>(None),
            Ok(Some((entry, index))) => {
                &&& result is Ok
                &&& result->Ok_0 is Some
                &&& (result->Ok_0->0).0@ == entry
                &&& (result->Ok_0->0).1 == index
            },
        },
{
    if payload.len() < 8 {
        return Err(CodecError::InvalidData("truncated stsd box"));
    }
    let entry_count: usize = be_u32(payload, 4) as usize;
    let body: &[u8] = slice_subrange(payload, 8, payload.len());
    let entries = memory_boxes(body)?;
    if entries.len() < entry_count {
        return Err(CodecError::InvalidData("stsd entry_count exceeds available sample entries"));
    }
    let mut index: usize = 0;
    while index < entry_count
        invariant
            index <= entry_count <= entries@.len(),
            entry_count == be32(payload@, 4),
            entry_count <= u32::MAX,
            payload@.len() >= 8,
            body@ == payload@.subrange(8, payload@.len() as int),
            boxes_from(body@, 0) == Ok::<Seq<MemoryBox>, CodecError>(entries@),
            boxes_fit(entries@, body@.len() as int),
            first_av3a(entries@, entry_count as int, 0) == first_av3a(
                entries@,
                entry_count as int,
                index as int,
            ),
        decreases entry_count - index,
    {
        let item: MemoryBox = entries[index];
        if item.kind == BOX_AV3A {
            if !entry_valid {
                return Err(CodecError::InvalidData("invalid av3a AudioSampleEntry"));
            }
            assert(entries@[index as int].start <= entries@[index as int].end);
            return Ok(Some((slice_subrange(body, item.start, item.end), index as u32 + 1)));
        }
        index = index + 1;
    }
    Ok(None)
}

/// An Audio Vivid track.
#[derive(Debug)]
pub struct ParsedTrack {
    /// The sample entry box, header included.
    pub entry: Vec<u8>,
    pub timescale: u32,
    pub duration_ticks: u64,
    pub samples: Vec<SampleLocation>,
}

/// What the boxes say of a track.
#[verifier::ext_equal]
pub ghost struct TrackSyntax {
    pub entry: Seq<u8>,
    pub timescale: u32,
    /// The places of the samples.
    pub places: Seq<SampleLocation>,
    /// The durations of the samples.
    pub deltas: Seq<u32>,
}

impl ParsedTrack {
    /// The track is what the boxes say.
    pub open spec fn matches(&self, syntax: TrackSyntax) -> bool {
        &&& self.entry@ == syntax.entry
        &&& self.timescale == syntax.timescale
        &&& self.duration_ticks == tick_at(syntax.deltas, syntax.places.len() as int)
        &&& timed_up_to(
            syntax.places,
            self.samples@,
            syntax.deltas,
            syntax.places.len() as int,
        )
        &&& self.well_formed()
    }

    /// The samples form a timeline.
    pub open spec fn well_formed(&self) -> bool {
        timeline(self.samples@, self.duration_ticks as int)
    }
}

/// The payload of a child box that has to be there.
pub open spec fn required_child(parent: Seq<u8>, kind: u32, missing: CodecError) -> Result<
    Seq<u8>,
    CodecError,
> {
    match child_payload(parent, kind) {
        Err(error) => Err(error),
        Ok(None) => Err(missing),
        Ok(Some(payload)) => Ok(payload),
    }
}

/// Find the payload of a child box that has to be there.
fn require_child<'a>(parent: &'a [u8], kind: u32, missing: CodecError) -> (result: Result<
    &'a [u8],
    CodecError,
>)
    ensures
        match required_child(parent@, kind, missing) {
            Err(error) => result == Err::<&'a [u8], CodecError>(error),
            Ok(payload) => result is Ok && result->Ok_0@ == payload,
        },
{
    match child(parent, kind)? {
        Some(payload) => Ok(payload),
        None => Err(missing),
    }
}

/// The sample sizes of a sample table. Compact sizes and fragmented tracks are not supported.
pub open spec fn table_sizes(stbl: Seq<u8>) -> Result<Seq<u32>, CodecError> {
    match child_payload(stbl, BOX_STSZ) {
        Err(error) => Err(error),
        Ok(Some(payload)) => stsz_sizes(payload),
        Ok(None) => match child_payload(stbl, BOX_STZ2) {
            Err(error) => Err(error),
            Ok(Some(_)) => Err(
                CodecError::Unsupported("compact stz2 sample sizes are not implemented yet"),
            ),
            Ok(None) => Err(
                CodecError::Unsupported(
                    "fragmented/stsz-less av3a track is not implemented yet",
                ),
            ),
        },
    }
}

/// Read the sample sizes of a sample table.
fn read_table_sizes(stbl: &[u8]) -> (result: Result<Vec<u32>, CodecError>)
    ensures
        match table_sizes(stbl@) {
            Err(error) => result == Err::<Vec<u32>, CodecError>(error),
            Ok(sizes) => result is Ok && result->Ok_0@ == sizes,
        },
{
    match child(stbl, BOX_STSZ)? {
        Some(payload) => parse_stsz(payload),
        None => match child(stbl, BOX_STZ2)? {
            Some(_) => Err(
                CodecError::Unsupported("compact stz2 sample sizes are not implemented yet"),
            ),
            None => Err(
                CodecError::Unsupported(
                    "fragmented/stsz-less av3a track is not implemented yet",
                ),
            ),
        },
    }
}

/// The chunk runs of a sample table.
pub open spec fn table_runs(stbl: Seq<u8>) -> Result<Seq<StscEntry>, CodecError> {
    match required_child(
        stbl,
        BOX_STSC,
        CodecError::Unsupported("fragmented/stsc-less av3a track is not implemented yet"),
    ) {
        Err(error) => Err(error),
        Ok(payload) => stsc_entries(payload),
    }
}

/// Read the chunk runs of a sample table.
fn read_table_runs(stbl: &[u8]) -> (result: Result<Vec<StscEntry>, CodecError>)
    ensures
        match table_runs(stbl@) {
            Err(error) => result == Err::<Vec<StscEntry>, CodecError>(error),
            Ok(entries) => result is Ok && result->Ok_0@ == entries && entries.len() > 0,
        },
{
    let payload: &[u8] = require_child(
        stbl,
        BOX_STSC,
        CodecError::Unsupported("fragmented/stsc-less av3a track is not implemented yet"),
    )?;
    parse_stsc(payload)
}

/// The chunk offsets of a sample table: 32-bit ones where there are any, else 64-bit ones.
pub open spec fn table_offsets(stbl: Seq<u8>) -> Result<Seq<u64>, CodecError> {
    match child_payload(stbl, BOX_STCO) {
        Err(error) => Err(error),
        Ok(Some(payload)) => chunk_offsets(payload, 4),
        Ok(None) => match required_child(
            stbl,
            BOX_CO64,
            CodecError::Unsupported(
                "fragmented av3a track without stco/co64 is not implemented yet",
            ),
        ) {
            Err(error) => Err(error),
            Ok(payload) => chunk_offsets(payload, 8),
        },
    }
}

/// Read the chunk offsets of a sample table.
fn read_table_offsets(stbl: &[u8]) -> (result: Result<Vec<u64>, CodecError>)
    ensures
        match table_offsets(stbl@) {
            Err(error) => result == Err::<Vec<u64>, CodecError>(error),
            Ok(offsets) => result is Ok && result->Ok_0@ == offsets && offsets.len() <= u32::MAX,
        },
{
    match child(stbl, BOX_STCO)? {
        Some(payload) => parse_stco(payload),
        None => {
            let payload: &[u8] = require_child(
                stbl,
                BOX_CO64,
                CodecError::Unsupported(
                    "fragmented av3a track without stco/co64 is not implemented yet",
                ),
            )?;
            parse_co64(payload)
        },
    }
}

/// The sample durations of a sample table.
pub open spec fn table_times(stbl: Seq<u8>) -> Result<Seq<SttsEntry>, CodecError> {
    match required_child(
        stbl,
        BOX_STTS,
        CodecError::InvalidData("av3a track is missing stts"),
    ) {
        Err(error) => Err(error),
        Ok(payload) => stts_entries(payload),
    }
}

/// Read the sample durations of a sample table.
fn read_table_times(stbl: &[u8]) -> (result: Result<Vec<SttsEntry>, CodecError>)
    ensures
        match table_times(stbl@) {
            Err(error) => result == Err::<Vec<SttsEntry>, CodecError>(error),
            Ok(entries) => {
                &&& result is Ok
                &&& result->Ok_0@ == entries
                &&& forall|i: int|
                    0 <= i < entries.len() ==> (#[trigger] entries[i]).sample_delta > 0
            },
        },
{
    let payload: &[u8] = require_child(
        stbl,
        BOX_STTS,
        CodecError::InvalidData("av3a track is missing stts"),
    )?;
    let entries = parse_stts(payload)?;
    assert forall|i: int| 0 <= i < entries@.len() implies (#[trigger] entries@[i]).sample_delta
        > 0 by {
        assert(entries@[i] == stts_entry(payload@, i));
    }
    Ok(entries)
}

/// The track that a media box with sample table `stbl` and the sample entry describes.
pub open spec fn track_tables(
    mdia: Seq<u8>,
    stbl: Seq<u8>,
    entry: Seq<u8>,
    description: u32,
    file_len: int,
) -> Result<TrackSyntax, CodecError> {
    match required_child(
        mdia,
        BOX_MDHD,
        CodecError::InvalidData("av3a track is missing mdhd"),
    ) {
        Err(error) => Err(error),
        Ok(mdhd) => match mdhd_timescale(mdhd) {
            Err(error) => Err(error),
            Ok(timescale) => match table_sizes(stbl) {
                Err(error) => Err(error),
                Ok(sizes) => match table_runs(stbl) {
                    Err(error) => Err(error),
                    Ok(runs) => match table_offsets(stbl) {
                        Err(error) => Err(error),
                        Ok(offsets) => match table_times(stbl) {
                            Err(error) => Err(error),
                            Ok(times) => match sample_locations(
                                sizes,
                                runs,
                                offsets,
                                description,
                                file_len,
                            ) {
                                Err(error) => Err(error),
                                Ok(places) => match timing_outcome(
                                    sample_deltas(times, 0),
                                    places.len() as int,
                                    0,
                                ).1 {
                                    Some(error) => Err(error),
                                    None => Ok(
                                        TrackSyntax {
                                            entry,
                                            timescale,
                                            places,
                                            deltas: sample_deltas(times, 0),
                                        },
                                    ),
                                },
                            },
                        },
                    },
                },
            },
        },
    }
}

/// Read the tables of a track whose sample entry is known.
fn parse_track_tables(
    mdia: &[u8],
    stbl: &[u8],
    entry: &[u8],
    description: u32,
    file_len: u64,
) -> (result: Result<ParsedTrack, CodecError>)
    ensures
        match track_tables(mdia@, stbl@, entry@, description, file_len as int) {
            Err(error) => result == Err::<ParsedTrack, CodecError>(error),
            Ok(syntax) => result is Ok && result->Ok_0.matches(syntax),
        },
{
    let mdhd: &[u8] = require_child(
        mdia,
        BOX_MDHD,
        CodecError::InvalidData("av3a track is missing mdhd"),
    )?;
    let timescale: u32 = parse_mdhd_timescale(mdhd)?;
    let sizes = read_table_sizes(stbl)?;
    let runs = read_table_runs(stbl)?;
    let offsets = read_table_offsets(stbl)?;
    let times = read_table_times(stbl)?;
    let mut samples = build_sample_locations(
        sizes.as_slice(),
        runs.as_slice(),
        offsets.as_slice(),
        description,
        file_len,
    )?;
    let ghost places = samples@;
    let duration_ticks: u64 = apply_sample_timing(samples.as_mut_slice(), times.as_slice())?;
    proof {
        timed_samples_form_a_timeline(places, samples@, times@);
    }
    Ok(ParsedTrack { entry: slice_to_vec(entry), timescale, duration_ticks, samples })
}

/// The media box, the sample table and the sample descriptions of a track box, if it has them.
pub open spec fn trak_boxes(trak: Seq<u8>) -> Result<
    Option<(Seq<u8>, Seq<u8>, Seq<u8>)>,
    CodecError,
> {
    match child_payload(trak, BOX_MDIA) {
        Err(error) => Err(error),
        Ok(None) => Ok(None),
        Ok(Some(mdia)) => match child_payload(mdia, BOX_MINF) {
            Err(error) => Err(error),
            Ok(None) => Ok(None),
            Ok(Some(minf)) => match child_payload(minf, BOX_STBL) {
                Err(error) => Err(error),
                Ok(None) => Ok(None),
                Ok(Some(stbl)) => match child_payload(stbl, BOX_STSD) {
                    Err(error) => Err(error),
                    Ok(None) => Ok(None),
                    Ok(Some(stsd)) => Ok(Some((mdia, stbl, stsd))),
                },
            },
        },
    }
}

/// Find the boxes of a track that describe its samples.
fn find_trak_boxes<'a>(trak: &'a [u8]) -> (result: Result<
    Option<(&'a [u8], &'a [u8], &'a [u8])>,
    CodecError,
>)
    ensures
        match trak_boxes(trak@) {
            Err(error) => result == Err::<Option<(&'a [u8], &'a [u8], &'a [u8])>, CodecError>(
                error,
            ),
            Ok(None) => result == Ok::<Option<(&'a [u8], &'a [u8], &'a [u8])>, CodecError>(None),
            Ok(Some((mdia, stbl, stsd))) => {
                &&& result is Ok
                &&& result->Ok_0 is Some
                &&& (result->Ok_0->0).0@ == mdia
                &&& (result->Ok_0->0).1@ == stbl
                &&& (result->Ok_0->0).2@ == stsd
            },
        },
{
    let mdia: &[u8] = match child(trak, BOX_MDIA)? {
        Some(mdia) => mdia,
        None => {
            return Ok(None);
        },
    };
    let minf: &[u8] = match child(mdia, BOX_MINF)? {
        Some(minf) => minf,
        None => {
            return Ok(None);
        },
    };
    let stbl: &[u8] = match child(minf, BOX_STBL)? {
        Some(stbl) => stbl,
        None => {
            return Ok(None);
        },
    };
    match child(stbl, BOX_STSD)? {
        Some(stsd) => Ok(Some((mdia, stbl, stsd))),
        None => Ok(None),
    }
}

/// The Audio Vivid track of a track box, if it is one. Whether its sample entry makes sense is
/// `entry_valid`.
pub open spec fn trak_track(trak: Seq<u8>, file_len: int, entry_valid: bool) -> Result<
    Option<TrackSyntax>,
    CodecError,
> {
    match trak_boxes(trak) {
        Err(error) => Err(error),
        Ok(None) => Ok(None),
        Ok(Some((mdia, stbl, stsd))) => match stsd_entry(stsd, entry_valid) {
            Err(error) => Err(error),
            Ok(None) => Ok(None),
            Ok(Some((entry, description))) => match track_tables(
                mdia,
                stbl,
                entry,
                description,
                file_len,
            ) {
                Err(error) => Err(error),
                Ok(syntax) => Ok(Some(syntax)),
            },
        },
    }
}

/// Read a track box. A track of another kind gives nothing.
pub fn parse_trak(trak: &[u8], file_len: u64, entry_valid: bool) -> (result: Result<
    Option<ParsedTrack>,
    CodecError,
>)
    ensures
        match trak_track(trak@, file_len as int, entry_valid) {
            Err(error) => result == Err::<Option<ParsedTrack>, CodecError>(error),
            Ok(None) => result == Ok::<Option<ParsedTrack>, CodecError>(None),
            Ok(Some(syntax)) => result is Ok && result->Ok_0 is Some && result->Ok_0->0.matches(
                syntax,
            ),
        },
{
    let (mdia, stbl, stsd): (&[u8], &[u8], &[u8]) = match find_trak_boxes(trak)? {
        Some(found) => found,
        None => {
            return Ok(None);
        },
    };
    let (entry, description): (&[u8], u32) = match parse_av3a_stsd(stsd, entry_valid)? {
        Some(found) => found,
        None => {
            return Ok(None);
        },
    };
    let track = parse_track_tables(mdia, stbl, entry, description, file_len)?;
    Ok(Some(track))
}

/// The first Audio Vivid track among the boxes of a movie, from `from` on.
pub open spec fn first_track(
    moov: Seq<u8>,
    boxes: Seq<MemoryBox>,
    file_len: int,
    entry_valid: bool,
    from: int,
) -> Result<Option<TrackSyntax>, CodecError>
    decreases boxes.len() - from,
{
    if from >= boxes.len() {
        Ok(None)
    } else if boxes[from].kind != BOX_TRAK {
        first_track(moov, boxes, file_len, entry_valid, from + 1)
    } else {
        match trak_track(
            moov.subrange(boxes[from].payload as int, boxes[from].end as int),
            file_len,
            entry_valid,
        ) {
            Err(error) => Err(error),
            Ok(Some(syntax)) => Ok(Some(syntax)),
            Ok(None) => first_track(moov, boxes, file_len, entry_valid, from + 1),
        }
    }
}

/// The Audio Vivid track of a movie, if it has one. Whether its sample entry makes sense is
/// `entry_valid`.
pub open spec fn movie_track(moov: Seq<u8>, file_len: int, entry_valid: bool) -> Result<
    Option<TrackSyntax>,
    CodecError,
> {
    match boxes_from(moov, 0) {
        Err(error) => Err(error),
        Ok(boxes) => first_track(moov, boxes, file_len, entry_valid, 0),
    }
}

/// Find the Audio Vivid track of a movie.
pub fn parse_av3a_track(moov: &[u8], file_len: u64, entry_valid: bool) -> (result: Result<
    Option<ParsedTrack>,
    CodecError,
>)
    ensures
        match movie_track(moov@, file_len as int, entry_valid) {
            Err(error) => result == Err::<Option<ParsedTrack>, CodecError>(error),
            Ok(None) => result == Ok::<Option<ParsedTrack>, CodecError>(None),
            Ok(Some(syntax)) => result is Ok && result->Ok_0 is Some && result->Ok_0->0.matches(
                syntax,
            ),
        },
{
    let boxes = memory_boxes(moov)?;
    let mut index: usize = 0;
    while index < boxes.len()
        invariant
            index <= boxes@.len(),
            boxes_from(moov@, 0) == Ok::<Seq<MemoryBox>, CodecError>(boxes@),
            boxes_fit(boxes@, moov@.len() as int),
            first_track(moov@, boxes@, file_len as int, entry_valid, 0) == first_track(
                moov@,
                boxes@,
                file_len as int,
                entry_valid,
                index as int,
            ),
        decreases boxes@.len() - index,
    {
        let item: MemoryBox = boxes[index];
        if item.kind == BOX_TRAK {
            assert(boxes@[index as int].payload <= boxes@[index as int].end);
            let found = parse_trak(
                slice_subrange(moov, item.payload, item.end),
                file_len,
                entry_valid,
            )?;
            if found.is_some() {
                return Ok(found);
            }
        }
        index = index + 1;
    }
    Ok(None)
}

/// The Audio Vivid sample entry of a track box, if it has one.
pub open spec fn trak_entry(trak: Seq<u8>) -> Result<Option<Seq<u8>>, CodecError> {
    match trak_boxes(trak) {
        Err(error) => Err(error),
        Ok(None) => Ok(None),
        Ok(Some((_, _, stsd))) => match stsd_entry(stsd, true) {
            Err(error) => Err(error),
            Ok(None) => Ok(None),
            Ok(Some((entry, _))) => Ok(Some(entry)),
        },
    }
}

/// Find the Audio Vivid sample entry of a track box.
fn find_trak_entry<'a>(trak: &'a [u8]) -> (result: Result<Option<&'a [u8]>, CodecError>)
    ensures
        match trak_entry(trak@) {
            Err(error) => result == Err::<Option<&'a [u8]>, CodecError>(error),
            Ok(None) => result == Ok::<Option<&'a [u8]>, CodecError>(None),
            Ok(Some(entry)) => result is Ok && result->Ok_0 is Some && result->Ok_0->0@ == entry,
        },
{
    match find_trak_boxes(trak)? {
        Some((_mdia, _stbl, stsd)) => match parse_av3a_stsd(stsd, true)? {
            Some((entry, _description)) => Ok(Some(entry)),
            None => Ok(None),
        },
        None => Ok(None),
    }
}

/// The first Audio Vivid sample entry among the boxes of a movie, from `from` on.
pub open spec fn first_entry(moov: Seq<u8>, boxes: Seq<MemoryBox>, from: int) -> Result<
    Option<Seq<u8>>,
    CodecError,
>
    decreases boxes.len() - from,
{
    if from >= boxes.len() {
        Ok(None)
    } else if boxes[from].kind != BOX_TRAK {
        first_entry(moov, boxes, from + 1)
    } else {
        match trak_entry(moov.subrange(boxes[from].payload as int, boxes[from].end as int)) {
            Err(error) => Err(error),
            Ok(Some(entry)) => Ok(Some(entry)),
            Ok(None) => first_entry(moov, boxes, from + 1),
        }
    }
}

/// The sample entry of the Audio Vivid track of a movie, header included, if it has one.
pub open spec fn movie_entry(moov: Seq<u8>) -> Result<Option<Seq<u8>>, CodecError> {
    match boxes_from(moov, 0) {
        Err(error) => Err(error),
        Ok(boxes) => first_entry(moov, boxes, 0),
    }
}

/// Find the sample entry that has to make sense before the Audio Vivid track of a movie is read.
pub fn find_sample_entry(moov: &[u8]) -> (result: Result<Option<Vec<u8>>, CodecError>)
    ensures
        match movie_entry(moov@) {
            Err(error) => result == Err::<Option<Vec<u8>>, CodecError>(error),
            Ok(None) => result == Ok::<Option<Vec<u8>>, CodecError>(None),
            Ok(Some(entry)) => result is Ok && result->Ok_0 is Some && result->Ok_0->0@ == entry,
        },
{
    let boxes = memory_boxes(moov)?;
    let mut index: usize = 0;
    while index < boxes.len()
        invariant
            index <= boxes@.len(),
            boxes_from(moov@, 0) == Ok::<Seq<MemoryBox>, CodecError>(boxes@),
            boxes_fit(boxes@, moov@.len() as int),
            first_entry(moov@, boxes@, 0) == first_entry(moov@, boxes@, index as int),
        decreases boxes@.len() - index,
    {
        let item: MemoryBox = boxes[index];
        if item.kind == BOX_TRAK {
            assert(boxes@[index as int].payload <= boxes@[index as int].end);
            let found = find_trak_entry(slice_subrange(moov, item.payload, item.end))?;
            if let Some(entry) = found {
                return Ok(Some(slice_to_vec(entry)));
            }
        }
        index = index + 1;
    }
    Ok(None)
}

/// What the reading of a movie owes to its sample entry.
pub open spec fn entry_decides(
    entry: Result<Option<Seq<u8>>, CodecError>,
    refused: Result<Option<TrackSyntax>, CodecError>,
    accepted: Result<Option<TrackSyntax>, CodecError>,
) -> bool {
    match entry {
        Err(error) => {
            &&& refused == Err::<Option<TrackSyntax>, CodecError>(error)
            &&& accepted == Err::<Option<TrackSyntax>, CodecError>(error)
        },
        Ok(None) => {
            &&& refused == Ok::<Option<TrackSyntax>, CodecError>(None)
            &&& accepted == Ok::<Option<TrackSyntax>, CodecError>(None)
        },
        Ok(Some(bytes)) => {
            &&& refused == Err::<Option<TrackSyntax>, CodecError>(
                CodecError::InvalidData("invalid av3a AudioSampleEntry"),
            )
            &&& accepted matches Ok(track) ==> track is Some && track->0.entry == bytes
        },
    }
}

proof fn lemma_first_entry(moov: Seq<u8>, boxes: Seq<MemoryBox>, file_len: int, from: int)
    ensures
        entry_decides(
            first_entry(moov, boxes, from),
            first_track(moov, boxes, file_len, false, from),
            first_track(moov, boxes, file_len, true, from),
        ),
    decreases boxes.len() - from,
{
    if from < boxes.len() {
        lemma_first_entry(moov, boxes, file_len, from + 1);
    }
}

/// A movie has at most one sample entry that has to make sense. Without one nothing depends on it,
/// and with one that makes no sense the movie is refused.
pub proof fn one_sample_entry_decides(moov: Seq<u8>, file_len: int)
    ensures
        entry_decides(
            movie_entry(moov),
            movie_track(moov, file_len, false),
            movie_track(moov, file_len, true),
        ),
{
    if let Ok(boxes) = boxes_from(moov, 0) {
        lemma_first_entry(moov, boxes, file_len, 0);
    }
}

/// What to do after the header of a top-level box was read.
#[derive(Clone, Copy, Debug, PartialEq, Eq, Structural)]
pub enum TopLevelAction {
    /// Read eight more header bytes, which hold the size.
    ReadLargeSize,
    /// Go on with the box at this offset.
    SkipTo(u64),
    /// Read the movie box.
    ReadMovie { offset: u64, len: u64 },
}

/// Whether a box header can start at `cursor`.
pub fn top_level_header_fits(cursor: u64, file_len: u64) -> (result: Result<(), CodecError>)
    requires
        cursor <= file_len,
    ensures
        result == if file_len - cursor < 8 {
            Err::<(), CodecError>(
                CodecError::InvalidData("truncated top-level ISO-BMFF box header"),
            )
        } else {
            Ok(())
        },
{
    if file_len - cursor < 8 {
        return Err(CodecError::InvalidData("truncated top-level ISO-BMFF box header"));
    }
    Ok(())
}

/// What the header bytes of the box at `cursor` ask for.
pub open spec fn top_level_step(header: Seq<u8>, cursor: int, file_len: int) -> Result<
    TopLevelAction,
    CodecError,
> {
    let size32 = be32(header, 0);
    let header_len = if size32 == 1 {
        16int
    } else {
        8int
    };
    let size = if size32 == 1 {
        be64(header, 8)
    } else if size32 == 0 {
        file_len - cursor
    } else {
        size32
    };
    if size32 == 1 && header.len() < 16 {
        Ok(TopLevelAction::ReadLargeSize)
    } else if size < header_len {
        Err(CodecError::InvalidData("top-level ISO-BMFF box size is invalid"))
    } else if cursor + size > u64::MAX {
        Err(CodecError::InvalidData("top-level ISO-BMFF box size overflow"))
    } else if cursor + size > file_len {
        Err(CodecError::InvalidData("top-level ISO-BMFF box exceeds file length"))
    } else if be32(header, 4) != BOX_MOOV {
        Ok(TopLevelAction::SkipTo((cursor + size) as u64))
    } else if size - header_len > MAX_MOOV_BYTES {
        Err(CodecError::Unsupported("ISO-BMFF moov exceeds the demuxer safety limit"))
    } else {
        Ok(
            TopLevelAction::ReadMovie {
                offset: (cursor + header_len) as u64,
                len: (size - header_len) as u64,
            },
        )
    }
}

/// Decide what to do with the top-level box at `cursor`, of which eight or sixteen header bytes
/// were read. Skipping always moves on, and stays inside the file.
pub fn top_level_action(header: &[u8], cursor: u64, file_len: u64) -> (result: Result<
    TopLevelAction,
    CodecError,
>)
    requires
        header@.len() >= 8,
        cursor + 8 <= file_len,
    ensures
        result == top_level_step(header@, cursor as int, file_len as int),
        result matches Ok(TopLevelAction::SkipTo(next)) ==> cursor < next <= file_len,
        result matches Ok(TopLevelAction::ReadMovie { offset, len }) ==> offset + len <= file_len,
{
    let size32: u32 = be_u32(header, 0);
    let kind: u32 = be_u32(header, 4);
    let (size, header_len): (u64, u64) = if size32 == 1 {
        if header.len() < 16 {
            return Ok(TopLevelAction::ReadLargeSize);
        }
        (be_u64(header, 8), 16)
    } else if size32 == 0 {
        (file_len - cursor, 8)
    } else {
        (size32 as u64, 8)
    };
    if size < header_len {
        return Err(CodecError::InvalidData("top-level ISO-BMFF box size is invalid"));
    }
    let end: u64 = match cursor.checked_add(size) {
        Some(end) => end,
        None => {
            return Err(CodecError::InvalidData("top-level ISO-BMFF box size overflow"));
        },
    };
    if end > file_len {
        return Err(CodecError::InvalidData("top-level ISO-BMFF box exceeds file length"));
    }
    if kind != BOX_MOOV {
        return Ok(TopLevelAction::SkipTo(end));
    }
    let len: u64 = size - header_len;
    if len > MAX_MOOV_BYTES {
        return Err(CodecError::Unsupported("ISO-BMFF moov exceeds the demuxer safety limit"));
    }
    Ok(TopLevelAction::ReadMovie { offset: cursor + header_len, len })
}

/// A walk over the samples of an Audio Vivid track. Each sample is one complete frame.
pub struct Av3aIsoBmffDemuxer {
    track: ParsedTrack,
    next_sample: usize,
}

proof fn lemma_timeline_sorted(samples: Seq<SampleLocation>, duration: int, i: int, j: int)
    requires
        timeline(samples, duration),
        0 <= i <= j < samples.len(),
    ensures
        samples[i].start_tick <= samples[j].start_tick,
        samples[j].start_tick < duration,
        i < j ==> samples[i].start_tick + samples[i].duration_ticks <= samples[j].start_tick,
    decreases samples.len() - i,
{
    if i < j {
        assert(samples[i].start_tick + samples[i].duration_ticks == samples[i + 1].start_tick);
        lemma_timeline_sorted(samples, duration, i + 1, j);
    } else if j + 1 < samples.len() {
        assert(samples[j].start_tick + samples[j].duration_ticks == samples[j + 1].start_tick);
        lemma_timeline_sorted(samples, duration, j + 1, j + 1);
    } else {
        assert(samples[j].start_tick + samples[j].duration_ticks == duration);
    }
}

/// Sample `index` plays at `tick`.
pub open spec fn plays_at(samples: Seq<SampleLocation>, index: int, tick: int) -> bool {
    &&& 0 <= index < samples.len()
    &&& samples[index].start_tick <= tick < samples[index].start_tick
        + samples[index].duration_ticks
}

/// At every moment of a track at most one sample plays.
pub proof fn one_sample_plays_at_a_time(
    samples: Seq<SampleLocation>,
    duration: int,
    tick: int,
    i: int,
    j: int,
)
    requires
        timeline(samples, duration),
        plays_at(samples, i, tick),
        plays_at(samples, j, tick),
    ensures
        i == j,
{
    if i < j {
        lemma_timeline_sorted(samples, duration, i, j);
    } else if j < i {
        lemma_timeline_sorted(samples, duration, j, i);
    }
}

impl Av3aIsoBmffDemuxer {
    /// The track that is walked.
    pub closed spec fn track(&self) -> ParsedTrack {
        self.track
    }

    /// The sample that comes next.
    pub closed spec fn next(&self) -> int {
        self.next_sample as int
    }

    /// The samples form a timeline, and the next one is one of them or the end.
    pub open spec fn well_formed(&self) -> bool {
        &&& self.track().well_formed()
        &&& 0 <= self.next() <= self.track().samples@.len()
    }

    /// Start at the first sample of the Audio Vivid track of a movie, if it has one.
    ///
    /// `entry_valid` is whether the entry that [`find_sample_entry`] gives makes sense. A movie
    /// without an entry is read alike either way.
    pub fn from_movie(moov: &[u8], file_len: u64, entry_valid: bool) -> (result: Result<
        Option<Self>,
        CodecError,
    >)
        ensures
            match movie_track(moov@, file_len as int, entry_valid) {
                Err(error) => result == Err::<Option<Self>, CodecError>(error),
                Ok(None) => result == Ok::<Option<Self>, CodecError>(None),
                Ok(Some(syntax)) => {
                    &&& result is Ok
                    &&& result->Ok_0 is Some
                    &&& result->Ok_0->0.track().matches(syntax)
                    &&& result->Ok_0->0.next() == 0
                    &&& result->Ok_0->0.well_formed()
                },
            },
    {
        match parse_av3a_track(moov, file_len, entry_valid)? {
            Some(track) => Ok(Some(Av3aIsoBmffDemuxer { track, next_sample: 0 })),
            None => Ok(None),
        }
    }

    /// The sample entry box of the track, header included.
    pub fn sample_entry(&self) -> (entry: &[u8])
        ensures
            entry@ == self.track().entry@,
    {
        self.track.entry.as_slice()
    }

    /// Number of samples.
    pub fn sample_count(&self) -> (count: usize)
        ensures
            count == self.track().samples@.len(),
    {
        self.track.samples.len()
    }

    /// How long the track plays.
    pub fn duration(&self) -> (time: MediaTime)
        ensures
            time == time_of_ticks(
                self.track().duration_ticks as int,
                self.track().timescale as int,
            ),
    {
        ticks_to_duration(self.track.duration_ticks, self.track.timescale)
    }

    /// When the next sample starts, or the end of the track.
    pub fn position(&self) -> (time: MediaTime)
        requires
            self.well_formed(),
        ensures
            time == time_of_ticks(
                if self.next() < self.track().samples@.len() {
                    self.track().samples@[self.next()].start_tick as int
                } else {
                    self.track().duration_ticks as int
                },
                self.track().timescale as int,
            ),
    {
        let tick: u64 = if self.next_sample < self.track.samples.len() {
            self.track.samples[self.next_sample].start_tick
        } else {
            self.track.duration_ticks
        };
        ticks_to_duration(tick, self.track.timescale)
    }

    /// Go to the sample that plays at `position`, or to the end where none does any more.
    ///
    /// Every sample can be decoded on its own, so no sample before it is needed.
    pub fn seek(&mut self, position: MediaTime)
        requires
            old(self).well_formed(),
        ensures
            final(self).well_formed(),
            final(self).track() == old(self).track(),
            ({
                let track = old(self).track();
                let target = ticks_of_time(position, track.timescale as int);
                if target >= track.duration_ticks {
                    final(self).next() == track.samples@.len()
                } else {
                    plays_at(track.samples@, final(self).next(), target)
                }
            }),
    {
        let target: u64 = duration_to_ticks(position, self.track.timescale);
        let count: usize = self.track.samples.len();
        if target >= self.track.duration_ticks {
            self.next_sample = count;
            return;
        }
        let mut low: usize = 0;
        let mut high: usize = count;
        while low < high
            invariant
                *self == *old(self),
                count == self.track.samples@.len(),
                low <= high <= count,
                low > 0 ==> self.track.samples@[low - 1].start_tick <= target,
                high < count ==> self.track.samples@[high as int].start_tick > target,
            decreases high - low,
        {
            let middle: usize = low + (high - low) / 2;
            if self.track.samples[middle].start_tick <= target {
                low = middle + 1;
            } else {
                high = middle;
            }
        }
        proof {
            let samples = self.track.samples@;
            assert(samples[0].start_tick == 0);
            assert(low > 0);
            assert(samples[low - 1].start_tick + samples[low - 1].duration_ticks == if low < count {
                samples[low as int].start_tick as int
            } else {
                self.track.duration_ticks as int
            });
        }
        self.next_sample = low - 1;
    }

    /// Where the next sample lies and when it plays; nothing at the end.
    pub fn next_sample(&self) -> (sample: Option<(u64, u32, Av3aSampleTiming)>)
        requires
            self.well_formed(),
        ensures
            sample == if self.next() < self.track().samples@.len() {
                let location = self.track().samples@[self.next()];
                Some(
                    (
                        location.offset,
                        location.size,
                        Av3aSampleTiming {
                            sample_index: self.next() as usize,
                            start_tick: location.start_tick,
                            duration_ticks: location.duration_ticks,
                            timescale: self.track().timescale,
                        },
                    ),
                )
            } else {
                None::<(u64, u32, Av3aSampleTiming)>
            },
    {
        if self.next_sample >= self.track.samples.len() {
            return None;
        }
        let location: SampleLocation = self.track.samples[self.next_sample];
        Some(
            (
                location.offset,
                location.size,
                Av3aSampleTiming {
                    sample_index: self.next_sample,
                    start_tick: location.start_tick,
                    duration_ticks: location.duration_ticks,
                    timescale: self.track.timescale,
                },
            ),
        )
    }

    /// Move on to the sample behind the next one, once that one was read.
    pub fn advance(&mut self)
        requires
            old(self).well_formed(),
            old(self).next() < old(self).track().samples@.len(),
        ensures
            final(self).well_formed(),
            final(self).track() == old(self).track(),
            final(self).next() == old(self).next() + 1,
    {
        assert(self.track.samples.len() == self.track.samples@.len());
        self.next_sample = self.next_sample + 1;
    }
}

} // verus!
