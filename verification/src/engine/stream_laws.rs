//! What holds of elementary streams as a whole: frames do not depend on how the input is cut into
//! pieces, no byte gets lost, and frames back to back are found as they stand.

use crate::bitreader::{bit_at, bit_capacity, bits};
use crate::engine::header::{
    header_at, lemma_header_sizes, longer_input_gives_the_same_header, BitrateTable, FrameHeader,
    HeaderError,
};
use crate::engine::stream::{
    clamped, first_sync, flushed, found_in, frames_from, frames_of, pushed, sync_at, without_sync,
    Event, FoundFrame, StreamError,
};
use crate::frame::aatf_header;
use vstd::prelude::*;

verus! {

/// The frames in a buffer, what stays in it, and what stops the search, if anything.
pub open spec fn frames_in(buffer: Seq<u8>, limit: int, rates: BitrateTable) -> (
    Seq<FoundFrame>,
    Seq<u8>,
    Option<StreamError>,
)
    decreases buffer.len(),
{
    if buffer.len() < 2 {
        (Seq::empty(), buffer, None)
    } else {
        match first_sync(buffer, 0) {
            None => (Seq::empty(), without_sync(buffer), None),
            Some(offset) => if !(0 <= offset < buffer.len()) {
                (Seq::empty(), buffer, None)
            } else {
                let synced = buffer.subrange(offset, buffer.len() as int);
                match header_at(synced, rates, 0) {
                    Err(HeaderError::NeedMoreData { .. }) => (Seq::empty(), synced, None),
                    Err(_) => frames_in(synced.subrange(1, synced.len() as int), limit, rates),
                    Ok(header) => if header.frame_len > limit {
                        (
                            Seq::empty(),
                            synced,
                            Some(StreamError::BufferLimit { limit: limit as usize }),
                        )
                    } else if synced.len() < header.frame_len || header.frame_len == 0 {
                        (Seq::empty(), synced, None)
                    } else {
                        let (frames, rest, error) = frames_in(
                            synced.subrange(header.frame_len as int, synced.len() as int),
                            limit,
                            rates,
                        );
                        (
                            seq![
                                FoundFrame {
                                    header,
                                    bytes: synced.subrange(0, header.frame_len as int),
                                },
                            ] + frames,
                            rest,
                            error,
                        )
                    },
                }
            },
        }
    }
}

proof fn lemma_flush_keeps_frames(events: Seq<Event>, skipped: int)
    ensures
        frames_of(flushed(events, skipped)) == frames_of(events),
{
    if skipped != 0 {
        let after = flushed(events, skipped);
        if events.len() > 0 && events.last() is Skipped {
            assert(after.drop_last() =~= events.drop_last());
        } else {
            assert(after.drop_last() =~= events);
        }
    }
}

/// The frames among the events of a search are those in the buffer, behind those found before.
proof fn lemma_found_frames(
    events: Seq<Event>,
    buffer: Seq<u8>,
    skipped: int,
    limit: int,
    rates: BitrateTable,
)
    ensures
        ({
            let (found, rest, error) = found_in(events, buffer, skipped, limit, rates);
            let (frames, rest_too, error_too) = frames_in(buffer, limit, rates);
            &&& frames_of(found) == frames_of(events) + frames
            &&& rest == rest_too
            &&& error == error_too
        }),
    decreases buffer.len(),
{
    let (found, rest, error) = found_in(events, buffer, skipped, limit, rates);
    let (frames, rest_too, error_too) = frames_in(buffer, limit, rates);
    assert(frames_of(events) + Seq::<FoundFrame>::empty() =~= frames_of(events));
    if buffer.len() < 2 {
        lemma_flush_keeps_frames(events, skipped);
    } else {
        match first_sync(buffer, 0) {
            None => {
                lemma_flush_keeps_frames(
                    events,
                    clamped(skipped + buffer.len() - without_sync(buffer).len()),
                );
            },
            Some(offset) => if 0 <= offset < buffer.len() {
                let synced = buffer.subrange(offset, buffer.len() as int);
                let passed = clamped(skipped + offset);
                lemma_flush_keeps_frames(events, passed);
                match header_at(synced, rates, 0) {
                    Err(HeaderError::NeedMoreData { .. }) => {},
                    Err(_) => {
                        lemma_found_frames(
                            events,
                            synced.subrange(1, synced.len() as int),
                            clamped(passed + 1),
                            limit,
                            rates,
                        );
                    },
                    Ok(header) => if header.frame_len <= limit && synced.len() >= header.frame_len
                        && header.frame_len != 0 {
                        let frame = FoundFrame {
                            header,
                            bytes: synced.subrange(0, header.frame_len as int),
                        };
                        let flush = flushed(events, passed);
                        let next = flush.push(Event::Frame(frame));
                        let later = synced.subrange(header.frame_len as int, synced.len() as int);
                        lemma_found_frames(next, later, 0, limit, rates);
                        assert(next.drop_last() =~= flush);
                        assert(frames_of(next) == frames_of(events).push(frame));
                        let more = frames_in(later, limit, rates).0;
                        assert(frames_of(events).push(frame) + more =~= frames_of(events) + (seq![
                            frame,
                        ] + more));
                    },
                }
            },
        }
    }
}

/// What stays in a buffer, but for a single byte with which no syncword can start: whether such a
/// byte stays or goes makes no difference.
pub open spec fn settled(rest: Seq<u8>) -> Seq<u8> {
    if rest.len() == 1 && rest[0] != 0xFF {
        Seq::empty()
    } else {
        rest
    }
}

/// Two searches found the same.
pub open spec fn same_find(
    first: (Seq<FoundFrame>, Seq<u8>, Option<StreamError>),
    second: (Seq<FoundFrame>, Seq<u8>, Option<StreamError>),
) -> bool {
    &&& first.0 == second.0
    &&& settled(first.1) == settled(second.1)
    &&& first.2 == second.2
}

/// No syncword starts before `end`, whatever follows.
pub open spec fn no_sync_before(input: Seq<u8>, end: int) -> bool {
    forall|i: int|
        0 <= i < end ==> #[trigger] input[i] != 0xFF || (i + 1 < input.len() && input[i + 1] < 0xF0)
}

proof fn lemma_first_sync(input: Seq<u8>, from: int)
    requires
        0 <= from,
    ensures
        match first_sync(input, from) {
            None => forall|i: int| from <= i ==> !(#[trigger] sync_at(input, i)),
            Some(found) => from <= found && sync_at(input, found) && forall|i: int|
                from <= i < found ==> !(#[trigger] sync_at(input, i)),
        },
    decreases input.len() - from,
{
    if from + 1 < input.len() && !sync_at(input, from) {
        lemma_first_sync(input, from + 1);
    }
}

proof fn lemma_first_sync_is(input: Seq<u8>, from: int, found: int)
    requires
        0 <= from <= found,
        sync_at(input, found),
        forall|i: int| from <= i < found ==> !(#[trigger] sync_at(input, i)),
    ensures
        first_sync(input, from) == Some(found),
    decreases found - from,
{
    if from < found {
        assert(!sync_at(input, from));
        lemma_first_sync_is(input, from + 1, found);
    }
}

/// Bytes in front, before which no syncword starts, make no difference.
proof fn lemma_garbage(buffer: Seq<u8>, end: int, limit: int, rates: BitrateTable)
    requires
        0 <= end <= buffer.len(),
        no_sync_before(buffer, end),
    ensures
        same_find(
            frames_in(buffer, limit, rates),
            frames_in(buffer.subrange(end, buffer.len() as int), limit, rates),
        ),
{
    let later = buffer.subrange(end, buffer.len() as int);
    lemma_first_sync(buffer, 0);
    lemma_first_sync(later, 0);
    if buffer.len() < 2 {
        if end == 0 {
            assert(later =~= buffer);
        } else {
            assert(buffer[0] != 0xFF);
            assert(later =~= Seq::<u8>::empty());
        }
    } else {
        match first_sync(buffer, 0) {
            None => {
                assert forall|i: int| 0 <= i implies !(#[trigger] sync_at(later, i)) by {
                    if sync_at(later, i) {
                        assert(sync_at(buffer, i + end));
                    }
                }
                if first_sync(later, 0) is Some {
                    assert(sync_at(later, first_sync(later, 0)->0));
                }
                if later.len() >= 2 {
                    assert(without_sync(later) =~= without_sync(buffer));
                } else if later.len() == 1 {
                    assert(later[0] == buffer.last());
                    if buffer.last() == 0xFF {
                        assert(without_sync(buffer) =~= later);
                    }
                } else {
                    assert(buffer[buffer.len() - 1] != 0xFF);
                    assert(later =~= Seq::<u8>::empty());
                }
            },
            Some(offset) => {
                assert(sync_at(buffer, offset));
                if offset < end {
                    assert(buffer[offset] != 0xFF || buffer[offset + 1] < 0xF0);
                }
                assert(sync_at(later, offset - end));
                assert forall|i: int| 0 <= i < offset - end implies !(#[trigger] sync_at(
                    later,
                    i,
                )) by {
                    if sync_at(later, i) {
                        assert(sync_at(buffer, i + end));
                    }
                }
                lemma_first_sync_is(later, 0, offset - end);
                assert(later.subrange(offset - end, later.len() as int) =~= buffer.subrange(
                    offset,
                    buffer.len() as int,
                ));
            },
        }
    }
}

/// What was found, with more frames in front.
pub open spec fn preceded(
    frames: Seq<FoundFrame>,
    found: (Seq<FoundFrame>, Seq<u8>, Option<StreamError>),
) -> (Seq<FoundFrame>, Seq<u8>, Option<StreamError>) {
    (frames + found.0, found.1, found.2)
}

/// Searching a buffer, and then what stays of it with more bytes behind, finds the same as searching
/// all at once.
pub proof fn searching_in_two_steps_finds_the_same(
    buffer: Seq<u8>,
    more: Seq<u8>,
    limit: int,
    rates: BitrateTable,
)
    requires
        frames_in(buffer, limit, rates).2 is None,
    ensures
        ({
            let (frames, rest, _) = frames_in(buffer, limit, rates);
            same_find(
                frames_in(buffer + more, limit, rates),
                preceded(frames, frames_in(rest + more, limit, rates)),
            )
        }),
    decreases buffer.len(),
{
    let (frames, rest, _) = frames_in(buffer, limit, rates);
    let all = buffer + more;
    let after = frames_in(rest + more, limit, rates);
    assert(Seq::<FoundFrame>::empty() + after.0 =~= after.0);
    lemma_first_sync(buffer, 0);
    if buffer.len() >= 2 {
        match first_sync(buffer, 0) {
            None => {
                let end = buffer.len() - rest.len();
                assert forall|i: int| 0 <= i < end implies #[trigger] all[i] != 0xFF || (i + 1
                    < all.len() && all[i + 1] < 0xF0) by {
                    if i + 1 < buffer.len() {
                        assert(!sync_at(buffer, i));
                    }
                }
                lemma_garbage(all, end, limit, rates);
                assert(all.subrange(end, all.len() as int) =~= rest + more);
            },
            Some(offset) => {
                assert(sync_at(buffer, offset));
                let synced = buffer.subrange(offset, buffer.len() as int);
                let longer = all.subrange(offset, all.len() as int);
                assert(longer =~= synced + more);
                assert forall|i: int| 0 <= i < offset implies #[trigger] all[i] != 0xFF || (i + 1
                    < all.len() && all[i + 1] < 0xF0) by {
                    assert(!sync_at(buffer, i));
                }
                assert forall|i: int| 0 <= i < offset implies !(#[trigger] sync_at(all, i)) by {
                    assert(!sync_at(buffer, i));
                }
                assert(sync_at(all, offset));
                lemma_first_sync_is(all, 0, offset);
                match header_at(synced, rates, 0) {
                    Err(HeaderError::NeedMoreData { .. }) => {
                        lemma_garbage(all, offset, limit, rates);
                    },
                    Err(_) => {
                        longer_input_gives_the_same_header(synced, more, rates, 0);
                        let next = synced.subrange(1, synced.len() as int);
                        searching_in_two_steps_finds_the_same(next, more, limit, rates);
                        assert(longer.subrange(1, longer.len() as int) =~= next + more);
                    },
                    Ok(header) => {
                        longer_input_gives_the_same_header(synced, more, rates, 0);
                        lemma_header_sizes(synced, rates, 0);
                        if synced.len() < header.frame_len {
                            lemma_garbage(all, offset, limit, rates);
                        } else {
                            let size = header.frame_len as int;
                            let next = synced.subrange(size, synced.len() as int);
                            searching_in_two_steps_finds_the_same(next, more, limit, rates);
                            assert(longer.subrange(size, longer.len() as int) =~= next + more);
                            assert(longer.subrange(0, size) =~= synced.subrange(0, size));
                            let frame = FoundFrame { header, bytes: synced.subrange(0, size) };
                            let found = frames_in(next, limit, rates).0;
                            assert(seq![frame] + (found + after.0) =~= (seq![frame] + found)
                                + after.0);
                        }
                    },
                }
            },
        }
    }
}

/// A lone byte in front with which no syncword can start makes no difference.
proof fn lemma_settled(first: Seq<u8>, second: Seq<u8>, more: Seq<u8>, limit: int, rates: BitrateTable)
    requires
        settled(first) == settled(second),
    ensures
        same_find(
            frames_in(first + more, limit, rates),
            frames_in(second + more, limit, rates),
        ),
{
    lemma_settled_one(first, more, limit, rates);
    lemma_settled_one(second, more, limit, rates);
}

proof fn lemma_settled_one(rest: Seq<u8>, more: Seq<u8>, limit: int, rates: BitrateTable)
    ensures
        same_find(
            frames_in(rest + more, limit, rates),
            frames_in(settled(rest) + more, limit, rates),
        ),
{
    if rest.len() == 1 && rest[0] != 0xFF {
        let all = rest + more;
        assert(all[0] != 0xFF);
        lemma_garbage(all, 1, limit, rates);
        assert(all.subrange(1, all.len() as int) =~= settled(rest) + more);
    }
}

/// Pushing bytes finds the frames that searching all bytes at once finds.
pub proof fn pushing_finds_the_frames_in_all_bytes(
    events: Seq<Event>,
    buffer: Seq<u8>,
    input: Seq<u8>,
    offset: int,
    limit: int,
    rates: BitrateTable,
)
    requires
        0 <= offset <= input.len(),
        pushed(events, buffer, input, offset, limit, rates).2 is None,
    ensures
        ({
            let (found, rest, error) = pushed(events, buffer, input, offset, limit, rates);
            let all = frames_in(
                buffer + input.subrange(offset, input.len() as int),
                limit,
                rates,
            );
            &&& frames_of(found) == frames_of(events) + all.0
            &&& settled(rest) == settled(all.1)
            &&& all.2 is None
        }),
    decreases input.len() - offset,
{
    let left = input.subrange(offset, input.len() as int);
    lemma_found_frames(events, buffer, 0, limit, rates);
    let (found, rest, error) = found_in(events, buffer, 0, limit, rates);
    if offset >= input.len() {
        assert(buffer + left =~= buffer);
    } else {
        let free = limit - rest.len();
        let take = if free < input.len() - offset {
            free
        } else {
            input.len() - offset
        };
        let piece = input.subrange(offset, offset + take);
        pushing_finds_the_frames_in_all_bytes(
            found,
            rest + piece,
            input,
            offset + take,
            limit,
            rates,
        );
        searching_in_two_steps_finds_the_same(buffer, left, limit, rates);
        assert((rest + piece) + input.subrange(offset + take, input.len() as int) =~= rest + left);
        let first = frames_in(buffer, limit, rates).0;
        let second = frames_in(rest + left, limit, rates).0;
        assert((frames_of(events) + first) + second =~= frames_of(events) + (first + second));
    }
}

/// The frames that a stream hands out do not depend on how its input is cut into pieces.
pub proof fn frames_do_not_depend_on_chunking(
    buffer: Seq<u8>,
    first: Seq<u8>,
    second: Seq<u8>,
    limit: int,
    rates: BitrateTable,
)
    requires
        pushed(Seq::empty(), buffer, first, 0, limit, rates).2 is None,
        ({
            let middle = pushed(Seq::empty(), buffer, first, 0, limit, rates).1;
            pushed(Seq::empty(), middle, second, 0, limit, rates).2 is None
        }),
        pushed(Seq::empty(), buffer, first + second, 0, limit, rates).2 is None,
    ensures
        ({
            let (events, middle, _) = pushed(Seq::empty(), buffer, first, 0, limit, rates);
            let (more_events, rest, _) = pushed(Seq::empty(), middle, second, 0, limit, rates);
            let (all_events, rest_too, _) = pushed(
                Seq::empty(),
                buffer,
                first + second,
                0,
                limit,
                rates,
            );
            &&& frames_of(all_events) == frames_of(events) + frames_of(more_events)
            &&& settled(rest) == settled(rest_too)
        }),
{
    let none = Seq::<Event>::empty();
    let (events, middle, _) = pushed(none, buffer, first, 0, limit, rates);
    let (more_events, rest, _) = pushed(none, middle, second, 0, limit, rates);
    let both = first + second;
    pushing_finds_the_frames_in_all_bytes(none, buffer, first, 0, limit, rates);
    pushing_finds_the_frames_in_all_bytes(none, middle, second, 0, limit, rates);
    pushing_finds_the_frames_in_all_bytes(none, buffer, both, 0, limit, rates);
    assert(first.subrange(0, first.len() as int) =~= first);
    assert(second.subrange(0, second.len() as int) =~= second);
    assert(both.subrange(0, both.len() as int) =~= both);
    searching_in_two_steps_finds_the_same(buffer + first, second, limit, rates);
    assert((buffer + first) + second =~= buffer + both);
    let one = frames_in(buffer + first, limit, rates);
    lemma_settled(one.1, middle, second, limit, rates);
    let two = frames_in(middle + second, limit, rates);
    assert(frames_of(none) + one.0 =~= one.0);
    assert(frames_of(none) + two.0 =~= two.0);
    let three = frames_in(buffer + both, limit, rates);
    assert(frames_of(none) + three.0 =~= three.0);
}

/// Number of bytes that events account for.
pub open spec fn covered(events: Seq<Event>) -> int
    decreases events.len(),
{
    if events.len() == 0 {
        0
    } else {
        covered(events.drop_last()) + match events.last() {
            Event::Skipped(bytes) => bytes,
            Event::Frame(frame) => frame.bytes.len() as int,
        }
    }
}

/// Every event accounts for a number of bytes.
pub open spec fn events_sound(events: Seq<Event>) -> bool {
    forall|i: int|
        0 <= i < events.len() ==> match #[trigger] events[i] {
            Event::Skipped(bytes) => 0 <= bytes,
            Event::Frame(_) => true,
        }
}

/// No event reports as many skipped bytes as can be counted at all, so none has lost count.
pub open spec fn counted(events: Seq<Event>) -> bool {
    forall|i: int|
        0 <= i < events.len() ==> match #[trigger] events[i] {
            Event::Skipped(bytes) => bytes < usize::MAX,
            Event::Frame(_) => true,
        }
}

proof fn lemma_flush(events: Seq<Event>, skipped: int)
    requires
        events_sound(events),
        0 <= skipped,
    ensures
        events_sound(flushed(events, skipped)),
        counted(flushed(events, skipped)) ==> {
            &&& counted(events)
            &&& skipped < usize::MAX
            &&& covered(flushed(events, skipped)) == covered(events) + skipped
        },
{
    let after = flushed(events, skipped);
    if skipped != 0 {
        if events.len() > 0 && events.last() is Skipped {
            let last = events.len() - 1;
            assert(events[last] == events.last());
            assert(after.drop_last() =~= events.drop_last());
            assert(after[last] == after.last());
            if counted(after) {
                assert forall|i: int| 0 <= i < events.len() implies match #[trigger] events[i] {
                    Event::Skipped(bytes) => bytes < usize::MAX,
                    Event::Frame(_) => true,
                } by {
                    if i < last {
                        assert(events[i] == after[i]);
                    }
                }
            }
            assert forall|i: int| 0 <= i < after.len() implies match #[trigger] after[i] {
                Event::Skipped(bytes) => 0 <= bytes,
                Event::Frame(_) => true,
            } by {
                if i < last {
                    assert(events[i] == after[i]);
                }
            }
        } else {
            assert(after.drop_last() =~= events);
            assert(after[events.len() as int] == Event::Skipped(skipped));
            assert forall|i: int| 0 <= i < events.len() implies #[trigger] after[i] == events[i] by {}
            if counted(after) {
                assert forall|i: int| 0 <= i < events.len() implies match #[trigger] events[i] {
                    Event::Skipped(bytes) => bytes < usize::MAX,
                    Event::Frame(_) => true,
                } by {
                    assert(events[i] == after[i]);
                }
            }
        }
    }
}

proof fn lemma_frame_pushed(events: Seq<Event>, frame: FoundFrame)
    requires
        events_sound(events),
    ensures
        ({
            let after = events.push(Event::Frame(frame));
            &&& events_sound(after)
            &&& counted(after) ==> counted(events)
            &&& covered(after) == covered(events) + frame.bytes.len()
        }),
{
    let after = events.push(Event::Frame(frame));
    assert(after.drop_last() =~= events);
    if counted(after) {
        assert forall|i: int| 0 <= i < events.len() implies match #[trigger] events[i] {
            Event::Skipped(bytes) => bytes < usize::MAX,
            Event::Frame(_) => true,
        } by {
            assert(events[i] == after[i]);
        }
    }
}

/// A search that has lost count nowhere loses no byte: each belongs to an event or stays in the
/// buffer.
pub proof fn searching_loses_no_byte(
    events: Seq<Event>,
    buffer: Seq<u8>,
    skipped: int,
    limit: int,
    rates: BitrateTable,
)
    requires
        events_sound(events),
        0 <= skipped,
        found_in(events, buffer, skipped, limit, rates).2 is None,
        counted(found_in(events, buffer, skipped, limit, rates).0),
    ensures
        ({
            let (found, rest, _) = found_in(events, buffer, skipped, limit, rates);
            &&& covered(found) + rest.len() == covered(events) + skipped + buffer.len()
            &&& events_sound(found)
            &&& counted(events)
            &&& skipped < usize::MAX
        }),
    decreases buffer.len(),
{
    lemma_first_sync(buffer, 0);
    if buffer.len() < 2 {
        lemma_flush(events, skipped);
    } else {
        match first_sync(buffer, 0) {
            None => {
                lemma_flush(
                    events,
                    clamped(skipped + buffer.len() - without_sync(buffer).len()),
                );
            },
            Some(offset) => {
                let synced = buffer.subrange(offset, buffer.len() as int);
                let passed = clamped(skipped + offset);
                match header_at(synced, rates, 0) {
                    Err(HeaderError::NeedMoreData { .. }) => {
                        lemma_flush(events, passed);
                    },
                    Err(_) => {
                        searching_loses_no_byte(
                            events,
                            synced.subrange(1, synced.len() as int),
                            clamped(passed + 1),
                            limit,
                            rates,
                        );
                    },
                    Ok(header) => {
                        lemma_header_sizes(synced, rates, 0);
                        lemma_flush(events, passed);
                        if synced.len() >= header.frame_len {
                            let size = header.frame_len as int;
                            let frame = FoundFrame { header, bytes: synced.subrange(0, size) };
                            let flush = flushed(events, passed);
                            lemma_frame_pushed(flush, frame);
                            searching_loses_no_byte(
                                flush.push(Event::Frame(frame)),
                                synced.subrange(size, synced.len() as int),
                                0,
                                limit,
                                rates,
                            );
                        }
                    },
                }
            },
        }
    }
}

/// Pushing bytes, count lost nowhere, loses none: each belongs to an event or waits for more.
pub proof fn pushing_loses_no_byte(
    events: Seq<Event>,
    buffer: Seq<u8>,
    input: Seq<u8>,
    offset: int,
    limit: int,
    rates: BitrateTable,
)
    requires
        events_sound(events),
        0 <= offset <= input.len(),
        pushed(events, buffer, input, offset, limit, rates).2 is None,
        counted(pushed(events, buffer, input, offset, limit, rates).0),
    ensures
        ({
            let (found, rest, _) = pushed(events, buffer, input, offset, limit, rates);
            &&& covered(found) + rest.len() == covered(events) + buffer.len() + input.len() - offset
            &&& events_sound(found)
            &&& counted(events)
        }),
    decreases input.len() - offset,
{
    let (found, rest, error) = found_in(events, buffer, 0, limit, rates);
    lemma_found_sound(events, buffer, 0, limit, rates);
    if offset < input.len() {
        let free = limit - rest.len();
        let take = if free < input.len() - offset {
            free
        } else {
            input.len() - offset
        };
        pushing_loses_no_byte(
            found,
            rest + input.subrange(offset, offset + take),
            input,
            offset + take,
            limit,
            rates,
        );
    }
    searching_loses_no_byte(events, buffer, 0, limit, rates);
}

/// The events of a search account for numbers of bytes.
proof fn lemma_found_sound(
    events: Seq<Event>,
    buffer: Seq<u8>,
    skipped: int,
    limit: int,
    rates: BitrateTable,
)
    requires
        events_sound(events),
        0 <= skipped,
    ensures
        events_sound(found_in(events, buffer, skipped, limit, rates).0),
    decreases buffer.len(),
{
    lemma_first_sync(buffer, 0);
    if buffer.len() < 2 {
        lemma_flush(events, skipped);
    } else {
        match first_sync(buffer, 0) {
            None => {
                lemma_flush(
                    events,
                    clamped(skipped + buffer.len() - without_sync(buffer).len()),
                );
            },
            Some(offset) => {
                let synced = buffer.subrange(offset, buffer.len() as int);
                let passed = clamped(skipped + offset);
                lemma_flush(events, passed);
                match header_at(synced, rates, 0) {
                    Err(HeaderError::NeedMoreData { .. }) => {},
                    Err(_) => {
                        lemma_found_sound(
                            events,
                            synced.subrange(1, synced.len() as int),
                            clamped(passed + 1),
                            limit,
                            rates,
                        );
                    },
                    Ok(header) => {
                        lemma_header_sizes(synced, rates, 0);
                        if header.frame_len <= limit && synced.len() >= header.frame_len {
                            let size = header.frame_len as int;
                            let frame = FoundFrame { header, bytes: synced.subrange(0, size) };
                            lemma_frame_pushed(flushed(events, passed), frame);
                            lemma_found_sound(
                                flushed(events, passed).push(Event::Frame(frame)),
                                synced.subrange(size, synced.len() as int),
                                0,
                                limit,
                                rates,
                            );
                        }
                    },
                }
            },
        }
    }
}

/// Number of bytes that events report as skipped.
pub open spec fn skipped_in(events: Seq<Event>) -> int
    decreases events.len(),
{
    if events.len() == 0 {
        0
    } else {
        skipped_in(events.drop_last()) + match events.last() {
            Event::Skipped(bytes) => bytes,
            Event::Frame(_) => 0,
        }
    }
}

/// Number of bytes in the frames among events.
pub open spec fn framed_in(events: Seq<Event>) -> int
    decreases events.len(),
{
    if events.len() == 0 {
        0
    } else {
        framed_in(events.drop_last()) + match events.last() {
            Event::Skipped(_) => 0,
            Event::Frame(frame) => frame.bytes.len() as int,
        }
    }
}

proof fn lemma_covered_parts(events: Seq<Event>)
    ensures
        covered(events) == skipped_in(events) + framed_in(events),
    decreases events.len(),
{
    if events.len() > 0 {
        lemma_covered_parts(events.drop_last());
    }
}

/// The bytes that wait in a fresh stream behind some pushes.
pub open spec fn waiting_behind(pieces: Seq<Seq<u8>>, limit: int, rates: BitrateTable) -> Seq<u8>
    decreases pieces.len(), 1int,
{
    if pieces.len() == 0 {
        Seq::empty()
    } else {
        last_push(pieces, limit, rates).1
    }
}

/// What comes of the last of some pushes into a fresh stream.
pub open spec fn last_push(pieces: Seq<Seq<u8>>, limit: int, rates: BitrateTable) -> (
    Seq<Event>,
    Seq<u8>,
    Option<StreamError>,
)
    decreases pieces.len(), 0int,
{
    if pieces.len() == 0 {
        (Seq::empty(), Seq::empty(), None)
    } else {
        pushed(
            Seq::empty(),
            waiting_behind(pieces.drop_last(), limit, rates),
            pieces.last(),
            0,
            limit,
            rates,
        )
    }
}

/// None of the pushes is refused, and none loses count of the bytes that it skips. In memory none
/// can: there are fewer bytes than that.
pub open spec fn all_accepted(pieces: Seq<Seq<u8>>, limit: int, rates: BitrateTable) -> bool
    decreases pieces.len(),
{
    pieces.len() > 0 ==> {
        &&& all_accepted(pieces.drop_last(), limit, rates)
        &&& last_push(pieces, limit, rates).2 is None
        &&& counted(last_push(pieces, limit, rates).0)
    }
}

/// Number of bytes pushed.
pub open spec fn bytes_pushed(pieces: Seq<Seq<u8>>) -> int
    decreases pieces.len(),
{
    if pieces.len() == 0 {
        0
    } else {
        bytes_pushed(pieces.drop_last()) + pieces.last().len()
    }
}

/// Number of bytes that the events of all pushes report as skipped.
pub open spec fn bytes_skipped(pieces: Seq<Seq<u8>>, limit: int, rates: BitrateTable) -> int
    decreases pieces.len(),
{
    if pieces.len() == 0 {
        0
    } else {
        bytes_skipped(pieces.drop_last(), limit, rates) + skipped_in(
            last_push(pieces, limit, rates).0,
        )
    }
}

/// Number of bytes in the frames of all pushes.
pub open spec fn bytes_framed(pieces: Seq<Seq<u8>>, limit: int, rates: BitrateTable) -> int
    decreases pieces.len(),
{
    if pieces.len() == 0 {
        0
    } else {
        bytes_framed(pieces.drop_last(), limit, rates) + framed_in(
            last_push(pieces, limit, rates).0,
        )
    }
}

/// A search leaves no more than there was.
proof fn lemma_found_shrinks(
    events: Seq<Event>,
    buffer: Seq<u8>,
    skipped: int,
    limit: int,
    rates: BitrateTable,
)
    ensures
        found_in(events, buffer, skipped, limit, rates).1.len() <= buffer.len(),
    decreases buffer.len(),
{
    if buffer.len() >= 2 {
        match first_sync(buffer, 0) {
            None => {},
            Some(offset) => if 0 <= offset < buffer.len() {
                let synced = buffer.subrange(offset, buffer.len() as int);
                let passed = clamped(skipped + offset);
                match header_at(synced, rates, 0) {
                    Err(HeaderError::NeedMoreData { .. }) => {},
                    Err(_) => {
                        lemma_found_shrinks(
                            events,
                            synced.subrange(1, synced.len() as int),
                            clamped(passed + 1),
                            limit,
                            rates,
                        );
                    },
                    Ok(header) => if header.frame_len <= limit && synced.len() >= header.frame_len
                        && header.frame_len != 0 {
                        let size = header.frame_len as int;
                        let frame = FoundFrame { header, bytes: synced.subrange(0, size) };
                        lemma_found_shrinks(
                            flushed(events, passed).push(Event::Frame(frame)),
                            synced.subrange(size, synced.len() as int),
                            0,
                            limit,
                            rates,
                        );
                    },
                }
            },
        }
    }
}

/// A stream never keeps more bytes than its limit.
pub proof fn pushing_stays_within_the_limit(
    events: Seq<Event>,
    buffer: Seq<u8>,
    input: Seq<u8>,
    offset: int,
    limit: int,
    rates: BitrateTable,
)
    requires
        buffer.len() <= limit,
        0 <= offset <= input.len(),
    ensures
        pushed(events, buffer, input, offset, limit, rates).1.len() <= limit,
    decreases input.len() - offset,
{
    lemma_found_shrinks(events, buffer, 0, limit, rates);
    let (found, rest, error) = found_in(events, buffer, 0, limit, rates);
    if offset < input.len() && error is None && rest.len() < limit {
        let free = limit - rest.len();
        let take = if free < input.len() - offset {
            free
        } else {
            input.len() - offset
        };
        pushing_stays_within_the_limit(
            found,
            rest + input.subrange(offset, offset + take),
            input,
            offset + take,
            limit,
            rates,
        );
    }
}

/// However many pieces are pushed into a fresh stream, none of them refused: no byte is lost or
/// counted twice, and no more of them wait than the limit allows.
pub proof fn no_sequence_of_pushes_loses_a_byte(
    pieces: Seq<Seq<u8>>,
    limit: int,
    rates: BitrateTable,
)
    requires
        0 <= limit,
        all_accepted(pieces, limit, rates),
    ensures
        bytes_pushed(pieces) == bytes_skipped(pieces, limit, rates) + bytes_framed(
            pieces,
            limit,
            rates,
        ) + waiting_behind(pieces, limit, rates).len(),
        waiting_behind(pieces, limit, rates).len() <= limit,
    decreases pieces.len(),
{
    if pieces.len() > 0 {
        let before = pieces.drop_last();
        no_sequence_of_pushes_loses_a_byte(before, limit, rates);
        let waiting = waiting_behind(before, limit, rates);
        let none = Seq::<Event>::empty();
        pushing_loses_no_byte(none, waiting, pieces.last(), 0, limit, rates);
        pushing_stays_within_the_limit(none, waiting, pieces.last(), 0, limit, rates);
        lemma_covered_parts(last_push(pieces, limit, rates).0);
    }
}

/// The bytes of frames, one after the other.
pub open spec fn joined(frames: Seq<FoundFrame>) -> Seq<u8>
    decreases frames.len(),
{
    if frames.len() == 0 {
        Seq::empty()
    } else {
        frames[0].bytes + joined(frames.subrange(1, frames.len() as int))
    }
}

/// Frames back to back, put together again, are the bytes that they were found in.
pub proof fn frames_back_to_back_cover_the_bytes(bytes: Seq<u8>, rates: BitrateTable, offset: int)
    requires
        0 <= offset <= bytes.len(),
    ensures
        frames_from(bytes, rates, offset) matches Ok(frames) ==> joined(frames) == bytes.subrange(
            offset,
            bytes.len() as int,
        ),
    decreases bytes.len() - offset,
{
    let left = bytes.subrange(offset, bytes.len() as int);
    if offset < bytes.len() {
        if let Ok(header) = header_at(left, rates, offset) {
            let end = offset + header.frame_len;
            if offset < end <= bytes.len() && end <= usize::MAX {
                frames_back_to_back_cover_the_bytes(bytes, rates, end);
                if let Ok(rest) = frames_from(bytes, rates, end) {
                    let first = FoundFrame { header, bytes: bytes.subrange(offset, end) };
                    let all = seq![first] + rest;
                    assert(all.subrange(1, all.len() as int) =~= rest);
                    assert(joined(all) =~= left);
                }
            }
        }
    } else {
        assert(left =~= Seq::empty());
    }
}

/// A header starts with a syncword.
proof fn lemma_header_has_sync(input: Seq<u8>, rates: BitrateTable, offset: int)
    requires
        header_at(input, rates, offset) is Ok,
    ensures
        sync_at(input, 0),
{
    reveal(header_at);
    assert(aatf_header(input) is Ok);
    assert(bits(input, 0, 12) == 0xFFF);
    assert(bit_capacity(input) >= 16);
    reveal_with_fuel(bits, 13);
    let (first, second) = (input[0], input[1]);
    assert(bit_at(input, 0) && bit_at(input, 1) && bit_at(input, 2) && bit_at(input, 3) && bit_at(
        input,
        4,
    ) && bit_at(input, 5) && bit_at(input, 6) && bit_at(input, 7) && bit_at(input, 8) && bit_at(
        input,
        9,
    ) && bit_at(input, 10) && bit_at(input, 11));
    assert((first >> 7u8) & 1u8 == 1u8 && (first >> 6u8) & 1u8 == 1u8 && (first >> 5u8) & 1u8 == 1u8
        && (first >> 4u8) & 1u8 == 1u8 && (first >> 3u8) & 1u8 == 1u8 && (first >> 2u8) & 1u8 == 1u8
        && (first >> 1u8) & 1u8 == 1u8 && (first >> 0u8) & 1u8 == 1u8);
    assert((second >> 7u8) & 1u8 == 1u8 && (second >> 6u8) & 1u8 == 1u8 && (second >> 5u8) & 1u8
        == 1u8 && (second >> 4u8) & 1u8 == 1u8);
    assert(first == 0xFF) by (bit_vector)
        requires
            (first >> 7u8) & 1u8 == 1u8 && (first >> 6u8) & 1u8 == 1u8 && (first >> 5u8) & 1u8
                == 1u8 && (first >> 4u8) & 1u8 == 1u8 && (first >> 3u8) & 1u8 == 1u8 && (first
                >> 2u8) & 1u8 == 1u8 && (first >> 1u8) & 1u8 == 1u8 && (first >> 0u8) & 1u8 == 1u8,
    ;
    assert(second >= 0xF0) by (bit_vector)
        requires
            (second >> 7u8) & 1u8 == 1u8 && (second >> 6u8) & 1u8 == 1u8 && (second >> 5u8) & 1u8
                == 1u8 && (second >> 4u8) & 1u8 == 1u8,
    ;
}

/// A stream finds frames back to back as they stand, and skips nothing.
pub proof fn a_stream_finds_frames_back_to_back(
    bytes: Seq<u8>,
    rates: BitrateTable,
    offset: int,
    limit: int,
)
    requires
        0 <= offset <= bytes.len(),
        frames_from(bytes, rates, offset) is Ok,
        forall|i: int|
            0 <= i < (frames_from(bytes, rates, offset)->Ok_0).len() ==> (
            #[trigger] (frames_from(bytes, rates, offset)->Ok_0)[i]).bytes.len() <= limit,
    ensures
        frames_in(bytes.subrange(offset, bytes.len() as int), limit, rates) == (
            frames_from(bytes, rates, offset)->Ok_0,
            Seq::<u8>::empty(),
            None::<StreamError>,
        ),
    decreases bytes.len() - offset,
{
    let left = bytes.subrange(offset, bytes.len() as int);
    let frames = frames_from(bytes, rates, offset)->Ok_0;
    if offset < bytes.len() {
        let header = header_at(left, rates, offset)->Ok_0;
        assert(header_at(left, rates, 0) == Ok::<FrameHeader, HeaderError>(header)) by {
            lemma_offset_is_for_errors(left, rates, offset);
        }
        lemma_header_sizes(left, rates, 0);
        lemma_header_has_sync(left, rates, 0);
        let end = offset + header.frame_len;
        let rest = frames_from(bytes, rates, end)->Ok_0;
        let first = FoundFrame { header, bytes: bytes.subrange(offset, end) };
        assert(frames == seq![first] + rest);
        assert(frames[0].bytes.len() <= limit);
        assert forall|i: int| 0 <= i < rest.len() implies (#[trigger] rest[i]).bytes.len()
            <= limit by {
            assert(rest[i] == frames[i + 1]);
        }
        a_stream_finds_frames_back_to_back(bytes, rates, end, limit);
        assert(first_sync(left, 0) == Some(0int));
        assert(left.subrange(0, left.len() as int) =~= left);
        assert(left.subrange(0, header.frame_len as int) =~= first.bytes);
        assert(left.subrange(header.frame_len as int, left.len() as int) =~= bytes.subrange(
            end,
            bytes.len() as int,
        ));
    } else {
        assert(left =~= Seq::empty());
        assert(frames =~= Seq::empty());
    }
}

proof fn lemma_offset_is_for_errors(input: Seq<u8>, rates: BitrateTable, offset: int)
    requires
        header_at(input, rates, offset) is Ok,
    ensures
        header_at(input, rates, 0) == header_at(input, rates, offset),
{
    reveal(header_at);
}

} // verus!
