//! Cutting an elementary stream into frames.

use crate::engine::header::{header_at, parse_header_at, BitrateTable, FrameHeader, HeaderError};
use crate::engine::{crc16, crc_of};
use vstd::prelude::*;
use vstd::slice::{slice_subrange, slice_to_vec};

verus! {

/// Bytes that a stream keeps at most where nothing else is asked for: one largest frame.
pub const DEFAULT_BUFFER_LIMIT: usize = 65_545;

/// Why a stream can not go on.
#[derive(Debug, Clone, Copy, PartialEq, Eq)]
pub enum StreamError {
    /// A frame does not fit into the buffer.
    BufferLimit { limit: usize },
    /// Bytes are left that are no whole frame.
    TrailingData { bytes: usize },
    /// A frame was due, but there is no header.
    Header(HeaderError),
}

/// A frame as it stands in the stream.
#[derive(Debug, Clone, PartialEq, Eq)]
pub struct EncodedFrame {
    header: FrameHeader,
    bytes: Vec<u8>,
    actual_crc: u16,
}

impl EncodedFrame {
    /// The parsed header.
    pub closed spec fn head(&self) -> FrameHeader {
        self.header
    }

    /// All bytes of the frame.
    pub closed spec fn content(&self) -> Seq<u8> {
        self.bytes@
    }

    /// The check sum of the payload.
    pub closed spec fn check(&self) -> u16 {
        self.actual_crc
    }

    /// The bytes are a header and a payload, and the check sum is that of the payload.
    pub open spec fn well_formed(&self) -> bool {
        &&& self.head().header_len <= self.content().len()
        &&& self.check() == crc_of(
            self.content().subrange(
                self.head().header_len as int,
                self.content().len() as int,
            ),
        )
    }

    /// Take the bytes of a frame.
    pub fn new(header: FrameHeader, bytes: Vec<u8>) -> (frame: Self)
        requires
            header.header_len <= bytes@.len(),
        ensures
            frame.well_formed(),
            frame.head() == header,
            frame.content() == bytes@,
    {
        let actual_crc: u16 = crc16(
            slice_subrange(bytes.as_slice(), header.header_len, bytes.len()),
        );
        EncodedFrame { header, bytes, actual_crc }
    }

    pub fn header(&self) -> (header: &FrameHeader)
        ensures
            *header == self.head(),
    {
        &self.header
    }

    pub fn bytes(&self) -> (bytes: &[u8])
        ensures
            bytes@ == self.content(),
    {
        self.bytes.as_slice()
    }

    /// The bytes of the header.
    pub fn header_bytes(&self) -> (bytes: &[u8])
        requires
            self.well_formed(),
        ensures
            bytes@ == self.content().subrange(0, self.head().header_len as int),
    {
        slice_subrange(self.bytes.as_slice(), 0, self.header.header_len)
    }

    /// The bytes behind the header.
    pub fn payload(&self) -> (bytes: &[u8])
        requires
            self.well_formed(),
        ensures
            bytes@ == self.content().subrange(
                self.head().header_len as int,
                self.content().len() as int,
            ),
    {
        slice_subrange(self.bytes.as_slice(), self.header.header_len, self.bytes.len())
    }

    /// The check sum that the header states.
    pub fn expected_crc(&self) -> (crc: u16)
        ensures
            crc == self.head().crc,
    {
        self.header.crc
    }

    /// The check sum of the payload.
    pub fn actual_crc(&self) -> (crc: u16)
        ensures
            crc == self.check(),
    {
        self.actual_crc
    }

    /// Whether the payload is what the header was written for.
    pub fn crc_is_valid(&self) -> (valid: bool)
        ensures
            valid == (self.head().crc == self.check()),
    {
        self.header.crc == self.actual_crc
    }
}

/// What a stream finds.
#[derive(Debug, Clone, PartialEq, Eq)]
pub enum StreamEvent {
    /// Bytes that belong to no frame.
    Skipped { bytes: usize },
    Frame(EncodedFrame),
}

/// A frame that was found: its header and its bytes.
pub ghost struct FoundFrame {
    pub header: FrameHeader,
    pub bytes: Seq<u8>,
}

/// What a stream finds.
pub ghost enum Event {
    Skipped(int),
    Frame(FoundFrame),
}

/// What an event stands for.
pub open spec fn event_of(event: StreamEvent) -> Event {
    match event {
        StreamEvent::Skipped { bytes } => Event::Skipped(bytes as int),
        StreamEvent::Frame(frame) => Event::Frame(
            FoundFrame { header: frame.head(), bytes: frame.content() },
        ),
    }
}

/// What events stand for.
pub open spec fn events_of(events: Seq<StreamEvent>) -> Seq<Event> {
    Seq::new(events.len(), |i: int| event_of(events[i]))
}

/// The frames among the events carry the check sums of their payloads.
pub open spec fn frames_checked(events: Seq<StreamEvent>) -> bool {
    forall|i: int|
        0 <= i < events.len() ==> match #[trigger] events[i] {
            StreamEvent::Skipped { .. } => true,
            StreamEvent::Frame(frame) => frame.well_formed(),
        }
}

/// The frames among events.
pub open spec fn frames_of(events: Seq<Event>) -> Seq<FoundFrame>
    decreases events.len(),
{
    if events.len() == 0 {
        Seq::empty()
    } else {
        match events.last() {
            Event::Skipped(_) => frames_of(events.drop_last()),
            Event::Frame(frame) => frames_of(events.drop_last()).push(frame),
        }
    }
}

/// A number of bytes, or the largest that a `usize` can say.
pub open spec fn clamped(count: int) -> int {
    if count > usize::MAX {
        usize::MAX as int
    } else {
        count
    }
}

/// The events with so many more bytes skipped. Bytes skipped in a row are one event.
pub open spec fn flushed(events: Seq<Event>, skipped: int) -> Seq<Event> {
    if skipped == 0 {
        events
    } else if events.len() > 0 && events.last() is Skipped {
        events.drop_last().push(Event::Skipped(clamped(events.last()->Skipped_0 + skipped)))
    } else {
        events.push(Event::Skipped(skipped))
    }
}

/// A syncword starts at `index`.
pub open spec fn sync_at(input: Seq<u8>, index: int) -> bool {
    &&& 0 <= index
    &&& index + 1 < input.len()
    &&& input[index] == 0xFF
    &&& input[index + 1] >= 0xF0
}

/// The first syncword from `from` on.
pub open spec fn first_sync(input: Seq<u8>, from: int) -> Option<int>
    decreases input.len() - from,
{
    if from + 1 >= input.len() {
        None
    } else if sync_at(input, from) {
        Some(from)
    } else {
        first_sync(input, from + 1)
    }
}

/// What is left of bytes without a syncword: the last one, where a syncword could start with it.
pub open spec fn without_sync(buffer: Seq<u8>) -> Seq<u8> {
    if buffer.last() == 0xFF {
        buffer.subrange(buffer.len() - 1, buffer.len() as int)
    } else {
        Seq::empty()
    }
}

/// What is found in a buffer: the events, behind those that are there already; what stays in the
/// buffer; and what stops the search, if anything.
pub open spec fn found_in(
    events: Seq<Event>,
    buffer: Seq<u8>,
    skipped: int,
    limit: int,
    rates: BitrateTable,
) -> (Seq<Event>, Seq<u8>, Option<StreamError>)
    decreases buffer.len(),
{
    if buffer.len() < 2 {
        (flushed(events, skipped), buffer, None)
    } else {
        match first_sync(buffer, 0) {
            None => {
                let rest = without_sync(buffer);
                (flushed(events, clamped(skipped + buffer.len() - rest.len())), rest, None)
            },
            Some(offset) => if !(0 <= offset < buffer.len()) {
                (events, buffer, None)
            } else {
                let synced = buffer.subrange(offset, buffer.len() as int);
                let passed = clamped(skipped + offset);
                match header_at(synced, rates, 0) {
                    Err(HeaderError::NeedMoreData { .. }) => (
                        flushed(events, passed),
                        synced,
                        None,
                    ),
                    Err(_) => found_in(
                        events,
                        synced.subrange(1, synced.len() as int),
                        clamped(passed + 1),
                        limit,
                        rates,
                    ),
                    Ok(header) => if header.frame_len > limit {
                        (events, synced, Some(StreamError::BufferLimit { limit: limit as usize }))
                    } else if synced.len() < header.frame_len || header.frame_len == 0 {
                        (flushed(events, passed), synced, None)
                    } else {
                        found_in(
                            flushed(events, passed).push(
                                Event::Frame(
                                    FoundFrame {
                                        header,
                                        bytes: synced.subrange(0, header.frame_len as int),
                                    },
                                ),
                            ),
                            synced.subrange(header.frame_len as int, synced.len() as int),
                            0,
                            limit,
                            rates,
                        )
                    },
                }
            },
        }
    }
}

/// What comes of pushing the bytes of `input` from `offset` on.
pub open spec fn pushed(
    events: Seq<Event>,
    buffer: Seq<u8>,
    input: Seq<u8>,
    offset: int,
    limit: int,
    rates: BitrateTable,
) -> (Seq<Event>, Seq<u8>, Option<StreamError>)
    decreases input.len() - offset,
{
    let (found, rest, error) = found_in(events, buffer, 0, limit, rates);
    if offset >= input.len() || error is Some {
        (found, rest, error)
    } else if rest.len() >= limit {
        (found, rest, Some(StreamError::BufferLimit { limit: limit as usize }))
    } else {
        let free = limit - rest.len();
        let left = input.len() - offset;
        let take = if free < left {
            free
        } else {
            left
        };
        pushed(
            found,
            rest + input.subrange(offset, offset + take),
            input,
            offset + take,
            limit,
            rates,
        )
    }
}

/// Find the first syncword.
fn find_sync(input: &[u8]) -> (offset: Option<usize>)
    ensures
        match first_sync(input@, 0) {
            None => offset is None,
            Some(found) => offset == Some(found as usize) && sync_at(input@, found),
        },
{
    let mut from: usize = 0;
    assert(input.len() == input@.len());
    while input.len() >= 2 && from < input.len() - 1
        invariant
            from <= input@.len(),
            first_sync(input@, 0) == first_sync(input@, from as int),
        decreases input@.len() - from,
    {
        if input[from] == 0xFF && input[from + 1] >= 0xF0 {
            return Some(from);
        }
        from = from + 1;
    }
    None
}

/// Report bytes that were skipped.
fn flush_skipped(events: &mut Vec<StreamEvent>, skipped: usize)
    requires
        frames_checked(old(events)@),
    ensures
        events_of(final(events)@) == flushed(events_of(old(events)@), skipped as int),
        frames_checked(final(events)@),
{
    if skipped == 0 {
        return;
    }
    let count: usize = events.len();
    let ghost before = events_of(events@);
    if count > 0 {
        if let StreamEvent::Skipped { bytes } = &events[count - 1] {
            let total: usize = bytes.saturating_add(skipped);
            let ghost last = events@[count - 1];
            assert(before.last() == event_of(last));
            events.pop();
            events.push(StreamEvent::Skipped { bytes: total });
            assert(events_of(events@) =~= flushed(before, skipped as int));
            return;
        }
        assert(before.last() == event_of(events@[count - 1]));
    }
    events.push(StreamEvent::Skipped { bytes: skipped });
    assert(events_of(events@) =~= flushed(before, skipped as int));
}

/// Drop the first `count` bytes.
fn drop_front(buffer: &mut Vec<u8>, count: usize)
    requires
        count <= old(buffer)@.len(),
    ensures
        final(buffer)@ == old(buffer)@.subrange(count as int, old(buffer)@.len() as int),
{
    let rest = slice_to_vec(slice_subrange(buffer.as_slice(), count, buffer.len()));
    *buffer = rest;
}

/// A parser of elementary streams that takes its input in pieces of any size.
///
/// A frame is handed out once all of its bytes are there. Whether its check sum is right is for the
/// caller to look at.
#[derive(Debug)]
pub struct FrameStream {
    buffer: Vec<u8>,
    max_buffer: usize,
    rates: BitrateTable,
}

impl FrameStream {
    /// The bytes that wait for more.
    pub closed spec fn waiting(&self) -> Seq<u8> {
        self.buffer@
    }

    /// Bytes that are kept at most.
    pub closed spec fn limit(&self) -> int {
        self.max_buffer as int
    }

    /// The rates that header codes stand for.
    pub closed spec fn rate_table(&self) -> BitrateTable {
        self.rates
    }

    /// Start a stream whose buffer holds one largest frame.
    pub fn new(rates: BitrateTable) -> (stream: Self)
        ensures
            stream.waiting() == Seq::<u8>::empty(),
            stream.limit() == DEFAULT_BUFFER_LIMIT,
            stream.rate_table() == rates,
    {
        Self::with_buffer_limit(DEFAULT_BUFFER_LIMIT, rates)
    }

    /// Start a stream whose buffer holds at most `max_buffer` bytes.
    pub fn with_buffer_limit(max_buffer: usize, rates: BitrateTable) -> (stream: Self)
        ensures
            stream.waiting() == Seq::<u8>::empty(),
            stream.limit() == max_buffer,
            stream.rate_table() == rates,
    {
        FrameStream { buffer: Vec::new(), max_buffer, rates }
    }

    /// Number of bytes that wait for more.
    pub fn buffered_len(&self) -> (len: usize)
        ensures
            len == self.waiting().len(),
    {
        self.buffer.len()
    }

    /// Take more bytes; gives what was found in them.
    pub fn push(&mut self, input: &[u8]) -> (result: Result<Vec<StreamEvent>, StreamError>)
        ensures
            final(self).limit() == old(self).limit(),
            final(self).rate_table() == old(self).rate_table(),
            ({
                let (events, rest, error) = pushed(
                    Seq::empty(),
                    old(self).waiting(),
                    input@,
                    0,
                    old(self).limit(),
                    old(self).rate_table(),
                );
                &&& final(self).waiting() == rest
                &&& match error {
                    Some(error) => result == Err::<Vec<StreamEvent>, StreamError>(error),
                    None => result is Ok && events_of(result->Ok_0@) == events && frames_checked(
                        result->Ok_0@,
                    ),
                }
            }),
    {
        let mut events: Vec<StreamEvent> = Vec::new();
        let mut offset: usize = 0;
        let ghost limit = self.limit();
        let ghost rates = self.rate_table();
        let ghost goal = pushed(Seq::empty(), self.waiting(), input@, 0, limit, rates);
        assert(events_of(events@) =~= Seq::<Event>::empty());
        while offset < input.len()
            invariant
                offset <= input@.len(),
                self.limit() == limit,
                self.rate_table() == rates,
                limit == old(self).limit(),
                rates == old(self).rate_table(),
                frames_checked(events@),
                goal == pushed(
                    Seq::empty(),
                    old(self).waiting(),
                    input@,
                    0,
                    limit,
                    rates,
                ),
                goal == pushed(
                    events_of(events@),
                    self.waiting(),
                    input@,
                    offset as int,
                    limit,
                    rates,
                ),
            decreases input@.len() - offset,
        {
            self.process(&mut events)?;
            if self.buffer.len() >= self.max_buffer {
                return Err(StreamError::BufferLimit { limit: self.max_buffer });
            }
            let free: usize = self.max_buffer - self.buffer.len();
            let left: usize = input.len() - offset;
            let take: usize = if free < left {
                free
            } else {
                left
            };
            let piece: &[u8] = slice_subrange(input, offset, offset + take);
            let ghost before = self.buffer@;
            self.buffer.extend_from_slice(piece);
            assert(self.buffer@ =~= before + piece@);
            offset = offset + take;
        }
        self.process(&mut events)?;
        Ok(events)
    }

    /// End the stream. Bytes that are no whole frame are an error.
    pub fn finish(&mut self) -> (result: Result<Vec<StreamEvent>, StreamError>)
        ensures
            final(self).limit() == old(self).limit(),
            final(self).rate_table() == old(self).rate_table(),
            ({
                let (events, rest, error) = found_in(
                    Seq::empty(),
                    old(self).waiting(),
                    0,
                    old(self).limit(),
                    old(self).rate_table(),
                );
                &&& final(self).waiting() == rest
                &&& match error {
                    Some(error) => result == Err::<Vec<StreamEvent>, StreamError>(error),
                    None => if rest.len() == 0 {
                        result is Ok && events_of(result->Ok_0@) == events && frames_checked(
                            result->Ok_0@,
                        )
                    } else {
                        result == Err::<Vec<StreamEvent>, StreamError>(
                            StreamError::TrailingData { bytes: rest.len() as usize },
                        )
                    },
                }
            }),
    {
        let mut events: Vec<StreamEvent> = Vec::new();
        assert(events_of(events@) =~= Seq::<Event>::empty());
        self.process(&mut events)?;
        if self.buffer.len() == 0 {
            Ok(events)
        } else {
            Err(StreamError::TrailingData { bytes: self.buffer.len() })
        }
    }

    /// Forget the bytes that wait for more.
    pub fn clear(&mut self)
        ensures
            final(self).waiting() == Seq::<u8>::empty(),
            final(self).limit() == old(self).limit(),
            final(self).rate_table() == old(self).rate_table(),
    {
        self.buffer.clear();
    }

    /// Find what there is in the buffer.
    fn process(&mut self, events: &mut Vec<StreamEvent>) -> (result: Result<(), StreamError>)
        requires
            frames_checked(old(events)@),
        ensures
            final(self).limit() == old(self).limit(),
            final(self).rate_table() == old(self).rate_table(),
            frames_checked(final(events)@),
            ({
                let (found, rest, error) = found_in(
                    events_of(old(events)@),
                    old(self).waiting(),
                    0,
                    old(self).limit(),
                    old(self).rate_table(),
                );
                &&& events_of(final(events)@) == found
                &&& final(self).waiting() == rest
                &&& match error {
                    Some(error) => result == Err::<(), StreamError>(error),
                    None => result is Ok,
                }
            }),
    {
        let ghost limit = self.limit();
        let ghost rates = self.rate_table();
        let ghost goal = found_in(events_of(events@), self.waiting(), 0, limit, rates);
        let mut skipped: usize = 0;
        while self.buffer.len() >= 2
            invariant
                self.limit() == limit,
                self.rate_table() == rates,
                limit == old(self).limit(),
                rates == old(self).rate_table(),
                frames_checked(events@),
                goal == found_in(
                    events_of(old(events)@),
                    old(self).waiting(),
                    0,
                    limit,
                    rates,
                ),
                goal == found_in(
                    events_of(events@),
                    self.waiting(),
                    skipped as int,
                    limit,
                    rates,
                ),
            decreases self.buffer@.len(),
        {
            let length: usize = self.buffer.len();
            let offset: usize = match find_sync(self.buffer.as_slice()) {
                Some(offset) => offset,
                None => {
                    let keep: usize = if self.buffer[length - 1] == 0xFF {
                        1
                    } else {
                        0
                    };
                    let ghost before = self.buffer@;
                    drop_front(&mut self.buffer, length - keep);
                    assert(self.buffer@ =~= without_sync(before));
                    flush_skipped(events, skipped.saturating_add(length - keep));
                    return Ok(());
                },
            };
            if offset != 0 {
                drop_front(&mut self.buffer, offset);
            } else {
                assert(self.buffer@.subrange(0, self.buffer@.len() as int) =~= self.buffer@);
            }
            skipped = skipped.saturating_add(offset);
            let ghost synced = self.buffer@;
            let header: FrameHeader = match parse_header_at(self.buffer.as_slice(), &self.rates, 0) {
                Ok(header) => header,
                Err(HeaderError::NeedMoreData { .. }) => {
                    flush_skipped(events, skipped);
                    return Ok(());
                },
                Err(_) => {
                    drop_front(&mut self.buffer, 1);
                    skipped = skipped.saturating_add(1);
                    continue ;
                },
            };
            if header.frame_len > self.max_buffer {
                return Err(StreamError::BufferLimit { limit: self.max_buffer });
            }
            if self.buffer.len() < header.frame_len {
                flush_skipped(events, skipped);
                return Ok(());
            }
            flush_skipped(events, skipped);
            skipped = 0;
            let bytes = slice_to_vec(slice_subrange(self.buffer.as_slice(), 0, header.frame_len));
            drop_front(&mut self.buffer, header.frame_len);
            let frame = EncodedFrame::new(header, bytes);
            let ghost before = events_of(events@);
            let event = StreamEvent::Frame(frame);
            let ghost found = event_of(event);
            events.push(event);
            assert(events_of(events@) =~= before.push(found));
        }
        flush_skipped(events, skipped);
        Ok(())
    }
}

/// The frames that follow one another from `offset` to the end of `bytes`.
pub open spec fn frames_from(bytes: Seq<u8>, rates: BitrateTable, offset: int) -> Result<
    Seq<FoundFrame>,
    StreamError,
>
    decreases bytes.len() - offset,
{
    if offset >= bytes.len() {
        Ok(Seq::empty())
    } else {
        match header_at(bytes.subrange(offset, bytes.len() as int), rates, offset) {
            Err(error) => Err(StreamError::Header(error)),
            Ok(header) => {
                let end = offset + header.frame_len;
                if end > usize::MAX {
                    Err(StreamError::Header(HeaderError::ArithmeticOverflow))
                } else if end > bytes.len() || end <= offset {
                    Err(StreamError::TrailingData { bytes: (bytes.len() - offset) as usize })
                } else {
                    match frames_from(bytes, rates, end) {
                        Err(error) => Err(error),
                        Ok(rest) => Ok(
                            seq![FoundFrame { header, bytes: bytes.subrange(offset, end) }] + rest,
                        ),
                    }
                }
            },
        }
    }
}

/// What a frame stands for.
pub open spec fn frame_of(frame: EncodedFrame) -> FoundFrame {
    FoundFrame { header: frame.head(), bytes: frame.content() }
}

/// What frames stand for.
pub open spec fn frames_view(frames: Seq<EncodedFrame>) -> Seq<FoundFrame> {
    Seq::new(frames.len(), |i: int| frame_of(frames[i]))
}

/// Parse bytes that hold whole frames back to back, as a sample table hands them out. Nothing is
/// skipped: the bytes start with a header and end with a frame.
pub fn parse_frames(bytes: &[u8], rates: &BitrateTable) -> (result: Result<
    Vec<EncodedFrame>,
    StreamError,
>)
    ensures
        match frames_from(bytes@, *rates, 0) {
            Err(error) => result == Err::<Vec<EncodedFrame>, StreamError>(error),
            Ok(frames) => {
                &&& result is Ok
                &&& frames_view(result->Ok_0@) == frames
                &&& forall|i: int|
                    0 <= i < result->Ok_0@.len() ==> (#[trigger] result->Ok_0@[i]).well_formed()
            },
        },
{
    let mut frames: Vec<EncodedFrame> = Vec::new();
    let mut offset: usize = 0;
    let ghost goal = frames_from(bytes@, *rates, 0);
    assert(frames_view(frames@) + goal->Ok_0 =~= goal->Ok_0);
    while offset < bytes.len()
        invariant
            offset <= bytes@.len(),
            goal == frames_from(bytes@, *rates, 0),
            forall|i: int| 0 <= i < frames@.len() ==> (#[trigger] frames@[i]).well_formed(),
            match frames_from(bytes@, *rates, offset as int) {
                Err(error) => goal == Err::<Seq<FoundFrame>, StreamError>(error),
                Ok(rest) => goal == Ok::<Seq<FoundFrame>, StreamError>(
                    frames_view(frames@) + rest,
                ),
            },
        decreases bytes@.len() - offset,
    {
        let rest: &[u8] = slice_subrange(bytes, offset, bytes.len());
        let header: FrameHeader = match parse_header_at(rest, rates, offset) {
            Ok(header) => header,
            Err(error) => {
                return Err(StreamError::Header(error));
            },
        };
        let end: usize = match offset.checked_add(header.frame_len) {
            Some(end) => end,
            None => {
                return Err(StreamError::Header(HeaderError::ArithmeticOverflow));
            },
        };
        if end > bytes.len() {
            return Err(StreamError::TrailingData { bytes: bytes.len() - offset });
        }
        let frame = EncodedFrame::new(header, slice_to_vec(slice_subrange(bytes, offset, end)));
        let ghost before = frames_view(frames@);
        let ghost found = frame_of(frame);
        frames.push(frame);
        proof {
            assert(frames_view(frames@) =~= before.push(found));
            if let Ok(later) = frames_from(bytes@, *rates, end as int) {
                assert(before + (seq![found] + later) =~= frames_view(frames@) + later);
            }
        }
        offset = end;
    }
    assert(frames_view(frames@) + Seq::<FoundFrame>::empty() =~= frames_view(frames@));
    Ok(frames)
}

} // verus!
