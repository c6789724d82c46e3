use audio_codec_avs3::engine::crc16;
use audio_codec_avs3::engine::header::{
    parse_header, BitDepth, BitrateTable, CodecProfile, HeaderError, NnType,
};
use audio_codec_avs3::engine::stream::{
    parse_frames, EncodedFrame, FrameStream, StreamError, StreamEvent,
};

struct BitWriter {
    bits: Vec<bool>,
}

impl BitWriter {
    fn new() -> Self {
        BitWriter { bits: Vec::new() }
    }

    fn write(&mut self, value: u64, width: u32) {
        for shift in (0..width).rev() {
            self.bits.push((value >> shift) & 1 == 1);
        }
    }

    fn into_bytes(self) -> Vec<u8> {
        self.bits
            .chunks(8)
            .map(|chunk| {
                chunk
                    .iter()
                    .enumerate()
                    .fold(0_u8, |byte, (index, &bit)| byte | (u8::from(bit) << (7 - index)))
            })
            .collect()
    }
}

/// Only the rate that the frames below use is listed.
fn rates() -> BitrateTable {
    BitrateTable {
        channel: vec![vec![16_000, 32_000, 44_000, 56_000, 64_000]],
        hoa: vec![],
        object: vec![],
    }
}

fn make_frame(payload_byte: u8) -> Vec<u8> {
    // 64 kbps mono at 48 kHz: floor(64000 * 1024 / 48000) less 56 header bits, rounded up to bytes.
    let payload_len = ((64_000_usize * 1_024 / 48_000) - 56).div_ceil(8);
    let payload = vec![payload_byte; payload_len];
    let crc = crc16(&payload);
    let mut writer = BitWriter::new();
    writer.write(0xfff, 12);
    writer.write(2, 4);
    writer.write(0, 1);
    writer.write(0, 3);
    writer.write(0, 3);
    writer.write(2, 4);
    writer.write(u64::from(crc >> 8), 8);
    writer.write(0, 7);
    writer.write(1, 2);
    writer.write(4, 4);
    writer.write(u64::from(crc & 0xff), 8);
    let mut frame = writer.into_bytes();
    frame.extend_from_slice(&payload);
    frame
}

fn frames(events: &[StreamEvent]) -> Vec<&EncodedFrame> {
    events
        .iter()
        .filter_map(|event| match event {
            StreamEvent::Frame(frame) => Some(frame),
            StreamEvent::Skipped { .. } => None,
        })
        .collect()
}

#[test]
fn accepts_every_input_split() {
    let frame = make_frame(0x5a);
    for split in 0..=frame.len() {
        let mut stream = FrameStream::new(rates());
        let mut events = stream.push(&frame[..split]).unwrap();
        events.extend(stream.push(&frame[split..]).unwrap());
        assert_eq!(frames(&events).len(), 1, "split at {split}");
        assert!(frames(&events)[0].crc_is_valid());
        assert_eq!(stream.buffered_len(), 0);
    }
}

#[test]
fn emits_multiple_frames_and_reports_leading_garbage() {
    let first = make_frame(1);
    let second = make_frame(2);
    let mut input = vec![0x00, 0xff, 0xf1, 0x00, 0x12];
    input.extend_from_slice(&first);
    input.extend_from_slice(&second);
    let mut stream = FrameStream::new(rates());
    let events = stream.push(&input).unwrap();
    assert_eq!(frames(&events).len(), 2);
    assert!(matches!(
        events.first(),
        Some(StreamEvent::Skipped { bytes: 5 })
    ));
}

#[test]
fn retains_crc_failure_for_decoder() {
    let mut frame = make_frame(0x11);
    let last = frame.len() - 1;
    frame[last] ^= 1;
    let mut stream = FrameStream::new(rates());
    let events = stream.push(&frame).unwrap();
    assert!(!frames(&events)[0].crc_is_valid());
}

#[test]
fn parse_frames_reads_back_to_back_frames() {
    let mut bytes = make_frame(1);
    bytes.extend_from_slice(&make_frame(2));
    let parsed = parse_frames(&bytes, &rates()).unwrap();
    assert_eq!(parsed.len(), 2);
    assert_eq!(parsed[0].bytes(), &make_frame(1)[..]);
    assert_eq!(parsed[1].bytes(), &make_frame(2)[..]);
    // Each frame carries its own header: the check value in it depends on the payload.
    assert!(parsed.iter().all(|frame| frame.crc_is_valid()));
}

/// A strict parse does not search past bytes that belong to no frame.
#[test]
fn parse_frames_refuses_leading_garbage() {
    let mut bytes = vec![0x00, 0x11, 0x22];
    bytes.extend_from_slice(&make_frame(3));
    assert!(parse_frames(&bytes, &rates()).is_err());
}

#[test]
fn parse_frames_reports_a_partial_trailing_frame() {
    let frame = make_frame(4);
    let mut bytes = frame.clone();
    bytes.extend_from_slice(&frame[..frame.len() - 1]);
    assert!(matches!(
        parse_frames(&bytes, &rates()),
        Err(StreamError::TrailingData { .. })
    ));
}

#[test]
fn finish_rejects_truncated_frame() {
    let frame = make_frame(0);
    let mut stream = FrameStream::new(rates());
    stream.push(&frame[..frame.len() - 1]).unwrap();
    assert!(matches!(
        stream.finish(),
        Err(StreamError::TrailingData { .. })
    ));
}

#[test]
fn header_resolves_the_rate_and_the_payload() {
    let frame = make_frame(7);
    let header = parse_header(&frame, &rates()).unwrap();
    assert_eq!(header.nn_type, NnType::Main);
    assert_eq!(header.profile, CodecProfile::ChannelBased);
    assert_eq!(header.sample_rate, 48_000);
    assert_eq!(header.bit_depth, BitDepth::Sixteen);
    assert_eq!(header.channels, 1);
    assert_eq!(header.bitrate, 64_000);
    assert_eq!(header.header_len, 7);
    assert_eq!(header.payload_bits, 64_000 * 1_024 / 48_000 - 56);
    assert_eq!(header.frame_len, frame.len());
    assert_eq!(header.samples_per_channel, 1_024);
}

#[test]
fn header_needs_a_sync_word_and_a_known_rate() {
    let frame = make_frame(7);
    assert!(matches!(
        parse_header(&frame[..3], &rates()),
        Err(HeaderError::NeedMoreData { .. })
    ));
    let mut shifted = frame.clone();
    shifted[0] = 0x7f;
    assert!(matches!(
        parse_header(&shifted, &rates()),
        Err(HeaderError::InvalidData { offset: 0, .. })
    ));
    let mut bare = rates();
    bare.channel[0].truncate(4);
    assert!(matches!(
        parse_header(&frame, &bare),
        Err(HeaderError::UnknownBitrate { .. })
    ));
}

#[test]
fn frames_do_not_depend_on_how_the_bytes_arrive() {
    let mut input = vec![0x31, 0x0f];
    for byte in 0..4 {
        input.extend_from_slice(&make_frame(byte));
        input.push(0xee);
    }
    let mut whole = FrameStream::new(rates());
    let expected: Vec<Vec<u8>> = frames(&whole.push(&input).unwrap())
        .iter()
        .map(|frame| frame.bytes().to_vec())
        .collect();
    assert_eq!(expected.len(), 4);
    for size in [1, 2, 3, 7, 40, 200, 999] {
        let mut stream = FrameStream::new(rates());
        let mut found = Vec::new();
        let mut skipped = 0;
        for chunk in input.chunks(size) {
            for event in stream.push(chunk).unwrap() {
                match event {
                    StreamEvent::Frame(frame) => found.push(frame.bytes().to_vec()),
                    StreamEvent::Skipped { bytes } => skipped += bytes,
                }
            }
        }
        assert_eq!(found, expected, "chunks of {size}");
        let kept: usize = found.iter().map(|frame| frame.len()).sum();
        assert_eq!(skipped + kept + stream.buffered_len(), input.len());
    }
}

#[test]
fn a_full_buffer_is_refused_and_kept() {
    let frame = make_frame(1);
    let mut stream = FrameStream::with_buffer_limit(10, rates());
    assert_eq!(
        stream.push(&frame),
        Err(StreamError::BufferLimit { limit: 10 })
    );
    stream.clear();
    assert_eq!(stream.buffered_len(), 0);
}

#[test]
fn an_encoded_frame_knows_its_parts() {
    let frame = make_frame(0x42);
    let parsed = parse_frames(&frame, &rates()).unwrap();
    assert_eq!(parsed[0].header_bytes(), &frame[..7]);
    assert_eq!(parsed[0].payload(), &frame[7..]);
    assert_eq!(parsed[0].expected_crc(), crc16(&frame[7..]));
    assert_eq!(parsed[0].actual_crc(), parsed[0].expected_crc());
}

#[test]
fn crc_of_known_bytes() {
    assert_eq!(crc16(b""), 0xffff);
    assert_eq!(crc16(b"123456789"), 0xa69d);
}

#[test]
fn crc_notices_one_changed_byte() {
    let bytes = *b"one frame payload";
    for index in 0..bytes.len() {
        for change in 1..=255_u8 {
            let mut changed = bytes;
            changed[index] ^= change;
            assert_ne!(crc16(&changed), crc16(&bytes));
        }
    }
}
