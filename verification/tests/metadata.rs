use audio_codec_avs3::bitreader::BitReader;
use audio_codec_avs3::engine::header::MAX_PAYLOAD_BYTES;
use audio_codec_avs3::engine::metadata::{MetadataError, MetadataPayloadParser};
use audio_codec_avs3::engine::metadata_dynamic::{parse_dynamic_l1, parse_dynamic_l2};
use audio_codec_avs3::engine::metadata_static::{
    parse_audio_object_interaction, parse_audio_pack, parse_programme_reference_screen,
    parse_static_gain,
};
use audio_codec_avs3::engine::metadata_values::{
    ChannelLockMetadata, DialogueMetadata, DynamicObjectExtent, DynamicObjectPosition,
    HoaPackMetadata, MetadataGain, MetadataGainUnit, MetadataList, ObjectDivergenceMetadata,
    PositionInteractionMetadata, ProgrammeScreenPosition,
};
use audio_codec_avs3::error::CodecError;

struct BitWriter {
    bits: Vec<bool>,
}

impl BitWriter {
    fn new() -> Self {
        BitWriter { bits: Vec::new() }
    }

    fn bit_len(&self) -> usize {
        self.bits.len()
    }

    fn into_bytes(self) -> Vec<u8> {
        self.bits
            .chunks(8)
            .map(|chunk| {
                chunk
                    .iter()
                    .enumerate()
                    .fold(0_u8, |byte, (index, &bit)| byte | (u8::from(bit) << (7 - index)))
            })
            .collect()
    }
}

fn write(writer: &mut BitWriter, value: u64, width: usize) {
    for shift in (0..width).rev() {
        writer.bits.push((value >> shift) & 1 == 1);
    }
}

/// The item at an index that the list has.
fn at<T, const N: usize>(list: &MetadataList<T, N>, index: usize) -> &T {
    list.get(index).unwrap()
}

fn write_minimal_static_metadata(writer: &mut BitWriter) {
    write(writer, 0, 1); // no VR extension
    write(writer, 0, 3); // Basic L1

    write(writer, 0, 4); // programme flags
    write(writer, 0, 2); // one programme content reference
    write(writer, 0, 2);

    write(writer, 0, 2); // one content
    write(writer, 0, 2); // content index
    write(writer, 0, 4); // content flags
    write(writer, 0, 3); // one object reference
    write(writer, 0, 3);

    write(writer, 0, 3); // one object
    write(writer, 0, 3); // object index
    write(writer, 0, 8); // object flags
    write(writer, 0, 3); // one pack reference
    write(writer, 0, 3);

    write(writer, 0, 3); // one pack
    write(writer, 0, 3); // pack index
    write(writer, 0, 1); // no importance
    write(writer, 0, 1); // no channel reuse
    write(writer, 3, 3); // objects type label
    write(writer, 0, 5); // absolute distance
    write(writer, 0, 5); // pack start index
    write(writer, 0, 5); // one channel reference
    write(writer, 7, 5); // channel 7

    write(writer, 0, 5); // one channel
    write(writer, 7, 5); // channel format 7
    write(writer, 0, 1); // no channel gain
}

fn write_loudness(writer: &mut BitWriter, flags: u8) {
    write(writer, u64::from(flags), 6);
    for bit in (0..6).rev() {
        if flags & (1 << bit) != 0 {
            write(writer, bit as u64, 5);
        }
    }
}

fn write_direct_speaker_position(writer: &mut BitWriter) {
    write(writer, 0x81, 8);
    write(writer, 0x21, 6);
    write(writer, 9, 4);
    write(writer, 2, 2);
}

fn write_feature_rich_static_metadata(writer: &mut BitWriter) {
    write(writer, 1, 1); // VR extension present
    write(writer, 7, 3); // clamped to Basic L1

    write(writer, 0b1111, 4); // programme flags
    write(writer, 9, 4); // language
    write(writer, 17, 5); // max ducking depth
    write_loudness(writer, 0b11_1111);
    write(writer, 1, 1); // cartesian reference screen
    write(writer, 5, 3);
    write(writer, 0x80, 8);
    write(writer, 0x20, 6);
    write(writer, 8, 4);
    write(writer, 64, 7);
    write(writer, 3, 2); // four programme content references
    for reference in 0..4 {
        write(writer, reference, 2);
    }

    write(writer, 1, 2); // two content entries
    write(writer, 1, 2); // content 0 index
    write(writer, 0b1111, 4);
    write(writer, 7, 4); // content language
    write_loudness(writer, 0b10_1011);
    write(writer, 2, 2);
    write(writer, 5, 3);
    write(writer, 1, 2); // two complementary groups
    write(writer, 1, 3); // two complementary objects
    write(writer, 1, 3);
    write(writer, 2, 3);
    write(writer, 2, 3); // three complementary objects
    write(writer, 3, 3);
    write(writer, 4, 3);
    write(writer, 5, 3);
    write(writer, 1, 3); // two object references
    write(writer, 0, 3);
    write(writer, 1, 3);

    write(writer, 2, 2); // content 1 index
    write(writer, 0, 4); // no optional content fields
    write(writer, 0, 3); // one object reference
    write(writer, 1, 3);

    write(writer, 1, 3); // two object entries
    write(writer, 0, 3); // object 0 index
    write(writer, 0xff, 8); // every object flag
    write(writer, 6, 4); // object language
    write(writer, 1, 2);
    write(writer, 4, 3); // dialogue
    write(writer, 14, 4); // importance, clamped to 10
    for character in 0..24 {
        write(writer, 0x41 + character, 8);
    }
    write(writer, 0b111, 3); // all interaction flags
    write(writer, 1, 1); // logarithmic gain interaction
    write(writer, 7, 7);
    write(writer, 120, 7);
    write(writer, 1, 1); // cartesian position interaction
    for (value, width) in [(0x80, 8), (0x7f, 8), (0x20, 6), (0x1f, 6), (8, 4), (7, 4)] {
        write(writer, value, width);
    }
    write(writer, 1, 1); // object gain unit
    write(writer, 1, 1); // upper half
    write(writer, 45, 6);
    write(writer, 1, 3); // two pack references
    write(writer, 0, 3);
    write(writer, 1, 3);

    write(writer, 1, 3); // object 1 index
    write(writer, 0, 8); // no optional object fields
    write(writer, 0, 3); // one pack reference
    write(writer, 1, 3);

    write(writer, 1, 3); // two packs
    write(writer, 0, 3); // direct-speaker pack
    write(writer, 1, 1); // importance
    write(writer, 0, 1); // no reuse
    write(writer, 12, 4);
    write(writer, 1, 3); // direct-speaker type
    write(writer, 13, 5);
    write(writer, 63, 6); // explicit speaker positions
    write(writer, 2, 5); // start index
    write(writer, 0, 5); // one channel
    write(writer, 3, 5);

    write(writer, 1, 3); // matrix pack
    write(writer, 0, 1); // no importance
    write(writer, 1, 1); // channel reuse
    write(writer, 2, 3); // matrix type
    write(writer, 21, 5);
    write(writer, 5, 6); // pack format id
    write(writer, 2, 5); // three matrix output channels
    for _ in 0..3 {
        write_direct_speaker_position(writer);
    }
    write(writer, 0, 5); // one channel
    write(writer, 4, 5);
    write(writer, 7, 5); // transformed channel reference

    write(writer, 1, 5); // two channel formats
    write(writer, 3, 5);
    write(writer, 1, 1); // channel gain
    write(writer, 1, 1); // dB unit
    write(writer, 1, 1); // upper half
    write(writer, 39, 6);
    write_direct_speaker_position(writer);
    write(writer, 4, 5);
    write(writer, 0, 1); // no channel gain
    for coefficient in [3, 127, 255] {
        write(writer, coefficient, 8);
    }

    write(writer, 0, 3); // VR extension L1
    write(writer, 1, 1); // acoustic environment
    write(writer, 1, 1); // render info
    write(writer, 3, 3); // ambisonic order

    write(writer, 1, 1); // early reflection gain
    write(writer, 1, 1); // late reverb gain
    write(writer, 2, 2); // convolution reverb
    write(writer, 63, 7);
    write(writer, 95, 7);
    write(writer, 1, 1); // low-frequency processing
    write(writer, 17, 5); // convolution type
    write(writer, 1, 3); // two surfaces

    write(writer, 31, 5); // custom material
    for value in 0..16 {
        write(writer, value * 7, 7);
    }
    write(writer, 0, 5); // clamped up to four vertices
    for value in 0..4 * 3 {
        write(writer, value * 3, 7);
    }

    write(writer, 4, 5); // predefined material
    write(writer, 31, 5); // clamped down to eighteen vertices
    for value in 0..18 * 3 {
        write(writer, value * 2, 7);
    }

    write(writer, 1, 1); // target device
    write(writer, 9, 4); // HRTF type
    for headphone in 0..16 {
        write(writer, headphone * 5, 7);
    }
    write(writer, 0b111, 3); // EQ, DRC, and gain
    write(writer, 7, 3); // effect chain, clamped to 5
    write(writer, 15, 4); // clamped to eleven EQ bands
    for band in 0..11 {
        write(writer, band % 8, 3);
        write(writer, band * 7, 7);
        write(writer, band % 2, 1);
        write(writer, band * 3, 6);
        write(writer, band * 9, 7);
    }
    write(writer, 15, 4);
    write(writer, 14, 4);
    for value in [100, 90, 80, 70] {
        write(writer, value, 7);
    }
    write(writer, 64, 7); // effect gain
}

#[test]
fn empty_metadata_prefix_restores_unaligned_audio_bits() {
    let mut writer = BitWriter::new();
    write(&mut writer, 0, 1);
    write(&mut writer, 0, 1);
    write(&mut writer, 0b1_0110_0100_1101, 13);
    let bit_len = writer.bit_len();
    let payload = writer.into_bytes();

    let mut parser = MetadataPayloadParser::new();
    let parsed = parser.parse(&payload, bit_len).unwrap();
    assert_eq!(parsed.summary().consumed_bits(), 2);
    assert_eq!(parsed.summary().audio_bits(), 13);
    assert!(!parsed.summary().has_static_metadata());
    assert!(!parsed.summary().has_dynamic_metadata());
    assert_eq!(parsed.audio_payload(), &[0b1011_0010, 0b0110_1000]);
}

#[test]
fn populated_basic_l1_is_consumed_before_audio() {
    let mut writer = BitWriter::new();
    write(&mut writer, 1, 1);
    write_minimal_static_metadata(&mut writer);
    write(&mut writer, 0, 1);
    let metadata_bits = writer.bit_len();
    assert_eq!(metadata_bits, 90);
    write(&mut writer, 0b101_0110_0011, 11);
    let payload_bits = writer.bit_len();
    let payload = writer.into_bytes();

    let mut parser = MetadataPayloadParser::new();
    let parsed = parser.parse(&payload, payload_bits).unwrap();
    let summary = parsed.summary();
    let static_metadata = summary.static_metadata().unwrap();
    assert_eq!(summary.consumed_bits(), metadata_bits);
    assert_eq!(summary.audio_bits(), 11);
    assert_eq!(static_metadata.basic_level(), 0);
    assert_eq!(static_metadata.contents(), 1);
    assert_eq!(static_metadata.objects(), 1);
    assert_eq!(static_metadata.packs(), 1);
    assert_eq!(static_metadata.channels(), 1);
    assert_eq!(static_metadata.vr_extension_level(), None);
    let values = parsed.metadata();
    assert!(values.has_static_metadata());
    assert!(!values.has_dynamic_metadata());
    let values = values.static_metadata().unwrap();
    assert_eq!(values.consumed_bits, 88);
    assert_eq!(values.basic.programme.content_references.as_slice(), &[0]);
    assert_eq!(at(&values.basic.contents, 0).index, 0);
    assert_eq!(at(&values.basic.contents, 0).object_references.as_slice(), &[0]);
    assert_eq!(at(&values.basic.objects, 0).index, 0);
    assert_eq!(at(&values.basic.objects, 0).pack_references.as_slice(), &[0]);
    assert_eq!(at(&values.basic.packs, 0).type_label, 3);
    assert_eq!(at(&values.basic.packs, 0).pack_format_start_index, Some(0));
    assert_eq!(at(&at(&values.basic.packs, 0).channels, 0).channel_index, 7);
    assert_eq!(at(&values.basic.channels, 0).index, 7);
    assert_eq!(parsed.audio_payload(), &[0b1010_1100, 0b0110_0000]);
}

#[test]
fn dynamic_l1_l2_uses_header_object_count() {
    let mut writer = BitWriter::new();
    write(&mut writer, 0, 1);
    write(&mut writer, 1, 1);
    write(&mut writer, 1, 3); // dynamic L1 + L2

    write(&mut writer, 0, 1); // object 0 is active
    write(&mut writer, 17, 5);
    write(&mut writer, 0b0_1111, 5); // polar, all optional L1 fields
    write(&mut writer, 0, 8 + 6 + 4 + 7 + 5 + 4 + 7 + 7 + 1 + 4);
    write(&mut writer, 1, 1); // channel lock present
    write(&mut writer, 1, 1);
    write(&mut writer, 0, 4);
    write(&mut writer, 1, 1); // divergence present and non-zero
    write(&mut writer, 3, 4);
    write(&mut writer, 0, 6);
    write(&mut writer, 1, 1); // object screen ref
    write(&mut writer, 0, 1);
    write(&mut writer, 1, 1); // screen edge lock
    write(&mut writer, 2, 2);

    write(&mut writer, 1, 1); // object 1 is muted
    write(&mut writer, 2, 5);
    let metadata_bits = writer.bit_len();
    assert_eq!(metadata_bits, 97);
    write(&mut writer, 0b110_1010, 7);
    let payload_bits = writer.bit_len();
    let payload = writer.into_bytes();

    let mut parser = MetadataPayloadParser::new();
    let parsed = parser
        .parse_with_object_count(&payload, payload_bits, 2)
        .unwrap();
    let dynamic = parsed.summary().dynamic_metadata().unwrap();
    assert_eq!(parsed.summary().consumed_bits(), metadata_bits);
    assert_eq!(dynamic.level(), 1);
    assert_eq!(dynamic.objects(), 2);
    let dynamic = parsed.metadata().dynamic_metadata().unwrap();
    assert_eq!(dynamic.consumed_bits, 95);
    assert_eq!(dynamic.level, 1);
    let active = at(&dynamic.objects, 0);
    assert!(!active.muted);
    assert_eq!(active.transport_channel_reference, 17);
    let level1 = active.level1.unwrap();
    assert_eq!(level1.importance, Some(0));
    assert!(!level1.jump_position);
    assert_eq!(level1.gain, Some(0));
    assert_eq!(level1.diffuse, Some(0));
    match level1.position {
        DynamicObjectPosition::Polar {
            azimuth,
            elevation,
            distance,
        } => {
            assert_eq!(azimuth, 0);
            assert_eq!(elevation, 0);
            assert_eq!(distance, 0);
        }
        DynamicObjectPosition::Cartesian { .. } => panic!("expected polar position"),
    }
    assert_eq!(
        level1.extent,
        Some(DynamicObjectExtent::Polar {
            width: 0,
            height: 0,
            depth: 0,
        })
    );
    let level2 = active.level2.unwrap();
    assert_eq!(
        level2.channel_lock,
        Some(ChannelLockMetadata {
            locked: true,
            maximum_distance: Some(0),
        })
    );
    assert_eq!(level2.object_divergence.unwrap().divergence, 3);
    assert_eq!(level2.object_divergence.unwrap().azimuth_range, Some(0));
    assert_eq!(level2.object_screen_reference, Some(false));
    assert_eq!(level2.screen_edge_lock, Some(2));
    let muted = at(&dynamic.objects, 1);
    assert!(muted.muted);
    assert_eq!(muted.transport_channel_reference, 2);
    assert_eq!(muted.level1, None);
    assert_eq!(muted.level2, None);
    assert_eq!(parsed.audio_payload(), &[0b1101_0100]);
    assert_eq!(parsed.audio_bits(), 7);
}

#[test]
fn alternate_metadata_value_branches_match_c_dequantization() {
    let mut writer = BitWriter::new();
    for (value, width) in [(0, 1), (3, 3), (200, 8), (45, 6), (12, 4), (100, 7)] {
        write(&mut writer, value, width);
    }
    let bits = writer.bit_len();
    let bytes = writer.into_bytes();
    let mut reader = BitReader::with_bit_len(&bytes, bits).unwrap();
    let screen = parse_programme_reference_screen(&mut reader).unwrap();
    assert_eq!(screen.aspect_ratio, 3);
    assert_eq!(
        screen.position,
        ProgrammeScreenPosition::Polar {
            azimuth: 200,
            elevation: 45,
            distance: 12,
            width: 100,
        }
    );
    assert_eq!(reader.remaining_bits(), 0);

    let mut writer = BitWriter::new();
    for (value, width) in [
        (0b011, 3),
        (0, 1),
        (64, 7),
        (32, 7),
        (0, 1),
        (255, 8),
        (255, 8),
        (63, 6),
        (63, 6),
        (15, 4),
        (8, 4),
    ] {
        write(&mut writer, value, width);
    }
    let bits = writer.bit_len();
    let bytes = writer.into_bytes();
    let mut reader = BitReader::with_bit_len(&bytes, bits).unwrap();
    let interaction = parse_audio_object_interaction(&mut reader).unwrap();
    assert!(!interaction.on_off_interact);
    let gain = interaction.gain.unwrap();
    assert_eq!(gain.unit, MetadataGainUnit::Linear);
    assert_eq!(gain.minimum, 64);
    assert_eq!(gain.maximum, 32);
    assert_eq!(
        interaction.position,
        Some(PositionInteractionMetadata::Polar {
            azimuth_min: 255,
            azimuth_max: 255,
            elevation_min: 63,
            elevation_max: 63,
            distance_min: 15,
            distance_max: 8,
        })
    );
    assert_eq!(reader.remaining_bits(), 0);

    let mut writer = BitWriter::new();
    write(&mut writer, 0, 1);
    write(&mut writer, 0, 1);
    write(&mut writer, 63, 6);
    let bytes = writer.into_bytes();
    let mut reader = BitReader::with_bit_len(&bytes, 8).unwrap();
    assert_eq!(
        parse_static_gain(&mut reader).unwrap(),
        MetadataGain {
            unit: MetadataGainUnit::Linear,
            upper_half: false,
            value: 63,
        }
    );

    let mut writer = BitWriter::new();
    for (value, width) in [
        (2, 3),
        (0, 1),
        (0, 1),
        (4, 3),
        (0, 5),
        (2, 2),
        (15, 4),
        (1, 1),
        (3, 3),
        (5, 5),
        (0, 5),
        (9, 5),
    ] {
        write(&mut writer, value, width);
    }
    let bits = writer.bit_len();
    let bytes = writer.into_bytes();
    let mut reader = BitReader::with_bit_len(&bytes, bits).unwrap();
    let pack = parse_audio_pack(&mut reader).unwrap();
    assert_eq!(pack.index, 2);
    assert_eq!(pack.type_label, 4);
    assert_eq!(
        pack.hoa,
        Some(HoaPackMetadata {
            normalization: 2,
            nfc_reference_distance: 15,
            screen_reference: true,
            order: 3,
        })
    );
    assert_eq!(pack.pack_format_start_index, Some(5));
    assert_eq!(at(&pack.channels, 0).channel_index, 9);
    assert_eq!(reader.remaining_bits(), 0);

    let mut writer = BitWriter::new();
    write(&mut writer, 0b1_1111, 5);
    for (value, width) in [
        (128, 8),
        (32, 6),
        (8, 4),
        (127, 7),
        (31, 5),
        (15, 4),
        (127, 7),
        (127, 7),
        (1, 1),
        (15, 4),
    ] {
        write(&mut writer, value, width);
    }
    let bits = writer.bit_len();
    let bytes = writer.into_bytes();
    let mut reader = BitReader::with_bit_len(&bytes, bits).unwrap();
    let dynamic = parse_dynamic_l1(&mut reader).unwrap();
    assert_eq!(
        dynamic.position,
        DynamicObjectPosition::Cartesian {
            x: 128,
            y: 32,
            z: 8,
        }
    );
    assert_eq!(
        dynamic.extent,
        Some(DynamicObjectExtent::Cartesian {
            width_x: 127,
            height_y: 31,
            depth_z: 15,
        })
    );
    assert_eq!(dynamic.gain, Some(127));
    assert_eq!(dynamic.diffuse, Some(127));
    assert!(dynamic.jump_position);
    assert_eq!(dynamic.importance, Some(10));
    assert_eq!(reader.remaining_bits(), 0);

    let mut writer = BitWriter::new();
    for (value, width) in [(1, 1), (0, 1), (1, 1), (0, 4), (0, 1), (0, 1)] {
        write(&mut writer, value, width);
    }
    let bits = writer.bit_len();
    let bytes = writer.into_bytes();
    let mut reader = BitReader::with_bit_len(&bytes, bits).unwrap();
    let level2 = parse_dynamic_l2(&mut reader).unwrap();
    assert_eq!(
        level2.channel_lock,
        Some(ChannelLockMetadata {
            locked: false,
            maximum_distance: None,
        })
    );
    assert_eq!(
        level2.object_divergence,
        Some(ObjectDivergenceMetadata {
            divergence: 0,
            azimuth_range: None,
        })
    );
    assert_eq!(level2.object_screen_reference, None);
    assert_eq!(level2.screen_edge_lock, None);
    assert_eq!(reader.remaining_bits(), 0);
}

#[test]
fn feature_rich_static_metadata_matches_c_bit_consumption() {
    let mut writer = BitWriter::new();
    write(&mut writer, 1, 1);
    write_feature_rich_static_metadata(&mut writer);
    write(&mut writer, 0, 1);
    let metadata_bits = writer.bit_len();
    assert_eq!(metadata_bits, 1_761);
    write(&mut writer, 0b1_0010_1101, 9);
    let payload_bits = writer.bit_len();
    let payload = writer.into_bytes();

    let mut parser = MetadataPayloadParser::new();
    let parsed = parser.parse(&payload, payload_bits).unwrap();
    let static_metadata = parsed.summary().static_metadata().unwrap();
    assert_eq!(parsed.summary().consumed_bits(), metadata_bits);
    assert_eq!(static_metadata.basic_level(), 1);
    assert_eq!(static_metadata.contents(), 2);
    assert_eq!(static_metadata.objects(), 2);
    assert_eq!(static_metadata.packs(), 2);
    assert_eq!(static_metadata.channels(), 2);
    assert_eq!(static_metadata.vr_extension_level(), Some(0));

    let values = parsed.metadata().static_metadata().unwrap();
    assert_eq!(values.consumed_bits, 1_759);
    assert_eq!(values.basic_level, 1);
    let programme = &values.basic.programme;
    assert_eq!(programme.language, Some(9));
    assert_eq!(programme.max_ducking_depth, Some(17));
    let loudness = programme.loudness.unwrap();
    assert_eq!(
        loudness.integrated_loudness.unwrap(),
        5
    );
    assert_eq!(
        loudness.loudness_range.unwrap(),
        4
    );
    assert_eq!(loudness.max_true_peak, Some(3));
    assert_eq!(loudness.max_momentary, Some(2));
    assert_eq!(loudness.max_short_term, Some(1));
    assert_eq!(loudness.dialogue_loudness, Some(0));
    assert_eq!(programme.content_references.as_slice(), &[0, 1, 2, 3]);
    let screen = programme.reference_screen.unwrap();
    assert_eq!(screen.aspect_ratio, 5);
    assert_eq!(
        screen.position,
        ProgrammeScreenPosition::Cartesian {
            x: 0x80,
            y: 0x20,
            z: 8,
            width: 64,
        }
    );

    let first_content = at(&values.basic.contents, 0);
    assert_eq!(first_content.index, 1);
    assert_eq!(first_content.language, Some(7));
    assert_eq!(
        first_content.dialogue,
        Some(DialogueMetadata {
            attribute: 2,
            dialogue_type: 5,
        })
    );
    assert_eq!(first_content.complementary_object_groups.len(), 2);
    assert_eq!(
        at(&first_content.complementary_object_groups, 0)
            .object_references
            .as_slice(),
        &[1, 2]
    );
    assert_eq!(
        at(&first_content.complementary_object_groups, 1)
            .object_references
            .as_slice(),
        &[3, 4, 5]
    );
    assert_eq!(first_content.object_references.as_slice(), &[0, 1]);

    let first_object = at(&values.basic.objects, 0);
    assert_eq!(first_object.index, 0);
    assert_eq!(first_object.language, Some(6));
    assert_eq!(first_object.importance, Some(10));
    assert!(first_object.disable_ducking);
    assert!(first_object.head_locked);
    assert!(first_object.muted);
    assert_eq!(first_object.name.as_ref().unwrap()[0], 0x41);
    assert_eq!(first_object.name.as_ref().unwrap()[23], 0x58);
    let interaction = first_object.interaction.unwrap();
    assert!(interaction.on_off_interact);
    let interaction_gain = interaction.gain.unwrap();
    assert_eq!(interaction_gain.unit, MetadataGainUnit::Decibels);
    assert_eq!(interaction_gain.minimum, 7);
    assert_eq!(interaction_gain.maximum, 120);
    assert_eq!(
        interaction.position,
        Some(PositionInteractionMetadata::Cartesian {
            x_min: 0x80,
            x_max: 0x7f,
            y_min: 0x20,
            y_max: 0x1f,
            z_min: 8,
            z_max: 7,
        })
    );
    let object_gain = first_object.gain.unwrap();
    assert_eq!(object_gain.unit, MetadataGainUnit::Decibels);
    assert!(object_gain.upper_half);
    assert_eq!(object_gain.value, 45);
    assert_eq!(first_object.pack_references.as_slice(), &[0, 1]);

    let direct_pack = at(&values.basic.packs, 0);
    assert_eq!(direct_pack.importance, Some(10));
    assert_eq!(direct_pack.type_label, 1);
    assert_eq!(direct_pack.pack_format_id, Some(63));
    assert_eq!(direct_pack.pack_format_start_index, Some(2));
    assert_eq!(at(&direct_pack.channels, 0).channel_index, 3);
    let matrix_pack = at(&values.basic.packs, 1);
    assert!(matrix_pack.channel_reuse);
    assert_eq!(matrix_pack.type_label, 2);
    assert_eq!(matrix_pack.pack_format_id, Some(5));
    assert_eq!(matrix_pack.matrix_output_positions.len(), 3);
    assert_eq!(
        at(&matrix_pack.channels, 0).transformed_channel_reference,
        Some(7)
    );
    let direct_channel = at(&values.basic.channels, 0);
    assert_eq!(direct_channel.index, 3);
    assert_eq!(
        direct_channel.gain.unwrap().value,
        39
    );
    assert_eq!(
        direct_channel
            .direct_speaker_position
            .unwrap()
            .screen_edge_lock,
        2
    );
    let matrix_channel = at(&values.basic.channels, 1);
    assert_eq!(matrix_channel.index, 4);
    assert_eq!(matrix_channel.matrix_coefficients.len(), 3);
    assert_eq!(
        *at(&matrix_channel.matrix_coefficients, 2),
        255
    );

    let vr = values.vr_extension_l1.as_ref().unwrap();
    assert_eq!(vr.ambisonic_order, 3);
    let environment = vr.acoustic_environment.as_ref().unwrap();
    assert_eq!(
        environment.early_reflection_gain.unwrap(),
        63
    );
    assert_eq!(environment.late_reverb_gain, Some(95));
    assert_eq!(environment.reverb_type, 2);
    assert!(environment.low_frequency_processing);
    assert_eq!(environment.convolution_reverb_type, Some(17));
    assert_eq!(environment.surfaces.len(), 2);
    assert_eq!(at(&environment.surfaces, 0).material, 31);
    assert_eq!(at(&environment.surfaces, 0).vertices.len(), 4);
    assert_eq!(
        at(&environment.surfaces, 0).absorption.unwrap()[7],
        98
    );
    assert_eq!(
        at(&environment.surfaces, 0).scattering.unwrap()[7],
        105
    );
    assert_eq!(at(&environment.surfaces, 1).material, 4);
    assert_eq!(at(&environment.surfaces, 1).vertices.len(), 18);
    assert_eq!(at(&environment.surfaces, 1).absorption, None);

    let render = vr.render_info.as_ref().unwrap();
    assert!(render.target_device);
    assert_eq!(render.hrtf_type, 9);
    assert_eq!(render.headphone_types[15], 75);
    assert_eq!(render.audio_effect.effect_chain, Some(5));
    assert_eq!(render.audio_effect.eq_bands.len(), 11);
    assert_eq!(at(&render.audio_effect.eq_bands, 10).eq_type, 2);
    assert_eq!(at(&render.audio_effect.eq_bands, 0).center_frequency, 0);
    assert_eq!(at(&render.audio_effect.eq_bands, 0).q, 0);
    assert_eq!(at(&render.audio_effect.eq_bands, 0).gain, 0);
    let drc = render.audio_effect.drc.unwrap();
    assert_eq!(drc.attack_time, 15);
    assert_eq!(drc.release_time, 14);
    assert_eq!(drc.threshold, 100);
    assert_eq!(drc.pre_gain, 90);
    assert_eq!(drc.post_gain, 80);
    assert_eq!(drc.ratio, 70);
    assert_eq!(render.audio_effect.gain, Some(64));
    assert_eq!(parsed.audio_payload(), &[0b1001_0110, 0b1000_0000]);
    assert_eq!(parsed.audio_bits(), 9);
}

#[test]
fn metadata_reads_are_bounded() {
    let mut writer = BitWriter::new();
    write(&mut writer, 1, 1);
    write_minimal_static_metadata(&mut writer);
    write(&mut writer, 0, 1);
    let metadata_bits = writer.bit_len();
    let payload = writer.into_bytes();

    let mut parser = MetadataPayloadParser::new();
    for bit_len in 0..metadata_bits {
        assert!(
            parser.parse(&payload, bit_len).is_err(),
            "cut at bit {bit_len}"
        );
        assert!(parser.last_metadata().is_none());
    }
    assert_eq!(
        parser.parse(&payload, metadata_bits).unwrap().audio_bits(),
        0
    );
    assert!(parser.last_metadata().unwrap().has_static_metadata());
}

#[test]
fn rejects_unmapped_channel_and_excessive_dynamic_object_count() {
    let mut writer = BitWriter::new();
    write(&mut writer, 1, 1);
    write_minimal_static_metadata(&mut writer);
    write(&mut writer, 0, 1);
    let bit_len = writer.bit_len();
    let mut payload = writer.into_bytes();
    // The channel-format index begins six bits before the dynamic flag.
    let channel_index_position = bit_len - 7;
    for offset in 0..5 {
        let absolute = channel_index_position + offset;
        payload[absolute / 8] &= !(1 << (7 - absolute % 8));
    }

    let mut parser = MetadataPayloadParser::new();
    assert_eq!(
        parser.parse(&payload, bit_len).unwrap_err(),
        MetadataError::UnmappedChannelFormat { index: 0 }
    );

    assert_eq!(
        parser
            .parse_with_object_count(&[0b0100_0000], 2, 33)
            .unwrap_err(),
        MetadataError::TooManyDynamicObjects {
            objects: 33,
            limit: 32,
        }
    );
}

#[test]
fn rejects_audio_larger_than_the_fixed_workspace() {
    let payload = vec![0; MAX_PAYLOAD_BYTES + 1];
    let mut parser = MetadataPayloadParser::new();
    assert_eq!(
        parser.parse(&payload, payload.len() * 8).unwrap_err(),
        MetadataError::PayloadTooLarge {
            bytes: MAX_PAYLOAD_BYTES + 1,
            limit: MAX_PAYLOAD_BYTES,
        }
    );
}

#[test]
fn metadata_storage_sizes_are_bounded() {
    // The lists are kept on the heap, so the values in line stay far below their bound.
    assert!(std::mem::size_of::<audio_codec_avs3::engine::metadata_values::FrameMetadata>() < 20 * 1024);
    assert!(std::mem::size_of::<MetadataPayloadParser>() <= MAX_PAYLOAD_BYTES + 32);
}

#[test]
fn metadata_and_audio_cover_the_payload() {
    let payload: Vec<u8> = (0..40).map(|index| index * 37).collect();
    let mut parser = MetadataPayloadParser::default();
    for bits in 2..320 {
        let mut bytes = payload.clone();
        bytes[0] &= 0b0011_1111;
        let parsed = parser.parse(&bytes, bits).unwrap();
        assert_eq!(parsed.summary().consumed_bits() + parsed.audio_bits(), bits);
        assert_eq!(parsed.audio_payload().len(), (bits - 2).div_ceil(8));
    }
}

#[test]
fn metadata_errors_have_words_of_their_own() {
    assert!(MetadataError::UnmappedChannelFormat { index: 3 }
        .message()
        .unwrap()
        .contains('3'));
    assert_eq!(MetadataError::Bitstream(CodecError::Truncated).message(), None);
    let mut parser = MetadataPayloadParser::new();
    assert_eq!(
        parser.parse(&[], 1).unwrap_err(),
        MetadataError::Bitstream(CodecError::Truncated)
    );
}

#[test]
fn lists_keep_the_order_of_their_items() {
    let mut list: MetadataList<u8, 3> = MetadataList::new();
    assert!(list.is_empty());
    list.push(4);
    list.push(9);
    assert_eq!(list.as_slice(), &[4, 9]);
    assert_eq!(list.get(1), Some(&9));
    assert_eq!(list.get(2), None);
    assert_eq!(list.len(), 2);
    assert_eq!(list.capacity(), 3);
}
