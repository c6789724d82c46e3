use audio_codec_avs3::core_side::{FdShapingSideInfo, TransformType};
use audio_codec_avs3::engine::range_coder::RangeCoderConfig;
use audio_codec_avs3::entropy::{
    decode_base_latents, decode_base_latents_into, decode_context_latents,
    decode_context_latents_into, range_bytes,
};
use audio_codec_avs3::error::CodecError;
use audio_codec_avs3::fd_lsf::{
    select_lsf_codewords, LsfCodebook, LsfCodebooks, FD_SHAPING_SFB_BOUNDARIES, LSF_MEAN,
};
use audio_codec_avs3::fd_lsf_tables::{
    decode_fd_lsf_tables, normative_lsf_codebooks, FD_LSF_TABLE_BYTES, FD_LSF_TABLE_VALUES,
};
use audio_codec_avs3::frame::parse_aatf_frame_header;
use audio_codec_avs3::hoa_side::HoaConfig;
use audio_codec_avs3::hoa_synthesis::{
    check_hoa_pcm_geometry, hoa_angle_pair, quantized_cosine, quantized_sine, HoaBasisDelay,
    HOA_FRAME_SAMPLES, HOA_SPATIAL_TABLE_BYTES_LEN,
};
use audio_codec_avs3::imdct_synthesis::{
    check_synthesis_input, finish_short_frame, gather_short_block, short_overlap,
    window_sections, Window, LONG_TIME_LEN,
};
use audio_codec_avs3::isobmff::{
    apply_sample_timing, build_sample_locations, duration_to_ticks, find_sample_entry,
    parse_av3a_stsd, ticks_to_duration, top_level_action, Av3aIsoBmffDemuxer, MediaTime,
    SampleLocation, TopLevelAction,
};
use audio_codec_avs3::isobmff_boxes::{memory_boxes, parse_stsz, StscEntry, SttsEntry};
use audio_codec_avs3::lc_pipeline::{decode_low_complexity_latents, BASE_LATENT_VALUES};
use audio_codec_avs3::lossless_bitstream::adaptive::LosslessRiceAdaptationState;
use audio_codec_avs3::lossless_bitstream::entropy::{
    decode_lossless_entropy_mode_at, LosslessEntropyMode, LOSSLESS_ENTROPY_MODE_BITS,
};
use audio_codec_avs3::lossless_bitstream::frame::{
    decode_lossless_frame_error_check_at, parse_lossless_aatf_envelope,
};
use audio_codec_avs3::lossless_bitstream::lpc::{
    dequantize_lossless_uniform_parcor_q20, dequantize_lossless_uniform_parcor_tail_q20,
    validate_lossless_lpc_order, LOSSLESS_LPC_Q_BITS, LOSSLESS_LPC_Q_ONE,
    LOSSLESS_UNIFORM_PARCOR_Q20_HALF_STEP, LOSSLESS_UNIFORM_PARCOR_Q20_STEP,
};
use audio_codec_avs3::lossless_bitstream::prepost::{
    lossless_ra_shift, lossless_ra_shift12, lossless_residual_shift_plan,
    LOSSLESS_PREPROCESS_MAX_SAMPLES,
};
use audio_codec_avs3::lossless_bitstream::primitives::{
    lossless_rice_map_signed, restore_lossless_mid_side, LOSSLESS_RICE_WINDOW,
};
use audio_codec_avs3::lossless_bitstream::stereo::{
    restore_lossless_anti_phase, restore_lossless_stereo_in_place, restore_lossless_stereo_pair,
    LosslessStereoDecorrelationMode,
};
use audio_codec_avs3::lossless_bitstream::{
    decode_lossless_rice_base_codeword_at, restore_lossless_flattened_residual,
    validate_lossless_arithmetic_block_count, validate_lossless_wavelet_level,
    LOSSLESS_ARITHMETIC_BLOCK_COUNTS, LOSSLESS_WAVELET_LEVELS,
};
use audio_codec_avs3::qc::BitRange;

const EMPTY: BitRange = BitRange {
    bit_offset: 0,
    bit_len: 0,
};

/// Models whose first symbol is the offset of the model.
fn models(offsets: Vec<i16>) -> RangeCoderConfig {
    let cdfs = vec![vec![0, 20_000, 40_000, 65_536]; offsets.len()];
    RangeCoderConfig::new(cdfs, offsets).unwrap()
}

fn context_models() -> RangeCoderConfig {
    let mut offsets = vec![-1_i16; 16];
    offsets[4] = -19;
    offsets[12] = -7;
    models(offsets)
}

fn base_offsets() -> Vec<i16> {
    (0..64).map(|index| -(index * 3) - 1).collect()
}

#[test]
fn zero_extended_stream_decodes_first_symbol_of_each_context_model() {
    let decoded = decode_context_latents(&[], EMPTY, 1, 16, &context_models()).unwrap();

    let mut expected = vec![-1; 16];
    expected[4] = -19;
    expected[12] = -7;
    assert_eq!(decoded, expected);
}

#[test]
fn repeats_context_model_selection_for_each_latent_position() {
    let mut decoded = [0_i32; 8];
    decode_context_latents_into(&[], EMPTY, 2, 4, &context_models(), &mut decoded).unwrap();
    assert_eq!(decoded, [-1; 8]);
}

#[test]
fn validates_latent_geometry_before_range_decode() {
    let range_models = context_models();
    assert!(decode_context_latents(&[], EMPTY, 1, 0, &range_models).is_err());
    assert!(decode_context_latents(&[], EMPTY, 1, 17, &range_models).is_err());

    let mut output = [0_i32; 3];
    assert!(decode_context_latents_into(&[], EMPTY, 1, 4, &range_models, &mut output).is_err());
}

#[test]
fn zero_extended_base_stream_uses_exact_b9_offsets() {
    let indices = [0_u8, 10, 57, 59, 63];
    let decoded = decode_base_latents(&[], EMPTY, &indices, &models(base_offsets())).unwrap();
    let expected = indices.map(|index| i32::from(base_offsets()[usize::from(index)]));
    assert_eq!(decoded.as_slice(), &expected);
}

#[test]
fn base_decoder_validates_shape_and_model_indices_before_decode() {
    let range_models = models(base_offsets());
    let mut wrong_len = [0_i32; 1];
    assert!(
        decode_base_latents_into(&[], EMPTY, &[0, 1], &range_models, &mut wrong_len).is_err()
    );

    let mut output = [0_i32; 1];
    assert!(decode_base_latents_into(&[], EMPTY, &[64], &range_models, &mut output).is_err());
}

#[test]
fn range_windows_start_at_any_bit() {
    let packet = [0b1010_1010, 0b1100_1100, 0b1111_0000];
    let range = BitRange {
        bit_offset: 3,
        bit_len: 12,
    };
    assert_eq!(
        range_bytes(&packet, range).unwrap(),
        [0b0101_0110, 0b0110_0000]
    );
    let beyond = BitRange {
        bit_offset: 3,
        bit_len: 22,
    };
    assert!(range_bytes(&packet, beyond).is_err());
}

#[test]
fn annex_b46_and_b47_shapes_are_exact() {
    assert_eq!(LSF_MEAN.len(), 16);
    assert_eq!(FD_SHAPING_SFB_BOUNDARIES.len(), 50);
    assert_eq!(FD_SHAPING_SFB_BOUNDARIES[0], 0);
    assert_eq!(FD_SHAPING_SFB_BOUNDARIES[49], 1024);
    assert!(FD_SHAPING_SFB_BOUNDARIES
        .windows(2)
        .all(|pair| pair[0] < pair[1]));
    assert_eq!(LSF_MEAN[0], 0x444C_20B4);
    assert_eq!(LSF_MEAN[15], 0x46AC_3C7E);
}

fn table(entries: usize, dimension: usize, base: f32) -> Vec<u32> {
    let mut values = vec![0_u32; entries * dimension];
    for entry in 0..entries {
        for dim in 0..dimension {
            values[entry * dimension + dim] = (base + entry as f32 * 10.0 + dim as f32).to_bits();
        }
    }
    values
}

#[test]
fn high_precision_split_vq_maps_all_seven_indices_without_search() {
    let h11 = table(256, 9, 1.0);
    let h12 = table(256, 7, 2.0);
    let h21 = table(128, 3, 3.0);
    let h22 = table(128, 3, 4.0);
    let h23 = table(64, 3, 5.0);
    let h24 = table(32, 3, 6.0);
    let h25 = table(32, 4, 7.0);
    let dummy = [0_u32; 1];
    let codebooks = LsfCodebooks {
        high_stage1: [LsfCodebook { values: &h11 }, LsfCodebook { values: &h12 }],
        high_stage2: [
            LsfCodebook { values: &h21 },
            LsfCodebook { values: &h22 },
            LsfCodebook { values: &h23 },
            LsfCodebook { values: &h24 },
            LsfCodebook { values: &h25 },
        ],
        low_stage1: [LsfCodebook { values: &dummy }; 2],
        low_stage2: [LsfCodebook { values: &dummy }; 3],
    };
    let side = FdShapingSideInfo {
        low_bitrate_precision: false,
        lsf_vq_indices: [
            Some(1),
            Some(2),
            Some(3),
            Some(4),
            Some(5),
            Some(6),
            Some(7),
        ],
        next_bit_offset: 0,
    };
    let codewords = select_lsf_codewords(&side, codebooks).unwrap();
    assert_eq!(codewords.len(), 7);
    let first: Vec<f32> = codewords
        .iter()
        .map(|codeword| f32::from_bits(codeword.values[0]))
        .collect();
    assert_eq!(first, [11.0, 22.0, 33.0, 44.0, 55.0, 66.0, 77.0]);
    let starts: Vec<usize> = codewords.iter().map(|codeword| codeword.start).collect();
    assert_eq!(starts, [0, 9, 0, 3, 6, 9, 12]);
}

#[test]
fn low_precision_rejects_index_outside_64_entry_final_codebook() {
    let s11 = vec![0_u32; 256 * 9];
    let s12 = vec![0_u32; 256 * 7];
    let s21 = vec![0_u32; 128 * 5];
    let s22 = vec![0_u32; 128 * 4];
    let s23 = vec![0_u32; 64 * 7];
    let dummy = [0_u32; 1];
    let codebooks = LsfCodebooks {
        high_stage1: [LsfCodebook { values: &dummy }; 2],
        high_stage2: [LsfCodebook { values: &dummy }; 5],
        low_stage1: [LsfCodebook { values: &s11 }, LsfCodebook { values: &s12 }],
        low_stage2: [
            LsfCodebook { values: &s21 },
            LsfCodebook { values: &s22 },
            LsfCodebook { values: &s23 },
        ],
    };
    let mut side = FdShapingSideInfo {
        low_bitrate_precision: true,
        lsf_vq_indices: [Some(0), Some(0), Some(0), Some(0), Some(64), None, None],
        next_bit_offset: 0,
    };
    assert!(select_lsf_codewords(&side, codebooks).is_err());
    side.lsf_vq_indices[4] = Some(63);
    assert!(select_lsf_codewords(&side, codebooks).is_ok());
}

#[test]
fn normative_codebooks_match_all_annex_b_split_vq_geometries() {
    let values = vec![0_u32; FD_LSF_TABLE_VALUES];
    let tables = normative_lsf_codebooks(&values);
    assert_eq!(tables.high_stage1[0].values.len(), 256 * 9);
    assert_eq!(tables.high_stage1[1].values.len(), 256 * 7);
    assert_eq!(tables.high_stage2[0].values.len(), 128 * 3);
    assert_eq!(tables.high_stage2[1].values.len(), 128 * 3);
    assert_eq!(tables.high_stage2[2].values.len(), 64 * 3);
    assert_eq!(tables.high_stage2[3].values.len(), 32 * 3);
    assert_eq!(tables.high_stage2[4].values.len(), 32 * 4);
    assert_eq!(tables.low_stage1[0].values.len(), 256 * 9);
    assert_eq!(tables.low_stage1[1].values.len(), 256 * 7);
    assert_eq!(tables.low_stage2[0].values.len(), 128 * 5);
    assert_eq!(tables.low_stage2[1].values.len(), 128 * 4);
    assert_eq!(tables.low_stage2[2].values.len(), 64 * 7);
}

#[test]
fn table_bytes_are_little_endian_and_counted() {
    let mut bytes = vec![0_u8; FD_LSF_TABLE_BYTES];
    bytes[4..8].copy_from_slice(&1.5_f32.to_bits().to_le_bytes());
    let values = decode_fd_lsf_tables(&bytes).unwrap();
    assert_eq!(values.len(), FD_LSF_TABLE_VALUES);
    assert_eq!(values[1], 1.5_f32.to_bits());
    assert!(decode_fd_lsf_tables(&bytes[1..]).is_none());
}

#[test]
fn full_hoa_frontend_checks_output_geometry_before_payload_parsing() {
    assert!(check_hoa_pcm_geometry(1, 96, HOA_FRAME_SAMPLES).is_err());
    assert_eq!(
        check_hoa_pcm_geometry(1, 96, 4 * HOA_FRAME_SAMPLES),
        HoaConfig::for_order_bitrate(1, 96)
    );
}

#[test]
fn angles_fold_into_a_quarter_turn() {
    assert_eq!(quantized_sine(0), (0, false));
    assert_eq!(quantized_sine(300), (212, false));
    assert_eq!(quantized_sine(600), (88, true));
    assert_eq!(quantized_cosine(300), (44, true));
    for angle in 1..=512 {
        let (entry, negative) = quantized_sine(angle);
        let (opposite, flipped) = quantized_sine(angle + 512);
        assert_eq!(opposite, entry);
        assert_eq!(flipped, !negative);
    }
    for angle in 0..=768 {
        assert_eq!(quantized_cosine(angle), quantized_sine(angle + 256));
    }
}

#[test]
fn angle_pairs_are_read_from_their_table() {
    let mut bytes = [0_u8; HOA_SPATIAL_TABLE_BYTES_LEN];
    for (index, byte) in bytes.iter_mut().enumerate() {
        *byte = (index % 3) as u8;
    }
    assert!(hoa_angle_pair(&bytes, 0).is_ok());
    assert!(hoa_angle_pair(&bytes, 1_343).is_err());
}

#[test]
fn basis_indices_come_two_frames_late() {
    let mut delay = HoaBasisDelay::new();
    let start = delay.current();
    delay.push(&[10, 11]);
    assert_eq!(delay.current(), start);
    delay.push(&[20, 21]);
    assert_eq!(delay.current()[..2], [10, 11]);
    delay.push(&[30, 31]);
    assert_eq!(delay.current()[..2], [20, 21]);
    delay.reset();
    assert_eq!(delay.current(), start);
}

#[test]
fn short_stride_layout_routes_each_frequency_interleaved_block() {
    let mut interleaved = [0.0_f32; 1024];
    for block in 0..8 {
        for line in 0..128 {
            interleaved[block + 8 * line] = (block * 1000 + line) as f32;
        }
    }
    let block = 5;
    let gathered = gather_short_block(&interleaved, block);
    for (line, value) in gathered.into_iter().enumerate() {
        assert_eq!(value, (block * 1000 + line) as f32);
    }
}

#[test]
fn windows_cover_the_whole_transform() {
    for transform in [
        TransformType::Long,
        TransformType::CutIn,
        TransformType::CutOut,
    ] {
        let sections = window_sections(transform).unwrap();
        let mut at = 0;
        for section in &sections {
            assert_eq!(section.start, at);
            at = section.stop;
        }
        assert_eq!(at, LONG_TIME_LEN);
    }
    let cut_in = window_sections(TransformType::CutIn).unwrap();
    assert!(cut_in.iter().any(|section| section.window == Window::Silent));
    assert!(window_sections(TransformType::Short).is_err());
}

#[test]
fn synthesis_needs_a_whole_finite_frame() {
    let spectrum = vec![1.0_f32.to_bits(); 1024];
    assert!(check_synthesis_input(&spectrum, 1024).is_ok());
    assert!(check_synthesis_input(&spectrum[1..], 1024).is_err());
    assert!(check_synthesis_input(&spectrum, 1023).is_err());
    let mut broken = spectrum;
    broken[700] = f32::NAN.to_bits();
    assert!(check_synthesis_input(&broken, 1024).is_err());
}

#[test]
fn short_frames_keep_their_tail() {
    let carried: Vec<u32> = (0..1024).collect();
    let overlap = short_overlap(&carried);
    assert_eq!(overlap.len(), 128);
    assert_eq!(overlap[0], 448);
    let blocks: Vec<u32> = (10_000..11_024).collect();
    let tail: Vec<u32> = (20_000..20_128).collect();
    let (output, kept) = finish_short_frame(&carried, &blocks, &tail, 0);
    assert_eq!(output.len(), 1024);
    assert_eq!(kept.len(), 1024);
    assert_eq!(output[..448], carried[..448]);
    assert_eq!(output[448..], blocks[..576]);
    assert_eq!(kept[..448], blocks[576..]);
    assert_eq!(kept[448..576], tail[..]);
    assert!(kept[576..].iter().all(|value| *value == 0));
}

#[test]
fn sample_location_builder_maps_variable_chunks_without_payload_copy() {
    let sizes = [10, 11, 12, 13, 14];
    let stsc = [
        StscEntry {
            first_chunk: 1,
            samples_per_chunk: 2,
            sample_description_index: 1,
        },
        StscEntry {
            first_chunk: 3,
            samples_per_chunk: 1,
            sample_description_index: 1,
        },
    ];
    let locations =
        build_sample_locations(&sizes, &stsc, &[100, 200, 300], 1, 1_000).expect("locations");
    assert_eq!(locations.len(), 5);
    assert_eq!((locations[0].offset, locations[1].offset), (100, 110));
    assert_eq!((locations[2].offset, locations[3].offset), (200, 212));
    assert_eq!(locations[4].offset, 300);
}

fn untimed(count: usize) -> Vec<SampleLocation> {
    vec![
        SampleLocation {
            offset: 0,
            size: 1,
            start_tick: 0,
            duration_ticks: 0,
        };
        count
    ]
}

#[test]
fn stts_expansion_produces_monotonic_sample_times() {
    let mut samples = untimed(4);
    let end = apply_sample_timing(
        &mut samples,
        &[
            SttsEntry {
                sample_count: 2,
                sample_delta: 1_024,
            },
            SttsEntry {
                sample_count: 2,
                sample_delta: 960,
            },
        ],
    )
    .expect("timing");
    assert_eq!(samples[0].start_tick, 0);
    assert_eq!(samples[1].start_tick, 1_024);
    assert_eq!(samples[2].start_tick, 2_048);
    assert_eq!(samples[3].start_tick, 3_008);
    assert_eq!(end, 3_968);
}

#[test]
fn duration_tick_conversion_is_integer_and_stable() {
    let duration = ticks_to_duration(1_024, 48_000);
    assert_eq!(
        duration,
        MediaTime {
            seconds: 0,
            nanos: 21_333_333,
        }
    );
    assert_eq!(duration_to_ticks(duration, 48_000), 1_023);
}

#[test]
fn tables_that_disagree_are_refused() {
    let mut samples = untimed(3);
    let short = [SttsEntry {
        sample_count: 2,
        sample_delta: 1,
    }];
    assert!(apply_sample_timing(&mut samples, &short).is_err());
    let stsc = [StscEntry {
        first_chunk: 1,
        samples_per_chunk: 1,
        sample_description_index: 1,
    }];
    assert!(build_sample_locations(&[10], &stsc, &[995], 1, 1_000).is_err());
    assert!(build_sample_locations(&[10], &stsc, &[990], 2, 1_000).is_err());
    assert!(build_sample_locations(&[10, 10], &stsc, &[100], 1, 1_000).is_err());
    assert!(build_sample_locations(&[10], &stsc, &[990], 1, 1_000).is_ok());
}

fn boxed(kind: &[u8; 4], payload: &[u8]) -> Vec<u8> {
    let mut bytes = ((payload.len() + 8) as u32).to_be_bytes().to_vec();
    bytes.extend_from_slice(kind);
    bytes.extend_from_slice(payload);
    bytes
}

fn words(values: &[u32]) -> Vec<u8> {
    values.iter().flat_map(|value| value.to_be_bytes()).collect()
}

fn movie() -> Vec<u8> {
    let entry = boxed(b"av3a", &[0x5a; 40]);
    let mut stsd = words(&[0, 1]);
    stsd.extend_from_slice(&entry);
    let mut stbl = boxed(b"stsd", &stsd);
    stbl.extend(boxed(b"stsz", &words(&[0, 0, 3, 10, 20, 30])));
    stbl.extend(boxed(b"stsc", &words(&[0, 1, 1, 3, 1])));
    stbl.extend(boxed(b"stco", &words(&[0, 1, 500])));
    stbl.extend(boxed(b"stts", &words(&[0, 1, 3, 1_024])));
    let minf = boxed(b"minf", &boxed(b"stbl", &stbl));
    let mut mdia = boxed(b"mdhd", &words(&[0, 0, 0, 48_000, 3_072, 0]));
    mdia.extend(minf);
    boxed(b"trak", &boxed(b"mdia", &mdia))
}

#[test]
fn a_movie_is_walked_sample_by_sample() {
    let mut demuxer = Av3aIsoBmffDemuxer::from_movie(&movie(), 10_000, true)
        .unwrap()
        .unwrap();
    assert_eq!(demuxer.sample_count(), 3);
    let (offset, size, timing) = demuxer.next_sample().unwrap();
    assert_eq!((offset, size), (500, 10));
    assert_eq!(timing.start_tick, 0);
    demuxer.advance();
    let (offset, size, timing) = demuxer.next_sample().unwrap();
    assert_eq!((offset, size), (510, 20));
    assert_eq!(timing.start_time(), ticks_to_duration(1_024, 48_000));
    assert_eq!(demuxer.position(), timing.start_time());
    demuxer.advance();
    demuxer.advance();
    assert!(demuxer.next_sample().is_none());
    assert_eq!(demuxer.position(), demuxer.duration());

    demuxer.seek(MediaTime {
        seconds: 0,
        nanos: 50_000_000,
    });
    let (offset, _, timing) = demuxer.next_sample().unwrap();
    assert_eq!(offset, 530);
    assert_eq!(timing.start_tick, 2_048);
    demuxer.seek(MediaTime {
        seconds: 0,
        nanos: 0,
    });
    assert_eq!(demuxer.next_sample().unwrap().0, 500);
}

#[test]
fn a_movie_without_the_track_has_no_demuxer() {
    assert!(matches!(
        Av3aIsoBmffDemuxer::from_movie(&boxed(b"free", &[0; 4]), 100, false),
        Ok(None)
    ));
    assert!(Av3aIsoBmffDemuxer::from_movie(&movie(), 520, true).is_err());
    assert!(Av3aIsoBmffDemuxer::from_movie(&movie()[1..], 10_000, true).is_err());
}

#[test]
fn a_sample_entry_that_makes_no_sense_is_refused() {
    assert_eq!(
        find_sample_entry(&movie()),
        Ok(Some(boxed(b"av3a", &[0x5a; 40])))
    );
    assert_eq!(find_sample_entry(&boxed(b"free", &[0; 4])), Ok(None));
    assert!(matches!(
        Av3aIsoBmffDemuxer::from_movie(&movie(), 10_000, false),
        Err(CodecError::InvalidData("invalid av3a AudioSampleEntry"))
    ));
    // The entry is looked at before the tables are, which do not fit into so short a file.
    assert!(matches!(
        Av3aIsoBmffDemuxer::from_movie(&movie(), 520, false),
        Err(CodecError::InvalidData("invalid av3a AudioSampleEntry"))
    ));
    let entry = boxed(b"av3a", &[0x5a; 40]);
    let mut stsd = words(&[0, 2]);
    stsd.extend(boxed(b"mp4a", &[0; 4]));
    stsd.extend_from_slice(&entry);
    assert_eq!(parse_av3a_stsd(&stsd, true), Ok(Some((&entry[..], 2))));
    assert!(parse_av3a_stsd(&stsd, false).is_err());
}

#[test]
fn boxes_lie_side_by_side() {
    let mut bytes = boxed(b"free", &[1, 2, 3]);
    bytes.extend(boxed(b"mdat", &[]));
    let boxes = memory_boxes(&bytes).unwrap();
    assert_eq!(boxes.len(), 2);
    assert_eq!((boxes[0].start, boxes[0].payload, boxes[0].end), (0, 8, 11));
    assert_eq!((boxes[1].start, boxes[1].payload, boxes[1].end), (11, 19, 19));
    assert!(memory_boxes(&bytes[..15]).is_err());
}

#[test]
fn top_level_boxes_are_skipped_to_the_movie() {
    let free = boxed(b"free", &[0; 20]);
    assert_eq!(
        top_level_action(&free[..8], 0, 100),
        Ok(TopLevelAction::SkipTo(28))
    );
    let moov = boxed(b"moov", &[0; 20]);
    assert_eq!(
        top_level_action(&moov[..8], 28, 100),
        Ok(TopLevelAction::ReadMovie {
            offset: 36,
            len: 20,
        })
    );
    assert!(top_level_action(&moov[..8], 90, 100).is_err());
    let mut large = moov;
    large[..4].copy_from_slice(&1_u32.to_be_bytes());
    assert_eq!(
        top_level_action(&large[..8], 0, 100),
        Ok(TopLevelAction::ReadLargeSize)
    );
}

#[test]
fn one_size_may_stand_for_all_samples() {
    assert_eq!(parse_stsz(&words(&[0, 7, 3])).unwrap(), [7, 7, 7]);
    assert_eq!(parse_stsz(&words(&[0, 0, 2, 5, 6])).unwrap(), [5, 6]);
    assert!(parse_stsz(&words(&[0, 0, 2, 5])).is_err());
}

#[test]
fn rejects_wrong_output_geometry_before_entropy_decode() {
    let range_models = models(base_offsets());
    let indices = [0_u8; BASE_LATENT_VALUES];
    assert!(decode_low_complexity_latents(&[], EMPTY, &indices, &range_models, 8).is_err());
}

#[test]
fn low_complexity_latents_need_a_whole_frame() {
    let range_models = models(base_offsets());
    let indices = [0_u8; BASE_LATENT_VALUES];
    let latents =
        decode_low_complexity_latents(&[], EMPTY, &indices, &range_models, BASE_LATENT_VALUES)
            .unwrap();
    assert_eq!(latents, [-1; BASE_LATENT_VALUES]);
    assert!(decode_low_complexity_latents(
        &[],
        EMPTY,
        &indices[1..],
        &range_models,
        BASE_LATENT_VALUES
    )
    .is_err());
}

#[test]
fn validates_conformance_arithmetic_block_counts_without_wire_assumptions() {
    assert_eq!(LOSSLESS_ARITHMETIC_BLOCK_COUNTS, [1, 2, 4, 8]);
    for count in LOSSLESS_ARITHMETIC_BLOCK_COUNTS {
        assert_eq!(
            validate_lossless_arithmetic_block_count(count).unwrap(),
            usize::from(count)
        );
    }
    for count in [0, 3, 5, 7, 9, u8::MAX] {
        assert!(validate_lossless_arithmetic_block_count(count).is_err());
    }
}

#[test]
fn validates_conformance_wavelet_levels_without_wire_assumptions() {
    assert_eq!(LOSSLESS_WAVELET_LEVELS, [0, 1]);
    assert_eq!(validate_lossless_wavelet_level(0).unwrap(), 0);
    assert_eq!(validate_lossless_wavelet_level(1).unwrap(), 1);
    assert!(validate_lossless_wavelet_level(2).is_err());
    assert!(validate_lossless_wavelet_level(u8::MAX).is_err());
}

#[test]
fn decodes_base_rice_codeword_without_repacking() {
    // A prefix of three, then the remainder two of two bits: (3 << 2) | 2 = 14.
    let (value, next) = decode_lossless_rice_base_codeword_at(&[0b0001_1000], 0, 2).unwrap();
    assert_eq!(value, 14);
    assert_eq!(next, 6);
}

#[test]
fn base_reader_rejects_prefix_that_requires_escape() {
    let bytes = [0_u8; 9];
    assert!(decode_lossless_rice_base_codeword_at(&bytes, 0, 0).is_err());
}

#[test]
fn restores_flattened_residual_with_direct_low_bits() {
    assert_eq!(
        restore_lossless_flattened_residual(7, 3, 2, false).unwrap(),
        31
    );
    assert_eq!(
        restore_lossless_flattened_residual(7, 3, 2, true).unwrap(),
        -31
    );
    assert!(restore_lossless_flattened_residual(7, 4, 2, false).is_err());
}

#[test]
fn flattened_residuals_come_back() {
    for value in [-100_000_i32, -17, -1, 0, 1, 5, 31, 4_096, 65_537] {
        for shift in 0..12_u8 {
            let magnitude = u64::from(value.unsigned_abs());
            let low = magnitude & ((1 << shift) - 1);
            assert_eq!(
                restore_lossless_flattened_residual(magnitude >> shift, low, shift, value < 0),
                Ok(value)
            );
        }
    }
}

#[test]
fn seed_and_residual_paths_use_different_domains() {
    let mut seed = LosslessRiceAdaptationState::new(3, 4).unwrap();
    seed.update_seed_block(&[8, 8, 8, 8]).unwrap();
    assert_eq!(seed.sum(), 256);

    let mut residual = LosslessRiceAdaptationState::new(3, 4).unwrap();
    residual.update_residual_block(&[4, -4, 4, -4]).unwrap();
    // The mapped values are [8, 7, 8, 7], so 256 + 30 - 4 * (256 / 32) = 254.
    assert_eq!(residual.sum(), 254);
}

#[test]
fn mapped_residual_update_is_allocation_free_equivalent() {
    let mut signed = LosslessRiceAdaptationState::new(2, 2).unwrap();
    signed.update_residual_block(&[-3, 5]).unwrap();

    let mut mapped = LosslessRiceAdaptationState::new(2, 2).unwrap();
    mapped.update_mapped_residual_block(&[5, 10]).unwrap();
    assert_eq!(signed, mapped);
}

#[test]
fn maximal_recentering_finds_the_matching_power_of_two_interval() {
    let mut state = LosslessRiceAdaptationState::new(1, 2).unwrap();
    state.update_seed_block(&[256, 256]).unwrap();
    state.recenter_maximal();
    assert!(state.parameter() > 1);
    let lower = (1_u128 << state.parameter()) * LOSSLESS_RICE_WINDOW as u128;
    let upper = if state.parameter() == 63 {
        u128::MAX
    } else {
        (1_u128 << (state.parameter() + 1)) * LOSSLESS_RICE_WINDOW as u128
    };
    assert!(u128::from(state.sum()) >= lower);
    assert!(u128::from(state.sum()) <= upper);
}

#[test]
fn signed_values_map_to_distinct_symbols() {
    assert_eq!(lossless_rice_map_signed(0), 0);
    let mut seen: Vec<u64> = (-300..=300).map(lossless_rice_map_signed).collect();
    seen.sort_unstable();
    seen.dedup();
    assert_eq!(seen.len(), 601);
}

#[test]
fn decodes_both_standardized_entropy_modes() {
    let bytes = [0b0100_0000];
    assert_eq!(
        decode_lossless_entropy_mode_at(&bytes, 0).unwrap(),
        (LosslessEntropyMode::Arithmetic, 1)
    );
    assert_eq!(
        decode_lossless_entropy_mode_at(&bytes, 1).unwrap(),
        (LosslessEntropyMode::GolombRice, 2)
    );
}

#[test]
fn selector_is_one_bit_and_supports_unaligned_offsets() {
    assert_eq!(LOSSLESS_ENTROPY_MODE_BITS, 1);
    let bytes = [0b1010_0000];
    assert_eq!(
        decode_lossless_entropy_mode_at(&bytes, 2).unwrap(),
        (LosslessEntropyMode::GolombRice, 3)
    );
    assert_eq!(
        decode_lossless_entropy_mode_at(&bytes, 3).unwrap(),
        (LosslessEntropyMode::Arithmetic, 4)
    );
}

#[test]
fn rejects_selector_past_end_of_payload() {
    assert!(matches!(
        decode_lossless_entropy_mode_at(&[0], 8),
        Err(CodecError::Truncated)
    ));
}

fn push(bits: &mut Vec<bool>, value: u32, width: u32) {
    for shift in (0..width).rev() {
        bits.push((value >> shift) & 1 == 1);
    }
}

fn synthetic_lossless_frame() -> Vec<u8> {
    let mut bits = Vec::new();
    push(&mut bits, 0x0fff, 12); // sync word
    push(&mut bits, 1, 4); // lossless
    push(&mut bits, 0, 1); // no ancillary data
    push(&mut bits, 0, 3); // profile
    push(&mut bits, 2, 4); // 48 kHz
    push(&mut bits, 9, 16); // bytes of the whole frame
    push(&mut bits, 0x5a, 8); // header check
    push(&mut bits, 2, 4); // channels
    push(&mut bits, 1, 2); // 16 bits
    push(&mut bits, 0, 2); // alignment
    push(&mut bits, 0xde, 8); // raw block
    push(&mut bits, 0xa5, 8); // frame check
    bits.chunks(8)
        .map(|chunk| {
            chunk
                .iter()
                .enumerate()
                .fold(0_u8, |byte, (index, &bit)| byte | (u8::from(bit) << (7 - index)))
        })
        .collect()
}

#[test]
fn extracts_trailing_frame_check_without_parsing_lossless_raw_data() {
    let packet = synthetic_lossless_frame();
    let header = parse_aatf_frame_header(&packet).unwrap();
    let envelope = parse_lossless_aatf_envelope(&packet, &header).unwrap();

    assert_eq!(envelope.frame_bytes, packet.as_slice());
    assert_eq!(envelope.raw_block_and_ancillary, &[0xde]);
    assert_eq!(envelope.frame_crc, 0xa5);
    assert_eq!(envelope.frame_crc_bit_offset, 64);
}

#[test]
fn rejects_packet_length_disagreement() {
    let mut packet = synthetic_lossless_frame();
    let header = parse_aatf_frame_header(&packet).unwrap();
    packet.push(0);
    assert!(parse_lossless_aatf_envelope(&packet, &header).is_err());
}

#[test]
fn decodes_check_byte_at_unaligned_bit_offset() {
    let (crc, next) =
        decode_lossless_frame_error_check_at(&[0b1010_0101, 0b1100_0000], 3).unwrap();
    assert_eq!(crc, 0b0010_1110);
    assert_eq!(next, 11);
}

#[test]
fn validates_full_standardized_lpc_order_range() {
    assert_eq!(validate_lossless_lpc_order(1).unwrap(), 1);
    assert_eq!(validate_lossless_lpc_order(127).unwrap(), 127);
    assert!(validate_lossless_lpc_order(0).is_err());
    assert!(validate_lossless_lpc_order(128).is_err());
    assert!(validate_lossless_lpc_order(u8::MAX).is_err());
}

#[test]
fn q20_constants_match_uniform_parcor_geometry() {
    assert_eq!(LOSSLESS_LPC_Q_BITS, 20);
    assert_eq!(LOSSLESS_LPC_Q_ONE, 1_048_576);
    assert_eq!(LOSSLESS_UNIFORM_PARCOR_Q20_STEP, 16_384);
    assert_eq!(LOSSLESS_UNIFORM_PARCOR_Q20_HALF_STEP, 8_192);
}

#[test]
fn uniform_parcor_reconstructs_quantization_bin_centers() {
    assert_eq!(
        dequantize_lossless_uniform_parcor_q20(-64).unwrap(),
        -1_040_384
    );
    assert_eq!(
        dequantize_lossless_uniform_parcor_q20(-1).unwrap(),
        -8_192
    );
    assert_eq!(dequantize_lossless_uniform_parcor_q20(0).unwrap(), 8_192);
    assert_eq!(
        dequantize_lossless_uniform_parcor_q20(63).unwrap(),
        1_040_384
    );
}

#[test]
fn uniform_parcor_midpoints_are_sign_symmetric() {
    for quantized in -64_i8..=63 {
        let mirror = -i16::from(quantized) - 1;
        let mirror = i8::try_from(mirror).unwrap();
        assert_eq!(
            dequantize_lossless_uniform_parcor_q20(quantized).unwrap(),
            -dequantize_lossless_uniform_parcor_q20(mirror).unwrap()
        );
    }
}

#[test]
fn tail_conversion_is_allocation_free_and_checks_geometry() {
    let input = [-64_i8, -1, 0, 63];
    let mut output = [0_i32; 4];
    assert_eq!(
        dequantize_lossless_uniform_parcor_tail_q20(&input, &mut output).unwrap(),
        4
    );
    assert_eq!(output, [-1_040_384, -8_192, 8_192, 1_040_384]);

    let mut short = [0_i32; 3];
    assert!(dequantize_lossless_uniform_parcor_tail_q20(&input, &mut short).is_err());
}

#[test]
fn rejects_reserved_i8_values_outside_seven_bit_index_range() {
    assert!(dequantize_lossless_uniform_parcor_q20(-65).is_err());
    assert!(dequantize_lossless_uniform_parcor_q20(64).is_err());
    assert!(dequantize_lossless_uniform_parcor_q20(i8::MIN).is_err());
    assert!(dequantize_lossless_uniform_parcor_q20(i8::MAX).is_err());
}

#[test]
fn fixed_tables_match_interoperability_anchor_values() {
    assert_eq!(lossless_ra_shift12(-64).unwrap(), 58_348);
    assert_eq!(lossless_ra_shift12(0).unwrap(), 3_577);
    assert_eq!(lossless_ra_shift12(35).unwrap(), 1);
    assert_eq!(lossless_ra_shift12(63).unwrap(), 18_365);
    assert_eq!(lossless_ra_shift(0).unwrap(), 0);
    assert_eq!(lossless_ra_shift(32).unwrap(), 1_700);
    assert_eq!(lossless_ra_shift(-64).unwrap(), 23_147);
}

#[test]
fn shift_plan_uses_special_first_two_then_magnitude_table() {
    let q = [0_i8, 0, 32, -32];
    let mut shifts = [0_u8; LOSSLESS_PREPROCESS_MAX_SAMPLES];
    let count = lossless_residual_shift_plan(&q, &mut shifts).unwrap();
    assert_eq!(count, 4);
    assert_eq!(shifts[0], 0);
    assert_eq!(shifts[1], 1);
    assert_eq!(shifts[2], 1);
    assert_eq!(shifts[3], 1);
}

#[test]
fn shift_plan_caps_preprocessing_at_sixteen_samples() {
    let q = [0_i8; 60];
    let mut shifts = [255_u8; LOSSLESS_PREPROCESS_MAX_SAMPLES];
    assert_eq!(lossless_residual_shift_plan(&q, &mut shifts).unwrap(), 16);
    assert!(shifts.iter().all(|value| *value <= 7));
}

#[test]
fn rejects_invalid_quantized_parcor_values() {
    let mut output = [0_u8; 1];
    assert!(lossless_residual_shift_plan(&[64_i8], &mut output).is_err());
    assert!(lossless_residual_shift_plan(&[-65_i8], &mut output).is_err());
}

fn anti_phase_downmix(left: i32, right: i32) -> (i32, i32) {
    let left = i64::from(left);
    let right = i64::from(right);
    (
        i32::try_from((left - right).div_euclid(2)).unwrap(),
        i32::try_from(left + right).unwrap(),
    )
}

fn in_phase_downmix(left: i32, right: i32) -> (i32, i32) {
    let left = i64::from(left);
    let right = i64::from(right);
    (
        i32::try_from((left + right).div_euclid(2)).unwrap(),
        i32::try_from(left - right).unwrap(),
    )
}

const PAIRS: [(i32, i32); 9] = [
    (0, 1),
    (1, 0),
    (-1, 0),
    (0, -1),
    (-2, 3),
    (3, -2),
    (-5, -2),
    (5, 2),
    (123, -456),
];

#[test]
fn anti_phase_inverse_preserves_signed_odd_parity() {
    for (left, right) in PAIRS {
        let (mid, side) = anti_phase_downmix(left, right);
        assert_eq!(
            restore_lossless_anti_phase(mid, side).unwrap(),
            (left, right)
        );
    }
}

#[test]
fn in_phase_mode_matches_existing_mid_side_inverse() {
    for (left, right) in PAIRS {
        let (mid, side) = in_phase_downmix(left, right);
        let expected = restore_lossless_mid_side(mid, side).unwrap();
        assert_eq!(
            restore_lossless_stereo_pair(LosslessStereoDecorrelationMode::InPhase, mid, side)
                .unwrap(),
            expected
        );
        assert_eq!(expected, (left, right));
    }
}

#[test]
fn passthrough_mode_preserves_transmitted_channels() {
    assert_eq!(
        restore_lossless_stereo_pair(LosslessStereoDecorrelationMode::Passthrough, -123, 456)
            .unwrap(),
        (-123, 456)
    );
}

#[test]
fn planar_stereo_reconstruction_is_allocation_free_and_exact() {
    let original = [(0, 1), (-2, 3), (5, 2), (123, -456)];
    let mut primary = Vec::new();
    let mut secondary = Vec::new();
    for &(left, right) in &original {
        let (mid, side) = anti_phase_downmix(left, right);
        primary.push(mid);
        secondary.push(side);
    }

    restore_lossless_stereo_in_place(
        LosslessStereoDecorrelationMode::AntiPhase,
        &mut primary,
        &mut secondary,
    )
    .unwrap();

    assert_eq!(
        primary,
        original.iter().map(|&(left, _)| left).collect::<Vec<_>>()
    );
    assert_eq!(
        secondary,
        original.iter().map(|&(_, right)| right).collect::<Vec<_>>()
    );
}

#[test]
fn stereo_reconstruction_rejects_invalid_geometry_and_overflow() {
    let mut primary = [0, 1];
    let mut secondary = [0];
    assert!(restore_lossless_stereo_in_place(
        LosslessStereoDecorrelationMode::AntiPhase,
        &mut primary,
        &mut secondary,
    )
    .is_err());

    assert!(restore_lossless_anti_phase(i32::MAX, i32::MAX).is_err());
    assert!(restore_lossless_stereo_pair(
        LosslessStereoDecorrelationMode::InPhase,
        i32::MAX,
        i32::MAX,
    )
    .is_err());
}
