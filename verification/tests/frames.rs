use audio_codec_avs3::bitreader::BitReader;
use audio_codec_avs3::bwe::{BweConfig, WhiteningLevel};
use audio_codec_avs3::config::{
    AudioCodingMethod, ChannelConfiguration, CodingProfile, NeuralNetworkType,
    QuantizationResolution,
};
use audio_codec_avs3::core_side::{
    parse_core_side_prefix_at, TnsCode, TnsCodebook, TransformType,
};
use audio_codec_avs3::error::CodecError;
use audio_codec_avs3::frame::{
    parse_aatf_frame_header, AatfFrameHeader, SoundBedType, AATF_SYNCWORD,
};
use audio_codec_avs3::ga::{coded_payload, GaCodecFormat, GaDecodePlan};
use audio_codec_avs3::ga_frame::{
    multichannel_remaining_bits, parse_multichannel_frame_head,
    parse_multichannel_frame_side_info, McBitAllocation, MultichannelSideInfo,
};
use audio_codec_avs3::ga_hoa_pcm::{
    hoa_noise_line_count, plan_hoa_transport_frame, plan_inverse_hoa_dmx, HoaDownmixStep,
};
use audio_codec_avs3::ga_mono::parse_mono_frame_side_info;
use audio_codec_avs3::ga_multichannel_pcm::{
    apply_multichannel_lfe_restriction, interleave_pcm, MC_LFE_RESERVED_LINES,
};
use audio_codec_avs3::ga_pcm_plan::{
    check_multichannel_geometry, plan_basic_mono_pre_fd, plan_basic_multichannel_pcm,
    plan_basic_stereo_pcm, plan_mono_pcm, STEREO_PCM_SAMPLES,
};
use audio_codec_avs3::ga_stereo::{
    allocate_stereo_mcr_bytes, allocate_stereo_ms_bytes, parse_stereo_frame_side_info,
    parse_stereo_mcr_frame_side_info, parse_stereo_side_info_at, StereoCouplingSideInfo,
    MCR_VQ_VECTORS,
};
use audio_codec_avs3::group::{
    inverse_group_spectrum, parse_group_bits_at, GroupSideInfo, SpectrumDegroupWorkspace,
    MDCT_LINES, SHORT_BLOCKS, SHORT_LINES,
};
use audio_codec_avs3::hoa_allocation::allocate_hoa_bytes;
use audio_codec_avs3::hoa_frame::parse_hoa_frame_side_info;
use audio_codec_avs3::hoa_side::{
    hoa_pair_index_bits, resolve_hoa_pair_index, HoaConfig, HOA_SCALE_FACTOR_BANDS,
};
use audio_codec_avs3::hoa_syntax::{
    parse_hoa_side_info_at, HoaDmxMode, HoaGroupSideInfo, HoaPairSideInfo, HoaSideInfo,
};
use audio_codec_avs3::qc::{parse_qc_side_info_at, qc_fixed_header_bits};
use audio_codec_avs3::synthesis_plan::{noise_fill_line_count, SynthesisStage};

const BASE_OUTPUT_POSITIONS: usize = 1024;

struct BitWriter {
    bytes: Vec<u8>,
    bit_pos: usize,
}

impl BitWriter {
    fn new() -> Self {
        BitWriter {
            bytes: Vec::new(),
            bit_pos: 0,
        }
    }

    fn push(&mut self, value: u32, bits: usize) {
        for shift in (0..bits).rev() {
            if self.bit_pos & 7 == 0 {
                self.bytes.push(0);
            }
            if (value >> shift) & 1 != 0 {
                let index = self.bytes.len() - 1;
                self.bytes[index] |= 1 << (7 - (self.bit_pos & 7));
            }
            self.bit_pos += 1;
        }
    }

    fn zeros(&mut self, bits: usize) {
        for _ in 0..bits {
            self.push(0, 1);
        }
    }
}

#[test]
fn parses_44k1_7_1_4_full_rate_header() {
    let mut writer = BitWriter::new();
    writer.push(AATF_SYNCWORD.into(), 12);
    writer.push(2, 4);
    writer.push(0, 1);
    writer.push(1, 3); // low-complexity network
    writer.push(0, 3); // basic profile
    writer.push(3, 4); // 44.1 kHz
    writer.push(0x5A, 8); // header check
    writer.push(0xA, 7); // 7.1.4
    writer.push(2, 2); // 24 bits
    writer.push(0xE, 4);
    writer.push(0xA5, 8); // frame check

    let header = parse_aatf_frame_header(&writer.bytes).unwrap();
    assert_eq!(header.coding_method, AudioCodingMethod::GeneralFullRate);
    assert_eq!(header.sample_rate, Some(44_100));
    assert_eq!(
        header.channel_configuration,
        Some(ChannelConfiguration::Surround7_1_4)
    );
    assert_eq!(header.resolved_channels(), Some(12));
    assert_eq!(header.resolution.bits_per_sample(), Some(24));
    assert_eq!(header.frame_crc, Some(0xA5));
    assert_eq!(header.payload_offset_bytes, 7);
}

#[test]
fn parses_object_only_channel_count() {
    let mut writer = BitWriter::new();
    writer.push(AATF_SYNCWORD.into(), 12);
    writer.push(2, 4);
    writer.push(0, 1);
    writer.push(0, 3);
    writer.push(1, 3); // object metadata profile
    writer.push(2, 4); // 48 kHz
    writer.push(0, 8);
    writer.push(0, 2); // no sound bed
    writer.push(7, 7); // 8 object channels
    writer.push(3, 4);
    writer.push(1, 2); // 16 bits
    writer.push(0, 8);

    let header = parse_aatf_frame_header(&writer.bytes).unwrap();
    assert_eq!(header.sound_bed_type, Some(SoundBedType::ObjectsOnly));
    assert_eq!(header.object_channels(), Some(8));
    assert_eq!(header.resolved_channels(), Some(8));
    assert_eq!(header.sample_rate, Some(48_000));
}

#[test]
fn resolves_mixed_bed_plus_object_channels() {
    let mut writer = BitWriter::new();
    writer.push(AATF_SYNCWORD.into(), 12);
    writer.push(2, 4);
    writer.push(0, 1);
    writer.push(0, 3);
    writer.push(1, 3);
    writer.push(2, 4);
    writer.push(0, 8);
    writer.push(1, 2); // channel bed and objects
    writer.push(2, 7); // 5.1: 6 channels
    writer.push(4, 4); // bed bitrate index
    writer.push(1, 7); // 2 object channels
    writer.push(2, 4);
    writer.push(1, 2);
    writer.push(0, 8);

    let header = parse_aatf_frame_header(&writer.bytes).unwrap();
    assert_eq!(header.resolved_channels(), Some(8));
    assert_eq!(header.bitrate_index, Some(4));
}

#[test]
fn parses_indexed_lossless_sample_rate() {
    let mut writer = BitWriter::new();
    writer.push(AATF_SYNCWORD.into(), 12);
    writer.push(1, 4); // lossless
    writer.push(0, 1); // no ancillary data
    writer.push(0, 3); // basic profile
    writer.push(2, 4); // 48 kHz
    writer.push(2048, 16); // raw frame length
    writer.push(0x5A, 8); // header check
    writer.push(2, 4); // two channels
    writer.push(1, 2); // 16 bits

    let header = parse_aatf_frame_header(&writer.bytes).unwrap();
    assert_eq!(header.coding_method, AudioCodingMethod::Lossless);
    assert_eq!(header.sample_rate, Some(48_000));
    assert_eq!(header.raw_frame_length, Some(2048));
    assert_eq!(header.resolved_channels(), Some(2));
    assert_eq!(header.frame_crc, None);
}

#[test]
fn rejects_reserved_lossless_sample_rate_index() {
    let mut writer = BitWriter::new();
    writer.push(AATF_SYNCWORD.into(), 12);
    writer.push(1, 4);
    writer.push(0, 1);
    writer.push(0, 3);
    writer.push(4, 4);

    assert_eq!(
        parse_aatf_frame_header(&writer.bytes),
        Err(CodecError::Unsupported(
            "reserved lossless AATF sampling_frequency_index"
        ))
    );
}

#[test]
fn rejects_wrong_syncword_before_touching_codec_payload() {
    let packet = [0_u8; 16];
    assert_eq!(
        parse_aatf_frame_header(&packet),
        Err(CodecError::InvalidData("invalid AATF syncword"))
    );
}

#[test]
fn a_longer_packet_has_the_same_header() {
    let mut writer = BitWriter::new();
    writer.push(AATF_SYNCWORD.into(), 12);
    writer.push(2, 4);
    writer.zeros(100);
    let header = parse_aatf_frame_header(&writer.bytes);
    assert!(header.is_ok());
    for extra in 1..20 {
        let mut longer = writer.bytes.clone();
        longer.extend(vec![0xff; extra]);
        assert_eq!(parse_aatf_frame_header(&longer), header);
    }
    assert_eq!(
        parse_aatf_frame_header(&writer.bytes[..4]),
        Err(CodecError::Truncated)
    );
}

fn header(profile: CodingProfile) -> AatfFrameHeader {
    AatfFrameHeader {
        coding_method: AudioCodingMethod::GeneralFullRate,
        anc_data_index: false,
        nn_type: Some(NeuralNetworkType::Basic),
        coding_profile: profile,
        sampling_frequency_index: 2,
        sample_rate: Some(48_000),
        raw_frame_length: None,
        header_crc: 0,
        channel_number: None,
        channel_number_index: None,
        channel_configuration: None,
        sound_bed_type: None,
        object_channel_number: None,
        bitrate_index_per_channel: None,
        hoa_order: None,
        resolution: QuantizationResolution::Pcm24,
        bitrate_index: Some(0),
        frame_crc: Some(0),
        payload_offset_bytes: 7,
    }
}

#[test]
fn routes_basic_profiles_by_channel_index() {
    let mut mono = header(CodingProfile::Basic);
    mono.channel_number_index = Some(0);
    mono.channel_configuration = Some(ChannelConfiguration::Mono);
    assert_eq!(
        GaDecodePlan::from_header(&mono).unwrap().format,
        GaCodecFormat::Mono
    );

    let mut stereo = header(CodingProfile::Basic);
    stereo.channel_number_index = Some(1);
    stereo.channel_configuration = Some(ChannelConfiguration::Stereo);
    assert_eq!(
        GaDecodePlan::from_header(&stereo).unwrap().format,
        GaCodecFormat::Stereo
    );

    let mut surround = header(CodingProfile::Basic);
    surround.channel_number_index = Some(0xA);
    surround.channel_configuration = Some(ChannelConfiguration::Surround7_1_4);
    let plan = GaDecodePlan::from_header(&surround).unwrap();
    assert_eq!(plan.format, GaCodecFormat::Multichannel);
    assert_eq!(plan.output_channels, Some(12));
}

#[test]
fn routes_object_and_mixed_profiles_without_guessing_payload_bits() {
    let mut objects = header(CodingProfile::ObjectMetadata);
    objects.sound_bed_type = Some(SoundBedType::ObjectsOnly);
    objects.object_channel_number = Some(1); // two objects
    let plan = GaDecodePlan::from_header(&objects).unwrap();
    assert_eq!(plan.format, GaCodecFormat::Stereo);
    assert_eq!(plan.output_channels, Some(2));

    let mut mixed = header(CodingProfile::ObjectMetadata);
    mixed.sound_bed_type = Some(SoundBedType::ChannelBedAndObjects);
    mixed.channel_number_index = Some(2);
    mixed.channel_configuration = Some(ChannelConfiguration::Surround5_1);
    mixed.object_channel_number = Some(1); // a bed of six channels and two objects
    let plan = GaDecodePlan::from_header(&mixed).unwrap();
    assert_eq!(plan.format, GaCodecFormat::Multichannel);
    assert_eq!(plan.output_channels, Some(8));
}

#[test]
fn routes_hoa_separately() {
    let mut hoa = header(CodingProfile::Hoa);
    hoa.hoa_order = Some(3);
    hoa.bitrate_index = Some(1);
    let plan = GaDecodePlan::from_header(&hoa).unwrap();
    assert_eq!(plan.format, GaCodecFormat::Hoa);
    assert_eq!(plan.output_channels, Some(16));
}

#[test]
fn coded_payload_honors_header_boundary() {
    let mut frame = header(CodingProfile::Basic);
    frame.payload_offset_bytes = 3;
    assert_eq!(coded_payload(&[1, 2, 3, 4, 5], &frame).unwrap(), &[4, 5]);
    frame.payload_offset_bytes = 6;
    assert_eq!(
        coded_payload(&[1, 2, 3], &frame),
        Err(CodecError::Truncated)
    );
}

#[test]
fn parses_three_channel_frame_in_normative_frame_major_order() {
    let mut writer = BitWriter::new();
    for _ in 0..3 {
        writer.zeros(50); // long transform, high precision shaping, two disabled filters
    }
    let coupling_start = writer.bit_pos;
    writer.push(0, 1);
    writer.push(0, 4);
    writer.push(21, 6);
    writer.push(21, 6);
    writer.push(22, 6);
    let coupling_end = writer.bit_pos;

    for channel_bytes in [9_usize, 9, 12] {
        writer.push(0, 1);
        writer.push(0, 7);
        writer.push(0, 3);
        writer.push(0, 8);
        writer.zeros(channel_bytes * 8);
    }

    let head = parse_multichannel_frame_head(
        &writer.bytes,
        0,
        3,
        false,
        None,
        None,
        &TnsCodebook::empty(),
    )
    .unwrap();
    assert_eq!(head.next_bit_offset, coupling_start);
    assert_eq!(head.couple_ch_num, 3);
    let multichannel = MultichannelSideInfo {
        next_bit_offset: coupling_end,
    };
    let remaining = multichannel_remaining_bits(&writer.bytes, &multichannel).unwrap();
    assert_eq!(remaining, 3 * 19 + 30 * 8 + 2);
    let info = parse_multichannel_frame_side_info(
        &writer.bytes,
        &head,
        NeuralNetworkType::Basic,
        None,
        multichannel,
        McBitAllocation {
            channel_bytes: vec![9, 9, 12],
            lfe_index: None,
            trailing_bits: 2,
        },
    )
    .unwrap();
    assert_eq!(info.channels.len(), 3);
    assert_eq!(info.allocation.channel_bytes, vec![9, 9, 12]);
    assert_eq!(info.channels[0].group.num_groups, 1);
    assert_eq!(info.channels[2].qc.channel_bytes, 12);
    assert_eq!(info.next_bit_offset, writer.bit_pos);
    assert_eq!(info.trailing_bits, 2); // the last byte holds two padding bits

    assert!(plan_basic_multichannel_pcm(&info, 3, Some(2)).is_err());
    let mut with_low_frequencies = info;
    with_low_frequencies.allocation.lfe_index = Some(2);
    let plan = plan_basic_multichannel_pcm(&with_low_frequencies, 3, Some(2)).unwrap();
    assert_eq!(plan.last(), Some(&SynthesisStage::Interleave));
    assert_eq!(
        plan.iter()
            .filter(|stage| matches!(stage, SynthesisStage::LfeRestriction { .. }))
            .count(),
        1
    );
}

#[test]
fn inverse_hoa_dmx_rotates_only_the_normative_low_bitrate_sfb_span() {
    let config = HoaConfig::for_order_bitrate(1, 96).unwrap();
    let mask = [true; HOA_SCALE_FACTOR_BANDS];
    let side = HoaSideInfo {
        scene_type: 0,
        spatial_analysis: false,
        vector_channels: 0,
        basis_indices: Vec::new(),
        groups: vec![HoaGroupSideInfo {
            channels: 4,
            channel_offset: 0,
            pairs: vec![HoaPairSideInfo {
                pair_index: 0,
                first: 0,
                second: 1,
                mode: HoaDmxMode::FullBand,
                sfb_mask: mask,
            }],
            ild_indices: vec![None; 4],
            group_bits_ratio: 0,
            channel_bits_ratio: vec![1; 4],
        }],
        next_bit_offset: 0,
    };
    let mut spectra = vec![[0.0_f32; BASE_OUTPUT_POSITIONS]; 4];
    spectra[0][0] = 1.0;
    spectra[1][0] = 1.0;
    spectra[0][800] = 3.0;
    spectra[1][800] = 5.0;

    for step in plan_inverse_hoa_dmx(&side, &config, spectra.len()).unwrap() {
        match step {
            HoaDownmixStep::Rotate {
                first,
                second,
                start,
                stop,
            } => {
                for line in start..stop {
                    let (mid, side) = (spectra[first][line], spectra[second][line]);
                    spectra[first][line] = (mid + side) * std::f32::consts::FRAC_1_SQRT_2;
                    spectra[second][line] = (mid - side) * std::f32::consts::FRAC_1_SQRT_2;
                }
            }
            HoaDownmixStep::Gain { .. } => panic!("no level was sent"),
        }
    }
    assert!((spectra[0][0] - std::f32::consts::SQRT_2).abs() < 1.0e-6);
    assert!(spectra[1][0].abs() < 1.0e-6);
    assert_eq!(spectra[0][800], 3.0);
    assert_eq!(spectra[1][800], 5.0);
}

#[test]
fn transport_frontend_rejects_truncated_payload_before_neural_decode() {
    assert!(plan_hoa_transport_frame(
        NeuralNetworkType::Basic,
        &[],
        0,
        1,
        96,
        None,
        &TnsCodebook::empty(),
    )
    .is_err());
}

#[test]
fn hoa_pair_numbers_keep_their_low_bits() {
    let mut config = HoaConfig::for_order_bitrate(1, 96).unwrap();
    config.default_spatial_analysis = false;
    config.groups.truncate(1);
    config.groups[0].pair_index_bits = 20;
    let channels = u32::from(config.groups[0].channels);
    let mut writer = BitWriter::new();
    writer.push(0, 4);
    writer.push(0, 1);
    writer.push(1, 4);
    writer.push(0x5_0001, 20);
    writer.push(0, 1);
    for _ in 0..channels {
        writer.push(30, 5);
    }
    writer.push(0, 4);
    for _ in 0..channels {
        writer.push(0, 4);
    }
    let side = parse_hoa_side_info_at(&writer.bytes, 0, &config).unwrap();
    assert_eq!(side.groups[0].pairs[0].pair_index, 1);
    assert_eq!(
        (side.groups[0].pairs[0].first, side.groups[0].pairs[0].second),
        (0, 2)
    );
    assert_eq!(side.next_bit_offset, writer.bit_pos);
}

#[test]
fn hoa_extension_is_looked_up_behind_each_core() {
    let parse = |payload: &[u8]| {
        parse_hoa_frame_side_info(
            payload,
            0,
            3,
            256,
            NeuralNetworkType::Basic,
            None,
            &TnsCodebook::empty(),
        )
    };
    // The cores of the first group, which has no extension, are cut off.
    assert_eq!(parse(&[]), Err(CodecError::Truncated));
    assert_eq!(parse(&[0; 5]), Err(CodecError::Truncated));
    // The core of the first channel with an extension is whole.
    assert_eq!(
        parse(&[0; 100]),
        Err(CodecError::Internal(
            "HOA group enables BWE but no HOA BWE configuration was selected"
        ))
    );
}

#[test]
fn mono_basic_frame_accounts_fixed_qc_bits_and_storage_tail() {
    let mut writer = BitWriter::new();
    writer.zeros(50); // long transform, high precision shaping, two disabled filters

    // The fixed fields of one group: 1 + 7 + 3 + 8 = 19 bits.
    writer.push(0, 1);
    writer.push(127, 7);
    writer.push(0, 3);
    writer.push(0, 8);
    writer.zeros(4 * 8); // four entropy coded bytes

    let info = parse_mono_frame_side_info(
        &writer.bytes,
        0,
        NeuralNetworkType::Basic,
        false,
        None,
        &TnsCodebook::empty(),
    )
    .unwrap();

    assert_eq!(info.channel.group.num_groups, 1);
    assert_eq!(info.channel.qc.channel_bytes, 4);
    assert_eq!(info.channel.qc.context_bitstream.bit_len, 0);
    assert_eq!(info.channel.qc.base_bitstream.bit_len, 32);
    assert_eq!(info.trailing_bits, writer.bytes.len() * 8 - writer.bit_pos);
    assert!(info.trailing_bits < 8);

    let (planned, _) = plan_mono_pcm(
        NeuralNetworkType::Basic,
        &writer.bytes,
        0,
        false,
        None,
        &TnsCodebook::empty(),
        MDCT_LINES,
    )
    .unwrap();
    assert_eq!(planned, info);
    let (planned, _) = plan_basic_mono_pre_fd(
        &writer.bytes,
        0,
        false,
        None,
        &TnsCodebook::empty(),
        MDCT_LINES,
    )
    .unwrap();
    assert_eq!(planned, info);
}

#[test]
fn mono_parser_rejects_frame_without_room_for_qc_header() {
    let payload = [0_u8; 7]; // 56 bits: only six are left behind the 50 bits of the core.
    assert!(parse_mono_frame_side_info(
        &payload,
        0,
        NeuralNetworkType::Basic,
        false,
        None,
        &TnsCodebook::empty(),
    )
    .is_err());
}

#[test]
fn noise_fill_uses_full_frame_without_bwe() {
    assert_eq!(noise_fill_line_count(None).unwrap(), BASE_OUTPUT_POSITIONS);
}

fn bwe_config(first_tile: Option<u16>) -> BweConfig {
    let mut scale_factor_bands = [None; 17];
    let mut target_tiles = [None; 9];
    let mut source_tiles = [None; 8];
    scale_factor_bands[0] = first_tile;
    scale_factor_bands[1] = Some(480);
    scale_factor_bands[2] = Some(608);
    target_tiles[0] = first_tile;
    target_tiles[1] = Some(608);
    source_tiles[0] = Some(64);
    BweConfig {
        band_count: 2,
        tile_count: 1,
        scale_factor_bands,
        target_tiles,
        source_tiles,
    }
}

#[test]
fn noise_fill_uses_first_target_tile_with_bwe() {
    let config = bwe_config(Some(352));
    let expected = usize::from(config.target_tiles[0].unwrap());
    assert_eq!(noise_fill_line_count(Some(config)).unwrap(), expected);
    assert!(noise_fill_line_count(Some(bwe_config(None))).is_err());
}

#[test]
fn basic_frontend_rejects_truncated_core_before_neural_work() {
    assert!(plan_basic_mono_pre_fd(
        &[],
        0,
        false,
        None,
        &TnsCodebook::empty(),
        BASE_OUTPUT_POSITIONS,
    )
    .is_err());
}

#[test]
fn low_complexity_frontend_rejects_truncated_core_before_neural_work() {
    assert!(plan_mono_pcm(
        NeuralNetworkType::LowComplexity,
        &[],
        0,
        false,
        None,
        &TnsCodebook::empty(),
        BASE_OUTPUT_POSITIONS,
    )
    .is_err());
}

#[test]
fn public_normative_frontend_checks_pcm_geometry_before_payload_decode() {
    assert!(plan_mono_pcm(
        NeuralNetworkType::Basic,
        &[],
        0,
        false,
        None,
        &TnsCodebook::empty(),
        8,
    )
    .is_err());
}

#[test]
fn low_complexity_frontend_uses_same_pcm_geometry_contract() {
    assert!(plan_mono_pcm(
        NeuralNetworkType::LowComplexity,
        &[],
        0,
        false,
        None,
        &TnsCodebook::empty(),
        8,
    )
    .is_err());
}

#[test]
fn rejects_wrong_output_geometry_before_parsing() {
    assert!(
        plan_basic_mono_pre_fd(&[], 0, false, None, &TnsCodebook::empty(), 8).is_err()
    );
}

#[test]
fn truncated_payload_fails_before_post_processing() {
    assert_eq!(
        plan_basic_mono_pre_fd(
            &[],
            0,
            false,
            None,
            &TnsCodebook::empty(),
            BASE_OUTPUT_POSITIONS
        ),
        Err(CodecError::Truncated)
    );
}

#[test]
fn complete_pcm_frontend_checks_geometry_before_codebooks() {
    let wrong_room = plan_mono_pcm(
        NeuralNetworkType::Basic,
        &[],
        0,
        false,
        None,
        &TnsCodebook::empty(),
        8,
    );
    assert!(wrong_room.is_err());
    assert_ne!(wrong_room, Err(CodecError::Truncated));
}

#[test]
fn complete_pcm_frontend_rejects_truncated_payload_before_table_lookup() {
    assert_eq!(
        plan_mono_pcm(
            NeuralNetworkType::Basic,
            &[],
            0,
            false,
            None,
            &TnsCodebook::empty(),
            BASE_OUTPUT_POSITIONS,
        ),
        Err(CodecError::Truncated)
    );
}

#[test]
fn lfe_restriction_preserves_exactly_first_32_mdct_entries() {
    let mut spectrum: [f32; BASE_OUTPUT_POSITIONS] =
        std::array::from_fn(|index| index as f32 + 1.0);
    let preserved = spectrum[..MC_LFE_RESERVED_LINES].to_vec();

    apply_multichannel_lfe_restriction(&mut spectrum, 0.0).unwrap();

    assert_eq!(&spectrum[..MC_LFE_RESERVED_LINES], preserved.as_slice());
    assert!(spectrum[MC_LFE_RESERVED_LINES..]
        .iter()
        .all(|&value| value == 0.0));
}

#[test]
fn lfe_restriction_rejects_non_normative_spectrum_geometry() {
    let mut spectrum = [1.0_f32; 32];
    assert!(apply_multichannel_lfe_restriction(&mut spectrum, 0.0).is_err());
}

#[test]
fn multichannel_frontend_rejects_invalid_output_geometry_before_parsing() {
    assert!(check_multichannel_geometry(6, Some(3), BASE_OUTPUT_POSITIONS).is_err());
    assert!(check_multichannel_geometry(6, Some(6), 6 * BASE_OUTPUT_POSITIONS).is_err());
    assert!(check_multichannel_geometry(6, Some(3), 6 * BASE_OUTPUT_POSITIONS).is_ok());
}

#[test]
fn interleaving_puts_channels_side_by_side() {
    let planar = vec![vec![1, 2, 3], vec![4, 5, 6]];
    assert_eq!(interleave_pcm(&planar, 3), [1, 4, 2, 5, 3, 6]);
}

#[test]
fn parses_non_mcr_ms_side_fields_exactly() {
    let mut writer = BitWriter::new();
    writer.push(1, 1);
    writer.push(9, 4);
    writer.push(5, 3);
    let side = parse_stereo_side_info_at(&writer.bytes, 0, 64, TransformType::Long).unwrap();
    assert_eq!(
        side.coupling,
        StereoCouplingSideInfo::Ms {
            is_ms: true,
            ild_q_idx: Some(9),
            bits_ratio: 5,
        }
    );
    assert_eq!(side.next_bit_offset, 8);
}

#[test]
fn mcr_side_uses_six_vector_pairs_and_window_dependent_width() {
    let mut short = BitWriter::new();
    for index in 0..MCR_VQ_VECTORS {
        short.push(index as u32, 8);
        short.push((index + 16) as u32, 8);
    }
    let info = parse_stereo_side_info_at(&short.bytes, 0, 32, TransformType::Short).unwrap();
    let StereoCouplingSideInfo::Mcr {
        vq_bits,
        even_vq_indices,
        odd_vq_indices,
        ..
    } = info.coupling
    else {
        panic!("expected rotation side information");
    };
    assert_eq!(vq_bits, 8);
    assert_eq!(even_vq_indices, [0, 1, 2, 3, 4, 5]);
    assert_eq!(odd_vq_indices, [16, 17, 18, 19, 20, 21]);
    assert_eq!(info.next_bit_offset, 96);
}

fn one_group() -> GroupSideInfo {
    GroupSideInfo {
        num_groups: 1,
        group_indicator: [false; 8],
        next_bit_offset: 0,
    }
}

#[test]
fn stereo_ms_allocation_preserves_eighth_group_rounding() {
    let group = one_group();
    let (bytes, tail) = allocate_stereo_ms_bytes(
        38 + 16 * 8 + 6,
        NeuralNetworkType::Basic,
        [group, group],
        3,
    )
    .unwrap();
    assert_eq!(bytes, [6, 10]);
    assert_eq!(tail, 6);
}

#[test]
fn mcr_allocation_reserves_only_one_qc_header() {
    let (bytes, tail) =
        allocate_stereo_mcr_bytes(19 + 13 * 8 + 5, NeuralNetworkType::Basic, one_group()).unwrap();
    assert_eq!(bytes, 13);
    assert_eq!(tail, 5);
}

#[test]
fn parses_complete_basic_ms_frame_and_qc_ranges() {
    let mut writer = BitWriter::new();
    writer.zeros(50);
    writer.zeros(50);
    writer.push(1, 1);
    writer.push(8, 4);
    writer.push(3, 3);

    writer.push(0, 1);
    writer.push(127, 7);
    writer.push(0, 3);
    writer.push(0, 8);
    writer.zeros(6 * 8);

    writer.push(0, 1);
    writer.push(127, 7);
    writer.push(0, 3);
    writer.push(0, 8);
    writer.zeros(10 * 8);

    let frame = parse_stereo_frame_side_info(
        &writer.bytes,
        0,
        NeuralNetworkType::Basic,
        false,
        None,
        64,
        &TnsCodebook::empty(),
    )
    .unwrap();
    assert_eq!(frame.channel_bytes, [6, 10]);
    assert_eq!(frame.channels[0].qc.channel_bytes, 6);
    assert_eq!(frame.channels[1].qc.channel_bytes, 10);
    assert_eq!(frame.next_bit_offset, writer.bit_pos);
    assert_eq!(frame.trailing_bits, writer.bytes.len() * 8 - writer.bit_pos);
    assert!(frame.trailing_bits < 8);

    let (side, plan) = plan_basic_stereo_pcm(
        &writer.bytes,
        0,
        false,
        None,
        64,
        &TnsCodebook::empty(),
        STEREO_PCM_SAMPLES,
    )
    .unwrap();
    assert_eq!(side, frame);
    assert_eq!(plan.last(), Some(&SynthesisStage::Interleave));
    assert!(plan.contains(&SynthesisStage::StereoUpmix));
}

#[test]
fn parses_complete_mcr_frame_with_one_coded_qc_channel() {
    let mut writer = BitWriter::new();
    writer.zeros(50);
    writer.zeros(50);
    for index in 0..MCR_VQ_VECTORS {
        writer.push(index as u32, 9);
        writer.push((index + 16) as u32, 9);
    }
    writer.push(0, 1);
    writer.push(127, 7);
    writer.push(0, 3);
    writer.push(0, 8);
    writer.zeros(4 * 8);

    let frame = parse_stereo_mcr_frame_side_info(
        &writer.bytes,
        0,
        NeuralNetworkType::Basic,
        false,
        None,
        32,
        &TnsCodebook::empty(),
    )
    .unwrap();
    assert_eq!(frame.channel_bytes, [4, 0]);
    assert_eq!(frame.left.qc.channel_bytes, 4);
    assert_eq!(frame.next_bit_offset, writer.bit_pos);
    assert_eq!(frame.trailing_bits, writer.bytes.len() * 8 - writer.bit_pos);
    assert!(matches!(
        frame.stereo.coupling,
        StereoCouplingSideInfo::Mcr { .. }
    ));
}

#[test]
fn rejects_non_interleaved_output_geometry_before_parsing() {
    assert!(plan_basic_stereo_pcm(
        &[],
        0,
        false,
        None,
        64,
        &TnsCodebook::empty(),
        BASE_OUTPUT_POSITIONS,
    )
    .is_err());
}

#[test]
fn truncated_payload_fails_before_neural_or_post_processing() {
    assert_eq!(
        plan_basic_stereo_pcm(
            &[],
            0,
            false,
            None,
            64,
            &TnsCodebook::empty(),
            STEREO_PCM_SAMPLES,
        ),
        Err(CodecError::Truncated)
    );
}

#[test]
fn non_short_windows_consume_no_bits() {
    for transform in [
        TransformType::Long,
        TransformType::CutIn,
        TransformType::CutOut,
    ] {
        let info = parse_group_bits_at(&[], 13, transform).unwrap();
        assert_eq!(info.num_groups, 1);
        assert_eq!(info.group_indicator, [false; 8]);
        assert_eq!(info.next_bit_offset, 13);
    }
}

#[test]
fn short_single_group_consumes_one_bit() {
    let info = parse_group_bits_at(&[0], 0, TransformType::Short).unwrap();
    assert_eq!(info.num_groups, 1);
    assert_eq!(info.next_bit_offset, 1);
    assert_eq!(info.group_indicator, [false; 8]);
}

#[test]
fn short_two_groups_consumes_all_eight_indicators() {
    // Two groups, and the eight indicators 10110010.
    let bytes = [0b1_1011001, 0b0_0000000];
    let info = parse_group_bits_at(&bytes, 0, TransformType::Short).unwrap();
    assert_eq!(info.num_groups, 2);
    assert_eq!(
        info.group_indicator,
        [true, false, true, true, false, false, true, false]
    );
    assert_eq!(info.next_bit_offset, 9);
}

#[test]
fn short_frame_rejects_truncated_indicator_vector() {
    assert_eq!(
        parse_group_bits_at(&[0b1000_0000], 0, TransformType::Short),
        Err(CodecError::Truncated)
    );
}

#[test]
fn single_group_inverse_mapping_is_bit_exact_identity() {
    let input: [f32; MDCT_LINES] = std::array::from_fn(|index| index as f32 - 512.0);
    let mut spectrum = input;
    let mut workspace = SpectrumDegroupWorkspace::new();
    inverse_group_spectrum(
        TransformType::Short,
        one_group(),
        &mut spectrum,
        &mut workspace,
    )
    .unwrap();
    assert_eq!(spectrum, input);
}

#[test]
fn two_group_inverse_mapping_restores_temporal_block_order() {
    let indicators = [true, true, true, false, false, false, true, true];
    let group = GroupSideInfo {
        num_groups: 2,
        group_indicator: indicators,
        next_bit_offset: 0,
    };
    let transient_blocks = 3usize;
    let other_blocks = 5usize;
    let mut grouped = [0.0_f32; MDCT_LINES];

    let mut transient_rank = 0usize;
    let mut other_rank = 0usize;
    for block in 0..SHORT_BLOCKS {
        let (start, width, rank) = if indicators[block] {
            let rank = other_rank;
            other_rank += 1;
            (transient_blocks * SHORT_LINES, other_blocks, rank)
        } else {
            let rank = transient_rank;
            transient_rank += 1;
            (0, transient_blocks, rank)
        };
        for line in 0..SHORT_LINES {
            grouped[start + rank + width * line] = (block * 1000 + line) as f32;
        }
    }

    let mut workspace = SpectrumDegroupWorkspace::new();
    inverse_group_spectrum(TransformType::Short, group, &mut grouped, &mut workspace).unwrap();
    for block in 0..SHORT_BLOCKS {
        for line in 0..SHORT_LINES {
            assert_eq!(
                grouped[block + SHORT_BLOCKS * line],
                (block * 1000 + line) as f32
            );
        }
    }
}

#[test]
fn malformed_two_group_vector_is_rejected() {
    let group = GroupSideInfo {
        num_groups: 2,
        group_indicator: [false; SHORT_BLOCKS],
        next_bit_offset: 0,
    };
    let mut spectrum = [0.0_f32; MDCT_LINES];
    let mut workspace = SpectrumDegroupWorkspace::new();
    assert!(
        inverse_group_spectrum(TransformType::Short, group, &mut spectrum, &mut workspace).is_err()
    );
}

#[test]
fn hoa_transport_configuration_matches_normative_order_three_rows() {
    let low = HoaConfig::for_order_bitrate(3, 256).unwrap();
    assert_eq!(low.transport_channels, 8);
    assert_eq!(low.output_channels, 16);
    assert_eq!(low.groups[0].channels, 2);
    assert_eq!(low.groups[1].channels, 6);
    assert!(low.default_spatial_analysis);
    assert!(!low.groups[0].bwe_enabled);
    assert!(low.groups[1].bwe_enabled);

    let high = HoaConfig::for_order_bitrate(3, 896).unwrap();
    assert_eq!(high.transport_channels, 16);
    assert_eq!(high.groups.len(), 1);
    assert!(!high.default_spatial_analysis);
}

#[test]
fn hoa_pair_order_follows_reference_column_walk() {
    assert_eq!(resolve_hoa_pair_index(4, 0).unwrap(), (0, 1));
    assert_eq!(resolve_hoa_pair_index(4, 1).unwrap(), (0, 2));
    assert_eq!(resolve_hoa_pair_index(4, 2).unwrap(), (1, 2));
    assert_eq!(resolve_hoa_pair_index(4, 3).unwrap(), (0, 3));
    assert_eq!(resolve_hoa_pair_index(4, 5).unwrap(), (2, 3));
    assert!(resolve_hoa_pair_index(4, 6).is_err());
}

#[test]
fn hoa_two_group_allocation_conserves_all_whole_entropy_bytes() {
    let config = HoaConfig::for_order_bitrate(3, 256).unwrap();
    let groups = vec![one_group(); 8];
    let side = HoaSideInfo {
        scene_type: 0,
        spatial_analysis: false,
        vector_channels: 2,
        basis_indices: vec![0, 1],
        groups: vec![
            HoaGroupSideInfo {
                channels: 2,
                channel_offset: 0,
                pairs: Vec::new(),
                ild_indices: vec![None; 2],
                group_bits_ratio: 4,
                channel_bits_ratio: vec![1, 1],
            },
            HoaGroupSideInfo {
                channels: 6,
                channel_offset: 2,
                pairs: Vec::new(),
                ild_indices: vec![None; 6],
                group_bits_ratio: 0,
                channel_bits_ratio: vec![1; 6],
            },
        ],
        next_bit_offset: 0,
    };
    let fixed = groups
        .iter()
        .map(|group| qc_fixed_header_bits(NeuralNetworkType::Basic, group.num_groups).unwrap())
        .sum::<usize>();
    let allocation = allocate_hoa_bytes(
        fixed + 100 * 8 + 3,
        NeuralNetworkType::Basic,
        &groups,
        &config,
        &side,
    )
    .unwrap();
    assert_eq!(allocation.channel_bytes.iter().sum::<usize>(), 100);
    assert_eq!(allocation.trailing_bits, 3);
    assert_eq!(
        allocation.channel_bytes[0] + allocation.channel_bytes[1],
        25
    );
}

#[test]
fn hoa_pairs_of_a_group_are_numbered_once() {
    for channels in 2..=16_u8 {
        let pairs = u16::from(channels) * (u16::from(channels) - 1) / 2;
        let mut seen = Vec::new();
        for index in 0..pairs {
            let pair = resolve_hoa_pair_index(channels, index).unwrap();
            assert!(pair.0 < pair.1 && pair.1 < channels);
            assert!(!seen.contains(&pair));
            seen.push(pair);
        }
        assert!(resolve_hoa_pair_index(channels, pairs).is_err());
        assert!(1_u32 << hoa_pair_index_bits(channels).unwrap() >= u32::from(pairs));
    }
}

#[test]
fn hoa_noise_stops_at_the_core_or_the_extension() {
    let config = HoaConfig::for_order_bitrate(3, 256).unwrap();
    assert!(hoa_noise_line_count(&config, None, 0).is_ok());
    assert!(hoa_noise_line_count(&config, None, 16).is_err());
}

#[test]
fn bits_are_read_from_the_most_significant() {
    let bytes = [0b1010_0101, 0xff, 0x00];
    let mut reader = BitReader::new(&bytes);
    assert!(reader.read_bit().unwrap());
    assert_eq!(reader.read_bits(3).unwrap(), 0b010);
    assert_eq!(reader.peek_bits(4), Some(0b0101));
    assert_eq!(reader.position_bits(), 4);
    reader.align_byte();
    assert_eq!(reader.position_bits(), 8);
    assert_eq!(reader.read_bits(16).unwrap(), 0xff00);
    assert_eq!(reader.remaining_bits(), 0);
    assert_eq!(reader.read_bits(1), Err(CodecError::Truncated));
    assert_eq!(reader.peek_bits(1), None);
}

#[test]
fn noise_shaping_codes_are_looked_up() {
    let code = |code, width, value| TnsCode { code, width, value };
    let codebook = TnsCodebook {
        tables: vec![vec![code(0, 1, 3), code(0b10, 2, 7), code(0b11, 2, 12)]; 8],
    };
    let mut writer = BitWriter::new();
    writer.push(0, 2);
    writer.zeros(46); // high precision shaping
    writer.push(1, 1); // first filter
    writer.push(1, 3); // two coefficients
    writer.push(0b10, 2);
    writer.push(0, 1);
    writer.push(0, 1); // no second filter
    let prefix = parse_core_side_prefix_at(&writer.bytes, 0, false, &codebook).unwrap();
    assert_eq!(prefix.tns.filters[0].order, 2);
    assert_eq!(prefix.tns.filters[0].coefficient_indices[..2], [7, 3]);
    assert_eq!(prefix.tns.filters[1].order, 0);
    assert_eq!(prefix.next_bit_offset, writer.bit_pos);
}

#[test]
fn extension_blocks_list_envelopes_and_levels() {
    let mut writer = BitWriter::new();
    writer.push(100, 7);
    writer.push(5, 7);
    writer.push(0b11, 2);
    let side = bwe_config(Some(352)).parse_side_info(&writer.bytes, 0).unwrap();
    assert_eq!(side.envelope_indices[..2], [100, 5]);
    assert_eq!(side.whitening[0], WhiteningLevel::High);
    assert_eq!(side.next_bit_offset, 16);
    assert_eq!(
        bwe_config(Some(352)).parse_side_info(&writer.bytes[..1], 0),
        Err(CodecError::Truncated)
    );
}

#[test]
fn quantizer_blocks_find_their_streams() {
    let mut writer = BitWriter::new();
    writer.push(1, 1);
    writer.push(99, 7);
    writer.push(6, 3);
    writer.push(2, 8);
    writer.zeros(5 * 8);
    let qc =
        parse_qc_side_info_at(&writer.bytes, 0, NeuralNetworkType::Basic, 1, 5).unwrap();
    assert_eq!(qc.is_feat_amplified, Some(true));
    assert_eq!(qc.scale_q_idx, Some(99));
    assert_eq!(qc.nf_param_q_idx, [Some(6), None]);
    assert_eq!(qc.context_bitstream.bit_offset, 19);
    assert_eq!(qc.context_bitstream.bit_len, 16);
    assert_eq!(qc.base_bitstream.bit_offset, 35);
    assert_eq!(qc.base_bitstream.bit_len, 24);
    assert_eq!(qc.next_bit_offset, 59);
    assert!(parse_qc_side_info_at(&writer.bytes, 0, NeuralNetworkType::Basic, 1, 1).is_err());
    assert!(qc_fixed_header_bits(NeuralNetworkType::Reserved(3), 1).is_err());
}
