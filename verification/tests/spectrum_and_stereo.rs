use audio_codec_avs3::bitreader::BitReader;
use audio_codec_avs3::bwe::{BweConfig, WhiteningLevel};
use audio_codec_avs3::config::ChannelConfiguration;
use audio_codec_avs3::core_side::{
    TnsCodebook, TnsFilterSideInfo, TnsSideInfo, TransformType,
};
use audio_codec_avs3::engine::bwe::StereoBweBands;
use audio_codec_avs3::engine::core_plan::CoreStage;
use audio_codec_avs3::engine::core_side::{noise_filling_of, WindowGrouping};
use audio_codec_avs3::engine::decoder::{DecodeError, DecoderConfig};
use audio_codec_avs3::engine::header::{
    AudioCodecId, BitDepth, CodecProfile, FrameHeader, NnType, SoundBedType,
};
use audio_codec_avs3::engine::metadata::MetadataError;
use audio_codec_avs3::engine::mix_backend::{MixCoreKind, MixDecoderBackend};
use audio_codec_avs3::engine::model::AVS3_FEATURE_DIMENSIONS;
use audio_codec_avs3::engine::mono_backend::MonoDecoderBackend;
use audio_codec_avs3::engine::mono_core::{MonoCoreDecodeError, MonoCoreDecoder};
use audio_codec_avs3::engine::neural_qc::{NeuralQcError, NoiseGroup};
use audio_codec_avs3::engine::random::Avs3Random;
use audio_codec_avs3::engine::spectrum::{SpectrumReorder, SpectrumReorderError};
use audio_codec_avs3::engine::stereo_backend::StereoDecoderBackend;
use audio_codec_avs3::engine::stereo_core::{
    check_mid_side, StereoCoreDecodeError, StereoCoreDecoder, STEREO_FRAME_SAMPLES,
};
use audio_codec_avs3::engine::stereo_side::{
    stereo_bytes_allocation, CoreBitstreamError, McrError, McrSideInfo, StereoCodingMode,
    StereoError, StereoSideInfo, StereoSideInfoDecoder,
};
use audio_codec_avs3::engine::tns::{plan_tns, TnsStep, TnsSynthesisError};
use audio_codec_avs3::error::CodecError;
use audio_codec_avs3::group::GroupSideInfo;
use audio_codec_avs3::qc::{BitRange, QcSideInfo};

struct BitWriter {
    bits: Vec<bool>,
}

impl BitWriter {
    fn new() -> Self {
        BitWriter { bits: Vec::new() }
    }

    fn write(&mut self, value: u64, width: u32) {
        for shift in (0..width).rev() {
            self.bits.push((value >> shift) & 1 == 1);
        }
    }

    fn bit_len(&self) -> usize {
        self.bits.len()
    }

    fn into_bytes(self) -> Vec<u8> {
        self.bits
            .chunks(8)
            .map(|chunk| {
                chunk
                    .iter()
                    .enumerate()
                    .fold(0_u8, |byte, (index, &bit)| byte | (u8::from(bit) << (7 - index)))
            })
            .collect()
    }
}

fn two_group_info() -> WindowGrouping {
    WindowGrouping::from_group(&GroupSideInfo {
        num_groups: 2,
        group_indicator: TWO_GROUPS,
        next_bit_offset: 0,
    })
}

fn deterministic_spectrum(seed: u32) -> [f32; AVS3_FEATURE_DIMENSIONS] {
    let mut spectrum = [0.0_f32; AVS3_FEATURE_DIMENSIONS];
    let mut state = seed;
    for value in &mut spectrum {
        state ^= state << 13;
        state ^= state >> 17;
        state ^= state << 5;
        let bits = ((state & 1) << 31) | 0x3f00_0000 | ((state >> 1) & 0x007f_ffff);
        *value = f32::from_bits(bits);
    }
    spectrum
}

fn fingerprint(values: &[f32]) -> u64 {
    values
        .iter()
        .fold(0xcbf2_9ce4_8422_2325_u64, |hash, value| {
            (hash ^ u64::from(value.to_bits())).wrapping_mul(0x100_0000_01b3)
        })
}

#[test]
fn two_group_degrouping_matches_c() {
    let mut spectrum = deterministic_spectrum(0xa511_e9b3);
    SpectrumReorder::new()
        .degroup(two_group_info(), TransformType::Short, &mut spectrum)
        .unwrap();
    assert_eq!(fingerprint(&spectrum), 0x178e_f528_bbae_0a4e);
    let positions = [
        0, 1, 2, 3, 7, 8, 127, 128, 255, 256, 511, 512, 767, 768, 1023,
    ];
    assert_eq!(
        positions.map(|index| spectrum[index].to_bits()),
        [
            0x3f6f_b8d0,
            0xbf41_293a,
            0xbf2a_6979,
            0x3f09_1c62,
            0xbf43_1041,
            0x3f2c_579b,
            0x3f10_d5a5,
            0xbf37_3870,
            0x3f04_1399,
            0x3f1f_b8b8,
            0xbf2d_4fe4,
            0xbf03_e3c8,
            0xbf53_ef09,
            0xbf11_6ce1,
            0x3f01_e60b,
        ]
    );
}

#[test]
fn one_group_short_frame_is_unchanged_like_c() {
    let mut spectrum = deterministic_spectrum(0xa511_e9b3);
    let original = spectrum;
    SpectrumReorder::new()
        .degroup(WindowGrouping::single(), TransformType::Short, &mut spectrum)
        .unwrap();
    assert_eq!(spectrum, original);
    assert_eq!(fingerprint(&spectrum), 0x52fa_b9ee_28e6_3574);
}

#[test]
fn interleave_and_deinterleave_are_exact_inverses() {
    let original = deterministic_spectrum(0xa511_e9b3);
    let mut spectrum = original;
    let mut reorder = SpectrumReorder::new();
    reorder.deinterleave(&mut spectrum).unwrap();
    assert_ne!(spectrum, original);
    reorder.interleave(&mut spectrum).unwrap();
    assert_eq!(spectrum, original);
}

#[test]
fn reordering_needs_a_whole_frame() {
    let mut short = [1_u8; 3];
    let error = SpectrumReorderError::InvalidSpectrumLength {
        expected: AVS3_FEATURE_DIMENSIONS,
        actual: 3,
    };
    let mut reorder = SpectrumReorder::new();
    assert_eq!(reorder.interleave(&mut short), Err(error));
    assert_eq!(reorder.deinterleave(&mut short), Err(error));
    assert_eq!(
        reorder.degroup(two_group_info(), TransformType::Short, &mut short),
        Err(error)
    );
    assert_eq!(short, [1; 3]);
}

fn bands() -> StereoBweBands {
    let mut middle = [None; 17];
    let mut high = [None; 17];
    for (slot, edge) in middle.iter_mut().zip([544_u16, 608, 672, 752, 832]) {
        *slot = Some(edge);
    }
    for (slot, edge) in high.iter_mut().zip([672_u16, 752, 832]) {
        *slot = Some(edge);
    }
    StereoBweBands {
        middle_limit: 96_000,
        middle_count: 4,
        middle,
        high_count: 2,
        high,
    }
}

fn side_decoder() -> StereoSideInfoDecoder {
    StereoSideInfoDecoder::new(TnsCodebook::empty(), bands())
}

fn listed(edges: &[Option<u16>]) -> Vec<u16> {
    edges.iter().flatten().copied().collect()
}

const FRAME_LEN: usize = 1_024;

const TWO_GROUPS: [bool; 8] = [false, false, false, true, true, true, true, true];

fn stereo_header(bitrate: u32, payload_bits: usize) -> FrameHeader {
    FrameHeader {
        codec_id: AudioCodecId::Avs3P3,
        nn_type: NnType::Main,
        profile: CodecProfile::ChannelBased,
        sample_rate: 48_000,
        bit_depth: BitDepth::Sixteen,
        channel_config: Some(ChannelConfiguration::Stereo),
        sound_bed_type: None,
        hoa_order: None,
        objects: 0,
        bed_channels: 2,
        channels: 2,
        has_lfe: false,
        bed_bitrate: Some(bitrate),
        object_bitrate: None,
        bitrate,
        crc: 0,
        header_len: 7,
        payload_bits,
        payload_len: payload_bits.div_ceil(8),
        frame_len: 7 + payload_bits.div_ceil(8),
        samples_per_channel: FRAME_LEN as u32,
    }
}

fn write_lbr_core_prefix(
    writer: &mut BitWriter,
    transform: u64,
    lsf: [u64; 5],
    envelopes: [u64; 6],
    whitening: [WhiteningLevel; 3],
) {
    writer.write(transform, 2);
    for (value, width) in lsf.into_iter().zip([8, 8, 7, 7, 6]) {
        writer.write(value, width);
    }
    writer.write(0, 1);
    writer.write(0, 1);
    for value in envelopes {
        writer.write(value, 7);
    }
    for level in whitening {
        match level {
            WhiteningLevel::Off => writer.write(0, 1),
            WhiteningLevel::Mid => writer.write(0b10, 2),
            WhiteningLevel::High => writer.write(0b11, 2),
        }
    }
}

fn ordinary_stereo_payload() -> (FrameHeader, Vec<u8>, [usize; 2], usize) {
    let payload_bits = 1_309;
    let header = stereo_header(64_000, payload_bits);
    let mut writer = BitWriter::new();
    write_lbr_core_prefix(
        &mut writer,
        1,
        [3, 5, 7, 9, 11],
        [1, 2, 3, 4, 5, 6],
        [WhiteningLevel::Off, WhiteningLevel::Mid, WhiteningLevel::High],
    );
    write_lbr_core_prefix(
        &mut writer,
        2,
        [17, 19, 21, 23, 25],
        [127, 100, 80, 60, 40, 20],
        [WhiteningLevel::High, WhiteningLevel::Off, WhiteningLevel::Mid],
    );

    writer.write(1, 1);
    for indicator in [0, 0, 0, 1, 1, 1, 1, 1] {
        writer.write(indicator, 1);
    }
    writer.write(1, 1);
    writer.write(5, 4);
    writer.write(4, 3);

    let mode_end = writer.bit_len();
    let reserved_qc_bits = 22 + 19;
    let entropy_bytes =
        stereo_bytes_allocation(payload_bits - mode_end - reserved_qc_bits, 4).unwrap();
    assert_eq!(mode_end, 191);
    assert_eq!(entropy_bytes, [64, 70]);

    writer.write(1, 1);
    writer.write(37, 7);
    writer.write(3, 3);
    writer.write(7, 3);
    let left_context: [u8; 6] = [0x84, 0xa0, 0xd8, 0x95, 0xb9, 0xa7];
    writer.write(left_context.len() as u64, 8);
    for byte in left_context {
        writer.write(u64::from(byte), 8);
    }
    for index in left_context.len()..entropy_bytes[0] {
        writer.write((index & 0xff) as u64, 8);
    }

    writer.write(0, 1);
    writer.write(91, 7);
    writer.write(5, 3);
    let right_context: [u8; 2] = [0x12, 0x34];
    writer.write(right_context.len() as u64, 8);
    for byte in right_context {
        writer.write(u64::from(byte), 8);
    }
    for index in right_context.len()..entropy_bytes[1] {
        writer.write(((index * 3) & 0xff) as u64, 8);
    }

    let consumed_bits = writer.bit_len();
    assert_eq!(consumed_bits, 1_304);
    assert!(payload_bits - consumed_bits < 8);
    let mut payload = writer.into_bytes();
    payload.resize(payload_bits.div_ceil(8), 0);
    (header, payload, entropy_bytes, consumed_bits)
}

fn mcr_stereo_payload() -> (FrameHeader, Vec<u8>, [[u16; 6]; 2], usize) {
    let payload_bits = 626;
    let header = stereo_header(32_000, payload_bits);
    let mut writer = BitWriter::new();
    write_lbr_core_prefix(
        &mut writer,
        1,
        [3, 5, 7, 9, 11],
        [1, 2, 3, 4, 5, 6],
        [WhiteningLevel::Off, WhiteningLevel::Mid, WhiteningLevel::High],
    );
    write_lbr_core_prefix(
        &mut writer,
        1,
        [17, 19, 21, 23, 25],
        [7, 8, 9, 10, 11, 12],
        [WhiteningLevel::High, WhiteningLevel::Off, WhiteningLevel::Mid],
    );

    writer.write(1, 1);
    for indicator in [0, 0, 0, 1, 1, 1, 1, 1] {
        writer.write(indicator, 1);
    }
    let indexes = [[1_u16, 2, 3, 4, 5, 255], [255_u16, 5, 4, 3, 2, 1]];
    for subvector in 0..6 {
        for subspectrum in &indexes {
            writer.write(u64::from(subspectrum[subvector]), 8);
        }
    }
    assert_eq!(writer.bit_len(), 279);

    let reserved_qc_bits = 22;
    let entropy_bytes = (payload_bits - writer.bit_len() - reserved_qc_bits) / 8;
    assert_eq!(entropy_bytes, 40);
    writer.write(1, 1);
    writer.write(37, 7);
    writer.write(3, 3);
    writer.write(7, 3);
    let context: [u8; 6] = [0x84, 0xa0, 0xd8, 0x95, 0xb9, 0xa7];
    writer.write(context.len() as u64, 8);
    for byte in context {
        writer.write(u64::from(byte), 8);
    }
    for index in context.len()..entropy_bytes {
        writer.write((index & 0xff) as u64, 8);
    }

    let consumed_bits = writer.bit_len();
    assert_eq!(consumed_bits, 621);
    let mut payload = writer.into_bytes();
    payload.resize(payload_bits.div_ceil(8), 0);
    (header, payload, indexes, consumed_bits)
}

#[test]
fn selects_mcr_at_the_reference_threshold() {
    assert_eq!(StereoCodingMode::for_bitrate(24_000), StereoCodingMode::Mcr);
    assert_eq!(StereoCodingMode::for_bitrate(32_000), StereoCodingMode::Mcr);
    assert_eq!(
        StereoCodingMode::for_bitrate(32_001),
        StereoCodingMode::MidSide
    );
}

#[test]
fn stereo_bwe_configs_match_reference_tables() {
    let low = BweConfig::for_stereo_bitrate(64_000, &bands()).unwrap();
    assert_eq!(listed(&low.target_tiles), [352, 480, 608, 768]);
    assert_eq!(listed(&low.source_tiles), [64, 96, 144]);
    assert_eq!(
        listed(&low.scale_factor_bands),
        [352, 416, 480, 544, 608, 672, 768]
    );

    let middle = BweConfig::for_stereo_bitrate(80_000, &bands()).unwrap();
    assert_eq!(listed(&middle.target_tiles), [544, 672, 832]);
    assert_eq!(listed(&middle.source_tiles), [144, 192]);

    let high = BweConfig::for_stereo_bitrate(128_000, &bands()).unwrap();
    assert_eq!(listed(&high.target_tiles), [672, 832]);
    assert_eq!(listed(&high.source_tiles), [192]);
    assert_eq!(BweConfig::for_stereo_bitrate(144_000, &bands()), None);
}

fn lsf_indexes(indices: &[Option<u8>]) -> Vec<u8> {
    indices.iter().flatten().copied().collect()
}

#[test]
fn parses_complete_ordinary_stereo_side_information_in_c_wire_order() {
    let (header, payload, expected_entropy_bytes, consumed_bits) = ordinary_stereo_payload();
    let decoder = side_decoder();
    let parsed = decoder.parse(&payload, &header).unwrap();
    assert_eq!(parsed.entropy_bytes, expected_entropy_bytes);
    assert_eq!(parsed.consumed_bits, consumed_bits);
    assert_eq!(parsed.padding_bits, header.payload_bits - consumed_bits);

    let [left, right] = parsed.cores;
    assert_eq!(left.core.transform_type, TransformType::Short);
    assert!(left.core.fd_shaping.low_bitrate_precision);
    assert_eq!(
        lsf_indexes(&left.core.fd_shaping.lsf_vq_indices),
        [3, 5, 7, 9, 11]
    );
    assert_eq!(left.grouping.count(), 2);
    assert_eq!(
        left.bwe.unwrap().envelope_indices[..6],
        [1, 2, 3, 4, 5, 6]
    );
    assert_eq!(
        left.bwe.unwrap().whitening[..3],
        [WhiteningLevel::Off, WhiteningLevel::Mid, WhiteningLevel::High]
    );
    assert_eq!(right.core.transform_type, TransformType::CutIn);
    assert_eq!(
        lsf_indexes(&right.core.fd_shaping.lsf_vq_indices),
        [17, 19, 21, 23, 25]
    );
    assert_eq!(right.grouping.count(), 1);

    let stereo = parsed.stereo;
    assert!(stereo.mid_side());
    assert_eq!(stereo.ild(), Some(5));
    assert_eq!(stereo.bits_ratio(), 4);

    let (left_qc, right_qc) = &parsed.neural_qc;
    assert_eq!(
        left_qc.bitstreams().unwrap().context(),
        [0x84, 0xa0, 0xd8, 0x95, 0xb9, 0xa7]
    );
    assert_eq!(
        left_qc.bitstreams().unwrap().base().len(),
        expected_entropy_bytes[0] - 6
    );
    assert_eq!(right_qc.bitstreams().unwrap().context(), [0x12, 0x34]);
    assert_eq!(
        right_qc.bitstreams().unwrap().base().len(),
        expected_entropy_bytes[1] - 2
    );
}

#[test]
fn complete_stereo_parser_rejects_truncation_and_wrong_coding_mode() {
    let (header, payload, _, _) = ordinary_stereo_payload();
    let decoder = side_decoder();
    for end in 0..payload.len() {
        assert!(
            decoder.parse(&payload[..end], &header).is_err(),
            "prefix {end}"
        );
    }

    let mcr_header = stereo_header(32_000, header.payload_bits);
    assert_eq!(
        decoder.parse(&payload, &mcr_header),
        Err(StereoError::UnexpectedCodingMode {
            expected: StereoCodingMode::MidSide,
            actual: StereoCodingMode::Mcr,
            bitrate: 32_000,
        })
    );
    assert!(matches!(
        decoder.parse_mcr(&payload, &header),
        Err(StereoError::UnexpectedCodingMode {
            expected: StereoCodingMode::Mcr,
            actual: StereoCodingMode::MidSide,
            bitrate: 64_000,
        })
    ));
}

#[test]
fn parses_complete_short_mcr_side_information_in_c_wire_order() {
    let (header, payload, expected_indexes, consumed_bits) = mcr_stereo_payload();
    let decoder = side_decoder();
    let parsed = decoder.parse_mcr(&payload, &header).unwrap();

    assert_eq!(parsed.entropy_bytes, 40);
    assert_eq!(parsed.consumed_bits, consumed_bits);
    assert_eq!(parsed.padding_bits, 5);
    assert_eq!(parsed.mcr.vq_indexes(), &expected_indexes);
    assert!(parsed.mcr.short_window());

    let [left, right] = parsed.cores;
    assert_eq!(left.core.transform_type, TransformType::Short);
    assert_eq!(left.grouping.count(), 2);
    assert_eq!(right.core.transform_type, TransformType::Short);
    assert_eq!(right.grouping.count(), 1);
    assert_eq!(right.grouping.indicator(), [NoiseGroup::Transient; 8]);
    assert_eq!(
        lsf_indexes(&right.core.fd_shaping.lsf_vq_indices),
        [17, 19, 21, 23, 25]
    );
    assert_eq!(
        parsed.neural_qc.bitstreams().unwrap().context(),
        [0x84, 0xa0, 0xd8, 0x95, 0xb9, 0xa7]
    );
    assert_eq!(parsed.neural_qc.bitstreams().unwrap().base().len(), 34);
}

#[test]
fn parses_both_ordinary_stereo_side_bit_shapes() {
    let mut writer = BitWriter::new();
    writer.write(1, 1);
    writer.write(5, 4);
    writer.write(7, 3);
    writer.write(0b101, 3);
    let bytes = writer.into_bytes();
    let mut reader = BitReader::new(&bytes);
    let side = StereoSideInfo::parse(&mut reader).unwrap();
    assert!(side.mid_side());
    assert_eq!(side.ild(), Some(5));
    assert_eq!(side.bits_ratio(), 7);
    assert_eq!(reader.position_bits(), 8);
    assert_eq!(reader.read_bits(3).unwrap(), 0b101);

    let mut reader = BitReader::with_bit_len(&[0b0011_0000], 4).unwrap();
    let side = StereoSideInfo::parse(&mut reader).unwrap();
    assert!(!side.mid_side());
    assert_eq!(side.ild(), None);
    assert_eq!(side.bits_ratio(), 3);
    assert_eq!(reader.remaining_bits(), 0);
}

#[test]
fn allocation_matches_c_reference_vectors() {
    assert_eq!(stereo_bytes_allocation(7, 7).unwrap(), [0, 0]);
    assert_eq!(stereo_bytes_allocation(8, 7).unwrap(), [0, 1]);
    assert_eq!(stereo_bytes_allocation(64, 0).unwrap(), [0, 8]);
    assert_eq!(stereo_bytes_allocation(64, 1).unwrap(), [1, 7]);
    assert_eq!(stereo_bytes_allocation(64, 4).unwrap(), [4, 4]);
    assert_eq!(stereo_bytes_allocation(626, 7).unwrap(), [63, 15]);
    assert_eq!(stereo_bytes_allocation(1_309, 4).unwrap(), [80, 83]);
    assert_eq!(stereo_bytes_allocation(4_095, 7).unwrap(), [441, 70]);
    assert_eq!(
        stereo_bytes_allocation(64, 8),
        Err(StereoError::InvalidBitsRatio(8))
    );
}

#[test]
fn inverse_ms_rejects_invalid_input_without_mutating_it() {
    assert_eq!(
        check_mid_side(2, 1, 5),
        Err(StereoError::ChannelLengthMismatch { left: 2, right: 1 })
    );
    assert_eq!(check_mid_side(2, 2, 0), Err(StereoError::InvalidIld(0)));
    assert_eq!(check_mid_side(2, 2, 16), Err(StereoError::InvalidIld(16)));
    assert_eq!(check_mid_side(2, 2, 15), Ok(()));
}

#[test]
fn cut_coupling_bits_and_vectors_have_errors_of_their_own() {
    for bits in [0, 1, 7] {
        let mut reader = BitReader::with_bit_len(&[0xff], bits).unwrap();
        assert_eq!(
            StereoSideInfo::parse(&mut reader),
            Err(StereoError::Bitstream(CodecError::Truncated))
        );
    }
    let bytes = [0; 12];
    assert!(McrSideInfo::parse(&mut BitReader::new(&bytes), TransformType::Short).is_ok());
    assert_eq!(
        McrSideInfo::parse(&mut BitReader::new(&bytes), TransformType::Long),
        Err(McrError::Bitstream(CodecError::Truncated))
    );
    assert_eq!(
        StereoError::AllocationOverflow.message().unwrap(),
        "stereo byte allocation overflow"
    );
    assert_eq!(
        StereoError::NotStereo {
            profile: CodecProfile::ChannelBased,
            channel_config: Some(ChannelConfiguration::Surround5_1),
            channels: 6,
        }
        .message()
        .unwrap(),
        "stereo parser requires channel-based stereo; got profile ChannelBased, configuration \
         Some(Mc5_1), 6 channels"
    );
}

#[test]
fn stereo_parser_names_what_is_no_stereo_frame() {
    let (mut header, payload, _, _) = ordinary_stereo_payload();
    header.profile = CodecProfile::Hoa;
    assert!(matches!(
        side_decoder().parse(&payload, &header),
        Err(StereoError::NotStereo {
            profile: CodecProfile::Hoa,
            channels: 2,
            ..
        })
    ));
    let (header, payload, _, _) = ordinary_stereo_payload();
    assert!(matches!(
        side_decoder().parse(&payload[..10], &header),
        Err(StereoError::CoreBitstream(
            CoreBitstreamError::PayloadTooShort {
                declared_bits: 1_309,
                available_bits: 80,
            }
        ))
    ));
}

fn tns_side() -> TnsSideInfo {
    TnsSideInfo {
        filters: [
            TnsFilterSideInfo {
                order: 3,
                coefficient_indices: [1, 2, 3, 0, 0, 0, 0, 0],
            },
            TnsFilterSideInfo {
                order: 8,
                coefficient_indices: [8, 7, 6, 5, 4, 3, 2, 1],
            },
        ],
        next_bit_offset: 0,
    }
}

#[test]
fn rejects_wrong_spectrum_length_before_mutating() {
    let spectrum = [3.0_f32; 17];
    let error = plan_tns(&tns_side(), TransformType::Long, spectrum.len()).unwrap_err();
    assert_eq!(
        error,
        TnsSynthesisError::InvalidSpectrumLength {
            expected: AVS3_FEATURE_DIMENSIONS,
            actual: spectrum.len(),
        }
    );
    assert_eq!(error.message(), "TNS spectrum has 17 lines; expected 1024");
}

#[test]
fn noise_shaping_runs_the_higher_filter_first() {
    let steps = plan_tns(&tns_side(), TransformType::Long, AVS3_FEATURE_DIMENSIONS).unwrap();
    let [TnsStep::Filter(high), TnsStep::Filter(low)] = steps[..] else {
        panic!("two filters are switched on");
    };
    assert_eq!((high.start, high.stop, high.order), (230, 853, 8));
    assert_eq!((low.start, low.stop, low.order), (28, 230, 3));
    assert_eq!(low.coefficient_indices[..3], [1, 2, 3]);
}

#[test]
fn short_blocks_are_filtered_block_by_block() {
    let long = plan_tns(&tns_side(), TransformType::Long, AVS3_FEATURE_DIMENSIONS).unwrap();
    let short = plan_tns(&tns_side(), TransformType::Short, AVS3_FEATURE_DIMENSIONS).unwrap();
    assert_eq!(short.first(), Some(&TnsStep::Deinterleave));
    assert_eq!(short[1..short.len() - 1], long[..]);
    assert_eq!(short.last(), Some(&TnsStep::Interleave));
}

fn config(objects: u8) -> DecoderConfig {
    DecoderConfig {
        sample_rate: 48_000,
        bitrate: 64_000 * u32::from(objects),
        channels: objects,
        samples_per_channel: 1_024,
        bit_depth: BitDepth::Sixteen,
        profile: CodecProfile::Mixed,
        nn_type: NnType::Main,
        channel_config: None,
        sound_bed_type: Some(SoundBedType::ObjectsOnly),
        hoa_order: None,
        objects,
        bed_channels: 0,
        has_lfe: false,
        bed_bitrate: None,
        object_bitrate: Some(64_000),
    }
}

#[test]
fn lazily_selects_the_reference_core_family() {
    let mut backend = MixDecoderBackend::new(side_decoder());
    assert_eq!(backend.core_kind(), None);

    backend.configure(config(1), Ok(())).unwrap();
    assert_eq!(backend.core_kind(), Some(MixCoreKind::Mono));
    assert!(backend.mono_backend().is_some());

    backend.configure(config(2), Ok(())).unwrap();
    assert_eq!(backend.core_kind(), Some(MixCoreKind::Stereo));
    assert!(backend.stereo_backend().is_some());

    backend.configure(config(3), Ok(())).unwrap();
    assert_eq!(backend.core_kind(), Some(MixCoreKind::Multichannel));
    assert!(backend.mono_backend().is_none());
    assert!(backend.stereo_backend().is_none());

    let mut invalid = config(1);
    invalid.profile = CodecProfile::ChannelBased;
    assert!(matches!(
        backend.configure(invalid, Ok(())),
        Err(DecodeError::UnsupportedBackend)
    ));
    assert_eq!(backend.core_kind(), Some(MixCoreKind::Multichannel));

    let mut bed = config(1);
    bed.channels = 7;
    bed.bitrate = 448_000;
    bed.channel_config = Some(ChannelConfiguration::Surround5_1);
    bed.sound_bed_type = Some(SoundBedType::ChannelBed);
    bed.bed_channels = 6;
    bed.has_lfe = true;
    bed.bed_bitrate = Some(384_000);
    backend.configure(bed, Ok(())).unwrap();
    assert_eq!(backend.core_kind(), Some(MixCoreKind::Multichannel));
}

#[test]
fn a_refusal_by_the_multichannel_backend_changes_nothing() {
    let mut backend = MixDecoderBackend::new(side_decoder());
    let refusal = DecodeError::ChannelCount {
        expected: 4,
        actual: 3,
    };
    assert_eq!(backend.configure(config(3), Err(refusal)), Err(refusal));
    assert_eq!(backend.core_kind(), None);

    backend.configure(config(2), Err(refusal)).unwrap();
    assert_eq!(backend.configure(config(3), Err(refusal)), Err(refusal));
    assert_eq!(backend.core_kind(), Some(MixCoreKind::Stereo));
    assert!(backend.stereo_backend().is_some());
}

#[test]
fn backends_check_the_stream_in_order() {
    let mut mono = MonoDecoderBackend::new();
    assert_eq!(
        mono.configure(config(2)),
        Err(DecodeError::ChannelCount {
            expected: 1,
            actual: 2,
        })
    );
    let mut long = config(1);
    long.samples_per_channel = 2_048;
    assert_eq!(
        mono.configure(long),
        Err(DecodeError::SampleCount {
            expected: 1_024,
            actual: 2_048,
        })
    );
    let mut uneven = config(2);
    uneven.bitrate = 64_000;
    assert_eq!(
        StereoDecoderBackend::new(side_decoder()).configure(uneven),
        Err(DecodeError::UnsupportedBackend)
    );
    assert_eq!(mono.configure(config(1)), Ok(()));
}

#[test]
fn mono_backend_takes_the_metadata_off() {
    let mut backend = MonoDecoderBackend::new();
    let mut header = stereo_header(64_000, 18);
    header.objects = 1;
    let payload = [0b0010_1010, 0b1100_1100, 0b1100_0000];
    assert_eq!(
        backend.begin_frame(&header, &payload, 1_024).unwrap_err(),
        DecodeError::UnsupportedBackend
    );
    backend.configure(config(1)).unwrap();
    assert_eq!(
        backend.begin_frame(&header, &payload, 7).unwrap_err(),
        DecodeError::SampleCount {
            expected: 1_024,
            actual: 7,
        }
    );
    let started = backend.begin_frame(&header, &payload, 1_024).unwrap();
    assert_eq!(started.audio, [0b1010_1011, 0b0011_0011]);
    assert_eq!(started.header.payload_bits, 16);
    assert_eq!(started.header.payload_len, 2);
    assert_eq!(started.header.frame_len, 9);
    assert!(backend.last_metadata().is_none());
    assert!(backend.last_metadata_values().is_none());

    let mut random = Avs3Random::new();
    random.rand();
    let state = random.seed();
    backend.finish_frame(random, started.metadata);
    assert_eq!(backend.last_metadata().unwrap().consumed_bits(), 2);
    assert!(backend.last_metadata_values().is_some());
    assert_eq!(backend.core_decoder().random().seed(), state);

    header.payload_bits = 1;
    assert!(matches!(
        backend.begin_frame(&header, &payload, 1_024),
        Err(DecodeError::Metadata(MetadataError::Bitstream(_)))
    ));
    assert!(backend.last_metadata().is_none());
}

#[test]
fn mixed_backend_starts_frames_with_the_backend_in_use() {
    let mut backend = MixDecoderBackend::new(side_decoder());
    let mut header = stereo_header(64_000, 18);
    header.objects = 1;
    let payload = [0b0010_1010, 0b1100_1100, 0b1100_0000];
    assert_eq!(
        backend.begin_frame(&header, &payload, 1_024).unwrap_err(),
        DecodeError::UnsupportedBackend
    );

    backend.configure(config(1), Ok(())).unwrap();
    assert_eq!(
        backend.begin_frame(&header, &payload, 2_048).unwrap_err(),
        DecodeError::SampleCount {
            expected: 1_024,
            actual: 2_048,
        }
    );
    let started = backend
        .begin_frame(&header, &payload, 1_024)
        .unwrap()
        .unwrap();
    assert_eq!(started.audio, [0b1010_1011, 0b0011_0011]);
    let mut random = Avs3Random::new();
    random.rand();
    backend.finish_frame(random.clone(), started.metadata);
    let mono = backend.mono_backend().unwrap();
    assert_eq!(mono.core_decoder().random(), &random);
    assert_eq!(
        backend.last_metadata(None).unwrap().consumed_bits(),
        started.metadata.consumed_bits()
    );

    backend.configure(config(2), Ok(())).unwrap();
    assert!(backend.last_metadata(None).is_none());
    assert_eq!(
        backend.begin_frame(&header, &payload, 1_024).unwrap_err(),
        DecodeError::SampleCount {
            expected: 2_048,
            actual: 1_024,
        }
    );

    backend.configure(config(3), Ok(())).unwrap();
    assert!(backend
        .begin_frame(&header, &payload, 1_024)
        .unwrap()
        .is_none());
}

#[test]
fn noise_filling_follows_the_grouping() {
    let mut side = main_qc();
    side.nf_param_q_idx = [Some(5), None];
    let one = noise_filling_of(&side, WindowGrouping::single(), 352).unwrap();
    assert_eq!(one.group_count(), 1);
    assert_eq!(one.num_lines(), 352);
    assert_eq!(one.quantized_indexes(), [5, 0]);
    assert_eq!(one.group_indicator(), [NoiseGroup::Transient; 8]);

    let grouping = two_group_info();
    let two = noise_filling_of(&side, grouping, 1_024).unwrap();
    assert_eq!(two.group_count(), 2);
    assert_eq!(two.quantized_indexes(), [5, 0]);
    assert_eq!(two.group_indicator(), grouping.indicator());

    side.nf_param_q_idx = [None, Some(8)];
    assert!(noise_filling_of(&side, WindowGrouping::single(), 352).is_ok());
    assert_eq!(
        noise_filling_of(&side, grouping, 352),
        Err(NeuralQcError::NoiseFillingIndexOutOfRange { group: 1, index: 8 })
    );
    assert_eq!(
        noise_filling_of(&side, grouping, 1_025),
        Err(NeuralQcError::NoiseFillingLinesOutOfRange {
            lines: 1_025,
            limit: 1_024,
        })
    );
}

fn main_qc() -> QcSideInfo {
    let empty = BitRange {
        bit_offset: 0,
        bit_len: 0,
    };
    QcSideInfo {
        is_feat_amplified: Some(false),
        scale_q_idx: Some(0),
        scale_q_idx_lc: None,
        nf_param_q_idx: [Some(0), None],
        context_bitstream: empty,
        base_bitstream: empty,
        channel_bytes: 0,
        next_bit_offset: 0,
    }
}

#[test]
fn bad_output_length_does_not_advance_temporal_state() {
    let mut decoder = MonoCoreDecoder::new();
    let mut random = Avs3Random::new();
    for _ in 0..5 {
        random.rand();
    }
    decoder.commit(random);
    let before = decoder.clone();
    assert_eq!(
        decoder.plan(NnType::Main, &main_qc(), false, false, 17),
        Err(MonoCoreDecodeError::InvalidOutputLength {
            expected: 1_024,
            actual: 17,
        })
    );
    assert_eq!(decoder, before);
}

#[test]
fn mono_core_runs_its_stages_in_order() {
    let decoder = MonoCoreDecoder::new();
    let plan = decoder
        .plan(NnType::Main, &main_qc(), true, true, 1_024)
        .unwrap();
    assert_eq!(plan.first(), Some(&CoreStage::DecodeMain { channel: 0 }));
    assert_eq!(plan.last(), Some(&CoreStage::Commit));
    let refused = decoder
        .plan(NnType::LowComplexity, &main_qc(), true, true, 1_024)
        .unwrap();
    assert_eq!(
        refused.last(),
        Some(&CoreStage::Refuse(
            MonoCoreDecodeError::UnexpectedNeuralProfile
        ))
    );
    let disagreeing = decoder
        .plan(NnType::Main, &main_qc(), true, false, 1_024)
        .unwrap();
    assert_eq!(
        disagreeing.last(),
        Some(&CoreStage::Refuse(
            MonoCoreDecodeError::InconsistentBweSideInformation
        ))
    );
}

#[test]
fn invalid_output_length_does_not_advance_stereo_state() {
    let (header, payload, _, _) = ordinary_stereo_payload();
    let mut decoder = StereoCoreDecoder::new(side_decoder());
    let mut random = Avs3Random::new();
    for _ in 0..5 {
        random.rand();
    }
    let state = random.seed();
    decoder.commit(random);
    assert_eq!(
        decoder
            .plan(&payload, &header, 17)
            .unwrap_err(),
        StereoCoreDecodeError::InvalidOutputLength {
            expected: STEREO_FRAME_SAMPLES,
            actual: 17,
        }
    );
    assert_eq!(decoder.random().seed(), state);
    decoder.reset();
    assert_eq!(decoder.random().seed(), Avs3Random::new().seed());
}

#[test]
fn stereo_core_undoes_mid_side_before_the_extension() {
    let (header, payload, _, _) = ordinary_stereo_payload();
    let decoder = StereoCoreDecoder::new(side_decoder());
    let (_, plan) = decoder
        .plan(&payload, &header, STEREO_FRAME_SAMPLES)
        .unwrap();
    let place = |stage: CoreStage<StereoCoreDecodeError>| {
        plan.iter().position(|item| *item == stage).unwrap()
    };
    let mid_side = place(CoreStage::InverseMidSide { ild: 5 });
    assert!(place(CoreStage::Degroup { channel: 1 }) < mid_side);
    assert!(mid_side < place(CoreStage::BandwidthExtension { channel: 0 }));
    assert!(
        place(CoreStage::BandwidthExtension { channel: 1 })
            < place(CoreStage::MdctSynthesis { channel: 1 })
    );
    assert_eq!(plan.last(), Some(&CoreStage::Commit));
}

#[test]
fn mcr_core_rotates_one_decoded_channel() {
    let (header, payload, _, _) = mcr_stereo_payload();
    let decoder = StereoCoreDecoder::new(side_decoder());
    let (_, plan) = decoder
        .plan_mcr(&payload, &header, STEREO_FRAME_SAMPLES)
        .unwrap();
    assert!(plan.contains(&CoreStage::Rotate));
    assert!(plan.contains(&CoreStage::DecodeMain { channel: 0 }));
    assert!(!plan.contains(&CoreStage::DecodeMain { channel: 1 }));
}
