use audio_codec_avs3::engine::random::{Avs3Random, AVS3_RAND_MAX};
use audio_codec_avs3::engine::range_coder::{RangeCoderConfig, RangeCoderError, RangeDecoder};

#[test]
fn stream_matches_ucrt_rand() {
    // The textbook sequence for a program that never called srand.
    let expected = [
        41, 18467, 6334, 26500, 19169, 15724, 11478, 29358, 26962, 24464, 5705, 28145,
    ];
    let mut random = Avs3Random::new();
    for value in expected {
        assert_eq!(random.rand(), value);
    }
}

#[test]
fn every_draw_fits_the_reference_range() {
    let mut random = Avs3Random::new();
    for _ in 0..100_000 {
        assert!(random.rand() <= AVS3_RAND_MAX);
    }
}

/// The noise spans `[-1, 1]` when it is scaled by the range of a draw.
#[test]
fn scaled_noise_is_uniform_over_the_full_range() {
    let mut random = Avs3Random::new();
    let mut above = 0;
    let (mut low, mut high) = (f32::MAX, f32::MIN);
    for _ in 0..10_000 {
        let noise = (random.rand() as f32 / AVS3_RAND_MAX as f32) * 2.0 - 1.0;
        assert!((-1.0..=1.0).contains(&noise), "out of range: {noise}");
        low = low.min(noise);
        high = high.max(noise);
        if noise > 0.0 {
            above += 1;
        }
    }
    assert!((4000..6000).contains(&above), "not uniform: {above} above zero");
    assert!(low < -0.99 && high > 0.99, "range not covered: {low}..{high}");
}

/// The state is wider than a draw, so the sequence does not close after 32768 values.
#[test]
fn period_is_longer_than_the_draw_range() {
    let mut random = Avs3Random::new();
    let first = random.seed();
    for _ in 0..1 << 15 {
        random.rand();
        assert_ne!(random.seed(), first, "state repeated within 32768 draws");
    }
}

#[test]
fn reset_returns_to_the_start_of_the_stream() {
    let mut random = Avs3Random::new();
    let first = random.rand();
    for _ in 0..1000 {
        random.rand();
    }
    random.reset();
    assert_eq!(random.rand(), first);
}

#[test]
fn clones_continue_independently_from_the_same_state() {
    let mut first = Avs3Random::new();
    for _ in 0..13 {
        first.rand();
    }
    let mut second = first.clone();
    for _ in 0..100 {
        assert_eq!(first.rand(), second.rand());
    }
}

#[test]
fn default_random_starts_like_a_new_one() {
    assert_eq!(Avs3Random::default().rand(), 41);
}

fn reference_config() -> RangeCoderConfig {
    RangeCoderConfig::new(
        vec![
            vec![0, 8_192, 24_576, 49_152, 65_536],
            vec![0, 4_096, 16_384, 32_768, 57_344, 65_536],
        ],
        vec![-1, -2],
    )
    .unwrap()
}

const REFERENCE_STREAM: [u8; 14] = [
    0x09, 0x49, 0x35, 0x51, 0x15, 0xf6, 0x28, 0xc1, 0xc7, 0x9f, 0x7e, 0xf3, 0x3e, 0xa4,
];

const REFERENCE_INDEXES: [u16; 16] = [0, 0, 0, 0, 0, 0, 0, 0, 1, 1, 1, 1, 1, 1, 1, 1];

const REFERENCE_VALUES: [i32; 16] = [-1, 0, 1, 2, -2, 5, -9, 17, -2, -1, 0, 1, 2, 3, 4, 5];

#[test]
fn decodes_c_reference_vector_including_overflow() {
    let mut decoder = RangeDecoder::new(&REFERENCE_STREAM);
    assert_eq!(
        decoder
            .decode(&reference_config(), &REFERENCE_INDEXES)
            .unwrap(),
        REFERENCE_VALUES
    );
    assert_eq!(decoder.bytes_consumed(), REFERENCE_STREAM.len());
}

#[test]
fn supports_implicit_tail_zeros() {
    let config = RangeCoderConfig::new(vec![vec![0, 32_768, 65_536]], vec![0]).unwrap();
    let mut decoder = RangeDecoder::new(&[]);
    assert_eq!(decoder.decode(&config, &[0, 0]).unwrap(), [0, 0]);
    assert_eq!(decoder.bytes_consumed(), 0);
}

#[test]
fn rejects_malformed_cdf_before_decoding() {
    assert!(matches!(
        RangeCoderConfig::new(vec![vec![0, 100, 99, 65_536]], vec![0]),
        Err(RangeCoderError::NonIncreasingCdf { .. })
    ));
    assert!(matches!(
        RangeCoderConfig::new(vec![vec![1, 32_768, 65_536]], vec![0]),
        Err(RangeCoderError::InvalidCdfStart { .. })
    ));
}

#[test]
fn rejects_invalid_cdf_index() {
    let mut decoder = RangeDecoder::new(&[]);
    assert!(matches!(
        decoder.decode(&reference_config(), &[2]),
        Err(RangeCoderError::CdfIndexOutOfRange { .. })
    ));
}

fn model_block() -> Vec<u8> {
    let mut bytes = Vec::new();
    bytes.extend_from_slice(&3_u16.to_le_bytes());
    bytes.extend_from_slice(&4_u16.to_le_bytes());
    bytes.extend_from_slice(&(-1_i16).to_le_bytes());
    bytes.extend_from_slice(&2_i16.to_le_bytes());
    for value in [0_u32, 32_768, 65_536, 0, 8_192, 32_768, 65_536] {
        bytes.extend_from_slice(&value.to_le_bytes());
    }
    bytes
}

#[test]
fn parses_owned_little_endian_model_block() {
    let mut bytes = model_block();
    bytes.extend_from_slice(b"next block");

    let (config, consumed) = RangeCoderConfig::from_model_bytes(&bytes, 2).unwrap();
    assert_eq!(consumed, 36);
    assert_eq!(config.offsets(), &[-1, 2]);
    assert_eq!(config.cdfs()[1], [0, 8_192, 32_768, 65_536]);
}

#[test]
fn rejects_truncated_model_before_table_allocation() {
    let bytes = [3, 0, 0, 0];
    assert!(matches!(
        RangeCoderConfig::from_model_bytes(&bytes, 1),
        Err(RangeCoderError::ModelDataTooShort { .. })
    ));
}

#[test]
fn trailing_zeros_change_no_symbol() {
    let config = reference_config();
    let indexes = [0_u16, 1, 0, 1, 1, 0, 0, 1];
    for len in 0..=REFERENCE_STREAM.len() {
        let mut longer = REFERENCE_STREAM[..len].to_vec();
        let expected = RangeDecoder::new(&longer).decode(&config, &indexes);
        longer.extend_from_slice(&[0; 20]);
        assert_eq!(RangeDecoder::new(&longer).decode(&config, &indexes), expected);
    }
}

#[test]
fn trailing_zeros_count_only_where_they_are() {
    let config = reference_config();
    for len in 0..=REFERENCE_STREAM.len() {
        let input = REFERENCE_STREAM[..len].to_vec();
        let mut longer = input.clone();
        longer.extend_from_slice(&[0; 40]);
        let mut short = RangeDecoder::new(&input);
        let mut long = RangeDecoder::new(&longer);
        for indexes in [[0_u16, 1, 0], [1, 1, 0], [0, 0, 1]] {
            assert_eq!(
                short.decode(&config, &indexes),
                long.decode(&config, &indexes)
            );
            assert_eq!(short.bytes_consumed(), long.bytes_consumed().min(len));
        }
    }
}

#[test]
fn decode_into_fills_a_buffer_of_the_same_length() {
    let config = reference_config();
    let mut output = [99_i32; 16];
    RangeDecoder::new(&REFERENCE_STREAM)
        .decode_into(&config, &REFERENCE_INDEXES, &mut output)
        .unwrap();
    assert_eq!(output, REFERENCE_VALUES);

    let mut short = [99_i32; 3];
    assert_eq!(
        RangeDecoder::new(&REFERENCE_STREAM).decode_into(&config, &REFERENCE_INDEXES, &mut short),
        Err(RangeCoderError::OutputLengthMismatch {
            indexes: 16,
            output: 3,
        })
    );
    assert_eq!(short, [99; 3]);
}

#[test]
fn range_configuration_names_the_broken_rule() {
    let half = vec![0_u32, 32_768, 65_536];
    assert_eq!(
        RangeCoderConfig::new(vec![half.clone()], vec![]),
        Err(RangeCoderError::ConfigLengthMismatch {
            cdfs: 1,
            offsets: 0,
        })
    );
    assert!(matches!(
        RangeCoderConfig::with_parameters(vec![half.clone()], vec![0], 0, 4),
        Err(RangeCoderError::InvalidPrecision(0))
    ));
    assert!(matches!(
        RangeCoderConfig::with_parameters(vec![half.clone()], vec![0], 16, 0),
        Err(RangeCoderError::InvalidOverflowWidth(0))
    ));
    assert_eq!(
        RangeCoderConfig::new(vec![vec![0, 65_536]], vec![0]),
        Err(RangeCoderError::InvalidCdfLength {
            index: 0,
            length: 2,
        })
    );
    assert_eq!(
        RangeCoderConfig::new(vec![vec![0, 32_768, 65_535]], vec![0]),
        Err(RangeCoderError::InvalidCdfEnd {
            index: 0,
            expected: 65_536,
            actual: 65_535,
        })
    );
    assert_eq!(
        RangeCoderConfig::from_model_bytes(&[], 65_536),
        Err(RangeCoderError::TooManyCdfs(65_536))
    );
    let config = RangeCoderConfig::new(vec![half], vec![0]).unwrap();
    assert_eq!(config.precision(), 16);
    assert_eq!(config.overflow_width(), 4);
}

#[test]
fn truncated_model_blocks_name_the_missing_bytes() {
    let bytes = model_block();
    for len in 0..bytes.len() {
        assert!(matches!(
            RangeCoderConfig::from_model_bytes(&bytes[..len], 2),
            Err(RangeCoderError::ModelDataTooShort { available, .. }) if available == len
        ));
    }
}

#[test]
fn range_errors_read_as_sentences() {
    let error = RangeCoderError::CdfIndexOutOfRange {
        position: 0,
        index: 2,
        available: 2,
    };
    assert_eq!(
        error.message(),
        "CDF index 2 at output position 0 exceeds 2 distributions"
    );
    assert_eq!(
        RangeCoderError::InvalidInterval.message(),
        "range decoder reached an invalid interval"
    );
}
