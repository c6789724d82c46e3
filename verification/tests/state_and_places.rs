use audio_codec_avs3::engine::metadata_values::MetadataList;
use audio_codec_avs3::engine::mono_backend::MonoDecoderBackend;
use audio_codec_avs3::engine::mono_core::MonoCoreDecoder;
use audio_codec_avs3::engine::neural_qc::NeuralQcError;
use audio_codec_avs3::engine::random::Avs3Random;
use audio_codec_avs3::engine::stereo_side::ParsedNeuralQc;
use audio_codec_avs3::imdct_synthesis::{folding, Folding};
use audio_codec_avs3::qc::{BitRange, QcSideInfo};

fn empty_side() -> QcSideInfo {
    let nothing = BitRange {
        bit_offset: 0,
        bit_len: 0,
    };
    QcSideInfo {
        is_feat_amplified: None,
        scale_q_idx: None,
        scale_q_idx_lc: None,
        nf_param_q_idx: [None, None],
        context_bitstream: nothing,
        base_bitstream: nothing,
        channel_bytes: 0,
        next_bit_offset: 0,
    }
}

#[test]
fn a_list_hands_out_its_items_in_order() {
    let mut list: MetadataList<u8, 4> = MetadataList::new();
    assert_eq!(list.iter().count(), 0);
    for value in [7, 3, 9] {
        list.push(value);
    }
    assert_eq!(list.iter().copied().collect::<Vec<u8>>(), [7, 3, 9]);
    assert_eq!(list.len(), 3);
    assert_eq!((list[0], list[2]), (7, 9));
    let mut sum = 0;
    for value in &list {
        sum += u32::from(*value);
    }
    assert_eq!(sum, 19);
}

#[test]
fn drawing_through_the_core_moves_its_noise_stream() {
    let mut reference = Avs3Random::new();
    let mut core = MonoCoreDecoder::new();
    assert_eq!(core.random_mut().rand(), reference.rand());
    assert_eq!(core.random_mut().rand(), reference.rand());
    assert_eq!(core.random(), &reference);

    let mut backend = MonoDecoderBackend::new();
    backend.core_decoder_mut().commit(reference.clone());
    assert_eq!(backend.core_decoder().random(), &reference);
    backend.core_decoder_mut().reset();
    assert_eq!(backend.core_decoder().random(), &Avs3Random::new());
}

#[test]
fn folding_places_are_exact_for_a_small_transform() {
    assert_eq!(
        folding(16, 0),
        Folding {
            real: 11,
            real_mirror: 12,
            real_negated: false,
            imaginary: 4,
            imaginary_mirror: 3,
            imaginary_negated: true,
        }
    );
    assert_eq!(
        folding(16, 3),
        Folding {
            real: 5,
            real_mirror: 2,
            real_negated: true,
            imaginary: 10,
            imaginary_mirror: 13,
            imaginary_negated: false,
        }
    );
}

#[test]
fn unfolding_sets_every_sample_exactly_once() {
    for time_len in [8, 16, 256, 1_024, 2_048] {
        let mut times = vec![0_u32; time_len];
        for index in 0..time_len / 4 {
            let places = folding(time_len, index);
            times[places.real] += 1;
            times[places.real_mirror] += 1;
            times[places.imaginary] += 1;
            times[places.imaginary_mirror] += 1;
        }
        assert!(times.iter().all(|count| *count == 1));
    }
}

#[test]
fn range_coded_streams_are_handed_on_or_refused_by_length() {
    let fitting = ParsedNeuralQc {
        side: empty_side(),
        context: vec![1, 2],
        base: vec![3; 1_024],
    };
    assert!(fitting.bitstreams().is_ok());

    let long_context = ParsedNeuralQc {
        side: empty_side(),
        context: vec![0; 1_025],
        base: vec![0; 1_026],
    };
    assert!(matches!(
        long_context.bitstreams(),
        Err(NeuralQcError::BitstreamTooLong {
            stream: "context",
            bytes: 1_025,
            limit: 1_024,
        })
    ));

    let long_base = ParsedNeuralQc {
        side: empty_side(),
        context: Vec::new(),
        base: vec![0; 1_026],
    };
    assert!(matches!(
        long_base.bitstreams(),
        Err(NeuralQcError::BitstreamTooLong {
            stream: "base",
            bytes: 1_026,
            limit: 1_024,
        })
    ));
}
