use audio_codec_avs3::engine::latent::{
    channel_cdf_indexes, flatten_for_entropy_coder, unflatten_from_entropy_coder, LatentError,
    LatentShape, Quantizer,
};
use audio_codec_avs3::engine::model::{Activation, CnnLayer, NeuralModel, NeuralModelType, Padding};
use audio_codec_avs3::engine::model_reader::{
    ModelEncoding, ModelError, ModelLimits, ModelReader, AVS3_MODEL_XOR_MASK,
};
use audio_codec_avs3::engine::neural_qc::{
    check_low_complexity, check_neural_model, decode_context, noise_ranges, MainNeuralQc,
    NeuralBitstreams, NeuralQcError, NoiseFilling, NoiseGroup, MAX_QC_BITSTREAM_BYTES,
};

fn push_i16(output: &mut Vec<u8>, value: i16) {
    output.extend_from_slice(&value.to_le_bytes());
}

fn push_u16(output: &mut Vec<u8>, value: u16) {
    output.extend_from_slice(&value.to_le_bytes());
}

fn push_u32(output: &mut Vec<u8>, value: u32) {
    output.extend_from_slice(&value.to_le_bytes());
}

fn push_f32(output: &mut Vec<u8>, value: f32) {
    output.extend_from_slice(&value.to_bits().to_le_bytes());
}

fn bits(values: &[f32]) -> Vec<u32> {
    values.iter().map(|value| value.to_bits()).collect()
}

fn push_layer(
    output: &mut Vec<u8>,
    stride: i16,
    input_channels: i16,
    output_channels: i16,
    transpose: bool,
) {
    push_i16(output, 0); // same padding
    push_i16(output, stride);
    push_i16(output, 1); // bias
    push_i16(output, 1); // linear
    push_i16(output, 1); // kernel size
    push_i16(output, input_channels);
    push_i16(output, output_channels);
    for index in 0..usize::from(input_channels as u16) * usize::from(output_channels as u16) {
        let sign = if transpose { -1.0 } else { 1.0 };
        push_f32(output, sign * (index + 1) as f32 / 8.0);
    }
    for index in 0..output_channels {
        push_f32(output, f32::from(index) / 16.0);
    }
}

fn push_range_config(output: &mut Vec<u8>, num_cdfs: usize) {
    for _ in 0..num_cdfs {
        push_u16(output, 3);
    }
    for index in 0..num_cdfs {
        push_i16(output, -(index as i16));
    }
    for _ in 0..num_cdfs {
        for value in [0_u32, 32_768, 65_536] {
            push_u32(output, value);
        }
    }
}

fn push_codec(output: &mut Vec<u8>, input_channels: i16, latent_channels: i16, has_context: bool) {
    push_i16(output, 1);
    push_layer(output, 2, input_channels, latent_channels, false);
    push_i16(output, 1);
    push_layer(output, 2, latent_channels, input_channels, true);
    for channel in 0..latent_channels {
        push_f32(output, f32::from(channel) / 4.0);
    }
    let num_cdfs = if has_context {
        push_i16(output, 2);
        push_f32(output, 0.5);
        push_f32(output, 2.0);
        2
    } else {
        latent_channels as usize
    };
    push_range_config(output, num_cdfs);
}

fn vae_model() -> Vec<u8> {
    let mut output = Vec::new();
    push_codec(&mut output, 1, 2, false);
    output
}

fn hyper_model() -> Vec<u8> {
    let mut output = Vec::new();
    push_codec(&mut output, 1, 2, true);
    // The base latents are 512 wide, with two channels.
    push_codec(&mut output, 2, 2, false);
    output
}

#[test]
fn reader_is_little_endian_transactional_and_xor_aware() {
    let bytes = [0x34, 0x12, 0x00, 0x00, 0xc0, 0x7f];
    let mut reader = ModelReader::new(&bytes).unwrap();
    assert_eq!(reader.read_u16().unwrap(), 0x1234);
    let checkpoint = reader.position();
    assert!(matches!(
        reader.read_f32(),
        Err(ModelError::NonFiniteFloat { .. })
    ));
    assert_eq!(reader.position(), checkpoint);

    let encoded: Vec<u8> = 0x1234_u16
        .to_le_bytes()
        .into_iter()
        .map(|byte| byte ^ AVS3_MODEL_XOR_MASK)
        .collect();
    assert_eq!(
        ModelReader::new_xor55(&encoded).unwrap().read_u16(),
        Ok(0x1234)
    );

    let mut short = ModelReader::new(&[1]).unwrap();
    assert!(matches!(
        short.read_u16(),
        Err(ModelError::UnexpectedEof { .. })
    ));
    assert_eq!(short.position(), 0);
}

#[test]
fn xor_prefix_matches_the_embedded_c_model_header() {
    let prefix = [
        0x51, 0x55, 0x55, 0x55, 0x57, 0x55, 0x54, 0x55, 0x51, 0x55, 0x50, 0x55, 0x54, 0x55, 0x57,
        0x55,
    ];
    let mut reader = ModelReader::new_xor55(&prefix).unwrap();
    assert_eq!(reader.read_i16().unwrap(), 4); // encoder layers
    assert_eq!(reader.read_i16().unwrap(), 0); // same padding
    assert_eq!(reader.read_i16().unwrap(), 2); // stride
    assert_eq!(reader.read_i16().unwrap(), 1); // bias
    assert_eq!(reader.read_i16().unwrap(), 4); // divisive normalization
    assert_eq!(reader.read_i16().unwrap(), 5); // kernel
    assert_eq!(reader.read_i16().unwrap(), 1); // input channels
    assert_eq!(reader.read_i16().unwrap(), 2); // output channels
}

#[test]
fn parses_owned_vae_model_in_plain_and_obfuscated_forms() {
    let plain = vae_model();
    let model =
        NeuralModel::from_bytes(&plain, NeuralModelType::Vae, ModelEncoding::Plain).unwrap();
    assert_eq!(
        model.base().input_shape(),
        LatentShape::new(1024, 1).unwrap()
    );
    assert_eq!(
        model.base().latent_shape(),
        LatentShape::new(512, 2).unwrap()
    );
    assert_eq!(model.base().encoder().layers().len(), 1);
    assert_eq!(model.base().decoder().layers().len(), 1);
    assert_eq!(
        model.base().quantizer().quantile_medians(),
        bits(&[0.0, 0.25])
    );
    assert!(model.base().context_scales().is_none());
    assert!(model.context().is_none());

    let obfuscated: Vec<u8> = plain
        .iter()
        .map(|&byte| byte ^ AVS3_MODEL_XOR_MASK)
        .collect();
    assert_eq!(
        NeuralModel::from_obfuscated_bytes(&obfuscated, NeuralModelType::Vae).unwrap(),
        model
    );
}

#[test]
fn parses_hyper_model_and_normalizes_kernel_indexes() {
    let bytes = hyper_model();
    let model =
        NeuralModel::from_bytes(&bytes, NeuralModelType::Hyper, ModelEncoding::Plain).unwrap();
    assert_eq!(
        model.base().context_scales().unwrap().scales(),
        bits(&[0.5, 2.0])
    );
    let context = model.context().unwrap();
    assert_eq!(context.input_shape(), LatentShape::new(512, 2).unwrap());
    assert_eq!(context.latent_shape(), LatentShape::new(256, 2).unwrap());

    let decoder = &context.decoder().layers()[0];
    assert!(decoder.is_transpose());
    assert_eq!(
        decoder.kernel_coefficient(0, 0, 0),
        Some((-0.125_f32).to_bits())
    );
    assert_eq!(
        decoder.kernel_coefficient(0, 1, 0),
        Some((-0.25_f32).to_bits())
    );
    assert_eq!(
        decoder.kernel_coefficient(0, 0, 1),
        Some((-0.375_f32).to_bits())
    );
    assert_eq!(
        decoder.kernel_coefficient(0, 1, 1),
        Some((-0.5_f32).to_bits())
    );
}

#[test]
fn every_truncated_model_prefix_is_rejected_without_panicking() {
    let bytes = hyper_model();
    for end in 0..bytes.len() {
        assert!(
            NeuralModel::from_bytes(&bytes[..end], NeuralModelType::Hyper, ModelEncoding::Plain)
                .is_err(),
            "prefix of {end} bytes was accepted"
        );
    }
    assert!(NeuralModel::from_bytes(&bytes, NeuralModelType::Hyper, ModelEncoding::Plain).is_ok());
}

#[test]
fn rejects_trailing_data_and_collection_limit_before_allocation() {
    let mut bytes = vae_model();
    bytes.push(0);
    assert_eq!(
        NeuralModel::from_bytes(&bytes, NeuralModelType::Vae, ModelEncoding::Plain),
        Err(ModelError::TrailingData { bytes: 1 })
    );

    let mut reader = ModelReader::with_limits(
        &[0; 16],
        ModelEncoding::Plain,
        ModelLimits {
            max_collection_values: 2,
            ..ModelLimits::default()
        },
    )
    .unwrap();
    assert!(matches!(
        reader.read_u32s(3, "test values"),
        Err(ModelError::CollectionTooLarge { .. })
    ));
    assert_eq!(reader.position(), 0);
}

#[test]
fn layers_keep_what_the_model_says() {
    let model =
        NeuralModel::from_bytes(&vae_model(), NeuralModelType::Vae, ModelEncoding::Plain).unwrap();
    assert_eq!(model.model_type(), NeuralModelType::Vae);
    let layer = &model.base().encoder().layers()[0];
    assert!(!layer.is_transpose());
    assert_eq!(layer.padding(), Padding::Same);
    assert_eq!(layer.stride(), 2);
    assert_eq!(layer.activation(), Activation::Linear);
    assert_eq!(layer.kernel_size(), 1);
    assert_eq!(layer.input_shape(), LatentShape::new(1024, 1).unwrap());
    assert_eq!(layer.output_shape(), LatentShape::new(512, 2).unwrap());
    assert_eq!(layer.kernel_coefficients(), bits(&[0.125, 0.25]));
    assert_eq!(layer.bias().unwrap(), bits(&[0.0, 0.0625]));
    assert!(layer.gdn_parameters().is_none());
    assert_eq!(layer.kernel_coefficient(1, 0, 0), None);
    assert_eq!(layer.kernel_coefficient(0, 1, 0), None);
    assert_eq!(layer.kernel_coefficient(0, 0, 2), None);
    assert!(!model.base().encoder().is_transpose());
    assert!(model.base().decoder().is_transpose());
    assert_eq!(
        model.base().decoder().output_shape(),
        LatentShape::new(1024, 1).unwrap()
    );
    assert_eq!(model.base().range_coder().offsets(), &[0, -1]);
}

#[test]
fn model_errors_name_the_broken_field() {
    let model = vae_model();
    let parse = |bytes: &[u8]| {
        NeuralModel::from_bytes(bytes, NeuralModelType::Vae, ModelEncoding::Plain).unwrap_err()
    };

    let mut layers = model.clone();
    layers[0] = 11;
    assert_eq!(
        parse(&layers),
        ModelError::InvalidLayerCount {
            network: "base encoder",
            value: 11,
            limit: 10,
        }
    );

    let mut padding = model.clone();
    padding[2] = 2;
    assert!(matches!(
        parse(&padding),
        ModelError::InvalidField { value: 2, .. }
    ));

    let mut channels = model.clone();
    channels[12] = 3;
    assert!(matches!(
        parse(&channels),
        ModelError::ChannelMismatch {
            layer: 0,
            expected: 1,
            actual: 3,
            ..
        }
    ));

    let mut stride = model.clone();
    stride[4] = 3;
    assert_eq!(
        parse(&stride),
        ModelError::InvalidField {
            field: "CNN stride",
            value: 3,
        }
    );

    let odd = LatentShape::new(3, 1).unwrap();
    let mut reader = ModelReader::new(&model[2..]).unwrap();
    assert_eq!(
        CnnLayer::read(&mut reader, false, odd, "base encoder", 4).unwrap_err(),
        ModelError::DimensionNotDivisible {
            network: "base encoder",
            layer: 4,
            dimensions: 3,
            stride: 2,
        }
    );

    let limits = ModelLimits {
        max_model_bytes: 10,
        ..ModelLimits::default()
    };
    assert_eq!(
        NeuralModel::from_bytes_with_limits(
            &model,
            NeuralModelType::Vae,
            ModelEncoding::Plain,
            limits
        ),
        Err(ModelError::InputTooLarge {
            bytes: model.len(),
            limit: 10,
        })
    );
    assert_eq!(
        ModelError::InvalidLayerCount {
            network: "base encoder",
            value: 11,
            limit: 10,
        }
        .message(),
        "base encoder declares 11 layers; valid range is 1..=10"
    );
}

#[test]
fn flattening_is_undone() {
    let shape = LatentShape::new(6, 4).unwrap();
    let values: Vec<u32> = (0..24).collect();
    let flattened = flatten_for_entropy_coder(shape, &values);
    assert_ne!(flattened, values);
    assert_eq!(unflatten_from_entropy_coder(shape, &flattened), values);
    assert_eq!(
        channel_cdf_indexes(LatentShape::new(2, 3).unwrap()).len(),
        6
    );
    assert_eq!(
        LatentShape::new(0, 4),
        Err(LatentError::InvalidShape {
            dimensions: 0,
            channels: 4,
        })
    );
    assert_eq!(Quantizer::new(vec![]), Err(LatentError::EmptyQuantizer));
}

#[test]
fn side_information_constructors_enforce_wire_widths() {
    let oversized = [0_u8; MAX_QC_BITSTREAM_BYTES + 1];
    assert_eq!(
        NeuralBitstreams::new(&oversized, &[]).unwrap_err(),
        NeuralQcError::BitstreamTooLong {
            stream: "context",
            bytes: MAX_QC_BITSTREAM_BYTES + 1,
            limit: MAX_QC_BITSTREAM_BYTES,
        }
    );

    let streams = NeuralBitstreams::new(&[], &[]).unwrap();
    let noise = NoiseFilling::single(1_024, 7).unwrap();
    assert_eq!(
        MainNeuralQc::new(streams, noise, false, 128).unwrap_err(),
        NeuralQcError::MainScaleIndexOutOfRange(128)
    );
    assert_eq!(
        NoiseFilling::single(1_025, 0).unwrap_err(),
        NeuralQcError::NoiseFillingLinesOutOfRange {
            lines: 1_025,
            limit: 1_024,
        }
    );
    assert_eq!(
        NoiseFilling::single(0, 8).unwrap_err(),
        NeuralQcError::NoiseFillingIndexOutOfRange { group: 0, index: 8 }
    );
}

#[test]
fn short_window_ranges_match_c_grouping_math() {
    let shape = LatentShape::new(64, 16).unwrap();
    let indicator = [
        NoiseGroup::Transient,
        NoiseGroup::Transient,
        NoiseGroup::Transient,
        NoiseGroup::Other,
        NoiseGroup::Other,
        NoiseGroup::Other,
        NoiseGroup::Other,
        NoiseGroup::Other,
    ];
    let filling = NoiseFilling::two_groups(45, indicator, [3, 7]).unwrap();
    assert_eq!(noise_ranges(shape, 45, filling), [(0, 16), (24, 52)]);
}

#[test]
fn a_hyper_model_decodes_its_context() {
    let model =
        NeuralModel::from_bytes(&hyper_model(), NeuralModelType::Hyper, ModelEncoding::Plain)
            .unwrap();
    let context = check_neural_model(&model).unwrap();
    assert_eq!(context.latent_shape(), LatentShape::new(256, 2).unwrap());
    assert_eq!(check_low_complexity(model.base()), Ok(()));
    let streams = NeuralBitstreams::new(&[], &[]).unwrap();
    let (values, consumed) = decode_context(context, streams).unwrap();
    assert_eq!(values.len(), 512);
    assert_eq!(consumed, 0);

    let plain =
        NeuralModel::from_bytes(&vae_model(), NeuralModelType::Vae, ModelEncoding::Plain).unwrap();
    assert_eq!(
        check_neural_model(&plain).unwrap_err(),
        NeuralQcError::MissingContextModel
    );
}
