//! No model is the beginning of another one.

use crate::engine::latent::LatentShape;
use crate::engine::model::{
    bias_at, bounded_at, codec_at, codec_tables_at, context_codec_at,
    context_scales_at, gdn_at, layer_at, layer_head_at, layers_at, model_in, model_of, network_at,
    LayerHead, NeuralModelType, AVS3_FEATURE_DIMENSIONS,
};
use crate::engine::model_reader::{
    f32s_at, first_non_finite, i16_at, range_config_at, unmasked, ModelEncoding, ModelLimits,
};
use crate::engine::range_coder::{block_cdf, block_cdfs, block_offsets, block_values, le16, le32};
use vstd::prelude::*;

verus! {

/// The bytes of `short` are the first bytes of `long`.
pub open spec fn starts(short: Seq<u8>, long: Seq<u8>) -> bool {
    &&& short.len() <= long.len()
    &&& forall|i: int| 0 <= i < short.len() ==> #[trigger] short[i] == long[i]
}

proof fn lemma_first_non_finite(
    short: Seq<u8>,
    long: Seq<u8>,
    position: int,
    count: int,
    from: int,
)
    requires
        starts(short, long),
        0 <= position,
        0 <= from,
        position + 4 * count <= short.len(),
    ensures
        first_non_finite(short, position, count, from) == first_non_finite(
            long,
            position,
            count,
            from,
        ),
    decreases count - from,
{
    if from < count {
        assert(le32(short, position + 4 * from) == le32(long, position + 4 * from));
        lemma_first_non_finite(short, long, position, count, from + 1);
    }
}

proof fn lemma_f32s(
    short: Seq<u8>,
    long: Seq<u8>,
    position: int,
    count: int,
    collection: &'static str,
    limits: ModelLimits,
)
    requires
        starts(short, long),
        0 <= position,
        0 <= count,
        f32s_at(short, position, count, collection, limits) is Ok,
    ensures
        position + 4 * count <= short.len(),
        f32s_at(long, position, count, collection, limits) == f32s_at(
            short,
            position,
            count,
            collection,
            limits,
        ),
        f32s_at(short, position, count, collection, limits)->Ok_0.len() == count,
{
    lemma_first_non_finite(short, long, position, count, 0);
    assert forall|i: int| 0 <= i < count implies le32(short, position + 4 * i) == #[trigger] le32(
        long,
        position + 4 * i,
    ) by {}
    assert(f32s_at(long, position, count, collection, limits)->Ok_0 =~= f32s_at(
        short,
        position,
        count,
        collection,
        limits,
    )->Ok_0);
}

proof fn lemma_head(short: Seq<u8>, long: Seq<u8>, position: int, limits: ModelLimits)
    requires
        starts(short, long),
        0 <= position,
        layer_head_at(short, position, limits) is Ok,
    ensures
        position + 14 <= short.len(),
        layer_head_at(long, position, limits) == layer_head_at(short, position, limits),
{
    assert forall|i: int| 0 <= i && i + 2 <= short.len() implies #[trigger] i16_at(long, i)
        == i16_at(short, i) by {
        assert(le16(short, i) == le16(long, i));
    }
}

proof fn lemma_bias(
    short: Seq<u8>,
    long: Seq<u8>,
    position: int,
    head: LayerHead,
    limits: ModelLimits,
)
    requires
        starts(short, long),
        0 <= position <= short.len(),
        bias_at(short, position, head, limits) is Ok,
    ensures
        bias_at(long, position, head, limits) == bias_at(short, position, head, limits),
        position <= (bias_at(short, position, head, limits)->Ok_0).1 <= short.len(),
{
    if head.use_bias {
        lemma_f32s(
            short,
            long,
            position,
            head.output_channels as int,
            "CNN bias coefficients",
            limits,
        );
    }
}

proof fn lemma_gdn(
    short: Seq<u8>,
    long: Seq<u8>,
    position: int,
    head: LayerHead,
    limits: ModelLimits,
)
    requires
        starts(short, long),
        0 <= position <= short.len(),
        gdn_at(short, position, head, limits) is Ok,
    ensures
        gdn_at(long, position, head, limits) == gdn_at(short, position, head, limits),
        position <= (gdn_at(short, position, head, limits)->Ok_0).1 <= short.len(),
{
    if head.activation.divides() {
        let channels = head.output_channels as int;
        assert(0 <= channels * channels) by (nonlinear_arith);
        lemma_f32s(short, long, position, channels, "GDN beta coefficients", limits);
        lemma_f32s(
            short,
            long,
            position + 4 * channels,
            channels * channels,
            "GDN gamma coefficients",
            limits,
        );
    }
}

proof fn lemma_layer(
    short: Seq<u8>,
    long: Seq<u8>,
    position: int,
    limits: ModelLimits,
    transpose: bool,
    input: LatentShape,
    network: &'static str,
    layer: int,
)
    requires
        starts(short, long),
        0 <= position,
        layer_at(short, position, limits, transpose, input, network, layer) is Ok,
    ensures
        layer_at(long, position, limits, transpose, input, network, layer) == layer_at(
            short,
            position,
            limits,
            transpose,
            input,
            network,
            layer,
        ),
        position <= (layer_at(
            short,
            position,
            limits,
            transpose,
            input,
            network,
            layer,
        )->Ok_0).1 <= short.len(),
{
    reveal(layer_at);
    lemma_head(short, long, position, limits);
    let head = layer_head_at(short, position, limits)->Ok_0;
    let values = head.kernel_size * head.input_channels * head.output_channels;
    assert(0 <= values) by (nonlinear_arith)
        requires
            values == head.kernel_size * head.input_channels * head.output_channels,
    ;
    lemma_f32s(short, long, position + 14, values, "CNN kernel coefficients", limits);
    lemma_bias(short, long, position + 14 + 4 * values, head, limits);
    let behind = (bias_at(short, position + 14 + 4 * values, head, limits)->Ok_0).1;
    lemma_gdn(short, long, behind, head, limits);
}

proof fn lemma_layers(
    short: Seq<u8>,
    long: Seq<u8>,
    position: int,
    limits: ModelLimits,
    transpose: bool,
    shape: LatentShape,
    network: &'static str,
    layer: int,
    count: int,
)
    requires
        starts(short, long),
        0 <= position <= short.len(),
        layers_at(short, position, limits, transpose, shape, network, layer, count) is Ok,
    ensures
        layers_at(long, position, limits, transpose, shape, network, layer, count) == layers_at(
            short,
            position,
            limits,
            transpose,
            shape,
            network,
            layer,
            count,
        ),
        position <= (layers_at(
            short,
            position,
            limits,
            transpose,
            shape,
            network,
            layer,
            count,
        )->Ok_0).2 <= short.len(),
    decreases count - layer,
{
    if layer < count {
        lemma_layer(short, long, position, limits, transpose, shape, network, layer);
        let (first, next) = layer_at(
            short,
            position,
            limits,
            transpose,
            shape,
            network,
            layer,
        )->Ok_0;
        lemma_layers(
            short,
            long,
            next,
            limits,
            transpose,
            first.output_shape,
            network,
            layer + 1,
            count,
        );
    }
}

proof fn lemma_network(
    short: Seq<u8>,
    long: Seq<u8>,
    position: int,
    limits: ModelLimits,
    transpose: bool,
    shape: LatentShape,
    network: &'static str,
)
    requires
        starts(short, long),
        0 <= position,
        network_at(short, position, limits, transpose, shape, network) is Ok,
    ensures
        network_at(long, position, limits, transpose, shape, network) == network_at(
            short,
            position,
            limits,
            transpose,
            shape,
            network,
        ),
        position <= (network_at(short, position, limits, transpose, shape, network)->Ok_0).1
            <= short.len(),
{
    reveal(network_at);
    assert(le16(short, position) == le16(long, position));
    let count = i16_at(short, position)->Ok_0;
    lemma_layers(
        short,
        long,
        position + 2,
        limits,
        transpose,
        shape,
        network,
        0,
        count as int,
    );
}

proof fn lemma_block_values_alike(short: Seq<u8>, long: Seq<u8>, count: int)
    requires
        starts(short, long),
        2 * count <= short.len(),
    ensures
        block_values(short, count) == block_values(long, count),
        0 <= block_values(short, count),
    decreases count,
{
    if count > 0 {
        lemma_block_values_alike(short, long, count - 1);
        assert(le16(short, 2 * (count - 1)) == le16(long, 2 * (count - 1)));
    }
}

proof fn lemma_block_values_grow(block: Seq<u8>, a: int, b: int)
    requires
        0 <= a <= b,
    ensures
        block_values(block, a) <= block_values(block, b),
    decreases b - a,
{
    if a < b {
        lemma_block_values_grow(block, a, b - 1);
    }
}

proof fn lemma_block_tables(short: Seq<u8>, long: Seq<u8>, count: int)
    requires
        starts(short, long),
        0 <= count,
        4 * count + 4 * block_values(short, count) <= short.len(),
        0 <= block_values(short, count),
    ensures
        block_cdfs(short, count) == block_cdfs(long, count),
        block_offsets(short, count) == block_offsets(long, count),
{
    assert forall|i: int| 0 <= i < count implies block_cdf(short, count, i) == #[trigger] block_cdf(
        long,
        count,
        i,
    ) by {
        lemma_block_values_alike(short, long, i);
        lemma_block_values_grow(short, i + 1, count);
        assert(le16(short, 2 * i) == le16(long, 2 * i));
        let at = 4 * count + 4 * block_values(short, i);
        assert forall|j: int| 0 <= j < le16(short, 2 * i) implies le32(short, at + 4 * j)
            == #[trigger] le32(long, at + 4 * j) by {}
        assert(block_cdf(short, count, i) =~= block_cdf(long, count, i));
    }
    assert(block_cdfs(short, count) =~= block_cdfs(long, count));
    assert forall|i: int| 0 <= i < count implies le16(short, 2 * count + 2 * i) == #[trigger] le16(
        long,
        2 * count + 2 * i,
    ) by {}
    assert(block_offsets(short, count) =~= block_offsets(long, count));
}

proof fn lemma_range_config(
    short: Seq<u8>,
    long: Seq<u8>,
    position: int,
    count: int,
    limits: ModelLimits,
)
    requires
        starts(short, long),
        0 <= position <= short.len(),
        0 <= count,
        range_config_at(short, position, count, limits) is Ok,
    ensures
        range_config_at(long, position, count, limits) == range_config_at(
            short,
            position,
            count,
            limits,
        ),
        position <= (range_config_at(short, position, count, limits)->Ok_0).1 <= short.len(),
{
    let short_block = short.subrange(position, short.len() as int);
    let long_block = long.subrange(position, long.len() as int);
    assert forall|i: int| 0 <= i < short_block.len() implies #[trigger] short_block[i]
        == long_block[i] by {
        assert(short[position + i] == long[position + i]);
    }
    lemma_block_values_alike(short_block, long_block, count);
    lemma_block_tables(short_block, long_block, count);
}

proof fn lemma_context_scales(
    short: Seq<u8>,
    long: Seq<u8>,
    position: int,
    limits: ModelLimits,
    has_context: bool,
)
    requires
        starts(short, long),
        0 <= position <= short.len(),
        context_scales_at(short, position, limits, has_context) is Ok,
    ensures
        context_scales_at(long, position, limits, has_context) == context_scales_at(
            short,
            position,
            limits,
            has_context,
        ),
        position <= (context_scales_at(short, position, limits, has_context)->Ok_0).1
            <= short.len(),
{
    reveal(context_scales_at);
    if has_context {
        assert(le16(short, position) == le16(long, position));
        let count = bounded_at(short, position, "context-scale count", 65_535)->Ok_0;
        lemma_f32s(short, long, position + 2, count as int, "context scales", limits);
    }
}

proof fn lemma_codec_tables(
    short: Seq<u8>,
    long: Seq<u8>,
    position: int,
    limits: ModelLimits,
    has_context: bool,
    channels: int,
)
    requires
        starts(short, long),
        0 <= position,
        0 <= channels,
        codec_tables_at(short, position, limits, has_context, channels) is Ok,
    ensures
        codec_tables_at(long, position, limits, has_context, channels) == codec_tables_at(
            short,
            position,
            limits,
            has_context,
            channels,
        ),
        position <= (codec_tables_at(short, position, limits, has_context, channels)->Ok_0).3
            <= short.len(),
{
    reveal(codec_tables_at);
    lemma_f32s(short, long, position, channels, "quantizer median coefficients", limits);
    lemma_context_scales(short, long, position + 4 * channels, limits, has_context);
    let (scales, behind) = context_scales_at(
        short,
        position + 4 * channels,
        limits,
        has_context,
    )->Ok_0;
    let count = match scales {
        None => channels,
        Some(scales) => scales.len() as int,
    };
    lemma_range_config(short, long, behind, count, limits);
}

proof fn lemma_codec(
    short: Seq<u8>,
    long: Seq<u8>,
    position: int,
    limits: ModelLimits,
    input_shape: LatentShape,
    has_context: bool,
    encoder_name: &'static str,
    decoder_name: &'static str,
)
    requires
        starts(short, long),
        0 <= position,
        codec_at(
            short,
            position,
            limits,
            input_shape,
            has_context,
            encoder_name,
            decoder_name,
        ) is Ok,
    ensures
        codec_at(
            long,
            position,
            limits,
            input_shape,
            has_context,
            encoder_name,
            decoder_name,
        ) == codec_at(
            short,
            position,
            limits,
            input_shape,
            has_context,
            encoder_name,
            decoder_name,
        ),
        position <= (codec_at(
            short,
            position,
            limits,
            input_shape,
            has_context,
            encoder_name,
            decoder_name,
        )->Ok_0).1 <= short.len(),
{
    reveal(codec_at);
    lemma_network(short, long, position, limits, false, input_shape, encoder_name);
    let (encoder, middle) = network_at(
        short,
        position,
        limits,
        false,
        input_shape,
        encoder_name,
    )->Ok_0;
    lemma_network(short, long, middle, limits, true, encoder.output_shape, decoder_name);
    let (decoder, behind) = network_at(
        short,
        middle,
        limits,
        true,
        encoder.output_shape,
        decoder_name,
    )->Ok_0;
    lemma_codec_tables(
        short,
        long,
        behind,
        limits,
        has_context,
        encoder.output_shape.channels as int,
    );
}

/// No proper beginning of a model is a model: a model that was cut short anywhere is refused.
pub proof fn truncated_models_are_refused(
    input: Seq<u8>,
    len: int,
    model_type: NeuralModelType,
    encoding: ModelEncoding,
    limits: ModelLimits,
)
    requires
        0 <= len < input.len(),
        model_in(input, model_type, encoding, limits) is Ok,
    ensures
        model_in(input.subrange(0, len), model_type, encoding, limits) is Err,
{
    let short = unmasked(input.subrange(0, len), encoding.key());
    let long = unmasked(input, encoding.key());
    assert(starts(short, long));
    let hyper = model_type is Hyper;
    let shape = LatentShape { dimensions: AVS3_FEATURE_DIMENSIONS, channels: 1 };
    if model_of(short, model_type, limits) is Ok {
        lemma_codec(short, long, 0, limits, shape, hyper, "base encoder", "base decoder");
        let (base, middle) = codec_at(
            short,
            0,
            limits,
            shape,
            hyper,
            "base encoder",
            "base decoder",
        )->Ok_0;
        if hyper {
            lemma_codec(
                short,
                long,
                middle,
                limits,
                base.latent_shape,
                false,
                "context encoder",
                "context decoder",
            );
        }
        assert(context_codec_at(long, middle, limits, base.latent_shape, model_type)
            == context_codec_at(short, middle, limits, base.latent_shape, model_type));
        assert(model_of(long, model_type, limits) is Err);
    }
}

} // verus!
