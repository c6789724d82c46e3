//! Writing a model file, and what reading does with it.
//!
//! Each writer puts the bytes of one part in front of `rest`, which is what follows the part.

use crate::engine::latent::LatentShape;
use crate::engine::model::{
    bias_at, channel_limit, codec_at, codec_tables_at, context_scales_at, gdn_at, layer_at,
    layer_head_at, layers_at, model_of, network_at, transposed, transposing_undoes_itself,
    Activation, CodecSyntax, GdnSyntax, LayerHead, LayerSyntax, ModelSyntax, NetworkSyntax, Padding,
};
use crate::engine::model_reader::{
    f32s_at, first_non_finite, i16_at, range_config_at, ModelError, ModelLimits,
};
use crate::engine::range_coder::{
    block_cdf, block_cdfs, block_offsets, block_values, cdf_error, cdf_ok, cdfs_error,
    config_error, first_flat, le16, le32, RangeModel,
};
use crate::float_bits::finite;
use vstd::prelude::*;

verus! {

/// A 16-bit number in front of `rest`, the less significant byte first.
#[verifier::opaque]
pub open spec fn put_two(value: int, rest: Seq<u8>) -> Seq<u8> {
    seq![(value % 0x100) as u8, (value / 0x100 % 0x100) as u8] + rest
}

/// A 32-bit number in front of `rest`, the least significant byte first.
#[verifier::opaque]
pub open spec fn put_four(value: int, rest: Seq<u8>) -> Seq<u8> {
    seq![
        (value % 0x100) as u8,
        (value / 0x100 % 0x100) as u8,
        (value / 0x1_0000 % 0x100) as u8,
        (value / 0x100_0000 % 0x100) as u8,
    ] + rest
}

/// The bytes from `at` on start with those of `string`.
#[verifier::opaque]
pub open spec fn holds(source: Seq<u8>, at: int, string: Seq<u8>) -> bool {
    &&& 0 <= at && at + string.len() <= source.len()
    &&& forall|i: int| 0 <= i < string.len() ==> #[trigger] string[i] == source[at + i]
}

proof fn lemma_holds_rest(source: Seq<u8>, at: int, first: Seq<u8>, rest: Seq<u8>)
    requires
        holds(source, at, first + rest),
    ensures
        holds(source, at + first.len(), rest),
        at + first.len() <= source.len(),
        forall|i: int| 0 <= i < first.len() ==> #[trigger] first[i] == source[at + i],
{
    reveal(holds);
    let both = first + rest;
    assert forall|i: int| 0 <= i < rest.len() implies #[trigger] rest[i] == source[at + first.len()
        + i] by {
        assert(both[first.len() + i] == source[at + (first.len() + i)]);
    }
    assert forall|i: int| 0 <= i < first.len() implies #[trigger] first[i] == source[at + i] by {
        assert(both[i] == source[at + i]);
    }
}

/// Numbers are read as they were written.
proof fn lemma_numbers()
    ensures
        forall|source: Seq<u8>, at: int, value: int, rest: Seq<u8>|
            #[trigger] holds(source, at, put_two(value, rest)) && 0 <= value < 0x1_0000 ==> le16(
                source,
                at,
            ) == value && holds(source, at + 2, rest) && 0 <= at && at + 2 <= source.len(),
        forall|source: Seq<u8>, at: int, value: int, rest: Seq<u8>|
            #[trigger] holds(source, at, put_four(value, rest)) && 0 <= value < 0x1_0000_0000
                ==> le32(source, at) == value && holds(source, at + 4, rest) && 0 <= at && at + 4
                <= source.len(),
        forall|value: int, rest: Seq<u8>| #[trigger]
            put_two(value, rest).len() == 2 + rest.len(),
        forall|value: int, rest: Seq<u8>| #[trigger]
            put_four(value, rest).len() == 4 + rest.len(),
{
    reveal(put_two);
    reveal(put_four);
    assert forall|source: Seq<u8>, at: int, value: int, rest: Seq<u8>|
        #[trigger] holds(source, at, put_two(value, rest)) && 0 <= value < 0x1_0000 implies le16(
        source,
        at,
    ) == value && holds(source, at + 2, rest) && 0 <= at && at + 2 <= source.len() by {
        let first = seq![(value % 0x100) as u8, (value / 0x100 % 0x100) as u8];
        lemma_holds_rest(source, at, first, rest);
        assert(first[0] == source[at + 0] && first[1] == source[at + 1]);
        assert(0 <= at) by {
            reveal(holds);
        }
    }
    assert forall|source: Seq<u8>, at: int, value: int, rest: Seq<u8>|
        #[trigger] holds(source, at, put_four(value, rest)) && 0 <= value
            < 0x1_0000_0000 implies le32(source, at) == value && holds(source, at + 4, rest) && 0
        <= at && at + 4 <= source.len() by {
        let first = seq![
            (value % 0x100) as u8,
            (value / 0x100 % 0x100) as u8,
            (value / 0x1_0000 % 0x100) as u8,
            (value / 0x100_0000 % 0x100) as u8,
        ];
        lemma_holds_rest(source, at, first, rest);
        assert(first[0] == source[at + 0] && first[1] == source[at + 1] && first[2] == source[at
            + 2] && first[3] == source[at + 3]);
        assert(0 <= at) by {
            reveal(holds);
        }
    }
}

/// The 32-bit numbers from `from` on.
pub open spec fn put_fours(values: Seq<u32>, from: int, rest: Seq<u8>) -> Seq<u8>
    decreases values.len() - from,
{
    if from >= values.len() {
        rest
    } else {
        put_four(values[from] as int, put_fours(values, from + 1, rest))
    }
}

proof fn lemma_fours_len(values: Seq<u32>, from: int, rest: Seq<u8>)
    requires
        0 <= from <= values.len(),
    ensures
        put_fours(values, from, rest).len() == 4 * (values.len() - from) + rest.len(),
    decreases values.len() - from,
{
    lemma_numbers();
    if from < values.len() {
        lemma_fours_len(values, from + 1, rest);
    }
}

proof fn lemma_fours(source: Seq<u8>, at: int, values: Seq<u32>, from: int, rest: Seq<u8>)
    requires
        0 <= from <= values.len(),
        holds(source, at + 4 * from, put_fours(values, from, rest)),
    ensures
        forall|i: int|
            from <= i < values.len() ==> le32(source, at + 4 * i) == #[trigger] values[i],
        holds(source, at + 4 * values.len(), rest),
        at + 4 * values.len() <= source.len(),
    decreases values.len() - from,
{
    if from < values.len() {
        assert(le32(source, at + 4 * from) == values[from] && holds(
            source,
            at + 4 * (from + 1),
            put_fours(values, from + 1, rest),
        )) by {
            lemma_numbers();
        }
        lemma_fours(source, at, values, from + 1, rest);
    } else {
        reveal(holds);
    }
}

/// All numbers are finite.
pub open spec fn finite_values(values: Seq<u32>) -> bool {
    forall|i: int| 0 <= i < values.len() ==> finite(#[trigger] values[i])
}

proof fn lemma_all_finite(source: Seq<u8>, at: int, values: Seq<u32>, from: int)
    requires
        0 <= from <= values.len(),
        finite_values(values),
        forall|i: int| 0 <= i < values.len() ==> le32(source, at + 4 * i) == #[trigger] values[i],
    ensures
        first_non_finite(source, at, values.len() as int, from) is None,
    decreases values.len() - from,
{
    if from < values.len() {
        assert(le32(source, at + 4 * from) == values[from]);
        lemma_all_finite(source, at, values, from + 1);
    }
}

/// A row of single-precision numbers is read as it was written.
proof fn lemma_floats(
    source: Seq<u8>,
    at: int,
    values: Seq<u32>,
    rest: Seq<u8>,
    collection: &'static str,
    limits: ModelLimits,
)
    requires
        source.len() <= usize::MAX,
        0 <= at,
        finite_values(values),
        values.len() <= limits.max_collection_values,
        holds(source, at, put_fours(values, 0, rest)),
    ensures
        f32s_at(source, at, values.len() as int, collection, limits) == Ok::<Seq<u32>, ModelError>(
            values,
        ),
        holds(source, at + 4 * values.len(), rest),
        at + 4 * values.len() <= source.len(),
{
    lemma_fours(source, at, values, 0, rest);
    lemma_all_finite(source, at, values, 0);
    assert(Seq::new(values.len(), |i: int| le32(source, at + 4 * i) as u32) =~= values);
}

/// The number of a padding.
pub open spec fn padding_code(padding: Padding) -> int {
    match padding {
        Padding::Same => 0,
        Padding::Valid => 1,
    }
}

/// The number of an activation.
pub open spec fn activation_code(activation: Activation) -> int {
    match activation {
        Activation::Relu => 0,
        Activation::Linear => 1,
        Activation::Sigmoid => 2,
        Activation::Tanh => 3,
        Activation::Gdn => 4,
        Activation::Igdn => 5,
        Activation::Dn => 6,
        Activation::Idn => 7,
    }
}

/// A square matrix column by column, as a file has it.
pub open spec fn by_columns(matrix: Seq<u32>, side: int) -> Seq<u32> {
    Seq::new((side * side) as nat, |k: int| matrix[k % side * side + k / side])
}

/// The bytes of a layer behind its first fields: the kernel, the bias if it has one, and the
/// coefficients of a divisive normalisation.
pub open spec fn layer_values(layer: LayerSyntax, rest: Seq<u8>) -> Seq<u8> {
    let gdn = match layer.gdn {
        Some(gdn) => put_fours(
            gdn.beta,
            0,
            put_fours(by_columns(gdn.gamma, layer.output_shape.channels as int), 0, rest),
        ),
        None => rest,
    };
    let bias = match layer.bias {
        Some(bias) => put_fours(bias, 0, gdn),
        None => gdn,
    };
    put_fours(layer.kernel, 0, bias)
}

/// The bytes of a layer: padding, stride, whether it has a bias, activation, kernel size, channels in
/// and out, and its values.
pub open spec fn layer_bytes(layer: LayerSyntax, rest: Seq<u8>) -> Seq<u8> {
    put_two(
        padding_code(layer.padding),
        put_two(
            layer.stride as int,
            put_two(
                if layer.bias is Some {
                    1
                } else {
                    0
                },
                put_two(
                    activation_code(layer.activation),
                    put_two(
                        layer.kernel_size as int,
                        put_two(
                            layer.input_shape.channels as int,
                            put_two(
                                layer.output_shape.channels as int,
                                layer_values(layer, rest),
                            ),
                        ),
                    ),
                ),
            ),
        ),
    )
}

/// The fields of a layer fit: it multiplies the dimensions by its stride if it is transposed and
/// divides them otherwise, has a kernel value for each tap and pair of channels, and the values that
/// its bias and its activation need.
pub open spec fn layer_fits(
    layer: LayerSyntax,
    transpose: bool,
    input: LatentShape,
    limits: ModelLimits,
) -> bool {
    let channels = layer.output_shape.channels as int;
    &&& layer.transpose == transpose
    &&& layer.input_shape == input
    &&& layer.output_shape.well_formed()
    &&& 1 <= layer.stride <= 2
    &&& if transpose {
        layer.output_shape.dimensions == input.dimensions * layer.stride
    } else {
        layer.output_shape.dimensions * layer.stride == input.dimensions
    }
    &&& 1 <= layer.kernel_size <= limits.max_kernel_size
    &&& layer.kernel_size <= i16::MAX
    &&& 1 <= input.channels <= channel_limit(limits)
    &&& channels <= channel_limit(limits)
    &&& input.channels <= i16::MAX
    &&& channels <= i16::MAX
    &&& layer.kernel.len() == layer.kernel_size * input.channels * channels
    &&& layer.kernel.len() <= limits.max_collection_values
    &&& finite_values(layer.kernel)
    &&& layer.bias matches Some(bias) ==> bias.len() == channels && finite_values(bias)
        && channels <= limits.max_collection_values
    &&& layer.gdn is Some <==> layer.activation is Gdn || layer.activation is Igdn
    &&& layer.gdn matches Some(gdn) ==> {
        &&& gdn.beta.len() == channels
        &&& finite_values(gdn.beta)
        &&& gdn.gamma.len() == channels * channels
        &&& finite_values(gdn.gamma)
        &&& channels <= limits.max_collection_values
        &&& channels * channels <= limits.max_collection_values
    }
}

proof fn lemma_small_number(source: Seq<u8>, at: int, value: int)
    requires
        source.len() <= usize::MAX,
        0 <= at,
        at + 2 <= source.len(),
        le16(source, at) == value,
        0 <= value <= i16::MAX,
    ensures
        i16_at(source, at) == Ok::<i16, ModelError>(value as i16),
{
}

proof fn lemma_layer_head(
    source: Seq<u8>,
    at: int,
    limits: ModelLimits,
    transpose: bool,
    input: LatentShape,
    layer: LayerSyntax,
    rest: Seq<u8>,
)
    requires
        source.len() <= usize::MAX,
        layer_fits(layer, transpose, input, limits),
        holds(source, at, layer_bytes(layer, rest)),
    ensures
        layer_head_at(source, at, limits) == Ok::<LayerHead, ModelError>(
            LayerHead {
                padding: layer.padding,
                stride: layer.stride,
                use_bias: layer.bias is Some,
                activation: layer.activation,
                kernel_size: layer.kernel_size,
                input_channels: input.channels,
                output_channels: layer.output_shape.channels,
            },
        ),
        holds(source, at + 14, layer_values(layer, rest)),
        0 <= at,
        layer_bytes(layer, rest).len() == 14 + layer_values(layer, rest).len(),
{
    assert(le16(source, at) == padding_code(layer.padding) && le16(source, at + 2) == layer.stride
        && le16(source, at + 4) == (if layer.bias is Some {
        1int
    } else {
        0
    }) && le16(source, at + 6) == activation_code(layer.activation) && le16(source, at + 8)
        == layer.kernel_size && le16(source, at + 10) == input.channels && le16(source, at + 12)
        == layer.output_shape.channels && holds(source, at + 14, layer_values(layer, rest)) && 0
        <= at && at + 14 <= source.len() && layer_bytes(layer, rest).len() == 14 + layer_values(
        layer,
        rest,
    ).len()) by {
        lemma_numbers();
    }
    lemma_small_number(source, at, padding_code(layer.padding));
    lemma_small_number(source, at + 2, layer.stride as int);
    lemma_small_number(source, at + 4, if layer.bias is Some {
        1
    } else {
        0
    });
    lemma_small_number(source, at + 6, activation_code(layer.activation));
    lemma_small_number(source, at + 8, layer.kernel_size as int);
    lemma_small_number(source, at + 10, input.channels as int);
    lemma_small_number(source, at + 12, layer.output_shape.channels as int);
}

proof fn lemma_columns(matrix: Seq<u32>, side: int)
    requires
        0 < side,
        matrix.len() == side * side,
        finite_values(matrix),
    ensures
        transposed(by_columns(matrix, side), side) == matrix,
        by_columns(matrix, side).len() == side * side,
        finite_values(by_columns(matrix, side)),
{
    assert(0 <= side * side) by (nonlinear_arith)
        requires
            0 < side,
    ;
    let columns = by_columns(matrix, side);
    assert(columns =~= transposed(matrix, side));
    transposing_undoes_itself(matrix, side);
    assert forall|k: int| 0 <= k < columns.len() implies finite(#[trigger] columns[k]) by {
        crate::engine::latent::lemma_place(side, side, k);
        crate::engine::latent::lemma_place_back(side, side, k % side, k / side);
    }
}

/// A layer is read as it was written.
#[verifier::rlimit(40)]
pub proof fn written_layers_read_back(
    source: Seq<u8>,
    at: int,
    limits: ModelLimits,
    transpose: bool,
    input: LatentShape,
    network: &'static str,
    number: int,
    layer: LayerSyntax,
    rest: Seq<u8>,
)
    requires
        source.len() <= usize::MAX,
        layer_fits(layer, transpose, input, limits),
        holds(source, at, layer_bytes(layer, rest)),
    ensures
        layer_at(source, at, limits, transpose, input, network, number) == Ok::<
            (LayerSyntax, int),
            ModelError,
        >((layer, at + layer_bytes(layer, rest).len() - rest.len())),
        holds(source, at + layer_bytes(layer, rest).len() - rest.len(), rest),
{
    reveal(layer_at);
    lemma_layer_head(source, at, limits, transpose, input, layer, rest);
    let head = layer_head_at(source, at, limits)->Ok_0;
    let channels = layer.output_shape.channels as int;
    let gdn = match layer.gdn {
        Some(gdn) => put_fours(
            gdn.beta,
            0,
            put_fours(by_columns(gdn.gamma, channels), 0, rest),
        ),
        None => rest,
    };
    let bias = match layer.bias {
        Some(bias) => put_fours(bias, 0, gdn),
        None => gdn,
    };
    let kernel_at = at + 14;
    lemma_fours_len(layer.kernel, 0, bias);
    lemma_floats(source, kernel_at, layer.kernel, bias, "CNN kernel coefficients", limits);
    let bias_from = kernel_at + 4 * layer.kernel.len();
    if let Some(value) = layer.bias {
        lemma_fours_len(value, 0, gdn);
        lemma_floats(source, bias_from, value, gdn, "CNN bias coefficients", limits);
    }
    let gdn_from = bias_from + if layer.bias is Some {
        4 * channels
    } else {
        0
    };
    assert(bias_at(source, bias_from, head, limits) == Ok::<(Option<Seq<u32>>, int), ModelError>(
        (layer.bias, gdn_from),
    ));
    if let Some(value) = layer.gdn {
        let columns = by_columns(value.gamma, channels);
        lemma_columns(value.gamma, channels);
        let last = put_fours(columns, 0, rest);
        lemma_fours_len(value.beta, 0, last);
        lemma_fours_len(columns, 0, rest);
        lemma_floats(source, gdn_from, value.beta, last, "GDN beta coefficients", limits);
        lemma_floats(
            source,
            gdn_from + 4 * channels,
            columns,
            rest,
            "GDN gamma coefficients",
            limits,
        );
        assert(gdn_at(source, gdn_from, head, limits)->Ok_0.0->0 =~= value);
    }
    let end = at + layer_bytes(layer, rest).len() - rest.len();
    assert(gdn_at(source, gdn_from, head, limits) == Ok::<(Option<GdnSyntax>, int), ModelError>(
        (layer.gdn, end),
    ));
    assert(crate::engine::model::layer_output(head, transpose, input, network, number) == Ok::<
        LatentShape,
        ModelError,
    >(layer.output_shape)) by {
        if !transpose {
            let stride = layer.stride as int;
            let dimensions = layer.output_shape.dimensions as int;
            assert(input.dimensions / layer.stride == dimensions && input.dimensions % layer.stride
                == 0) by {
                vstd::arithmetic::div_mod::lemma_fundamental_div_mod_converse(
                    input.dimensions as int,
                    stride,
                    dimensions,
                    0,
                );
            }
        }
    }
    let found = layer_at(source, at, limits, transpose, input, network, number)->Ok_0.0;
    assert(found =~= layer);
}

/// The bytes of the layers from `from` on.
pub open spec fn layers_bytes(layers: Seq<LayerSyntax>, from: int, rest: Seq<u8>) -> Seq<u8>
    decreases layers.len() - from,
{
    if from >= layers.len() {
        rest
    } else {
        layer_bytes(layers[from], layers_bytes(layers, from + 1, rest))
    }
}

/// The shape that layer `index` is given.
pub open spec fn shape_given(layers: Seq<LayerSyntax>, input: LatentShape, index: int) -> LatentShape {
    if index == 0 {
        input
    } else {
        layers[index - 1].output_shape
    }
}

/// Each layer fits, and is given what the one before it makes.
pub open spec fn layers_follow(
    layers: Seq<LayerSyntax>,
    transpose: bool,
    input: LatentShape,
    limits: ModelLimits,
) -> bool {
    forall|i: int|
        0 <= i < layers.len() ==> layer_fits(
            #[trigger] layers[i],
            transpose,
            shape_given(layers, input, i),
            limits,
        )
}

proof fn lemma_layers(
    source: Seq<u8>,
    at: int,
    limits: ModelLimits,
    transpose: bool,
    input: LatentShape,
    network: &'static str,
    layers: Seq<LayerSyntax>,
    from: int,
    rest: Seq<u8>,
)
    requires
        source.len() <= usize::MAX,
        layers_follow(layers, transpose, input, limits),
        0 <= from <= layers.len(),
        holds(source, at, layers_bytes(layers, from, rest)),
    ensures
        ({
            let next = at + layers_bytes(layers, from, rest).len() - rest.len();
            &&& holds(source, next, rest)
            &&& layers_at(
                source,
                at,
                limits,
                transpose,
                shape_given(layers, input, from),
                network,
                from,
                layers.len() as int,
            ) == Ok::<(Seq<LayerSyntax>, LatentShape, int), ModelError>(
                (
                    layers.skip(from),
                    shape_given(layers, input, layers.len() as int),
                    next,
                ),
            )
        }),
    decreases layers.len() - from,
{
    if from < layers.len() {
        let later = layers_bytes(layers, from + 1, rest);
        assert(layer_fits(
            layers[from],
            transpose,
            shape_given(layers, input, from),
            limits,
        ));
        written_layers_read_back(
            source,
            at,
            limits,
            transpose,
            shape_given(layers, input, from),
            network,
            from,
            layers[from],
            later,
        );
        let next = at + layers_bytes(layers, from, rest).len() - later.len();
        lemma_layers(
            source,
            next,
            limits,
            transpose,
            input,
            network,
            layers,
            from + 1,
            rest,
        );
        assert(seq![layers[from]] + layers.skip(from + 1) =~= layers.skip(from));
    } else {
        assert(layers.skip(from) =~= Seq::empty());
    }
}

/// The bytes of a network: the number of its layers, then the layers.
pub open spec fn network_bytes(network: NetworkSyntax, rest: Seq<u8>) -> Seq<u8> {
    put_two(network.layers.len() as int, layers_bytes(network.layers, 0, rest))
}

/// A network fits: its layers follow each other, and it makes what the last of them makes.
pub open spec fn network_fits(
    network: NetworkSyntax,
    transpose: bool,
    input: LatentShape,
    limits: ModelLimits,
) -> bool {
    &&& network.transpose == transpose
    &&& network.input_shape == input
    &&& 1 <= network.layers.len() <= limits.max_layers
    &&& network.layers.len() <= i16::MAX
    &&& layers_follow(network.layers, transpose, input, limits)
    &&& network.output_shape == network.layers[network.layers.len() - 1].output_shape
}

/// A network is read as it was written.
pub proof fn written_networks_read_back(
    source: Seq<u8>,
    at: int,
    limits: ModelLimits,
    transpose: bool,
    input: LatentShape,
    name: &'static str,
    network: NetworkSyntax,
    rest: Seq<u8>,
)
    requires
        source.len() <= usize::MAX,
        network_fits(network, transpose, input, limits),
        holds(source, at, network_bytes(network, rest)),
    ensures
        ({
            let next = at + network_bytes(network, rest).len() - rest.len();
            &&& holds(source, next, rest)
            &&& network_at(source, at, limits, transpose, input, name) == Ok::<
                (NetworkSyntax, int),
                ModelError,
            >((network, next))
        }),
{
    reveal(network_at);
    let count = network.layers.len() as int;
    let layers = layers_bytes(network.layers, 0, rest);
    assert(le16(source, at) == count && holds(source, at + 2, layers) && 0 <= at && at + 2
        <= source.len() && network_bytes(network, rest).len() == 2 + layers.len()) by {
        lemma_numbers();
    }
    lemma_small_number(source, at, count);
    lemma_layers(source, at + 2, limits, transpose, input, name, network.layers, 0, rest);
    assert(network.layers.skip(0) =~= network.layers);
    assert((NetworkSyntax {
        transpose,
        input_shape: input,
        output_shape: network.output_shape,
        layers: network.layers,
    }) =~= network);
}

/// The lengths of the tables from `from` on.
pub open spec fn lengths_bytes(tables: Seq<Seq<u32>>, from: int, rest: Seq<u8>) -> Seq<u8>
    decreases tables.len() - from,
{
    if from >= tables.len() {
        rest
    } else {
        put_two(tables[from].len() as int, lengths_bytes(tables, from + 1, rest))
    }
}

/// A signed 16-bit number as the unsigned one with the same bits.
pub open spec fn unsigned(value: i16) -> int {
    if value < 0 {
        value + 0x1_0000
    } else {
        value as int
    }
}

/// The offsets from `from` on.
pub open spec fn offsets_bytes(offsets: Seq<i16>, from: int, rest: Seq<u8>) -> Seq<u8>
    decreases offsets.len() - from,
{
    if from >= offsets.len() {
        rest
    } else {
        put_two(unsigned(offsets[from]), offsets_bytes(offsets, from + 1, rest))
    }
}

/// The tables from `from` on.
pub open spec fn tables_bytes(tables: Seq<Seq<u32>>, from: int, rest: Seq<u8>) -> Seq<u8>
    decreases tables.len() - from,
{
    if from >= tables.len() {
        rest
    } else {
        put_fours(tables[from], 0, tables_bytes(tables, from + 1, rest))
    }
}

/// Number of values of the first `count` tables.
pub open spec fn values_before(tables: Seq<Seq<u32>>, count: int) -> int
    decreases count,
{
    if count <= 0 {
        0
    } else {
        values_before(tables, count - 1) + tables[count - 1].len()
    }
}

proof fn lemma_lengths(source: Seq<u8>, tables: Seq<Seq<u32>>, from: int, rest: Seq<u8>)
    requires
        forall|i: int| 0 <= i < tables.len() ==> (#[trigger] tables[i]).len() < 0x1_0000,
        0 <= from <= tables.len(),
        holds(source, 2 * from, lengths_bytes(tables, from, rest)),
    ensures
        forall|i: int|
            from <= i < tables.len() ==> le16(source, 2 * i) == (#[trigger] tables[i]).len(),
        holds(source, 2 * tables.len() as int, rest),
        lengths_bytes(tables, from, rest).len() == 2 * (tables.len() - from) + rest.len(),
    decreases tables.len() - from,
{
    if from < tables.len() {
        assert(tables[from].len() < 0x1_0000);
        assert(le16(source, 2 * from) == tables[from].len() && holds(
            source,
            2 * (from + 1),
            lengths_bytes(tables, from + 1, rest),
        ) && lengths_bytes(tables, from, rest).len() == 2 + lengths_bytes(
            tables,
            from + 1,
            rest,
        ).len()) by {
            lemma_numbers();
        }
        lemma_lengths(source, tables, from + 1, rest);
    }
}

proof fn lemma_offsets(source: Seq<u8>, at: int, offsets: Seq<i16>, from: int, rest: Seq<u8>)
    requires
        0 <= from <= offsets.len(),
        holds(source, at + 2 * from, offsets_bytes(offsets, from, rest)),
    ensures
        forall|i: int|
            from <= i < offsets.len() ==> le16(source, at + 2 * i) == unsigned(
                #[trigger] offsets[i],
            ),
        holds(source, at + 2 * offsets.len(), rest),
        offsets_bytes(offsets, from, rest).len() == 2 * (offsets.len() - from) + rest.len(),
    decreases offsets.len() - from,
{
    if from < offsets.len() {
        assert(le16(source, at + 2 * from) == unsigned(offsets[from]) && holds(
            source,
            at + 2 * (from + 1),
            offsets_bytes(offsets, from + 1, rest),
        ) && offsets_bytes(offsets, from, rest).len() == 2 + offsets_bytes(
            offsets,
            from + 1,
            rest,
        ).len()) by {
            lemma_numbers();
        }
        lemma_offsets(source, at, offsets, from + 1, rest);
    }
}

proof fn lemma_tables(source: Seq<u8>, at: int, tables: Seq<Seq<u32>>, from: int, rest: Seq<u8>)
    requires
        0 <= from <= tables.len(),
        holds(source, at + 4 * values_before(tables, from), tables_bytes(tables, from, rest)),
    ensures
        forall|i: int, j: int|
            from <= i < tables.len() && 0 <= j < tables[i].len() ==> le32(
                source,
                at + 4 * values_before(tables, i) + 4 * j,
            ) == #[trigger] tables[i][j],
        holds(source, at + 4 * values_before(tables, tables.len() as int), rest),
        at + 4 * values_before(tables, tables.len() as int) <= source.len(),
        tables_bytes(tables, from, rest).len() == 4 * (values_before(tables, tables.len() as int)
            - values_before(tables, from)) + rest.len(),
    decreases tables.len() - from,
{
    if from < tables.len() {
        let here = at + 4 * values_before(tables, from);
        let later = tables_bytes(tables, from + 1, rest);
        lemma_fours_len(tables[from], 0, later);
        lemma_fours(source, here, tables[from], 0, later);
        lemma_tables(source, at, tables, from + 1, rest);
        assert forall|i: int, j: int|
            from <= i < tables.len() && 0 <= j < tables[i].len() implies le32(
            source,
            at + 4 * values_before(tables, i) + 4 * j,
        ) == #[trigger] tables[i][j] by {
            if i == from {
                assert(le32(source, here + 4 * j) == tables[from][j]);
            }
        }
    } else {
        reveal(holds);
    }
}

/// The bytes of a set of distributions: the lengths of the tables, the offsets, and the tables.
pub open spec fn distribution_bytes(model: RangeModel, rest: Seq<u8>) -> Seq<u8> {
    lengths_bytes(
        model.cdfs,
        0,
        offsets_bytes(model.offsets, 0, tables_bytes(model.cdfs, 0, rest)),
    )
}

/// Distributions fit: tables that rise from zero to 65536, each with an offset.
pub open spec fn distributions_fit(model: RangeModel, limits: ModelLimits) -> bool {
    &&& model.precision == 16
    &&& model.overflow_width == 4
    &&& model.cdfs.len() == model.offsets.len()
    &&& model.cdfs.len() <= 65_535
    &&& model.cdfs.len() <= limits.max_collection_values
    &&& values_before(model.cdfs, model.cdfs.len() as int) <= limits.max_collection_values
    &&& forall|i: int|
        0 <= i < model.cdfs.len() ==> cdf_ok(#[trigger] model.cdfs[i], 16)
            && model.cdfs[i].len() < 0x1_0000
}

proof fn lemma_not_flat(cdf: Seq<u32>, from: int)
    requires
        cdf_ok(cdf, 16),
        1 <= from <= cdf.len(),
    ensures
        first_flat(cdf, from) is None,
    decreases cdf.len() - from,
{
    if from < cdf.len() {
        assert(cdf[from - 1] < cdf[from]);
        lemma_not_flat(cdf, from + 1);
    }
}

proof fn lemma_no_fault(cdfs: Seq<Seq<u32>>, from: int)
    requires
        forall|i: int| 0 <= i < cdfs.len() ==> cdf_ok(#[trigger] cdfs[i], 16),
        0 <= from <= cdfs.len(),
    ensures
        cdfs_error(cdfs, 16, from) is None,
    decreases cdfs.len() - from,
{
    if from < cdfs.len() {
        assert(cdf_ok(cdfs[from], 16));
        lemma_not_flat(cdfs[from], 1);
        assert(cdf_error(cdfs[from], from, 16) is None);
        lemma_no_fault(cdfs, from + 1);
    }
}

proof fn lemma_block_values(block: Seq<u8>, tables: Seq<Seq<u32>>, count: int)
    requires
        0 <= count <= tables.len(),
        forall|i: int| 0 <= i < tables.len() ==> le16(block, 2 * i) == (#[trigger] tables[i]).len(),
    ensures
        block_values(block, count) == values_before(tables, count),
        0 <= values_before(tables, count),
    decreases count,
{
    if count > 0 {
        lemma_block_values(block, tables, count - 1);
        assert(le16(block, 2 * (count - 1)) == tables[count - 1].len());
    }
}

proof fn lemma_block(block: Seq<u8>, model: RangeModel, limits: ModelLimits, rest: Seq<u8>)
    requires
        distributions_fit(model, limits),
        holds(block, 0, distribution_bytes(model, rest)),
    ensures
        ({
            let count = model.cdfs.len() as int;
            let size = 4 * count + 4 * values_before(model.cdfs, count);
            &&& block_values(block, count) == values_before(model.cdfs, count)
            &&& 0 <= values_before(model.cdfs, count)
            &&& block_cdfs(block, count) == model.cdfs
            &&& block_offsets(block, count) == model.offsets
            &&& distribution_bytes(model, rest).len() == size + rest.len()
            &&& holds(block, size, rest)
        }),
{
    let count = model.cdfs.len() as int;
    let tables = tables_bytes(model.cdfs, 0, rest);
    let offsets = offsets_bytes(model.offsets, 0, tables);
    lemma_lengths(block, model.cdfs, 0, offsets);
    lemma_offsets(block, 2 * count, model.offsets, 0, tables);
    lemma_tables(block, 4 * count, model.cdfs, 0, rest);
    lemma_block_values(block, model.cdfs, count);
    let cdfs = block_cdfs(block, count);
    assert forall|i: int| 0 <= i < count implies #[trigger] cdfs[i] == model.cdfs[i] by {
        lemma_block_values(block, model.cdfs, i);
        assert(le16(block, 2 * i) == model.cdfs[i].len());
        let read = block_cdf(block, count, i);
        assert forall|j: int| 0 <= j < read.len() implies #[trigger] read[j]
            == model.cdfs[i][j] by {
            assert(le32(block, 4 * count + 4 * values_before(model.cdfs, i) + 4 * j)
                == model.cdfs[i][j]);
        }
        assert(read =~= model.cdfs[i]);
    }
    assert(cdfs =~= model.cdfs);
    assert forall|i: int| 0 <= i < count implies #[trigger] block_offsets(block, count)[i]
        == model.offsets[i] by {
        assert(le16(block, 2 * count + 2 * i) == unsigned(model.offsets[i]));
    }
    assert(block_offsets(block, count) =~= model.offsets);
}

proof fn lemma_shifted(source: Seq<u8>, at: int, inside: int, string: Seq<u8>)
    requires
        0 <= at <= source.len(),
        0 <= inside,
    ensures
        holds(source.subrange(at, source.len() as int), inside, string) <==> holds(
            source,
            at + inside,
            string,
        ),
{
    reveal(holds);
    let block = source.subrange(at, source.len() as int);
    if holds(block, inside, string) {
        assert forall|i: int| 0 <= i < string.len() implies #[trigger] string[i] == source[at
            + inside + i] by {
            assert(string[i] == block[inside + i]);
        }
    }
    if holds(source, at + inside, string) {
        assert forall|i: int| 0 <= i < string.len() implies #[trigger] string[i] == block[inside
            + i] by {
            assert(string[i] == source[at + inside + i]);
        }
    }
}

/// A set of distributions is read as it was written.
pub proof fn written_distributions_read_back(
    source: Seq<u8>,
    at: int,
    limits: ModelLimits,
    model: RangeModel,
    rest: Seq<u8>,
)
    requires
        source.len() <= usize::MAX,
        distributions_fit(model, limits),
        holds(source, at, distribution_bytes(model, rest)),
    ensures
        ({
            let next = at + distribution_bytes(model, rest).len() - rest.len();
            &&& holds(source, next, rest)
            &&& range_config_at(source, at, model.cdfs.len() as int, limits) == Ok::<
                (RangeModel, int),
                ModelError,
            >((model, next))
        }),
{
    let count = model.cdfs.len() as int;
    let block = source.subrange(at, source.len() as int);
    let string = distribution_bytes(model, rest);
    assert(0 <= at && at + string.len() <= source.len()) by {
        reveal(holds);
    }
    lemma_shifted(source, at, 0, string);
    lemma_block(block, model, limits, rest);
    lemma_shifted(source, at, string.len() - rest.len(), rest);
    lemma_no_fault(model.cdfs, 0);
    assert(config_error(model.cdfs, model.offsets, 16, 4) is None);
    assert((RangeModel {
        cdfs: model.cdfs,
        offsets: model.offsets,
        precision: 16,
        overflow_width: 4,
    }) =~= model);
}

/// The bytes of the tables of a codec: the medians, the context scales behind their number, and the
/// distributions.
pub open spec fn codec_table_bytes(codec: CodecSyntax, rest: Seq<u8>) -> Seq<u8> {
    let tables = distribution_bytes(codec.range_coder, rest);
    let scales = match codec.context_scales {
        Some(scales) => put_two(scales.len() as int, put_fours(scales, 0, tables)),
        None => tables,
    };
    put_fours(codec.medians, 0, scales)
}

/// The bytes of a codec: encoder, decoder and tables.
pub open spec fn codec_bytes(codec: CodecSyntax, rest: Seq<u8>) -> Seq<u8> {
    network_bytes(codec.encoder, network_bytes(codec.decoder, codec_table_bytes(codec, rest)))
}

/// The parts of a codec fit: the decoder undoes the shape of the encoder, there is a median for each
/// latent channel, and a table for each context scale or, without those, for each latent channel.
pub open spec fn codec_can_be_written(
    codec: CodecSyntax,
    input: LatentShape,
    has_context: bool,
    limits: ModelLimits,
) -> bool {
    &&& codec.input_shape == input
    &&& network_fits(codec.encoder, false, input, limits)
    &&& codec.latent_shape == codec.encoder.output_shape
    &&& network_fits(codec.decoder, true, codec.latent_shape, limits)
    &&& codec.decoder.output_shape == input
    &&& codec.medians.len() == codec.latent_shape.channels
    &&& codec.medians.len() <= limits.max_collection_values
    &&& finite_values(codec.medians)
    &&& codec.context_scales is Some <==> has_context
    &&& codec.context_scales matches Some(scales) ==> {
        &&& 1 <= scales.len() <= i16::MAX
        &&& scales.len() <= limits.max_collection_values
        &&& finite_values(scales)
    }
    &&& distributions_fit(codec.range_coder, limits)
    &&& codec.range_coder.cdfs.len() == match codec.context_scales {
        Some(scales) => scales.len(),
        None => codec.latent_shape.channels as nat,
    }
}

proof fn lemma_codec_tables(
    source: Seq<u8>,
    at: int,
    limits: ModelLimits,
    input: LatentShape,
    has_context: bool,
    codec: CodecSyntax,
    rest: Seq<u8>,
)
    requires
        source.len() <= usize::MAX,
        0 <= at,
        codec_can_be_written(codec, input, has_context, limits),
        holds(source, at, codec_table_bytes(codec, rest)),
    ensures
        ({
            let next = at + codec_table_bytes(codec, rest).len() - rest.len();
            &&& holds(source, next, rest)
            &&& codec_tables_at(
                source,
                at,
                limits,
                has_context,
                codec.latent_shape.channels as int,
            ) == Ok::<(Seq<u32>, Option<Seq<u32>>, RangeModel, int), ModelError>(
                (codec.medians, codec.context_scales, codec.range_coder, next),
            )
        }),
{
    reveal(codec_tables_at);
    reveal(context_scales_at);
    let tables = distribution_bytes(codec.range_coder, rest);
    let scales = match codec.context_scales {
        Some(scales) => put_two(scales.len() as int, put_fours(scales, 0, tables)),
        None => tables,
    };
    lemma_fours_len(codec.medians, 0, scales);
    lemma_floats(source, at, codec.medians, scales, "quantizer median coefficients", limits);
    let scales_at = at + 4 * codec.medians.len();
    if let Some(values) = codec.context_scales {
        let list = put_fours(values, 0, tables);
        assert(le16(source, scales_at) == values.len() && holds(source, scales_at + 2, list)
            && scales_at + 2 <= source.len() && scales.len() == 2 + list.len()) by {
            lemma_numbers();
        }
        lemma_small_number(source, scales_at, values.len() as int);
        lemma_fours_len(values, 0, tables);
        lemma_floats(source, scales_at + 2, values, tables, "context scales", limits);
    }
    let tables_at = scales_at + scales.len() - tables.len();
    assert(context_scales_at(source, scales_at, limits, has_context) == Ok::<
        (Option<Seq<u32>>, int),
        ModelError,
    >((codec.context_scales, tables_at)));
    written_distributions_read_back(source, tables_at, limits, codec.range_coder, rest);
}

/// A codec is read as it was written.
pub proof fn written_codecs_read_back(
    source: Seq<u8>,
    at: int,
    limits: ModelLimits,
    input: LatentShape,
    has_context: bool,
    encoder_name: &'static str,
    decoder_name: &'static str,
    codec: CodecSyntax,
    rest: Seq<u8>,
)
    requires
        source.len() <= usize::MAX,
        codec_can_be_written(codec, input, has_context, limits),
        holds(source, at, codec_bytes(codec, rest)),
    ensures
        ({
            let next = at + codec_bytes(codec, rest).len() - rest.len();
            &&& holds(source, next, rest)
            &&& codec_at(source, at, limits, input, has_context, encoder_name, decoder_name)
                == Ok::<(CodecSyntax, int), ModelError>((codec, next))
        }),
{
    reveal(codec_at);
    let tables = codec_table_bytes(codec, rest);
    let decoder = network_bytes(codec.decoder, tables);
    written_networks_read_back(
        source,
        at,
        limits,
        false,
        input,
        encoder_name,
        codec.encoder,
        decoder,
    );
    let middle = at + codec_bytes(codec, rest).len() - decoder.len();
    written_networks_read_back(
        source,
        middle,
        limits,
        true,
        codec.latent_shape,
        decoder_name,
        codec.decoder,
        tables,
    );
    let behind = middle + decoder.len() - tables.len();
    assert(0 <= behind) by {
        reveal(holds);
    }
    lemma_codec_tables(source, behind, limits, input, has_context, codec, rest);
    let found = codec_at(
        source,
        at,
        limits,
        input,
        has_context,
        encoder_name,
        decoder_name,
    )->Ok_0.0;
    assert(found =~= codec);
}

/// The bytes of a model: the base codec, and the context codec if it has one.
pub open spec fn model_bytes(model: ModelSyntax) -> Seq<u8> {
    codec_bytes(
        model.base,
        match model.context {
            Some(context) => codec_bytes(context, Seq::empty()),
            None => Seq::empty(),
        },
    )
}

/// The parts of a model fit: the base codec takes the 1024 lines of a spectrum, and the context
/// codec takes its latents.
pub open spec fn model_can_be_written(model: ModelSyntax, limits: ModelLimits) -> bool {
    &&& codec_can_be_written(
        model.base,
        LatentShape { dimensions: 1024, channels: 1 },
        model.model_type is Hyper,
        limits,
    )
    &&& model.context is Some <==> model.model_type is Hyper
    &&& model.context matches Some(context) ==> codec_can_be_written(
        context,
        model.base.latent_shape,
        false,
        limits,
    )
}

/// A model is read as it was written, every coefficient of it.
pub proof fn written_models_read_back(model: ModelSyntax, limits: ModelLimits)
    requires
        model_can_be_written(model, limits),
        model_bytes(model).len() <= usize::MAX,
    ensures
        model_of(model_bytes(model), model.model_type, limits) == Ok::<ModelSyntax, ModelError>(
            model,
        ),
{
    let source = model_bytes(model);
    let rest = match model.context {
        Some(context) => codec_bytes(context, Seq::empty()),
        None => Seq::empty(),
    };
    assert(holds(source, 0, source)) by {
        reveal(holds);
    }
    written_codecs_read_back(
        source,
        0,
        limits,
        LatentShape { dimensions: 1024, channels: 1 },
        model.model_type is Hyper,
        "base encoder",
        "base decoder",
        model.base,
        rest,
    );
    let middle = source.len() - rest.len();
    if let Some(context) = model.context {
        written_codecs_read_back(
            source,
            middle,
            limits,
            model.base.latent_shape,
            false,
            "context encoder",
            "context decoder",
            context,
            Seq::empty(),
        );
    }
    let found = model_of(source, model.model_type, limits);
    assert(found is Ok);
    assert(found->Ok_0 =~= model);
}

} // verus!
