//! Neural codec models: convolutional networks, quantizers and distributions, as a model file holds
//! them.

use crate::engine::latent::{
    ContextScaleTable, LatentError, LatentShape, Quantizer, MAX_LATENT_CHANNELS,
};
use crate::engine::model_reader::{
    f32s_at, i16_at, masking_undoes_itself, range_config_at, unmasked, ModelEncoding, ModelError, ModelLimits, ModelReader,
};
use crate::engine::range_coder::{RangeCoderConfig, RangeModel};
use vstd::prelude::*;

verus! {

/// Number of spectrum lines that a model encodes.
pub const AVS3_FEATURE_DIMENSIONS: usize = 1_024;

/// What stands beyond the edges of a convolution.
#[derive(Debug, Clone, Copy, PartialEq, Eq, Structural)]
pub enum Padding {
    Same,
    Valid,
}

impl Padding {
    /// The padding with number `value`.
    pub open spec fn of(value: i16) -> Result<Padding, ModelError> {
        if value == 0 {
            Ok(Padding::Same)
        } else if value == 1 {
            Ok(Padding::Valid)
        } else {
            Err(ModelError::InvalidField { field: "CNN padding", value })
        }
    }

    /// The padding with number `value`.
    pub fn parse(value: i16) -> (result: Result<Self, ModelError>)
        ensures
            result == Padding::of(value),
    {
        match value {
            0 => Ok(Padding::Same),
            1 => Ok(Padding::Valid),
            _ => Err(ModelError::InvalidField { field: "CNN padding", value }),
        }
    }
}

/// What a layer does to its sums.
#[derive(Debug, Clone, Copy, PartialEq, Eq, Structural)]
pub enum Activation {
    Relu,
    Linear,
    Sigmoid,
    Tanh,
    Gdn,
    Igdn,
    Dn,
    Idn,
}

impl Activation {
    /// The activation with number `value`.
    pub open spec fn of(value: i16) -> Result<Activation, ModelError> {
        if value == 0 {
            Ok(Activation::Relu)
        } else if value == 1 {
            Ok(Activation::Linear)
        } else if value == 2 {
            Ok(Activation::Sigmoid)
        } else if value == 3 {
            Ok(Activation::Tanh)
        } else if value == 4 {
            Ok(Activation::Gdn)
        } else if value == 5 {
            Ok(Activation::Igdn)
        } else if value == 6 {
            Ok(Activation::Dn)
        } else if value == 7 {
            Ok(Activation::Idn)
        } else {
            Err(ModelError::InvalidField { field: "CNN activation", value })
        }
    }

    /// The activation with number `value`.
    pub fn parse(value: i16) -> (result: Result<Self, ModelError>)
        ensures
            result == Activation::of(value),
    {
        match value {
            0 => Ok(Activation::Relu),
            1 => Ok(Activation::Linear),
            2 => Ok(Activation::Sigmoid),
            3 => Ok(Activation::Tanh),
            4 => Ok(Activation::Gdn),
            5 => Ok(Activation::Igdn),
            6 => Ok(Activation::Dn),
            7 => Ok(Activation::Idn),
            _ => Err(ModelError::InvalidField { field: "CNN activation", value }),
        }
    }

    /// The activation has coefficients of its own.
    pub open spec fn divides(self) -> bool {
        self is Gdn || self is Igdn
    }
}

/// The number at `position`, which has to be positive and at most `maximum`.
pub open spec fn bounded_at(
    source: Seq<u8>,
    position: int,
    field: &'static str,
    maximum: int,
) -> Result<usize, ModelError> {
    match i16_at(source, position) {
        Err(error) => Err(error),
        Ok(value) => if value <= 0 || value > maximum {
            Err(ModelError::InvalidField { field, value })
        } else {
            Ok(value as usize)
        },
    }
}

/// Check that a number is positive and at most `maximum`.
fn positive_bounded(value: i16, field: &'static str, maximum: usize) -> (result: Result<
    usize,
    ModelError,
>)
    ensures
        result == if value <= 0 || value > maximum {
            Err::<usize, ModelError>(ModelError::InvalidField { field, value })
        } else {
            Ok(value as usize)
        },
{
    if value <= 0 || value as usize > maximum {
        return Err(ModelError::InvalidField { field, value });
    }
    Ok(value as usize)
}

/// Read a number that has to be positive and at most `maximum`.
fn read_bounded(reader: &mut ModelReader<'_>, field: &'static str, maximum: usize) -> (result:
    Result<usize, ModelError>)
    requires
        old(reader).well_formed(),
    ensures
        final(reader).same_source(old(reader)),
        result == bounded_at(old(reader).source(), old(reader).cursor(), field, maximum as int),
        result is Ok ==> final(reader).cursor() == old(reader).cursor() + 2,
        result matches Ok(value) ==> 0 < value <= maximum && value <= 32_767,
{
    let value: i16 = reader.read_i16()?;
    positive_bounded(value, field, maximum)
}

/// The coefficients of a divisive normalisation.
#[derive(Debug, Clone, PartialEq, Eq)]
pub struct GdnParameters {
    beta: Vec<u32>,
    gamma: Vec<u32>,
}

/// What the coefficients of a divisive normalisation are.
#[verifier::ext_equal]
pub ghost struct GdnSyntax {
    pub beta: Seq<u32>,
    pub gamma: Seq<u32>,
}

impl GdnParameters {
    /// What the coefficients are.
    pub closed spec fn syntax(&self) -> GdnSyntax {
        GdnSyntax { beta: self.beta@, gamma: self.gamma@ }
    }

    /// The constant terms, as bit patterns.
    pub fn beta(&self) -> (beta: &[u32])
        ensures
            beta@ == self.syntax().beta,
    {
        self.beta.as_slice()
    }

    /// The matrix, as bit patterns: that of input channel `i` for output channel `o` stands at
    /// `o * channels + i`.
    pub fn gamma(&self) -> (gamma: &[u32])
        ensures
            gamma@ == self.syntax().gamma,
    {
        self.gamma.as_slice()
    }
}

/// A square matrix with rows and columns exchanged.
pub open spec fn transposed(matrix: Seq<u32>, side: int) -> Seq<u32> {
    Seq::new((side * side) as nat, |k: int| matrix[(k % side) * side + k / side])
}

/// Transposing twice gives the matrix back.
pub proof fn transposing_undoes_itself(matrix: Seq<u32>, side: int)
    requires
        0 < side,
        matrix.len() == side * side,
    ensures
        transposed(transposed(matrix, side), side) == matrix,
{
    let twice = transposed(transposed(matrix, side), side);
    assert forall|k: int| 0 <= k < matrix.len() implies twice[k] == matrix[k] by {
        let row = k / side;
        let column = k % side;
        lemma_cell(side, row, column, k);
        let other = column * side + row;
        lemma_cell_back(side, column, row);
        assert(transposed(matrix, side)[other] == matrix[row * side + column]);
    }
    assert(twice =~= matrix);
}

/// Where a cell of a square matrix stands.
proof fn lemma_cell(side: int, row: int, column: int, k: int)
    requires
        0 < side,
        0 <= k < side * side,
        row == k / side,
        column == k % side,
    ensures
        0 <= row < side,
        0 <= column < side,
        k == row * side + column,
{
    vstd::arithmetic::div_mod::lemma_fundamental_div_mod(k, side);
    vstd::arithmetic::div_mod::lemma_mod_bound(k, side);
    vstd::arithmetic::div_mod::lemma_div_pos_is_pos(k, side);
    assert(side * row == row * side) by (nonlinear_arith);
    assert(row < side) by (nonlinear_arith)
        requires
            row * side <= k,
            k < side * side,
            0 < side,
    ;
}

/// Which cell of a square matrix stands somewhere.
proof fn lemma_cell_back(side: int, row: int, column: int)
    requires
        0 <= row < side,
        0 <= column < side,
    ensures
        0 <= row * side + column < side * side,
        (row * side + column) / side == row,
        (row * side + column) % side == column,
{
    assert(0 <= row * side + column < side * side) by (nonlinear_arith)
        requires
            0 <= row < side,
            0 <= column < side,
    ;
    vstd::arithmetic::div_mod::lemma_fundamental_div_mod_converse(
        row * side + column,
        side,
        row,
        column,
    );
}

/// Exchange the rows and columns of a square matrix.
fn transpose_matrix(matrix: &[u32], side: usize) -> (result: Vec<u32>)
    requires
        0 < side,
        matrix@.len() == side * side,
    ensures
        result@ == transposed(matrix@, side as int),
{
    assert(matrix.len() == matrix@.len());
    let mut result: Vec<u32> = Vec::new();
    let mut row: usize = 0;
    assert(0 * side == 0) by (nonlinear_arith);
    while row < side
        invariant
            row <= side,
            0 < side,
            matrix@.len() == side * side <= usize::MAX,
            result@.len() == row * side,
            forall|k: int|
                0 <= k < result@.len() ==> #[trigger] result@[k] == transposed(
                    matrix@,
                    side as int,
                )[k],
        decreases side - row,
    {
        let mut column: usize = 0;
        while column < side
            invariant
                row < side,
                column <= side,
                matrix@.len() == side * side <= usize::MAX,
                result@.len() == row * side + column,
                forall|k: int|
                    0 <= k < result@.len() ==> #[trigger] result@[k] == transposed(
                        matrix@,
                        side as int,
                    )[k],
            decreases side - column,
        {
            proof {
                lemma_cell_back(side as int, column as int, row as int);
                lemma_cell_back(side as int, row as int, column as int);
                assert(column * side <= column * side + row);
            }
            let value: u32 = matrix[column * side + row];
            result.push(value);
            column = column + 1;
        }
        assert((row + 1) * side == row * side + side) by (nonlinear_arith);
        row = row + 1;
    }
    assert(result@ =~= transposed(matrix@, side as int));
    result
}

/// The first fields of a layer.
pub struct LayerHead {
    pub padding: Padding,
    pub stride: usize,
    pub use_bias: bool,
    pub activation: Activation,
    pub kernel_size: usize,
    pub input_channels: usize,
    pub output_channels: usize,
}

/// Most channels of a layer.
pub open spec fn channel_limit(limits: ModelLimits) -> int {
    if limits.max_channels < MAX_LATENT_CHANNELS {
        limits.max_channels as int
    } else {
        MAX_LATENT_CHANNELS as int
    }
}

/// Whether the layer at `position` says that it has a bias.
pub open spec fn bias_flag_at(source: Seq<u8>, position: int) -> Result<bool, ModelError> {
    match i16_at(source, position) {
        Err(error) => Err(error),
        Ok(value) => if value == 0 {
            Ok(false)
        } else if value == 1 {
            Ok(true)
        } else {
            Err(ModelError::InvalidField { field: "CNN use-bias flag", value })
        },
    }
}

/// The fourteen bytes at `position` with which a layer starts.
pub open spec fn layer_head_at(source: Seq<u8>, position: int, limits: ModelLimits) -> Result<
    LayerHead,
    ModelError,
> {
    match i16_at(source, position) {
        Err(error) => Err(error),
        Ok(raw_padding) => match Padding::of(raw_padding) {
            Err(error) => Err(error),
            Ok(padding) => match bounded_at(source, position + 2, "CNN stride", 2) {
                Err(error) => Err(error),
                Ok(stride) => match bias_flag_at(source, position + 4) {
                    Err(error) => Err(error),
                    Ok(use_bias) => match i16_at(source, position + 6) {
                        Err(error) => Err(error),
                        Ok(raw_activation) => match Activation::of(raw_activation) {
                            Err(error) => Err(error),
                            Ok(activation) => match bounded_at(
                                source,
                                position + 8,
                                "CNN kernel size",
                                limits.max_kernel_size as int,
                            ) {
                                Err(error) => Err(error),
                                Ok(kernel_size) => match bounded_at(
                                    source,
                                    position + 10,
                                    "CNN input channels",
                                    channel_limit(limits),
                                ) {
                                    Err(error) => Err(error),
                                    Ok(input_channels) => match bounded_at(
                                        source,
                                        position + 12,
                                        "CNN output channels",
                                        channel_limit(limits),
                                    ) {
                                        Err(error) => Err(error),
                                        Ok(output_channels) => Ok(
                                            LayerHead {
                                                padding,
                                                stride,
                                                use_bias,
                                                activation,
                                                kernel_size,
                                                input_channels,
                                                output_channels,
                                            },
                                        ),
                                    },
                                },
                            },
                        },
                    },
                },
            },
        },
    }
}

/// Read the first fields of a layer.
fn read_layer_head(reader: &mut ModelReader<'_>) -> (result: Result<LayerHead, ModelError>)
    requires
        old(reader).well_formed(),
    ensures
        final(reader).same_source(old(reader)),
        result == layer_head_at(old(reader).source(), old(reader).cursor(), old(reader).bounds()),
        result matches Ok(head) ==> {
            &&& final(reader).cursor() == old(reader).cursor() + 14
            &&& 0 < head.stride <= 2
            &&& 0 < head.kernel_size <= 32_767
            &&& 0 < head.input_channels <= 32_767
            &&& 0 < head.output_channels <= 32_767
        },
{
    let limits: ModelLimits = reader.limits();
    let channels: usize = if limits.max_channels < MAX_LATENT_CHANNELS {
        limits.max_channels
    } else {
        MAX_LATENT_CHANNELS
    };
    let raw_padding: i16 = reader.read_i16()?;
    let padding = Padding::parse(raw_padding)?;
    let stride: usize = read_bounded(reader, "CNN stride", 2)?;
    let raw_bias: i16 = reader.read_i16()?;
    let use_bias: bool = match raw_bias {
        0 => false,
        1 => true,
        _ => {
            return Err(ModelError::InvalidField { field: "CNN use-bias flag", value: raw_bias });
        },
    };
    let raw_activation: i16 = reader.read_i16()?;
    let activation = Activation::parse(raw_activation)?;
    let kernel_size: usize = read_bounded(reader, "CNN kernel size", limits.max_kernel_size)?;
    let input_channels: usize = read_bounded(reader, "CNN input channels", channels)?;
    let output_channels: usize = read_bounded(reader, "CNN output channels", channels)?;
    Ok(
        LayerHead {
            padding,
            stride,
            use_bias,
            activation,
            kernel_size,
            input_channels,
            output_channels,
        },
    )
}

/// The shape that a layer makes of `input`. A convolution divides the dimensions by its stride, a
/// transposed one multiplies them.
pub open spec fn layer_output(
    head: LayerHead,
    transpose: bool,
    input: LatentShape,
    network: &'static str,
    layer: int,
) -> Result<LatentShape, ModelError> {
    let dimensions = if transpose {
        input.dimensions * head.stride
    } else {
        (input.dimensions / head.stride) as int
    };
    if head.input_channels != input.channels {
        Err(
            ModelError::ChannelMismatch {
                network,
                layer: layer as usize,
                expected: input.channels,
                actual: head.input_channels,
            },
        )
    } else if transpose && dimensions > usize::MAX {
        Err(ModelError::IntegerOverflow)
    } else if !transpose && input.dimensions % head.stride != 0 {
        Err(
            ModelError::DimensionNotDivisible {
                network,
                layer: layer as usize,
                dimensions: input.dimensions,
                stride: head.stride,
            },
        )
    } else {
        let shape = LatentShape {
            dimensions: dimensions as usize,
            channels: head.output_channels,
        };
        if shape.well_formed() {
            Ok(shape)
        } else {
            Err(
                ModelError::Latent(
                    LatentError::InvalidShape {
                        dimensions: shape.dimensions,
                        channels: shape.channels,
                    },
                ),
            )
        }
    }
}

/// Work out the shape that a layer makes of `input`.
fn layer_output_shape(
    head: &LayerHead,
    transpose: bool,
    input: LatentShape,
    network: &'static str,
    layer: usize,
) -> (result: Result<LatentShape, ModelError>)
    requires
        0 < head.stride <= 2,
    ensures
        result == layer_output(*head, transpose, input, network, layer as int),
        result matches Ok(shape) ==> shape.well_formed() && shape.channels == head.output_channels
            && input.channels == head.input_channels,
{
    if head.input_channels != input.channels {
        return Err(
            ModelError::ChannelMismatch {
                network,
                layer,
                expected: input.channels,
                actual: head.input_channels,
            },
        );
    }
    let dimensions: usize = if transpose {
        match input.dimensions.checked_mul(head.stride) {
            Some(dimensions) => dimensions,
            None => {
                return Err(ModelError::IntegerOverflow);
            },
        }
    } else {
        if input.dimensions % head.stride != 0 {
            return Err(
                ModelError::DimensionNotDivisible {
                    network,
                    layer,
                    dimensions: input.dimensions,
                    stride: head.stride,
                },
            );
        }
        input.dimensions / head.stride
    };
    match LatentShape::new(dimensions, head.output_channels) {
        Ok(shape) => Ok(shape),
        Err(error) => Err(ModelError::Latent(error)),
    }
}

/// What a layer is.
#[verifier::ext_equal]
pub ghost struct LayerSyntax {
    pub transpose: bool,
    pub padding: Padding,
    pub stride: usize,
    pub activation: Activation,
    pub kernel_size: usize,
    pub input_shape: LatentShape,
    pub output_shape: LatentShape,
    pub kernel: Seq<u32>,
    pub bias: Option<Seq<u32>>,
    pub gdn: Option<GdnSyntax>,
}

impl LayerSyntax {
    /// The layer has a coefficient for every tap and every pair of channels.
    pub open spec fn well_formed(self) -> bool {
        &&& self.input_shape.well_formed()
        &&& self.output_shape.well_formed()
        &&& 0 < self.stride <= 2
        &&& self.kernel.len() == self.kernel_size * self.input_shape.channels
            * self.output_shape.channels
        &&& self.kernel.len() <= usize::MAX
    }
}

/// The bias of a layer at `position`, and the position behind it.
pub open spec fn bias_at(
    source: Seq<u8>,
    position: int,
    head: LayerHead,
    limits: ModelLimits,
) -> Result<(Option<Seq<u32>>, int), ModelError> {
    if head.use_bias {
        match f32s_at(
            source,
            position,
            head.output_channels as int,
            "CNN bias coefficients",
            limits,
        ) {
            Err(error) => Err(error),
            Ok(bias) => Ok((Some(bias), position + 4 * head.output_channels)),
        }
    } else {
        Ok((None, position))
    }
}

/// The normalisation coefficients of a layer at `position`, and the position behind them.
pub open spec fn gdn_at(
    source: Seq<u8>,
    position: int,
    head: LayerHead,
    limits: ModelLimits,
) -> Result<(Option<GdnSyntax>, int), ModelError> {
    let channels = head.output_channels as int;
    if head.activation.divides() {
        match f32s_at(source, position, channels, "GDN beta coefficients", limits) {
            Err(error) => Err(error),
            Ok(beta) => match f32s_at(
                source,
                position + 4 * channels,
                channels * channels,
                "GDN gamma coefficients",
                limits,
            ) {
                Err(error) => Err(error),
                Ok(gamma) => Ok(
                    (
                        Some(GdnSyntax { beta, gamma: transposed(gamma, channels) }),
                        position + 4 * channels + 4 * (channels * channels),
                    ),
                ),
            },
        }
    } else {
        Ok((None, position))
    }
}

/// The layer at `position`, and the position behind it.
#[verifier::opaque]
pub open spec fn layer_at(
    source: Seq<u8>,
    position: int,
    limits: ModelLimits,
    transpose: bool,
    input: LatentShape,
    network: &'static str,
    layer: int,
) -> Result<(LayerSyntax, int), ModelError> {
    match layer_head_at(source, position, limits) {
        Err(error) => Err(error),
        Ok(head) => match layer_output(head, transpose, input, network, layer) {
            Err(error) => Err(error),
            Ok(output_shape) => {
                let values = head.kernel_size * head.input_channels * head.output_channels;
                if values > usize::MAX {
                    Err(ModelError::IntegerOverflow)
                } else {
                    match f32s_at(
                        source,
                        position + 14,
                        values,
                        "CNN kernel coefficients",
                        limits,
                    ) {
                        Err(error) => Err(error),
                        Ok(kernel) => match bias_at(
                            source,
                            position + 14 + 4 * values,
                            head,
                            limits,
                        ) {
                            Err(error) => Err(error),
                            Ok((bias, behind)) => match gdn_at(source, behind, head, limits) {
                                Err(error) => Err(error),
                                Ok((gdn, end)) => Ok(
                                    (
                                        LayerSyntax {
                                            transpose,
                                            padding: head.padding,
                                            stride: head.stride,
                                            activation: head.activation,
                                            kernel_size: head.kernel_size,
                                            input_shape: input,
                                            output_shape,
                                            kernel,
                                            bias,
                                            gdn,
                                        },
                                        end,
                                    ),
                                ),
                            },
                        },
                    }
                }
            },
        },
    }
}

/// A bias as a sequence.
pub open spec fn bias_view(bias: Option<Vec<u32>>) -> Option<Seq<u32>> {
    match bias {
        None => None,
        Some(values) => Some(values@),
    }
}

/// Normalisation coefficients as sequences.
pub open spec fn gdn_view(gdn: Option<GdnParameters>) -> Option<GdnSyntax> {
    match gdn {
        None => None,
        Some(parameters) => Some(parameters.syntax()),
    }
}

/// Read the bias of a layer.
fn read_bias(reader: &mut ModelReader<'_>, head: &LayerHead) -> (result: Result<
    Option<Vec<u32>>,
    ModelError,
>)
    requires
        old(reader).well_formed(),
    ensures
        final(reader).same_source(old(reader)),
        match bias_at(old(reader).source(), old(reader).cursor(), *head, old(reader).bounds()) {
            Err(error) => result == Err::<Option<Vec<u32>>, ModelError>(error),
            Ok((bias, end)) => result is Ok && bias_view(result->Ok_0) == bias && final(
                reader).cursor() == end,
        },
{
    if head.use_bias {
        let bias = reader.read_f32s(head.output_channels, "CNN bias coefficients")?;
        return Ok(Some(bias));
    }
    Ok(None)
}

/// Read the normalisation coefficients of a layer.
fn read_gdn(reader: &mut ModelReader<'_>, head: &LayerHead) -> (result: Result<
    Option<GdnParameters>,
    ModelError,
>)
    requires
        old(reader).well_formed(),
        0 < head.output_channels <= 32_767,
    ensures
        final(reader).same_source(old(reader)),
        match gdn_at(old(reader).source(), old(reader).cursor(), *head, old(reader).bounds()) {
            Err(error) => result == Err::<Option<GdnParameters>, ModelError>(error),
            Ok((gdn, end)) => result is Ok && gdn_view(result->Ok_0) == gdn && final(
                reader).cursor() == end,
        },
{
    let divides: bool = matches!(head.activation, Activation::Gdn | Activation::Igdn);
    if !divides {
        return Ok(None);
    }
    let channels: usize = head.output_channels;
    let beta = reader.read_f32s(channels, "GDN beta coefficients")?;
    assert(channels * channels <= 32_767 * 32_767) by (nonlinear_arith)
        requires
            0 < channels <= 32_767,
    ;
    let serialized = reader.read_f32s(channels * channels, "GDN gamma coefficients")?;
    let gamma = transpose_matrix(serialized.as_slice(), channels);
    Ok(Some(GdnParameters { beta, gamma }))
}

/// A layer of a convolutional network. Its coefficients are kept as bit patterns.
#[derive(Debug, Clone, PartialEq, Eq)]
pub struct CnnLayer {
    transpose: bool,
    padding: Padding,
    stride: usize,
    activation: Activation,
    kernel_size: usize,
    input_shape: LatentShape,
    output_shape: LatentShape,
    kernel: Vec<u32>,
    bias: Option<Vec<u32>>,
    gdn: Option<GdnParameters>,
}

/// Where the coefficient for a tap, an input channel and an output channel stands. A transposed
/// convolution has the input channel last, an ordinary one the output channel.
pub open spec fn kernel_index(
    transpose: bool,
    inputs: int,
    outputs: int,
    tap: int,
    input: int,
    output: int,
) -> int {
    if transpose {
        (tap * outputs + output) * inputs + input
    } else {
        (tap * inputs + input) * outputs + output
    }
}

/// Numbers in a mixed base stay below the product of the bases.
proof fn lemma_mixed(a: int, b: int, c: int, x: int, y: int, z: int)
    requires
        0 <= x < a,
        0 <= y < b,
        0 <= z < c,
    ensures
        0 <= x * b,
        0 <= x * b + y < a * b,
        0 <= (x * b + y) * c,
        0 <= (x * b + y) * c + z < a * b * c,
{
    assert(0 <= x * b && 0 <= x * b + y < a * b) by (nonlinear_arith)
        requires
            0 <= x < a,
            0 <= y < b,
    ;
    let q = x * b + y;
    let p = a * b;
    assert(0 <= q * c && 0 <= q * c + z < p * c) by (nonlinear_arith)
        requires
            0 <= q < p,
            0 <= z < c,
    ;
}

/// Numbers in a mixed base are told apart.
proof fn lemma_mixed_unique(c: int, q: int, z: int, r: int, w: int)
    requires
        0 <= z < c,
        0 <= w < c,
        q * c + z == r * c + w,
    ensures
        q == r,
        z == w,
{
    vstd::arithmetic::div_mod::lemma_fundamental_div_mod_converse(q * c + z, c, q, z);
    vstd::arithmetic::div_mod::lemma_fundamental_div_mod_converse(r * c + w, c, r, w);
}

/// Every tap and pair of channels has a coefficient of its own.
pub proof fn kernel_coefficients_are_distinct(
    transpose: bool,
    inputs: int,
    outputs: int,
    tap: int,
    input: int,
    output: int,
    other_tap: int,
    other_input: int,
    other_output: int,
)
    requires
        0 <= input < inputs,
        0 <= other_input < inputs,
        0 <= output < outputs,
        0 <= other_output < outputs,
        kernel_index(transpose, inputs, outputs, tap, input, output) == kernel_index(
            transpose,
            inputs,
            outputs,
            other_tap,
            other_input,
            other_output,
        ),
    ensures
        tap == other_tap,
        input == other_input,
        output == other_output,
{
    if transpose {
        lemma_mixed_unique(
            inputs,
            tap * outputs + output,
            input,
            other_tap * outputs + other_output,
            other_input,
        );
        lemma_mixed_unique(outputs, tap, output, other_tap, other_output);
    } else {
        lemma_mixed_unique(
            outputs,
            tap * inputs + input,
            output,
            other_tap * inputs + other_input,
            other_output,
        );
        lemma_mixed_unique(inputs, tap, input, other_tap, other_input);
    }
}

impl CnnLayer {
    /// What the layer is.
    pub closed spec fn syntax(&self) -> LayerSyntax {
        LayerSyntax {
            transpose: self.transpose,
            padding: self.padding,
            stride: self.stride,
            activation: self.activation,
            kernel_size: self.kernel_size,
            input_shape: self.input_shape,
            output_shape: self.output_shape,
            kernel: self.kernel@,
            bias: bias_view(self.bias),
            gdn: gdn_view(self.gdn),
        }
    }

    /// Whether this is a transposed convolution.
    pub fn is_transpose(&self) -> (transpose: bool)
        ensures
            transpose == self.syntax().transpose,
    {
        self.transpose
    }

    pub fn padding(&self) -> (padding: Padding)
        ensures
            padding == self.syntax().padding,
    {
        self.padding
    }

    pub fn stride(&self) -> (stride: usize)
        ensures
            stride == self.syntax().stride,
    {
        self.stride
    }

    pub fn activation(&self) -> (activation: Activation)
        ensures
            activation == self.syntax().activation,
    {
        self.activation
    }

    pub fn kernel_size(&self) -> (kernel_size: usize)
        ensures
            kernel_size == self.syntax().kernel_size,
    {
        self.kernel_size
    }

    pub fn input_shape(&self) -> (shape: LatentShape)
        ensures
            shape == self.syntax().input_shape,
    {
        self.input_shape
    }

    pub fn output_shape(&self) -> (shape: LatentShape)
        ensures
            shape == self.syntax().output_shape,
    {
        self.output_shape
    }

    /// All coefficients, as they stand in the file.
    pub fn kernel_coefficients(&self) -> (kernel: &[u32])
        ensures
            kernel@ == self.syntax().kernel,
    {
        self.kernel.as_slice()
    }

    /// The bias of each output channel.
    pub fn bias(&self) -> (bias: Option<&[u32]>)
        ensures
            match self.syntax().bias {
                None => bias is None,
                Some(values) => bias is Some && bias->0@ == values,
            },
    {
        match &self.bias {
            None => None,
            Some(values) => Some(values.as_slice()),
        }
    }

    /// The coefficients of the normalisation.
    pub fn gdn_parameters(&self) -> (gdn: Option<&GdnParameters>)
        ensures
            match self.syntax().gdn {
                None => gdn is None,
                Some(syntax) => gdn is Some && gdn->0.syntax() == syntax,
            },
    {
        match &self.gdn {
            None => None,
            Some(parameters) => Some(parameters),
        }
    }

    /// The coefficient for a tap, an input channel and an output channel, whatever the order in the
    /// file.
    pub fn kernel_coefficient(
        &self,
        tap: usize,
        input_channel: usize,
        output_channel: usize,
    ) -> (coefficient: Option<u32>)
        requires
            self.syntax().well_formed(),
        ensures
            ({
                let syntax = self.syntax();
                let inputs = syntax.input_shape.channels;
                let outputs = syntax.output_shape.channels;
                coefficient == if tap < syntax.kernel_size && input_channel < inputs
                    && output_channel < outputs {
                    Some(
                        syntax.kernel[kernel_index(
                            syntax.transpose,
                            inputs as int,
                            outputs as int,
                            tap as int,
                            input_channel as int,
                            output_channel as int,
                        )],
                    )
                } else {
                    None::<u32>
                }
            }),
    {
        let inputs: usize = self.input_shape.channels;
        let outputs: usize = self.output_shape.channels;
        if tap >= self.kernel_size || input_channel >= inputs || output_channel >= outputs {
            return None;
        }
        proof {
            let taps = self.kernel_size as int;
            lemma_mixed(
                taps,
                outputs as int,
                inputs as int,
                tap as int,
                output_channel as int,
                input_channel as int,
            );
            lemma_mixed(
                taps,
                inputs as int,
                outputs as int,
                tap as int,
                input_channel as int,
                output_channel as int,
            );
            assert(taps * outputs * inputs == taps * inputs * outputs) by (nonlinear_arith);
            let a = (tap * outputs + output_channel) as int;
            let b = (tap * inputs + input_channel) as int;
            assert(a <= a * inputs && b <= b * outputs) by (nonlinear_arith)
                requires
                    0 <= a,
                    0 <= b,
                    1 <= inputs,
                    1 <= outputs,
            ;
        }
        let index: usize = if self.transpose {
            (tap * outputs + output_channel) * inputs + input_channel
        } else {
            (tap * inputs + input_channel) * outputs + output_channel
        };
        Some(self.kernel[index])
    }

    /// Read a layer.
    pub fn read(
        reader: &mut ModelReader<'_>,
        transpose: bool,
        input_shape: LatentShape,
        network: &'static str,
        layer: usize,
    ) -> (result: Result<Self, ModelError>)
        requires
            old(reader).well_formed(),
            input_shape.well_formed(),
        ensures
            final(reader).same_source(old(reader)),
            match layer_at(
                old(reader).source(),
                old(reader).cursor(),
                old(reader).bounds(),
                transpose,
                input_shape,
                network,
                layer as int,
            ) {
                Err(error) => result == Err::<Self, ModelError>(error),
                Ok((syntax, end)) => {
                    &&& result is Ok
                    &&& result->Ok_0.syntax() == syntax
                    &&& syntax.well_formed()
                    &&& syntax.input_shape == input_shape
                    &&& final(reader).cursor() == end
                },
            },
    {
        proof {
            reveal(layer_at);
        }
        let head = read_layer_head(reader)?;
        let output_shape = layer_output_shape(&head, transpose, input_shape, network, layer)?;
        proof {
            lemma_product_overflow(
                head.kernel_size as int,
                head.input_channels as int,
                head.output_channels as int,
            );
        }
        let pairs: usize = match head.kernel_size.checked_mul(head.input_channels) {
            Some(pairs) => pairs,
            None => {
                return Err(ModelError::IntegerOverflow);
            },
        };
        let values: usize = match pairs.checked_mul(head.output_channels) {
            Some(values) => values,
            None => {
                return Err(ModelError::IntegerOverflow);
            },
        };
        let kernel = reader.read_f32s(values, "CNN kernel coefficients")?;
        let bias = read_bias(reader, &head)?;
        let gdn = read_gdn(reader, &head)?;
        Ok(
            CnnLayer {
                transpose,
                padding: head.padding,
                stride: head.stride,
                activation: head.activation,
                kernel_size: head.kernel_size,
                input_shape,
                output_shape,
                kernel,
                bias,
                gdn,
            },
        )
    }
}

proof fn lemma_product_overflow(a: int, b: int, c: int)
    requires
        0 < a,
        0 < b,
        0 < c,
    ensures
        a * b <= a * b * c,
{
    assert(0 < a * b) by (nonlinear_arith)
        requires
            0 < a,
            0 < b,
    ;
    let p = a * b;
    assert(p <= p * c) by (nonlinear_arith)
        requires
            0 < p,
            0 < c,
    ;
}

/// What a network is.
#[verifier::ext_equal]
pub ghost struct NetworkSyntax {
    pub transpose: bool,
    pub input_shape: LatentShape,
    pub output_shape: LatentShape,
    pub layers: Seq<LayerSyntax>,
}

/// The layers from number `layer` on, the shape behind them, and the position behind them.
pub open spec fn layers_at(
    source: Seq<u8>,
    position: int,
    limits: ModelLimits,
    transpose: bool,
    shape: LatentShape,
    network: &'static str,
    layer: int,
    count: int,
) -> Result<(Seq<LayerSyntax>, LatentShape, int), ModelError>
    decreases count - layer,
{
    if layer >= count {
        Ok((Seq::empty(), shape, position))
    } else {
        match layer_at(source, position, limits, transpose, shape, network, layer) {
            Err(error) => Err(error),
            Ok((first, next)) => match layers_at(
                source,
                next,
                limits,
                transpose,
                first.output_shape,
                network,
                layer + 1,
                count,
            ) {
                Err(error) => Err(error),
                Ok((rest, output, end)) => Ok((seq![first] + rest, output, end)),
            },
        }
    }
}

/// The network at `position`, and the position behind it.
#[verifier::opaque]
pub open spec fn network_at(
    source: Seq<u8>,
    position: int,
    limits: ModelLimits,
    transpose: bool,
    input_shape: LatentShape,
    network: &'static str,
) -> Result<(NetworkSyntax, int), ModelError> {
    match i16_at(source, position) {
        Err(error) => Err(error),
        Ok(count) => if count <= 0 || count > limits.max_layers {
            Err(ModelError::InvalidLayerCount { network, value: count, limit: limits.max_layers })
        } else {
            match layers_at(
                source,
                position + 2,
                limits,
                transpose,
                input_shape,
                network,
                0,
                count as int,
            ) {
                Err(error) => Err(error),
                Ok((layers, output_shape, end)) => Ok(
                    (NetworkSyntax { transpose, input_shape, output_shape, layers }, end),
                ),
            }
        },
    }
}

/// The layers as what they are.
pub open spec fn layers_view(layers: Seq<CnnLayer>) -> Seq<LayerSyntax> {
    Seq::new(layers.len(), |i: int| layers[i].syntax())
}

/// A convolutional network.
#[derive(Debug, Clone, PartialEq, Eq)]
pub struct CnnNetwork {
    transpose: bool,
    input_shape: LatentShape,
    output_shape: LatentShape,
    layers: Vec<CnnLayer>,
}

/// The shape in front of layer `index`.
pub open spec fn shape_before(
    layers: Seq<LayerSyntax>,
    input_shape: LatentShape,
    index: int,
) -> LatentShape {
    if index <= 0 {
        input_shape
    } else {
        layers[index - 1].output_shape
    }
}

/// Every layer is sound, takes what the layer before it gives, and the last one gives what the
/// network gives.
pub open spec fn layers_fit(
    layers: Seq<LayerSyntax>,
    input_shape: LatentShape,
    output_shape: LatentShape,
) -> bool {
    &&& forall|i: int| 0 <= i < layers.len() ==> (#[trigger] layers[i]).well_formed()
    &&& forall|i: int|
        0 <= i < layers.len() ==> layers[i].input_shape == #[trigger] shape_before(
            layers,
            input_shape,
            i,
        )
    &&& output_shape == shape_before(layers, input_shape, layers.len() as int)
}

impl CnnNetwork {
    /// What the network is.
    pub closed spec fn syntax(&self) -> NetworkSyntax {
        NetworkSyntax {
            transpose: self.transpose,
            input_shape: self.input_shape,
            output_shape: self.output_shape,
            layers: layers_view(self.layers@),
        }
    }

    /// Whether this is a network of transposed convolutions.
    pub fn is_transpose(&self) -> (transpose: bool)
        ensures
            transpose == self.syntax().transpose,
    {
        self.transpose
    }

    pub fn input_shape(&self) -> (shape: LatentShape)
        ensures
            shape == self.syntax().input_shape,
    {
        self.input_shape
    }

    pub fn output_shape(&self) -> (shape: LatentShape)
        ensures
            shape == self.syntax().output_shape,
    {
        self.output_shape
    }

    pub fn layers(&self) -> (layers: &[CnnLayer])
        ensures
            layers_view(layers@) == self.syntax().layers,
    {
        self.layers.as_slice()
    }

    /// Read a network.
    pub fn read(
        reader: &mut ModelReader<'_>,
        transpose: bool,
        input_shape: LatentShape,
        network: &'static str,
    ) -> (result: Result<Self, ModelError>)
        requires
            old(reader).well_formed(),
            input_shape.well_formed(),
        ensures
            final(reader).same_source(old(reader)),
            match network_at(
                old(reader).source(),
                old(reader).cursor(),
                old(reader).bounds(),
                transpose,
                input_shape,
                network,
            ) {
                Err(error) => result == Err::<Self, ModelError>(error),
                Ok((syntax, end)) => {
                    &&& result is Ok
                    &&& result->Ok_0.syntax() == syntax
                    &&& syntax.input_shape == input_shape
                    &&& syntax.output_shape.well_formed()
                    &&& layers_fit(syntax.layers, syntax.input_shape, syntax.output_shape)
                    &&& final(reader).cursor() == end
                },
            },
    {
        let max_layers: usize = reader.limits().max_layers;
        let ghost source = reader.source();
        let ghost limits = reader.bounds();
        proof {
            reveal(network_at);
        }
        let ghost goal = network_at(
            source,
            reader.cursor(),
            limits,
            transpose,
            input_shape,
            network,
        );
        let count_raw: i16 = reader.read_i16()?;
        if count_raw <= 0 || count_raw as usize > max_layers {
            return Err(
                ModelError::InvalidLayerCount { network, value: count_raw, limit: max_layers },
            );
        }
        let count: usize = count_raw as usize;
        let ghost start = reader.cursor();
        let ghost all = layers_at(
            source,
            start,
            limits,
            transpose,
            input_shape,
            network,
            0,
            count as int,
        );
        let mut layers: Vec<CnnLayer> = Vec::new();
        let mut shape: LatentShape = input_shape;
        assert(layers_view(layers@) =~= Seq::empty());
        proof {
            if all is Ok {
                assert(layers_view(layers@) + (all->Ok_0).0 =~= (all->Ok_0).0);
            }
        }
        while layers.len() < count
            invariant
                layers@.len() <= count,
                reader.same_source(old(reader)),
                source == old(reader).source(),
                limits == old(reader).bounds(),
                shape.well_formed(),
                layers_fit(layers_view(layers@), input_shape, shape),
                match all {
                    Err(error) => goal == Err::<(NetworkSyntax, int), ModelError>(error),
                    Ok((found, output_shape, end)) => goal == Ok::<(NetworkSyntax, int), ModelError>(
                        (
                            NetworkSyntax { transpose, input_shape, output_shape, layers: found },
                            end,
                        ),
                    ),
                },
                goal == network_at(
                    source,
                    old(reader).cursor(),
                    limits,
                    transpose,
                    input_shape,
                    network,
                ),
                match layers_at(
                    source,
                    reader.cursor(),
                    limits,
                    transpose,
                    shape,
                    network,
                    layers@.len() as int,
                    count as int,
                ) {
                    Err(error) => all == Err::<(Seq<LayerSyntax>, LatentShape, int), ModelError>(
                        error,
                    ),
                    Ok((rest, output, end)) => all == Ok::<
                        (Seq<LayerSyntax>, LatentShape, int),
                        ModelError,
                    >((layers_view(layers@) + rest, output, end)),
                },
            decreases count - layers@.len(),
        {
            let index: usize = layers.len();
            let ghost before = layers_view(layers@);
            let parsed = CnnLayer::read(reader, transpose, shape, network, index)?;
            shape = parsed.output_shape;
            let ghost first = parsed.syntax();
            layers.push(parsed);
            proof {
                let after = layers_view(layers@);
                assert(after =~= before.push(first));
                assert forall|i: int| 0 <= i < after.len() implies after[i].input_shape
                    == #[trigger] shape_before(after, input_shape, i) by {
                    if i < before.len() {
                        assert(before[i].input_shape == shape_before(before, input_shape, i));
                    }
                }
                if let Ok((rest, _, _)) = layers_at(
                    source,
                    reader.cursor(),
                    limits,
                    transpose,
                    shape,
                    network,
                    index as int + 1,
                    count as int,
                ) {
                    assert(before + (seq![first] + rest) =~= after + rest);
                }
            }
        }
        assert(layers_view(layers@) + Seq::<LayerSyntax>::empty() =~= layers_view(layers@));
        Ok(CnnNetwork { transpose, input_shape, output_shape: shape, layers })
    }
}

/// Whether a model has a second network that predicts the scales of the first.
#[derive(Debug, Clone, Copy, PartialEq, Eq, Structural)]
pub enum NeuralModelType {
    Vae,
    Hyper,
}

/// What a codec is.
#[verifier::ext_equal]
pub ghost struct CodecSyntax {
    pub input_shape: LatentShape,
    pub latent_shape: LatentShape,
    pub encoder: NetworkSyntax,
    pub decoder: NetworkSyntax,
    pub medians: Seq<u32>,
    pub context_scales: Option<Seq<u32>>,
    pub range_coder: RangeModel,
}

/// The context scales at `position`, if there are to be any, and the position behind them.
#[verifier::opaque]
pub open spec fn context_scales_at(
    source: Seq<u8>,
    position: int,
    limits: ModelLimits,
    has_context: bool,
) -> Result<(Option<Seq<u32>>, int), ModelError> {
    if has_context {
        match bounded_at(source, position, "context-scale count", 65_535) {
            Err(error) => Err(error),
            Ok(count) => match f32s_at(
                source,
                position + 2,
                count as int,
                "context scales",
                limits,
            ) {
                Err(error) => Err(error),
                Ok(scales) => Ok((Some(scales), position + 2 + 4 * count)),
            },
        }
    } else {
        Ok((None, position))
    }
}

/// The tables of a codec at `position`: medians, context scales and distributions.
#[verifier::opaque]
pub open spec fn codec_tables_at(
    source: Seq<u8>,
    position: int,
    limits: ModelLimits,
    has_context: bool,
    channels: int,
) -> Result<(Seq<u32>, Option<Seq<u32>>, RangeModel, int), ModelError> {
    match f32s_at(source, position, channels, "quantizer median coefficients", limits) {
        Err(error) => Err(error),
        Ok(medians) => match context_scales_at(
            source,
            position + 4 * channels,
            limits,
            has_context,
        ) {
            Err(error) => Err(error),
            Ok((context_scales, behind)) => {
                let count = match context_scales {
                    None => channels,
                    Some(scales) => scales.len() as int,
                };
                match range_config_at(source, behind, count, limits) {
                    Err(error) => Err(error),
                    Ok((range_coder, end)) => Ok((medians, context_scales, range_coder, end)),
                }
            },
        },
    }
}

/// The codec at `position`, and the position behind it.
#[verifier::opaque]
pub open spec fn codec_at(
    source: Seq<u8>,
    position: int,
    limits: ModelLimits,
    input_shape: LatentShape,
    has_context: bool,
    encoder_name: &'static str,
    decoder_name: &'static str,
) -> Result<(CodecSyntax, int), ModelError> {
    match network_at(source, position, limits, false, input_shape, encoder_name) {
        Err(error) => Err(error),
        Ok((encoder, middle)) => match network_at(
            source,
            middle,
            limits,
            true,
            encoder.output_shape,
            decoder_name,
        ) {
            Err(error) => Err(error),
            Ok((decoder, behind)) => if decoder.output_shape != input_shape {
                Err(
                    ModelError::NetworkOutputMismatch {
                        network: decoder_name,
                        expected_dimensions: input_shape.dimensions,
                        expected_channels: input_shape.channels,
                        actual_dimensions: decoder.output_shape.dimensions,
                        actual_channels: decoder.output_shape.channels,
                    },
                )
            } else {
                match codec_tables_at(
                    source,
                    behind,
                    limits,
                    has_context,
                    encoder.output_shape.channels as int,
                ) {
                    Err(error) => Err(error),
                    Ok((medians, context_scales, range_coder, end)) => Ok(
                        (
                            CodecSyntax {
                                input_shape,
                                latent_shape: encoder.output_shape,
                                encoder,
                                decoder,
                                medians,
                                context_scales,
                                range_coder,
                            },
                            end,
                        ),
                    ),
                }
            },
        },
    }
}

/// The parts of a codec fit together.
pub open spec fn codec_fits(syntax: CodecSyntax) -> bool {
    &&& syntax.input_shape.well_formed()
    &&& syntax.latent_shape.well_formed()
    &&& syntax.encoder.input_shape == syntax.input_shape
    &&& syntax.encoder.output_shape == syntax.latent_shape
    &&& syntax.decoder.input_shape == syntax.latent_shape
    &&& syntax.decoder.output_shape == syntax.input_shape
    &&& layers_fit(syntax.encoder.layers, syntax.input_shape, syntax.latent_shape)
    &&& layers_fit(syntax.decoder.layers, syntax.latent_shape, syntax.input_shape)
    &&& syntax.medians.len() == syntax.latent_shape.channels
    &&& syntax.range_coder.well_formed()
    &&& syntax.range_coder.cdfs.len() == match syntax.context_scales {
        None => syntax.latent_shape.channels as int,
        Some(scales) => scales.len() as int,
    }
}

/// Context scales as a sequence.
pub open spec fn scales_view(table: Option<ContextScaleTable>) -> Option<Seq<u32>> {
    match table {
        None => None,
        Some(table) => Some(table@),
    }
}

/// Read the context scales, if there are to be any.
fn read_context_scales(reader: &mut ModelReader<'_>, has_context: bool) -> (result: Result<
    Option<ContextScaleTable>,
    ModelError,
>)
    requires
        old(reader).well_formed(),
    ensures
        final(reader).same_source(old(reader)),
        match context_scales_at(
            old(reader).source(),
            old(reader).cursor(),
            old(reader).bounds(),
            has_context,
        ) {
            Err(error) => result == Err::<Option<ContextScaleTable>, ModelError>(error),
            Ok((scales, end)) => {
                &&& result is Ok
                &&& scales_view(result->Ok_0) == scales
                &&& scales is Some <==> has_context
                &&& final(reader).cursor() == end
            },
        },
{
    proof {
        reveal(context_scales_at);
    }
    if !has_context {
        return Ok(None);
    }
    let count: usize = read_bounded(reader, "context-scale count", 65_535)?;
    let scales = reader.read_f32s(count, "context scales")?;
    match ContextScaleTable::new(scales) {
        Ok(table) => Ok(Some(table)),
        Err(error) => Err(ModelError::Latent(error)),
    }
}

/// One codec of a model: networks in both directions, and the tables of its latents.
#[derive(Debug, Clone, PartialEq, Eq)]
pub struct NeuralCodecModel {
    input_shape: LatentShape,
    latent_shape: LatentShape,
    encoder: CnnNetwork,
    decoder: CnnNetwork,
    quantizer: Quantizer,
    context_scales: Option<ContextScaleTable>,
    range_coder: RangeCoderConfig,
}

impl NeuralCodecModel {
    /// What the codec is.
    pub closed spec fn syntax(&self) -> CodecSyntax {
        CodecSyntax {
            input_shape: self.input_shape,
            latent_shape: self.latent_shape,
            encoder: self.encoder.syntax(),
            decoder: self.decoder.syntax(),
            medians: self.quantizer@,
            context_scales: scales_view(self.context_scales),
            range_coder: self.range_coder.model(),
        }
    }

    pub fn input_shape(&self) -> (shape: LatentShape)
        ensures
            shape == self.syntax().input_shape,
    {
        self.input_shape
    }

    pub fn latent_shape(&self) -> (shape: LatentShape)
        ensures
            shape == self.syntax().latent_shape,
    {
        self.latent_shape
    }

    pub fn encoder(&self) -> (network: &CnnNetwork)
        ensures
            network.syntax() == self.syntax().encoder,
    {
        &self.encoder
    }

    pub fn decoder(&self) -> (network: &CnnNetwork)
        ensures
            network.syntax() == self.syntax().decoder,
    {
        &self.decoder
    }

    pub fn quantizer(&self) -> (quantizer: &Quantizer)
        ensures
            quantizer@ == self.syntax().medians,
    {
        &self.quantizer
    }

    pub fn context_scales(&self) -> (scales: Option<&ContextScaleTable>)
        ensures
            match self.syntax().context_scales {
                None => scales is None,
                Some(values) => scales is Some && scales->0@ == values,
            },
    {
        match &self.context_scales {
            None => None,
            Some(table) => Some(table),
        }
    }

    pub fn range_coder(&self) -> (config: &RangeCoderConfig)
        ensures
            config.model() == self.syntax().range_coder,
    {
        &self.range_coder
    }

    /// Read a codec.
    pub fn read(
        reader: &mut ModelReader<'_>,
        input_shape: LatentShape,
        has_context: bool,
        encoder_name: &'static str,
        decoder_name: &'static str,
    ) -> (result: Result<Self, ModelError>)
        requires
            old(reader).well_formed(),
            input_shape.well_formed(),
        ensures
            final(reader).same_source(old(reader)),
            match codec_at(
                old(reader).source(),
                old(reader).cursor(),
                old(reader).bounds(),
                input_shape,
                has_context,
                encoder_name,
                decoder_name,
            ) {
                Err(error) => result == Err::<Self, ModelError>(error),
                Ok((syntax, end)) => {
                    &&& result is Ok
                    &&& result->Ok_0.syntax() == syntax
                    &&& codec_fits(syntax)
                    &&& syntax.input_shape == input_shape
                    &&& syntax.context_scales is Some <==> has_context
                    &&& final(reader).cursor() == end
                },
            },
    {
        proof {
            reveal(codec_at);
            reveal(codec_tables_at);
        }
        let encoder = CnnNetwork::read(reader, false, input_shape, encoder_name)?;
        let latent_shape: LatentShape = encoder.output_shape;
        let decoder = CnnNetwork::read(reader, true, latent_shape, decoder_name)?;
        if decoder.output_shape.dimensions != input_shape.dimensions
            || decoder.output_shape.channels != input_shape.channels {
            return Err(
                ModelError::NetworkOutputMismatch {
                    network: decoder_name,
                    expected_dimensions: input_shape.dimensions,
                    expected_channels: input_shape.channels,
                    actual_dimensions: decoder.output_shape.dimensions,
                    actual_channels: decoder.output_shape.channels,
                },
            );
        }
        let medians = reader.read_f32s(latent_shape.channels, "quantizer median coefficients")?;
        let quantizer = match Quantizer::new(medians) {
            Ok(quantizer) => quantizer,
            Err(error) => {
                return Err(ModelError::Latent(error));
            },
        };
        let context_scales = read_context_scales(reader, has_context)?;
        let num_cdfs: usize = match &context_scales {
            None => latent_shape.channels,
            Some(table) => table.scales().len(),
        };
        let range_coder = reader.read_range_coder_config(num_cdfs)?;
        Ok(
            NeuralCodecModel {
                input_shape,
                latent_shape,
                encoder,
                decoder,
                quantizer,
                context_scales,
                range_coder,
            },
        )
    }
}

/// What a model is.
#[verifier::ext_equal]
pub ghost struct ModelSyntax {
    pub model_type: NeuralModelType,
    pub base: CodecSyntax,
    pub context: Option<CodecSyntax>,
}

/// The context codec at `position`, if there is to be one, and the position behind it.
pub open spec fn context_codec_at(
    source: Seq<u8>,
    position: int,
    limits: ModelLimits,
    input_shape: LatentShape,
    model_type: NeuralModelType,
) -> Result<(Option<CodecSyntax>, int), ModelError> {
    if model_type is Hyper {
        match codec_at(
            source,
            position,
            limits,
            input_shape,
            false,
            "context encoder",
            "context decoder",
        ) {
            Err(error) => Err(error),
            Ok((context, end)) => Ok((Some(context), end)),
        }
    } else {
        Ok((None, position))
    }
}

/// The model that plain bytes hold, to the last one.
pub open spec fn model_of(source: Seq<u8>, model_type: NeuralModelType, limits: ModelLimits) -> Result<
    ModelSyntax,
    ModelError,
> {
    match codec_at(
        source,
        0,
        limits,
        LatentShape { dimensions: AVS3_FEATURE_DIMENSIONS, channels: 1 },
        model_type is Hyper,
        "base encoder",
        "base decoder",
    ) {
        Err(error) => Err(error),
        Ok((base, middle)) => match context_codec_at(
            source,
            middle,
            limits,
            base.latent_shape,
            model_type,
        ) {
            Err(error) => Err(error),
            Ok((context, end)) => if end != source.len() {
                Err(ModelError::TrailingData { bytes: (source.len() - end) as usize })
            } else {
                Ok(ModelSyntax { model_type, base, context })
            },
        },
    }
}

/// The model that possibly obfuscated bytes hold.
pub open spec fn model_in(
    input: Seq<u8>,
    model_type: NeuralModelType,
    encoding: ModelEncoding,
    limits: ModelLimits,
) -> Result<ModelSyntax, ModelError> {
    if input.len() > limits.max_model_bytes {
        Err(
            ModelError::InputTooLarge {
                bytes: input.len() as usize,
                limit: limits.max_model_bytes,
            },
        )
    } else {
        model_of(unmasked(input, encoding.key()), model_type, limits)
    }
}

/// A context codec as what it is.
pub open spec fn context_view(context: Option<NeuralCodecModel>) -> Option<CodecSyntax> {
    match context {
        None => None,
        Some(codec) => Some(codec.syntax()),
    }
}

/// The codecs of a model fit together: the context codec encodes the latents of the base codec.
pub open spec fn model_fits(syntax: ModelSyntax) -> bool {
    &&& codec_fits(syntax.base)
    &&& syntax.base.input_shape == (LatentShape {
        dimensions: AVS3_FEATURE_DIMENSIONS,
        channels: 1,
    })
    &&& syntax.context is Some <==> syntax.model_type is Hyper
    &&& syntax.base.context_scales is Some <==> syntax.model_type is Hyper
    &&& syntax.context matches Some(context) ==> codec_fits(context) && context.input_shape
        == syntax.base.latent_shape
}

/// A neural codec model.
#[derive(Debug, Clone, PartialEq, Eq)]
pub struct NeuralModel {
    model_type: NeuralModelType,
    base: NeuralCodecModel,
    context: Option<NeuralCodecModel>,
}

impl NeuralModel {
    /// What the model is.
    pub closed spec fn syntax(&self) -> ModelSyntax {
        ModelSyntax {
            model_type: self.model_type,
            base: self.base.syntax(),
            context: context_view(self.context),
        }
    }

    /// Read a model, with the usual limits.
    pub fn from_bytes(input: &[u8], model_type: NeuralModelType, encoding: ModelEncoding) -> (result:
        Result<Self, ModelError>)
        ensures
            match model_in(input@, model_type, encoding, ModelLimits::usual()) {
                Err(error) => result == Err::<Self, ModelError>(error),
                Ok(syntax) => result is Ok && result->Ok_0.syntax() == syntax && model_fits(syntax),
            },
    {
        Self::from_bytes_with_limits(input, model_type, encoding, ModelLimits::default())
    }

    /// Read an obfuscated model, with the usual limits.
    pub fn from_obfuscated_bytes(input: &[u8], model_type: NeuralModelType) -> (result: Result<
        Self,
        ModelError,
    >)
        ensures
            match model_in(input@, model_type, ModelEncoding::Xor55, ModelLimits::usual()) {
                Err(error) => result == Err::<Self, ModelError>(error),
                Ok(syntax) => result is Ok && result->Ok_0.syntax() == syntax && model_fits(syntax),
            },
    {
        Self::from_bytes(input, model_type, ModelEncoding::Xor55)
    }

    /// Read a model, with the given limits. All bytes have to belong to it.
    pub fn from_bytes_with_limits(
        input: &[u8],
        model_type: NeuralModelType,
        encoding: ModelEncoding,
        limits: ModelLimits,
    ) -> (result: Result<Self, ModelError>)
        ensures
            match model_in(input@, model_type, encoding, limits) {
                Err(error) => result == Err::<Self, ModelError>(error),
                Ok(syntax) => result is Ok && result->Ok_0.syntax() == syntax && model_fits(syntax),
            },
    {
        let mut reader = ModelReader::with_limits(input, encoding, limits)?;
        let base_input = LatentShape { dimensions: AVS3_FEATURE_DIMENSIONS, channels: 1 };
        let hyper: bool = matches!(model_type, NeuralModelType::Hyper);
        let base = NeuralCodecModel::read(
            &mut reader,
            base_input,
            hyper,
            "base encoder",
            "base decoder",
        )?;
        let context = if hyper {
            Some(
                NeuralCodecModel::read(
                    &mut reader,
                    base.latent_shape,
                    false,
                    "context encoder",
                    "context decoder",
                )?,
            )
        } else {
            None
        };
        if !reader.is_empty() {
            return Err(ModelError::TrailingData { bytes: reader.remaining() });
        }
        Ok(NeuralModel { model_type, base, context })
    }

    pub fn model_type(&self) -> (model_type: NeuralModelType)
        ensures
            model_type == self.syntax().model_type,
    {
        self.model_type
    }

    /// The codec of the spectrum.
    pub fn base(&self) -> (codec: &NeuralCodecModel)
        ensures
            codec.syntax() == self.syntax().base,
    {
        &self.base
    }

    /// The codec of the scales of the latents.
    pub fn context(&self) -> (codec: Option<&NeuralCodecModel>)
        ensures
            match self.syntax().context {
                None => codec is None,
                Some(syntax) => codec is Some && codec->0.syntax() == syntax,
            },
    {
        match &self.context {
            None => None,
            Some(codec) => Some(codec),
        }
    }
}

/// Obfuscating a model changes nothing of what is read.
pub proof fn obfuscation_is_transparent(
    input: Seq<u8>,
    model_type: NeuralModelType,
    limits: ModelLimits,
)
    ensures
        model_in(
            unmasked(input, ModelEncoding::Xor55.key()),
            model_type,
            ModelEncoding::Xor55,
            limits,
        ) == model_in(input, model_type, ModelEncoding::Plain, limits),
{
    masking_undoes_itself(input, ModelEncoding::Xor55);
}

} // verus!
