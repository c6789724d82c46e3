//! Latent tensors: their shapes, and the tables that belong to their channels.

use crate::text::{decimal, plain, with_two_numbers};
use vstd::prelude::*;

verus! {

/// Most channels of a latent tensor: distributions are chosen by a 16-bit channel number.
pub const MAX_LATENT_CHANNELS: usize = 65_535;

/// Why a latent tensor or one of its tables was refused.
#[derive(Debug, Clone, Copy, PartialEq, Eq, Structural)]
pub enum LatentError {
    InvalidShape { dimensions: usize, channels: usize },
    EmptyQuantizer,
    EmptyContextScales,
}

impl LatentError {
    /// The error in words.
    pub open spec fn words(self) -> Seq<char> {
        match self {
            LatentError::InvalidShape { dimensions, channels } => "latent shape "@ + decimal(
                dimensions as nat,
            ) + "x"@ + decimal(channels as nat) + " is invalid"@,
            LatentError::EmptyQuantizer => "quantizer has no medians"@,
            LatentError::EmptyContextScales => "context-scale table is empty"@,
        }
    }

    /// Put the error in words.
    pub fn message(self) -> (text: String)
        ensures
            text@ == self.words(),
    {
        match self {
            LatentError::InvalidShape { dimensions, channels } => with_two_numbers(
                "latent shape ",
                dimensions as u64,
                "x",
                channels as u64,
                " is invalid",
            ),
            LatentError::EmptyQuantizer => plain("quantizer has no medians"),
            LatentError::EmptyContextScales => plain("context-scale table is empty"),
        }
    }
}

/// The shape of a latent tensor: so many dimensions in each of so many channels.
#[derive(Debug, Clone, Copy, PartialEq, Eq, Structural)]
pub struct LatentShape {
    pub dimensions: usize,
    pub channels: usize,
}

impl LatentShape {
    /// Neither side is empty, and the number of values fits.
    pub open spec fn well_formed(self) -> bool {
        &&& self.dimensions > 0
        &&& 0 < self.channels <= MAX_LATENT_CHANNELS
        &&& self.dimensions * self.channels <= usize::MAX
    }

    /// Take a shape.
    pub fn new(dimensions: usize, channels: usize) -> (result: Result<Self, LatentError>)
        ensures
            result == if (LatentShape { dimensions, channels }).well_formed() {
                Ok::<LatentShape, LatentError>(LatentShape { dimensions, channels })
            } else {
                Err(LatentError::InvalidShape { dimensions, channels })
            },
    {
        if dimensions == 0 || channels == 0 || channels > MAX_LATENT_CHANNELS {
            return Err(LatentError::InvalidShape { dimensions, channels });
        }
        if dimensions.checked_mul(channels).is_none() {
            return Err(LatentError::InvalidShape { dimensions, channels });
        }
        Ok(LatentShape { dimensions, channels })
    }

    /// Values per channel.
    pub fn dimensions(self) -> (dimensions: usize)
        ensures
            dimensions == self.dimensions,
    {
        self.dimensions
    }

    /// Number of channels.
    pub fn channels(self) -> (channels: usize)
        ensures
            channels == self.channels,
    {
        self.channels
    }

    /// Number of values.
    pub fn len(self) -> (len: usize)
        requires
            self.well_formed(),
        ensures
            len == self.dimensions * self.channels,
    {
        self.dimensions * self.channels
    }
}

/// The zero point of each latent channel, as bit patterns.
#[derive(Debug, Clone, PartialEq, Eq)]
pub struct Quantizer {
    medians: Vec<u32>,
}

impl Quantizer {
    /// The medians.
    pub closed spec fn view(&self) -> Seq<u32> {
        self.medians@
    }

    /// Take the medians, one for each channel.
    pub fn new(medians: Vec<u32>) -> (result: Result<Self, LatentError>)
        ensures
            match result {
                Ok(quantizer) => medians@.len() > 0 && quantizer@ == medians@,
                Err(error) => medians@.len() == 0 && error == LatentError::EmptyQuantizer,
            },
    {
        if medians.len() == 0 {
            return Err(LatentError::EmptyQuantizer);
        }
        Ok(Quantizer { medians })
    }

    /// The medians.
    pub fn quantile_medians(&self) -> (medians: &[u32])
        ensures
            medians@ == self@,
    {
        self.medians.as_slice()
    }
}

/// The scales among which a context decoder chooses, as bit patterns.
#[derive(Debug, Clone, PartialEq, Eq)]
pub struct ContextScaleTable {
    scales: Vec<u32>,
}

impl ContextScaleTable {
    /// The scales.
    pub closed spec fn view(&self) -> Seq<u32> {
        self.scales@
    }

    /// Take the scales.
    pub fn new(scales: Vec<u32>) -> (result: Result<Self, LatentError>)
        ensures
            match result {
                Ok(table) => scales@.len() > 0 && table@ == scales@,
                Err(error) => scales@.len() == 0 && error == LatentError::EmptyContextScales,
            },
    {
        if scales.len() == 0 {
            return Err(LatentError::EmptyContextScales);
        }
        Ok(ContextScaleTable { scales })
    }

    /// The scales.
    pub fn scales(&self) -> (scales: &[u32])
        ensures
            scales@ == self@,
    {
        self.scales.as_slice()
    }
}

/// The channel of each value in the order of the entropy coder, which goes through all channels at
/// one position before it turns to the next.
pub open spec fn channel_pattern(positions: int, channels: int) -> Seq<u16> {
    Seq::new((positions * channels) as nat, |k: int| (k % channels) as u16)
}

/// Values in the order of the entropy coder, put in order channel by channel: value `d` of channel
/// `c` stands at `c * dimensions + d`.
pub open spec fn unflattened<T>(flattened: Seq<T>, dimensions: int, channels: int) -> Seq<T> {
    Seq::new(
        (dimensions * channels) as nat,
        |k: int| flattened[(k % dimensions) * channels + k / dimensions],
    )
}

/// Row and column of place `k` in a table of `height` rows of `width`.
pub proof fn lemma_place(width: int, height: int, k: int)
    requires
        0 < width,
        0 < height,
        0 <= k < width * height,
    ensures
        0 <= k % width < width,
        0 <= k / width < height,
        k == (k / width) * width + k % width,
{
    vstd::arithmetic::div_mod::lemma_fundamental_div_mod(k, width);
    vstd::arithmetic::div_mod::lemma_mod_bound(k, width);
    vstd::arithmetic::div_mod::lemma_div_pos_is_pos(k, width);
    let row = k / width;
    assert(width * row == row * width) by (nonlinear_arith);
    assert(row < height) by (nonlinear_arith)
        requires
            row * width <= k,
            k < width * height,
            0 < width,
    ;
}

/// The place of a row and column in a table of `height` rows of `width`.
pub proof fn lemma_place_back(width: int, height: int, row: int, column: int)
    requires
        0 <= row < height,
        0 <= column < width,
    ensures
        0 <= row * width,
        0 <= row * width + column < width * height,
        (row * width + column) / width == row,
        (row * width + column) % width == column,
{
    assert(0 <= row * width && row * width + column < width * height) by (nonlinear_arith)
        requires
            0 <= row < height,
            0 <= column < width,
    ;
    vstd::arithmetic::div_mod::lemma_fundamental_div_mod_converse(
        row * width + column,
        width,
        row,
        column,
    );
}

/// The two orders undo one another: exchanging the roles of dimensions and channels goes back.
pub proof fn unflattening_undoes_itself<T>(values: Seq<T>, dimensions: int, channels: int)
    requires
        0 < dimensions,
        0 < channels,
        values.len() == dimensions * channels,
    ensures
        unflattened(unflattened(values, dimensions, channels), channels, dimensions) == values,
{
    let once = unflattened(values, dimensions, channels);
    let twice = unflattened(once, channels, dimensions);
    assert(dimensions * channels == channels * dimensions) by (nonlinear_arith);
    assert forall|k: int| 0 <= k < values.len() implies twice[k] == values[k] by {
        lemma_place(channels, dimensions, k);
        let (dimension, channel) = (k / channels, k % channels);
        lemma_place_back(dimensions, channels, channel, dimension);
        assert(once[channel * dimensions + dimension] == values[dimension * channels + channel]);
    }
    assert(twice =~= values);
}

/// List the channel of each value in the order of the entropy coder.
pub fn channel_cdf_indexes(shape: LatentShape) -> (indexes: Vec<u16>)
    requires
        shape.well_formed(),
    ensures
        indexes@ == channel_pattern(shape.dimensions as int, shape.channels as int),
{
    let total: usize = shape.len();
    let mut indexes: Vec<u16> = Vec::new();
    while indexes.len() < total
        invariant
            total == shape.dimensions * shape.channels,
            0 < shape.channels <= 65_535,
            indexes@.len() <= total,
            forall|k: int|
                0 <= k < indexes@.len() ==> #[trigger] indexes@[k] == channel_pattern(
                    shape.dimensions as int,
                    shape.channels as int,
                )[k],
        decreases total - indexes@.len(),
    {
        let at: usize = indexes.len();
        indexes.push((at % shape.channels) as u16);
    }
    assert(indexes@ =~= channel_pattern(shape.dimensions as int, shape.channels as int));
    indexes
}

/// Put values in the order of the entropy coder in order channel by channel.
pub fn unflatten_from_entropy_coder<T: Copy>(shape: LatentShape, flattened: &[T]) -> (values: Vec<
    T,
>)
    requires
        shape.well_formed(),
        flattened@.len() == shape.dimensions * shape.channels,
    ensures
        values@ == unflattened(flattened@, shape.dimensions as int, shape.channels as int),
{
    let total: usize = shape.len();
    let mut values: Vec<T> = Vec::new();
    while values.len() < total
        invariant
            shape.well_formed(),
            total == shape.dimensions * shape.channels == flattened@.len(),
            values@.len() <= total,
            forall|k: int|
                0 <= k < values@.len() ==> #[trigger] values@[k] == unflattened(
                    flattened@,
                    shape.dimensions as int,
                    shape.channels as int,
                )[k],
        decreases total - values@.len(),
    {
        let at: usize = values.len();
        let dimension: usize = at % shape.dimensions;
        let channel: usize = at / shape.dimensions;
        proof {
            lemma_place(shape.dimensions as int, shape.channels as int, at as int);
            lemma_place_back(
                shape.channels as int,
                shape.dimensions as int,
                dimension as int,
                channel as int,
            );
            assert(shape.dimensions * shape.channels == shape.channels * shape.dimensions)
                by (nonlinear_arith);
        }
        values.push(flattened[dimension * shape.channels + channel]);
    }
    assert(values@ =~= unflattened(flattened@, shape.dimensions as int, shape.channels as int));
    values
}

/// Put values that are in order channel by channel in the order of the entropy coder, which is that
/// of a spectrum.
pub fn flatten_for_entropy_coder<T: Copy>(shape: LatentShape, values: &[T]) -> (flattened: Vec<T>)
    requires
        shape.well_formed(),
        values@.len() == shape.dimensions * shape.channels,
    ensures
        flattened@ == unflattened(values@, shape.channels as int, shape.dimensions as int),
{
    let total: usize = shape.len();
    let mut flattened: Vec<T> = Vec::new();
    while flattened.len() < total
        invariant
            shape.well_formed(),
            total == shape.dimensions * shape.channels == values@.len(),
            flattened@.len() <= total,
            forall|k: int|
                0 <= k < flattened@.len() ==> #[trigger] flattened@[k] == values@[(k
                    % shape.channels as int) * shape.dimensions + k / shape.channels as int],
        decreases total - flattened@.len(),
    {
        let at: usize = flattened.len();
        let channel: usize = at % shape.channels;
        let dimension: usize = at / shape.channels;
        proof {
            assert(shape.dimensions * shape.channels == shape.channels * shape.dimensions)
                by (nonlinear_arith);
            lemma_place(shape.channels as int, shape.dimensions as int, at as int);
            lemma_place_back(
                shape.dimensions as int,
                shape.channels as int,
                channel as int,
                dimension as int,
            );
        }
        flattened.push(values[channel * shape.dimensions + dimension]);
    }
    assert(shape.dimensions * shape.channels == shape.channels * shape.dimensions)
        by (nonlinear_arith);
    assert(flattened@ =~= unflattened(values@, shape.channels as int, shape.dimensions as int));
    flattened
}

} // verus!
