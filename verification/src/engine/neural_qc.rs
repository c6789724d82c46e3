//! Neural quantisation and coding: the side information of one channel, and what it decides about
//! the latents.
//!
//! The networks themselves compute with single-precision numbers and stand elsewhere. What stands
//! here is the entropy decoding on both sides of the context network, and which latents get noise.

use crate::engine::latent::{
    channel_cdf_indexes, channel_pattern, unflatten_from_entropy_coder, unflattened, LatentError,
    LatentShape,
};
use crate::engine::model::{
    codec_fits, model_fits, CnnLayer, LayerSyntax, ModelSyntax, NeuralCodecModel,
    NeuralModel, AVS3_FEATURE_DIMENSIONS,
};
use crate::engine::model_reader::ModelError;
use crate::engine::range_coder::{fresh_state, values_of, RangeCoderError, RangeDecoder};
use crate::float_bits::{equal, is_equal};
use crate::text::{
    decimal, plain, push_decimal, with_number, with_two_numbers,
};
use vstd::prelude::*;
use vstd::string::StringExecFns;

verus! {

/// Most bytes of one range coded stream.
pub const MAX_QC_BITSTREAM_BYTES: usize = 1_024;

/// Number of short blocks of a frame.
pub const AVS3_SHORT_BLOCKS: usize = 8;

/// Most groups that noise filling tells apart.
pub const AVS3_NOISE_GROUPS: usize = 2;

pub const MAX_MAIN_SCALE_INDEX: u8 = 127;

pub const MAX_NOISE_FILLING_INDEX: u8 = 7;

/// Why a neural spectrum can not be decoded.
#[allow(inconsistent_fields)]
#[derive(Debug, Clone, Copy, PartialEq, Eq)]
pub enum NeuralQcError {
    MissingContextModel,
    MissingContextScales,
    BitstreamTooLong { stream: &'static str, bytes: usize, limit: usize },
    MainScaleIndexOutOfRange(u8),
    NoiseFillingIndexOutOfRange { group: usize, index: u8 },
    NoiseFillingLinesOutOfRange { lines: usize, limit: usize },
    NoiseFillingDimensionsOutOfRange { dimensions: usize, available: usize },
    ContextOutputShape { expected: LatentShape, actual: LatentShape },
    LowComplexityOutputLength { expected: usize, actual: usize },
    Model(ModelError),
    Latent(LatentError),
    RangeCoder(RangeCoderError),
}

impl NeuralQcError {
    /// The error in words.
    pub open spec fn words(self) -> Seq<char> {
        match self {
            NeuralQcError::MissingContextModel =>
            "neural spectrum decoding requires a hyper-prior context model"@,
            NeuralQcError::MissingContextScales =>
            "base neural model has no hyper-prior context-scale table"@,
            NeuralQcError::BitstreamTooLong { stream, bytes, limit } => stream@
                + " range bitstream has "@ + decimal(bytes as nat) + " bytes; limit is "@ + decimal(
                limit as nat,
            ),
            NeuralQcError::MainScaleIndexOutOfRange(index) => "main-profile feature-scale index "@
                + decimal(index as nat) + " exceeds 127"@,
            NeuralQcError::NoiseFillingIndexOutOfRange { group, index } => "noise-filling index "@
                + decimal(index as nat) + " for group "@ + decimal(group as nat) + " exceeds 7"@,
            NeuralQcError::NoiseFillingLinesOutOfRange { lines, limit } =>
            "noise filling requests "@ + decimal(lines as nat) + " spectrum lines; limit is "@
                + decimal(limit as nat) + ""@,
            NeuralQcError::NoiseFillingDimensionsOutOfRange { dimensions, available } =>
            "noise filling reaches "@ + decimal(dimensions as nat) + " latent dimensions; only "@
                + decimal(available as nat) + " are available"@,
            NeuralQcError::ContextOutputShape { expected, actual } => "context decoder output is "@
                + decimal(actual.dimensions as nat) + "x"@ + decimal(actual.channels as nat)
                + "; base latent requires "@ + decimal(expected.dimensions as nat) + "x"@ + decimal(
                expected.channels as nat,
            ),
            NeuralQcError::LowComplexityOutputLength { expected, actual } =>
            "low-complexity latent has "@ + decimal(actual as nat) + " values; expected "@ + decimal(
                expected as nat,
            ) + " spectrum lines"@,
            NeuralQcError::Model(error) => error.words(),
            NeuralQcError::Latent(error) => error.words(),
            NeuralQcError::RangeCoder(error) => error.words(),
        }
    }

    /// Put the error in words.
    pub fn message(self) -> (text: String)
        ensures
            text@ == self.words(),
    {
        match self {
            NeuralQcError::MissingContextModel => plain(
                "neural spectrum decoding requires a hyper-prior context model",
            ),
            NeuralQcError::MissingContextScales => plain(
                "base neural model has no hyper-prior context-scale table",
            ),
            NeuralQcError::BitstreamTooLong { stream, bytes, limit } => {
                let mut text = plain(stream);
                text.append(" range bitstream has ");
                push_decimal(&mut text, bytes as u64);
                text.append(" bytes; limit is ");
                push_decimal(&mut text, limit as u64);
                text
            },
            NeuralQcError::MainScaleIndexOutOfRange(index) => with_number(
                "main-profile feature-scale index ",
                index as u64,
                " exceeds 127",
            ),
            NeuralQcError::NoiseFillingIndexOutOfRange { group, index } => with_two_numbers(
                "noise-filling index ",
                index as u64,
                " for group ",
                group as u64,
                " exceeds 7",
            ),
            NeuralQcError::NoiseFillingLinesOutOfRange { lines, limit } => with_two_numbers(
                "noise filling requests ",
                lines as u64,
                " spectrum lines; limit is ",
                limit as u64,
                "",
            ),
            NeuralQcError::NoiseFillingDimensionsOutOfRange { dimensions, available } =>
            with_two_numbers(
                "noise filling reaches ",
                dimensions as u64,
                " latent dimensions; only ",
                available as u64,
                " are available",
            ),
            NeuralQcError::ContextOutputShape { expected, actual } => {
                let mut text = with_two_numbers(
                    "context decoder output is ",
                    actual.dimensions as u64,
                    "x",
                    actual.channels as u64,
                    "; base latent requires ",
                );
                push_decimal(&mut text, expected.dimensions as u64);
                text.append("x");
                push_decimal(&mut text, expected.channels as u64);
                text
            },
            NeuralQcError::LowComplexityOutputLength { expected, actual } => with_two_numbers(
                "low-complexity latent has ",
                actual as u64,
                " values; expected ",
                expected as u64,
                " spectrum lines",
            ),
            NeuralQcError::Model(error) => error.message(),
            NeuralQcError::Latent(error) => error.message(),
            NeuralQcError::RangeCoder(error) => error.message(),
        }
    }
}

/// The range coded streams of one channel.
#[derive(Debug, Clone, Copy, PartialEq, Eq)]
pub struct NeuralBitstreams<'a> {
    context: &'a [u8],
    base: &'a [u8],
}

impl<'a> NeuralBitstreams<'a> {
    /// The stream of the context latents.
    pub closed spec fn context_stream(self) -> Seq<u8> {
        self.context@
    }

    /// The stream of the base latents.
    pub closed spec fn base_stream(self) -> Seq<u8> {
        self.base@
    }

    /// Take two streams, neither of which may be too long.
    pub fn new(context: &'a [u8], base: &'a [u8]) -> (result: Result<Self, NeuralQcError>)
        ensures
            if context@.len() > MAX_QC_BITSTREAM_BYTES {
                result == Err::<Self, NeuralQcError>(
                    NeuralQcError::BitstreamTooLong {
                        stream: "context",
                        bytes: context@.len() as usize,
                        limit: MAX_QC_BITSTREAM_BYTES,
                    },
                )
            } else if base@.len() > MAX_QC_BITSTREAM_BYTES {
                result == Err::<Self, NeuralQcError>(
                    NeuralQcError::BitstreamTooLong {
                        stream: "base",
                        bytes: base@.len() as usize,
                        limit: MAX_QC_BITSTREAM_BYTES,
                    },
                )
            } else {
                &&& result is Ok
                &&& result->Ok_0.context_stream() == context@
                &&& result->Ok_0.base_stream() == base@
            },
    {
        if context.len() > MAX_QC_BITSTREAM_BYTES {
            return Err(
                NeuralQcError::BitstreamTooLong {
                    stream: "context",
                    bytes: context.len(),
                    limit: MAX_QC_BITSTREAM_BYTES,
                },
            );
        }
        if base.len() > MAX_QC_BITSTREAM_BYTES {
            return Err(
                NeuralQcError::BitstreamTooLong {
                    stream: "base",
                    bytes: base.len(),
                    limit: MAX_QC_BITSTREAM_BYTES,
                },
            );
        }
        Ok(NeuralBitstreams { context, base })
    }

    pub fn context(self) -> (stream: &'a [u8])
        ensures
            stream@ == self.context_stream(),
    {
        self.context
    }

    pub fn base(self) -> (stream: &'a [u8])
        ensures
            stream@ == self.base_stream(),
    {
        self.base
    }
}

/// The group that a short block belongs to.
#[derive(Debug, Clone, Copy, PartialEq, Eq, Structural)]
pub enum NoiseGroup {
    Transient,
    Other,
}

/// Noise filling of a frame with one group, or of a short-window frame with two.
#[derive(Debug, Clone, Copy, PartialEq, Eq)]
pub struct NoiseFilling {
    num_lines: usize,
    group_count: usize,
    group_indicator: [NoiseGroup; 8],
    quantized_indexes: [u8; 2],
}

/// Why noise filling can not reach so many lines, if it can not.
pub open spec fn lines_error(lines: int) -> Option<NeuralQcError> {
    if lines > AVS3_FEATURE_DIMENSIONS {
        Some(
            NeuralQcError::NoiseFillingLinesOutOfRange {
                lines: lines as usize,
                limit: AVS3_FEATURE_DIMENSIONS,
            },
        )
    } else {
        None
    }
}

/// Why a group can not have this index, if it can not.
pub open spec fn index_error(group: int, index: u8) -> Option<NeuralQcError> {
    if index > MAX_NOISE_FILLING_INDEX {
        Some(NeuralQcError::NoiseFillingIndexOutOfRange { group: group as usize, index })
    } else {
        None
    }
}

impl NoiseFilling {
    /// Number of spectrum lines that noise reaches.
    pub closed spec fn lines(self) -> int {
        self.num_lines as int
    }

    /// Number of groups.
    pub closed spec fn groups(self) -> int {
        self.group_count as int
    }

    /// The group of each short block.
    pub closed spec fn indicator(self) -> Seq<NoiseGroup> {
        self.group_indicator@
    }

    /// The quantised amount of noise of each group.
    pub closed spec fn indexes(self) -> Seq<u8> {
        self.quantized_indexes@
    }

    /// The fields are within their limits, and what belongs to a second group is blank where there
    /// is none.
    #[verifier::type_invariant]
    pub open spec fn well_formed(self) -> bool {
        &&& 0 <= self.lines() <= AVS3_FEATURE_DIMENSIONS
        &&& self.groups() == 1 || self.groups() == 2
        &&& self.indicator().len() == 8
        &&& self.indexes().len() == 2
        &&& self.indexes()[0] <= MAX_NOISE_FILLING_INDEX
        &&& self.indexes()[1] <= MAX_NOISE_FILLING_INDEX
        &&& self.groups() == 1 ==> self.indexes()[1] == 0 && forall|i: int|
            0 <= i < 8 ==> #[trigger] self.indicator()[i] == NoiseGroup::Transient
    }

    /// Noise filling with one group.
    pub fn single(num_lines: usize, quantized_index: u8) -> (result: Result<Self, NeuralQcError>)
        ensures
            if let Some(error) = lines_error(num_lines as int) {
                result == Err::<Self, NeuralQcError>(error)
            } else if let Some(error) = index_error(0, quantized_index) {
                result == Err::<Self, NeuralQcError>(error)
            } else {
                &&& result is Ok
                &&& result->Ok_0.well_formed()
                &&& result->Ok_0.lines() == num_lines
                &&& result->Ok_0.groups() == 1
                &&& forall|i: int|
                    0 <= i < 8 ==> #[trigger] result->Ok_0.indicator()[i] == NoiseGroup::Transient
                &&& result->Ok_0.indexes()[0] == quantized_index
                &&& result->Ok_0.indexes()[1] == 0
            },
    {
        Self::validate_lines(num_lines)?;
        Self::validate_index(0, quantized_index)?;
        Ok(
            NoiseFilling {
                num_lines,
                group_count: 1,
                group_indicator: [NoiseGroup::Transient;8],
                quantized_indexes: [quantized_index, 0],
            },
        )
    }

    /// Noise filling with two groups of short blocks.
    pub fn two_groups(
        num_lines: usize,
        group_indicator: [NoiseGroup; 8],
        quantized_indexes: [u8; 2],
    ) -> (result: Result<Self, NeuralQcError>)
        ensures
            if let Some(error) = lines_error(num_lines as int) {
                result == Err::<Self, NeuralQcError>(error)
            } else if let Some(error) = index_error(0, quantized_indexes@[0]) {
                result == Err::<Self, NeuralQcError>(error)
            } else if let Some(error) = index_error(1, quantized_indexes@[1]) {
                result == Err::<Self, NeuralQcError>(error)
            } else {
                &&& result is Ok
                &&& result->Ok_0.well_formed()
                &&& result->Ok_0.lines() == num_lines
                &&& result->Ok_0.groups() == 2
                &&& result->Ok_0.indicator() == group_indicator@
                &&& result->Ok_0.indexes() == quantized_indexes@
            },
    {
        Self::validate_lines(num_lines)?;
        Self::validate_index(0, quantized_indexes[0])?;
        Self::validate_index(1, quantized_indexes[1])?;
        Ok(NoiseFilling { num_lines, group_count: 2, group_indicator, quantized_indexes })
    }

    pub fn num_lines(self) -> (lines: usize)
        ensures
            lines == self.lines(),
            self.well_formed(),
    {
        proof {
            use_type_invariant(&self);
        }
        self.num_lines
    }

    pub fn group_count(self) -> (groups: usize)
        ensures
            groups == self.groups(),
            self.well_formed(),
    {
        proof {
            use_type_invariant(&self);
        }
        self.group_count
    }

    pub fn group_indicator(self) -> (indicator: [NoiseGroup; 8])
        ensures
            indicator@ == self.indicator(),
            self.well_formed(),
    {
        proof {
            use_type_invariant(&self);
        }
        self.group_indicator
    }

    pub fn quantized_indexes(self) -> (indexes: [u8; 2])
        ensures
            indexes@ == self.indexes(),
            self.well_formed(),
    {
        proof {
            use_type_invariant(&self);
        }
        self.quantized_indexes
    }

    fn validate_lines(num_lines: usize) -> (result: Result<(), NeuralQcError>)
        ensures
            match lines_error(num_lines as int) {
                None => result is Ok,
                Some(error) => result == Err::<(), NeuralQcError>(error),
            },
    {
        if num_lines > AVS3_FEATURE_DIMENSIONS {
            return Err(
                NeuralQcError::NoiseFillingLinesOutOfRange {
                    lines: num_lines,
                    limit: AVS3_FEATURE_DIMENSIONS,
                },
            );
        }
        Ok(())
    }

    fn validate_index(group: usize, index: u8) -> (result: Result<(), NeuralQcError>)
        ensures
            match index_error(group as int, index) {
                None => result is Ok,
                Some(error) => result == Err::<(), NeuralQcError>(error),
            },
    {
        if index > MAX_NOISE_FILLING_INDEX {
            return Err(NeuralQcError::NoiseFillingIndexOutOfRange { group, index });
        }
        Ok(())
    }
}

/// What one channel of the main network is decoded from.
#[derive(Debug, Clone, Copy, PartialEq, Eq)]
pub struct MainNeuralQc<'a> {
    bitstreams: NeuralBitstreams<'a>,
    noise_filling: NoiseFilling,
    feature_amplified: bool,
    scale_index: u8,
}

impl<'a> MainNeuralQc<'a> {
    /// The streams.
    pub closed spec fn streams(self) -> NeuralBitstreams<'a> {
        self.bitstreams
    }

    /// The noise filling.
    pub closed spec fn filling(self) -> NoiseFilling {
        self.noise_filling
    }

    /// Whether the feature was amplified.
    pub closed spec fn amplified(self) -> bool {
        self.feature_amplified
    }

    /// The index of the feature scale.
    pub closed spec fn scale(self) -> u8 {
        self.scale_index
    }

    /// Take the side information, whose scale index has seven bits.
    pub fn new(
        bitstreams: NeuralBitstreams<'a>,
        noise_filling: NoiseFilling,
        feature_amplified: bool,
        scale_index: u8,
    ) -> (result: Result<Self, NeuralQcError>)
        ensures
            if scale_index > MAX_MAIN_SCALE_INDEX {
                result == Err::<Self, NeuralQcError>(
                    NeuralQcError::MainScaleIndexOutOfRange(scale_index),
                )
            } else {
                &&& result is Ok
                &&& result->Ok_0.streams() == bitstreams
                &&& result->Ok_0.filling() == noise_filling
                &&& result->Ok_0.amplified() == feature_amplified
                &&& result->Ok_0.scale() == scale_index
            },
    {
        if scale_index > MAX_MAIN_SCALE_INDEX {
            return Err(NeuralQcError::MainScaleIndexOutOfRange(scale_index));
        }
        Ok(MainNeuralQc { bitstreams, noise_filling, feature_amplified, scale_index })
    }

    pub fn bitstreams(self) -> (streams: NeuralBitstreams<'a>)
        ensures
            streams == self.streams(),
    {
        self.bitstreams
    }

    pub fn noise_filling(self) -> (filling: NoiseFilling)
        ensures
            filling == self.filling(),
            filling.well_formed(),
    {
        let filling: NoiseFilling = self.noise_filling;
        proof {
            use_type_invariant(&filling);
        }
        filling
    }

    pub fn feature_amplified(self) -> (amplified: bool)
        ensures
            amplified == self.amplified(),
    {
        self.feature_amplified
    }

    pub fn scale_index(self) -> (index: u8)
        ensures
            index == self.scale(),
    {
        self.scale_index
    }
}

/// What one channel of the low-complexity network is decoded from.
#[derive(Debug, Clone, Copy, PartialEq, Eq)]
pub struct LowComplexityNeuralQc<'a> {
    bitstreams: NeuralBitstreams<'a>,
    noise_filling: NoiseFilling,
    scale_index: u8,
}

impl<'a> LowComplexityNeuralQc<'a> {
    /// The streams.
    pub closed spec fn streams(self) -> NeuralBitstreams<'a> {
        self.bitstreams
    }

    /// The noise filling.
    pub closed spec fn filling(self) -> NoiseFilling {
        self.noise_filling
    }

    /// The index of the feature scale.
    pub closed spec fn scale(self) -> u8 {
        self.scale_index
    }

    /// Take the side information.
    pub fn new(
        bitstreams: NeuralBitstreams<'a>,
        noise_filling: NoiseFilling,
        scale_index: u8,
    ) -> (qc: Self)
        ensures
            qc.streams() == bitstreams,
            qc.filling() == noise_filling,
            qc.scale() == scale_index,
    {
        LowComplexityNeuralQc { bitstreams, noise_filling, scale_index }
    }

    pub fn bitstreams(self) -> (streams: NeuralBitstreams<'a>)
        ensures
            streams == self.streams(),
    {
        self.bitstreams
    }

    pub fn noise_filling(self) -> (filling: NoiseFilling)
        ensures
            filling == self.filling(),
            filling.well_formed(),
    {
        let filling: NoiseFilling = self.noise_filling;
        proof {
            use_type_invariant(&filling);
        }
        filling
    }

    pub fn scale_index(self) -> (index: u8)
        ensures
            index == self.scale(),
    {
        self.scale_index
    }
}

/// Number of transient blocks among the first `count`.
pub open spec fn transient_blocks(indicator: Seq<NoiseGroup>, count: int) -> int
    decreases count,
{
    if count <= 0 {
        0
    } else {
        transient_blocks(indicator, count - 1) + if indicator[count - 1] is Transient {
            1int
        } else {
            0int
        }
    }
}

/// The latent dimensions that each group reaches, the end of each range excluded. With two groups,
/// the transient blocks share the first part of the dimensions and the others the rest, each in
/// proportion to its number of blocks.
pub open spec fn noise_range(
    dimensions: int,
    noise_dimensions: int,
    filling: NoiseFilling,
    group: int,
) -> (int, int) {
    let transient = transient_blocks(filling.indicator(), 8);
    if filling.groups() == 1 {
        (0, noise_dimensions)
    } else if group == 0 {
        (0, noise_dimensions * transient / 8)
    } else {
        let start = dimensions / 8 * transient;
        (start, start + noise_dimensions * (8 - transient) / 8)
    }
}

proof fn lemma_transient_blocks(indicator: Seq<NoiseGroup>, count: int)
    requires
        0 <= count,
    ensures
        0 <= transient_blocks(indicator, count) <= count,
    decreases count,
{
    if count > 0 {
        lemma_transient_blocks(indicator, count - 1);
    }
}

/// Work out the latent dimensions that each group reaches.
pub fn noise_ranges(shape: LatentShape, noise_dimensions: usize, noise_filling: NoiseFilling) -> (
ranges: [(usize, usize); 2])
    requires
        noise_filling.well_formed(),
        noise_dimensions <= shape.dimensions,
        noise_dimensions <= AVS3_FEATURE_DIMENSIONS,
    ensures
        forall|group: int|
            0 <= group < 2 ==> {
                let (start, end) = #[trigger] ranges@[group];
                (start as int, end as int) == noise_range(
                    shape.dimensions as int,
                    noise_dimensions as int,
                    noise_filling,
                    group,
                )
            },
{
    if noise_filling.group_count == 1 {
        return [(0, noise_dimensions), (0, noise_dimensions)];
    }
    let indicator: [NoiseGroup; 8] = noise_filling.group_indicator;
    let mut transient: usize = 0;
    let mut block: usize = 0;
    while block < 8
        invariant
            block <= 8,
            transient <= block,
            indicator@ == noise_filling.indicator(),
            indicator@.len() == 8,
            transient == transient_blocks(noise_filling.indicator(), block as int),
        decreases 8 - block,
    {
        if matches!(indicator[block], NoiseGroup::Transient) {
            transient = transient + 1;
        }
        block = block + 1;
    }
    assert(shape.dimensions / 8 * transient <= shape.dimensions) by (nonlinear_arith)
        requires
            0 <= transient <= 8,
            0 <= shape.dimensions,
    ;
    assert(0 <= noise_dimensions * transient <= 8192 && 0 <= noise_dimensions * (8 - transient)
        <= 8192) by (nonlinear_arith)
        requires
            0 <= transient <= 8,
            0 <= noise_dimensions <= 1024,
    ;
    proof {
        let t = transient as int;
        let d = shape.dimensions as int;
        let n = noise_dimensions as int;
        assert(d / 8 * t + n * (8 - t) / 8 <= d) by (nonlinear_arith)
            requires
                0 <= t <= 8,
                0 <= n <= d,
        ;
    }
    let first_end: usize = noise_dimensions * transient / 8;
    let second_start: usize = shape.dimensions / 8 * transient;
    let second_len: usize = noise_dimensions * (8 - transient) / 8;
    [(0, first_end), (second_start, second_start + second_len)]
}

/// Two groups of short blocks never reach the same latent dimension, where the dimensions divide
/// evenly among the blocks.
pub proof fn noise_groups_do_not_overlap(
    dimensions: int,
    noise_dimensions: int,
    filling: NoiseFilling,
)
    requires
        filling.well_formed(),
        filling.groups() == 2,
        dimensions % 8 == 0,
        0 <= noise_dimensions <= dimensions,
    ensures
        noise_range(dimensions, noise_dimensions, filling, 0).1 <= noise_range(
            dimensions,
            noise_dimensions,
            filling,
            1,
        ).0,
        noise_range(dimensions, noise_dimensions, filling, 1).1 <= dimensions,
{
    let t = transient_blocks(filling.indicator(), 8);
    lemma_transient_blocks(filling.indicator(), 8);
    let eighth = dimensions / 8;
    assert(noise_dimensions * t / 8 <= eighth * t && eighth * t + noise_dimensions * (8 - t) / 8
        <= dimensions) by (nonlinear_arith)
        requires
            dimensions == 8 * eighth,
            0 <= noise_dimensions <= dimensions,
            0 <= t <= 8,
    ;
}

/// Latent dimensions that `lines` spectrum lines come from: the strides of the layers from `from` on
/// divide them.
pub open spec fn strided_lines(layers: Seq<LayerSyntax>, lines: int, from: int) -> int
    decreases layers.len() - from,
{
    if from >= layers.len() {
        lines
    } else {
        strided_lines(layers, lines / (layers[from].stride as int), from + 1)
    }
}

/// Work out the latent dimensions that noise reaches in the main network.
pub fn main_noise_dimensions(base: &NeuralCodecModel, filling: NoiseFilling) -> (dimensions: usize)
    requires
        codec_fits(base.syntax()),
        filling.well_formed(),
    ensures
        dimensions == strided_lines(base.syntax().decoder.layers, filling.lines(), 0),
        dimensions <= AVS3_FEATURE_DIMENSIONS,
{
    let layers: &[CnnLayer] = base.decoder().layers();
    let ghost syntax = base.syntax().decoder.layers;
    let mut dimensions: usize = filling.num_lines();
    let mut index: usize = 0;
    while index < layers.len()
        invariant
            index <= layers@.len(),
            layers@.len() == syntax.len(),
            forall|i: int| 0 <= i < syntax.len() ==> (#[trigger] layers@[i]).syntax() == syntax[i],
            forall|i: int| 0 <= i < syntax.len() ==> (#[trigger] syntax[i]).well_formed(),
            strided_lines(syntax, dimensions as int, index as int) == strided_lines(
                syntax,
                filling.lines(),
                0,
            ),
            dimensions <= AVS3_FEATURE_DIMENSIONS,
        decreases layers@.len() - index,
    {
        assert(syntax[index as int].well_formed());
        let stride: usize = layers[index].stride();
        assert(dimensions / stride <= dimensions) by (nonlinear_arith)
            requires
                1 <= stride,
                0 <= dimensions,
        ;
        dimensions = dimensions / stride;
        index = index + 1;
    }
    dimensions
}

/// Work out the latent dimensions that noise reaches in the low-complexity network, whose latents
/// are the spectrum.
pub fn low_complexity_noise_dimensions(base: &NeuralCodecModel, filling: NoiseFilling) -> (
dimensions: usize)
    requires
        codec_fits(base.syntax()),
        filling.well_formed(),
    ensures
        dimensions == filling.lines() / (base.syntax().latent_shape.channels as int),
        dimensions <= AVS3_FEATURE_DIMENSIONS,
{
    let lines: usize = filling.num_lines();
    let channels: usize = base.latent_shape().channels();
    assert(lines / channels <= lines) by (nonlinear_arith)
        requires
            1 <= channels,
            0 <= lines,
    ;
    lines / channels
}

/// The latents that get noise, from place `from` on: those whose value is the zero point of their
/// channel. The places go through all channels of one dimension before they turn to the next.
pub open spec fn noisy_latents(
    latents: Seq<u32>,
    medians: Seq<u32>,
    dimensions: int,
    from: int,
    end: int,
) -> Seq<usize>
    decreases end - from,
{
    let channels = medians.len() as int;
    if from >= end {
        Seq::empty()
    } else {
        let channel = from % channels;
        let index = channel * dimensions + from / channels;
        let rest = noisy_latents(latents, medians, dimensions, from + 1, end);
        if equal(latents[index], medians[channel]) {
            seq![index as usize] + rest
        } else {
            rest
        }
    }
}

/// The latents of a group that get noise, in the order in which noise is drawn for them.
pub open spec fn noisy_in_group(
    latents: Seq<u32>,
    medians: Seq<u32>,
    shape: LatentShape,
    noise_dimensions: int,
    filling: NoiseFilling,
    group: int,
) -> Seq<usize> {
    let (start, end) = noise_range(
        shape.dimensions as int,
        noise_dimensions,
        filling,
        group,
    );
    noisy_latents(
        latents,
        medians,
        shape.dimensions as int,
        start * medians.len(),
        end * medians.len(),
    )
}

/// List the latents of a group that get noise, in the order in which noise is drawn for them. The
/// latents and zero points are bit patterns.
pub fn noise_positions(
    shape: LatentShape,
    noise_dimensions: usize,
    filling: NoiseFilling,
    group: usize,
    latents: &[u32],
    medians: &[u32],
) -> (result: Result<Vec<usize>, NeuralQcError>)
    requires
        shape.well_formed(),
        filling.well_formed(),
        noise_dimensions <= AVS3_FEATURE_DIMENSIONS,
        group < 2,
        medians@.len() == shape.channels,
        latents@.len() == shape.dimensions * shape.channels,
    ensures
        if noise_dimensions > shape.dimensions {
            result == Err::<Vec<usize>, NeuralQcError>(
                NeuralQcError::NoiseFillingDimensionsOutOfRange {
                    dimensions: noise_dimensions,
                    available: shape.dimensions,
                },
            )
        } else {
            result is Ok && result->Ok_0@ == noisy_in_group(
                latents@,
                medians@,
                shape,
                noise_dimensions as int,
                filling,
                group as int,
            )
        },
{
    if noise_dimensions > shape.dimensions {
        return Err(
            NeuralQcError::NoiseFillingDimensionsOutOfRange {
                dimensions: noise_dimensions,
                available: shape.dimensions,
            },
        );
    }
    let ranges = noise_ranges(shape, noise_dimensions, filling);
    let (start, end): (usize, usize) = ranges[group];
    let channels: usize = medians.len();
    let ghost dims = shape.dimensions as int;
    proof {
        assert((start as int, end as int) == noise_range(
            dims,
            noise_dimensions as int,
            filling,
            group as int,
        ));
        lemma_noise_range(dims, noise_dimensions as int, filling, group as int);
        assert(0 <= start * channels <= end * channels <= dims * channels) by (nonlinear_arith)
            requires
                0 <= start <= end <= dims,
                0 <= channels,
        ;
        assert(latents.len() == latents@.len());
    }
    let first: usize = start * channels;
    let last: usize = end * channels;
    let ghost goal = noisy_latents(latents@, medians@, dims, first as int, last as int);
    let mut positions: Vec<usize> = Vec::new();
    let mut place: usize = first;
    assert(positions@ + goal =~= goal);
    while place < last
        invariant
            first <= place <= last,
            last <= dims * channels,
            dims == shape.dimensions,
            shape.well_formed(),
            channels == shape.channels == medians@.len(),
            latents@.len() == dims * channels <= usize::MAX,
            goal == noisy_latents(latents@, medians@, dims, first as int, last as int),
            goal == positions@ + noisy_latents(
                latents@,
                medians@,
                dims,
                place as int,
                last as int,
            ),
        decreases last - place,
    {
        let channel: usize = place % channels;
        let dimension: usize = place / channels;
        proof {
            assert(dims * channels == channels * dims) by (nonlinear_arith);
            crate::engine::latent::lemma_place(channels as int, dims, place as int);
            crate::engine::latent::lemma_place_back(
                dims,
                channels as int,
                channel as int,
                dimension as int,
            );
        }
        let index: usize = channel * shape.dimensions + dimension;
        let ghost rest = noisy_latents(latents@, medians@, dims, place as int + 1, last as int);
        let ghost before = positions@;
        if is_equal(latents[index], medians[channel]) {
            positions.push(index);
            assert(before + (seq![index] + rest) =~= positions@ + rest);
        }
        place = place + 1;
    }
    assert(positions@ + Seq::<usize>::empty() =~= positions@);
    Ok(positions)
}

pub(crate) proof fn lemma_noise_range(
    dimensions: int,
    noise_dimensions: int,
    filling: NoiseFilling,
    group: int,
)
    requires
        filling.well_formed(),
        0 <= noise_dimensions <= dimensions,
        0 <= group < 2,
    ensures
        0 <= noise_range(dimensions, noise_dimensions, filling, group).0 <= noise_range(
            dimensions,
            noise_dimensions,
            filling,
            group,
        ).1 <= dimensions,
{
    let t = transient_blocks(filling.indicator(), 8);
    lemma_transient_blocks(filling.indicator(), 8);
    assert(0 <= noise_dimensions * t / 8 <= dimensions && 0 <= dimensions / 8 * t && 0
        <= noise_dimensions * (8 - t) / 8 && dimensions / 8 * t + noise_dimensions * (8 - t) / 8
        <= dimensions) by (nonlinear_arith)
        requires
            0 <= noise_dimensions <= dimensions,
            0 <= t <= 8,
    ;
}

/// Number of draws of noise for the groups from `group` on.
pub open spec fn draws_from(
    latents: Seq<u32>,
    medians: Seq<u32>,
    shape: LatentShape,
    noise_dimensions: int,
    filling: NoiseFilling,
    group: int,
) -> int
    decreases filling.groups() - group,
{
    if group >= filling.groups() {
        0
    } else {
        noisy_in_group(latents, medians, shape, noise_dimensions, filling, group).len()
            + draws_from(latents, medians, shape, noise_dimensions, filling, group + 1)
    }
}

/// Count how often noise is drawn for a channel, without drawing any.
pub fn noise_random_draws(
    shape: LatentShape,
    noise_dimensions: usize,
    filling: NoiseFilling,
    latents: &[u32],
    medians: &[u32],
) -> (result: Result<usize, NeuralQcError>)
    requires
        shape.well_formed(),
        filling.well_formed(),
        noise_dimensions <= AVS3_FEATURE_DIMENSIONS,
        medians@.len() == shape.channels,
        latents@.len() == shape.dimensions * shape.channels,
        2 * (shape.dimensions * shape.channels) <= usize::MAX,
    ensures
        if noise_dimensions > shape.dimensions {
            result == Err::<usize, NeuralQcError>(
                NeuralQcError::NoiseFillingDimensionsOutOfRange {
                    dimensions: noise_dimensions,
                    available: shape.dimensions,
                },
            )
        } else {
            result is Ok && result->Ok_0 == draws_from(
                latents@,
                medians@,
                shape,
                noise_dimensions as int,
                filling,
                0,
            )
        },
{
    proof {
        reveal_with_fuel(draws_from, 3);
        if noise_dimensions <= shape.dimensions {
            lemma_few_draws(latents@, medians@, shape, noise_dimensions as int, filling, 0);
            lemma_few_draws(latents@, medians@, shape, noise_dimensions as int, filling, 1);
        }
    }
    let first = noise_positions(shape, noise_dimensions, filling, 0, latents, medians)?;
    if filling.group_count() == 1 {
        return Ok(first.len());
    }
    let second = noise_positions(shape, noise_dimensions, filling, 1, latents, medians)?;
    Ok(first.len() + second.len())
}

proof fn lemma_noisy_len(
    latents: Seq<u32>,
    medians: Seq<u32>,
    dimensions: int,
    from: int,
    end: int,
)
    requires
        from <= end,
    ensures
        noisy_latents(latents, medians, dimensions, from, end).len() <= end - from,
    decreases end - from,
{
    if from < end {
        lemma_noisy_len(latents, medians, dimensions, from + 1, end);
    }
}

/// At most one draw for each latent.
proof fn lemma_few_draws(
    latents: Seq<u32>,
    medians: Seq<u32>,
    shape: LatentShape,
    noise_dimensions: int,
    filling: NoiseFilling,
    group: int,
)
    requires
        filling.well_formed(),
        medians.len() == shape.channels,
        0 <= noise_dimensions <= shape.dimensions,
        0 <= group < 2,
    ensures
        noisy_in_group(latents, medians, shape, noise_dimensions, filling, group).len()
            <= shape.dimensions * shape.channels,
{
    lemma_noise_range(shape.dimensions as int, noise_dimensions, filling, group);
    let (start, end) = noise_range(shape.dimensions as int, noise_dimensions, filling, group);
    let channels = medians.len() as int;
    assert(0 <= start * channels <= end * channels <= shape.dimensions * channels)
        by (nonlinear_arith)
        requires
            0 <= start <= end <= shape.dimensions,
            0 <= channels,
    ;
    lemma_noisy_len(
        latents,
        medians,
        shape.dimensions as int,
        start * channels,
        end * channels,
    );
}

/// Why a model can not decode spectra, if it can not.
pub open spec fn unusable_model(syntax: ModelSyntax) -> Option<NeuralQcError> {
    match syntax.context {
        None => Some(NeuralQcError::MissingContextModel),
        Some(context) => if syntax.base.context_scales is None {
            Some(NeuralQcError::MissingContextScales)
        } else if context.decoder.output_shape != syntax.base.latent_shape {
            Some(
                NeuralQcError::ContextOutputShape {
                    expected: syntax.base.latent_shape,
                    actual: context.decoder.output_shape,
                },
            )
        } else {
            None
        },
    }
}

/// Check that a model can decode spectra; gives its context codec.
pub fn check_neural_model(model: &NeuralModel) -> (result: Result<
    &NeuralCodecModel,
    NeuralQcError,
>)
    ensures
        match unusable_model(model.syntax()) {
            Some(error) => result == Err::<&NeuralCodecModel, NeuralQcError>(error),
            None => result is Ok && Some(result->Ok_0.syntax()) == model.syntax().context,
        },
{
    let context: &NeuralCodecModel = match model.context() {
        Some(context) => context,
        None => {
            return Err(NeuralQcError::MissingContextModel);
        },
    };
    if model.base().context_scales().is_none() {
        return Err(NeuralQcError::MissingContextScales);
    }
    let expected: LatentShape = model.base().latent_shape();
    let actual: LatentShape = context.decoder().output_shape();
    if actual.dimensions != expected.dimensions || actual.channels != expected.channels {
        return Err(NeuralQcError::ContextOutputShape { expected, actual });
    }
    Ok(context)
}

/// A model file of the kind with a context codec always decodes spectra.
pub proof fn parsed_hyper_models_are_usable(syntax: ModelSyntax)
    requires
        model_fits(syntax),
        syntax.model_type is Hyper,
    ensures
        unusable_model(syntax) is None,
{
}

/// Check that the latents of a model are a whole low-complexity spectrum.
pub fn check_low_complexity(base: &NeuralCodecModel) -> (result: Result<(), NeuralQcError>)
    requires
        codec_fits(base.syntax()),
    ensures
        ({
            let shape = base.syntax().latent_shape;
            let len = shape.dimensions * shape.channels;
            result == if len != AVS3_FEATURE_DIMENSIONS {
                Err::<(), NeuralQcError>(
                    NeuralQcError::LowComplexityOutputLength {
                        expected: AVS3_FEATURE_DIMENSIONS,
                        actual: len as usize,
                    },
                )
            } else {
                Ok(())
            }
        }),
{
    let actual: usize = base.latent_shape().len();
    if actual != AVS3_FEATURE_DIMENSIONS {
        return Err(
            NeuralQcError::LowComplexityOutputLength { expected: AVS3_FEATURE_DIMENSIONS, actual },
        );
    }
    Ok(())
}

/// Quantised latents in order channel by channel, and the bytes that they took.
pub open spec fn quantized_latents(
    stream: Seq<u8>,
    codec: NeuralCodecModel,
    indexes: Seq<u16>,
) -> Result<(Seq<i32>, int), NeuralQcError> {
    let shape = codec.syntax().latent_shape;
    let (values, state, error) = values_of(
        stream,
        fresh_state(),
        codec.syntax().range_coder,
        indexes,
        0,
    );
    match error {
        Some(error) => Err(NeuralQcError::RangeCoder(error)),
        None => Ok(
            (
                unflattened(values, shape.dimensions as int, shape.channels as int),
                state.position,
            ),
        ),
    }
}

/// Decode quantised latents, each with the distribution that its index names. Gives them in order
/// channel by channel, with the number of bytes that they took.
pub fn decode_quantized(codec: &NeuralCodecModel, stream: &[u8], indexes: &[u16]) -> (result: Result<
    (Vec<i32>, usize),
    NeuralQcError,
>)
    requires
        codec_fits(codec.syntax()),
        indexes@.len() == codec.syntax().latent_shape.dimensions
            * codec.syntax().latent_shape.channels,
    ensures
        match quantized_latents(stream@, *codec, indexes@) {
            Err(error) => result == Err::<(Vec<i32>, usize), NeuralQcError>(error),
            Ok((values, consumed)) => {
                &&& result is Ok
                &&& (result->Ok_0).0@ == values
                &&& (result->Ok_0).1 == consumed
                &&& consumed <= stream@.len()
            },
        },
{
    let mut decoder = RangeDecoder::new(stream);
    let flattened = match decoder.decode(codec.range_coder(), indexes) {
        Ok(values) => values,
        Err(error) => {
            return Err(NeuralQcError::RangeCoder(error));
        },
    };
    let values = unflatten_from_entropy_coder(codec.latent_shape(), flattened.as_slice());
    Ok((values, decoder.bytes_consumed()))
}

/// Decode the context latents, whose distributions go by channel.
pub fn decode_context(codec: &NeuralCodecModel, bitstreams: NeuralBitstreams<'_>) -> (result: Result<
    (Vec<i32>, usize),
    NeuralQcError,
>)
    requires
        codec_fits(codec.syntax()),
    ensures
        match quantized_latents(
            bitstreams.context_stream(),
            *codec,
            channel_pattern(
                codec.syntax().latent_shape.dimensions as int,
                codec.syntax().latent_shape.channels as int,
            ),
        ) {
            Err(error) => result == Err::<(Vec<i32>, usize), NeuralQcError>(error),
            Ok((values, consumed)) => {
                &&& result is Ok
                &&& (result->Ok_0).0@ == values
                &&& (result->Ok_0).1 == consumed
            },
        },
{
    let indexes = channel_cdf_indexes(codec.latent_shape());
    decode_quantized(codec, bitstreams.context(), indexes.as_slice())
}

/// Decode the base latents, whose distributions the context network has chosen.
pub fn decode_base(
    codec: &NeuralCodecModel,
    bitstreams: NeuralBitstreams<'_>,
    indexes: &[u16],
) -> (result: Result<(Vec<i32>, usize), NeuralQcError>)
    requires
        codec_fits(codec.syntax()),
        indexes@.len() == codec.syntax().latent_shape.dimensions
            * codec.syntax().latent_shape.channels,
    ensures
        match quantized_latents(bitstreams.base_stream(), *codec, indexes@) {
            Err(error) => result == Err::<(Vec<i32>, usize), NeuralQcError>(error),
            Ok((values, consumed)) => {
                &&& result is Ok
                &&& (result->Ok_0).0@ == values
                &&& (result->Ok_0).1 == consumed
            },
        },
{
    decode_quantized(codec, bitstreams.base(), indexes)
}

} // verus!
