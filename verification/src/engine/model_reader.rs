//! Bounds-checked reading of neural model files, whose bytes may be obfuscated.

use crate::engine::latent::LatentError;
use crate::engine::range_coder::{
    block_cdfs, block_offsets, block_values, config_error, le16, le32, signed16, tables,
    RangeCoderConfig, RangeCoderError, RangeModel,
};
use crate::float_bits::{finite, is_finite};
use crate::text::{
    decimal, hexadecimal, plain, push_decimal, push_hexadecimal, push_signed, signed_decimal,
    with_number, with_three_numbers, with_two_numbers,
};
use vstd::prelude::*;
use vstd::string::StringExecFns;

verus! {

/// What every byte of an obfuscated model is combined with.
pub const AVS3_MODEL_XOR_MASK: u8 = 0x55;

pub const DEFAULT_MAX_MODEL_BYTES: usize = 4_194_304;

pub const DEFAULT_MAX_MODEL_VALUES: usize = 4_194_304;

pub const DEFAULT_MAX_MODEL_LAYERS: usize = 10;

pub const DEFAULT_MAX_MODEL_CHANNELS: usize = 4_096;

pub const DEFAULT_MAX_KERNEL_SIZE: usize = 255;

/// Whether the bytes of a model are obfuscated.
#[derive(Debug, Clone, Copy, PartialEq, Eq, Structural)]
pub enum ModelEncoding {
    Plain,
    Xor55,
}

impl ModelEncoding {
    /// What every byte is combined with.
    pub open spec fn key(self) -> u8 {
        match self {
            ModelEncoding::Plain => 0,
            ModelEncoding::Xor55 => AVS3_MODEL_XOR_MASK,
        }
    }

    /// What every byte is combined with.
    pub fn mask(self) -> (mask: u8)
        ensures
            mask == self.key(),
    {
        match self {
            ModelEncoding::Plain => 0,
            ModelEncoding::Xor55 => AVS3_MODEL_XOR_MASK,
        }
    }
}

/// The bytes of a model without the obfuscation.
pub open spec fn unmasked(input: Seq<u8>, mask: u8) -> Seq<u8> {
    Seq::new(input.len(), |i: int| input[i] ^ mask)
}

/// Obfuscating twice gives the bytes back.
pub proof fn masking_undoes_itself(input: Seq<u8>, encoding: ModelEncoding)
    ensures
        unmasked(unmasked(input, encoding.key()), encoding.key()) == input,
        unmasked(input, ModelEncoding::Plain.key()) == input,
{
    let mask = encoding.key();
    let twice = unmasked(unmasked(input, mask), mask);
    let none = unmasked(input, 0);
    assert forall|i: int| 0 <= i < input.len() implies twice[i] == input[i] && none[i]
        == input[i] by {
        let byte = input[i];
        assert((byte ^ mask) ^ mask == byte && byte ^ 0 == byte) by (bit_vector);
    }
    assert(twice =~= input);
    assert(none =~= input);
}

/// How large a model and its parts may be.
#[derive(Debug, Clone, Copy, PartialEq, Eq, Structural)]
pub struct ModelLimits {
    pub max_model_bytes: usize,
    pub max_collection_values: usize,
    pub max_layers: usize,
    pub max_channels: usize,
    pub max_kernel_size: usize,
}

impl ModelLimits {
    /// The limits that hold where nothing else is asked for.
    pub open spec fn usual() -> ModelLimits {
        ModelLimits {
            max_model_bytes: DEFAULT_MAX_MODEL_BYTES,
            max_collection_values: DEFAULT_MAX_MODEL_VALUES,
            max_layers: DEFAULT_MAX_MODEL_LAYERS,
            max_channels: DEFAULT_MAX_MODEL_CHANNELS,
            max_kernel_size: DEFAULT_MAX_KERNEL_SIZE,
        }
    }
}

impl Default for ModelLimits {
    fn default() -> (limits: Self)
        ensures
            limits == ModelLimits::usual(),
    {
        ModelLimits {
            max_model_bytes: DEFAULT_MAX_MODEL_BYTES,
            max_collection_values: DEFAULT_MAX_MODEL_VALUES,
            max_layers: DEFAULT_MAX_MODEL_LAYERS,
            max_channels: DEFAULT_MAX_MODEL_CHANNELS,
            max_kernel_size: DEFAULT_MAX_KERNEL_SIZE,
        }
    }
}

/// Why a model was refused.
#[derive(Debug, Clone, Copy, PartialEq, Eq)]
pub enum ModelError {
    InputTooLarge { bytes: usize, limit: usize },
    UnexpectedEof { position: usize, requested: usize, available: usize },
    IntegerOverflow,
    CollectionTooLarge { collection: &'static str, values: usize, limit: usize },
    NonFiniteFloat { position: usize, bits: u32 },
    InvalidLayerCount { network: &'static str, value: i16, limit: usize },
    InvalidField { field: &'static str, value: i16 },
    ChannelMismatch { network: &'static str, layer: usize, expected: usize, actual: usize },
    DimensionNotDivisible {
        network: &'static str,
        layer: usize,
        dimensions: usize,
        stride: usize,
    },
    NetworkOutputMismatch {
        network: &'static str,
        expected_dimensions: usize,
        expected_channels: usize,
        actual_dimensions: usize,
        actual_channels: usize,
    },
    TrailingData { bytes: usize },
    Latent(LatentError),
    RangeCoder(RangeCoderError),
}

impl ModelError {
    /// The error in words.
    pub open spec fn words(self) -> Seq<char> {
        match self {
            ModelError::InputTooLarge { bytes, limit } => "model has "@ + decimal(bytes as nat)
                + " bytes; limit is "@ + decimal(limit as nat) + ""@,
            ModelError::UnexpectedEof { position, requested, available } => "model ended at byte "@
                + decimal(position as nat) + "; need "@ + decimal(requested as nat) + " bytes, "@
                + decimal(available as nat) + " remain"@,
            ModelError::IntegerOverflow => "model size arithmetic overflow"@,
            ModelError::CollectionTooLarge { collection, values, limit } => collection@ + " has "@
                + decimal(values as nat) + " values; limit is "@ + decimal(limit as nat),
            ModelError::NonFiniteFloat { position, bits } => "model float at byte "@ + decimal(
                position as nat,
            ) + " is not finite (bits 0x"@ + hexadecimal(bits as nat, 8) + ")"@,
            ModelError::InvalidLayerCount { network, value, limit } => network@ + " declares "@
                + signed_decimal(value as int) + " layers; valid range is 1..="@ + decimal(
                limit as nat,
            ),
            ModelError::InvalidField { field, value } => "model field "@ + field@
                + " has invalid value "@ + signed_decimal(value as int),
            ModelError::ChannelMismatch { network, layer, expected, actual } => network@
                + " layer "@ + decimal(layer as nat) + " expects "@ + decimal(actual as nat)
                + " input channels; previous shape has "@ + decimal(expected as nat),
            ModelError::DimensionNotDivisible { network, layer, dimensions, stride } => network@
                + " layer "@ + decimal(layer as nat) + " cannot downsample "@ + decimal(
                dimensions as nat,
            ) + " dimensions by stride "@ + decimal(stride as nat),
            ModelError::NetworkOutputMismatch {
                network,
                expected_dimensions,
                expected_channels,
                actual_dimensions,
                actual_channels,
            } => network@ + " output is "@ + decimal(actual_dimensions as nat) + "x"@ + decimal(
                actual_channels as nat,
            ) + "; expected "@ + decimal(expected_dimensions as nat) + "x"@ + decimal(
                expected_channels as nat,
            ),
            ModelError::TrailingData { bytes } => "model has "@ + decimal(bytes as nat)
                + " unconsumed trailing bytes"@,
            ModelError::Latent(error) => error.words(),
            ModelError::RangeCoder(error) => error.words(),
        }
    }

    /// Put the error in words.
    pub fn message(self) -> (text: String)
        ensures
            text@ == self.words(),
    {
        match self {
            ModelError::InputTooLarge { bytes, limit } => with_two_numbers(
                "model has ",
                bytes as u64,
                " bytes; limit is ",
                limit as u64,
                "",
            ),
            ModelError::UnexpectedEof { position, requested, available } => with_three_numbers(
                "model ended at byte ",
                position as u64,
                "; need ",
                requested as u64,
                " bytes, ",
                available as u64,
                " remain",
            ),
            ModelError::IntegerOverflow => plain("model size arithmetic overflow"),
            ModelError::CollectionTooLarge { collection, values, limit } => {
                let mut text = plain(collection);
                text.append(" has ");
                push_decimal(&mut text, values as u64);
                text.append(" values; limit is ");
                push_decimal(&mut text, limit as u64);
                text
            },
            ModelError::NonFiniteFloat { position, bits } => {
                let mut text = with_number(
                    "model float at byte ",
                    position as u64,
                    " is not finite (bits 0x",
                );
                push_hexadecimal(&mut text, bits, 8);
                text.append(")");
                text
            },
            ModelError::InvalidLayerCount { network, value, limit } => {
                let mut text = plain(network);
                text.append(" declares ");
                push_signed(&mut text, value as i32);
                text.append(" layers; valid range is 1..=");
                push_decimal(&mut text, limit as u64);
                text
            },
            ModelError::InvalidField { field, value } => {
                let mut text = plain("model field ");
                text.append(field);
                text.append(" has invalid value ");
                push_signed(&mut text, value as i32);
                text
            },
            ModelError::ChannelMismatch { network, layer, expected, actual } => {
                let mut text = plain(network);
                text.append(" layer ");
                push_decimal(&mut text, layer as u64);
                text.append(" expects ");
                push_decimal(&mut text, actual as u64);
                text.append(" input channels; previous shape has ");
                push_decimal(&mut text, expected as u64);
                text
            },
            ModelError::DimensionNotDivisible { network, layer, dimensions, stride } => {
                let mut text = plain(network);
                text.append(" layer ");
                push_decimal(&mut text, layer as u64);
                text.append(" cannot downsample ");
                push_decimal(&mut text, dimensions as u64);
                text.append(" dimensions by stride ");
                push_decimal(&mut text, stride as u64);
                text
            },
            ModelError::NetworkOutputMismatch {
                network,
                expected_dimensions,
                expected_channels,
                actual_dimensions,
                actual_channels,
            } => {
                let mut text = plain(network);
                text.append(" output is ");
                push_decimal(&mut text, actual_dimensions as u64);
                text.append("x");
                push_decimal(&mut text, actual_channels as u64);
                text.append("; expected ");
                push_decimal(&mut text, expected_dimensions as u64);
                text.append("x");
                push_decimal(&mut text, expected_channels as u64);
                text
            },
            ModelError::TrailingData { bytes } => with_number(
                "model has ",
                bytes as u64,
                " unconsumed trailing bytes",
            ),
            ModelError::Latent(error) => error.message(),
            ModelError::RangeCoder(error) => error.message(),
        }
    }
}

/// Why `requested` bytes can not be taken at `position`, if they can not.
pub open spec fn missing_bytes(len: int, position: int, requested: int) -> Option<ModelError> {
    if position + requested > usize::MAX {
        Some(ModelError::IntegerOverflow)
    } else if position + requested > len {
        Some(
            ModelError::UnexpectedEof {
                position: position as usize,
                requested: requested as usize,
                available: (len - position) as usize,
            },
        )
    } else {
        None
    }
}

/// Why `count` values of `width` bytes can not be taken at `position`, if they can not.
pub open spec fn missing_values(
    len: int,
    position: int,
    count: int,
    width: int,
    collection: &'static str,
    limits: ModelLimits,
) -> Option<ModelError> {
    if count > limits.max_collection_values {
        Some(
            ModelError::CollectionTooLarge {
                collection,
                values: count as usize,
                limit: limits.max_collection_values,
            },
        )
    } else if count * width > usize::MAX {
        Some(ModelError::IntegerOverflow)
    } else {
        missing_bytes(len, position, count * width)
    }
}

/// The signed 16-bit number at `position`.
pub open spec fn i16_at(source: Seq<u8>, position: int) -> Result<i16, ModelError> {
    match missing_bytes(source.len() as int, position, 2) {
        Some(error) => Err(error),
        None => Ok(signed16(le16(source, position)) as i16),
    }
}

/// The 16-bit number at `position`.
pub open spec fn u16_at(source: Seq<u8>, position: int) -> Result<u16, ModelError> {
    match missing_bytes(source.len() as int, position, 2) {
        Some(error) => Err(error),
        None => Ok(le16(source, position) as u16),
    }
}

/// The 32-bit number at `position`.
pub open spec fn u32_at(source: Seq<u8>, position: int) -> Result<u32, ModelError> {
    match missing_bytes(source.len() as int, position, 4) {
        Some(error) => Err(error),
        None => Ok(le32(source, position) as u32),
    }
}

/// The single-precision number at `position`.
pub open spec fn f32_at(source: Seq<u8>, position: int) -> Result<u32, ModelError> {
    match u32_at(source, position) {
        Err(error) => Err(error),
        Ok(bits) => if finite(bits) {
            Ok(bits)
        } else {
            Err(ModelError::NonFiniteFloat { position: position as usize, bits })
        },
    }
}

/// The first of `count` single-precision numbers from `position` on that is not finite, from number
/// `from` on.
pub open spec fn first_non_finite(source: Seq<u8>, position: int, count: int, from: int) -> Option<
    int,
>
    decreases count - from,
{
    if from >= count {
        None
    } else if !finite(le32(source, position + 4 * from) as u32) {
        Some(from)
    } else {
        first_non_finite(source, position, count, from + 1)
    }
}

/// The signed 16-bit numbers from `position` on.
pub open spec fn i16s_at(
    source: Seq<u8>,
    position: int,
    count: int,
    collection: &'static str,
    limits: ModelLimits,
) -> Result<Seq<i16>, ModelError> {
    match missing_values(source.len() as int, position, count, 2, collection, limits) {
        Some(error) => Err(error),
        None => Ok(
            Seq::new(count as nat, |i: int| signed16(le16(source, position + 2 * i)) as i16),
        ),
    }
}

/// The 16-bit numbers from `position` on.
pub open spec fn u16s_at(
    source: Seq<u8>,
    position: int,
    count: int,
    collection: &'static str,
    limits: ModelLimits,
) -> Result<Seq<u16>, ModelError> {
    match missing_values(source.len() as int, position, count, 2, collection, limits) {
        Some(error) => Err(error),
        None => Ok(Seq::new(count as nat, |i: int| le16(source, position + 2 * i) as u16)),
    }
}

/// The 32-bit numbers from `position` on.
pub open spec fn u32s_at(
    source: Seq<u8>,
    position: int,
    count: int,
    collection: &'static str,
    limits: ModelLimits,
) -> Result<Seq<u32>, ModelError> {
    match missing_values(source.len() as int, position, count, 4, collection, limits) {
        Some(error) => Err(error),
        None => Ok(Seq::new(count as nat, |i: int| le32(source, position + 4 * i) as u32)),
    }
}

/// The single-precision numbers from `position` on, all of which have to be finite.
pub open spec fn f32s_at(
    source: Seq<u8>,
    position: int,
    count: int,
    collection: &'static str,
    limits: ModelLimits,
) -> Result<Seq<u32>, ModelError> {
    match u32s_at(source, position, count, collection, limits) {
        Err(error) => Err(error),
        Ok(values) => match first_non_finite(source, position, count, 0) {
            None => Ok(values),
            Some(index) => Err(
                ModelError::NonFiniteFloat {
                    position: (position + 4 * index) as usize,
                    bits: le32(source, position + 4 * index) as u32,
                },
            ),
        },
    }
}

/// The distributions at `position`, and the position behind them.
pub open spec fn range_config_at(
    source: Seq<u8>,
    position: int,
    count: int,
    limits: ModelLimits,
) -> Result<(RangeModel, int), ModelError> {
    let block = source.subrange(position, source.len() as int);
    let len = source.len() as int;
    if count > 65_535 {
        Err(ModelError::RangeCoder(RangeCoderError::TooManyCdfs(count as usize)))
    } else if count > limits.max_collection_values {
        Err(
            ModelError::CollectionTooLarge {
                collection: "range-coder CDF tables",
                values: count as usize,
                limit: limits.max_collection_values,
            },
        )
    } else if let Some(error) = missing_bytes(len, position, 2 * count) {
        Err(error)
    } else if let Some(error) = missing_bytes(len, position + 2 * count, 2 * count) {
        Err(error)
    } else if block_values(block, count) > usize::MAX {
        Err(ModelError::IntegerOverflow)
    } else if let Some(error) = missing_values(
        len,
        position + 4 * count,
        block_values(block, count),
        4,
        "range-coder CDF values",
        limits,
    ) {
        Err(error)
    } else if let Some(error) = config_error(
        block_cdfs(block, count),
        block_offsets(block, count),
        16,
        4,
    ) {
        Err(ModelError::RangeCoder(error))
    } else {
        Ok(
            (
                RangeModel {
                    cdfs: block_cdfs(block, count),
                    offsets: block_offsets(block, count),
                    precision: 16,
                    overflow_width: 4,
                },
                position + 4 * count + 4 * block_values(block, count),
            ),
        )
    }
}

/// A cursor over the bytes of a model.
///
/// The obfuscation is removed byte by byte. A read that fails leaves the cursor where it was.
#[derive(Debug, Clone)]
pub struct ModelReader<'a> {
    input: &'a [u8],
    position: usize,
    xor_mask: u8,
    limits: ModelLimits,
}

impl<'a> ModelReader<'a> {
    /// The bytes, without the obfuscation.
    pub closed spec fn source(&self) -> Seq<u8> {
        unmasked(self.input@, self.xor_mask)
    }

    /// The next byte.
    pub closed spec fn cursor(&self) -> int {
        self.position as int
    }

    /// How large things may be.
    pub closed spec fn bounds(&self) -> ModelLimits {
        self.limits
    }

    /// The cursor never passes the end.
    pub open spec fn well_formed(&self) -> bool {
        0 <= self.cursor() <= self.source().len() <= usize::MAX
    }

    /// `self` reads the same bytes as `other`, from a possibly different position.
    pub open spec fn same_source(&self, other: &ModelReader<'a>) -> bool {
        &&& self.well_formed()
        &&& self.source() == other.source()
        &&& self.bounds() == other.bounds()
    }

    /// Read plain bytes, with the usual limits.
    pub fn new(input: &'a [u8]) -> (result: Result<Self, ModelError>)
        ensures
            reader_result(result, input@, ModelEncoding::Plain, ModelLimits::usual()),
    {
        Self::with_limits(input, ModelEncoding::Plain, ModelLimits::default())
    }

    /// Read obfuscated bytes, with the usual limits.
    pub fn new_xor55(input: &'a [u8]) -> (result: Result<Self, ModelError>)
        ensures
            reader_result(result, input@, ModelEncoding::Xor55, ModelLimits::usual()),
    {
        Self::with_limits(input, ModelEncoding::Xor55, ModelLimits::default())
    }

    /// Read bytes, with the given limits.
    pub fn with_limits(input: &'a [u8], encoding: ModelEncoding, limits: ModelLimits) -> (result:
        Result<Self, ModelError>)
        ensures
            reader_result(result, input@, encoding, limits),
    {
        if input.len() > limits.max_model_bytes {
            return Err(
                ModelError::InputTooLarge { bytes: input.len(), limit: limits.max_model_bytes },
            );
        }
        Ok(ModelReader { input, position: 0, xor_mask: encoding.mask(), limits })
    }

    /// Number of bytes read.
    pub fn position(&self) -> (position: usize)
        ensures
            position == self.cursor(),
    {
        self.position
    }

    /// Number of bytes left.
    pub fn remaining(&self) -> (count: usize)
        requires
            self.well_formed(),
        ensures
            count == self.source().len() - self.cursor(),
    {
        self.input.len() - self.position
    }

    /// Whether all bytes have been read.
    pub fn is_empty(&self) -> (empty: bool)
        requires
            self.well_formed(),
        ensures
            empty == (self.cursor() == self.source().len()),
    {
        self.remaining() == 0
    }

    /// How large things may be.
    pub fn limits(&self) -> (limits: ModelLimits)
        ensures
            limits == self.bounds(),
    {
        self.limits
    }

    /// Read a 16-bit number.
    pub fn read_u16(&mut self) -> (result: Result<u16, ModelError>)
        requires
            old(self).well_formed(),
        ensures
            final(self).same_source(old(self)),
            result == u16_at(old(self).source(), old(self).cursor()),
            final(self).cursor() == old(self).cursor() + if result is Ok {
                2int
            } else {
                0int
            },
    {
        self.require(2)?;
        let value: u16 = self.value16(self.position);
        self.position = self.position + 2;
        Ok(value)
    }

    /// Read a signed 16-bit number.
    pub fn read_i16(&mut self) -> (result: Result<i16, ModelError>)
        requires
            old(self).well_formed(),
        ensures
            final(self).same_source(old(self)),
            result == i16_at(old(self).source(), old(self).cursor()),
            final(self).cursor() == old(self).cursor() + if result is Ok {
                2int
            } else {
                0int
            },
    {
        let value: u16 = self.read_u16()?;
        Ok(to_signed(value))
    }

    /// Read a 32-bit number.
    pub fn read_u32(&mut self) -> (result: Result<u32, ModelError>)
        requires
            old(self).well_formed(),
        ensures
            final(self).same_source(old(self)),
            result == u32_at(old(self).source(), old(self).cursor()),
            final(self).cursor() == old(self).cursor() + if result is Ok {
                4int
            } else {
                0int
            },
    {
        self.require(4)?;
        let value: u32 = self.value32(self.position);
        self.position = self.position + 4;
        Ok(value)
    }

    /// Read a finite single-precision number, as its bit pattern.
    pub fn read_f32(&mut self) -> (result: Result<u32, ModelError>)
        requires
            old(self).well_formed(),
        ensures
            final(self).same_source(old(self)),
            result == f32_at(old(self).source(), old(self).cursor()),
            final(self).cursor() == old(self).cursor() + if result is Ok {
                4int
            } else {
                0int
            },
    {
        let position: usize = self.position;
        let bits: u32 = self.read_u32()?;
        if !is_finite(bits) {
            self.position = position;
            return Err(ModelError::NonFiniteFloat { position, bits });
        }
        Ok(bits)
    }

    /// Read `count` 16-bit numbers.
    pub fn read_u16s(&mut self, count: usize, collection: &'static str) -> (result: Result<
        Vec<u16>,
        ModelError,
    >)
        requires
            old(self).well_formed(),
        ensures
            final(self).same_source(old(self)),
            match u16s_at(
                old(self).source(),
                old(self).cursor(),
                count as int,
                collection,
                old(self).bounds(),
            ) {
                Ok(values) => result is Ok && result->Ok_0@ == values && final(self).cursor()
                    == old(self).cursor() + 2 * count,
                Err(error) => result == Err::<Vec<u16>, ModelError>(error) && final(self).cursor()
                    == old(self).cursor(),
            },
    {
        self.check_values(count, 2, collection)?;
        let mut values: Vec<u16> = Vec::new();
        let start: usize = self.position;
        let ghost source = self.source();
        while values.len() < count
            invariant
                values@.len() <= count,
                start + 2 * count <= self.source().len() <= usize::MAX,
                *self == *old(self),
                source == self.source(),
                forall|i: int|
                    0 <= i < values@.len() ==> #[trigger] values@[i] == le16(source, start + 2 * i),
            decreases count - values@.len(),
        {
            let at: usize = start + 2 * values.len();
            let value: u16 = self.value16(at);
            values.push(value);
        }
        self.position = start + 2 * count;
        assert(values@ =~= Seq::new(count as nat, |i: int| le16(source, start + 2 * i) as u16));
        Ok(values)
    }

    /// Read `count` signed 16-bit numbers.
    pub fn read_i16s(&mut self, count: usize, collection: &'static str) -> (result: Result<
        Vec<i16>,
        ModelError,
    >)
        requires
            old(self).well_formed(),
        ensures
            final(self).same_source(old(self)),
            match i16s_at(
                old(self).source(),
                old(self).cursor(),
                count as int,
                collection,
                old(self).bounds(),
            ) {
                Ok(values) => result is Ok && result->Ok_0@ == values && final(self).cursor()
                    == old(self).cursor() + 2 * count,
                Err(error) => result == Err::<Vec<i16>, ModelError>(error) && final(self).cursor()
                    == old(self).cursor(),
            },
    {
        self.check_values(count, 2, collection)?;
        let mut values: Vec<i16> = Vec::new();
        let start: usize = self.position;
        let ghost source = self.source();
        while values.len() < count
            invariant
                values@.len() <= count,
                start + 2 * count <= self.source().len() <= usize::MAX,
                *self == *old(self),
                source == self.source(),
                forall|i: int|
                    0 <= i < values@.len() ==> #[trigger] values@[i] == signed16(
                        le16(source, start + 2 * i),
                    ),
            decreases count - values@.len(),
        {
            let at: usize = start + 2 * values.len();
            let value: u16 = self.value16(at);
            values.push(to_signed(value));
        }
        self.position = start + 2 * count;
        assert(values@ =~= Seq::new(
            count as nat,
            |i: int| signed16(le16(source, start + 2 * i)) as i16,
        ));
        Ok(values)
    }

    /// Read `count` 32-bit numbers.
    pub fn read_u32s(&mut self, count: usize, collection: &'static str) -> (result: Result<
        Vec<u32>,
        ModelError,
    >)
        requires
            old(self).well_formed(),
        ensures
            final(self).same_source(old(self)),
            match u32s_at(
                old(self).source(),
                old(self).cursor(),
                count as int,
                collection,
                old(self).bounds(),
            ) {
                Ok(values) => result is Ok && result->Ok_0@ == values && final(self).cursor()
                    == old(self).cursor() + 4 * count,
                Err(error) => result == Err::<Vec<u32>, ModelError>(error) && final(self).cursor()
                    == old(self).cursor(),
            },
    {
        self.check_values(count, 4, collection)?;
        let mut values: Vec<u32> = Vec::new();
        let start: usize = self.position;
        let ghost source = self.source();
        while values.len() < count
            invariant
                values@.len() <= count,
                start + 4 * count <= self.source().len() <= usize::MAX,
                *self == *old(self),
                source == self.source(),
                forall|i: int|
                    0 <= i < values@.len() ==> #[trigger] values@[i] == le32(source, start + 4 * i),
            decreases count - values@.len(),
        {
            let at: usize = start + 4 * values.len();
            let value: u32 = self.value32(at);
            values.push(value);
        }
        self.position = start + 4 * count;
        assert(values@ =~= Seq::new(count as nat, |i: int| le32(source, start + 4 * i) as u32));
        Ok(values)
    }

    /// Read `count` finite single-precision numbers, as their bit patterns.
    pub fn read_f32s(&mut self, count: usize, collection: &'static str) -> (result: Result<
        Vec<u32>,
        ModelError,
    >)
        requires
            old(self).well_formed(),
        ensures
            final(self).same_source(old(self)),
            match f32s_at(
                old(self).source(),
                old(self).cursor(),
                count as int,
                collection,
                old(self).bounds(),
            ) {
                Ok(values) => result is Ok && result->Ok_0@ == values && final(self).cursor()
                    == old(self).cursor() + 4 * count,
                Err(error) => result == Err::<Vec<u32>, ModelError>(error) && final(self).cursor()
                    == old(self).cursor(),
            },
    {
        let start: usize = self.position;
        let ghost source = self.source();
        let values = self.read_u32s(count, collection)?;
        let mut index: usize = 0;
        while index < count
            invariant
                index <= count,
                count == values@.len(),
                self.same_source(old(self)),
                source == old(self).source(),
                start == old(self).position,
                start + 4 * count <= usize::MAX,
                values@ == Seq::new(count as nat, |i: int| le32(source, start + 4 * i) as u32),
                u32s_at(source, start as int, count as int, collection, old(self).bounds()) == Ok::<
                    Seq<u32>,
                    ModelError,
                >(values@),
                first_non_finite(source, start as int, count as int, 0) == first_non_finite(
                    source,
                    start as int,
                    count as int,
                    index as int,
                ),
                self.position == start + 4 * count,
            decreases count - index,
        {
            let bits: u32 = values[index];
            if !is_finite(bits) {
                self.position = start;
                return Err(ModelError::NonFiniteFloat { position: start + 4 * index, bits });
            }
            index = index + 1;
        }
        Ok(values)
    }

    /// Read `num_cdfs` distributions: the lengths of all tables, their offsets, then the tables.
    pub fn read_range_coder_config(&mut self, num_cdfs: usize) -> (result: Result<
        RangeCoderConfig,
        ModelError,
    >)
        requires
            old(self).well_formed(),
        ensures
            final(self).same_source(old(self)),
            match range_config_at(
                old(self).source(),
                old(self).cursor(),
                num_cdfs as int,
                old(self).bounds(),
            ) {
                Ok((model, end)) => {
                    &&& result is Ok
                    &&& result->Ok_0.model() == model
                    &&& result->Ok_0.well_formed()
                    &&& final(self).cursor() == end
                },
                Err(error) => {
                    &&& result == Err::<RangeCoderConfig, ModelError>(error)
                    &&& final(self).cursor() == old(self).cursor()
                },
            },
    {
        let start: usize = self.position;
        let result = self.read_range_block(num_cdfs);
        if result.is_err() {
            self.position = start;
        }
        result
    }

    /// Read distributions, wherever that ends.
    fn read_range_block(&mut self, num_cdfs: usize) -> (result: Result<
        RangeCoderConfig,
        ModelError,
    >)
        requires
            old(self).well_formed(),
        ensures
            final(self).same_source(old(self)),
            match range_config_at(
                old(self).source(),
                old(self).cursor(),
                num_cdfs as int,
                old(self).bounds(),
            ) {
                Ok((model, end)) => {
                    &&& result is Ok
                    &&& result->Ok_0.model() == model
                    &&& result->Ok_0.well_formed()
                    &&& final(self).cursor() == end
                },
                Err(error) => result == Err::<RangeCoderConfig, ModelError>(error),
            },
    {
        if num_cdfs > 65_535 {
            return Err(ModelError::RangeCoder(RangeCoderError::TooManyCdfs(num_cdfs)));
        }
        if num_cdfs > self.limits.max_collection_values {
            return Err(
                ModelError::CollectionTooLarge {
                    collection: "range-coder CDF tables",
                    values: num_cdfs,
                    limit: self.limits.max_collection_values,
                },
            );
        }
        let ghost source = self.source();
        let ghost start = self.cursor();
        let ghost block = source.subrange(start, source.len() as int);
        let lengths = self.read_u16s(num_cdfs, "range-coder CDF lengths")?;
        let offsets = self.read_i16s(num_cdfs, "range-coder CDF offsets")?;
        assert(offsets@ =~= block_offsets(block, num_cdfs as int));
        assert forall|i: int| 0 <= i < num_cdfs implies lengths@[i] == le16(block, 2 * i) by {}
        let mut table_values: usize = 0;
        let mut counted: usize = 0;
        while counted < num_cdfs
            invariant
                counted <= num_cdfs <= 65_535,
                self.same_source(old(self)),
                source == old(self).source(),
                start == old(self).cursor(),
                block == source.subrange(start, source.len() as int),
                num_cdfs <= old(self).bounds().max_collection_values,
                start + 4 * num_cdfs <= source.len() <= usize::MAX,
                lengths@.len() == num_cdfs,
                forall|i: int| 0 <= i < num_cdfs ==> lengths@[i] == le16(block, 2 * i),
                table_values == block_values(block, counted as int),
            decreases num_cdfs - counted,
        {
            proof {
                lemma_values_grow(block, counted as int + 1, num_cdfs as int);
            }
            table_values = match table_values.checked_add(lengths[counted] as usize) {
                Some(values) => values,
                None => {
                    return Err(ModelError::IntegerOverflow);
                },
            };
            counted = counted + 1;
        }
        self.check_values(table_values, 4, "range-coder CDF values")?;
        let mut cdfs: Vec<Vec<u32>> = Vec::new();
        while cdfs.len() < num_cdfs
            invariant
                cdfs@.len() <= num_cdfs <= 65_535,
                self.same_source(old(self)),
                source == old(self).source(),
                start == old(self).cursor(),
                0 <= start,
                block == source.subrange(start, source.len() as int),
                start + 4 * num_cdfs + 4 * table_values <= source.len() <= usize::MAX,
                table_values == block_values(block, num_cdfs as int),
                table_values <= old(self).bounds().max_collection_values,
                lengths@.len() == num_cdfs,
                forall|i: int| 0 <= i < num_cdfs ==> lengths@[i] == le16(block, 2 * i),
                self.cursor() == start + 4 * num_cdfs + 4 * block_values(block, cdfs@.len() as int),
                forall|i: int|
                    0 <= i < cdfs@.len() ==> (#[trigger] cdfs@[i])@ == block_cdfs(
                        block,
                        num_cdfs as int,
                    )[i],
            decreases num_cdfs - cdfs@.len(),
        {
            let index: usize = cdfs.len();
            proof {
                lemma_values_grow(block, index as int + 1, num_cdfs as int);
                lemma_values_grow(block, index as int, num_cdfs as int);
            }
            let ghost at = self.cursor();
            let cdf = self.read_u32s(lengths[index] as usize, "range-coder CDF values")?;
            assert(cdf@ =~= block_cdfs(block, num_cdfs as int)[index as int]) by {
                assert forall|j: int| 0 <= j < cdf@.len() implies cdf@[j] == block_cdfs(
                    block,
                    num_cdfs as int,
                )[index as int][j] by {
                    assert(cdf@[j] == le32(source, at + 4 * j) as u32);
                }
            }
            cdfs.push(cdf);
        }
        assert(tables(cdfs@) =~= block_cdfs(block, num_cdfs as int));
        match RangeCoderConfig::new(cdfs, offsets) {
            Ok(config) => Ok(config),
            Err(error) => Err(ModelError::RangeCoder(error)),
        }
    }

    /// Check that a collection is not too large and that its bytes are there.
    fn check_values(&self, count: usize, width: usize, collection: &'static str) -> (result: Result<
        (),
        ModelError,
    >)
        requires
            self.well_formed(),
            width <= 4,
        ensures
            match missing_values(
                self.source().len() as int,
                self.cursor(),
                count as int,
                width as int,
                collection,
                self.bounds(),
            ) {
                Some(error) => result == Err::<(), ModelError>(error),
                None => result is Ok && self.cursor() + count * width <= self.source().len(),
            },
    {
        if count > self.limits.max_collection_values {
            return Err(
                ModelError::CollectionTooLarge {
                    collection,
                    values: count,
                    limit: self.limits.max_collection_values,
                },
            );
        }
        let bytes: usize = match count.checked_mul(width) {
            Some(bytes) => bytes,
            None => {
                return Err(ModelError::IntegerOverflow);
            },
        };
        self.require(bytes)
    }

    /// Check that `requested` bytes are there.
    fn require(&self, requested: usize) -> (result: Result<(), ModelError>)
        requires
            self.well_formed(),
        ensures
            match missing_bytes(self.source().len() as int, self.cursor(), requested as int) {
                Some(error) => result == Err::<(), ModelError>(error),
                None => result is Ok && self.cursor() + requested <= self.source().len(),
            },
    {
        let end: usize = match self.position.checked_add(requested) {
            Some(end) => end,
            None => {
                return Err(ModelError::IntegerOverflow);
            },
        };
        if end > self.input.len() {
            return Err(
                ModelError::UnexpectedEof {
                    position: self.position,
                    requested,
                    available: self.input.len() - self.position,
                },
            );
        }
        Ok(())
    }

    /// The 16-bit number at byte `at`.
    fn value16(&self, at: usize) -> (value: u16)
        requires
            at + 2 <= self.source().len(),
        ensures
            value == le16(self.source(), at as int),
    {
        assert(self.input.len() == self.input@.len());
        let low: u8 = self.input[at] ^ self.xor_mask;
        let high: u8 = self.input[at + 1] ^ self.xor_mask;
        assert(low == self.source()[at as int] && high == self.source()[at + 1]);
        low as u16 + high as u16 * 0x100
    }

    /// The 32-bit number at byte `at`.
    fn value32(&self, at: usize) -> (value: u32)
        requires
            at + 4 <= self.source().len(),
        ensures
            value == le32(self.source(), at as int),
    {
        assert(self.input.len() == self.input@.len());
        let low: u16 = self.value16(at);
        let high: u16 = self.value16(at + 2);
        low as u32 + high as u32 * 0x1_0000
    }
}

/// What comes of starting to read `input`.
pub open spec fn reader_result(
    result: Result<ModelReader<'_>, ModelError>,
    input: Seq<u8>,
    encoding: ModelEncoding,
    limits: ModelLimits,
) -> bool {
    if input.len() > limits.max_model_bytes {
        result == Err::<ModelReader<'_>, ModelError>(
            ModelError::InputTooLarge {
                bytes: input.len() as usize,
                limit: limits.max_model_bytes,
            },
        )
    } else {
        &&& result is Ok
        &&& result->Ok_0.well_formed()
        &&& result->Ok_0.source() == unmasked(input, encoding.key())
        &&& result->Ok_0.cursor() == 0
        &&& result->Ok_0.bounds() == limits
    }
}

/// A 16-bit number read as a signed one.
fn to_signed(value: u16) -> (signed: i16)
    ensures
        signed == signed16(value as int),
{
    if value < 0x8000 {
        value as i16
    } else {
        (value as i32 - 0x1_0000) as i16
    }
}

proof fn lemma_values_grow(block: Seq<u8>, a: int, b: int)
    requires
        0 <= a <= b,
    ensures
        0 <= block_values(block, a) <= block_values(block, b),
    decreases b,
{
    if b > 0 {
        if a < b {
            lemma_values_grow(block, a, b - 1);
        } else {
            lemma_values_grow(block, a - 1, b - 1);
        }
    }
}

} // verus!
