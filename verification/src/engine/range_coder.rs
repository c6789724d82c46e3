//! The range decoder that reads neural latents, and the distributions that it works with.

use crate::bitreader::{lemma_span_monotone, lemma_span_values, span};
use crate::text::{
    decimal, plain, with_number, with_three_numbers, with_two_numbers,
};
use vstd::prelude::*;

verus! {

/// Most distributions that a model file may hold.
pub const MAX_MODEL_CDFS: usize = 65_535;

/// Why distributions were refused or latents could not be decoded.
#[derive(Debug, Clone, Copy, PartialEq, Eq, Structural)]
pub enum RangeCoderError {
    ConfigLengthMismatch { cdfs: usize, offsets: usize },
    InvalidPrecision(u8),
    InvalidOverflowWidth(u8),
    InvalidCdfLength { index: usize, length: usize },
    InvalidCdfStart { index: usize, value: u32 },
    InvalidCdfEnd { index: usize, expected: u32, actual: u32 },
    NonIncreasingCdf { index: usize, position: usize },
    CdfIndexOutOfRange { position: usize, index: usize, available: usize },
    OutputLengthMismatch { indexes: usize, output: usize },
    InvalidInterval,
    OverflowCodeTooLong(u32),
    TooManyCdfs(usize),
    ModelDataTooShort { needed: usize, available: usize },
    IntegerOverflow,
}

impl RangeCoderError {
    /// The error in words.
    pub open spec fn words(self) -> Seq<char> {
        match self {
            RangeCoderError::ConfigLengthMismatch { cdfs, offsets } => "range-coder config has "@
                + decimal(cdfs as nat) + " CDFs but "@ + decimal(offsets as nat) + " offsets"@,
            RangeCoderError::InvalidPrecision(value) => "invalid CDF precision "@ + decimal(
                value as nat,
            ) + ""@,
            RangeCoderError::InvalidOverflowWidth(value) => "invalid overflow width "@ + decimal(
                value as nat,
            ) + ""@,
            RangeCoderError::InvalidCdfLength { index, length } => "CDF "@ + decimal(index as nat)
                + " has invalid length "@ + decimal(length as nat) + ""@,
            RangeCoderError::InvalidCdfStart { index, value } => "CDF "@ + decimal(index as nat)
                + " starts at "@ + decimal(value as nat) + ", expected 0"@,
            RangeCoderError::InvalidCdfEnd { index, expected, actual } => "CDF "@ + decimal(
                index as nat,
            ) + " ends at "@ + decimal(actual as nat) + ", expected "@ + decimal(expected as nat)
                + ""@,
            RangeCoderError::NonIncreasingCdf { index, position } => "CDF "@ + decimal(
                index as nat,
            ) + " is not strictly increasing at element "@ + decimal(position as nat) + ""@,
            RangeCoderError::CdfIndexOutOfRange { position, index, available } => "CDF index "@
                + decimal(index as nat) + " at output position "@ + decimal(position as nat)
                + " exceeds "@ + decimal(available as nat) + " distributions"@,
            RangeCoderError::OutputLengthMismatch { indexes, output } => "range decoder has "@
                + decimal(indexes as nat) + " CDF indexes but "@ + decimal(output as nat)
                + " output slots"@,
            RangeCoderError::InvalidInterval => "range decoder reached an invalid interval"@,
            RangeCoderError::OverflowCodeTooLong(widths) => "range overflow code requests "@
                + decimal(widths as nat) + " sections"@,
            RangeCoderError::TooManyCdfs(value) => "model requests "@ + decimal(value as nat)
                + " CDF tables"@,
            RangeCoderError::ModelDataTooShort { needed, available } => "range-coder model needs "@
                + decimal(needed as nat) + " bytes, only "@ + decimal(available as nat)
                + " available"@,
            RangeCoderError::IntegerOverflow => "range decoder integer overflow"@,
        }
    }

    /// Put the error in words.
    pub fn message(self) -> (text: String)
        ensures
            text@ == self.words(),
    {
        match self {
            RangeCoderError::ConfigLengthMismatch { cdfs, offsets } => with_two_numbers(
                "range-coder config has ",
                cdfs as u64,
                " CDFs but ",
                offsets as u64,
                " offsets",
            ),
            RangeCoderError::InvalidPrecision(value) => with_number(
                "invalid CDF precision ",
                value as u64,
                "",
            ),
            RangeCoderError::InvalidOverflowWidth(value) => with_number(
                "invalid overflow width ",
                value as u64,
                "",
            ),
            RangeCoderError::InvalidCdfLength { index, length } => with_two_numbers(
                "CDF ",
                index as u64,
                " has invalid length ",
                length as u64,
                "",
            ),
            RangeCoderError::InvalidCdfStart { index, value } => with_two_numbers(
                "CDF ",
                index as u64,
                " starts at ",
                value as u64,
                ", expected 0",
            ),
            RangeCoderError::InvalidCdfEnd { index, expected, actual } => with_three_numbers(
                "CDF ",
                index as u64,
                " ends at ",
                actual as u64,
                ", expected ",
                expected as u64,
                "",
            ),
            RangeCoderError::NonIncreasingCdf { index, position } => with_two_numbers(
                "CDF ",
                index as u64,
                " is not strictly increasing at element ",
                position as u64,
                "",
            ),
            RangeCoderError::CdfIndexOutOfRange { position, index, available } =>
            with_three_numbers(
                "CDF index ",
                index as u64,
                " at output position ",
                position as u64,
                " exceeds ",
                available as u64,
                " distributions",
            ),
            RangeCoderError::OutputLengthMismatch { indexes, output } => with_two_numbers(
                "range decoder has ",
                indexes as u64,
                " CDF indexes but ",
                output as u64,
                " output slots",
            ),
            RangeCoderError::InvalidInterval => plain("range decoder reached an invalid interval"),
            RangeCoderError::OverflowCodeTooLong(widths) => with_number(
                "range overflow code requests ",
                widths as u64,
                " sections",
            ),
            RangeCoderError::TooManyCdfs(value) => with_number(
                "model requests ",
                value as u64,
                " CDF tables",
            ),
            RangeCoderError::ModelDataTooShort { needed, available } => with_two_numbers(
                "range-coder model needs ",
                needed as u64,
                " bytes, only ",
                available as u64,
                " available",
            ),
            RangeCoderError::IntegerOverflow => plain("range decoder integer overflow"),
        }
    }
}

/// The tables as sequences.
pub open spec fn tables(cdfs: Seq<Vec<u32>>) -> Seq<Seq<u32>> {
    Seq::new(cdfs.len(), |i: int| cdfs[i]@)
}

/// The first position from `from` on whose value is not above the one before it.
pub open spec fn first_flat(cdf: Seq<u32>, from: int) -> Option<int>
    decreases cdf.len() - from,
{
    if from >= cdf.len() {
        None
    } else if cdf[from - 1] >= cdf[from] {
        Some(from)
    } else {
        first_flat(cdf, from + 1)
    }
}

/// What is wrong with a table, if anything.
pub open spec fn cdf_error(cdf: Seq<u32>, index: int, precision: nat) -> Option<RangeCoderError> {
    if cdf.len() < 3 {
        Some(
            RangeCoderError::InvalidCdfLength { index: index as usize, length: cdf.len() as usize },
        )
    } else if cdf[0] != 0 {
        Some(RangeCoderError::InvalidCdfStart { index: index as usize, value: cdf[0] })
    } else if cdf.last() != span(precision) {
        Some(
            RangeCoderError::InvalidCdfEnd {
                index: index as usize,
                expected: span(precision) as u32,
                actual: cdf.last(),
            },
        )
    } else {
        match first_flat(cdf, 1) {
            None => None,
            Some(position) => Some(
                RangeCoderError::NonIncreasingCdf {
                    index: index as usize,
                    position: position as usize,
                },
            ),
        }
    }
}

/// What is wrong with the tables from `from` on, if anything.
pub open spec fn cdfs_error(cdfs: Seq<Seq<u32>>, precision: nat, from: int) -> Option<
    RangeCoderError,
>
    decreases cdfs.len() - from,
{
    if from >= cdfs.len() {
        None
    } else {
        match cdf_error(cdfs[from], from, precision) {
            Some(error) => Some(error),
            None => cdfs_error(cdfs, precision, from + 1),
        }
    }
}

/// What is wrong with a set of distributions, if anything.
pub open spec fn config_error(
    cdfs: Seq<Seq<u32>>,
    offsets: Seq<i16>,
    precision: u8,
    overflow_width: u8,
) -> Option<RangeCoderError> {
    if cdfs.len() != offsets.len() {
        Some(
            RangeCoderError::ConfigLengthMismatch {
                cdfs: cdfs.len() as usize,
                offsets: offsets.len() as usize,
            },
        )
    } else if !(1 <= precision <= 16) {
        Some(RangeCoderError::InvalidPrecision(precision))
    } else if !(1 <= overflow_width <= 16) {
        Some(RangeCoderError::InvalidOverflowWidth(overflow_width))
    } else {
        cdfs_error(cdfs, precision as nat, 0)
    }
}

/// A table rises strictly from zero to two to the precision.
pub open spec fn cdf_ok(cdf: Seq<u32>, precision: nat) -> bool {
    &&& cdf.len() >= 3
    &&& cdf[0] == 0
    &&& cdf.last() == span(precision)
    &&& forall|i: int, j: int| 0 <= i < j < cdf.len() ==> cdf[i] < cdf[j]
}

proof fn lemma_no_flat(cdf: Seq<u32>, from: int, i: int, j: int)
    requires
        1 <= from <= cdf.len(),
        first_flat(cdf, from) is None,
        from - 1 <= i < j < cdf.len(),
    ensures
        cdf[i] < cdf[j],
    decreases cdf.len() - from,
{
    if from < cdf.len() {
        if i == from - 1 {
            if j > from {
                lemma_no_flat(cdf, from + 1, from, j);
            }
        } else {
            lemma_no_flat(cdf, from + 1, i, j);
        }
    }
}

proof fn lemma_cdf_ok(cdf: Seq<u32>, index: int, precision: nat)
    requires
        cdf_error(cdf, index, precision) is None,
    ensures
        cdf_ok(cdf, precision),
{
    assert forall|i: int, j: int| 0 <= i < j < cdf.len() implies cdf[i] < cdf[j] by {
        lemma_no_flat(cdf, 1, i, j);
    }
}

/// Two to the `width`.
fn power_of_two(width: u8) -> (power: u64)
    requires
        width <= 32,
    ensures
        power == span(width as nat),
        1 <= power <= 0x1_0000_0000,
        width <= 16 ==> power <= 0x1_0000,
{
    let mut power: u64 = 1;
    let mut done: u8 = 0;
    proof {
        lemma_span_values();
    }
    while done < width
        invariant
            done <= width <= 32,
            power == span(done as nat),
            power <= span(32) == 0x1_0000_0000,
        decreases width - done,
    {
        proof {
            lemma_span_monotone(done as nat + 1, 32);
        }
        power = power * 2;
        done = done + 1;
    }
    proof {
        lemma_span_monotone(0, width as nat);
        if width <= 16 {
            lemma_span_monotone(width as nat, 16);
        }
    }
    power
}

/// Find the first position whose value is not above the one before it.
fn find_flat(cdf: &[u32]) -> (position: Option<usize>)
    requires
        cdf@.len() >= 1,
    ensures
        match first_flat(cdf@, 1) {
            None => position is None,
            Some(found) => position == Some(found as usize),
        },
{
    let mut position: usize = 1;
    while position < cdf.len()
        invariant
            1 <= position <= cdf@.len(),
            first_flat(cdf@, 1) == first_flat(cdf@, position as int),
        decreases cdf@.len() - position,
    {
        if cdf[position - 1] >= cdf[position] {
            return Some(position);
        }
        position = position + 1;
    }
    None
}

/// Check one table.
fn check_cdf(cdf: &[u32], index: usize, precision: u8) -> (result: Result<(), RangeCoderError>)
    requires
        1 <= precision <= 16,
    ensures
        match cdf_error(cdf@, index as int, precision as nat) {
            None => result is Ok && cdf_ok(cdf@, precision as nat),
            Some(error) => result == Err::<(), RangeCoderError>(error),
        },
{
    let expected: u32 = power_of_two(precision) as u32;
    let length: usize = cdf.len();
    if length < 3 {
        return Err(RangeCoderError::InvalidCdfLength { index, length });
    }
    if cdf[0] != 0 {
        return Err(RangeCoderError::InvalidCdfStart { index, value: cdf[0] });
    }
    let actual: u32 = cdf[length - 1];
    if actual != expected {
        return Err(RangeCoderError::InvalidCdfEnd { index, expected, actual });
    }
    if let Some(position) = find_flat(cdf) {
        return Err(RangeCoderError::NonIncreasingCdf { index, position });
    }
    proof {
        lemma_cdf_ok(cdf@, index as int, precision as nat);
    }
    Ok(())
}

/// Cumulative distribution tables for the neural entropy coder.
#[derive(Debug, Clone, PartialEq, Eq)]
pub struct RangeCoderConfig {
    cdfs: Vec<Vec<u32>>,
    offsets: Vec<i16>,
    precision: u8,
    overflow_width: u8,
}

/// What the distributions are.
#[verifier::ext_equal]
pub ghost struct RangeModel {
    pub cdfs: Seq<Seq<u32>>,
    pub offsets: Seq<i16>,
    pub precision: nat,
    pub overflow_width: nat,
}

impl RangeModel {
    /// Every table rises strictly from zero to two to the precision, and has an offset.
    pub open spec fn well_formed(&self) -> bool {
        &&& self.cdfs.len() == self.offsets.len()
        &&& 1 <= self.precision <= 16
        &&& 1 <= self.overflow_width <= 16
        &&& forall|i: int|
            0 <= i < self.cdfs.len() ==> cdf_ok(#[trigger] self.cdfs[i], self.precision)
    }
}

/// The little-endian 16-bit number at byte `at`.
pub open spec fn le16(bytes: Seq<u8>, at: int) -> int {
    bytes[at] + 0x100 * bytes[at + 1]
}

/// The little-endian 32-bit number at byte `at`.
pub open spec fn le32(bytes: Seq<u8>, at: int) -> int {
    bytes[at] + 0x100 * bytes[at + 1] + 0x1_0000 * bytes[at + 2] + 0x100_0000 * bytes[at + 3]
}

/// A 16-bit number read as a signed one.
pub open spec fn signed16(value: int) -> int {
    if value < 0x8000 {
        value
    } else {
        value - 0x1_0000
    }
}

/// Read the little-endian 16-bit number at byte `at`.
fn le_u16(bytes: &[u8], at: usize) -> (value: u16)
    requires
        at + 2 <= bytes@.len(),
    ensures
        value == le16(bytes@, at as int),
{
    bytes[at] as u16 + bytes[at + 1] as u16 * 0x100
}

/// Read the little-endian 32-bit number at byte `at`.
fn le_u32(bytes: &[u8], at: usize) -> (value: u32)
    requires
        at + 4 <= bytes@.len(),
    ensures
        value == le32(bytes@, at as int),
{
    bytes[at] as u32 + bytes[at + 1] as u32 * 0x100 + bytes[at + 2] as u32 * 0x1_0000 + bytes[at
        + 3] as u32 * 0x100_0000
}

/// Number of values in the first `count` tables of a model block.
pub open spec fn block_values(bytes: Seq<u8>, count: int) -> int
    decreases count,
{
    if count <= 0 {
        0
    } else {
        block_values(bytes, count - 1) + le16(bytes, 2 * (count - 1))
    }
}

/// Table `index` of a model block with `count` tables: behind the lengths, the offsets and the
/// tables before it.
pub open spec fn block_cdf(bytes: Seq<u8>, count: int, index: int) -> Seq<u32> {
    Seq::new(
        le16(bytes, 2 * index) as nat,
        |j: int| le32(bytes, 4 * count + 4 * block_values(bytes, index) + 4 * j) as u32,
    )
}

/// All tables of a model block.
pub open spec fn block_cdfs(bytes: Seq<u8>, count: int) -> Seq<Seq<u32>> {
    Seq::new(count as nat, |i: int| block_cdf(bytes, count, i))
}

/// The offsets of a model block.
pub open spec fn block_offsets(bytes: Seq<u8>, count: int) -> Seq<i16> {
    Seq::new(count as nat, |i: int| signed16(le16(bytes, 2 * count + 2 * i)) as i16)
}

/// Number of bytes of a model block.
pub open spec fn block_bytes(bytes: Seq<u8>, count: int) -> int {
    4 * count + 4 * block_values(bytes, count)
}

/// Why a model block can not be read, if it can not.
pub open spec fn block_error(bytes: Seq<u8>, count: int) -> Option<RangeCoderError> {
    if count > MAX_MODEL_CDFS {
        Some(RangeCoderError::TooManyCdfs(count as usize))
    } else if bytes.len() < 4 * count {
        Some(
            RangeCoderError::ModelDataTooShort {
                needed: (4 * count) as usize,
                available: bytes.len() as usize,
            },
        )
    } else if block_bytes(bytes, count) > usize::MAX {
        Some(RangeCoderError::IntegerOverflow)
    } else if bytes.len() < block_bytes(bytes, count) {
        Some(
            RangeCoderError::ModelDataTooShort {
                needed: block_bytes(bytes, count) as usize,
                available: bytes.len() as usize,
            },
        )
    } else {
        config_error(block_cdfs(bytes, count), block_offsets(bytes, count), 16, 4)
    }
}

proof fn lemma_block_values(bytes: Seq<u8>, a: int, b: int)
    requires
        0 <= a <= b,
    ensures
        0 <= block_values(bytes, a) <= block_values(bytes, b) <= 65_535 * b,
    decreases b,
{
    if b > 0 {
        if a < b {
            lemma_block_values(bytes, a, b - 1);
        } else {
            lemma_block_values(bytes, a - 1, b - 1);
        }
    }
}

/// Check that `needed` bytes are there.
fn require_model_bytes(input: &[u8], needed: usize) -> (result: Result<(), RangeCoderError>)
    ensures
        result == if input@.len() < needed {
            Err::<(), RangeCoderError>(
                RangeCoderError::ModelDataTooShort { needed, available: input@.len() as usize },
            )
        } else {
            Ok(())
        },
{
    if input.len() < needed {
        return Err(RangeCoderError::ModelDataTooShort { needed, available: input.len() });
    }
    Ok(())
}

/// Read the offsets of a model block.
fn read_block_offsets(input: &[u8], count: usize) -> (offsets: Vec<i16>)
    requires
        count <= 65_535,
        4 * count <= input@.len(),
    ensures
        offsets@ == block_offsets(input@, count as int),
{
    let mut offsets: Vec<i16> = Vec::new();
    let mut index: usize = 0;
    while index < count
        invariant
            index <= count <= 65_535,
            4 * count <= input@.len(),
            offsets@.len() == index,
            forall|i: int|
                0 <= i < index ==> #[trigger] offsets@[i] == block_offsets(
                    input@,
                    count as int,
                )[i],
        decreases count - index,
    {
        let value: u16 = le_u16(input, 2 * count + 2 * index);
        let signed: i16 = if value < 0x8000 {
            value as i16
        } else {
            (value as i32 - 0x1_0000) as i16
        };
        offsets.push(signed);
        index = index + 1;
    }
    assert(offsets@ =~= block_offsets(input@, count as int));
    offsets
}

/// Number of values in the tables of a model block, if a `usize` can say it.
fn count_block_values(input: &[u8], count: usize) -> (values: Option<usize>)
    requires
        count <= 65_535,
        4 * count <= input@.len(),
    ensures
        values == if block_values(input@, count as int) > usize::MAX {
            None::<usize>
        } else {
            Some(block_values(input@, count as int) as usize)
        },
{
    let mut values: usize = 0;
    let mut index: usize = 0;
    while index < count
        invariant
            index <= count <= 65_535,
            4 * count <= input@.len(),
            values == block_values(input@, index as int),
        decreases count - index,
    {
        proof {
            lemma_block_values(input@, index as int + 1, count as int);
        }
        values = match values.checked_add(le_u16(input, 2 * index) as usize) {
            Some(values) => values,
            None => {
                return None;
            },
        };
        index = index + 1;
    }
    Some(values)
}

/// Read the tables of a model block.
fn read_block_cdfs(input: &[u8], count: usize) -> (result: (Vec<Vec<u32>>, usize))
    requires
        count <= 65_535,
        block_bytes(input@, count as int) <= input@.len(),
        4 * count <= input@.len(),
    ensures
        tables(result.0@) == block_cdfs(input@, count as int),
        result.1 == block_bytes(input@, count as int),
{
    let mut cdfs: Vec<Vec<u32>> = Vec::new();
    let mut cursor: usize = 4 * count;
    let mut index: usize = 0;
    assert(input.len() == input@.len());
    while index < count
        invariant
            index <= count <= 65_535,
            4 * count <= input@.len(),
            block_bytes(input@, count as int) <= input@.len() <= usize::MAX,
            cursor == 4 * count + 4 * block_values(input@, index as int),
            cdfs@.len() == index,
            forall|i: int|
                0 <= i < index ==> (#[trigger] cdfs@[i])@ == block_cdf(input@, count as int, i),
        decreases count - index,
    {
        proof {
            lemma_block_values(input@, index as int + 1, count as int);
        }
        let length: usize = le_u16(input, 2 * index) as usize;
        let start: usize = cursor;
        let mut cdf: Vec<u32> = Vec::new();
        let mut done: usize = 0;
        while done < length
            invariant
                done <= length,
                index < count <= 65_535,
                length == le16(input@, 2 * index),
                start == 4 * count + 4 * block_values(input@, index as int),
                cursor == start + 4 * done,
                start + 4 * length <= input@.len() <= usize::MAX,
                cdf@.len() == done,
                forall|j: int|
                    0 <= j < done ==> #[trigger] cdf@[j] == block_cdf(
                        input@,
                        count as int,
                        index as int,
                    )[j],
            decreases length - done,
        {
            cdf.push(le_u32(input, cursor));
            cursor = cursor + 4;
            done = done + 1;
        }
        assert(cdf@ =~= block_cdf(input@, count as int, index as int));
        cdfs.push(cdf);
        index = index + 1;
    }
    assert(tables(cdfs@) =~= block_cdfs(input@, count as int));
    (cdfs, cursor)
}

impl RangeCoderConfig {
    /// What the distributions are.
    pub closed spec fn model(&self) -> RangeModel {
        RangeModel {
            cdfs: tables(self.cdfs@),
            offsets: self.offsets@,
            precision: self.precision as nat,
            overflow_width: self.overflow_width as nat,
        }
    }

    /// The distributions are sound.
    pub open spec fn well_formed(&self) -> bool {
        self.model().well_formed()
    }

    /// Take tables with 16 bits of precision, whose overflow codes come in sections of 4 bits.
    pub fn new(cdfs: Vec<Vec<u32>>, offsets: Vec<i16>) -> (result: Result<Self, RangeCoderError>)
        ensures
            match config_error(tables(cdfs@), offsets@, 16, 4) {
                Some(error) => result == Err::<Self, RangeCoderError>(error),
                None => {
                    &&& result is Ok
                    &&& result->Ok_0.model() == (RangeModel {
                        cdfs: tables(cdfs@),
                        offsets: offsets@,
                        precision: 16,
                        overflow_width: 4,
                    })
                    &&& result->Ok_0.model().well_formed()
                },
            },
    {
        Self::with_parameters(cdfs, offsets, 16, 4)
    }

    /// Take tables with the given precision and width of overflow sections.
    pub fn with_parameters(
        cdfs: Vec<Vec<u32>>,
        offsets: Vec<i16>,
        precision: u8,
        overflow_width: u8,
    ) -> (result: Result<Self, RangeCoderError>)
        ensures
            match config_error(tables(cdfs@), offsets@, precision, overflow_width) {
                Some(error) => result == Err::<Self, RangeCoderError>(error),
                None => {
                    &&& result is Ok
                    &&& result->Ok_0.model() == (RangeModel {
                        cdfs: tables(cdfs@),
                        offsets: offsets@,
                        precision: precision as nat,
                        overflow_width: overflow_width as nat,
                    })
                    &&& result->Ok_0.model().well_formed()
                },
            },
    {
        if cdfs.len() != offsets.len() {
            return Err(
                RangeCoderError::ConfigLengthMismatch {
                    cdfs: cdfs.len(),
                    offsets: offsets.len(),
                },
            );
        }
        if precision < 1 || precision > 16 {
            return Err(RangeCoderError::InvalidPrecision(precision));
        }
        if overflow_width < 1 || overflow_width > 16 {
            return Err(RangeCoderError::InvalidOverflowWidth(overflow_width));
        }
        let ghost model = RangeModel {
            cdfs: tables(cdfs@),
            offsets: offsets@,
            precision: precision as nat,
            overflow_width: overflow_width as nat,
        };
        let mut index: usize = 0;
        while index < cdfs.len()
            invariant
                index <= cdfs@.len(),
                cdfs@.len() == offsets@.len(),
                1 <= precision <= 16,
                1 <= overflow_width <= 16,
                model.cdfs == tables(cdfs@),
                model.precision == precision,
                cdfs_error(model.cdfs, precision as nat, 0) == cdfs_error(
                    model.cdfs,
                    precision as nat,
                    index as int,
                ),
                forall|i: int|
                    0 <= i < index ==> cdf_ok(#[trigger] model.cdfs[i], precision as nat),
            decreases cdfs@.len() - index,
        {
            assert(model.cdfs[index as int] == cdfs@[index as int]@);
            check_cdf(cdfs[index].as_slice(), index, precision)?;
            index = index + 1;
        }
        let config = RangeCoderConfig { cdfs, offsets, precision, overflow_width };
        assert(config.model() == model);
        Ok(config)
    }

    /// Read `num_cdfs` tables from a model block, whose obfuscation has been removed: the lengths
    /// and the offsets of all tables, then the tables. Gives the number of bytes read.
    pub fn from_model_bytes(input: &[u8], num_cdfs: usize) -> (result: Result<
        (Self, usize),
        RangeCoderError,
    >)
        ensures
            match block_error(input@, num_cdfs as int) {
                Some(error) => result == Err::<(Self, usize), RangeCoderError>(error),
                None => {
                    &&& result is Ok
                    &&& (result->Ok_0).0.model() == (RangeModel {
                        cdfs: block_cdfs(input@, num_cdfs as int),
                        offsets: block_offsets(input@, num_cdfs as int),
                        precision: 16,
                        overflow_width: 4,
                    })
                    &&& (result->Ok_0).0.model().well_formed()
                    &&& (result->Ok_0).1 == block_bytes(input@, num_cdfs as int)
                    &&& (result->Ok_0).1 <= input@.len()
                },
            },
    {
        if num_cdfs > MAX_MODEL_CDFS {
            return Err(RangeCoderError::TooManyCdfs(num_cdfs));
        }
        let header_bytes: usize = num_cdfs * 4;
        require_model_bytes(input, header_bytes)?;
        proof {
            lemma_block_values(input@, 0, num_cdfs as int);
        }
        let table_values: usize = match count_block_values(input, num_cdfs) {
            Some(values) => values,
            None => {
                return Err(RangeCoderError::IntegerOverflow);
            },
        };
        let table_bytes: usize = match table_values.checked_mul(4) {
            Some(bytes) => bytes,
            None => {
                return Err(RangeCoderError::IntegerOverflow);
            },
        };
        let total_bytes: usize = match header_bytes.checked_add(table_bytes) {
            Some(bytes) => bytes,
            None => {
                return Err(RangeCoderError::IntegerOverflow);
            },
        };
        require_model_bytes(input, total_bytes)?;
        let offsets = read_block_offsets(input, num_cdfs);
        let (cdfs, cursor): (Vec<Vec<u32>>, usize) = read_block_cdfs(input, num_cdfs);
        let config = Self::new(cdfs, offsets)?;
        Ok((config, cursor))
    }

    /// The tables.
    pub fn cdfs(&self) -> (cdfs: &[Vec<u32>])
        ensures
            tables(cdfs@) == self.model().cdfs,
    {
        self.cdfs.as_slice()
    }

    /// The offset of each table.
    pub fn offsets(&self) -> (offsets: &[i16])
        ensures
            offsets@ == self.model().offsets,
    {
        self.offsets.as_slice()
    }

    /// Bits of precision of the tables.
    pub fn precision(&self) -> (precision: u8)
        ensures
            precision == self.model().precision,
    {
        self.precision
    }

    /// Width of the sections of overflow codes.
    pub fn overflow_width(&self) -> (width: u8)
        ensures
            width == self.model().overflow_width,
    {
        self.overflow_width
    }
}

/// Where a decoder stands: the interval that the next symbol divides has `size` points, of which the
/// code word is number `code`.
#[verifier::ext_equal]
pub ghost struct RangeState {
    /// The first four bytes have been read.
    pub started: bool,
    /// Input bytes used up.
    pub position: int,
    pub size: int,
    pub code: int,
}

impl RangeState {
    /// The code word lies inside the interval, which never gets small.
    pub open spec fn well_formed(&self, input: Seq<u8>) -> bool {
        &&& 0 <= self.position <= input.len()
        &&& 0x1_0000 <= self.size <= 0x1_0000_0000
        &&& 0 <= self.code < self.size
        &&& !self.started ==> self.size == 0x1_0000_0000 && self.code == 0 && self.position == 0
    }
}

/// A decoder that has read nothing yet.
pub open spec fn fresh_state() -> RangeState {
    RangeState { started: false, position: 0, size: 0x1_0000_0000, code: 0 }
}

/// Byte `position` of the input, which zeros follow without end.
pub open spec fn byte_or_zero(input: Seq<u8>, position: int) -> int {
    if 0 <= position < input.len() {
        input[position] as int
    } else {
        0
    }
}

/// The 16-bit number at `position`.
pub open spec fn next16(input: Seq<u8>, position: int) -> int {
    0x100 * byte_or_zero(input, position) + byte_or_zero(input, position + 1)
}

/// The position behind two more bytes, which stops at the end of the input.
pub open spec fn past16(input: Seq<u8>, position: int) -> int {
    if position + 2 <= input.len() {
        position + 2
    } else {
        input.len() as int
    }
}

/// The state once the first four bytes have been read.
pub open spec fn start(input: Seq<u8>, state: RangeState) -> RangeState {
    if state.started {
        state
    } else {
        let second = past16(input, state.position);
        RangeState {
            started: true,
            position: past16(input, second),
            size: 0x1_0000_0000,
            code: 0x1_0000 * next16(input, state.position) + next16(input, second),
        }
    }
}

/// The state inside the points `lower..upper` of the interval. An interval of at most 65536 points
/// is spread out, and two more bytes are read.
pub open spec fn narrow(input: Seq<u8>, state: RangeState, lower: int, upper: int) -> RangeState {
    let size = upper - lower;
    let code = state.code - lower;
    if size <= 0x1_0000 {
        RangeState {
            started: state.started,
            position: past16(input, state.position),
            size: 0x1_0000 * size,
            code: 0x1_0000 * code + next16(input, state.position),
        }
    } else {
        RangeState { started: state.started, position: state.position, size, code }
    }
}

/// The point of an interval of `size` points at the fraction `part` of two to the `precision`.
pub open spec fn bound(part: int, size: int, precision: nat) -> int {
    part * size / (span(precision) as int)
}

/// The last entry, from `from` downwards, that starts at or before the code word.
pub open spec fn symbol_at(cdf: Seq<u32>, size: int, code: int, precision: nat, from: int) -> int
    decreases from,
{
    if from <= 0 || bound(cdf[from] as int, size, precision) <= code {
        from
    } else {
        symbol_at(cdf, size, code, precision, from - 1)
    }
}

/// One symbol of a table, and the state behind it.
pub open spec fn symbol(input: Seq<u8>, state: RangeState, cdf: Seq<u32>, precision: nat) -> (
    int,
    RangeState,
) {
    let begun = start(input, state);
    let found = symbol_at(cdf, begun.size, begun.code, precision, cdf.len() - 2);
    (
        found,
        narrow(
            input,
            begun,
            bound(cdf[found] as int, begun.size, precision),
            bound(cdf[found + 1] as int, begun.size, precision),
        ),
    )
}

/// One number of `width` bits, all equally likely, and the state behind it.
pub open spec fn uniform(input: Seq<u8>, state: RangeState, width: nat) -> (int, RangeState) {
    let begun = start(input, state);
    let found = ((begun.code + 1) * span(width) - 1) / begun.size;
    (
        found,
        narrow(
            input,
            begun,
            bound(found, begun.size, width),
            bound(found + 1, begun.size, width),
        ),
    )
}

/// Most sections that an overflow code may have.
pub open spec fn max_sections(width: nat) -> int {
    (32 + width - 1) / (width as int)
}

/// The number of sections of an overflow code, `count` of which have been announced. A section full
/// of ones says that the count goes on.
pub open spec fn section_count(input: Seq<u8>, state: RangeState, width: nat, count: int) -> (
    Result<int, RangeCoderError>,
    RangeState,
)
    decreases max_sections(width) - count,
{
    let (section, next) = uniform(input, state, width);
    if count + section > max_sections(width) {
        (Err(RangeCoderError::OverflowCodeTooLong((count + section) as u32)), next)
    } else if section != span(width) - 1 || section <= 0 {
        (Ok(count + section), next)
    } else {
        section_count(input, next, width, count + section)
    }
}

/// What the sections `from..count` of an overflow code are worth, least significant first.
pub open spec fn sections(
    input: Seq<u8>,
    state: RangeState,
    width: nat,
    from: int,
    count: int,
) -> (int, RangeState)
    decreases count - from,
{
    if from >= count {
        (0, state)
    } else {
        let (section, next) = uniform(input, state, width);
        let (rest, end) = sections(input, next, width, from + 1, count);
        (section * span((width * from) as nat) + rest, end)
    }
}

/// A value outside of a table whose largest symbol is `largest`: even codes count upwards from it,
/// odd codes downwards from minus one.
pub open spec fn escaped(code: int, largest: int) -> int {
    if code % 2 == 0 {
        code / 2 + largest
    } else {
        -(code / 2) - 1
    }
}

/// The value that symbol `found` of a table stands for, before its offset is added. The largest
/// symbol announces an overflow code.
pub open spec fn table_value(
    input: Seq<u8>,
    state: RangeState,
    model: RangeModel,
    index: int,
) -> (Result<int, RangeCoderError>, RangeState) {
    let cdf = model.cdfs[index];
    let width = model.overflow_width;
    let (found, next) = symbol(input, state, cdf, model.precision);
    if found != cdf.len() - 2 {
        (Ok(found), next)
    } else {
        match section_count(input, next, width, 0) {
            (Err(error), end) => (Err(error), end),
            (Ok(count), behind) => if count * width > 32 {
                (Err(RangeCoderError::OverflowCodeTooLong(count as u32)), behind)
            } else {
                let (code, end) = sections(input, behind, width, 0, count);
                if escaped(code, found) > i32::MAX {
                    (Err(RangeCoderError::IntegerOverflow), end)
                } else {
                    (Ok(escaped(code, found)), end)
                }
            },
        }
    }
}

/// One decoded value, and the state behind it.
pub open spec fn value_of(
    input: Seq<u8>,
    state: RangeState,
    model: RangeModel,
    index: int,
    position: int,
) -> (Result<i32, RangeCoderError>, RangeState) {
    if index >= model.cdfs.len() {
        (
            Err(
                RangeCoderError::CdfIndexOutOfRange {
                    position: position as usize,
                    index: index as usize,
                    available: model.cdfs.len() as usize,
                },
            ),
            state,
        )
    } else {
        match table_value(input, state, model, index) {
            (Err(error), end) => (Err(error), end),
            (Ok(value), end) => if i32::MIN <= value + model.offsets[index] <= i32::MAX {
                (Ok((value + model.offsets[index]) as i32), end)
            } else {
                (Err(RangeCoderError::IntegerOverflow), end)
            },
        }
    }
}

/// The values for the indexes from `from` on, up to the first that fails: the values, the state
/// behind them, and the failure if there is one.
pub open spec fn values_of(
    input: Seq<u8>,
    state: RangeState,
    model: RangeModel,
    indexes: Seq<u16>,
    from: int,
) -> (Seq<i32>, RangeState, Option<RangeCoderError>)
    decreases indexes.len() - from,
{
    if from >= indexes.len() {
        (Seq::empty(), state, None)
    } else {
        match value_of(input, state, model, indexes[from] as int, from) {
            (Err(error), end) => (Seq::empty(), end, Some(error)),
            (Ok(value), next) => {
                let (rest, end, error) = values_of(input, next, model, indexes, from + 1);
                (seq![value] + rest, end, error)
            },
        }
    }
}

/// A part of the interval that holds the code word, in products and in points.
proof fn lemma_bound(part: int, size: int, code: int, precision: nat)
    requires
        0 <= part,
        0 < size,
        0 <= code,
    ensures
        (bound(part, size, precision) <= code) <==> part * size <= (code + 1) * span(precision) - 1,
        0 <= bound(part, size, precision),
        part == 0 ==> bound(part, size, precision) == 0,
        part == span(precision) ==> bound(part, size, precision) == size,
{
    lemma_span_monotone(0, precision);
    let scale = span(precision) as int;
    let product = part * size;
    let whole = product / scale;
    assert(product >= 0) by (nonlinear_arith)
        requires
            0 <= part,
            0 < size,
            product == part * size,
    ;
    vstd::arithmetic::div_mod::lemma_fundamental_div_mod(product, scale);
    vstd::arithmetic::div_mod::lemma_div_pos_is_pos(product, scale);
    let rest = product % scale;
    if whole <= code {
        assert(scale * whole <= scale * code) by (nonlinear_arith)
            requires
                whole <= code,
                0 < scale,
        ;
        assert((code + 1) * scale == scale * code + scale) by (nonlinear_arith);
    } else {
        assert(scale * whole >= (code + 1) * scale) by (nonlinear_arith)
            requires
                whole >= code + 1,
                0 < scale,
        ;
    }
    if part == 0 {
        assert(product == 0);
    }
    if part == scale {
        assert(scale * size / scale == size) by (nonlinear_arith)
            requires
                scale > 0,
        ;
    }
}

proof fn lemma_bound_monotone(low: int, high: int, size: int, precision: nat)
    requires
        0 <= low <= high,
        0 < size,
    ensures
        bound(low, size, precision) <= bound(high, size, precision),
{
    lemma_span_monotone(0, precision);
    assert(low * size <= high * size) by (nonlinear_arith)
        requires
            low <= high,
            0 < size,
    ;
    vstd::arithmetic::div_mod::lemma_div_is_ordered(
        low * size,
        high * size,
        span(precision) as int,
    );
}

/// Narrowing to a part that holds the code word keeps the state sound.
proof fn lemma_narrow(input: Seq<u8>, state: RangeState, lower: int, upper: int)
    requires
        state.well_formed(input),
        state.started,
        0 <= lower <= state.code < upper <= state.size,
    ensures
        narrow(input, state, lower, upper).well_formed(input),
        narrow(input, state, lower, upper).started,
{
}

proof fn lemma_start(input: Seq<u8>, state: RangeState)
    requires
        state.well_formed(input),
    ensures
        start(input, state).well_formed(input),
        start(input, state).started,
{
}

/// The search finds the one entry whose part holds the code word.
proof fn lemma_symbol_at(cdf: Seq<u32>, size: int, code: int, precision: nat, from: int, found: int)
    requires
        cdf_ok(cdf, precision),
        0 < size,
        0 <= code,
        0 <= found <= from < cdf.len(),
        bound(cdf[found] as int, size, precision) <= code,
        found < from ==> bound(cdf[found + 1] as int, size, precision) > code,
    ensures
        symbol_at(cdf, size, code, precision, from) == found,
    decreases from,
{
    if found < from {
        if found + 1 < from {
            assert(cdf[found + 1] < cdf[from]);
            lemma_bound_monotone(cdf[found + 1] as int, cdf[from] as int, size, precision);
        }
        lemma_symbol_at(cdf, size, code, precision, from - 1, found);
    }
}

/// What a number of `width` bits does to the interval.
proof fn lemma_uniform(input: Seq<u8>, state: RangeState, width: nat)
    requires
        state.well_formed(input),
        width <= 16,
    ensures
        0 <= uniform(input, state, width).0 < span(width),
        uniform(input, state, width).1.well_formed(input),
        uniform(input, state, width).1.started,
        ({
            let begun = start(input, state);
            let found = uniform(input, state, width).0;
            0 <= bound(found, begun.size, width) <= begun.code < bound(
                found + 1,
                begun.size,
                width,
            ) <= begun.size
        }),
{
    let begun = start(input, state);
    lemma_start(input, state);
    lemma_span_monotone(0, width);
    let scale = span(width) as int;
    let offset = (begun.code + 1) * scale - 1;
    let size = begun.size;
    let found = offset / size;
    assert(0 <= offset < scale * size) by (nonlinear_arith)
        requires
            offset == (begun.code + 1) * scale - 1,
            0 <= begun.code < size,
            scale > 0,
    ;
    vstd::arithmetic::div_mod::lemma_fundamental_div_mod(offset, size);
    vstd::arithmetic::div_mod::lemma_div_pos_is_pos(offset, size);
    vstd::arithmetic::div_mod::lemma_mod_bound(offset, size);
    assert(found < scale) by (nonlinear_arith)
        requires
            size * found <= offset,
            offset < scale * size,
            size > 0,
    ;
    assert(found * size <= offset < (found + 1) * size) by (nonlinear_arith)
        requires
            offset == size * found + offset % size,
            0 <= offset % size < size,
    ;
    lemma_bound(found, size, begun.code, width);
    lemma_bound(found + 1, size, begun.code, width);
    lemma_bound(scale, size, begun.code, width);
    lemma_bound_monotone(found + 1, scale, size, width);
    lemma_narrow(
        input,
        begun,
        bound(found, size, width),
        bound(found + 1, size, width),
    );
}

/// A range decoder over input whose trailing zeros may have been left out.
#[derive(Debug)]
pub struct RangeDecoder<'a> {
    input: &'a [u8],
    input_position: usize,
    size: u64,
    code: u64,
    initialized: bool,
}

impl<'a> RangeDecoder<'a> {
    /// The input.
    pub closed spec fn source(&self) -> Seq<u8> {
        self.input@
    }

    /// Where the decoder stands.
    pub closed spec fn state(&self) -> RangeState {
        RangeState {
            started: self.initialized,
            position: self.input_position as int,
            size: self.size as int,
            code: self.code as int,
        }
    }

    /// The decoder is sound.
    pub open spec fn well_formed(&self) -> bool {
        self.state().well_formed(self.source())
    }

    /// Start at the first byte.
    pub fn new(input: &'a [u8]) -> (decoder: Self)
        ensures
            decoder.source() == input@,
            decoder.state() == fresh_state(),
            decoder.well_formed(),
    {
        RangeDecoder { input, input_position: 0, size: 0x1_0000_0000, code: 0, initialized: false }
    }

    /// Number of input bytes used up. Trailing zeros that are not there do not count.
    pub fn bytes_consumed(&self) -> (count: usize)
        ensures
            count == self.state().position,
    {
        self.input_position
    }

    /// Decode one value for each index.
    pub fn decode(&mut self, config: &RangeCoderConfig, cdf_indexes: &[u16]) -> (result: Result<
        Vec<i32>,
        RangeCoderError,
    >)
        requires
            old(self).well_formed(),
            config.well_formed(),
        ensures
            final(self).well_formed(),
            final(self).source() == old(self).source(),
            ({
                let (values, state, error) = values_of(
                    old(self).source(),
                    old(self).state(),
                    config.model(),
                    cdf_indexes@,
                    0,
                );
                &&& final(self).state() == state
                &&& match error {
                    Some(error) => result == Err::<Vec<i32>, RangeCoderError>(error),
                    None => result is Ok && result->Ok_0@ == values && values.len()
                        == cdf_indexes@.len(),
                }
            }),
    {
        let mut output: Vec<i32> = Vec::new();
        let mut filled: usize = 0;
        while filled < cdf_indexes.len()
            invariant
                filled <= cdf_indexes@.len(),
                output@.len() == filled,
            decreases cdf_indexes@.len() - filled,
        {
            output.push(0);
            filled = filled + 1;
        }
        self.decode_into(config, cdf_indexes, output.as_mut_slice())?;
        Ok(output)
    }

    /// Decode one value for each index into `output`. Where a value fails, the values before it have
    /// been written.
    pub fn decode_into(
        &mut self,
        config: &RangeCoderConfig,
        cdf_indexes: &[u16],
        output: &mut [i32],
    ) -> (result: Result<(), RangeCoderError>)
        requires
            old(self).well_formed(),
            config.well_formed(),
        ensures
            final(self).well_formed(),
            final(self).source() == old(self).source(),
            cdf_indexes@.len() != old(output)@.len() ==> {
                &&& result == Err::<(), RangeCoderError>(
                    RangeCoderError::OutputLengthMismatch {
                        indexes: cdf_indexes@.len() as usize,
                        output: old(output)@.len() as usize,
                    },
                )
                &&& final(self).state() == old(self).state()
                &&& final(output)@ == old(output)@
            },
            cdf_indexes@.len() == old(output)@.len() ==> {
                let (values, state, error) = values_of(
                    old(self).source(),
                    old(self).state(),
                    config.model(),
                    cdf_indexes@,
                    0,
                );
                &&& final(self).state() == state
                &&& final(output)@ == values + old(output)@.subrange(
                    values.len() as int,
                    old(output)@.len() as int,
                )
                &&& match error {
                    Some(error) => result == Err::<(), RangeCoderError>(error),
                    None => result is Ok && values.len() == cdf_indexes@.len(),
                }
            },
    {
        let count: usize = cdf_indexes.len();
        if count != output.len() {
            return Err(
                RangeCoderError::OutputLengthMismatch { indexes: count, output: output.len() },
            );
        }
        let ghost source = self.source();
        let ghost model = config.model();
        let ghost goal = values_of(source, self.state(), model, cdf_indexes@, 0);
        let ghost before = output@;
        let ghost mut done = Seq::<i32>::empty();
        assert(done + goal.0 =~= goal.0);
        assert(before.subrange(0, count as int) =~= before);
        assert(done + before =~= before);
        let mut position: usize = 0;
        while position < count
            invariant
                position <= count,
                count == cdf_indexes@.len() == old(output)@.len(),
                self.well_formed(),
                self.source() == source,
                source == old(self).source(),
                config.well_formed(),
                model == config.model(),
                before == old(output)@,
                goal == values_of(source, old(self).state(), model, cdf_indexes@, 0),
                done.len() == position,
                output@ == done + before.subrange(position as int, count as int),
                ({
                    let rest = values_of(
                        source,
                        self.state(),
                        model,
                        cdf_indexes@,
                        position as int,
                    );
                    &&& goal.0 == done + rest.0
                    &&& goal.1 == rest.1
                    &&& goal.2 == rest.2
                }),
            decreases count - position,
        {
            let ghost here = self.state();
            let outcome = self.decode_value(config, cdf_indexes[position], position);
            proof {
                if outcome is Err {
                    assert(done + Seq::<i32>::empty() =~= done);
                }
            }
            let value: i32 = outcome?;
            output[position] = value;
            proof {
                let rest = values_of(
                    source,
                    self.state(),
                    model,
                    cdf_indexes@,
                    position as int + 1,
                );
                assert(done + (seq![value] + rest.0) =~= done.push(value) + rest.0);
                done = done.push(value);
                assert(output@ =~= done + before.subrange(position as int + 1, count as int));
            }
            position = position + 1;
        }
        assert(done + Seq::<i32>::empty() =~= done);
        Ok(())
    }

    /// Decode one value.
    fn decode_value(&mut self, config: &RangeCoderConfig, raw_index: u16, position: usize) -> (result:
        Result<i32, RangeCoderError>)
        requires
            old(self).well_formed(),
            config.well_formed(),
        ensures
            final(self).well_formed(),
            final(self).source() == old(self).source(),
            (result, final(self).state()) == value_of(
                old(self).source(),
                old(self).state(),
                config.model(),
                raw_index as int,
                position as int,
            ),
    {
        let index: usize = raw_index as usize;
        if index >= config.cdfs.len() {
            return Err(
                RangeCoderError::CdfIndexOutOfRange {
                    position,
                    index,
                    available: config.cdfs.len(),
                },
            );
        }
        let value: i32 = self.decode_table_value(config, index)?;
        match value.checked_add(config.offsets[index] as i32) {
            Some(value) => Ok(value),
            None => Err(RangeCoderError::IntegerOverflow),
        }
    }

    /// Decode one value, without its offset.
    fn decode_table_value(&mut self, config: &RangeCoderConfig, index: usize) -> (result: Result<
        i32,
        RangeCoderError,
    >)
        requires
            old(self).well_formed(),
            config.well_formed(),
            index < config.model().cdfs.len(),
        ensures
            final(self).well_formed(),
            final(self).source() == old(self).source(),
            ({
                let (expected, state) = table_value(
                    old(self).source(),
                    old(self).state(),
                    config.model(),
                    index as int,
                );
                &&& final(self).state() == state
                &&& match expected {
                    Ok(value) => result is Ok && result->Ok_0 == value,
                    Err(error) => result == Err::<i32, RangeCoderError>(error),
                }
            }),
    {
        assert(config.model().cdfs[index as int] == config.cdfs@[index as int]@);
        assert(cdf_ok(config.model().cdfs[index as int], config.model().precision));
        proof {
            lemma_cdf_len(config.model().cdfs[index as int], config.model().precision);
        }
        let largest: u32 = config.cdfs[index].len() as u32 - 2;
        let found: u32 = self.decode_symbol(config.cdfs[index].as_slice(), config.precision);
        if found != largest {
            return Ok(found as i32);
        }
        let width: u8 = config.overflow_width;
        let count: u32 = self.decode_section_count(width)?;
        proof {
            assert(count * width <= 33 * 16) by (nonlinear_arith)
                requires
                    count <= 32,
                    width <= 16,
            ;
        }
        if count * width as u32 > 32 {
            return Err(RangeCoderError::OverflowCodeTooLong(count));
        }
        let code: u32 = self.decode_sections(width, count);
        let half: i32 = (code / 2) as i32;
        if code % 2 == 0 {
            match half.checked_add(largest as i32) {
                Some(value) => Ok(value),
                None => Err(RangeCoderError::IntegerOverflow),
            }
        } else {
            Ok(-half - 1)
        }
    }

    /// Decode the number of sections of an overflow code.
    fn decode_section_count(&mut self, width: u8) -> (result: Result<u32, RangeCoderError>)
        requires
            old(self).well_formed(),
            1 <= width <= 16,
        ensures
            final(self).well_formed(),
            final(self).source() == old(self).source(),
            ({
                let (expected, state) = section_count(
                    old(self).source(),
                    old(self).state(),
                    width as nat,
                    0,
                );
                &&& final(self).state() == state
                &&& match expected {
                    Ok(count) => result is Ok && result->Ok_0 == count && count <= 32,
                    Err(error) => result == Err::<u32, RangeCoderError>(error),
                }
            }),
    {
        let ghost source = self.source();
        let ghost goal = section_count(source, self.state(), width as nat, 0);
        let most: u32 = (32 + width as u32 - 1) / width as u32;
        let full: u32 = power_of_two(width) as u32 - 1;
        proof {
            assert((32 + width - 1) / width as int <= 32) by (nonlinear_arith)
                requires
                    1 <= width,
            ;
            lemma_span_values();
            lemma_span_monotone(1, width as nat);
        }
        let mut count: u32 = 0;
        loop
            invariant
                self.well_formed(),
                self.source() == source,
                source == old(self).source(),
                1 <= width <= 16,
                most == max_sections(width as nat),
                most <= 32,
                full == span(width as nat) - 1,
                1 <= full <= 0xFFFF,
                count <= most,
                goal == section_count(source, old(self).state(), width as nat, 0),
                goal == section_count(source, self.state(), width as nat, count as int),
            decreases most - count,
        {
            let section: u32 = self.decode_uniform_symbol(width);
            count = count + section;
            if count > most {
                return Err(RangeCoderError::OverflowCodeTooLong(count));
            }
            if section != full {
                return Ok(count);
            }
        }
    }

    /// Decode the sections of an overflow code.
    fn decode_sections(&mut self, width: u8, count: u32) -> (code: u32)
        requires
            old(self).well_formed(),
            1 <= width <= 16,
            count <= 32,
            count * width <= 32,
        ensures
            final(self).well_formed(),
            final(self).source() == old(self).source(),
            (code as int, final(self).state()) == sections(
                old(self).source(),
                old(self).state(),
                width as nat,
                0,
                count as int,
            ),
    {
        let ghost source = self.source();
        let ghost goal = sections(source, self.state(), width as nat, 0, count as int);
        let step: u64 = power_of_two(width);
        let mut scale: u64 = 1;
        let mut code: u64 = 0;
        let mut done: u32 = 0;
        proof {
            lemma_span_values();
            assert(width * 0 == 0) by (nonlinear_arith);
        }
        while done < count
            invariant
                self.well_formed(),
                self.source() == source,
                source == old(self).source(),
                1 <= width <= 16,
                done <= count <= 32,
                count * width <= 32,
                step == span(width as nat),
                step <= 0x1_0000,
                scale == span((width * done) as nat),
                scale <= 0x1_0000_0000,
                code < scale,
                ({
                    let (rest, end) = sections(
                        source,
                        self.state(),
                        width as nat,
                        done as int,
                        count as int,
                    );
                    &&& goal.0 == code + rest
                    &&& goal.1 == end
                }),
            decreases count - done,
        {
            let section: u32 = self.decode_uniform_symbol(width);
            proof {
                let next = width * (done + 1);
                assert(next == width * done + width && next <= 32) by (nonlinear_arith)
                    requires
                        next == width * (done + 1),
                        done + 1 <= count,
                        count * width <= 32,
                ;
                lemma_span_sum((width * done) as nat, width as nat);
                lemma_span_monotone(next as nat, 32);
                lemma_span_values();
                assert(section * scale + code < step * scale && section * scale >= 0
                    && section * scale == scale * section) by (nonlinear_arith)
                    requires
                        0 <= section < step,
                        0 <= code < scale,
                ;
                assert(scale * step == step * scale) by (nonlinear_arith);
            }
            code = code + section as u64 * scale;
            scale = scale * step;
            done = done + 1;
        }
        code as u32
    }

    /// Decode one symbol of a table.
    fn decode_symbol(&mut self, cdf: &[u32], precision: u8) -> (found: u32)
        requires
            old(self).well_formed(),
            1 <= precision <= 16,
            cdf_ok(cdf@, precision as nat),
        ensures
            final(self).well_formed(),
            final(self).source() == old(self).source(),
            (found as int, final(self).state()) == symbol(
                old(self).source(),
                old(self).state(),
                cdf@,
                precision as nat,
            ),
            found <= cdf@.len() - 2,
    {
        self.initialize();
        let scale: u64 = power_of_two(precision);
        let size: u64 = self.size;
        let code: u64 = self.code;
        let ghost p = precision as nat;
        proof {
            lemma_cdf_len(cdf@, p);
            assert((code + 1) * scale <= 0x1_0000_0000 * 0x1_0000 && (code + 1) * scale >= 1)
                by (nonlinear_arith)
                requires
                    0 <= code < 0x1_0000_0000,
                    1 <= scale <= 0x1_0000,
            ;
        }
        let offset: u64 = (code + 1) * scale - 1;
        let mut low: usize = 0;
        let mut high: usize = cdf.len() - 1;
        proof {
            lemma_bound(0, size as int, code as int, p);
            lemma_bound(span(p) as int, size as int, code as int, p);
        }
        while low + 1 < high
            invariant
                low < high < cdf@.len(),
                cdf@.len() <= 0x1_0001,
                cdf_ok(cdf@, p),
                1 <= precision <= 16,
                p == precision,
                scale == span(p),
                scale <= 0x1_0000,
                0 < size <= 0x1_0000_0000,
                code < size,
                offset == (code + 1) * span(p) - 1,
                bound(cdf@[low as int] as int, size as int, p) <= code,
                bound(cdf@[high as int] as int, size as int, p) > code,
            decreases high - low,
        {
            let middle: usize = low + (high - low) / 2;
            assert(cdf@[middle as int] < cdf@[cdf@.len() - 1]);
            proof {
                let part = cdf@[middle as int];
                assert(part * size <= 0x1_0000 * 0x1_0000_0000 && part * size == size * part)
                    by (nonlinear_arith)
                    requires
                        0 <= part <= 0x1_0000,
                        0 <= size <= 0x1_0000_0000,
                ;
                lemma_bound(part as int, size as int, code as int, p);
            }
            if size * cdf[middle] as u64 <= offset {
                low = middle;
            } else {
                high = middle;
            }
        }
        proof {
            lemma_symbol_at(
                cdf@,
                size as int,
                code as int,
                p,
                cdf@.len() - 2,
                low as int,
            );
            if high < cdf@.len() - 1 {
                assert(cdf@[high as int] < cdf@[cdf@.len() - 1]);
            }
            let (a, b) = (cdf@[low as int], cdf@[high as int]);
            lemma_bound(a as int, size as int, code as int, p);
            lemma_bound(b as int, size as int, code as int, p);
            lemma_bound_monotone(b as int, span(p) as int, size as int, p);
            assert(a * size <= 0x1_0000 * 0x1_0000_0000 && a * size == size * a && b * size
                <= 0x1_0000 * 0x1_0000_0000 && b * size == size * b) by (nonlinear_arith)
                requires
                    0 <= a <= 0x1_0000,
                    0 <= b <= 0x1_0000,
                    0 <= size <= 0x1_0000_0000,
            ;
        }
        let lower: u64 = size * cdf[low] as u64 / scale;
        let upper: u64 = size * cdf[high] as u64 / scale;
        self.update_interval(lower, upper);
        low as u32
    }

    /// Decode one number of `precision` bits, all equally likely.
    fn decode_uniform_symbol(&mut self, precision: u8) -> (found: u32)
        requires
            old(self).well_formed(),
            1 <= precision <= 16,
        ensures
            final(self).well_formed(),
            final(self).source() == old(self).source(),
            (found as int, final(self).state()) == uniform(
                old(self).source(),
                old(self).state(),
                precision as nat,
            ),
            found < span(precision as nat),
            found <= 0xFFFF,
    {
        let ghost before = self.state();
        self.initialize();
        let scale: u64 = power_of_two(precision);
        let size: u64 = self.size;
        let code: u64 = self.code;
        proof {
            lemma_uniform(self.source(), before, precision as nat);
            assert((code + 1) * scale <= 0x1_0000_0000 * 0x1_0000 && (code + 1) * scale >= 1)
                by (nonlinear_arith)
                requires
                    0 <= code < 0x1_0000_0000,
                    1 <= scale <= 0x1_0000,
            ;
        }
        let found: u64 = ((code + 1) * scale - 1) / size;
        proof {
            assert(size * found <= 0x1_0000 * 0x1_0000_0000 && size * (found + 1) <= 0x1_0000
                * 0x1_0000_0000 && size * found == found * size && size * (found + 1) == (found
                + 1) * size) by (nonlinear_arith)
                requires
                    0 <= found < 0x1_0000,
                    0 <= size <= 0x1_0000_0000,
            ;
        }
        let lower: u64 = size * found / scale;
        let upper: u64 = size * (found + 1) / scale;
        self.update_interval(lower, upper);
        found as u32
    }

    /// Read the first four bytes, once.
    fn initialize(&mut self)
        requires
            old(self).well_formed(),
        ensures
            final(self).well_formed(),
            final(self).source() == old(self).source(),
            final(self).state() == start(old(self).source(), old(self).state()),
    {
        if !self.initialized {
            let high: u64 = self.read_u16();
            let low: u64 = self.read_u16();
            self.code = 0x1_0000 * high + low;
            self.initialized = true;
        }
    }

    /// Go on with the points `lower..upper` of the interval.
    fn update_interval(&mut self, lower: u64, upper: u64)
        requires
            old(self).well_formed(),
            old(self).state().started,
            lower <= old(self).state().code < upper <= old(self).state().size,
        ensures
            final(self).well_formed(),
            final(self).source() == old(self).source(),
            final(self).state() == narrow(
                old(self).source(),
                old(self).state(),
                lower as int,
                upper as int,
            ),
    {
        let size: u64 = upper - lower;
        let code: u64 = self.code - lower;
        if size <= 0x1_0000 {
            let next: u64 = self.read_u16();
            self.size = 0x1_0000 * size;
            self.code = 0x1_0000 * code + next;
        } else {
            self.size = size;
            self.code = code;
        }
    }

    /// Read two bytes, or zeros behind the end.
    fn read_u16(&mut self) -> (value: u64)
        requires
            old(self).input_position <= old(self).input@.len(),
        ensures
            value == next16(old(self).input@, old(self).input_position as int),
            value <= 0xFFFF,
            final(self).input_position == past16(
                old(self).input@,
                old(self).input_position as int,
            ),
            final(self).input_position <= final(self).input@.len(),
            *final(self) == (RangeDecoder {
                input_position: final(self).input_position,
                ..*old(self)
            }),
    {
        let length: usize = self.input.len();
        let mut value: u64 = 0;
        if self.input_position < length {
            value = 0x100 * self.input[self.input_position] as u64;
            self.input_position = self.input_position + 1;
            if self.input_position < length {
                value = value + self.input[self.input_position] as u64;
                self.input_position = self.input_position + 1;
            }
        }
        value
    }
}

proof fn lemma_span_sum(a: nat, b: nat)
    ensures
        span(a + b) == span(a) * span(b),
    decreases b,
{
    if b == 0 {
        assert(span(a) * 1 == span(a)) by (nonlinear_arith);
    } else {
        lemma_span_sum(a, (b - 1) as nat);
        assert(span(a) * (2 * span((b - 1) as nat)) == 2 * (span(a) * span((b - 1) as nat)))
            by (nonlinear_arith);
    }
}

/// A table has at most one entry for each of its values.
proof fn lemma_cdf_len(cdf: Seq<u32>, precision: nat)
    requires
        cdf_ok(cdf, precision),
        precision <= 16,
    ensures
        cdf.len() <= span(precision) + 1 <= 0x1_0001,
{
    lemma_cdf_floor(cdf, precision, cdf.len() - 1);
    lemma_span_monotone(precision, 16);
    lemma_span_values();
}

proof fn lemma_cdf_floor(cdf: Seq<u32>, precision: nat, index: int)
    requires
        cdf_ok(cdf, precision),
        0 <= index < cdf.len(),
    ensures
        cdf[index] >= index,
    decreases index,
{
    if index > 0 {
        lemma_cdf_floor(cdf, precision, index - 1);
        assert(cdf[index - 1] < cdf[index]);
    }
}

/// Two states that differ at most in how many trailing zeros they have used up.
pub open spec fn same_reading(input: Seq<u8>, short: RangeState, long: RangeState) -> bool {
    &&& short.started == long.started
    &&& short.size == long.size
    &&& short.code == long.code
    &&& short.position == long.position || (short.position == input.len() <= long.position)
}

/// `input` with zeros behind it.
pub open spec fn zero_extended(input: Seq<u8>, zeros: nat) -> Seq<u8> {
    input + Seq::new(zeros, |i: int| 0u8)
}

proof fn lemma_same_uniform(
    input: Seq<u8>,
    zeros: nat,
    short: RangeState,
    long: RangeState,
    width: nat,
)
    requires
        same_reading(input, short, long),
        0 <= short.position <= input.len(),
    ensures
        uniform(input, short, width).0 == uniform(zero_extended(input, zeros), long, width).0,
        same_reading(
            input,
            uniform(input, short, width).1,
            uniform(zero_extended(input, zeros), long, width).1,
        ),
        0 <= uniform(input, short, width).1.position <= input.len(),
{
}

proof fn lemma_same_count(
    input: Seq<u8>,
    zeros: nat,
    short: RangeState,
    long: RangeState,
    width: nat,
    count: int,
)
    requires
        same_reading(input, short, long),
        0 <= short.position <= input.len(),
    ensures
        section_count(input, short, width, count).0 == section_count(
            zero_extended(input, zeros),
            long,
            width,
            count,
        ).0,
        same_reading(
            input,
            section_count(input, short, width, count).1,
            section_count(zero_extended(input, zeros), long, width, count).1,
        ),
        0 <= section_count(input, short, width, count).1.position <= input.len(),
    decreases max_sections(width) - count,
{
    let longer = zero_extended(input, zeros);
    lemma_same_uniform(input, zeros, short, long, width);
    let (section, next) = uniform(input, short, width);
    if count + section <= max_sections(width) && section == span(width) - 1 && section > 0 {
        lemma_same_count(
            input,
            zeros,
            next,
            uniform(longer, long, width).1,
            width,
            count + section,
        );
    }
}

proof fn lemma_same_sections(
    input: Seq<u8>,
    zeros: nat,
    short: RangeState,
    long: RangeState,
    width: nat,
    from: int,
    count: int,
)
    requires
        same_reading(input, short, long),
        0 <= short.position <= input.len(),
    ensures
        sections(input, short, width, from, count).0 == sections(
            zero_extended(input, zeros),
            long,
            width,
            from,
            count,
        ).0,
        same_reading(
            input,
            sections(input, short, width, from, count).1,
            sections(zero_extended(input, zeros), long, width, from, count).1,
        ),
        0 <= sections(input, short, width, from, count).1.position <= input.len(),
    decreases count - from,
{
    if from < count {
        lemma_same_uniform(input, zeros, short, long, width);
        lemma_same_sections(
            input,
            zeros,
            uniform(input, short, width).1,
            uniform(zero_extended(input, zeros), long, width).1,
            width,
            from + 1,
            count,
        );
    }
}

proof fn lemma_same_value(
    input: Seq<u8>,
    zeros: nat,
    short: RangeState,
    long: RangeState,
    model: RangeModel,
    index: int,
    position: int,
)
    requires
        same_reading(input, short, long),
        0 <= short.position <= input.len(),
    ensures
        value_of(input, short, model, index, position).0 == value_of(
            zero_extended(input, zeros),
            long,
            model,
            index,
            position,
        ).0,
        same_reading(
            input,
            value_of(input, short, model, index, position).1,
            value_of(zero_extended(input, zeros), long, model, index, position).1,
        ),
        0 <= value_of(input, short, model, index, position).1.position <= input.len(),
{
    let longer = zero_extended(input, zeros);
    let cdf = model.cdfs[index];
    let (found, next) = symbol(input, short, cdf, model.precision);
    let (_, next_long) = symbol(longer, long, cdf, model.precision);
    assert(same_reading(input, next, next_long));
    lemma_same_count(input, zeros, next, next_long, model.overflow_width, 0);
    let (counted, behind) = section_count(input, next, model.overflow_width, 0);
    let (_, behind_long) = section_count(longer, next_long, model.overflow_width, 0);
    if let Ok(count) = counted {
        lemma_same_sections(
            input,
            zeros,
            behind,
            behind_long,
            model.overflow_width,
            0,
            count,
        );
    }
}

proof fn lemma_same_values(
    input: Seq<u8>,
    zeros: nat,
    short: RangeState,
    long: RangeState,
    model: RangeModel,
    indexes: Seq<u16>,
    from: int,
)
    requires
        same_reading(input, short, long),
        0 <= short.position <= input.len(),
    ensures
        values_of(input, short, model, indexes, from).0 == values_of(
            zero_extended(input, zeros),
            long,
            model,
            indexes,
            from,
        ).0,
        values_of(input, short, model, indexes, from).2 == values_of(
            zero_extended(input, zeros),
            long,
            model,
            indexes,
            from,
        ).2,
        same_reading(
            input,
            values_of(input, short, model, indexes, from).1,
            values_of(zero_extended(input, zeros), long, model, indexes, from).1,
        ),
        0 <= values_of(input, short, model, indexes, from).1.position <= input.len(),
    decreases indexes.len() - from,
{
    if from < indexes.len() {
        let longer = zero_extended(input, zeros);
        let index = indexes[from] as int;
        lemma_same_value(input, zeros, short, long, model, index, from);
        let (value, next) = value_of(input, short, model, index, from);
        if value is Ok {
            lemma_same_values(
                input,
                zeros,
                next,
                value_of(longer, long, model, index, from).1,
                model,
                indexes,
                from + 1,
            );
        }
    }
}

/// One call of a decoder: the tables, and the index of each value.
pub ghost struct DecodeCall {
    pub model: RangeModel,
    pub indexes: Seq<u16>,
}

/// Where a fresh decoder stands behind some calls.
pub open spec fn state_behind(input: Seq<u8>, calls: Seq<DecodeCall>) -> RangeState
    decreases calls.len(),
{
    if calls.len() == 0 {
        fresh_state()
    } else {
        values_of(
            input,
            state_behind(input, calls.drop_last()),
            calls.last().model,
            calls.last().indexes,
            0,
        ).1
    }
}

proof fn lemma_same_states(input: Seq<u8>, zeros: nat, calls: Seq<DecodeCall>)
    ensures
        same_reading(
            input,
            state_behind(input, calls),
            state_behind(zero_extended(input, zeros), calls),
        ),
        0 <= state_behind(input, calls).position <= input.len(),
    decreases calls.len(),
{
    if calls.len() > 0 {
        let before = calls.drop_last();
        lemma_same_states(input, zeros, before);
        lemma_same_values(
            input,
            zeros,
            state_behind(input, before),
            state_behind(zero_extended(input, zeros), before),
            calls.last().model,
            calls.last().indexes,
            0,
        );
    }
}

/// Zeros at the end of the input can be left out. Whatever calls came before, a call decodes the
/// same values and meets the same error. It has used up the same number of bytes, but never more
/// than there are.
pub proof fn trailing_zeros_are_implicit(
    input: Seq<u8>,
    zeros: nat,
    calls: Seq<DecodeCall>,
    model: RangeModel,
    indexes: Seq<u16>,
)
    ensures
        ({
            let longer = zero_extended(input, zeros);
            let (values, end, error) = values_of(
                input,
                state_behind(input, calls),
                model,
                indexes,
                0,
            );
            let (same_values, long_end, same_error) = values_of(
                longer,
                state_behind(longer, calls),
                model,
                indexes,
                0,
            );
            &&& values == same_values
            &&& error == same_error
            &&& end.position == if long_end.position < input.len() {
                long_end.position
            } else {
                input.len() as int
            }
        }),
{
    lemma_same_states(input, zeros, calls);
    lemma_same_values(
        input,
        zeros,
        state_behind(input, calls),
        state_behind(zero_extended(input, zeros), calls),
        model,
        indexes,
        0,
    );
}

/// Different overflow codes stand for different values, and none of them for a value that the table
/// has a symbol of its own for.
pub proof fn escaped_values_are_distinct(first: int, second: int, largest: int)
    requires
        0 <= first,
        0 <= second,
        0 <= largest,
    ensures
        escaped(first, largest) == escaped(second, largest) ==> first == second,
        !(0 <= escaped(first, largest) < largest),
{
}

} // verus!
