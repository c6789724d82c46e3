//! The core side block of one coded channel: transform window, spectral envelope indices and
//! temporal noise shaping.

use crate::bitreader::{bit_at, bit_capacity, bits, lemma_span_values, BitReader};
use crate::error::CodecError;
use vstd::prelude::*;

verus! {

/// Window sequence of the frame.
#[derive(Clone, Copy, Debug, PartialEq, Eq, Structural)]
pub enum TransformType {
    Long,
    Short,
    /// Long window that hands over to short ones.
    CutIn,
    /// Long window that takes over from short ones.
    CutOut,
}

impl TransformType {
    /// The window sequence that a two-bit code selects.
    pub open spec fn of_code(code: int) -> TransformType {
        if code == 0 {
            TransformType::Long
        } else if code == 1 {
            TransformType::Short
        } else if code == 2 {
            TransformType::CutIn
        } else {
            TransformType::CutOut
        }
    }

    /// The window sequence that a two-bit code selects.
    pub fn from_code(code: u8) -> (transform: Self)
        ensures
            transform == Self::of_code(code as int),
    {
        if code == 0 {
            TransformType::Long
        } else if code == 1 {
            TransformType::Short
        } else if code == 2 {
            TransformType::CutIn
        } else {
            TransformType::CutOut
        }
    }
}

/// Number of codebook indices that a high-precision envelope carries.
pub const LSF_INDEX_SLOTS: usize = 7;

/// Width in bits of each envelope index. The low-precision envelope has the first five.
pub const LSF_INDEX_WIDTHS: [u8; 7] = [8, 8, 7, 7, 6, 5, 5];

/// First bit of each envelope index, counted from the first of them.
pub open spec fn lsf_index_start(slot: int) -> int {
    if slot == 0 {
        0
    } else if slot == 1 {
        8
    } else if slot == 2 {
        16
    } else if slot == 3 {
        23
    } else if slot == 4 {
        30
    } else if slot == 5 {
        36
    } else {
        41
    }
}

/// Width in bits of each envelope index.
pub open spec fn lsf_index_width(slot: int) -> nat {
    if slot <= 1 {
        8
    } else if slot <= 3 {
        7
    } else if slot == 4 {
        6
    } else {
        5
    }
}

/// How many envelope indices are transmitted.
pub open spec fn lsf_index_count(low_bitrate_precision: bool) -> int {
    if low_bitrate_precision {
        5
    } else {
        7
    }
}

/// How many bits the envelope indices take together.
pub open spec fn lsf_bits(low_bitrate_precision: bool) -> int {
    if low_bitrate_precision {
        36
    } else {
        46
    }
}

/// The envelope indices written from bit `start` on.
pub open spec fn lsf_indices(bytes: Seq<u8>, start: int, low_bitrate_precision: bool) -> Seq<
    Option<u8>,
> {
    Seq::new(
        7,
        |slot: int|
            if slot < lsf_index_count(low_bitrate_precision) {
                Some(
                    bits(bytes, start + lsf_index_start(slot), lsf_index_width(slot)) as u8,
                )
            } else {
                None
            },
    )
}

/// Codebook indices of the spectral envelope.
#[derive(Clone, Copy, Debug, PartialEq, Eq)]
pub struct FdShapingSideInfo {
    pub low_bitrate_precision: bool,
    pub lsf_vq_indices: [Option<u8>; 7],
    pub next_bit_offset: usize,
}

/// Largest order of a noise shaping filter.
pub const TNS_MAX_ORDER: usize = 8;

/// One codeword of a noise shaping coefficient.
#[derive(Clone, Copy, Debug, PartialEq, Eq, Structural)]
pub struct TnsCode {
    /// The codeword, right aligned.
    pub code: u32,
    /// Its length in bits.
    pub width: u8,
    /// The coefficient index that it stands for.
    pub value: u8,
}

/// The codewords of each coefficient, by its position in the filter.
#[derive(Clone, Debug, PartialEq, Eq)]
pub struct TnsCodebook {
    pub tables: Vec<Vec<TnsCode>>,
}

impl TnsCodebook {
    /// The codewords of the coefficient at `position`; none where there is no table for it.
    pub open spec fn table(&self, position: int) -> Seq<TnsCode> {
        if 0 <= position < self.tables@.len() {
            self.tables@[position]@
        } else {
            Seq::empty()
        }
    }

    /// A codebook without any codeword, with which only disabled filters can be read.
    pub fn empty() -> (codebook: Self)
        ensures
            codebook.tables@.len() == 0,
    {
        TnsCodebook { tables: Vec::new() }
    }
}

/// Whether `entry` is written at bit `position`.
pub open spec fn tns_code_matches(entry: TnsCode, bytes: Seq<u8>, end: int, position: int) -> bool {
    &&& entry.width <= 32
    &&& position + entry.width <= end
    &&& bits(bytes, position, entry.width as nat) == entry.code
}

/// The first entry of `codes`, from `from` on, that is written at bit `position`.
///
/// Where there is none the data is too short if some codeword would reach past its end, and not a
/// codeword at all otherwise.
pub open spec fn tns_code_at(
    codes: Seq<TnsCode>,
    from: int,
    bytes: Seq<u8>,
    end: int,
    position: int,
) -> Result<TnsCode, CodecError>
    decreases codes.len() - from,
{
    if 0 <= from < codes.len() {
        if tns_code_matches(codes[from], bytes, end, position) {
            Ok(codes[from])
        } else {
            tns_code_at(codes, from + 1, bytes, end, position)
        }
    } else if exists|i: int|
        0 <= i < codes.len() && position + (#[trigger] codes[i]).width > end {
        Err(CodecError::Truncated)
    } else {
        Err(CodecError::InvalidData("unknown TNS coefficient codeword"))
    }
}

/// The `order` coefficient indices from position `from` of the filter on, and the bit after them.
pub open spec fn tns_coefficients_at(
    codebook: TnsCodebook,
    from: int,
    order: int,
    bytes: Seq<u8>,
    end: int,
    position: int,
) -> Result<(Seq<u8>, int), CodecError>
    decreases order - from,
{
    if from >= order {
        Ok((Seq::empty(), position))
    } else {
        match tns_code_at(codebook.table(from), 0, bytes, end, position) {
            Err(error) => Err(error),
            Ok(entry) => match tns_coefficients_at(
                codebook,
                from + 1,
                order,
                bytes,
                end,
                position + entry.width,
            ) {
                Err(error) => Err(error),
                Ok((rest, next)) => Ok((seq![entry.value] + rest, next)),
            },
        }
    }
}

/// A noise shaping filter written at bit `position`: its coefficient indices, none where it is
/// switched off, and the bit after it.
pub open spec fn tns_filter_at(
    codebook: TnsCodebook,
    bytes: Seq<u8>,
    end: int,
    position: int,
) -> Result<(Seq<u8>, int), CodecError> {
    if position + 1 > end {
        Err(CodecError::Truncated)
    } else if !bit_at(bytes, position) {
        Ok((Seq::empty(), position + 1))
    } else if position + 4 > end {
        Err(CodecError::Truncated)
    } else {
        tns_coefficients_at(
            codebook,
            0,
            bits(bytes, position + 1, 3) as int + 1,
            bytes,
            end,
            position + 4,
        )
    }
}

/// One noise shaping filter.
#[derive(Clone, Copy, Debug, PartialEq, Eq)]
pub struct TnsFilterSideInfo {
    /// Zero where the filter is switched off.
    pub order: u8,
    /// Index of each coefficient; zero from `order` on.
    pub coefficient_indices: [u8; 8],
}

impl TnsFilterSideInfo {
    /// The filter has exactly the coefficients `indices`.
    pub open spec fn holds(&self, indices: Seq<u8>) -> bool {
        &&& indices.len() <= 8
        &&& self.order == indices.len()
        &&& forall|i: int|
            0 <= i < 8 ==> #[trigger] self.coefficient_indices[i] == if i < indices.len() {
                indices[i]
            } else {
                0u8
            }
    }
}

/// The two noise shaping filters of a channel.
#[derive(Clone, Copy, Debug, PartialEq, Eq)]
pub struct TnsSideInfo {
    pub filters: [TnsFilterSideInfo; 2],
    pub next_bit_offset: usize,
}

/// The core side block of one channel.
#[derive(Clone, Copy, Debug, PartialEq, Eq)]
pub struct CoreSidePrefix {
    pub transform_type: TransformType,
    pub fd_shaping: FdShapingSideInfo,
    pub tns: TnsSideInfo,
    pub next_bit_offset: usize,
}

/// What a core side block says, in terms of the bits it is written in.
pub struct CoreSyntax {
    pub transform: TransformType,
    pub low_bitrate_precision: bool,
    pub lsf: Seq<Option<u8>>,
    pub lsf_end: int,
    pub first_filter: Seq<u8>,
    pub second_filter: Seq<u8>,
    pub end: int,
}

/// The core side block written at bit `start`.
#[verifier::opaque]
pub open spec fn core_syntax_at(
    codebook: TnsCodebook,
    bytes: Seq<u8>,
    end: int,
    start: int,
    low_bitrate_precision: bool,
) -> Result<CoreSyntax, CodecError> {
    let lsf_end = start + 2 + lsf_bits(low_bitrate_precision);
    if lsf_end > end {
        Err(CodecError::Truncated)
    } else {
        match tns_filter_at(codebook, bytes, end, lsf_end) {
            Err(error) => Err(error),
            Ok((first, middle)) => match tns_filter_at(codebook, bytes, end, middle) {
                Err(error) => Err(error),
                Ok((second, next)) => Ok(
                    CoreSyntax {
                        transform: TransformType::of_code(bits(bytes, start, 2) as int),
                        low_bitrate_precision,
                        lsf: lsf_indices(bytes, start + 2, low_bitrate_precision),
                        lsf_end,
                        first_filter: first,
                        second_filter: second,
                        end: next,
                    },
                ),
            },
        }
    }
}

impl CoreSidePrefix {
    /// The block holds exactly what `syntax` says.
    pub open spec fn matches(&self, syntax: CoreSyntax) -> bool {
        &&& self.transform_type == syntax.transform
        &&& self.fd_shaping.low_bitrate_precision == syntax.low_bitrate_precision
        &&& self.fd_shaping.lsf_vq_indices@ == syntax.lsf
        &&& self.fd_shaping.next_bit_offset == syntax.lsf_end
        &&& self.tns.filters[0].holds(syntax.first_filter)
        &&& self.tns.filters[1].holds(syntax.second_filter)
        &&& self.tns.next_bit_offset == syntax.end
        &&& self.next_bit_offset == syntax.end
    }
}

/// Read the codeword of one coefficient.
fn read_tns_code(reader: &mut BitReader<'_>, codes: &Vec<TnsCode>) -> (result: Result<
    u8,
    CodecError,
>)
    requires
        old(reader).well_formed(),
    ensures
        final(reader).same_source(old(reader)),
        match tns_code_at(
            codes@,
            0,
            old(reader).source(),
            old(reader).end(),
            old(reader).cursor(),
        ) {
            Ok(entry) => result == Ok::<u8, CodecError>(entry.value) && final(reader).cursor()
                == old(reader).cursor() + entry.width,
            Err(error) => result == Err::<u8, CodecError>(error),
        },
{
    let ghost position = reader.cursor();
    let ghost bytes = reader.source();
    let ghost end = reader.end();
    let mut short: bool = false;
    let mut index: usize = 0;
    while index < codes.len()
        invariant
            index <= codes@.len(),
            *reader == *old(reader),
            reader.well_formed(),
            position == reader.cursor(),
            bytes == reader.source(),
            end == reader.end(),
            tns_code_at(codes@, 0, bytes, end, position) == tns_code_at(
                codes@,
                index as int,
                bytes,
                end,
                position,
            ),
            short == exists|i: int|
                0 <= i < index && position + (#[trigger] codes@[i]).width > end,
        decreases codes.len() - index,
    {
        let entry: TnsCode = codes[index];
        if entry.width as usize > reader.remaining_bits() {
            short = true;
            assert(position + codes@[index as int].width > end);
        } else if entry.width <= 32 {
            if let Some(value) = reader.peek_bits(entry.width) {
                if value == entry.code {
                    let _skipped = reader.read_bits(entry.width);
                    return Ok(entry.value);
                }
            }
        }
        index = index + 1;
    }
    if short {
        Err(CodecError::Truncated)
    } else {
        Err(CodecError::InvalidData("unknown TNS coefficient codeword"))
    }
}

/// A coefficient list never holds more than the order asks for.
proof fn lemma_tns_coefficients_len(
    codebook: TnsCodebook,
    from: int,
    order: int,
    bytes: Seq<u8>,
    end: int,
    position: int,
)
    requires
        from <= order,
        position <= end,
    ensures
        tns_coefficients_at(codebook, from, order, bytes, end, position) matches Ok((list, next))
            ==> list.len() == order - from && position <= next <= end,
    decreases order - from,
{
    if from < order {
        if let Ok(entry) = tns_code_at(codebook.table(from), 0, bytes, end, position) {
            lemma_tns_code_fits(codebook.table(from), 0, bytes, end, position);
            lemma_tns_coefficients_len(
                codebook,
                from + 1,
                order,
                bytes,
                end,
                position + entry.width,
            );
        }
    }
}

/// A codeword that was found lies inside the data.
proof fn lemma_tns_code_fits(
    codes: Seq<TnsCode>,
    from: int,
    bytes: Seq<u8>,
    end: int,
    position: int,
)
    requires
        0 <= from,
    ensures
        tns_code_at(codes, from, bytes, end, position) matches Ok(entry) ==> position + entry.width
            <= end,
    decreases codes.len() - from,
{
    if from < codes.len() && !tns_code_matches(codes[from], bytes, end, position) {
        lemma_tns_code_fits(codes, from + 1, bytes, end, position);
    }
}

/// A core side block that was read lies inside the data, behind its start.
pub proof fn lemma_core_syntax_bounds(
    codebook: TnsCodebook,
    bytes: Seq<u8>,
    end: int,
    start: int,
    low_bitrate_precision: bool,
)
    ensures
        core_syntax_at(codebook, bytes, end, start, low_bitrate_precision) matches Ok(syntax)
            ==> start < syntax.end <= end && syntax.lsf_end <= syntax.end
            && syntax.first_filter.len() <= 8 && syntax.second_filter.len() <= 8,
{
    reveal(core_syntax_at);
    let lsf_end = start + 2 + lsf_bits(low_bitrate_precision);
    lemma_tns_filter_bounds(codebook, bytes, end, lsf_end);
    if let Ok((_, middle)) = tns_filter_at(codebook, bytes, end, lsf_end) {
        lemma_tns_filter_bounds(codebook, bytes, end, middle);
    }
}

/// A filter that was read lies inside the data and has at most eight coefficients.
proof fn lemma_tns_filter_bounds(codebook: TnsCodebook, bytes: Seq<u8>, end: int, position: int)
    ensures
        tns_filter_at(codebook, bytes, end, position) matches Ok((list, next)) ==> list.len() <= 8
            && position < next <= end,
{
    lemma_span_values();
    crate::bitreader::lemma_bits_bound(bytes, position + 1, 3);
    if position + 4 <= end {
        lemma_tns_coefficients_len(
            codebook,
            0,
            bits(bytes, position + 1, 3) as int + 1,
            bytes,
            end,
            position + 4,
        );
    }
}

/// Read one noise shaping filter.
fn read_tns_filter(reader: &mut BitReader<'_>, codebook: &TnsCodebook) -> (result: Result<
    TnsFilterSideInfo,
    CodecError,
>)
    requires
        old(reader).well_formed(),
    ensures
        final(reader).same_source(old(reader)),
        match tns_filter_at(
            *codebook,
            old(reader).source(),
            old(reader).end(),
            old(reader).cursor(),
        ) {
            Ok((list, next)) => result is Ok && result->Ok_0.holds(list) && final(reader).cursor()
                == next,
            Err(error) => result == Err::<TnsFilterSideInfo, CodecError>(error),
        },
{
    let ghost bytes = reader.source();
    let ghost end = reader.end();
    proof {
        lemma_span_values();
    }
    let mut coefficient_indices: [u8; 8] = [0;8];
    let enabled: bool = reader.read_bit()?;
    if !enabled {
        return Ok(TnsFilterSideInfo { order: 0, coefficient_indices });
    }
    let order: usize = reader.read_bits(3)? as usize + 1;
    let ghost start = reader.cursor();
    let no_codes: Vec<TnsCode> = Vec::new();
    let mut position: usize = 0;
    let ghost mut done = Seq::<u8>::empty();
    while position < order
        invariant
            position <= order <= 8,
            reader.same_source(old(reader)),
            bytes == reader.source(),
            end == reader.end(),
            done.len() == position,
            tns_filter_at(*codebook, bytes, end, old(reader).cursor()) == tns_coefficients_at(
                *codebook,
                0,
                order as int,
                bytes,
                end,
                start,
            ),
            no_codes@.len() == 0,
            forall|i: int|
                0 <= i < 8 ==> #[trigger] coefficient_indices[i] == if i < position {
                    done[i]
                } else {
                    0u8
                },
            match tns_coefficients_at(
                *codebook,
                position as int,
                order as int,
                bytes,
                end,
                reader.cursor(),
            ) {
                Ok((rest, next)) => tns_coefficients_at(
                    *codebook,
                    0,
                    order as int,
                    bytes,
                    end,
                    start,
                ) == Ok::<(Seq<u8>, int), CodecError>((done + rest, next)),
                Err(error) => tns_coefficients_at(*codebook, 0, order as int, bytes, end, start)
                    == Err::<(Seq<u8>, int), CodecError>(error),
            },
        decreases order - position,
    {
        let codes: &Vec<TnsCode> = if position < codebook.tables.len() {
            &codebook.tables[position]
        } else {
            &no_codes
        };
        assert(codes@ =~= codebook.table(position as int));
        let value: u8 = read_tns_code(reader, codes)?;
        coefficient_indices[position] = value;
        proof {
            if let Ok((rest, _)) = tns_coefficients_at(
                *codebook,
                position as int + 1,
                order as int,
                bytes,
                end,
                reader.cursor(),
            ) {
                assert(done + (seq![value] + rest) =~= done.push(value) + rest);
            }
            done = done.push(value);
        }
        position = position + 1;
    }
    assert(done + Seq::<u8>::empty() =~= done);
    Ok(TnsFilterSideInfo { order: order as u8, coefficient_indices })
}

/// Read the core side block of one channel.
pub fn read_core_side_prefix(
    reader: &mut BitReader<'_>,
    low_bitrate_precision: bool,
    codebook: &TnsCodebook,
) -> (result: Result<CoreSidePrefix, CodecError>)
    requires
        old(reader).well_formed(),
    ensures
        final(reader).same_source(old(reader)),
        match core_syntax_at(
            *codebook,
            old(reader).source(),
            old(reader).end(),
            old(reader).cursor(),
            low_bitrate_precision,
        ) {
            Ok(syntax) => result is Ok && result->Ok_0.matches(syntax) && final(reader).cursor()
                == syntax.end,
            Err(error) => result == Err::<CoreSidePrefix, CodecError>(error),
        },
{
    let ghost start = reader.cursor();
    let ghost bytes = reader.source();
    proof {
        lemma_span_values();
        reveal(core_syntax_at);
    }
    let transform_type = TransformType::from_code(reader.read_bits(2)? as u8);
    let mut lsf_vq_indices: [Option<u8>; 7] = [None;7];
    let count: usize = if low_bitrate_precision {
        5
    } else {
        7
    };
    let mut slot: usize = 0;
    while slot < count
        invariant
            slot <= count,
            count == lsf_index_count(low_bitrate_precision),
            reader.same_source(old(reader)),
            bytes == reader.source(),
            reader.cursor() == start + 2 + if slot == count {
                lsf_bits(low_bitrate_precision)
            } else {
                lsf_index_start(slot as int)
            },
            start == old(reader).cursor(),
            forall|i: int|
                0 <= i < 7 ==> #[trigger] lsf_vq_indices[i] == if i < slot {
                    Some(bits(bytes, start + 2 + lsf_index_start(i), lsf_index_width(i)) as u8)
                } else {
                    None::<u8>
                },
        decreases count - slot,
    {
        proof {
            lemma_span_values();
            reveal(core_syntax_at);
        }
        let width: u8 = LSF_INDEX_WIDTHS[slot];
        assert(width == lsf_index_width(slot as int));
        lsf_vq_indices[slot] = Some(reader.read_bits(width)? as u8);
        slot = slot + 1;
    }
    assert(lsf_vq_indices@ =~= lsf_indices(bytes, start + 2, low_bitrate_precision));
    let lsf_end: usize = reader.position_bits();
    let first: TnsFilterSideInfo = read_tns_filter(reader, codebook)?;
    let second: TnsFilterSideInfo = read_tns_filter(reader, codebook)?;
    let next_bit_offset: usize = reader.position_bits();
    Ok(
        CoreSidePrefix {
            transform_type,
            fd_shaping: FdShapingSideInfo {
                low_bitrate_precision,
                lsf_vq_indices,
                next_bit_offset: lsf_end,
            },
            tns: TnsSideInfo { filters: [first, second], next_bit_offset },
            next_bit_offset,
        },
    )
}

/// Parse the core side block that starts at bit `bit_offset` of `bytes`.
pub fn parse_core_side_prefix_at(
    bytes: &[u8],
    bit_offset: usize,
    low_bitrate_precision: bool,
    codebook: &TnsCodebook,
) -> (result: Result<CoreSidePrefix, CodecError>)
    ensures
        match core_syntax_at(
            *codebook,
            bytes@,
            bit_capacity(bytes@),
            bit_offset as int,
            low_bitrate_precision,
        ) {
            Ok(syntax) => result is Ok && result->Ok_0.matches(syntax),
            Err(error) => result == Err::<CoreSidePrefix, CodecError>(error),
        },
{
    proof {
        reveal(core_syntax_at);
    }
    let mut reader = BitReader::with_bit_position(bytes, bit_offset)?;
    read_core_side_prefix(&mut reader, low_bitrate_precision, codebook)
}

} // verus!
