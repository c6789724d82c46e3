//! Grouping of short blocks: its syntax, and the way back to temporal block order.

use crate::bitreader::{bit_at, bit_capacity, BitReader};
use crate::core_side::TransformType;
use crate::error::CodecError;
use vstd::prelude::*;

verus! {

/// Short blocks per frame.
pub const SHORT_BLOCKS: usize = 8;

/// Spectral lines per frame.
pub const MDCT_LINES: usize = 1024;

/// Spectral lines per short block.
pub const SHORT_LINES: usize = 128;

/// Grouping of the short blocks of one coded channel.
#[derive(Clone, Copy, Debug, PartialEq, Eq)]
pub struct GroupSideInfo {
    pub num_groups: u8,
    /// For each block, whether it belongs to the second (non-transient) group.
    pub group_indicator: [bool; 8],
    pub next_bit_offset: usize,
}

/// What a grouping block says, in terms of the bits it is written in.
pub struct GroupSyntax {
    pub num_groups: int,
    pub indicator: Seq<bool>,
    pub end: int,
}

/// The grouping block written at bit `start`. Only short windows have one: a bit that says whether
/// there are two groups, and if so one bit per block.
pub open spec fn group_syntax_at(
    bytes: Seq<u8>,
    end: int,
    start: int,
    transform: TransformType,
) -> Result<GroupSyntax, CodecError> {
    if transform != TransformType::Short {
        Ok(GroupSyntax { num_groups: 1, indicator: Seq::new(8, |i: int| false), end: start })
    } else if start + 1 > end {
        Err(CodecError::Truncated)
    } else if !bit_at(bytes, start) {
        Ok(GroupSyntax { num_groups: 1, indicator: Seq::new(8, |i: int| false), end: start + 1 })
    } else if start + 9 > end {
        Err(CodecError::Truncated)
    } else {
        Ok(
            GroupSyntax {
                num_groups: 2,
                indicator: Seq::new(8, |i: int| bit_at(bytes, start + 1 + i)),
                end: start + 9,
            },
        )
    }
}

impl GroupSideInfo {
    /// The side information holds exactly what `syntax` says.
    pub open spec fn matches(&self, syntax: GroupSyntax) -> bool {
        &&& self.num_groups == syntax.num_groups
        &&& self.group_indicator@ == syntax.indicator
        &&& self.next_bit_offset == syntax.end
    }
}

/// Read the grouping block of one channel.
pub fn read_group_bits(reader: &mut BitReader<'_>, transform_type: TransformType) -> (result:
    Result<GroupSideInfo, CodecError>)
    requires
        old(reader).well_formed(),
    ensures
        final(reader).same_source(old(reader)),
        match group_syntax_at(
            old(reader).source(),
            old(reader).end(),
            old(reader).cursor(),
            transform_type,
        ) {
            Ok(syntax) => result is Ok && result->Ok_0.matches(syntax) && final(reader).cursor()
                == syntax.end,
            Err(error) => result == Err::<GroupSideInfo, CodecError>(error),
        },
{
    let mut group_indicator: [bool; 8] = [false;8];
    assert(group_indicator@ =~= Seq::new(8, |i: int| false));
    if transform_type != TransformType::Short {
        return Ok(
            GroupSideInfo {
                num_groups: 1,
                group_indicator,
                next_bit_offset: reader.position_bits(),
            },
        );
    }
    let ghost bytes = reader.source();
    let ghost start = reader.cursor();
    let two: bool = reader.read_bit()?;
    if !two {
        return Ok(
            GroupSideInfo {
                num_groups: 1,
                group_indicator,
                next_bit_offset: reader.position_bits(),
            },
        );
    }
    let mut block: usize = 0;
    while block < 8
        invariant
            block <= 8,
            reader.same_source(old(reader)),
            bytes == reader.source(),
            start == old(reader).cursor(),
            bit_at(bytes, start),
            transform_type == TransformType::Short,
            reader.cursor() == start + 1 + block,
            forall|i: int|
                0 <= i < block ==> #[trigger] group_indicator[i] == bit_at(bytes, start + 1 + i),
        decreases 8 - block,
    {
        group_indicator[block] = reader.read_bit()?;
        block = block + 1;
    }
    assert(group_indicator@ =~= Seq::new(8, |i: int| bit_at(bytes, start + 1 + i)));
    Ok(GroupSideInfo { num_groups: 2, group_indicator, next_bit_offset: reader.position_bits() })
}

/// Parse the grouping block that starts at bit `bit_offset` of `bytes`.
///
/// Long and transition windows carry no grouping bits: they have one group, and any offset is
/// accepted for them.
pub fn parse_group_bits_at(
    bytes: &[u8],
    bit_offset: usize,
    transform_type: TransformType,
) -> (result: Result<GroupSideInfo, CodecError>)
    ensures
        match group_syntax_at(bytes@, bit_capacity(bytes@), bit_offset as int, transform_type) {
            Ok(syntax) => result is Ok && result->Ok_0.matches(syntax),
            Err(error) => result == Err::<GroupSideInfo, CodecError>(error),
        },
{
    if transform_type != TransformType::Short {
        let group_indicator: [bool; 8] = [false;8];
        assert(group_indicator@ =~= Seq::new(8, |i: int| false));
        return Ok(GroupSideInfo { num_groups: 1, group_indicator, next_bit_offset: bit_offset });
    }
    let mut reader = BitReader::with_bit_position(bytes, bit_offset)?;
    read_group_bits(&mut reader, transform_type)
}

/// How many of the first `count` blocks carry the indicator `flag`.
pub open spec fn blocks_before(indicator: Seq<bool>, count: int, flag: bool) -> int
    decreases count,
{
    if count <= 0 {
        0
    } else {
        blocks_before(indicator, count - 1, flag) + if indicator[count - 1] == flag {
            1int
        } else {
            0int
        }
    }
}

/// Where line `line` of block `block` is coded: each group is interleaved on its own, the transient
/// group first.
pub open spec fn grouped_index(indicator: Seq<bool>, block: int, line: int) -> int {
    let flag = indicator[block];
    let width = blocks_before(indicator, 8, flag);
    let start = if flag {
        128 * blocks_before(indicator, 8, false)
    } else {
        0
    };
    start + blocks_before(indicator, block, flag) + width * line
}

/// The coded spectrum `grouped` in ordinary eight-way interleaved order.
pub open spec fn degrouped<T>(grouped: Seq<T>, indicator: Seq<bool>) -> Seq<T> {
    Seq::new(1024, |i: int| grouped[grouped_index(indicator, i % 8, i / 8)])
}

/// Block counts lie between zero and the number of blocks, and the two groups make up all blocks.
pub proof fn lemma_blocks_before(indicator: Seq<bool>, count: int)
    requires
        0 <= count,
    ensures
        0 <= blocks_before(indicator, count, false) <= count,
        0 <= blocks_before(indicator, count, true) <= count,
        blocks_before(indicator, count, false) + blocks_before(indicator, count, true) == count,
    decreases count,
{
    if count > 0 {
        lemma_blocks_before(indicator, count - 1);
    }
}

/// The rank of a block inside its group is smaller than the size of the group, and ranks of blocks
/// of one group differ.
pub proof fn lemma_block_rank(indicator: Seq<bool>, block: int, later: int, flag: bool)
    requires
        0 <= block < later,
        indicator[block] == flag,
    ensures
        0 <= blocks_before(indicator, block, flag) < blocks_before(indicator, later, flag),
    decreases later,
{
    lemma_blocks_before(indicator, block);
    if later > block + 1 {
        lemma_block_rank(indicator, block, later - 1, flag);
    }
}

/// Every coded position lies inside the frame.
pub proof fn lemma_grouped_index_range(indicator: Seq<bool>, block: int, line: int)
    requires
        0 <= block < 8,
        0 <= line < 128,
    ensures
        0 <= grouped_index(indicator, block, line) < 1024,
{
    let flag = indicator[block];
    let width = blocks_before(indicator, 8, flag);
    let rank = blocks_before(indicator, block, flag);
    lemma_blocks_before(indicator, 8);
    lemma_block_rank(indicator, block, 8, flag);
    assert(0 <= width * line && rank + width * line < 128 * width) by (nonlinear_arith)
        requires
            0 <= rank < width,
            0 <= line < 128,
    ;
}

/// No two lines are coded at the same position, so degrouping only reorders the lines.
pub proof fn grouping_never_merges_lines(
    indicator: Seq<bool>,
    block: int,
    line: int,
    other_block: int,
    other_line: int,
)
    requires
        0 <= block < 8,
        0 <= line < 128,
        0 <= other_block < 8,
        0 <= other_line < 128,
        grouped_index(indicator, block, line) == grouped_index(indicator, other_block, other_line),
    ensures
        block == other_block,
        line == other_line,
{
    lemma_blocks_before(indicator, 8);
    let flag = indicator[block];
    let other = indicator[other_block];
    lemma_block_rank(indicator, block, 8, flag);
    lemma_block_rank(indicator, other_block, 8, other);
    let width = blocks_before(indicator, 8, flag);
    let other_width = blocks_before(indicator, 8, other);
    let rank = blocks_before(indicator, block, flag);
    let other_rank = blocks_before(indicator, other_block, other);
    assert(0 <= rank + width * line < 128 * width) by (nonlinear_arith)
        requires
            0 <= rank < width,
            0 <= line < 128,
    ;
    assert(0 <= other_rank + other_width * other_line < 128 * other_width) by (nonlinear_arith)
        requires
            0 <= other_rank < other_width,
            0 <= other_line < 128,
    ;
    assert(flag == other);
    assert(line == other_line) by (nonlinear_arith)
        requires
            0 <= rank < width,
            0 <= other_rank < width,
            rank + width * line == other_rank + width * other_line,
    ;
    if block < other_block {
        lemma_block_rank(indicator, block, other_block, flag);
    } else if other_block < block {
        lemma_block_rank(indicator, other_block, block, flag);
    }
}

/// With a single group the coded order is the ordinary order.
pub proof fn single_group_keeps_every_line<T>(grouped: Seq<T>, indicator: Seq<bool>)
    requires
        grouped.len() == 1024,
        forall|i: int| 0 <= i < 8 ==> !#[trigger] indicator[i],
    ensures
        degrouped(grouped, indicator) == grouped,
{
    assert forall|count: int| 0 <= count <= 8 implies blocks_before(indicator, count, false)
        == count by {
        lemma_all_transient(indicator, count);
    }
    assert forall|i: int| 0 <= i < 1024 implies #[trigger] degrouped(grouped, indicator)[i]
        == grouped[i] by {
        assert(blocks_before(indicator, i % 8, false) == i % 8);
        assert(!indicator[i % 8]);
        let width = blocks_before(indicator, 8, false);
        assert(width == 8);
        assert(width * (i / 8) == 8 * (i / 8));
    }
    assert(degrouped(grouped, indicator) =~= grouped);
}

proof fn lemma_all_transient(indicator: Seq<bool>, count: int)
    requires
        0 <= count <= 8,
        forall|i: int| 0 <= i < 8 ==> !#[trigger] indicator[i],
    ensures
        blocks_before(indicator, count, false) == count,
    decreases count,
{
    if count > 0 {
        lemma_all_transient(indicator, count - 1);
        assert(!indicator[count - 1]);
    }
}

/// Scratch memory for [`inverse_group_spectrum`], kept from frame to frame.
#[derive(Debug)]
pub struct SpectrumDegroupWorkspace<T> {
    reordered: Vec<T>,
}

impl<T> SpectrumDegroupWorkspace<T> {
    /// The lines that the workspace currently holds.
    pub closed spec fn scratch(&self) -> Seq<T> {
        self.reordered@
    }

    /// A workspace without any lines in it.
    pub fn new() -> (workspace: Self)
        ensures
            workspace.scratch() == Seq::<T>::empty(),
    {
        SpectrumDegroupWorkspace { reordered: Vec::new() }
    }
}

/// What stops the degrouping of a spectrum of `lines` lines, if anything does.
pub open spec fn degroup_error(
    transform_type: TransformType,
    group: GroupSideInfo,
    lines: int,
) -> Option<CodecError> {
    let transient = blocks_before(group.group_indicator@, 8, false);
    if transform_type != TransformType::Short {
        None
    } else if lines != 1024 {
        Some(
            CodecError::InvalidData(
                "short-window inverse grouping requires a 1024-line MDCT spectrum",
            ),
        )
    } else if group.num_groups != 1 && group.num_groups != 2 {
        Some(
            CodecError::InvalidData("short-window inverse grouping requires one or two groups"),
        )
    } else if group.num_groups == 1 && transient != 8 {
        Some(
            CodecError::InvalidData(
                "single-group short frame must mark all blocks as the transient group",
            ),
        )
    } else if group.num_groups == 2 && (transient == 0 || transient == 8) {
        Some(
            CodecError::InvalidData(
                "two-group short frame must contain both transient and non-transient blocks",
            ),
        )
    } else {
        None
    }
}

/// Bring a short-window spectrum from coded order into eight-way interleaved order, in place.
///
/// Long and transition windows are already in the order that later stages expect.
pub fn inverse_group_spectrum<T: Copy>(
    transform_type: TransformType,
    group: GroupSideInfo,
    spectrum: &mut [T],
    workspace: &mut SpectrumDegroupWorkspace<T>,
) -> (result: Result<(), CodecError>)
    ensures
        match degroup_error(transform_type, group, old(spectrum)@.len() as int) {
            Some(error) => result == Err::<(), CodecError>(error) && final(spectrum)@ == old(
                spectrum,
            )@,
            None => result is Ok && final(spectrum)@ == if transform_type == TransformType::Short {
                degrouped(old(spectrum)@, group.group_indicator@)
            } else {
                old(spectrum)@
            },
        },
{
    if transform_type != TransformType::Short {
        return Ok(());
    }
    if spectrum.len() != 1024 {
        return Err(
            CodecError::InvalidData(
                "short-window inverse grouping requires a 1024-line MDCT spectrum",
            ),
        );
    }
    if group.num_groups != 1 && group.num_groups != 2 {
        return Err(
            CodecError::InvalidData("short-window inverse grouping requires one or two groups"),
        );
    }
    let ghost indicator = group.group_indicator@;
    // Rank of each block inside its own group.
    let mut ranks: [usize; 8] = [0;8];
    let mut transient_blocks: usize = 0;
    let mut other_blocks: usize = 0;
    let mut block: usize = 0;
    while block < 8
        invariant
            block <= 8,
            indicator == group.group_indicator@,
            transient_blocks == blocks_before(indicator, block as int, false),
            other_blocks == blocks_before(indicator, block as int, true),
            transient_blocks + other_blocks == block,
            forall|i: int|
                0 <= i < block ==> #[trigger] ranks[i] == blocks_before(
                    indicator,
                    i,
                    indicator[i],
                ),
        decreases 8 - block,
    {
        if group.group_indicator[block] {
            ranks[block] = other_blocks;
            other_blocks = other_blocks + 1;
        } else {
            ranks[block] = transient_blocks;
            transient_blocks = transient_blocks + 1;
        }
        block = block + 1;
    }
    if group.num_groups == 1 {
        if other_blocks != 0 {
            return Err(
                CodecError::InvalidData(
                    "single-group short frame must mark all blocks as the transient group",
                ),
            );
        }
    } else if transient_blocks == 0 || other_blocks == 0 {
        return Err(
            CodecError::InvalidData(
                "two-group short frame must contain both transient and non-transient blocks",
            ),
        );
    }
    workspace.reordered.clear();
    let mut index: usize = 0;
    while index < 1024
        invariant
            index <= 1024,
            indicator == group.group_indicator@,
            spectrum@ == old(spectrum)@,
            spectrum@.len() == 1024,
            transient_blocks == blocks_before(indicator, 8, false),
            other_blocks == blocks_before(indicator, 8, true),
            forall|i: int|
                0 <= i < 8 ==> #[trigger] ranks[i] == blocks_before(indicator, i, indicator[i]),
            workspace.reordered@.len() == index,
            forall|i: int|
                0 <= i < index ==> #[trigger] workspace.reordered@[i] == degrouped(
                    spectrum@,
                    indicator,
                )[i],
        decreases 1024 - index,
    {
        let block: usize = index % 8;
        let line: usize = index / 8;
        proof {
            lemma_blocks_before(indicator, 8);
            lemma_block_rank(indicator, block as int, 8, indicator[block as int]);
            lemma_grouped_index_range(indicator, block as int, line as int);
            assert(other_blocks * line <= 8 * 128) by (nonlinear_arith)
                requires
                    other_blocks <= 8,
                    line <= 128,
            ;
            assert(transient_blocks * line <= 8 * 128) by (nonlinear_arith)
                requires
                    transient_blocks <= 8,
                    line <= 128,
            ;
        }
        let rank: usize = ranks[block];
        let source: usize = if group.group_indicator[block] {
            128 * transient_blocks + rank + other_blocks * line
        } else {
            rank + transient_blocks * line
        };
        assert(source == grouped_index(indicator, block as int, line as int));
        workspace.reordered.push(spectrum[source]);
        index = index + 1;
    }
    let ghost target = degrouped(spectrum@, indicator);
    let mut copied: usize = 0;
    while copied < 1024
        invariant
            copied <= 1024,
            spectrum@.len() == 1024,
            workspace.reordered@.len() == 1024,
            target.len() == 1024,
            forall|i: int| 0 <= i < 1024 ==> #[trigger] workspace.reordered@[i] == target[i],
            forall|i: int| 0 <= i < copied ==> #[trigger] spectrum@[i] == target[i],
        decreases 1024 - copied,
    {
        spectrum[copied] = workspace.reordered[copied];
        copied = copied + 1;
    }
    assert(spectrum@ =~= target);
    Ok(())
}

} // verus!
