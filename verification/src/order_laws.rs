//! Orders of spectrum lines and latents, said line by line.

use crate::engine::latent::{channel_pattern, lemma_place_back, unflattened};
use crate::engine::spectrum::{deinterleaved, interleaved};
use crate::fd_lsf::{codeword_of, SubvectorSpec};
use crate::group::{blocks_before, degrouped, lemma_blocks_before};
use vstd::prelude::*;

verus! {

/// The blocks of a group among the first `count`, in order.
pub open spec fn blocks_of(indicator: Seq<bool>, count: int, flag: bool) -> Seq<int>
    decreases count,
{
    if count <= 0 {
        Seq::empty()
    } else if indicator[count - 1] == flag {
        blocks_of(indicator, count - 1, flag).push(count - 1)
    } else {
        blocks_of(indicator, count - 1, flag)
    }
}

/// The lines of some blocks of an interleaved spectrum, interleaved among themselves: the first line
/// of each block, then the second line of each, and so on.
pub open spec fn interleaved_blocks<T>(spectrum: Seq<T>, blocks: Seq<int>) -> Seq<T> {
    Seq::new(
        128 * blocks.len(),
        |k: int| spectrum[8 * (k / blocks.len() as int) + blocks[k % blocks.len() as int]],
    )
}

/// An interleaved spectrum as it is coded: the transient blocks in front of the others.
pub open spec fn as_coded<T>(spectrum: Seq<T>, indicator: Seq<bool>) -> Seq<T> {
    interleaved_blocks(spectrum, blocks_of(indicator, 8, false)) + interleaved_blocks(
        spectrum,
        blocks_of(indicator, 8, true),
    )
}

proof fn lemma_blocks_of(indicator: Seq<bool>, count: int, flag: bool, block: int)
    requires
        0 <= count,
        0 <= block,
    ensures
        blocks_of(indicator, count, flag).len() == blocks_before(indicator, count, flag),
        block < count && indicator[block] == flag ==> 0 <= blocks_before(indicator, block, flag)
            < blocks_of(indicator, count, flag).len() && blocks_of(
            indicator,
            count,
            flag,
        )[blocks_before(indicator, block, flag)] == block,
    decreases count,
{
    if count > 0 {
        lemma_blocks_of(indicator, count - 1, flag, block);
        lemma_blocks_before(indicator, count - 1);
    }
}

/// Degrouping undoes the grouping of an encoder: each line of each block comes back to its place.
pub proof fn degrouping_undoes_grouping<T>(spectrum: Seq<T>, indicator: Seq<bool>)
    requires
        spectrum.len() == 1024,
        indicator.len() == 8,
    ensures
        degrouped(as_coded(spectrum, indicator), indicator) == spectrum,
{
    let coded = as_coded(spectrum, indicator);
    let found = degrouped(coded, indicator);
    assert forall|i: int| 0 <= i < 1024 implies #[trigger] found[i] == spectrum[i] by {
        let block = i % 8;
        let line = i / 8;
        let flag = indicator[block];
        let blocks = blocks_of(indicator, 8, flag);
        let width = blocks.len() as int;
        let rank = blocks_before(indicator, block, flag);
        lemma_blocks_of(indicator, 8, flag, block);
        lemma_blocks_of(indicator, 8, false, block);
        lemma_blocks_of(indicator, 8, true, block);
        let inside = line * width + rank;
        lemma_place_back(width, 128, line, rank);
        assert(width * line == line * width) by (nonlinear_arith);
        let own = interleaved_blocks(spectrum, blocks);
        assert(own[inside] == spectrum[8 * line + block]);
        if flag {
            let first = interleaved_blocks(spectrum, blocks_of(indicator, 8, false));
            assert(coded[first.len() + inside] == own[inside]);
        } else {
            assert(coded[inside] == own[inside]);
        }
    }
    assert(found =~= spectrum);
}

/// Line `line` of block `block` stands at `8 * line + block` where blocks are interleaved, and at
/// `128 * block + line` where they are in order.
pub proof fn lines_keep_their_block<T>(spectrum: Seq<T>, block: int, line: int)
    requires
        spectrum.len() == 1024,
        0 <= block < 8,
        0 <= line < 128,
    ensures
        interleaved(spectrum).len() == 1024,
        interleaved(spectrum)[8 * line + block] == spectrum[128 * block + line],
        deinterleaved(spectrum).len() == 1024,
        deinterleaved(spectrum)[128 * block + line] == spectrum[8 * line + block],
{
}

/// The entropy coder goes through all channels at one position before the next: value `dimension` of
/// channel `channel` is number `dimension * channels + channel`, is coded with the distribution of
/// its channel, and ends up at `channel * dimensions + dimension`.
pub proof fn latents_keep_their_channel<T>(
    coded: Seq<T>,
    dimensions: int,
    channels: int,
    dimension: int,
    channel: int,
)
    requires
        0 <= dimension < dimensions,
        0 <= channel < channels <= u16::MAX,
        coded.len() == dimensions * channels,
    ensures
        unflattened(coded, dimensions, channels).len() == coded.len(),
        unflattened(coded, dimensions, channels)[channel * dimensions + dimension]
            == coded[dimension * channels + channel],
        channel_pattern(dimensions, channels).len() == coded.len(),
        channel_pattern(dimensions, channels)[dimension * channels + channel] == channel,
{
    lemma_place_back(dimensions, channels, channel, dimension);
    lemma_place_back(channels, dimensions, dimension, channel);
    assert(dimensions * channels == channels * dimensions) by (nonlinear_arith);
}

/// A codeword is the stretch of its codebook behind the codewords with smaller indexes, and goes to
/// the frequencies of its codebook.
pub proof fn codewords_stand_one_behind_the_other(
    table: Seq<u32>,
    spec: SubvectorSpec,
    index: u8,
    entry: int,
)
    requires
        0 <= entry < spec.dimension,
    ensures
        codeword_of(table, spec, index) matches Ok(codeword) ==> {
            &&& codeword.start == spec.start
            &&& codeword.values.len() == spec.dimension
            &&& codeword.values[entry] == table[index * spec.dimension + entry]
        },
        codeword_of(table, spec, index) is Ok ==> index < spec.entries && table.len()
            == spec.entries * spec.dimension,
{
    let dimension = spec.dimension as int;
    let entries = spec.entries as int;
    assert(index * dimension + dimension == (index + 1) * dimension && (index < entries ==> (index
        + 1) * dimension <= entries * dimension) && 0 <= index * dimension) by (nonlinear_arith)
        requires
            0 <= index,
            0 <= dimension,
    ;
}

} // verus!
