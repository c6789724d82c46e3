//! The pieces that metadata blocks are made of: codes, optional codes, lists of codes and chains
//! of blocks.
//!
//! A block of metadata has no error of its own: it is read if all of it is there, and refused as
//! truncated otherwise. So its syntax is given by two functions, what it says and where it ends.

use crate::bitreader::{bits, lemma_bits_bound, lemma_span_monotone, lemma_span_values, BitReader};
use crate::engine::metadata_values::MetadataList;
use crate::error::CodecError;
use vstd::prelude::*;

verus! {

/// The code in `width` bits at bit `at`.
pub open spec fn code(bytes: Seq<u8>, at: int, width: int) -> u8 {
    bits(bytes, at, width as nat) as u8
}

/// A code that is only there if a flag says so.
pub open spec fn option_code(bytes: Seq<u8>, at: int, width: int, present: bool) -> Option<u8> {
    if present {
        Some(code(bytes, at, width))
    } else {
        None
    }
}

/// How many bits an optional field takes.
pub open spec fn option_width(present: bool, width: int) -> int {
    if present {
        width
    } else {
        0
    }
}

/// `count` codes of `width` bits, one behind the other.
pub open spec fn codes(bytes: Seq<u8>, at: int, count: int, width: int) -> Seq<u8> {
    Seq::new(count as nat, |i: int| code(bytes, at + i * width, width))
}

/// A code that is taken to be no larger than `limit`.
pub open spec fn at_most(value: u8, limit: u8) -> u8 {
    if value > limit {
        limit
    } else {
        value
    }
}

/// A block that says `value` and ends at bit `end` was read, or was found to be cut off.
pub open spec fn block_read<T>(
    before: &BitReader<'_>,
    after: &BitReader<'_>,
    result: Result<T, CodecError>,
    value: T,
    end: int,
) -> bool {
    if end <= before.end() {
        result == Ok::<T, CodecError>(value) && after.cursor() == end
    } else {
        result == Err::<T, CodecError>(CodecError::Truncated)
    }
}

/// As `block_read`, for a block whose value is compared by what it says.
pub open spec fn block_viewed<T: View>(
    before: &BitReader<'_>,
    after: &BitReader<'_>,
    result: Result<T, CodecError>,
    value: T::V,
    end: int,
) -> bool {
    if end <= before.end() {
        result is Ok && result->Ok_0@ == value && after.cursor() == end
    } else {
        result == Err::<T, CodecError>(CodecError::Truncated)
    }
}

/// Where block `index` of a chain starts, of which each starts where the one before ends.
pub open spec fn chain_start(step: spec_fn(int) -> int, start: int, index: int) -> int
    decreases index,
{
    if index <= 0 {
        start
    } else {
        step(chain_start(step, start, index - 1))
    }
}

/// No block of a chain starts in front of an earlier one.
pub proof fn lemma_chain_grows(step: spec_fn(int) -> int, start: int, low: int, high: int)
    requires
        forall|at: int| #[trigger] step(at) >= at,
        0 <= low <= high,
    ensures
        start <= chain_start(step, start, low) <= chain_start(step, start, high),
    decreases high,
{
    if low < high {
        lemma_chain_grows(step, start, low, high - 1);
    } else if high > 0 {
        lemma_chain_grows(step, start, low - 1, high - 1);
    }
}

/// A code fits the byte that holds it.
pub proof fn lemma_code(bytes: Seq<u8>, at: int, width: int)
    requires
        0 <= width <= 8,
    ensures
        code(bytes, at, width) == bits(bytes, at, width as nat),
        bits(bytes, at, width as nat) < crate::bitreader::span(width as nat),
{
    lemma_bits_bound(bytes, at, width as nat);
    lemma_span_monotone(width as nat, 8);
    lemma_span_values();
}

/// Read a code.
pub fn read_code(reader: &mut BitReader<'_>, width: u8) -> (result: Result<u8, CodecError>)
    requires
        old(reader).well_formed(),
        width <= 8,
    ensures
        final(reader).same_source(old(reader)),
        block_read(
            old(reader),
            final(reader),
            result,
            code(old(reader).source(), old(reader).cursor(), width as int),
            old(reader).cursor() + width,
        ),
        result matches Ok(value) ==> value < crate::bitreader::span(width as nat),
{
    proof {
        lemma_code(reader.source(), reader.cursor(), width as int);
        lemma_span_monotone(width as nat, 8);
        lemma_span_values();
    }
    let value: u32 = reader.read_bits(width)?;
    Ok(value as u8)
}

/// Read a code if it is there.
pub fn read_option(reader: &mut BitReader<'_>, present: bool, width: u8) -> (result: Result<
    Option<u8>,
    CodecError,
>)
    requires
        old(reader).well_formed(),
        width <= 8,
    ensures
        final(reader).same_source(old(reader)),
        block_read(
            old(reader),
            final(reader),
            result,
            option_code(old(reader).source(), old(reader).cursor(), width as int, present),
            old(reader).cursor() + option_width(present, width as int),
        ),
{
    if present {
        let value: u8 = read_code(reader, width)?;
        Ok(Some(value))
    } else {
        Ok(None)
    }
}

/// Read `count` codes.
pub fn read_codes<const CAPACITY: usize>(
    reader: &mut BitReader<'_>,
    count: usize,
    width: u8,
) -> (result: Result<MetadataList<u8, CAPACITY>, CodecError>)
    requires
        old(reader).well_formed(),
        width <= 8,
        count <= CAPACITY,
    ensures
        final(reader).same_source(old(reader)),
        block_viewed(
            old(reader),
            final(reader),
            result,
            codes(old(reader).source(), old(reader).cursor(), count as int, width as int),
            old(reader).cursor() + count * width,
        ),
{
    let ghost start = reader.cursor();
    let ghost bytes = reader.source();
    let ghost goal = codes(bytes, start, count as int, width as int);
    let mut list: MetadataList<u8, CAPACITY> = MetadataList::new();
    let mut index: usize = 0;
    assert(start + 0 * width == start) by (nonlinear_arith);
    while index < count
        invariant
            index <= count <= CAPACITY,
            width <= 8,
            reader.same_source(old(reader)),
            bytes == old(reader).source(),
            start == old(reader).cursor(),
            goal == codes(bytes, start, count as int, width as int),
            reader.cursor() == start + index * width,
            list@ == goal.take(index as int),
        decreases count - index,
    {
        proof {
            assert((index + 1) * width == index * width + width) by (nonlinear_arith);
            assert((index + 1) * width <= count * width) by (nonlinear_arith)
                requires
                    index < count,
            ;
        }
        let value: u8 = read_code(reader, width)?;
        list.push(value);
        index = index + 1;
        assert(list@ =~= goal.take(index as int));
    }
    assert(goal.take(count as int) =~= goal);
    Ok(list)
}

} // verus!
