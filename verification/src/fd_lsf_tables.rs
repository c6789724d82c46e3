//! The layout of the envelope codebooks in one table.

use crate::engine::range_coder::le32;
use crate::fd_lsf::{codeword_count, slot_spec, LsfCodebook, LsfCodebooks};
use vstd::prelude::*;
use vstd::slice::slice_subrange;

verus! {

/// Numbers in the table.
pub const FD_LSF_TABLE_VALUES: usize = 10_992;

/// Bytes of the table.
pub const FD_LSF_TABLE_BYTES: usize = 43_968;

/// Fingerprint of the bytes of the table.
pub const FD_LSF_TABLE_FNV1A: u64 = 0x9ce2_64f0_19b7_5cc4;

/// Where the codebook of slot `slot` starts in the table. The means stand in front of all.
pub open spec fn slot_start(low_precision: bool, slot: int) -> int {
    if low_precision {
        if slot == 0 {
            5_296
        } else if slot == 1 {
            7_600
        } else if slot == 2 {
            9_392
        } else if slot == 3 {
            10_032
        } else if slot == 4 {
            10_544
        } else {
            10_992
        }
    } else {
        if slot == 0 {
            16
        } else if slot == 1 {
            2_320
        } else if slot == 2 {
            4_112
        } else if slot == 3 {
            4_496
        } else if slot == 4 {
            4_880
        } else if slot == 5 {
            5_072
        } else if slot == 6 {
            5_168
        } else {
            5_296
        }
    }
}

/// Read the table from its bytes, which hold each number as little-endian binary32 bits.
pub fn decode_fd_lsf_tables(bytes: &[u8]) -> (result: Option<Vec<u32>>)
    ensures
        result is Some <==> bytes@.len() == FD_LSF_TABLE_BYTES,
        result matches Some(values) ==> {
            &&& values@.len() == FD_LSF_TABLE_VALUES
            &&& forall|i: int|
                0 <= i < values@.len() ==> #[trigger] values@[i] == le32(bytes@, 4 * i)
        },
{
    if bytes.len() != FD_LSF_TABLE_BYTES {
        return None;
    }
    let mut values: Vec<u32> = Vec::new();
    while values.len() < FD_LSF_TABLE_VALUES
        invariant
            bytes@.len() == FD_LSF_TABLE_BYTES,
            values@.len() <= FD_LSF_TABLE_VALUES,
            forall|i: int| 0 <= i < values@.len() ==> #[trigger] values@[i] == le32(bytes@, 4 * i),
        decreases FD_LSF_TABLE_VALUES - values@.len(),
    {
        let at: usize = values.len() * 4;
        let value: u32 = bytes[at] as u32 + 0x100 * bytes[at + 1] as u32 + 0x1_0000 * bytes[at
            + 2] as u32 + 0x100_0000 * bytes[at + 3] as u32;
        values.push(value);
    }
    Some(values)
}

/// One codebook out of the table.
fn codebook<'a>(table: &'a [u32], start: usize, stop: usize) -> (book: LsfCodebook<'a>)
    requires
        start <= stop <= table@.len(),
    ensures
        book.values@ == table@.subrange(start as int, stop as int),
{
    LsfCodebook { values: slice_subrange(table, start, stop) }
}

/// Cut the codebooks out of the table.
pub fn normative_lsf_codebooks<'a>(table: &'a [u32]) -> (books: LsfCodebooks<'a>)
    requires
        table@.len() == FD_LSF_TABLE_VALUES,
    ensures
        forall|low: bool, slot: int|
            0 <= slot < codeword_count(low) ==> #[trigger] books.slot(low, slot) == table@.subrange(
                slot_start(low, slot),
                slot_start(low, slot + 1),
            ),
{
    LsfCodebooks {
        high_stage1: [codebook(table, 16, 2_320), codebook(table, 2_320, 4_112)],
        high_stage2: [
            codebook(table, 4_112, 4_496),
            codebook(table, 4_496, 4_880),
            codebook(table, 4_880, 5_072),
            codebook(table, 5_072, 5_168),
            codebook(table, 5_168, 5_296),
        ],
        low_stage1: [codebook(table, 5_296, 7_600), codebook(table, 7_600, 9_392)],
        low_stage2: [
            codebook(table, 9_392, 10_032),
            codebook(table, 10_032, 10_544),
            codebook(table, 10_544, 10_992),
        ],
    }
}

/// The codebooks fill the table behind the sixteen means without gaps, and each has exactly the
/// room that its codewords take.
pub proof fn codebooks_fill_the_table(low_precision: bool, slot: int)
    requires
        0 <= slot < codeword_count(low_precision),
    ensures
        slot_start(false, 0) == 16,
        slot_start(false, codeword_count(false)) == slot_start(true, 0),
        slot_start(true, codeword_count(true)) == FD_LSF_TABLE_VALUES,
        slot_start(low_precision, slot + 1) - slot_start(low_precision, slot) == slot_spec(
            low_precision,
            slot,
        ).entries * slot_spec(low_precision, slot).dimension,
{
    let spec = slot_spec(low_precision, slot);
    let room = slot_start(low_precision, slot + 1) - slot_start(low_precision, slot);
    assert(spec.entries * spec.dimension == room) by (nonlinear_arith)
        requires
            spec.entries == 256 && spec.dimension == 9 && room == 2_304 || spec.entries == 256
                && spec.dimension == 7 && room == 1_792 || spec.entries == 128 && spec.dimension
                == 3 && room == 384 || spec.entries == 64 && spec.dimension == 3 && room == 192
                || spec.entries == 32 && spec.dimension == 3 && room == 96 || spec.entries == 32
                && spec.dimension == 4 && room == 128 || spec.entries == 128 && spec.dimension
                == 5 && room == 640 || spec.entries == 128 && spec.dimension == 4 && room == 512
                || spec.entries == 64 && spec.dimension == 7 && room == 448,
    ;
}

} // verus!
