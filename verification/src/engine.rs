//! The decoding engine: entropy coding, neural model files, frame streams and side information.

pub mod bwe;
pub mod core_plan;
pub mod core_side;
pub mod decoder;
pub mod header;
pub mod header_laws;
pub mod latent;
pub mod metadata;
pub mod metadata_basic;
pub mod metadata_dynamic;
pub mod metadata_dynamic_laws;
pub mod metadata_laws;
pub mod metadata_static;
pub mod metadata_static_laws;
pub mod metadata_syntax;
pub mod metadata_values;
pub mod metadata_vr;
pub mod metadata_vr_laws;
pub mod mix_backend;
pub mod model;
pub mod model_laws;
pub mod model_reader;
pub mod model_writing_laws;
pub mod mono_backend;
pub mod mono_core;
pub mod neural_qc;
pub mod noise_laws;
pub mod random;
pub mod random_laws;
pub mod range_coder;
pub mod range_coder_laws;
pub mod spectrum;
pub mod stereo_backend;
pub mod stereo_core;
pub mod stereo_side;
pub mod stream;
pub mod stream_laws;
pub mod tns;

use vstd::prelude::*;

verus! {

/// The check register after one more bit: a division by the CCITT polynomial, bit by bit.
pub open spec fn crc_bit(register: u16, bit: u16) -> u16 {
    if register >= 0x8000 {
        ((register << 1) | bit) ^ 0x1021
    } else {
        (register << 1) | bit
    }
}

/// The check register after one more byte, most significant bit first.
pub open spec fn crc_byte(register: u16, byte: u8) -> u16 {
    let b = byte as u16;
    let r7 = crc_bit(register, b >> 7 & 1);
    let r6 = crc_bit(r7, b >> 6 & 1);
    let r5 = crc_bit(r6, b >> 5 & 1);
    let r4 = crc_bit(r5, b >> 4 & 1);
    let r3 = crc_bit(r4, b >> 3 & 1);
    let r2 = crc_bit(r3, b >> 2 & 1);
    let r1 = crc_bit(r2, b >> 1 & 1);
    crc_bit(r1, b & 1)
}

/// The check register after all of `data`, from a register full of ones.
pub open spec fn crc_of(data: Seq<u8>) -> u16
    decreases data.len(),
{
    if data.len() == 0 {
        0xFFFF
    } else {
        crc_byte(crc_of(data.drop_last()), data.last())
    }
}

/// The change that the high byte of the register makes, for one bit of it.
fn fold(value: u16) -> (folded: u16)
    ensures
        folded == crc_bit(value, 0),
{
    assert(value & 0x8000 != 0 <==> value >= 0x8000) by (bit_vector);
    assert((value << 1) | 0 == value << 1) by (bit_vector);
    if value & 0x8000 != 0 {
        (value << 1) ^ 0x1021
    } else {
        value << 1
    }
}

/// The check sum of `data`.
pub fn crc16(data: &[u8]) -> (crc: u16)
    ensures
        crc == crc_of(data@),
{
    let mut crc: u16 = 0xFFFF;
    let mut index: usize = 0;
    assert(data@.subrange(0, 0) =~= Seq::<u8>::empty());
    while index < data.len()
        invariant
            index <= data@.len(),
            crc == crc_of(data@.subrange(0, index as int)),
        decreases data@.len() - index,
    {
        let byte: u8 = data[index];
        let high: u16 = (crc >> 8) << 8;
        let t0: u16 = fold(high);
        let t1: u16 = fold(t0);
        let t2: u16 = fold(t1);
        let t3: u16 = fold(t2);
        let t4: u16 = fold(t3);
        let t5: u16 = fold(t4);
        let t6: u16 = fold(t5);
        let t7: u16 = fold(t6);
        let next: u16 = ((crc << 8) | byte as u16) ^ t7;
        assert(next == crc_byte(crc, byte)) by (bit_vector)
            requires
                high == (crc >> 8) << 8,
                t0 == crc_bit(high, 0),
                t1 == crc_bit(t0, 0),
                t2 == crc_bit(t1, 0),
                t3 == crc_bit(t2, 0),
                t4 == crc_bit(t3, 0),
                t5 == crc_bit(t4, 0),
                t6 == crc_bit(t5, 0),
                t7 == crc_bit(t6, 0),
                next == ((crc << 8) | byte as u16) ^ t7,
        ;
        let ghost longer = data@.subrange(0, index as int + 1);
        assert(longer.drop_last() =~= data@.subrange(0, index as int));
        crc = next;
        index = index + 1;
    }
    assert(data@.subrange(0, data@.len() as int) =~= data@);
    crc
}

proof fn lemma_crc_byte_injective(first: u16, second: u16, byte: u8)
    ensures
        crc_byte(first, byte) == crc_byte(second, byte) ==> first == second,
{
    assert(crc_byte(first, byte) == crc_byte(second, byte) ==> first == second) by (bit_vector);
}

proof fn lemma_crc_byte_tells(register: u16, first: u8, second: u8)
    ensures
        crc_byte(register, first) == crc_byte(register, second) ==> first == second,
{
    assert(crc_byte(register, first) == crc_byte(register, second) ==> first == second)
        by (bit_vector);
}

/// Changing one byte always changes the check sum.
pub proof fn one_changed_byte_changes_the_crc(data: Seq<u8>, index: int, byte: u8)
    requires
        0 <= index < data.len(),
        data[index] != byte,
    ensures
        crc_of(data.update(index, byte)) != crc_of(data),
    decreases data.len(),
{
    let changed = data.update(index, byte);
    if index == data.len() - 1 {
        assert(changed.drop_last() =~= data.drop_last());
        lemma_crc_byte_tells(crc_of(data.drop_last()), data.last(), byte);
    } else {
        assert(changed.drop_last() =~= data.drop_last().update(index, byte));
        one_changed_byte_changes_the_crc(data.drop_last(), index, byte);
        lemma_crc_byte_injective(
            crc_of(changed.drop_last()),
            crc_of(data.drop_last()),
            data.last(),
        );
    }
}

} // verus!
