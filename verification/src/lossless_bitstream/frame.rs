//! The envelope of a lossless frame.

use crate::bitreader::{bit_capacity, bits, lemma_span_values, BitReader};
use crate::config::AudioCodingMethod;
use crate::error::CodecError;
use crate::frame::AatfFrameHeader;
use vstd::prelude::*;

verus! {

/// Width of the frame check.
pub const LOSSLESS_FRAME_ERROR_CHECK_BITS: u8 = 8;

/// The parts of one complete lossless frame.
#[derive(Clone, Copy, Debug, PartialEq, Eq)]
pub struct LosslessAatfEnvelope<'a> {
    /// All bytes of the frame.
    pub frame_bytes: &'a [u8],
    /// What lies between the header and the frame check: the coded block, and ancillary data where
    /// the header announces it.
    pub raw_block_and_ancillary: &'a [u8],
    /// The frame check as transmitted.
    pub frame_crc: u8,
    /// First bit of the frame check.
    pub frame_crc_bit_offset: usize,
}

/// Read the frame check at bit `bit_offset` of `bytes`; gives it and the bit after it.
pub fn decode_lossless_frame_error_check_at(bytes: &[u8], bit_offset: usize) -> (result: Result<
    (u8, usize),
    CodecError,
>)
    ensures
        result == if bit_offset + 8 <= bit_capacity(bytes@) {
            Ok::<(u8, usize), CodecError>(
                (bits(bytes@, bit_offset as int, 8) as u8, (bit_offset + 8) as usize),
            )
        } else {
            Err(CodecError::Truncated)
        },
{
    proof {
        lemma_span_values();
    }
    let mut reader = BitReader::with_bit_position(bytes, bit_offset)?;
    let crc: u8 = reader.read_bits(LOSSLESS_FRAME_ERROR_CHECK_BITS)? as u8;
    Ok((crc, reader.position_bits()))
}

/// Why a packet is not the lossless frame that its header describes, if it is not.
pub open spec fn envelope_error(packet_len: int, header: AatfFrameHeader) -> Option<CodecError> {
    if header.coding_method != AudioCodingMethod::Lossless {
        Some(
            CodecError::InvalidData("lossless AATF envelope requested for non-lossless frame"),
        )
    } else if header.raw_frame_length is None {
        Some(CodecError::InvalidData("lossless AATF frame is missing raw_frame_length"))
    } else if packet_len < header.raw_frame_length->0 {
        Some(CodecError::Truncated)
    } else if packet_len > header.raw_frame_length->0 {
        Some(CodecError::InvalidData("AATF packet length does not match raw_frame_length"))
    } else if packet_len <= header.payload_offset_bytes {
        Some(CodecError::Truncated)
    } else {
        None
    }
}

/// Split a lossless frame into its coded block and the frame check, which is its last byte.
pub fn parse_lossless_aatf_envelope<'a>(packet: &'a [u8], header: &AatfFrameHeader) -> (result:
    Result<LosslessAatfEnvelope<'a>, CodecError>)
    ensures
        match envelope_error(packet@.len() as int, *header) {
            Some(error) => result == Err::<LosslessAatfEnvelope<'a>, CodecError>(error),
            None => {
                &&& result matches Ok(envelope)
                &&& envelope.frame_bytes@ == packet@
                &&& envelope.raw_block_and_ancillary@ == packet@.subrange(
                    header.payload_offset_bytes as int,
                    packet@.len() - 1,
                )
                &&& envelope.frame_crc == packet@[packet@.len() - 1]
                &&& envelope.frame_crc_bit_offset == 8 * (packet@.len() - 1)
            },
        },
{
    if header.coding_method != AudioCodingMethod::Lossless {
        return Err(
            CodecError::InvalidData("lossless AATF envelope requested for non-lossless frame"),
        );
    }
    let declared_len: usize = match header.raw_frame_length {
        Some(length) => length as usize,
        None => {
            return Err(CodecError::InvalidData("lossless AATF frame is missing raw_frame_length"));
        },
    };
    if packet.len() < declared_len {
        return Err(CodecError::Truncated);
    }
    if packet.len() != declared_len {
        return Err(CodecError::InvalidData("AATF packet length does not match raw_frame_length"));
    }
    if declared_len <= header.payload_offset_bytes {
        return Err(CodecError::Truncated);
    }
    let frame_crc_byte_offset: usize = declared_len - 1;
    let frame_crc_bit_offset: usize = frame_crc_byte_offset * 8;
    let (frame_crc, _next_bit_offset) = decode_lossless_frame_error_check_at(
        packet,
        frame_crc_bit_offset,
    )?;
    proof {
        lemma_byte_is_its_bits(packet@, frame_crc_byte_offset as int);
    }
    let frame_bytes: &[u8] = vstd::slice::slice_subrange(packet, 0, declared_len);
    assert(frame_bytes@ =~= packet@);
    Ok(
        LosslessAatfEnvelope {
            frame_bytes,
            raw_block_and_ancillary: vstd::slice::slice_subrange(
                packet,
                header.payload_offset_bytes,
                frame_crc_byte_offset,
            ),
            frame_crc,
            frame_crc_bit_offset,
        },
    )
}

/// The eight bits of a byte, read as a number, are the byte.
pub proof fn lemma_byte_is_its_bits(bytes: Seq<u8>, index: int)
    requires
        0 <= index < bytes.len(),
    ensures
        bits(bytes, 8 * index, 8) == bytes[index],
{
    reveal_with_fuel(bits, 9);
    let byte = bytes[index];
    assert forall|i: int| 0 <= i < 8 implies #[trigger] crate::bitreader::bit_at(
        bytes,
        8 * index + i,
    ) == ((byte >> ((7 - i) as u8)) & 1u8 == 1u8) by {
        assert((8 * index + i) / 8 == index);
        assert((8 * index + i) % 8 == i);
    }
    assert(crate::bitreader::bit_at(bytes, 8 * index + 0) == ((byte >> 7u8) & 1u8 == 1u8));
    assert(crate::bitreader::bit_at(bytes, 8 * index + 1) == ((byte >> 6u8) & 1u8 == 1u8));
    assert(crate::bitreader::bit_at(bytes, 8 * index + 2) == ((byte >> 5u8) & 1u8 == 1u8));
    assert(crate::bitreader::bit_at(bytes, 8 * index + 3) == ((byte >> 4u8) & 1u8 == 1u8));
    assert(crate::bitreader::bit_at(bytes, 8 * index + 4) == ((byte >> 3u8) & 1u8 == 1u8));
    assert(crate::bitreader::bit_at(bytes, 8 * index + 5) == ((byte >> 2u8) & 1u8 == 1u8));
    assert(crate::bitreader::bit_at(bytes, 8 * index + 6) == ((byte >> 1u8) & 1u8 == 1u8));
    assert(crate::bitreader::bit_at(bytes, 8 * index + 7) == ((byte >> 0u8) & 1u8 == 1u8));
    assert(byte == 128 * ((byte >> 7u8) & 1u8) + 64 * ((byte >> 6u8) & 1u8) + 32 * ((byte >> 5u8)
        & 1u8) + 16 * ((byte >> 4u8) & 1u8) + 8 * ((byte >> 3u8) & 1u8) + 4 * ((byte >> 2u8) & 1u8)
        + 2 * ((byte >> 1u8) & 1u8) + ((byte >> 0u8) & 1u8)) by (bit_vector);
    assert(forall|s: u8| #[trigger] ((byte >> s) & 1u8) == 0u8 || (byte >> s) & 1u8 == 1u8)
        by (bit_vector);
}

} // verus!
