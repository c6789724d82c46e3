//! Most-significant-bit-first reading of a byte string.

use crate::error::CodecError;
use vstd::prelude::*;

verus! {

/// Number of bits in `bytes` that a `usize` bit position can address.
pub open spec fn bit_capacity(bytes: Seq<u8>) -> int {
    if 8 * bytes.len() > usize::MAX {
        usize::MAX as int
    } else {
        8 * bytes.len() as int
    }
}

/// Bit `i` of `bytes`, counted from the most significant bit of the first byte.
pub open spec fn bit_at(bytes: Seq<u8>, i: int) -> bool {
    (bytes[i / 8] >> ((7 - i % 8) as u8)) & 1u8 == 1u8
}

/// The unsigned number written in the `width` bits that start at bit `start`.
pub open spec fn bits(bytes: Seq<u8>, start: int, width: nat) -> nat
    decreases width,
{
    if width == 0 {
        0
    } else {
        2 * bits(bytes, start, (width - 1) as nat) + if bit_at(bytes, start + width - 1) {
            1nat
        } else {
            0nat
        }
    }
}

/// Two raised to `width`.
pub open spec fn span(width: nat) -> nat
    decreases width,
{
    if width == 0 {
        1
    } else {
        2 * span((width - 1) as nat)
    }
}

/// A field of `width` bits is smaller than two to the `width`.
pub proof fn lemma_bits_bound(bytes: Seq<u8>, start: int, width: nat)
    ensures
        bits(bytes, start, width) < span(width),
    decreases width,
{
    if width > 0 {
        lemma_bits_bound(bytes, start, (width - 1) as nat);
    }
}

/// Two to the power of each width that the syntax uses.
pub proof fn lemma_span_values()
    ensures
        span(0) == 1,
        span(1) == 2,
        span(2) == 4,
        span(3) == 8,
        span(4) == 16,
        span(5) == 32,
        span(6) == 64,
        span(7) == 128,
        span(8) == 256,
        span(9) == 512,
        span(10) == 1024,
        span(11) == 2048,
        span(12) == 4096,
        span(16) == 65536,
        span(24) == 0x100_0000,
        span(32) == 0x1_0000_0000,
{
    reveal_with_fuel(span, 33);
}

/// `span` grows with the width.
pub proof fn lemma_span_monotone(a: nat, b: nat)
    requires
        a <= b,
    ensures
        0 < span(a) <= span(b),
    decreases b,
{
    if b > 0 && a < b {
        lemma_span_monotone(a, (b - 1) as nat);
    } else if a > 0 {
        lemma_span_monotone((a - 1) as nat, (b - 1) as nat);
    }
}

/// A cursor over the bits of a byte slice, up to a limit.
pub struct BitReader<'a> {
    bytes: &'a [u8],
    position: usize,
    limit: usize,
}

impl<'a> BitReader<'a> {
    /// The bytes that are read.
    pub closed spec fn source(&self) -> Seq<u8> {
        self.bytes@
    }

    /// The next bit to be read.
    pub closed spec fn cursor(&self) -> int {
        self.position as int
    }

    /// The first bit that can not be read.
    pub closed spec fn end(&self) -> int {
        self.limit as int
    }

    /// The cursor never passes the limit, nor the limit the data.
    pub open spec fn well_formed(&self) -> bool {
        0 <= self.cursor() <= self.end() <= bit_capacity(self.source())
    }

    /// `self` reads the same bits as `other`, from a possibly different position.
    pub open spec fn same_source(&self, other: &BitReader<'a>) -> bool {
        &&& self.well_formed()
        &&& self.source() == other.source()
        &&& self.end() == other.end()
    }

    /// Start at the first bit.
    pub fn new(bytes: &'a [u8]) -> (reader: Self)
        ensures
            reader.well_formed(),
            reader.source() == bytes@,
            reader.end() == bit_capacity(bytes@),
            reader.cursor() == 0,
    {
        let limit: usize = addressable_bits(bytes);
        BitReader { bytes, position: 0, limit }
    }

    /// Start at bit `bit_position`, which may be the end but not lie behind it.
    pub fn with_bit_position(bytes: &'a [u8], bit_position: usize) -> (result: Result<
        Self,
        CodecError,
    >)
        ensures
            bit_position <= bit_capacity(bytes@) <==> result is Ok,
            result is Err ==> result == Err::<Self, CodecError>(CodecError::Truncated),
            result matches Ok(reader) ==> reader.well_formed() && reader.source() == bytes@
                && reader.end() == bit_capacity(bytes@) && reader.cursor() == bit_position,
    {
        let limit: usize = addressable_bits(bytes);
        if bit_position > limit {
            return Err(CodecError::Truncated);
        }
        Ok(BitReader { bytes, position: bit_position, limit })
    }

    /// Start at the first bit and read no more than `bit_len` bits.
    pub fn with_bit_len(bytes: &'a [u8], bit_len: usize) -> (result: Result<Self, CodecError>)
        ensures
            bit_len <= bit_capacity(bytes@) <==> result is Ok,
            result is Err ==> result == Err::<Self, CodecError>(CodecError::Truncated),
            result matches Ok(reader) ==> reader.well_formed() && reader.source() == bytes@
                && reader.end() == bit_len && reader.cursor() == 0,
    {
        let limit: usize = addressable_bits(bytes);
        if bit_len > limit {
            return Err(CodecError::Truncated);
        }
        Ok(BitReader { bytes, position: 0, limit: bit_len })
    }

    /// Pass over bits that are known to be there.
    pub fn skip_bits(&mut self, count: usize)
        requires
            old(self).well_formed(),
            old(self).cursor() + count <= old(self).end(),
        ensures
            final(self).same_source(old(self)),
            final(self).cursor() == old(self).cursor() + count,
    {
        self.position = self.position + count;
    }

    /// The next bit to be read, counted from the start of the data.
    pub fn position_bits(&self) -> (position: usize)
        requires
            self.well_formed(),
        ensures
            position == self.cursor(),
    {
        self.position
    }

    /// How many bits are left.
    pub fn remaining_bits(&self) -> (remaining: usize)
        requires
            self.well_formed(),
        ensures
            remaining == self.end() - self.cursor(),
    {
        self.limit - self.position
    }

    /// Move to the next byte boundary, if the cursor is not on one.
    pub fn align_byte(&mut self)
        requires
            old(self).well_formed(),
            8 * ((old(self).cursor() + 7) / 8) <= old(self).end(),
        ensures
            final(self).same_source(old(self)),
            final(self).cursor() == 8 * ((old(self).cursor() + 7) / 8),
    {
        let rest: usize = self.position % 8;
        if rest != 0 {
            self.position = self.position + (8 - rest);
        }
    }

    /// The next `width` bits as an unsigned number, if there are as many, without reading them.
    pub fn peek_bits(&self, width: u8) -> (result: Option<u32>)
        requires
            self.well_formed(),
            width <= 32,
        ensures
            result is Some <==> self.cursor() + width <= self.end(),
            result matches Some(value) ==> value == bits(
                self.source(),
                self.cursor(),
                width as nat,
            ) && value < span(width as nat),
    {
        if width as usize > self.limit - self.position {
            return None;
        }
        let ghost start = self.position as int;
        let mut value: u32 = 0;
        let mut count: u8 = 0;
        proof {
            lemma_span_values();
        }
        while count < width
            invariant
                count <= width <= 32,
                start == self.position,
                start + width <= self.limit <= bit_capacity(self.bytes@),
                value == bits(self.bytes@, start, count as nat),
            decreases width - count,
        {
            proof {
                lemma_bits_bound(self.bytes@, start, count as nat);
                lemma_span_monotone(count as nat, 31);
                assert(span(31) == 0x8000_0000) by {
                    lemma_span_values();
                    assert(span(32) == 2 * span(31));
                }
            }
            let at: usize = self.position + count as usize;
            let byte: u8 = self.bytes[at / 8];
            let shift: u8 = (7 - at % 8) as u8;
            let bit: u8 = (byte >> shift) & 1u8;
            assert((byte >> shift) & 1u8 == 0u8 || (byte >> shift) & 1u8 == 1u8) by (bit_vector);
            assert(bit_at(self.bytes@, start + count) == (bit == 1u8));
            value = value * 2 + bit as u32;
            count = count + 1;
            assert(bits(self.bytes@, start, count as nat) == value);
        }
        proof {
            lemma_bits_bound(self.bytes@, start, width as nat);
        }
        Some(value)
    }

    /// Read `width` bits as an unsigned number.
    pub fn read_bits(&mut self, width: u8) -> (result: Result<u32, CodecError>)
        requires
            old(self).well_formed(),
            width <= 32,
        ensures
            final(self).same_source(old(self)),
            result is Ok <==> old(self).cursor() + width <= old(self).end(),
            result matches Ok(value) ==> {
                &&& value == bits(old(self).source(), old(self).cursor(), width as nat)
                &&& value < span(width as nat)
                &&& final(self).cursor() == old(self).cursor() + width
            },
            result is Err ==> result == Err::<u32, CodecError>(CodecError::Truncated)
                && final(self).cursor() == old(self).cursor(),
    {
        match self.peek_bits(width) {
            Some(value) => {
                self.position = self.position + width as usize;
                Ok(value)
            },
            None => Err(CodecError::Truncated),
        }
    }

    /// Read one bit.
    pub fn read_bit(&mut self) -> (result: Result<bool, CodecError>)
        requires
            old(self).well_formed(),
        ensures
            final(self).same_source(old(self)),
            result is Ok <==> old(self).cursor() + 1 <= old(self).end(),
            result matches Ok(value) ==> {
                &&& value == bit_at(old(self).source(), old(self).cursor())
                &&& final(self).cursor() == old(self).cursor() + 1
            },
            result is Err ==> result == Err::<bool, CodecError>(CodecError::Truncated)
                && final(self).cursor() == old(self).cursor(),
    {
        let value: u32 = self.read_bits(1)?;
        proof {
            reveal_with_fuel(bits, 2);
        }
        Ok(value == 1)
    }
}

/// Number of bits in `bytes` that a `usize` bit position can address.
pub fn addressable_bits(bytes: &[u8]) -> (count: usize)
    ensures
        count == bit_capacity(bytes@),
{
    match bytes.len().checked_mul(8) {
        Some(count) => count,
        None => usize::MAX,
    }
}

} // verus!
