//! Primitives of the lossless coding method.

pub mod adaptive;
pub mod entropy;
pub mod frame;
pub mod lpc;
pub mod prepost;
pub mod primitives;
pub mod rice_laws;
pub mod stereo;

use crate::bitreader::{bit_at, bit_capacity, bits, lemma_bits_bound, span, BitReader};
use crate::error::CodecError;
use crate::lossless_bitstream::primitives::LOSSLESS_RICE_MAX_PREFIX;
use vstd::prelude::*;

verus! {

/// Numbers of blocks that an arithmetic coded unit can have.
pub const LOSSLESS_ARITHMETIC_BLOCK_COUNTS: [u8; 4] = [1, 2, 4, 8];

/// Lifting wavelet levels that exist.
pub const LOSSLESS_WAVELET_LEVELS: [u8; 2] = [0, 1];

/// Check the number of blocks of an arithmetic coded unit.
pub fn validate_lossless_arithmetic_block_count(block_count: u8) -> (result: Result<
    usize,
    CodecError,
>)
    ensures
        result == if block_count == 1 || block_count == 2 || block_count == 4 || block_count == 8 {
            Ok::<usize, CodecError>(block_count as usize)
        } else {
            Err(CodecError::InvalidData("lossless arithmetic block count must be 1, 2, 4, or 8"))
        },
{
    let mut index: usize = 0;
    while index < 4
        invariant
            index <= 4,
            forall|i: int| 0 <= i < index ==> LOSSLESS_ARITHMETIC_BLOCK_COUNTS[i] != block_count,
        decreases 4 - index,
    {
        if LOSSLESS_ARITHMETIC_BLOCK_COUNTS[index] == block_count {
            return Ok(block_count as usize);
        }
        index = index + 1;
    }
    assert(LOSSLESS_ARITHMETIC_BLOCK_COUNTS[0] == 1);
    assert(LOSSLESS_ARITHMETIC_BLOCK_COUNTS[1] == 2);
    assert(LOSSLESS_ARITHMETIC_BLOCK_COUNTS[2] == 4);
    assert(LOSSLESS_ARITHMETIC_BLOCK_COUNTS[3] == 8);
    Err(CodecError::InvalidData("lossless arithmetic block count must be 1, 2, 4, or 8"))
}

/// Check a lifting wavelet level.
pub fn validate_lossless_wavelet_level(level: u8) -> (result: Result<usize, CodecError>)
    ensures
        result == if level <= 1 {
            Ok::<usize, CodecError>(level as usize)
        } else {
            Err(CodecError::InvalidData("lossless wavelet level must be zero or one"))
        },
{
    if level == LOSSLESS_WAVELET_LEVELS[0] || level == LOSSLESS_WAVELET_LEVELS[1] {
        Ok(level as usize)
    } else {
        Err(CodecError::InvalidData("lossless wavelet level must be zero or one"))
    }
}

/// How many zero bits stand before the first one bit from `start` on, looking at no more than
/// `limit` bits; `limit` where all of those are zero.
pub open spec fn zero_run(bytes: Seq<u8>, start: int, limit: int) -> int
    decreases limit,
{
    if limit <= 0 || bit_at(bytes, start) {
        0
    } else {
        1 + zero_run(bytes, start + 1, limit - 1)
    }
}

/// The Rice codeword with parameter `parameter` written at bit `start`, and the bit after it: a run
/// of zeros closed by a one, then `parameter` low bits. The value wraps at 64 bits.
pub open spec fn rice_at(bytes: Seq<u8>, end: int, start: int, parameter: int) -> Result<
    (int, int),
    CodecError,
> {
    let available = end - start;
    let quotient = zero_run(
        bytes,
        start,
        if available < 64 {
            available
        } else {
            64
        },
    );
    let low = start + quotient + 1;
    if parameter > 63 {
        Err(CodecError::InvalidData("lossless Rice parameter exceeds 64-bit symbol geometry"))
    } else if start > end {
        Err(CodecError::Truncated)
    } else if quotient > LOSSLESS_RICE_MAX_PREFIX {
        Err(CodecError::InvalidData("lossless Rice prefix requires the parameter escape path"))
    } else if low + parameter > end {
        Err(CodecError::Truncated)
    } else {
        Ok(
            (
                (quotient * span(parameter as nat)) % 0x1_0000_0000_0000_0000 + bits(
                    bytes,
                    low,
                    parameter as nat,
                ),
                low + parameter,
            ),
        )
    }
}

/// The run ends where the first one bit is, if all bits before it are zero.
proof fn lemma_zero_run_is(bytes: Seq<u8>, start: int, limit: int, length: int)
    requires
        0 <= length <= limit,
        forall|i: int| 0 <= i < length ==> !#[trigger] bit_at(bytes, start + i),
        length < limit ==> bit_at(bytes, start + length),
    ensures
        zero_run(bytes, start, limit) == length,
    decreases limit,
{
    if length > 0 {
        assert(!bit_at(bytes, start + 0));
        assert forall|i: int| 0 <= i < length - 1 implies !#[trigger] bit_at(
            bytes,
            start + 1 + i,
        ) by {
            assert(!bit_at(bytes, start + (i + 1)));
        }
        lemma_zero_run_is(bytes, start + 1, limit - 1, length - 1);
    }
}

/// Decode one Rice codeword at bit `bit_offset` of `bytes`; gives its value and the bit after it.
///
/// Only the plain form is read here. A prefix of more than 63 zeros announces an escape, which is
/// refused.
pub fn decode_lossless_rice_base_codeword_at(
    bytes: &[u8],
    bit_offset: usize,
    parameter: u8,
) -> (result: Result<(u64, usize), CodecError>)
    ensures
        match rice_at(bytes@, bit_capacity(bytes@), bit_offset as int, parameter as int) {
            Ok((value, next)) => result is Ok && result->Ok_0.0 == value && result->Ok_0.1 == next,
            Err(error) => result == Err::<(u64, usize), CodecError>(error),
        },
{
    if parameter > 63 {
        return Err(
            CodecError::InvalidData("lossless Rice parameter exceeds 64-bit symbol geometry"),
        );
    }
    let ghost end = bit_capacity(bytes@);
    let ghost start = bit_offset as int;
    let mut reader = BitReader::with_bit_position(bytes, bit_offset)?;
    let mut quotient: u64 = 0;
    let mut stopped: bool = false;
    while !stopped
        invariant
            parameter <= 63,
            quotient <= 63,
            reader.well_formed(),
            reader.source() == bytes@,
            reader.end() == end,
            end == bit_capacity(bytes@),
            start == bit_offset,
            start <= end,
            forall|i: int| 0 <= i < quotient ==> !#[trigger] bit_at(bytes@, start + i),
            stopped ==> bit_at(bytes@, start + quotient),
            reader.cursor() == start + quotient + if stopped {
                1int
            } else {
                0int
            },
        decreases
            64 - quotient + if stopped {
                0int
            } else {
                1int
            },
    {
        let ghost window = if end - start < 64 {
            end - start
        } else {
            64
        };
        proof {
            if reader.cursor() >= end {
                lemma_zero_run_is(bytes@, start, window, quotient as int);
            }
        }
        let bit: bool = reader.read_bit()?;
        if bit {
            stopped = true;
        } else {
            if quotient == 63 {
                assert(!bit_at(bytes@, start + 63));
                proof {
                    lemma_zero_run_is(bytes@, start, 64, 64);
                }
                return Err(
                    CodecError::InvalidData(
                        "lossless Rice prefix requires the parameter escape path",
                    ),
                );
            }
            quotient = quotient + 1;
        }
    }
    proof {
        let window = if end - start < 64 {
            end - start
        } else {
            64
        };
        lemma_zero_run_is(bytes@, start, window, quotient as int);
    }
    let ghost low = reader.cursor();
    let mut remainder: u64 = 0;
    let mut scale: u64 = 1;
    let mut count: u8 = 0;
    let mut base: u64 = quotient;
    proof {
        assert(span(0) == 1);
        assert(quotient * span(0) == quotient) by (nonlinear_arith)
            requires
                span(0) == 1,
        ;
    }
    while count < parameter
        invariant
            count <= parameter <= 63,
            reader.well_formed(),
            reader.source() == bytes@,
            reader.end() == end,
            end == bit_capacity(bytes@),
            start == bit_offset,
            low == start + quotient + 1,
            quotient <= 63,
            quotient == zero_run(
                bytes@,
                start,
                if end - start < 64 {
                    end - start
                } else {
                    64
                },
            ),
            reader.cursor() == low + count,
            remainder == bits(bytes@, low, count as nat),
            scale == span(count as nat),
            remainder < scale,
            scale <= 0x8000_0000_0000_0000,
            base == (quotient * span(count as nat)) % 0x1_0000_0000_0000_0000,
        decreases parameter - count,
    {
        let bit: bool = reader.read_bit()?;
        proof {
            crate::bitreader::lemma_span_monotone(count as nat + 1, 63);
            lemma_span_63();
            assert(span((count + 1) as nat) == 2 * span(count as nat));
            let old_span = span(count as nat) as int;
            assert(quotient * (2 * old_span) == 2 * (quotient * old_span)) by (nonlinear_arith);
            lemma_double_wraps(quotient * old_span, base);
        }
        remainder = remainder * 2 + if bit {
            1u64
        } else {
            0u64
        };
        base = base.wrapping_mul(2);
        scale = if count == 62 {
            0x8000_0000_0000_0000
        } else {
            scale * 2
        };
        count = count + 1;
    }
    proof {
        lemma_wrapped_is_multiple(quotient as int, parameter as nat);
        lemma_bits_bound(bytes@, low, parameter as nat);
    }
    Ok((base + remainder, reader.position_bits()))
}

proof fn lemma_span_63()
    ensures
        span(63) == 0x8000_0000_0000_0000,
        span(62) == 0x4000_0000_0000_0000,
        span(64) == 0x1_0000_0000_0000_0000,
{
    reveal_with_fuel(span, 65);
}

/// Doubling wraps as the doubled number does.
proof fn lemma_double_wraps(value: int, base: u64)
    requires
        0 <= value,
        base == value % 0x1_0000_0000_0000_0000,
    ensures
        base.wrapping_mul(2) == (2 * value) % 0x1_0000_0000_0000_0000,
{
    vstd::arithmetic::div_mod::lemma_mul_mod_noop_right(2, value, 0x1_0000_0000_0000_0000);
}

/// A wrapped multiple of a power of two leaves room for the low bits.
proof fn lemma_wrapped_is_multiple(quotient: int, parameter: nat)
    requires
        0 <= quotient,
        parameter <= 63,
    ensures
        (quotient * span(parameter)) % 0x1_0000_0000_0000_0000 + span(parameter)
            <= 0x1_0000_0000_0000_0000,
{
    lemma_span_63();
    lemma_span_product(parameter, (64 - parameter) as nat);
    crate::bitreader::lemma_span_monotone(0, parameter);
    crate::bitreader::lemma_span_monotone(0, (64 - parameter) as nat);
    let unit = span(parameter) as int;
    let count = span((64 - parameter) as nat) as int;
    // quotient * unit modulo unit * count is unit times (quotient modulo count)
    assert(unit * count == 0x1_0000_0000_0000_0000);
    vstd::arithmetic::div_mod::lemma_truncate_middle(quotient, unit, count);
    vstd::arithmetic::mul::lemma_mul_is_commutative(quotient, unit);
    vstd::arithmetic::div_mod::lemma_mod_bound(quotient, count);
    assert(unit * (quotient % count) + unit <= unit * count) by (nonlinear_arith)
        requires
            0 < unit,
            0 <= quotient % count < count,
    ;
}

/// Powers of two multiply by adding their exponents.
proof fn lemma_span_product(a: nat, b: nat)
    ensures
        span(a) * span(b) == span(a + b),
    decreases a,
{
    if a > 0 {
        lemma_span_product((a - 1) as nat, b);
        assert(2 * span((a - 1) as nat) * span(b) == 2 * (span((a - 1) as nat) * span(b)))
            by (nonlinear_arith);
    } else {
        assert(span(0) * span(b) == span(b)) by (nonlinear_arith)
            requires
                span(0) == 1,
        ;
    }
}

/// The residual that a flattened magnitude, its removed low bits and its sign stand for.
pub open spec fn flattened_residual(magnitude: int, lsb: int, shift: int, negative: bool) -> int {
    let size = magnitude * span(shift as nat) + lsb;
    if negative {
        -size
    } else {
        size
    }
}

/// Why a residual cannot be restored, if it cannot.
pub open spec fn residual_error(magnitude: int, lsb: int, shift: int, negative: bool) -> Option<
    CodecError,
> {
    let size = magnitude * span(shift as nat) + lsb;
    let value = flattened_residual(magnitude, lsb, shift, negative);
    if shift > 31 {
        Some(
            CodecError::InvalidData(
                "lossless residual shift exceeds the 32-bit PCM working domain",
            ),
        )
    } else if lsb >= span(shift as nat) {
        Some(CodecError::InvalidData("lossless residual LSB exceeds its shift width"))
    } else if size > u64::MAX {
        Some(CodecError::InvalidData("lossless residual reconstruction overflows"))
    } else if size > i64::MAX {
        Some(
            CodecError::InvalidData("lossless residual magnitude exceeds signed working range"),
        )
    } else if value < i32::MIN || value > i32::MAX {
        Some(CodecError::InvalidData("lossless residual exceeds i32 working range"))
    } else {
        None
    }
}

/// Restore a prediction residual whose magnitude was shifted down by `shift` bits.
///
/// `flattened_magnitude` is the shifted magnitude, `lsb` holds the bits that were shifted out, and
/// the sign comes separately. A residual that does not fit in 32 bits is refused, never wrapped.
pub fn restore_lossless_flattened_residual(
    flattened_magnitude: u64,
    lsb: u64,
    shift: u8,
    negative: bool,
) -> (result: Result<i32, CodecError>)
    ensures
        match residual_error(flattened_magnitude as int, lsb as int, shift as int, negative) {
            Some(error) => result == Err::<i32, CodecError>(error),
            None => result is Ok && result->Ok_0 == flattened_residual(
                flattened_magnitude as int,
                lsb as int,
                shift as int,
                negative,
            ),
        },
{
    if shift > 31 {
        return Err(
            CodecError::InvalidData(
                "lossless residual shift exceeds the 32-bit PCM working domain",
            ),
        );
    }
    let mut limit: u64 = 1;
    let mut count: u8 = 0;
    while count < shift
        invariant
            count <= shift <= 31,
            limit == span(count as nat),
            1 <= limit <= 0x8000_0000,
        decreases shift - count,
    {
        proof {
            crate::bitreader::lemma_span_monotone(count as nat + 1, 31);
            assert(span(31) == 0x8000_0000) by {
                reveal_with_fuel(span, 32);
            }
        }
        limit = limit * 2;
        count = count + 1;
    }
    if lsb >= limit {
        return Err(CodecError::InvalidData("lossless residual LSB exceeds its shift width"));
    }
    let scaled: u64 = match flattened_magnitude.checked_mul(limit) {
        Some(scaled) => scaled,
        None => {
            return Err(CodecError::InvalidData("lossless residual reconstruction overflows"));
        },
    };
    let magnitude: u64 = match scaled.checked_add(lsb) {
        Some(magnitude) => magnitude,
        None => {
            return Err(CodecError::InvalidData("lossless residual reconstruction overflows"));
        },
    };
    if magnitude > i64::MAX as u64 {
        return Err(
            CodecError::InvalidData("lossless residual magnitude exceeds signed working range"),
        );
    }
    let value: i64 = if negative {
        -(magnitude as i64)
    } else {
        magnitude as i64
    };
    if value < i32::MIN as i64 || value > i32::MAX as i64 {
        return Err(CodecError::InvalidData("lossless residual exceeds i32 working range"));
    }
    Ok(value as i32)
}

/// Every 32-bit residual comes back from its flattened magnitude, low bits and sign, for every
/// shift.
pub proof fn flattening_a_residual_is_lossless(residual: int, shift: int)
    requires
        i32::MIN <= residual <= i32::MAX,
        0 <= shift <= 31,
    ensures
        ({
            let size = if residual < 0 {
                -residual
            } else {
                residual
            };
            let unit = span(shift as nat) as int;
            &&& residual_error(size / unit, size % unit, shift, residual < 0) is None
            &&& flattened_residual(size / unit, size % unit, shift, residual < 0) == residual
        }),
{
    let size = if residual < 0 {
        -residual
    } else {
        residual
    };
    let unit = span(shift as nat) as int;
    crate::bitreader::lemma_span_monotone(0, shift as nat);
    vstd::arithmetic::div_mod::lemma_fundamental_div_mod(size, unit);
    vstd::arithmetic::mul::lemma_mul_is_commutative(unit, size / unit);
    vstd::arithmetic::div_mod::lemma_mod_bound(size, unit);
}

} // verus!
