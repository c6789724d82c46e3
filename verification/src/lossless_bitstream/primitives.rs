//! Shared arithmetic of the lossless tools.

use crate::error::CodecError;
use vstd::prelude::*;

verus! {

/// Longest zero run of a plain Rice codeword.
pub const LOSSLESS_RICE_MAX_PREFIX: u64 = 63;

/// Number of samples that the adaptation statistic spans.
pub const LOSSLESS_RICE_WINDOW: usize = 32;

/// The unsigned symbol of a signed residual: even for the non-negative ones.
pub open spec fn rice_symbol(residual: int) -> int {
    if residual >= 0 {
        2 * residual
    } else {
        -2 * residual - 1
    }
}

/// Map a signed residual onto the unsigned symbols: 0, -1, 1, -2, 2 and so on.
pub fn lossless_rice_map_signed(residual: i32) -> (symbol: u64)
    ensures
        symbol == rice_symbol(residual as int),
{
    let wide: i64 = residual as i64;
    if wide >= 0 {
        (2 * wide) as u64
    } else {
        (-2 * wide - 1) as u64
    }
}

/// Different residuals have different symbols.
pub proof fn rice_symbols_are_distinct(a: int, b: int)
    requires
        rice_symbol(a) == rice_symbol(b),
    ensures
        a == b,
{
}

/// Check the number of samples per adaptation block.
pub fn validate_lossless_rice_block_size(block_size: usize) -> (result: Result<(), CodecError>)
    ensures
        result == if 1 <= block_size <= LOSSLESS_RICE_WINDOW {
            Ok::<(), CodecError>(())
        } else {
            Err(
                CodecError::InvalidData(
                    "lossless Rice block size must be between one and the adaptation window",
                ),
            )
        },
{
    if block_size == 0 || block_size > LOSSLESS_RICE_WINDOW {
        Err(
            CodecError::InvalidData(
                "lossless Rice block size must be between one and the adaptation window",
            ),
        )
    } else {
        Ok(())
    }
}

/// Half of `side`, rounded up.
pub open spec fn half_up(side: int) -> int {
    (side + side % 2) / 2
}

/// Half of `side`, rounded down.
pub open spec fn half_down(side: int) -> int {
    (side - side % 2) / 2
}

/// Undo the transform `mid = floor((l + r) / 2)`, `side = l - r`.
pub fn restore_lossless_mid_side(mid: i32, side: i32) -> (result: Result<(i32, i32), CodecError>)
    ensures
        ({
            let left = mid + half_up(side as int);
            let right = mid - half_down(side as int);
            if left < i32::MIN || left > i32::MAX {
                result == Err::<(i32, i32), CodecError>(
                    CodecError::InvalidData("lossless mid/side left channel exceeds i32"),
                )
            } else if right < i32::MIN || right > i32::MAX {
                result == Err::<(i32, i32), CodecError>(
                    CodecError::InvalidData("lossless mid/side right channel exceeds i32"),
                )
            } else {
                result == Ok::<(i32, i32), CodecError>((left as i32, right as i32))
            }
        }),
{
    let parity: i64 = odd_part(side);
    let left: i64 = mid as i64 + halve(side as i64 + parity);
    let right: i64 = mid as i64 - halve(side as i64 - parity);
    if left < i32::MIN as i64 || left > i32::MAX as i64 {
        return Err(CodecError::InvalidData("lossless mid/side left channel exceeds i32"));
    }
    if right < i32::MIN as i64 || right > i32::MAX as i64 {
        return Err(CodecError::InvalidData("lossless mid/side right channel exceeds i32"));
    }
    Ok((left as i32, right as i32))
}

/// One for an odd number, zero for an even one.
pub fn odd_part(side: i32) -> (parity: i64)
    ensures
        parity == side % 2,
{
    if side >= 0 {
        (side % 2) as i64
    } else {
        // The remainder of a negative number is taken of its complement, which is not negative.
        let complement: i64 = -1 - side as i64;
        1 - complement % 2
    }
}

/// Half of an even number.
pub fn halve(even: i64) -> (half: i64)
    requires
        even % 2 == 0,
        even > i64::MIN,
    ensures
        half == even / 2,
{
    if even >= 0 {
        even / 2
    } else {
        -((-even) / 2)
    }
}

} // verus!
