//! Inverse stereo decorrelation.

use crate::error::CodecError;
use crate::lossless_bitstream::primitives::{
    half_down, half_up, halve, odd_part, restore_lossless_mid_side,
};
use vstd::prelude::*;

verus! {

/// How the two channels were decorrelated.
#[derive(Clone, Copy, Debug, PartialEq, Eq, Structural)]
pub enum LosslessStereoDecorrelationMode {
    /// `mid = floor((l - r) / 2)`, `side = l + r`.
    AntiPhase,
    /// `mid = floor((l + r) / 2)`, `side = l - r`.
    InPhase,
    /// The channels are left and right already.
    Passthrough,
}

/// What the anti-phase transform makes of a sample pair.
pub open spec fn anti_phase_downmix(left: int, right: int) -> (int, int) {
    ((left - right) / 2, left + right)
}

/// What the in-phase transform makes of a sample pair.
pub open spec fn in_phase_downmix(left: int, right: int) -> (int, int) {
    ((left + right) / 2, left - right)
}

/// The pair that a transmitted pair stands for, as unbounded numbers.
pub open spec fn restored_pair(
    mode: LosslessStereoDecorrelationMode,
    primary: int,
    secondary: int,
) -> (int, int) {
    match mode {
        LosslessStereoDecorrelationMode::AntiPhase => (
            primary + half_up(secondary),
            half_down(secondary) - primary,
        ),
        LosslessStereoDecorrelationMode::InPhase => (
            primary + half_up(secondary),
            primary - half_down(secondary),
        ),
        LosslessStereoDecorrelationMode::Passthrough => (primary, secondary),
    }
}

/// Whether a number fits in 32 bits.
pub open spec fn fits(value: int) -> bool {
    i32::MIN <= value <= i32::MAX
}

/// The pair that a transmitted pair stands for, or which channel of it does not fit.
pub open spec fn stereo_pair(
    mode: LosslessStereoDecorrelationMode,
    primary: int,
    secondary: int,
) -> Result<(i32, i32), CodecError> {
    let (left, right) = restored_pair(mode, primary, secondary);
    if fits(left) && fits(right) {
        Ok((left as i32, right as i32))
    } else if mode == LosslessStereoDecorrelationMode::AntiPhase {
        if !fits(left) {
            Err(CodecError::InvalidData("lossless anti-phase left channel exceeds i32"))
        } else {
            Err(CodecError::InvalidData("lossless anti-phase right channel exceeds i32"))
        }
    } else {
        if !fits(left) {
            Err(CodecError::InvalidData("lossless mid/side left channel exceeds i32"))
        } else {
            Err(CodecError::InvalidData("lossless mid/side right channel exceeds i32"))
        }
    }
}

/// Undo the anti-phase transform of one sample pair.
pub fn restore_lossless_anti_phase(mid: i32, side: i32) -> (result: Result<(i32, i32), CodecError>)
    ensures
        result == stereo_pair(
            LosslessStereoDecorrelationMode::AntiPhase,
            mid as int,
            side as int,
        ),
{
    let parity: i64 = odd_part(side);
    let left: i64 = mid as i64 + halve(side as i64 + parity);
    let right: i64 = halve(side as i64 - parity) - mid as i64;
    if left < i32::MIN as i64 || left > i32::MAX as i64 {
        return Err(CodecError::InvalidData("lossless anti-phase left channel exceeds i32"));
    }
    if right < i32::MIN as i64 || right > i32::MAX as i64 {
        return Err(CodecError::InvalidData("lossless anti-phase right channel exceeds i32"));
    }
    Ok((left as i32, right as i32))
}

/// Undo the decorrelation of one sample pair.
pub fn restore_lossless_stereo_pair(
    mode: LosslessStereoDecorrelationMode,
    primary: i32,
    secondary: i32,
) -> (result: Result<(i32, i32), CodecError>)
    ensures
        result == stereo_pair(mode, primary as int, secondary as int),
{
    match mode {
        LosslessStereoDecorrelationMode::AntiPhase => restore_lossless_anti_phase(
            primary,
            secondary,
        ),
        LosslessStereoDecorrelationMode::InPhase => restore_lossless_mid_side(primary, secondary),
        LosslessStereoDecorrelationMode::Passthrough => Ok((primary, secondary)),
    }
}

/// The first `count` pairs of the two channels have been restored, the others are untouched.
pub open spec fn restored_up_to(
    mode: LosslessStereoDecorrelationMode,
    old_primary: Seq<i32>,
    old_secondary: Seq<i32>,
    primary: Seq<i32>,
    secondary: Seq<i32>,
    count: int,
) -> bool {
    &&& primary.len() == old_primary.len()
    &&& secondary.len() == old_secondary.len()
    &&& forall|i: int|
        0 <= i < count ==> stereo_pair(
            mode,
            old_primary[i] as int,
            old_secondary[i] as int,
        ) == Ok::<(i32, i32), CodecError>((#[trigger] primary[i], secondary[i]))
    &&& forall|i: int| count <= i < primary.len() ==> #[trigger] primary[i] == old_primary[i]
    &&& forall|i: int|
        count <= i < secondary.len() ==> #[trigger] secondary[i] == old_secondary[i]
}

/// Undo the decorrelation of two channels in place: `primary` becomes the left channel and
/// `secondary` the right one.
///
/// Samples are restored in order. A pair that does not fit stops the work there, with the pairs
/// before it restored and the others as they were.
pub fn restore_lossless_stereo_in_place(
    mode: LosslessStereoDecorrelationMode,
    primary: &mut [i32],
    secondary: &mut [i32],
) -> (result: Result<(), CodecError>)
    ensures
        old(primary)@.len() != old(secondary)@.len() ==> result == Err::<(), CodecError>(
            CodecError::InvalidData("lossless stereo channel lengths do not match"),
        ) && final(primary)@ == old(primary)@ && final(secondary)@ == old(secondary)@,
        old(primary)@.len() == old(secondary)@.len() ==> match result {
            Ok(_) => restored_up_to(
                mode,
                old(primary)@,
                old(secondary)@,
                final(primary)@,
                final(secondary)@,
                old(primary)@.len() as int,
            ),
            Err(error) => exists|count: int| #[trigger]
                restored_up_to(
                    mode,
                    old(primary)@,
                    old(secondary)@,
                    final(primary)@,
                    final(secondary)@,
                    count,
                ) && 0 <= count < old(primary)@.len() && stereo_pair(
                    mode,
                    old(primary)@[count] as int,
                    old(secondary)@[count] as int,
                ) == Err::<(i32, i32), CodecError>(error),
        },
{
    if primary.len() != secondary.len() {
        return Err(CodecError::InvalidData("lossless stereo channel lengths do not match"));
    }
    if mode == LosslessStereoDecorrelationMode::Passthrough {
        return Ok(());
    }
    let count: usize = primary.len();
    let mut index: usize = 0;
    while index < count
        invariant
            index <= count,
            count == old(primary)@.len(),
            count == old(secondary)@.len(),
            primary@.len() == count,
            secondary@.len() == count,
            restored_up_to(
                mode,
                old(primary)@,
                old(secondary)@,
                primary@,
                secondary@,
                index as int,
            ),
        decreases count - index,
    {
        assert(primary@[index as int] == old(primary)@[index as int]);
        assert(secondary@[index as int] == old(secondary)@[index as int]);
        let (left, right) = restore_lossless_stereo_pair(mode, primary[index], secondary[index])?;
        primary[index] = left;
        secondary[index] = right;
        index = index + 1;
    }
    Ok(())
}

/// Decorrelation loses nothing: whichever transform was used, every sample pair comes back from
/// what the transform makes of it.
pub proof fn stereo_decorrelation_is_lossless(left: i32, right: i32)
    ensures
        ({
            let (mid, side) = anti_phase_downmix(left as int, right as int);
            stereo_pair(LosslessStereoDecorrelationMode::AntiPhase, mid, side) == Ok::<
                (i32, i32),
                CodecError,
            >((left, right))
        }),
        ({
            let (mid, side) = in_phase_downmix(left as int, right as int);
            stereo_pair(LosslessStereoDecorrelationMode::InPhase, mid, side) == Ok::<
                (i32, i32),
                CodecError,
            >((left, right))
        }),
        stereo_pair(LosslessStereoDecorrelationMode::Passthrough, left as int, right as int)
            == Ok::<(i32, i32), CodecError>((left, right)),
{
}

} // verus!
