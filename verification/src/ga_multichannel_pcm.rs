//! Restricting the low frequency channel, and interleaving the samples of all channels.

use crate::error::CodecError;
use crate::group::MDCT_LINES;
use vstd::prelude::*;

verus! {

/// Lines that a low frequency channel keeps.
pub const MC_LFE_RESERVED_LINES: usize = 32;

/// Clear all but the lowest lines of a low frequency channel.
pub fn apply_multichannel_lfe_restriction<T: Copy>(spectrum: &mut [T], zero: T) -> (result: Result<
    (),
    CodecError,
>)
    ensures
        if old(spectrum)@.len() != MDCT_LINES {
            &&& result == Err::<(), CodecError>(
                CodecError::InvalidData(
                    "multichannel LFE restriction requires a 1024-line MDCT spectrum",
                ),
            )
            &&& final(spectrum)@ == old(spectrum)@
        } else {
            &&& result is Ok
            &&& final(spectrum)@ == old(spectrum)@.take(MC_LFE_RESERVED_LINES as int) + Seq::new(
                (MDCT_LINES - MC_LFE_RESERVED_LINES) as nat,
                |i: int| zero,
            )
        },
{
    if spectrum.len() != MDCT_LINES {
        return Err(
            CodecError::InvalidData(
                "multichannel LFE restriction requires a 1024-line MDCT spectrum",
            ),
        );
    }
    let ghost before = spectrum@;
    let mut line: usize = MC_LFE_RESERVED_LINES;
    while line < MDCT_LINES
        invariant
            MC_LFE_RESERVED_LINES <= line <= MDCT_LINES,
            before == old(spectrum)@,
            spectrum@.len() == MDCT_LINES,
            forall|i: int|
                0 <= i < MDCT_LINES ==> #[trigger] spectrum@[i] == if MC_LFE_RESERVED_LINES <= i
                    < line {
                    zero
                } else {
                    before[i]
                },
        decreases MDCT_LINES - line,
    {
        spectrum[line] = zero;
        line = line + 1;
    }
    assert(spectrum@ =~= before.take(MC_LFE_RESERVED_LINES as int) + Seq::new(
        (MDCT_LINES - MC_LFE_RESERVED_LINES) as nat,
        |i: int| zero,
    ));
    Ok(())
}

/// Where sample `frame` of channel `channel` stands in an interleaved frame.
pub open spec fn interleaved_index(channels: int, frame: int, channel: int) -> int {
    frame * channels + channel
}

/// Every channel holds `frames` samples.
pub open spec fn is_planar<T>(planar: Seq<Vec<T>>, frames: int) -> bool {
    forall|channel: int| 0 <= channel < planar.len() ==> (#[trigger] planar[channel])@.len() == frames
}

/// Interleave `frames` samples of each channel.
pub fn interleave_pcm<T: Copy>(planar: &[Vec<T>], frames: usize) -> (interleaved: Vec<T>)
    requires
        is_planar(planar@, frames as int),
        frames * planar@.len() <= usize::MAX,
    ensures
        interleaved@.len() == frames * planar@.len(),
        forall|frame: int, channel: int|
            0 <= frame < frames && 0 <= channel < planar@.len() ==> interleaved@[
            #[trigger] interleaved_index(planar@.len() as int, frame, channel)]
                == planar@[channel]@[frame],
{
    let channels: usize = planar.len();
    let mut interleaved: Vec<T> = Vec::new();
    let mut frame: usize = 0;
    assert(0 * channels == 0) by (nonlinear_arith);
    while frame < frames
        invariant
            frame <= frames,
            channels == planar@.len(),
            is_planar(planar@, frames as int),
            interleaved@.len() == frame * channels,
            forall|f: int, c: int|
                0 <= f < frame && 0 <= c < channels ==> interleaved@[
                #[trigger] interleaved_index(channels as int, f, c)] == planar@[c]@[f],
        decreases frames - frame,
    {
        let mut channel: usize = 0;
        while channel < channels
            invariant
                frame < frames,
                channel <= channels,
                channels == planar@.len(),
                is_planar(planar@, frames as int),
                interleaved@.len() == frame * channels + channel,
                forall|f: int, c: int|
                    0 <= c < channels && (0 <= f < frame || f == frame && c < channel)
                        ==> interleaved@[#[trigger] interleaved_index(channels as int, f, c)]
                        == planar@[c]@[f],
            decreases channels - channel,
        {
            proof {
                assert forall|f: int, c: int|
                    0 <= c < channels && (0 <= f < frame || f == frame && c
                        < channel) implies #[trigger] interleaved_index(channels as int, f, c)
                    < interleaved@.len() && 0 <= interleaved_index(channels as int, f, c) by {
                    lemma_index_bound(channels as int, f, c, frame as int);
                }
            }
            let samples = &planar[channel];
            assert(samples@.len() == frames);
            interleaved.push(samples[frame]);
            channel = channel + 1;
        }
        assert((frame + 1) * channels == frame * channels + channels) by (nonlinear_arith);
        frame = frame + 1;
    }
    interleaved
}

proof fn lemma_index_bound(channels: int, frame: int, channel: int, last: int)
    requires
        0 <= channel < channels,
        0 <= frame <= last,
    ensures
        0 <= interleaved_index(channels, frame, channel),
        frame < last ==> interleaved_index(channels, frame, channel) < last * channels,
{
    assert(0 <= frame * channels) by (nonlinear_arith)
        requires
            0 <= frame,
            0 < channels,
    ;
    if frame < last {
        assert((frame + 1) * channels <= last * channels && (frame + 1) * channels == frame
            * channels + channels) by (nonlinear_arith)
            requires
                frame + 1 <= last,
                0 < channels,
        ;
    }
}

/// No two samples are written to the same place, so interleaving keeps all of them.
pub proof fn interleaving_keeps_every_sample(
    channels: int,
    frames: int,
    frame: int,
    channel: int,
    other_frame: int,
    other_channel: int,
)
    requires
        0 <= channel < channels,
        0 <= other_channel < channels,
        0 <= frame < frames,
        0 <= other_frame < frames,
    ensures
        0 <= interleaved_index(channels, frame, channel) < frames * channels,
        interleaved_index(channels, frame, channel) == interleaved_index(
            channels,
            other_frame,
            other_channel,
        ) ==> frame == other_frame && channel == other_channel,
{
    lemma_index_bound(channels, frame, channel, frames);
    if frame < other_frame {
        lemma_index_bound(channels, frame, channel, other_frame);
    } else if other_frame < frame {
        lemma_index_bound(channels, other_frame, other_channel, frame);
    }
}

} // verus!
