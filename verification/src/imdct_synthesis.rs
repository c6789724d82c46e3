//! The bookkeeping of the inverse transform: which window weighs which samples, where the lines of
//! a short block stand, and what is carried over to the next frame.

use crate::core_side::TransformType;
use crate::error::CodecError;
use crate::float_bits::{all_finite, are_finite};
use crate::group::{MDCT_LINES, SHORT_BLOCKS, SHORT_LINES};
use vstd::prelude::*;

verus! {

/// Samples on either side of the short windows inside a long frame.
pub const TRANSITION_PADDING: usize = 448;

/// Samples of a long transform.
pub const LONG_TIME_LEN: usize = 2048;

/// How a stretch of transformed samples is weighed.
#[derive(Clone, Copy, Debug, PartialEq, Eq, Structural)]
pub enum Window {
    /// By the rising half of the long sine window.
    LongRise,
    /// By the falling half of the long sine window.
    LongFall,
    /// By the rising half of the short sine window.
    ShortRise,
    /// By the falling half of the short sine window.
    ShortFall,
    /// Not at all.
    Flat,
    /// It is cleared.
    Silent,
}

/// A stretch of transformed samples and its window.
#[derive(Clone, Copy, Debug, PartialEq, Eq)]
pub struct WindowSection {
    pub start: usize,
    pub stop: usize,
    pub window: Window,
}

/// The stretches of a transform that is not short.
pub open spec fn sections_of(transform: TransformType) -> Seq<WindowSection> {
    match transform {
        TransformType::Long => seq![
            WindowSection { start: 0, stop: 1024, window: Window::LongRise },
            WindowSection { start: 1024, stop: 2048, window: Window::LongFall },
        ],
        TransformType::CutIn => seq![
            WindowSection { start: 0, stop: 1024, window: Window::LongRise },
            WindowSection { start: 1024, stop: 1472, window: Window::Flat },
            WindowSection { start: 1472, stop: 1600, window: Window::ShortFall },
            WindowSection { start: 1600, stop: 2048, window: Window::Silent },
        ],
        TransformType::CutOut => seq![
            WindowSection { start: 0, stop: 448, window: Window::Silent },
            WindowSection { start: 448, stop: 576, window: Window::ShortRise },
            WindowSection { start: 576, stop: 1024, window: Window::Flat },
            WindowSection { start: 1024, stop: 2048, window: Window::LongFall },
        ],
        TransformType::Short => Seq::empty(),
    }
}

/// The stretches of a transform that is not short.
pub fn window_sections(transform: TransformType) -> (result: Result<Vec<WindowSection>, CodecError>)
    ensures
        if transform == TransformType::Short {
            result is Err && result->Err_0 == CodecError::Internal(
                "short-window frame entered long IMDCT synthesis",
            )
        } else {
            result is Ok && result->Ok_0@ == sections_of(transform)
        },
{
    let mut sections: Vec<WindowSection> = Vec::new();
    match transform {
        TransformType::Long => {
            sections.push(WindowSection { start: 0, stop: 1024, window: Window::LongRise });
            sections.push(WindowSection { start: 1024, stop: 2048, window: Window::LongFall });
        },
        TransformType::CutIn => {
            sections.push(WindowSection { start: 0, stop: 1024, window: Window::LongRise });
            sections.push(WindowSection { start: 1024, stop: 1472, window: Window::Flat });
            sections.push(WindowSection { start: 1472, stop: 1600, window: Window::ShortFall });
            sections.push(WindowSection { start: 1600, stop: 2048, window: Window::Silent });
        },
        TransformType::CutOut => {
            sections.push(WindowSection { start: 0, stop: 448, window: Window::Silent });
            sections.push(WindowSection { start: 448, stop: 576, window: Window::ShortRise });
            sections.push(WindowSection { start: 576, stop: 1024, window: Window::Flat });
            sections.push(WindowSection { start: 1024, stop: 2048, window: Window::LongFall });
        },
        TransformType::Short => {
            return Err(CodecError::Internal("short-window frame entered long IMDCT synthesis"));
        },
    }
    assert(sections@ =~= sections_of(transform));
    Ok(sections)
}

/// Every sample of a transform that is not short lies in exactly one stretch.
pub proof fn sections_tile_the_transform(transform: TransformType, sample: int)
    requires
        transform != TransformType::Short,
        0 <= sample < LONG_TIME_LEN,
    ensures
        exists|i: int|
            0 <= i < sections_of(transform).len() && section_has(
                #[trigger] sections_of(transform)[i],
                sample,
            ),
        forall|i: int, j: int|
            0 <= i < sections_of(transform).len() && 0 <= j < sections_of(transform).len()
                && section_has(#[trigger] sections_of(transform)[i], sample) && section_has(
                #[trigger] sections_of(transform)[j],
                sample,
            ) ==> i == j,
{
    let sections = sections_of(transform);
    match transform {
        TransformType::Long => {
            assert(section_has(sections[if sample < 1024 {
                0int
            } else {
                1
            }], sample));
        },
        TransformType::CutIn => {
            assert(section_has(sections[if sample < 1024 {
                0int
            } else if sample < 1472 {
                1
            } else if sample < 1600 {
                2
            } else {
                3
            }], sample));
        },
        _ => {
            assert(section_has(sections[if sample < 448 {
                0int
            } else if sample < 576 {
                1
            } else if sample < 1024 {
                2
            } else {
                3
            }], sample));
        },
    }
}

/// A sample lies in a stretch.
pub open spec fn section_has(section: WindowSection, sample: int) -> bool {
    section.start <= sample < section.stop
}

/// The lines of short block `block`, which stand eight apart.
pub fn gather_short_block<T: Copy>(spectrum: &[T], block: usize) -> (lines: Vec<T>)
    requires
        spectrum@.len() == MDCT_LINES,
        block < SHORT_BLOCKS,
    ensures
        lines@ == Seq::new(
            SHORT_LINES as nat,
            |line: int| spectrum@[block + SHORT_BLOCKS * line],
        ),
{
    let mut lines: Vec<T> = Vec::new();
    while lines.len() < SHORT_LINES
        invariant
            spectrum@.len() == MDCT_LINES,
            block < SHORT_BLOCKS,
            lines@.len() <= SHORT_LINES,
            forall|line: int|
                0 <= line < lines@.len() ==> #[trigger] lines@[line] == spectrum@[block
                    + SHORT_BLOCKS * line],
        decreases SHORT_LINES - lines@.len(),
    {
        let line: usize = lines.len();
        lines.push(spectrum[block + SHORT_BLOCKS * line]);
    }
    assert(lines@ =~= Seq::new(
        SHORT_LINES as nat,
        |line: int| spectrum@[block + SHORT_BLOCKS * line],
    ));
    lines
}

/// What a short frame gives out: the start of what was carried over, then its first blocks.
pub open spec fn short_output<T>(carried: Seq<T>, blocks: Seq<T>) -> Seq<T> {
    carried.take(TRANSITION_PADDING as int) + blocks.take(MDCT_LINES - TRANSITION_PADDING)
}

/// What a short frame carries over: the rest of its blocks, the tail of the last one, and silence.
pub open spec fn short_carry<T>(blocks: Seq<T>, tail: Seq<T>, zero: T) -> Seq<T> {
    blocks.skip(MDCT_LINES - TRANSITION_PADDING) + tail + Seq::new(
        (MDCT_LINES - TRANSITION_PADDING - SHORT_LINES) as nat,
        |i: int| zero,
    )
}

/// The stretch of what was carried over that the first short block is added to.
pub fn short_overlap<T: Copy>(carried: &[T]) -> (overlap: Vec<T>)
    requires
        carried@.len() == MDCT_LINES,
    ensures
        overlap@ == carried@.subrange(
            TRANSITION_PADDING as int,
            TRANSITION_PADDING + SHORT_LINES,
        ),
{
    copied(carried, TRANSITION_PADDING, TRANSITION_PADDING + SHORT_LINES)
}

/// A copy of a stretch of samples.
fn copied<T: Copy>(samples: &[T], start: usize, stop: usize) -> (copy: Vec<T>)
    requires
        start <= stop <= samples@.len(),
    ensures
        copy@ == samples@.subrange(start as int, stop as int),
{
    let mut copy: Vec<T> = Vec::new();
    extend(&mut copy, samples, start, stop);
    assert(copy@ =~= samples@.subrange(start as int, stop as int));
    copy
}

/// Append a stretch of samples.
fn extend<T: Copy>(output: &mut Vec<T>, samples: &[T], start: usize, stop: usize)
    requires
        start <= stop <= samples@.len(),
    ensures
        final(output)@ == old(output)@ + samples@.subrange(start as int, stop as int),
{
    let ghost before = output@;
    let mut at: usize = start;
    assert(before + samples@.subrange(start as int, start as int) =~= before);
    while at < stop
        invariant
            start <= at <= stop <= samples@.len(),
            output@ == before + samples@.subrange(start as int, at as int),
        decreases stop - at,
    {
        output.push(samples[at]);
        at = at + 1;
        assert(output@ =~= before + samples@.subrange(start as int, at as int));
    }
}

/// Put a short frame together: what it gives out, and what it carries over.
pub fn finish_short_frame<T: Copy>(carried: &[T], blocks: &[T], tail: &[T], zero: T) -> (frame: (
    Vec<T>,
    Vec<T>,
))
    requires
        carried@.len() == MDCT_LINES,
        blocks@.len() == MDCT_LINES,
        tail@.len() == SHORT_LINES,
    ensures
        frame.0@ == short_output(carried@, blocks@),
        frame.1@ == short_carry(blocks@, tail@, zero),
        frame.0@.len() == MDCT_LINES,
        frame.1@.len() == MDCT_LINES,
{
    let first: usize = MDCT_LINES - TRANSITION_PADDING;
    let mut output: Vec<T> = copied(carried, 0, TRANSITION_PADDING);
    extend(&mut output, blocks, 0, first);
    assert(output@ =~= short_output(carried@, blocks@));
    let mut carry: Vec<T> = copied(blocks, first, MDCT_LINES);
    extend(&mut carry, tail, 0, SHORT_LINES);
    let ghost front = carry@;
    let ghost silence = Seq::new(
        (MDCT_LINES - TRANSITION_PADDING - SHORT_LINES) as nat,
        |i: int| zero,
    );
    while carry.len() < MDCT_LINES
        invariant
            front.len() == TRANSITION_PADDING + SHORT_LINES,
            silence == Seq::new(
                (MDCT_LINES - TRANSITION_PADDING - SHORT_LINES) as nat,
                |i: int| zero,
            ),
            front.len() <= carry@.len() <= MDCT_LINES,
            carry@ == front + silence.take(carry@.len() - front.len()),
        decreases MDCT_LINES - carry@.len(),
    {
        carry.push(zero);
        assert(carry@ =~= front + silence.take(carry@.len() - front.len()));
    }
    assert(carry@ =~= short_carry(blocks@, tail@, zero));
    (output, carry)
}

/// Every sample of the short blocks is given out once, now or with the next frame.
pub proof fn short_blocks_are_given_out_once<T>(
    carried: Seq<T>,
    blocks: Seq<T>,
    tail: Seq<T>,
    zero: T,
    sample: int,
)
    requires
        carried.len() == MDCT_LINES,
        blocks.len() == MDCT_LINES,
        tail.len() == SHORT_LINES,
        0 <= sample < MDCT_LINES,
    ensures
        if sample < MDCT_LINES - TRANSITION_PADDING {
            short_output(carried, blocks)[TRANSITION_PADDING + sample] == blocks[sample]
        } else {
            short_carry(blocks, tail, zero)[sample - (MDCT_LINES - TRANSITION_PADDING)]
                == blocks[sample]
        },
{
}

/// Check the lines of a frame, given by their bits, and the room for its samples.
pub fn check_synthesis_input(spectrum: &[u32], output_len: usize) -> (result: Result<
    (),
    CodecError,
>)
    ensures
        result == if spectrum@.len() != MDCT_LINES || output_len != MDCT_LINES {
            Err::<(), CodecError>(
                CodecError::InvalidData(
                    "AVS3 synthesis requires 1024 MDCT lines and 1024 output samples",
                ),
            )
        } else if !all_finite(spectrum@) {
            Err(CodecError::InvalidData("AVS3 synthesis input contains non-finite MDCT data"))
        } else {
            Ok(())
        },
{
    if spectrum.len() != MDCT_LINES || output_len != MDCT_LINES {
        return Err(
            CodecError::InvalidData(
                "AVS3 synthesis requires 1024 MDCT lines and 1024 output samples",
            ),
        );
    }
    if !are_finite(spectrum) {
        return Err(CodecError::InvalidData("AVS3 synthesis input contains non-finite MDCT data"));
    }
    Ok(())
}

/// Check the samples of a frame, given by their bits.
pub fn check_synthesis_output(samples: &[u32]) -> (result: Result<(), CodecError>)
    ensures
        result == if all_finite(samples@) {
            Ok::<(), CodecError>(())
        } else {
            Err(CodecError::InvalidData("AVS3 synthesis produced non-finite PCM data"))
        },
{
    if !are_finite(samples) {
        return Err(CodecError::InvalidData("AVS3 synthesis produced non-finite PCM data"));
    }
    Ok(())
}

/// Check the lines of a frame, given by their bits, before its spectral shaping is undone.
pub fn check_shaping_input(spectrum: &[u32]) -> (result: Result<(), CodecError>)
    ensures
        result == if spectrum@.len() != MDCT_LINES {
            Err::<(), CodecError>(
                CodecError::InvalidData("FD inverse shaping requires a 1024-line MDCT spectrum"),
            )
        } else if !all_finite(spectrum@) {
            Err(CodecError::InvalidData("FD inverse shaping input contains non-finite MDCT data"))
        } else {
            Ok(())
        },
{
    if spectrum.len() != MDCT_LINES {
        return Err(
            CodecError::InvalidData("FD inverse shaping requires a 1024-line MDCT spectrum"),
        );
    }
    if !are_finite(spectrum) {
        return Err(
            CodecError::InvalidData("FD inverse shaping input contains non-finite MDCT data"),
        );
    }
    Ok(())
}

/// Where the two halves of a transformed value stand in a transform of `time_len` samples.
///
/// The real half stands at one place as it is and at another with the sign `real_negated`, and so
/// does the imaginary half. Folding samples and unfolding them use the same places.
#[derive(Clone, Copy, Debug, PartialEq, Eq, Structural)]
pub struct Folding {
    pub real: usize,
    pub real_mirror: usize,
    pub real_negated: bool,
    pub imaginary: usize,
    pub imaginary_mirror: usize,
    pub imaginary_negated: bool,
}

/// The places of value `index` in a transform of `time_len` samples.
pub open spec fn folding_of(time_len: int, index: int) -> Folding {
    let rising = index < time_len / 8;
    Folding {
        real: (time_len / 2 + time_len / 4 - 1 - 2 * index) as usize,
        real_mirror: if rising {
            (time_len / 2 + time_len / 4 + 2 * index) as usize
        } else {
            (2 * index - time_len / 4) as usize
        },
        real_negated: !rising,
        imaginary: (time_len / 4 + 2 * index) as usize,
        imaginary_mirror: if rising {
            (time_len / 4 - 1 - 2 * index) as usize
        } else {
            (time_len / 4 + time_len - 1 - 2 * index) as usize
        },
        imaginary_negated: rising,
    }
}

/// A transform has this many samples.
pub open spec fn is_time_len(time_len: int) -> bool {
    &&& 0 < time_len <= LONG_TIME_LEN
    &&& time_len % 8 == 0
}

/// Find the places of value `index` in a transform of `time_len` samples.
pub fn folding(time_len: usize, index: usize) -> (places: Folding)
    requires
        is_time_len(time_len as int),
        index < time_len / 4,
    ensures
        places == folding_of(time_len as int, index as int),
        places.real < time_len,
        places.real_mirror < time_len,
        places.imaginary < time_len,
        places.imaginary_mirror < time_len,
{
    let rising: bool = index < time_len / 8;
    Folding {
        real: time_len / 2 + time_len / 4 - 1 - 2 * index,
        real_mirror: if rising {
            time_len / 2 + time_len / 4 + 2 * index
        } else {
            2 * index - time_len / 4
        },
        real_negated: !rising,
        imaginary: time_len / 4 + 2 * index,
        imaginary_mirror: if rising {
            time_len / 4 - 1 - 2 * index
        } else {
            time_len / 4 + time_len - 1 - 2 * index
        },
        imaginary_negated: rising,
    }
}

/// Place number `slot` of value `index`, out of four.
pub open spec fn folded_place(time_len: int, index: int, slot: int) -> int {
    let places = folding_of(time_len, index);
    if slot == 0 {
        places.real as int
    } else if slot == 1 {
        places.real_mirror as int
    } else if slot == 2 {
        places.imaginary as int
    } else {
        places.imaginary_mirror as int
    }
}

/// Which value and which of its places a sample belongs to.
pub open spec fn unfolded(time_len: int, sample: int) -> (int, int) {
    let quarter = time_len / 4;
    if sample % 2 == 0 {
        if sample < quarter {
            ((sample + quarter) / 2, 1)
        } else if sample < 3 * quarter {
            ((sample - quarter) / 2, 2)
        } else {
            ((sample - 3 * quarter) / 2, 1)
        }
    } else {
        if sample < quarter {
            ((quarter - 1 - sample) / 2, 3)
        } else if sample < 3 * quarter {
            ((3 * quarter - 1 - sample) / 2, 0)
        } else {
            ((quarter + time_len - 1 - sample) / 2, 3)
        }
    }
}

proof fn lemma_place_of_sample(eighth: int, sample: int)
    requires
        0 < eighth <= 256,
        0 <= sample < 8 * eighth,
    ensures
        0 <= unfolded(8 * eighth, sample).0 < 2 * eighth,
        folded_place(
            8 * eighth,
            unfolded(8 * eighth, sample).0,
            unfolded(8 * eighth, sample).1,
        ) == sample,
{
}

proof fn lemma_sample_of_place(eighth: int, index: int, slot: int)
    requires
        0 < eighth <= 256,
        0 <= index < 2 * eighth,
        0 <= slot < 4,
    ensures
        unfolded(8 * eighth, folded_place(8 * eighth, index, slot)) == (index, slot),
{
    if slot == 0 {
        assert(folded_place(8 * eighth, index, 0) == 6 * eighth - 1 - 2 * index);
    } else if slot == 1 {
        if index < eighth {
            assert(folded_place(8 * eighth, index, 1) == 6 * eighth + 2 * index);
        } else {
            assert(folded_place(8 * eighth, index, 1) == 2 * index - 2 * eighth);
        }
    } else if slot == 2 {
        assert(folded_place(8 * eighth, index, 2) == 2 * eighth + 2 * index);
    } else {
        if index < eighth {
            assert(folded_place(8 * eighth, index, 3) == 2 * eighth - 1 - 2 * index);
        } else {
            assert(folded_place(8 * eighth, index, 3) == 10 * eighth - 1 - 2 * index);
        }
    }
}

/// Unfolding sets every sample of a transform, and sets none of them twice.
pub proof fn unfolding_sets_every_sample_once(
    time_len: int,
    sample: int,
    first: (int, int),
    second: (int, int),
)
    requires
        is_time_len(time_len),
        0 <= sample < time_len,
        0 <= first.0 < time_len / 4,
        0 <= first.1 < 4,
        0 <= second.0 < time_len / 4,
        0 <= second.1 < 4,
    ensures
        0 <= unfolded(time_len, sample).0 < time_len / 4,
        folded_place(
            time_len,
            unfolded(time_len, sample).0,
            unfolded(time_len, sample).1,
        ) == sample,
        folded_place(time_len, first.0, first.1) == folded_place(time_len, second.0, second.1)
            ==> first == second,
{
    let eighth = time_len / 8;
    assert(time_len == 8 * eighth);
    lemma_place_of_sample(eighth, sample);
    lemma_sample_of_place(eighth, first.0, first.1);
    lemma_sample_of_place(eighth, second.0, second.1);
}

} // verus!
