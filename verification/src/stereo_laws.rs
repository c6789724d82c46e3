//! Writing the coupling of two channels, how their bytes are divided, and what reading does with
//! both.

use crate::bit_writing::{lemma_all, lemma_strings, put, put_all, put_flag, spells};
use crate::bitreader::{bits, lemma_span_values, span};
use crate::config::NeuralNetworkType;
use crate::core_side::TransformType;
use crate::engine::stereo_side::{
    engine_tail_at, left_bytes, stereo_mode_at, McrSideInfo, ParsedNeuralQc,
    StereoSideInfo as EngineStereo,
};
use crate::error::CodecError;
use crate::ga_stereo::{
    coupling_at, stereo_tail_at, CouplingSyntax, StereoCouplingSideInfo, StereoSideInfo,
};
use crate::qc::{qc_syntax_at, QcSyntax};
use vstd::prelude::*;

verus! {

/// The bits of a coupling with two coded channels: whether they are sum and difference, the level
/// difference if they are, and the byte split.
pub open spec fn mode_bits(level: Option<u8>, ratio: u8, rest: Seq<bool>) -> Seq<bool> {
    match level {
        Some(level) => put_flag(true, put(level as int, 4, put(ratio as int, 3, rest))),
        None => put_flag(false, put(ratio as int, 3, rest)),
    }
}

/// The coupling of two coded channels is read as it was written. A level difference of zero is
/// refused.
pub proof fn written_couplings_read_back(
    bytes: Seq<u8>,
    end: int,
    at: int,
    bitrate: int,
    transform: TransformType,
    level: Option<u8>,
    ratio: u8,
    rest: Seq<bool>,
    side: StereoSideInfo,
)
    requires
        bitrate > 32,
        level matches Some(level) ==> level < 16,
        ratio < 8,
        spells(bytes, at, mode_bits(level, ratio, rest)),
        at + mode_bits(level, ratio, rest).len() - rest.len() <= end,
    ensures
        ({
            let syntax = coupling_at(bytes, end, at, bitrate, transform);
            let next = at + mode_bits(level, ratio, rest).len() - rest.len();
            if level == Some(0u8) {
                syntax == Err::<CouplingSyntax, CodecError>(
                    CodecError::InvalidData(
                        "stereo ILD index zero would make inverse ILD undefined",
                    ),
                )
            } else {
                &&& syntax is Ok
                &&& spells(bytes, next, rest)
                &&& side.matches(syntax->Ok_0) ==> side.coupling == (StereoCouplingSideInfo::Ms {
                    is_ms: level is Some,
                    ild_q_idx: level,
                    bits_ratio: ratio,
                }) && side.next_bit_offset == next
            }
        }),
{
    lemma_strings();
    lemma_span_values();
}

/// The engine reads the coupling of two coded channels as it was written.
pub proof fn written_modes_read_back(
    bytes: Seq<u8>,
    end: int,
    at: int,
    level: Option<u8>,
    ratio: u8,
    rest: Seq<bool>,
    side: EngineStereo,
)
    requires
        level matches Some(level) ==> level < 16,
        ratio < 8,
        spells(bytes, at, mode_bits(level, ratio, rest)),
        at + mode_bits(level, ratio, rest).len() - rest.len() <= end,
    ensures
        ({
            let syntax = stereo_mode_at(bytes, end, at);
            &&& syntax is Ok
            &&& syntax->Ok_0.end == at + mode_bits(level, ratio, rest).len() - rest.len()
            &&& spells(bytes, syntax->Ok_0.end, rest)
            &&& side.matches(syntax->Ok_0) ==> side.is_mid_side() == (level is Some) && side.level()
                == level && side.ratio() == ratio
        }),
{
    lemma_strings();
    lemma_span_values();
}

/// The bits of the vectors from `from` on, the even and the odd one in turn.
pub open spec fn vectors_bits(
    even: Seq<u16>,
    odd: Seq<u16>,
    width: int,
    from: int,
    rest: Seq<bool>,
) -> Seq<bool>
    decreases even.len() - from,
{
    if from >= even.len() {
        rest
    } else {
        put(
            even[from] as int,
            width,
            put(odd[from] as int, width, vectors_bits(even, odd, width, from + 1, rest)),
        )
    }
}

proof fn lemma_vectors(
    bytes: Seq<u8>,
    at: int,
    even: Seq<u16>,
    odd: Seq<u16>,
    width: int,
    from: int,
    rest: Seq<bool>,
)
    requires
        0 <= width,
        even.len() == odd.len(),
        0 <= from <= even.len(),
        forall|i: int|
            0 <= i < even.len() ==> #[trigger] even[i] < span(width as nat) && odd[i] < span(
                width as nat,
            ),
        spells(bytes, at + 2 * from * width, vectors_bits(even, odd, width, from, rest)),
    ensures
        forall|i: int|
            from <= i < even.len() ==> bits(bytes, at + 2 * i * width, width as nat)
                == #[trigger] even[i] && bits(bytes, at + 2 * i * width + width, width as nat)
                == odd[i],
        spells(bytes, at + 2 * even.len() * width, rest),
        vectors_bits(even, odd, width, from, rest).len() == 2 * (even.len() - from) * width
            + rest.len(),
    decreases even.len() - from,
{
    if from < even.len() {
        lemma_strings();
        assert(even[from] < span(width as nat) && odd[from] < span(width as nat));
        assert(2 * (from + 1) * width == 2 * from * width + width + width) by (nonlinear_arith);
        lemma_vectors(bytes, at, even, odd, width, from + 1, rest);
        assert(2 * (even.len() - from) * width == 2 * (even.len() - (from + 1)) * width + width
            + width) by (nonlinear_arith);
    } else {
        assert(2 * 0 * width == 0) by (nonlinear_arith);
    }
}

/// The vectors of a frame with one coded channel are read as they were written: nine bits each, or
/// eight in short windows, the even and the odd ones in turn.
pub proof fn written_rotations_read_back(
    bytes: Seq<u8>,
    end: int,
    at: int,
    bitrate: int,
    transform: TransformType,
    even: Seq<u16>,
    odd: Seq<u16>,
    rest: Seq<bool>,
    side: StereoSideInfo,
    engine_side: McrSideInfo,
)
    requires
        bitrate <= 32,
        even.len() == 6,
        odd.len() == 6,
        forall|i: int|
            0 <= i < 6 ==> #[trigger] even[i] < (if transform is Short {
                256
            } else {
                512int
            }) && odd[i] < (if transform is Short {
                256
            } else {
                512int
            }),
        spells(
            bytes,
            at,
            vectors_bits(
                even,
                odd,
                if transform is Short {
                    8
                } else {
                    9
                },
                0,
                rest,
            ),
        ),
        at + (if transform is Short {
            96int
        } else {
            108
        }) <= end,
    ensures
        ({
            let width = if transform is Short {
                8int
            } else {
                9
            };
            let syntax = coupling_at(bytes, end, at, bitrate, transform);
            &&& syntax is Ok
            &&& spells(bytes, at + 12 * width, rest)
            &&& side.matches(syntax->Ok_0) ==> {
                &&& side.next_bit_offset == at + 12 * width
                &&& side.coupling matches StereoCouplingSideInfo::Mcr {
                    is_short_window,
                    vq_bits,
                    even_vq_indices,
                    odd_vq_indices,
                } && is_short_window == (transform is Short) && vq_bits == width
                    && even_vq_indices@ == even && odd_vq_indices@ == odd
            }
            &&& engine_side.is_at(bytes, at, transform is Short) ==> {
                &&& engine_side.is_short() == (transform is Short)
                &&& engine_side.half(0) == even
                &&& engine_side.half(1) == odd
            }
        }),
{
    lemma_span_values();
    let width = if transform is Short {
        8int
    } else {
        9
    };
    assert(at + 2 * 0 * width == at) by (nonlinear_arith);
    lemma_vectors(bytes, at, even, odd, width, 0, rest);
    assert(2 * 6 * width == 12 * width) by (nonlinear_arith);
    let low = Seq::new(6, |i: int| bits(bytes, at + 2 * i * width as nat, width as nat) as u16);
    let high = Seq::new(
        6,
        |i: int| bits(bytes, at + 2 * i * width as nat + width as nat, width as nat) as u16,
    );
    assert(low =~= even);
    assert(high =~= odd) by {
        assert forall|i: int| 0 <= i < 6 implies high[i] == #[trigger] odd[i] by {
            assert(even[i] == low[i]);
        }
    }
    if let Ok(CouplingSyntax::Mcr { is_short, vq_bits, even: first, odd: second, end: _ }) =
        coupling_at(bytes, end, at, bitrate, transform) {
        assert(first =~= low);
        assert(second =~= high);
    }
    if engine_side.is_at(bytes, at, transform is Short) {
        assert(engine_side.half(0) =~= low);
        assert(engine_side.half(1) =~= high);
    }
}

/// The bytes of a stereo frame are divided in eighths: the first channel gets as many of them as the
/// ratio says, where an eighth is rounded down to whole bytes, and the second channel all the rest.
/// The block of the second channel starts where that of the first ends.
pub proof fn stereo_bytes_are_split_in_eighths(
    bytes: Seq<u8>,
    end: int,
    start: int,
    nn_type: NeuralNetworkType,
    first_groups: int,
    second_groups: int,
    ratio: int,
)
    requires
        0 <= ratio,
    ensures
        stereo_tail_at(
            bytes,
            end,
            start,
            nn_type,
            first_groups,
            second_groups,
            ratio,
        ) matches Ok(tail) ==> {
            let (first, second) = tail.bytes;
            let total = first + second;
            let eighth = total / 8;
            &&& 32 + 3 * (first_groups + second_groups) + 8 * total + tail.trailing_bits == end
                - start
            &&& 0 <= tail.trailing_bits < 8
            &&& first == ratio * eighth
            &&& 0 <= second
            &&& tail.qcs.0.channel_bytes == first
            &&& tail.qcs.1.channel_bytes == second
            &&& tail.qcs.0.context_start == start + 16 + 3 * first_groups
            &&& tail.qcs.1.context_start == start + 32 + 3 * (first_groups + second_groups) + 8
                * first
            &&& tail.qcs.1.end == end - tail.trailing_bits
        },
{
    reveal(qc_syntax_at);
    if let Ok(tail) = stereo_tail_at(
        bytes,
        end,
        start,
        nn_type,
        first_groups,
        second_groups,
        ratio,
    ) {
        let total = tail.bytes.0 + tail.bytes.1;
        assert(ratio * (total / 8) <= total) by (nonlinear_arith)
            requires
                0 <= ratio < 8,
                0 <= total,
        ;
    }
}

/// The engine divides the bytes of a stereo frame in the same way.
pub proof fn engine_bytes_are_split_in_eighths(
    bytes: Seq<u8>,
    end: int,
    start: int,
    nn_type: NeuralNetworkType,
    left_groups: int,
    right_groups: int,
    ratio: int,
)
    requires
        0 <= ratio < 8,
    ensures
        engine_tail_at(
            bytes,
            end,
            start,
            nn_type,
            left_groups,
            right_groups,
            ratio,
        ) matches Ok((left, right, left_qc, right_qc)) ==> {
            let total = left + right;
            &&& 0 <= end - start - (32 + 3 * (left_groups + right_groups) + 8 * total) < 8
            &&& left == ratio * (total / 8)
            &&& 0 <= right <= 1024
            &&& left <= 1024
            &&& left_qc.channel_bytes == left
            &&& right_qc.channel_bytes == right
            &&& left_qc.context_start == start + 16 + 3 * left_groups
            &&& right_qc.context_start == start + 32 + 3 * (left_groups + right_groups) + 8 * left
        },
{
    reveal(qc_syntax_at);
    if let Ok((left, right, _, _)) = engine_tail_at(
        bytes,
        end,
        start,
        nn_type,
        left_groups,
        right_groups,
        ratio,
    ) {
        let total = left + right;
        assert(ratio * (total / 8) <= total) by (nonlinear_arith)
            requires
                0 <= ratio < 8,
                0 <= total,
        ;
    }
}

/// A split given as a number of bits: the left channel never gets more than the ratio says, and
/// misses it by less than a byte for each eighth.
pub proof fn the_left_channel_gets_its_eighths(available_bits: int, ratio: int)
    requires
        0 <= available_bits,
        0 <= ratio < 8,
    ensures
        ({
            let total = available_bits / 8;
            let left = left_bytes(available_bits, ratio);
            &&& 8 * left <= ratio * total
            &&& ratio * total <= 8 * left + 7 * ratio
            &&& 0 <= left <= total
        }),
{
    let total = available_bits / 8;
    let eighth = total / 8;
    assert(8 * (ratio * eighth) <= ratio * total && ratio * total <= 8 * (ratio * eighth) + 7
        * ratio && 0 <= ratio * eighth <= total) by (nonlinear_arith)
        requires
            0 <= ratio < 8,
            0 <= total,
            8 * eighth <= total <= 8 * eighth + 7,
            0 <= eighth,
    ;
}

/// The range coded bytes of a channel are handed on as they were written, wherever the block
/// starts: the context first, then the base.
pub proof fn written_streams_are_handed_on(
    bytes: Seq<u8>,
    syntax: QcSyntax,
    parsed: ParsedNeuralQc,
    context: Seq<u8>,
    base: Seq<u8>,
    rest: Seq<bool>,
)
    requires
        parsed.matches(bytes, syntax),
        context.len() == syntax.context_bytes,
        context.len() + base.len() == syntax.channel_bytes,
        spells(bytes, syntax.context_start, put_all(context, 8, 0, put_all(base, 8, 0, rest))),
    ensures
        parsed.context@ == context,
        parsed.base@ == base,
{
    lemma_span_values();
    let at = syntax.context_start;
    assert(at + 0 * 8 == at);
    lemma_all(bytes, at, context, 8, 0, put_all(base, 8, 0, rest));
    let next = at + 8 * context.len();
    assert(next + 0 * 8 == next);
    lemma_all(bytes, next, base, 8, 0, rest);
    assert forall|i: int| 0 <= i < context.len() implies parsed.context@[i]
        == #[trigger] context[i] by {
        assert(bits(bytes, at + i * 8, 8) == context[i]);
    }
    assert forall|i: int| 0 <= i < base.len() implies parsed.base@[i] == #[trigger] base[i] by {
        assert(bits(bytes, next + i * 8, 8) == base[i]);
    }
    assert(parsed.context@ =~= context);
    assert(parsed.base@ =~= base);
}

} // verus!
