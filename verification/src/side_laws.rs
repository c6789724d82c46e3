//! Writing the side information of a channel, and what reading does with it.
//!
//! Each writer puts the bits of one block in front of `rest`, which is what follows the block. Each
//! law holds wherever the block stands, and of every end behind it.

use crate::bit_writing::{
    digits, lemma_all, lemma_digits_len, lemma_flags, lemma_read_spells, lemma_strings, put, put_all,
    put_flag, put_flags, spells,
};
use crate::bitreader::{bit_at, bits, lemma_span_values, span};
use crate::bwe::{
    bwe_syntax_at, whitening_at, whitening_start, BweConfig, BweSideInfo, WhiteningLevel,
};
use crate::config::NeuralNetworkType;
use crate::core_side::{
    core_syntax_at, tns_code_at, tns_code_matches, tns_coefficients_at, tns_filter_at,
    CoreSidePrefix, TnsCode, TnsCodebook, TransformType,
};
use crate::error::CodecError;
use crate::group::{group_syntax_at, GroupSideInfo};
use crate::qc::{qc_syntax_at, QcSideInfo};
use vstd::prelude::*;

verus! {

/// The bits of a grouping of short blocks: whether there are two groups, and if so which block is in
/// the second.
pub open spec fn group_bits(groups: Option<Seq<bool>>, rest: Seq<bool>) -> Seq<bool> {
    match groups {
        Some(indicator) => put_flag(true, put_flags(indicator, rest)),
        None => put_flag(false, rest),
    }
}

/// A grouping is read as it was written. Where nothing says otherwise all blocks are in one group.
pub proof fn written_groupings_read_back(
    bytes: Seq<u8>,
    end: int,
    at: int,
    groups: Option<Seq<bool>>,
    rest: Seq<bool>,
    side: GroupSideInfo,
)
    requires
        groups matches Some(indicator) ==> indicator.len() == 8,
        spells(bytes, at, group_bits(groups, rest)),
        at + group_bits(groups, rest).len() - rest.len() <= end,
    ensures
        ({
            let syntax = group_syntax_at(bytes, end, at, TransformType::Short);
            &&& syntax is Ok
            &&& spells(bytes, syntax->Ok_0.end, rest)
            &&& syntax->Ok_0.end == at + group_bits(groups, rest).len() - rest.len()
            &&& side.matches(syntax->Ok_0) ==> {
                &&& side.num_groups == (if groups is Some {
                    2int
                } else {
                    1
                })
                &&& forall|i: int|
                    0 <= i < 8 ==> #[trigger] side.group_indicator@[i] == (groups is Some
                        && groups->0[i])
                &&& side.next_bit_offset == at + group_bits(groups, rest).len() - rest.len()
            }
        }),
{
    lemma_strings();
    if let Some(indicator) = groups {
        lemma_flags(bytes, at + 1, indicator, rest);
    }
}

/// Windows that are not short have one group and no bits for it.
pub proof fn long_windows_have_one_group(
    bytes: Seq<u8>,
    end: int,
    at: int,
    transform: TransformType,
    side: GroupSideInfo,
)
    requires
        !(transform is Short),
    ensures
        ({
            let syntax = group_syntax_at(bytes, end, at, transform);
            &&& syntax is Ok
            &&& side.matches(syntax->Ok_0) ==> {
                &&& side.num_groups == 1
                &&& forall|i: int| 0 <= i < 8 ==> !(#[trigger] side.group_indicator@[i])
                &&& side.next_bit_offset == at
            }
        }),
{
}

/// The bits of the whitening levels from `from` on.
pub open spec fn whitening_bits(levels: Seq<WhiteningLevel>, from: int, rest: Seq<bool>) -> Seq<bool>
    decreases levels.len() - from,
{
    if from >= levels.len() {
        rest
    } else {
        let later = whitening_bits(levels, from + 1, rest);
        match levels[from] {
            WhiteningLevel::Off => put_flag(false, later),
            WhiteningLevel::Mid => put_flag(true, put_flag(false, later)),
            WhiteningLevel::High => put_flag(true, put_flag(true, later)),
        }
    }
}

proof fn lemma_whitening(
    bytes: Seq<u8>,
    start: int,
    levels: Seq<WhiteningLevel>,
    index: int,
    rest: Seq<bool>,
)
    requires
        spells(bytes, start, whitening_bits(levels, 0, rest)),
        0 <= index <= levels.len(),
    ensures
        ({
            let here = whitening_start(bytes, start, index);
            &&& spells(bytes, here, whitening_bits(levels, index, rest))
            &&& here == start + whitening_bits(levels, 0, rest).len() - whitening_bits(
                levels,
                index,
                rest,
            ).len()
            &&& index < levels.len() ==> whitening_at(bytes, here) == levels[index]
        }),
    decreases index,
{
    lemma_strings();
    if index > 0 {
        lemma_whitening(bytes, start, levels, index - 1, rest);
    }
}

/// The bits of a bandwidth extension block: seven for each band, then the whitening of each tile.
pub open spec fn bwe_bits(
    envelope: Seq<u8>,
    levels: Seq<WhiteningLevel>,
    rest: Seq<bool>,
) -> Seq<bool> {
    put_all(envelope, 7, 0, whitening_bits(levels, 0, rest))
}

/// A bandwidth extension block is read as it was written, and is blank behind its last band and its
/// last tile.
pub proof fn written_extensions_read_back(
    bytes: Seq<u8>,
    end: int,
    at: int,
    config: BweConfig,
    envelope: Seq<u8>,
    levels: Seq<WhiteningLevel>,
    rest: Seq<bool>,
    side: BweSideInfo,
)
    requires
        envelope.len() == config.band_count <= 16,
        levels.len() == config.tile_count <= 8,
        forall|i: int| 0 <= i < envelope.len() ==> #[trigger] envelope[i] < 128,
        spells(bytes, at, bwe_bits(envelope, levels, rest)),
        at + bwe_bits(envelope, levels, rest).len() - rest.len() <= end,
    ensures
        ({
            let syntax = bwe_syntax_at(bytes, end, at, config);
            &&& syntax is Ok
            &&& spells(bytes, syntax->Ok_0.end, rest)
            &&& syntax->Ok_0.end == at + bwe_bits(envelope, levels, rest).len() - rest.len()
            &&& side.matches(syntax->Ok_0) ==> {
                &&& forall|i: int|
                    0 <= i < 16 ==> #[trigger] side.envelope_indices@[i] == if i < envelope.len() {
                        envelope[i]
                    } else {
                        0
                    }
                &&& forall|i: int|
                    0 <= i < 8 ==> #[trigger] side.whitening@[i] == if i < levels.len() {
                        levels[i]
                    } else {
                        WhiteningLevel::Off
                    }
                &&& side.next_bit_offset == at + bwe_bits(envelope, levels, rest).len()
                    - rest.len()
            }
        }),
{
    reveal(bwe_syntax_at);
    lemma_span_values();
    let tail = whitening_bits(levels, 0, rest);
    assert(at + 0 * 7 == at);
    lemma_all(bytes, at, envelope, 7, 0, tail);
    let start = at + 7 * config.band_count;
    lemma_whitening(bytes, start, levels, levels.len() as int, rest);
    assert forall|i: int| 0 <= i < levels.len() implies whitening_at(
        bytes,
        whitening_start(bytes, start, i),
    ) == #[trigger] levels[i] by {
        lemma_whitening(bytes, start, levels, i, rest);
    }
    lemma_whitening_len(levels, 0, rest);
    let syntax = bwe_syntax_at(bytes, end, at, config)->Ok_0;
    assert forall|i: int| 0 <= i < 16 implies #[trigger] syntax.envelope[i] == if i < envelope.len() {
        envelope[i]
    } else {
        0
    } by {
        if i < envelope.len() {
            assert(bits(bytes, at + i * 7, 7) == envelope[i]);
        }
    }
}

pub(crate) proof fn lemma_whitening_len(levels: Seq<WhiteningLevel>, from: int, rest: Seq<bool>)
    ensures
        whitening_bits(levels, from, rest).len() >= rest.len(),
    decreases levels.len() - from,
{
    lemma_strings();
    if from < levels.len() {
        lemma_whitening_len(levels, from + 1, rest);
    }
}

/// The scale of a quantisation and coding block, by network.
pub ghost enum WrittenScale {
    Basic { amplified: bool, scale: u8 },
    LowComplexity { scale: u8 },
}

/// The bits of a quantisation and coding block up to the range coded bytes: the scale, the noise of
/// each group, and how many bytes belong to the context.
pub open spec fn qc_bits(
    scale: WrittenScale,
    noise: Seq<u8>,
    context_bytes: int,
    rest: Seq<bool>,
) -> Seq<bool> {
    let tail = put_all(noise, 3, 0, put(context_bytes, 8, rest));
    match scale {
        WrittenScale::Basic { amplified, scale } => put_flag(amplified, put(scale as int, 7, tail)),
        WrittenScale::LowComplexity { scale } => put(scale as int, 8, tail),
    }
}

/// A quantisation and coding block is read as it was written, if the context leaves room for the
/// base; otherwise it is refused. The context bytes come first, and the base bytes right behind
/// them.
pub proof fn written_quantisation_reads_back(
    bytes: Seq<u8>,
    end: int,
    at: int,
    scale: WrittenScale,
    noise: Seq<u8>,
    context_bytes: int,
    channel_bytes: int,
    rest: Seq<bool>,
    side: QcSideInfo,
)
    requires
        noise.len() == 1 || noise.len() == 2,
        forall|i: int| 0 <= i < noise.len() ==> #[trigger] noise[i] < 8,
        scale matches WrittenScale::Basic { amplified, scale } ==> scale < 128,
        0 <= context_bytes < 256,
        0 <= channel_bytes,
        spells(bytes, at, qc_bits(scale, noise, context_bytes, rest)),
        at + 16 + 3 * noise.len() + 8 * channel_bytes <= end,
    ensures
        ({
            let network = if scale is Basic {
                NeuralNetworkType::Basic
            } else {
                NeuralNetworkType::LowComplexity
            };
            let syntax = qc_syntax_at(bytes, end, at, network, noise.len() as int, channel_bytes);
            let start = at + qc_bits(scale, noise, context_bytes, rest).len() - rest.len();
            if context_bytes > channel_bytes {
                syntax == Err::<crate::qc::QcSyntax, CodecError>(
                    CodecError::InvalidData("QC context bytes exceed the channel byte budget"),
                )
            } else {
                &&& syntax is Ok
                &&& spells(bytes, start, rest)
                &&& side.matches(syntax->Ok_0) ==> {
                    &&& side.is_feat_amplified == match scale {
                        WrittenScale::Basic { amplified, .. } => Some(amplified),
                        _ => None,
                    }
                    &&& side.scale_q_idx == match scale {
                        WrittenScale::Basic { scale, .. } => Some(scale),
                        _ => None,
                    }
                    &&& side.scale_q_idx_lc == match scale {
                        WrittenScale::LowComplexity { scale } => Some(scale),
                        _ => None,
                    }
                    &&& side.nf_param_q_idx@[0] == Some(noise[0])
                    &&& side.nf_param_q_idx@[1] == if noise.len() == 2 {
                        Some(noise[1])
                    } else {
                        None
                    }
                    &&& side.context_bitstream.bit_offset == start
                    &&& side.context_bitstream.bit_len == 8 * context_bytes
                    &&& side.base_bitstream.bit_offset == start + 8 * context_bytes
                    &&& side.base_bitstream.bit_offset + side.base_bitstream.bit_len
                        == side.next_bit_offset
                    &&& side.next_bit_offset == start + 8 * channel_bytes
                    &&& side.channel_bytes == channel_bytes
                }
            }
        }),
{
    reveal(qc_syntax_at);
    lemma_strings();
    lemma_span_values();
    let tail = put(context_bytes, 8, rest);
    assert(spells(bytes, at + 8, put_all(noise, 3, 0, tail)));
    assert(at + 8 + 0 * 3 == at + 8);
    lemma_all(bytes, at + 8, noise, 3, 0, tail);
    assert(bits(bytes, at + 8 + 0 * 3, 3) == noise[0]);
    if noise.len() == 2 {
        assert(bits(bytes, at + 8 + 1 * 3, 3) == noise[1]);
    }
}

/// Two codewords differ at a digit that both have.
pub open spec fn codes_differ(first: TnsCode, second: TnsCode) -> bool {
    exists|i: int|
        0 <= i < first.width && i < second.width && #[trigger] digits(
            first.code as nat,
            first.width as nat,
        )[i] != digits(second.code as nat, second.width as nat)[i]
}

/// No codeword of a table begins another, and each fits its width.
pub open spec fn table_is_prefix_free(codes: Seq<TnsCode>) -> bool {
    &&& forall|i: int|
        0 <= i < codes.len() ==> (#[trigger] codes[i]).width <= 32 && codes[i].code < span(
            codes[i].width as nat,
        )
    &&& forall|i: int, j: int|
        0 <= i < j < codes.len() ==> codes_differ(#[trigger] codes[i], #[trigger] codes[j])
}

proof fn lemma_code_found(
    codes: Seq<TnsCode>,
    from: int,
    pick: int,
    bytes: Seq<u8>,
    end: int,
    at: int,
    rest: Seq<bool>,
)
    requires
        table_is_prefix_free(codes),
        0 <= from <= pick < codes.len(),
        spells(bytes, at, put(codes[pick].code as int, codes[pick].width as int, rest)),
        at + codes[pick].width <= end,
        end <= 8 * bytes.len(),
    ensures
        tns_code_at(codes, from, bytes, end, at) == Ok::<TnsCode, CodecError>(codes[pick]),
        spells(bytes, at + codes[pick].width, rest),
    decreases pick - from,
{
    lemma_strings();
    let wanted = codes[pick];
    assert(bits(bytes, at, wanted.width as nat) == wanted.code);
    if from < pick {
        let other = codes[from];
        if tns_code_matches(other, bytes, end, at) {
            lemma_read_spells(bytes, at, other.width as nat);
            lemma_read_spells(bytes, at, wanted.width as nat);
            lemma_digits_len(other.code as nat, other.width as nat);
            lemma_digits_len(wanted.code as nat, wanted.width as nat);
            assert(codes_differ(other, wanted));
            let one = digits(other.code as nat, other.width as nat);
            let two = digits(wanted.code as nat, wanted.width as nat);
            let i = choose|i: int|
                0 <= i < other.width && i < wanted.width && #[trigger] one[i] != two[i];
            reveal(spells);
            assert(bit_at(bytes, at + i) == one[i]);
            assert(bit_at(bytes, at + i) == two[i]);
        }
        lemma_code_found(codes, from + 1, pick, bytes, end, at, rest);
    }
}

/// The codewords of the coefficients from position `from` on: `picks` says which one of its table
/// each of them has.
pub open spec fn coefficient_bits(
    codebook: TnsCodebook,
    picks: Seq<int>,
    from: int,
    rest: Seq<bool>,
) -> Seq<bool>
    decreases picks.len() - from,
{
    if from >= picks.len() {
        rest
    } else {
        let entry = codebook.table(from)[picks[from]];
        put(
            entry.code as int,
            entry.width as int,
            coefficient_bits(codebook, picks, from + 1, rest),
        )
    }
}

/// Each pick is one of its table, and the tables are prefix free.
pub open spec fn picks_fit(codebook: TnsCodebook, picks: Seq<int>) -> bool {
    &&& picks.len() <= 8
    &&& forall|i: int|
        0 <= i < picks.len() ==> 0 <= #[trigger] picks[i] < codebook.table(i).len()
            && table_is_prefix_free(codebook.table(i))
}

/// What the picks stand for.
pub open spec fn picked_values(codebook: TnsCodebook, picks: Seq<int>) -> Seq<u8> {
    Seq::new(picks.len(), |i: int| codebook.table(i)[picks[i]].value)
}

proof fn lemma_coefficients(
    codebook: TnsCodebook,
    picks: Seq<int>,
    from: int,
    bytes: Seq<u8>,
    end: int,
    at: int,
    rest: Seq<bool>,
)
    requires
        picks_fit(codebook, picks),
        0 <= from <= picks.len(),
        spells(bytes, at, coefficient_bits(codebook, picks, from, rest)),
        at + coefficient_bits(codebook, picks, from, rest).len() - rest.len() <= end,
        end <= 8 * bytes.len(),
    ensures
        ({
            let next = at + coefficient_bits(codebook, picks, from, rest).len() - rest.len();
            &&& at <= next
            &&& spells(bytes, next, rest)
            &&& tns_coefficients_at(codebook, from, picks.len() as int, bytes, end, at) == Ok::<
                (Seq<u8>, int),
                CodecError,
            >((picked_values(codebook, picks).skip(from), next))
        }),
    decreases picks.len() - from,
{
    let values = picked_values(codebook, picks);
    if from < picks.len() {
        let entry = codebook.table(from)[picks[from]];
        let later = coefficient_bits(codebook, picks, from + 1, rest);
        lemma_coefficients_len(codebook, picks, from + 1, rest);
        assert(coefficient_bits(codebook, picks, from, rest).len() == entry.width + later.len()) by {
            lemma_strings();
        }
        assert(0 <= picks[from] < codebook.table(from).len());
        lemma_code_found(codebook.table(from), 0, picks[from], bytes, end, at, later);
        lemma_coefficients(codebook, picks, from + 1, bytes, end, at + entry.width, rest);
        assert(seq![entry.value] + values.skip(from + 1) =~= values.skip(from));
    } else {
        assert(values.skip(from) =~= Seq::empty());
    }
}

proof fn lemma_coefficients_len(
    codebook: TnsCodebook,
    picks: Seq<int>,
    from: int,
    rest: Seq<bool>,
)
    ensures
        coefficient_bits(codebook, picks, from, rest).len() >= rest.len(),
    decreases picks.len() - from,
{
    lemma_strings();
    if from < picks.len() {
        lemma_coefficients_len(codebook, picks, from + 1, rest);
    }
}

/// The bits of a noise shaping filter: whether it is on, one less than its order, and its
/// coefficients. A filter without coefficients is off.
pub open spec fn filter_bits(codebook: TnsCodebook, picks: Seq<int>, rest: Seq<bool>) -> Seq<bool> {
    if picks.len() == 0 {
        put_flag(false, rest)
    } else {
        put_flag(
            true,
            put(picks.len() - 1, 3, coefficient_bits(codebook, picks, 0, rest)),
        )
    }
}

proof fn lemma_filter(
    codebook: TnsCodebook,
    picks: Seq<int>,
    bytes: Seq<u8>,
    end: int,
    at: int,
    rest: Seq<bool>,
)
    requires
        picks_fit(codebook, picks),
        spells(bytes, at, filter_bits(codebook, picks, rest)),
        at + filter_bits(codebook, picks, rest).len() - rest.len() <= end,
        end <= 8 * bytes.len(),
    ensures
        ({
            let next = at + filter_bits(codebook, picks, rest).len() - rest.len();
            &&& at < next
            &&& spells(bytes, next, rest)
            &&& tns_filter_at(codebook, bytes, end, at) == Ok::<(Seq<u8>, int), CodecError>(
                (picked_values(codebook, picks), next),
            )
        }),
{
    assert(picked_values(codebook, picks).skip(0) =~= picked_values(codebook, picks));
    if picks.len() == 0 {
        lemma_strings();
        assert(picked_values(codebook, picks) =~= Seq::empty());
    } else {
        let tail = coefficient_bits(codebook, picks, 0, rest);
        lemma_coefficients_len(codebook, picks, 0, rest);
        assert(bit_at(bytes, at) && bits(bytes, at + 1, 3) == picks.len() - 1 && spells(
            bytes,
            at + 4,
            tail,
        ) && filter_bits(codebook, picks, rest).len() == 4 + tail.len()) by {
            lemma_strings();
            lemma_span_values();
        }
        lemma_coefficients(codebook, picks, 0, bytes, end, at + 4, rest);
    }
}

/// The code of a window sequence.
pub open spec fn transform_code(transform: TransformType) -> int {
    match transform {
        TransformType::Long => 0,
        TransformType::Short => 1,
        TransformType::CutIn => 2,
        TransformType::CutOut => 3,
    }
}

/// The bits of the envelope: five indexes of eight, eight, seven, seven and six bits, and in high
/// precision two of five more.
pub open spec fn envelope_bits(indexes: Seq<u8>, rest: Seq<bool>) -> Seq<bool> {
    let tail = if indexes.len() == 7 {
        put(indexes[5] as int, 5, put(indexes[6] as int, 5, rest))
    } else {
        rest
    };
    put(
        indexes[0] as int,
        8,
        put(
            indexes[1] as int,
            8,
            put(
                indexes[2] as int,
                7,
                put(indexes[3] as int, 7, put(indexes[4] as int, 6, tail)),
            ),
        ),
    )
}

/// The indexes of an envelope fit their fields, in low precision or in high.
pub open spec fn envelope_fits(indexes: Seq<u8>, low_precision: bool) -> bool {
    &&& indexes.len() == (if low_precision {
        5int
    } else {
        7
    })
    &&& indexes[2] < 128 && indexes[3] < 128 && indexes[4] < 64
    &&& !low_precision ==> indexes[5] < 32 && indexes[6] < 32
}

/// The bits of a core side block: the window, the envelope and the two filters.
pub open spec fn core_bits(
    codebook: TnsCodebook,
    transform: TransformType,
    envelope: Seq<u8>,
    first: Seq<int>,
    second: Seq<int>,
    rest: Seq<bool>,
) -> Seq<bool> {
    put(
        transform_code(transform),
        2,
        envelope_bits(
            envelope,
            filter_bits(codebook, first, filter_bits(codebook, second, rest)),
        ),
    )
}

pub(crate) proof fn lemma_filter_len(codebook: TnsCodebook, picks: Seq<int>, rest: Seq<bool>)
    ensures
        filter_bits(codebook, picks, rest).len() > rest.len(),
{
    lemma_strings();
    lemma_coefficients_len(codebook, picks, 0, rest);
}

/// A core side block is read as it was written.
pub proof fn written_core_blocks_read_back(
    codebook: TnsCodebook,
    bytes: Seq<u8>,
    end: int,
    at: int,
    transform: TransformType,
    envelope: Seq<u8>,
    low_precision: bool,
    first: Seq<int>,
    second: Seq<int>,
    rest: Seq<bool>,
    side: CoreSidePrefix,
)
    requires
        envelope_fits(envelope, low_precision),
        picks_fit(codebook, first),
        picks_fit(codebook, second),
        spells(bytes, at, core_bits(codebook, transform, envelope, first, second, rest)),
        at + core_bits(codebook, transform, envelope, first, second, rest).len() - rest.len()
            <= end,
        end <= 8 * bytes.len(),
    ensures
        ({
            let syntax = core_syntax_at(codebook, bytes, end, at, low_precision);
            let next = at + core_bits(codebook, transform, envelope, first, second, rest).len()
                - rest.len();
            &&& syntax is Ok
            &&& spells(bytes, syntax->Ok_0.end, rest)
            &&& syntax->Ok_0.end == next
            &&& syntax->Ok_0.transform == transform
            &&& side.matches(syntax->Ok_0) ==> {
                &&& side.transform_type == transform
                &&& side.fd_shaping.low_bitrate_precision == low_precision
                &&& forall|i: int|
                    0 <= i < 7 ==> #[trigger] side.fd_shaping.lsf_vq_indices@[i] == if i
                        < envelope.len() {
                        Some(envelope[i])
                    } else {
                        None
                    }
                &&& side.tns.filters@[0].order == first.len()
                &&& side.tns.filters@[1].order == second.len()
                &&& forall|i: int|
                    0 <= i < 8 ==> #[trigger] side.tns.filters@[0].coefficient_indices@[i] == if i
                        < first.len() {
                        codebook.table(i)[first[i]].value
                    } else {
                        0
                    }
                &&& forall|i: int|
                    0 <= i < 8 ==> #[trigger] side.tns.filters@[1].coefficient_indices@[i] == if i
                        < second.len() {
                        codebook.table(i)[second[i]].value
                    } else {
                        0
                    }
                &&& side.next_bit_offset == next
            }
        }),
{
    reveal(core_syntax_at);
    let last = filter_bits(codebook, second, rest);
    let filters = filter_bits(codebook, first, last);
    let size = if low_precision {
        38int
    } else {
        48
    };
    lemma_filter_len(codebook, second, rest);
    lemma_filter_len(codebook, first, last);
    lemma_core_front(bytes, at, transform, envelope, low_precision, filters);
    lemma_filter(codebook, first, bytes, end, at + size, last);
    lemma_filter(
        codebook,
        second,
        bytes,
        end,
        at + size + filters.len() - last.len(),
        rest,
    );
    if side.matches(core_syntax_at(codebook, bytes, end, at, low_precision)->Ok_0) {
        assert(side.tns.filters[0] == side.tns.filters@[0]);
        assert(side.tns.filters[1] == side.tns.filters@[1]);
        assert forall|i: int| 0 <= i < 8 implies #[trigger] side.tns.filters@[0].coefficient_indices@[i]
            == if i < first.len() {
            codebook.table(i)[first[i]].value
        } else {
            0
        } by {
            assert(side.tns.filters[0].coefficient_indices[i]
                == side.tns.filters@[0].coefficient_indices@[i]);
        }
        assert forall|i: int| 0 <= i < 8 implies #[trigger] side.tns.filters@[1].coefficient_indices@[i]
            == if i < second.len() {
            codebook.table(i)[second[i]].value
        } else {
            0
        } by {
            assert(side.tns.filters[1].coefficient_indices[i]
                == side.tns.filters@[1].coefficient_indices@[i]);
        }
    }
}

proof fn lemma_core_front(
    bytes: Seq<u8>,
    at: int,
    transform: TransformType,
    envelope: Seq<u8>,
    low_precision: bool,
    rest: Seq<bool>,
)
    requires
        envelope_fits(envelope, low_precision),
        spells(bytes, at, put(transform_code(transform), 2, envelope_bits(envelope, rest))),
    ensures
        TransformType::of_code(bits(bytes, at, 2) as int) == transform,
        ({
            let size = if low_precision {
                38int
            } else {
                48
            };
            let found = crate::core_side::lsf_indices(bytes, at + 2, low_precision);
            &&& spells(bytes, at + size, rest)
            &&& put(transform_code(transform), 2, envelope_bits(envelope, rest)).len() == size
                + rest.len()
            &&& forall|i: int|
                0 <= i < 7 ==> #[trigger] found[i] == if i < envelope.len() {
                    Some(envelope[i])
                } else {
                    None
                }
        }),
{
    lemma_strings();
    lemma_span_values();
}

} // verus!
