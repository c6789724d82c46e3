//! Writing the side information of an ambisonic frame, and what reading does with it.
//!
//! Each writer puts the bits of one block in front of `rest`, which is what follows the block.

use crate::bit_writing::{lemma_all, lemma_flags, lemma_strings, put, put_all, put_flag, put_flags, spells};
use crate::bitreader::{bit_at, bits, lemma_span_values, span};
use crate::error::CodecError;
use crate::hoa_side::{hoa_pairs_are_numbered_once, pair_count, HoaConfig, HoaGroupConfig};
use crate::hoa_syntax::{
    hoa_basis_at, hoa_group_at, hoa_groups_at, hoa_levels_at, hoa_pair_at, hoa_pairs_at,
    hoa_syntax_at, vector_count_at, HoaDmxMode, HoaGroupSideInfo, HoaGroupSyntax, HoaSideInfo,
    PairSyntax,
};
use vstd::prelude::*;

verus! {

/// A pair of channels to be written; without a mask it is coupled in every band.
pub ghost struct WrittenPair {
    pub first: int,
    pub second: int,
    pub mask: Option<Seq<bool>>,
}

/// The number of a pair: pairs are counted by their second channel, then by their first.
pub open spec fn pair_number(first: int, second: int) -> int {
    second * (second - 1) / 2 + first
}

/// The bits of a pair: its number, whether it has a mask, and the mask.
pub open spec fn pair_bits(pair: WrittenPair, width: int, rest: Seq<bool>) -> Seq<bool> {
    let mask = match pair.mask {
        Some(mask) => put_flag(true, put_flags(mask, rest)),
        None => put_flag(false, rest),
    };
    put(pair_number(pair.first, pair.second), width, mask)
}

/// A pair is one of the channels of a group, and a mask has a bit for each of twenty-one bands.
pub open spec fn pair_fits(pair: WrittenPair, channels: int) -> bool {
    &&& 0 <= pair.first < pair.second < channels
    &&& pair.mask matches Some(mask) ==> mask.len() == 21
}

/// What is read of a pair.
pub open spec fn pair_read(pair: WrittenPair, end: int) -> PairSyntax {
    PairSyntax {
        index: pair_number(pair.first, pair.second),
        mode: if pair.mask is Some {
            HoaDmxMode::ScaleFactorBand
        } else {
            HoaDmxMode::FullBand
        },
        mask: match pair.mask {
            Some(mask) => mask,
            None => Seq::new(21, |i: int| true),
        },
        end,
    }
}

/// A group whose pair numbers fit their field.
pub open spec fn group_fits(group: HoaGroupConfig) -> bool {
    &&& group.channels >= 2
    &&& group.pair_index_bits <= 15
    &&& pair_count(group.channels as int) <= span(group.pair_index_bits as nat)
}

proof fn lemma_pair_number(first: int, second: int, channels: int)
    requires
        0 <= first < second < channels <= 255,
    ensures
        0 <= pair_number(first, second) < pair_count(channels),
        pair_count(channels) < 0x1_0000,
{
    assert(second * (second - 1) >= 0) by (nonlinear_arith)
        requires
            second >= 1,
    ;
    assert((second + 1) * second == second * (second - 1) + 2 * second) by (nonlinear_arith);
    assert((second + 1) * second <= channels * (channels - 1)) by (nonlinear_arith)
        requires
            0 <= second,
            second + 1 <= channels,
    ;
    assert(channels * (channels - 1) <= 255 * 254) by (nonlinear_arith)
        requires
            0 <= channels <= 255,
    ;
}

proof fn lemma_pair(
    bytes: Seq<u8>,
    end: int,
    at: int,
    group: HoaGroupConfig,
    pair: WrittenPair,
    rest: Seq<bool>,
)
    requires
        group_fits(group),
        pair_fits(pair, group.channels as int),
        spells(bytes, at, pair_bits(pair, group.pair_index_bits as int, rest)),
        at + pair_bits(pair, group.pair_index_bits as int, rest).len() - rest.len() <= end,
    ensures
        ({
            let next = at + pair_bits(pair, group.pair_index_bits as int, rest).len() - rest.len();
            &&& at <= next
            &&& spells(bytes, next, rest)
            &&& hoa_pair_at(bytes, end, at, group) == Ok::<PairSyntax, CodecError>(
                pair_read(pair, next),
            )
        }),
{
    lemma_strings();
    lemma_pair_number(pair.first, pair.second, group.channels as int);
    let width = group.pair_index_bits as int;
    assert(bits(bytes, at, width as nat) == pair_number(pair.first, pair.second));
    if let Some(mask) = pair.mask {
        lemma_flags(bytes, at + width + 1, mask, rest);
        let found = hoa_pair_at(bytes, end, at, group)->Ok_0;
        assert(found.mask =~= mask);
    }
}

/// The bits of the pairs from `from` on.
pub open spec fn pairs_bits(
    pairs: Seq<WrittenPair>,
    width: int,
    from: int,
    rest: Seq<bool>,
) -> Seq<bool>
    decreases pairs.len() - from,
{
    if from >= pairs.len() {
        rest
    } else {
        pair_bits(pairs[from], width, pairs_bits(pairs, width, from + 1, rest))
    }
}

proof fn lemma_pairs_len(pairs: Seq<WrittenPair>, width: int, from: int, rest: Seq<bool>)
    requires
        0 <= width,
    ensures
        pairs_bits(pairs, width, from, rest).len() >= rest.len(),
    decreases pairs.len() - from,
{
    if from < pairs.len() {
        lemma_pairs_len(pairs, width, from + 1, rest);
        lemma_strings();
        reveal(put_flags);
    }
}

/// What is read of the pairs is what was written, but for where each of them ends.
pub open spec fn pairs_are_read(found: Seq<PairSyntax>, pairs: Seq<WrittenPair>, from: int) -> bool {
    &&& found.len() == pairs.len() - from
    &&& forall|i: int|
        from <= i < pairs.len() ==> found[i - from] == pair_read(
            #[trigger] pairs[i],
            found[i - from].end,
        )
}

proof fn lemma_pairs(
    bytes: Seq<u8>,
    end: int,
    at: int,
    group: HoaGroupConfig,
    pairs: Seq<WrittenPair>,
    from: int,
    rest: Seq<bool>,
)
    requires
        group_fits(group),
        forall|i: int|
            0 <= i < pairs.len() ==> pair_fits(#[trigger] pairs[i], group.channels as int),
        0 <= from <= pairs.len(),
        spells(bytes, at, pairs_bits(pairs, group.pair_index_bits as int, from, rest)),
        at + pairs_bits(pairs, group.pair_index_bits as int, from, rest).len() - rest.len() <= end,
    ensures
        ({
            let next = at + pairs_bits(pairs, group.pair_index_bits as int, from, rest).len()
                - rest.len();
            let found = hoa_pairs_at(bytes, end, at, group, pairs.len() - from);
            &&& spells(bytes, next, rest)
            &&& found is Ok
            &&& found->Ok_0.1 == next
            &&& pairs_are_read(found->Ok_0.0, pairs, from)
        }),
    decreases pairs.len() - from,
{
    if from < pairs.len() {
        let width = group.pair_index_bits as int;
        let later = pairs_bits(pairs, width, from + 1, rest);
        lemma_pairs_len(pairs, width, from + 1, rest);
        lemma_pair(bytes, end, at, group, pairs[from], later);
        let next = at + pairs_bits(pairs, width, from, rest).len() - later.len();
        lemma_pairs(bytes, end, next, group, pairs, from + 1, rest);
        let tail = hoa_pairs_at(bytes, end, next, group, pairs.len() - (from + 1))->Ok_0.0;
        let found = hoa_pairs_at(bytes, end, at, group, pairs.len() - from)->Ok_0.0;
        assert(found =~= seq![pair_read(pairs[from], next)] + tail);
        assert forall|i: int| from <= i < pairs.len() implies found[i - from] == pair_read(
            #[trigger] pairs[i],
            found[i - from].end,
        ) by {
            if i > from {
                assert(found[i - from] == tail[i - (from + 1)]);
            }
        }
    }
}

/// The code of a level; thirty says that there is none.
pub open spec fn level_code(level: Option<u8>) -> u8 {
    match level {
        Some(level) => level,
        None => 30,
    }
}

proof fn lemma_levels(
    bytes: Seq<u8>,
    end: int,
    at: int,
    levels: Seq<Option<u8>>,
    from: int,
    rest: Seq<bool>,
)
    requires
        forall|i: int|
            0 <= i < levels.len() ==> (#[trigger] levels[i] matches Some(level) ==> level < 30),
        0 <= from <= levels.len(),
        spells(
            bytes,
            at,
            put_all(levels.map_values(|level: Option<u8>| level_code(level)), 5, from, rest),
        ),
        at + 5 * (levels.len() - from) <= end,
    ensures
        hoa_levels_at(bytes, end, at, levels.len() - from) == Ok::<Seq<Option<u8>>, CodecError>(
            levels.skip(from),
        ),
        spells(bytes, at + 5 * (levels.len() - from), rest),
        put_all(levels.map_values(|level: Option<u8>| level_code(level)), 5, from, rest).len() == 5
            * (levels.len() - from) + rest.len(),
    decreases levels.len() - from,
{
    let codes = levels.map_values(|level: Option<u8>| level_code(level));
    if from < levels.len() {
        lemma_strings();
        lemma_span_values();
        assert(levels[from] matches Some(level) ==> level < 30);
        assert(codes[from] == level_code(levels[from]));
        lemma_levels(bytes, end, at + 5, levels, from + 1, rest);
        assert(seq![levels[from]] + levels.skip(from + 1) =~= levels.skip(from));
    } else {
        assert(levels.skip(from) =~= Seq::empty());
    }
}

/// A group to be written.
pub ghost struct WrittenHoaGroup {
    pub pairs: Seq<WrittenPair>,
    pub levels: Seq<Option<u8>>,
    pub ratio: u8,
    pub channel_ratios: Seq<u8>,
}

/// The bits of a group: how many pairs it has, the pairs, the level of each channel where there is
/// any pair, the ratio of the group, and the ratio of each channel.
pub open spec fn hoa_group_bits(group: WrittenHoaGroup, width: int, rest: Seq<bool>) -> Seq<bool> {
    let ratios = put(group.ratio as int, 4, put_all(group.channel_ratios, 4, 0, rest));
    let levels = if group.pairs.len() > 0 {
        put_all(group.levels.map_values(|level: Option<u8>| level_code(level)), 5, 0, ratios)
    } else {
        ratios
    };
    put(group.pairs.len() as int, 4, pairs_bits(group.pairs, width, 0, levels))
}

/// The parts of a group fit its configuration: at most eight pairs, a level and a ratio for each
/// channel, and no levels where nothing is coupled.
pub open spec fn hoa_group_fits(group: WrittenHoaGroup, config: HoaGroupConfig) -> bool {
    &&& group.pairs.len() <= 8
    &&& forall|i: int|
        0 <= i < group.pairs.len() ==> pair_fits(
            #[trigger] group.pairs[i],
            config.channels as int,
        )
    &&& group.levels.len() == config.channels
    &&& forall|i: int|
        0 <= i < group.levels.len() ==> (#[trigger] group.levels[i] matches Some(level) ==> level
            < 30 && group.pairs.len() > 0)
    &&& group.ratio < 16
    &&& group.channel_ratios.len() == config.channels
    &&& forall|i: int|
        0 <= i < group.channel_ratios.len() ==> #[trigger] group.channel_ratios[i] < 16
}

/// What is read of a group is what was written.
pub open spec fn hoa_group_is_read(found: HoaGroupSyntax, group: WrittenHoaGroup) -> bool {
    &&& pairs_are_read(found.pairs, group.pairs, 0)
    &&& found.levels == group.levels
    &&& found.group_ratio == group.ratio
    &&& found.channel_ratios == group.channel_ratios
}

#[verifier::rlimit(40)]
proof fn lemma_hoa_group(
    bytes: Seq<u8>,
    end: int,
    at: int,
    config: HoaGroupConfig,
    group: WrittenHoaGroup,
    rest: Seq<bool>,
)
    requires
        group_fits(config),
        hoa_group_fits(group, config),
        spells(bytes, at, hoa_group_bits(group, config.pair_index_bits as int, rest)),
        at + hoa_group_bits(group, config.pair_index_bits as int, rest).len() - rest.len() <= end,
    ensures
        ({
            let found = hoa_group_at(bytes, end, at, config);
            let next = at + hoa_group_bits(group, config.pair_index_bits as int, rest).len()
                - rest.len();
            &&& at <= next
            &&& spells(bytes, next, rest)
            &&& found is Ok
            &&& found->Ok_0.end == next
            &&& hoa_group_is_read(found->Ok_0, group)
        }),
{
    let width = config.pair_index_bits as int;
    let channels = config.channels as int;
    let tail = put_all(group.channel_ratios, 4, 0, rest);
    let ratios = put(group.ratio as int, 4, tail);
    let codes = group.levels.map_values(|level: Option<u8>| level_code(level));
    let levels = if group.pairs.len() > 0 {
        put_all(codes, 5, 0, ratios)
    } else {
        ratios
    };
    let pairs = pairs_bits(group.pairs, width, 0, levels);
    assert(bits(bytes, at, 4) == group.pairs.len() && spells(bytes, at + 4, pairs)
        && hoa_group_bits(group, width, rest).len() == 4 + pairs.len() && ratios.len() == 4
        + tail.len()) by {
        lemma_strings();
        lemma_span_values();
    }
    lemma_put_all_len(group.channel_ratios, 4, 0, rest);
    lemma_put_all_len(codes, 5, 0, ratios);
    lemma_pairs_len(group.pairs, width, 0, levels);
    lemma_pairs(bytes, end, at + 4, config, group.pairs, 0, levels);
    let levels_at = at + 4 + pairs.len() - levels.len();
    if group.pairs.len() > 0 {
        lemma_levels(bytes, end, levels_at, group.levels, 0, ratios);
        assert(group.levels.skip(0) =~= group.levels);
    } else {
        assert(group.levels =~= Seq::new(channels as nat, |i: int| None)) by {
            assert forall|i: int| 0 <= i < group.levels.len() implies #[trigger] group.levels[i]
                is None by {}
        }
    }
    let ratios_at = levels_at + levels.len() - ratios.len();
    assert(spells(bytes, ratios_at, ratios));
    assert(bits(bytes, ratios_at, 4) == group.ratio && spells(bytes, ratios_at + 4, tail)) by {
        lemma_strings();
        lemma_span_values();
    }
    lemma_span_values();
    assert(ratios_at + 4 + 0 * 4 == ratios_at + 4);
    lemma_all(bytes, ratios_at + 4, group.channel_ratios, 4, 0, rest);
    let found = hoa_group_at(bytes, end, at, config);
    assert(found is Ok);
    assert forall|i: int| 0 <= i < channels implies #[trigger] found->Ok_0.channel_ratios[i]
        == group.channel_ratios[i] by {
        assert(bits(bytes, ratios_at + 4 + i * 4, 4) == group.channel_ratios[i]);
    }
    assert(found->Ok_0.channel_ratios =~= group.channel_ratios);
}

proof fn lemma_put_all_len(values: Seq<u8>, width: int, from: int, rest: Seq<bool>)
    requires
        0 <= width,
        0 <= from <= values.len(),
    ensures
        put_all(values, width, from, rest).len() == (values.len() - from) * width + rest.len(),
    decreases values.len() - from,
{
    lemma_strings();
    if from < values.len() {
        lemma_put_all_len(values, width, from + 1, rest);
        assert((values.len() - from) * width == (values.len() - (from + 1)) * width + width)
            by (nonlinear_arith);
    } else {
        assert(0 * width == 0) by (nonlinear_arith);
    }
}

/// A group is read as it was written: the same channels are coupled in the same bands, and levels
/// and ratios go to their channels.
pub proof fn written_hoa_groups_read_back(
    bytes: Seq<u8>,
    end: int,
    at: int,
    config: HoaGroupConfig,
    group: WrittenHoaGroup,
    rest: Seq<bool>,
    side: HoaGroupSideInfo,
)
    requires
        group_fits(config),
        hoa_group_fits(group, config),
        spells(bytes, at, hoa_group_bits(group, config.pair_index_bits as int, rest)),
        at + hoa_group_bits(group, config.pair_index_bits as int, rest).len() - rest.len() <= end,
    ensures
        ({
            let syntax = hoa_group_at(bytes, end, at, config);
            &&& syntax is Ok
            &&& spells(bytes, syntax->Ok_0.end, rest)
            &&& side.matches(config, syntax->Ok_0) ==> hoa_group_says(side, config, group)
        }),
{
    lemma_hoa_group(bytes, end, at, config, group, rest);
    let syntax = hoa_group_at(bytes, end, at, config)->Ok_0;
    if side.matches(config, syntax) {
        lemma_group_says(side, config, syntax, group);
    }
}

/// Side information of a group says what was written of it.
pub open spec fn hoa_group_says(
    side: HoaGroupSideInfo,
    config: HoaGroupConfig,
    group: WrittenHoaGroup,
) -> bool {
    &&& side.channels == config.channels
    &&& side.channel_offset == config.channel_offset
    &&& side.pairs@.len() == group.pairs.len()
    &&& forall|i: int|
        0 <= i < group.pairs.len() ==> {
            let pair = #[trigger] side.pairs@[i];
            &&& pair.first == group.pairs[i].first
            &&& pair.second == group.pairs[i].second
            &&& pair.mode is FullBand <==> group.pairs[i].mask is None
            &&& forall|band: int|
                0 <= band < 21 ==> #[trigger] pair.sfb_mask@[band] == (group.pairs[i].mask is None
                    || group.pairs[i].mask->0[band])
        }
    &&& side.ild_indices@ == group.levels
    &&& side.group_bits_ratio == group.ratio
    &&& side.channel_bits_ratio@ == group.channel_ratios
}

proof fn lemma_group_says(
    side: HoaGroupSideInfo,
    config: HoaGroupConfig,
    syntax: HoaGroupSyntax,
    group: WrittenHoaGroup,
)
    requires
        side.matches(config, syntax),
        hoa_group_is_read(syntax, group),
        hoa_group_fits(group, config),
    ensures
        hoa_group_says(side, config, group),
{
    assert forall|i: int| 0 <= i < group.pairs.len() implies ({
        let pair = #[trigger] side.pairs@[i];
        &&& pair.first == group.pairs[i].first
        &&& pair.second == group.pairs[i].second
        &&& pair.mode is FullBand <==> group.pairs[i].mask is None
        &&& forall|band: int|
            0 <= band < 21 ==> #[trigger] pair.sfb_mask@[band] == (group.pairs[i].mask is None
                || group.pairs[i].mask->0[band])
    }) by {
        let pair = side.pairs@[i];
        let wanted = group.pairs[i];
        assert(syntax.pairs[i - 0] == pair_read(wanted, syntax.pairs[i - 0].end));
        assert(pair.matches(syntax.pairs[i]));
        assert(pair_fits(wanted, config.channels as int));
        hoa_pairs_are_numbered_once(
            pair.first as int,
            pair.second as int,
            wanted.first,
            wanted.second,
            syntax.pairs[i].index,
        );
    }
}

/// The bits of the groups from `from` on.
pub open spec fn hoa_groups_bits(
    groups: Seq<WrittenHoaGroup>,
    configs: Seq<HoaGroupConfig>,
    from: int,
    rest: Seq<bool>,
) -> Seq<bool>
    decreases groups.len() - from,
{
    if from >= groups.len() {
        rest
    } else {
        hoa_group_bits(
            groups[from],
            configs[from].pair_index_bits as int,
            hoa_groups_bits(groups, configs, from + 1, rest),
        )
    }
}

proof fn lemma_hoa_groups_len(
    groups: Seq<WrittenHoaGroup>,
    configs: Seq<HoaGroupConfig>,
    from: int,
    rest: Seq<bool>,
)
    ensures
        hoa_groups_bits(groups, configs, from, rest).len() >= rest.len(),
    decreases groups.len() - from,
{
    if from < groups.len() {
        let group = groups[from];
        let later = hoa_groups_bits(groups, configs, from + 1, rest);
        lemma_hoa_groups_len(groups, configs, from + 1, rest);
        let tail = put_all(group.channel_ratios, 4, 0, later);
        let ratios = put(group.ratio as int, 4, tail);
        let codes = group.levels.map_values(|level: Option<u8>| level_code(level));
        let levels = if group.pairs.len() > 0 {
            put_all(codes, 5, 0, ratios)
        } else {
            ratios
        };
        lemma_put_all_len(group.channel_ratios, 4, 0, later);
        lemma_put_all_len(codes, 5, 0, ratios);
        lemma_pairs_len(group.pairs, configs[from].pair_index_bits as int, 0, levels);
        lemma_strings();
    }
}

proof fn lemma_hoa_groups(
    bytes: Seq<u8>,
    end: int,
    at: int,
    configs: Seq<HoaGroupConfig>,
    groups: Seq<WrittenHoaGroup>,
    from: int,
    rest: Seq<bool>,
)
    requires
        configs.len() == groups.len(),
        forall|i: int|
            0 <= i < groups.len() ==> group_fits(#[trigger] configs[i]) && hoa_group_fits(
                groups[i],
                configs[i],
            ),
        0 <= from <= groups.len(),
        spells(bytes, at, hoa_groups_bits(groups, configs, from, rest)),
        at + hoa_groups_bits(groups, configs, from, rest).len() - rest.len() <= end,
    ensures
        ({
            let found = hoa_groups_at(bytes, end, at, configs, from);
            let next = at + hoa_groups_bits(groups, configs, from, rest).len() - rest.len();
            &&& spells(bytes, next, rest)
            &&& found is Ok
            &&& found->Ok_0.1 == next
            &&& found->Ok_0.0.len() == groups.len() - from
            &&& forall|i: int|
                from <= i < groups.len() ==> hoa_group_is_read(
                    found->Ok_0.0[i - from],
                    #[trigger] groups[i],
                )
        }),
    decreases groups.len() - from,
{
    if from < groups.len() {
        let later = hoa_groups_bits(groups, configs, from + 1, rest);
        lemma_hoa_groups_len(groups, configs, from + 1, rest);
        assert(group_fits(configs[from]));
        lemma_hoa_group(bytes, end, at, configs[from], groups[from], later);
        let next = at + hoa_groups_bits(groups, configs, from, rest).len() - later.len();
        lemma_hoa_groups(bytes, end, next, configs, groups, from + 1, rest);
        let tail = hoa_groups_at(bytes, end, next, configs, from + 1)->Ok_0.0;
        let first = hoa_group_at(bytes, end, at, configs[from])->Ok_0;
        let found = hoa_groups_at(bytes, end, at, configs, from)->Ok_0.0;
        assert(found =~= seq![first] + tail);
        assert forall|i: int| from <= i < groups.len() implies hoa_group_is_read(
            found[i - from],
            #[trigger] groups[i],
        ) by {
            if i > from {
                assert(found[i - from] == tail[i - (from + 1)]);
            }
        }
    }
}

/// The bits of the basis vectors from `from` on, twelve for each.
pub open spec fn basis_bits(basis: Seq<u16>, from: int, rest: Seq<bool>) -> Seq<bool>
    decreases basis.len() - from,
{
    if from >= basis.len() {
        rest
    } else {
        put(basis[from] as int, 12, basis_bits(basis, from + 1, rest))
    }
}

proof fn lemma_basis(
    bytes: Seq<u8>,
    end: int,
    at: int,
    basis: Seq<u16>,
    from: int,
    rest: Seq<bool>,
)
    requires
        forall|i: int| 0 <= i < basis.len() ==> #[trigger] basis[i] < 1343,
        0 <= from <= basis.len(),
        spells(bytes, at, basis_bits(basis, from, rest)),
        at + 12 * (basis.len() - from) <= end,
    ensures
        hoa_basis_at(bytes, end, at, basis.len() - from) == Ok::<Seq<u16>, CodecError>(
            basis.skip(from),
        ),
        spells(bytes, at + 12 * (basis.len() - from), rest),
        basis_bits(basis, from, rest).len() == 12 * (basis.len() - from) + rest.len(),
    decreases basis.len() - from,
{
    if from < basis.len() {
        lemma_strings();
        lemma_span_values();
        assert(basis[from] < 1343);
        lemma_basis(bytes, end, at + 12, basis, from + 1, rest);
        assert(seq![basis[from]] + basis.skip(from + 1) =~= basis.skip(from));
    } else {
        assert(basis.skip(from) =~= Seq::empty());
    }
}

proof fn lemma_basis_len(basis: Seq<u16>, from: int, rest: Seq<bool>)
    requires
        0 <= from <= basis.len(),
    ensures
        basis_bits(basis, from, rest).len() == 12 * (basis.len() - from) + rest.len(),
    decreases basis.len() - from,
{
    lemma_strings();
    if from < basis.len() {
        lemma_basis_len(basis, from + 1, rest);
    }
}

/// The bits of the side information: the kind of scene, whether the number of vectors is written,
/// that number, the vectors and the groups.
pub open spec fn hoa_side_bits(
    scene: u8,
    explicit: bool,
    basis: Seq<u16>,
    groups: Seq<WrittenHoaGroup>,
    configs: Seq<HoaGroupConfig>,
    rest: Seq<bool>,
) -> Seq<bool> {
    let tail = basis_bits(basis, 0, hoa_groups_bits(groups, configs, 0, rest));
    put(
        scene as int,
        4,
        put_flag(
            explicit,
            if explicit {
                put(basis.len() as int, 4, tail)
            } else {
                tail
            },
        ),
    )
}

/// The number of vectors can be written: one to four, no more than there are channels to recover
/// from them; or, where it is not written, as many as the configuration has by default.
pub open spec fn vectors_fit(config: HoaConfig, explicit: bool, count: int) -> bool {
    if explicit {
        1 <= count <= 4 && count <= config.transport_channels - config.residual_channels
    } else {
        count <= 4 && count == (if config.default_spatial_analysis {
            config.foreground_channels as int
        } else {
            0
        })
    }
}

/// The side information of an ambisonic frame is read as it was written.
pub proof fn written_hoa_side_information_reads_back(
    bytes: Seq<u8>,
    end: int,
    at: int,
    config: HoaConfig,
    scene: u8,
    explicit: bool,
    basis: Seq<u16>,
    groups: Seq<WrittenHoaGroup>,
    rest: Seq<bool>,
    side: HoaSideInfo,
)
    requires
        config.well_formed(),
        scene < 16,
        vectors_fit(config, explicit, basis.len() as int),
        forall|i: int| 0 <= i < basis.len() ==> #[trigger] basis[i] < 1343,
        groups.len() == config.groups@.len(),
        forall|i: int|
            0 <= i < groups.len() ==> hoa_group_fits(groups[i], #[trigger] config.groups@[i]),
        spells(bytes, at, hoa_side_bits(scene, explicit, basis, groups, config.groups@, rest)),
        at + hoa_side_bits(scene, explicit, basis, groups, config.groups@, rest).len() - rest.len()
            <= end,
    ensures
        ({
            let syntax = hoa_syntax_at(bytes, end, at, config);
            let next = at + hoa_side_bits(
                scene,
                explicit,
                basis,
                groups,
                config.groups@,
                rest,
            ).len() - rest.len();
            &&& syntax is Ok
            &&& spells(bytes, next, rest)
            &&& side.matches(config, syntax->Ok_0) ==> {
                &&& side.scene_type == scene
                &&& side.spatial_analysis == explicit
                &&& side.vector_channels == basis.len()
                &&& side.basis_indices@ == basis
                &&& side.groups@.len() == groups.len()
                &&& forall|i: int|
                    0 <= i < groups.len() ==> hoa_group_says(
                        #[trigger] side.groups@[i],
                        config.groups@[i],
                        groups[i],
                    )
                &&& side.next_bit_offset == next
            }
        }),
{
    let configs = config.groups@;
    let last = hoa_groups_bits(groups, configs, 0, rest);
    let tail = basis_bits(basis, 0, last);
    let basis_at = if explicit {
        at + 9
    } else {
        at + 5
    };
    assert(bits(bytes, at, 4) == scene && bit_at(bytes, at + 4) == explicit && (explicit ==> bits(
        bytes,
        at + 5,
        4,
    ) == basis.len()) && spells(bytes, basis_at, tail) && hoa_side_bits(
        scene,
        explicit,
        basis,
        groups,
        configs,
        rest,
    ).len() == basis_at - at + tail.len()) by {
        lemma_strings();
        lemma_span_values();
    }
    assert forall|i: int| 0 <= i < groups.len() implies group_fits(#[trigger] configs[i])
        && hoa_group_fits(groups[i], configs[i]) by {}
    lemma_hoa_groups_len(groups, configs, 0, rest);
    lemma_basis_len(basis, 0, last);
    lemma_basis(bytes, end, basis_at, basis, 0, last);
    assert(basis.skip(0) =~= basis);
    assert(vector_count_at(bytes, end, at, config) == Ok::<int, CodecError>(basis.len() as int));
    lemma_hoa_groups(bytes, end, basis_at + 12 * basis.len(), configs, groups, 0, rest);
    let syntax = hoa_syntax_at(bytes, end, at, config);
    assert(syntax is Ok);
    if side.matches(config, syntax->Ok_0) {
        assert forall|i: int| 0 <= i < groups.len() implies hoa_group_says(
            #[trigger] side.groups@[i],
            configs[i],
            groups[i],
        ) by {
            assert(side.groups@[i].matches(configs[i], syntax->Ok_0.groups[i]));
            assert(hoa_group_is_read(syntax->Ok_0.groups[i - 0], groups[i]));
            assert(hoa_group_fits(groups[i], configs[i]));
            lemma_group_says(side.groups@[i], configs[i], syntax->Ok_0.groups[i], groups[i]);
        }
    }
}

} // verus!
