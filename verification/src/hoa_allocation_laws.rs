//! What the byte budgets of an ambisonic frame are, said of the budgets and of the ratios in the
//! side information.

use crate::config::NeuralNetworkType;
use crate::error::CodecError;
use crate::ga_frame::group_counts;
use crate::group::GroupSideInfo;
use crate::hoa_allocation::{
    channel_share, fixed_bits_from, group_filled, group_ratios, group_shares, group_side_error,
    groups_filled, hoa_allocation, hoa_allocation_conserves_bytes, hoa_group_hands_out_every_byte,
    lemma_fixed_bits, lemma_group_shares, lemma_share_bound, range_sum, ratio_sum, ratios_of,
    share_sum, HoaGroupRatios,
};
use crate::hoa_side::{channels_before, lemma_channels_before_monotone, HoaConfig};
use crate::hoa_syntax::HoaGroupSideInfo;
use vstd::prelude::*;

verus! {

/// Number of window groups of all channels together.
pub open spec fn all_groups(groups: Seq<GroupSideInfo>) -> int
    decreases groups.len(),
{
    if groups.len() == 0 {
        0
    } else {
        all_groups(groups.drop_last()) + groups.last().num_groups
    }
}

/// Bytes that the channels of group `group` get together.
pub open spec fn bytes_of_group(bytes: Seq<usize>, config: HoaConfig, group: int) -> int {
    let first = config.groups@[group].channel_offset as int;
    range_sum(bytes, first, first + config.groups@[group].channels)
}

/// The allocation of a frame.
pub open spec fn allocation_of(
    remaining_bits: int,
    nn_type: NeuralNetworkType,
    groups: Seq<GroupSideInfo>,
    config: HoaConfig,
    sides: Seq<HoaGroupSideInfo>,
) -> Result<(Seq<usize>, int), CodecError> {
    hoa_allocation(
        remaining_bits,
        nn_type,
        group_counts(groups),
        config.transport_channels as int,
        config.groups@,
        ratios_of(sides),
    )
}

proof fn lemma_fixed_from(nn_type: NeuralNetworkType, groups: Seq<GroupSideInfo>, channel: int)
    requires
        0 <= channel <= groups.len(),
    ensures
        fixed_bits_from(nn_type, group_counts(groups), channel) matches Ok(fixed) ==> fixed == 16 * (
        groups.len() - channel) + 3 * (all_groups(groups) - all_groups(groups.take(channel))),
    decreases groups.len() - channel,
{
    if channel < groups.len() {
        lemma_fixed_from(nn_type, groups, channel + 1);
        assert(groups.take(channel + 1).drop_last() =~= groups.take(channel));
        assert(groups.take(channel + 1).last() == groups[channel]);
    } else {
        assert(groups.take(channel) =~= groups);
    }
}

/// Every bit is accounted for: each channel takes sixteen bits and three for each of its window
/// groups, the rest is handed out in whole bytes, and fewer than eight bits are left over.
pub proof fn hoa_budgets_account_for_every_bit(
    remaining_bits: int,
    nn_type: NeuralNetworkType,
    groups: Seq<GroupSideInfo>,
    config: HoaConfig,
    sides: Seq<HoaGroupSideInfo>,
)
    requires
        config.well_formed(),
        0 <= remaining_bits <= usize::MAX,
    ensures
        allocation_of(remaining_bits, nn_type, groups, config, sides) matches Ok((bytes, trailing))
            ==> {
            &&& bytes.len() == config.transport_channels
            &&& 0 <= trailing < 8
            &&& 16 * groups.len() + 3 * all_groups(groups) + 8 * range_sum(
                bytes,
                0,
                bytes.len() as int,
            ) + trailing == remaining_bits
        },
{
    hoa_allocation_conserves_bytes(
        remaining_bits,
        nn_type,
        group_counts(groups),
        config,
        ratios_of(sides),
    );
    lemma_fixed_from(nn_type, groups, 0);
    assert(groups.take(0) =~= Seq::empty());
}

proof fn lemma_share_of_group(
    total: int,
    ratios: Seq<u8>,
    from: int,
    remaining: int,
    group: int,
)
    requires
        0 <= total,
        0 <= remaining <= usize::MAX,
        0 <= from <= group < ratios.len() - 1,
    ensures
        group_shares(total, ratios, from, remaining) matches Ok(shares) ==> group - from
            < shares.len() && 16 * shares[group - from] <= total * ratios[group] < 16 * shares[group
            - from] + 16,
    decreases group - from,
{
    let share = total * ratios[from] / 16;
    assert(0 <= total * ratios[from]) by (nonlinear_arith)
        requires
            0 <= total,
    ;
    if total * ratios[from] <= usize::MAX && share <= remaining {
        if let Ok(rest) = group_shares(total, ratios, from + 1, remaining - share) {
            let shares = seq![share as usize] + rest;
            if from < group {
                lemma_share_of_group(total, ratios, from + 1, remaining - share, group);
                assert(shares[group - from] == rest[group - (from + 1)]);
            } else {
                assert(shares[0] == share);
            }
        }
    }
}

/// What the channels of a group hold once the groups from `from` on have been filled.
proof fn lemma_filled_channels(
    config: HoaConfig,
    sides: Seq<HoaGroupRatios>,
    shares: Seq<usize>,
    from: int,
    before: Seq<usize>,
)
    requires
        config.well_formed(),
        0 <= from <= config.groups@.len(),
        sides.len() == config.groups@.len(),
        shares.len() == config.groups@.len(),
        before.len() == config.transport_channels,
    ensures
        groups_filled(config.groups@, sides, shares, from, before) matches Ok(filled) ==> {
            &&& filled.len() == before.len()
            &&& forall|i: int|
                0 <= i < channels_before(config.groups@, from) ==> #[trigger] filled[i] == before[i]
            &&& forall|group: int, channel: int|
                from <= group < config.groups@.len() && 0 <= channel
                    < config.groups@[group].channels ==> #[trigger] filled[channels_before(
                    config.groups@,
                    group,
                ) + channel] == channel_share(
                    shares[group] as int,
                    sides[group].channel_ratios,
                    channel,
                )
            &&& forall|group: int|
                from <= group < config.groups@.len() ==> group_side_error(
                    config.groups@[group],
                    #[trigger] sides[group],
                ) is None
        },
    decreases config.groups@.len() - from,
{
    let configs = config.groups@;
    if from < configs.len() && group_side_error(configs[from], sides[from]) is None {
        let offset = configs[from].channel_offset as int;
        let ratios = sides[from].channel_ratios;
        assert(configs[from].channel_offset == channels_before(configs, from));
        lemma_channels_before_monotone(configs, from + 1, configs.len() as int);
        lemma_channels_before_monotone(configs, 0, from);
        let next = group_filled(before, offset, shares[from] as int, ratios);
        lemma_filled_channels(config, sides, shares, from + 1, next);
        if let Ok(filled) = groups_filled(configs, sides, shares, from, before) {
            assert forall|i: int| 0 <= i < channels_before(configs, from) implies #[trigger] filled[i]
                == before[i] by {
                assert(filled[i] == next[i]);
            }
            crate::hoa_allocation::lemma_ratio_sum(ratios, 0, ratios.len() as int);
            assert forall|group: int, channel: int|
                from <= group < configs.len() && 0 <= channel
                    < configs[group].channels implies #[trigger] filled[channels_before(
                configs,
                group,
            ) + channel] == channel_share(
                shares[group] as int,
                sides[group].channel_ratios,
                channel,
            ) by {
                if group == from {
                    let i = offset + channel;
                    assert(filled[i] == next[i]);
                    lemma_share_bound(shares[from] as int, ratios, channel);
                }
            }
        }
    }
}

proof fn lemma_shares_sum(
    bytes: Seq<usize>,
    offset: int,
    share: int,
    ratios: Seq<u8>,
    count: int,
)
    requires
        0 <= count <= ratios.len(),
        forall|channel: int|
            0 <= channel < ratios.len() ==> #[trigger] bytes[offset + channel] == channel_share(
                share,
                ratios,
                channel,
            ),
    ensures
        range_sum(bytes, offset, offset + count) == share_sum(share, ratios, count),
    decreases count,
{
    if count > 0 {
        lemma_shares_sum(bytes, offset, share, ratios, count - 1);
        assert(bytes[offset + (count - 1)] == channel_share(share, ratios, count - 1));
    }
}

/// What is known of an accepted allocation, group by group.
proof fn lemma_accepted(
    remaining_bits: int,
    nn_type: NeuralNetworkType,
    groups: Seq<GroupSideInfo>,
    config: HoaConfig,
    sides: Seq<HoaGroupSideInfo>,
    group: int,
)
    requires
        config.well_formed(),
        0 <= remaining_bits <= usize::MAX,
        0 <= group < config.groups@.len(),
    ensures
        allocation_of(remaining_bits, nn_type, groups, config, sides) matches Ok((bytes, _)) ==> {
            let total = range_sum(bytes, 0, bytes.len() as int);
            let offset = channels_before(config.groups@, group);
            let ratios = sides[group].channel_bits_ratio@;
            &&& sides.len() == config.groups@.len()
            &&& offset == config.groups@[group].channel_offset
            &&& ratios.len() == config.groups@[group].channels
            &&& ratio_sum(ratios, ratios.len() as int) > 0
            &&& bytes_of_group(bytes, config, group) >= 0
            &&& group < config.groups@.len() - 1 ==> 16 * bytes_of_group(bytes, config, group)
                <= total * sides[group].group_bits_ratio < 16 * bytes_of_group(bytes, config, group)
                + 16
            &&& forall|channel: int|
                0 <= channel < ratios.len() ==> #[trigger] bytes[offset + channel] == channel_share(
                    bytes_of_group(bytes, config, group),
                    ratios,
                    channel,
                )
        },
{
    let all = ratios_of(sides);
    let ratios = group_ratios(all);
    if let Ok((bytes, _)) = allocation_of(remaining_bits, nn_type, groups, config, sides) {
        lemma_fixed_bits(nn_type, group_counts(groups), 0);
        let fixed = fixed_bits_from(nn_type, group_counts(groups), 0)->Ok_0;
        let total = (remaining_bits - fixed) / 8;
        let shares = group_shares(total, ratios, 0, total)->Ok_0;
        lemma_group_shares(total, ratios, 0, total);
        hoa_allocation_conserves_bytes(remaining_bits, nn_type, group_counts(groups), config, all);
        let zero = Seq::new(config.transport_channels as nat, |i: int| 0usize);
        lemma_filled_channels(config, all, shares, 0, zero);
        assert(group_side_error(config.groups@[group], all[group]) is None);
        let own = sides[group].channel_bits_ratio@;
        let offset = channels_before(config.groups@, group);
        assert(config.groups@[group].channel_offset == offset);
        assert forall|channel: int| 0 <= channel < own.len() implies #[trigger] bytes[offset
            + channel] == channel_share(shares[group] as int, own, channel) by {
            assert(bytes[channels_before(config.groups@, group) + channel] == channel_share(
                shares[group] as int,
                all[group].channel_ratios,
                channel,
            ));
        }
        crate::hoa_allocation::lemma_ratio_sum(own, 0, own.len() as int);
        lemma_shares_sum(bytes, offset, shares[group] as int, own, own.len() as int);
        hoa_group_hands_out_every_byte(shares[group] as int, own);
        if group < ratios.len() - 1 {
            lemma_share_of_group(total, ratios, 0, total, group);
        }
    }
}

/// Every group but the last gets as many sixteenths of all bytes as its ratio says, rounded down to
/// whole bytes.
pub proof fn hoa_groups_get_their_sixteenths(
    remaining_bits: int,
    nn_type: NeuralNetworkType,
    groups: Seq<GroupSideInfo>,
    config: HoaConfig,
    sides: Seq<HoaGroupSideInfo>,
    group: int,
)
    requires
        config.well_formed(),
        0 <= remaining_bits <= usize::MAX,
        0 <= group < config.groups@.len() - 1,
    ensures
        allocation_of(remaining_bits, nn_type, groups, config, sides) matches Ok((bytes, _)) ==> {
            let total = range_sum(bytes, 0, bytes.len() as int);
            let ratio = sides[group].group_bits_ratio;
            &&& bytes_of_group(bytes, config, group) == total * ratio / 16
            &&& 16 * bytes_of_group(bytes, config, group) <= total * ratio < 16 * (bytes_of_group(
                bytes,
                config,
                group,
            ) + 1)
        },
{
    lemma_accepted(remaining_bits, nn_type, groups, config, sides, group);
}

proof fn lemma_groups_sum(bytes: Seq<usize>, config: HoaConfig, count: int)
    requires
        config.well_formed(),
        0 <= count <= config.groups@.len(),
    ensures
        range_sum(bytes, 0, channels_before(config.groups@, count)) == groups_sum(
            bytes,
            config,
            count,
        ),
    decreases count,
{
    if count > 0 {
        lemma_groups_sum(bytes, config, count - 1);
        let configs = config.groups@;
        assert(configs[count - 1].channel_offset == channels_before(configs, count - 1));
        lemma_channels_before_monotone(configs, 0, count - 1);
        crate::hoa_allocation::lemma_sum_split(
            bytes,
            0,
            channels_before(configs, count - 1),
            channels_before(configs, count),
        );
    }
}

/// Bytes that the first `count` groups get together.
pub open spec fn groups_sum(bytes: Seq<usize>, config: HoaConfig, count: int) -> int
    decreases count,
{
    if count <= 0 {
        0
    } else {
        groups_sum(bytes, config, count - 1) + bytes_of_group(bytes, config, count - 1)
    }
}

/// The last group gets what the others leave, whatever its ratio says.
pub proof fn the_last_hoa_group_gets_the_rest(
    remaining_bits: int,
    nn_type: NeuralNetworkType,
    groups: Seq<GroupSideInfo>,
    config: HoaConfig,
    sides: Seq<HoaGroupSideInfo>,
)
    requires
        config.well_formed(),
        0 <= remaining_bits <= usize::MAX,
    ensures
        allocation_of(remaining_bits, nn_type, groups, config, sides) matches Ok((bytes, _)) ==> {
            let last = config.groups@.len() - 1;
            bytes_of_group(bytes, config, last) == range_sum(bytes, 0, bytes.len() as int)
                - groups_sum(bytes, config, last)
        },
{
    hoa_budgets_account_for_every_bit(remaining_bits, nn_type, groups, config, sides);
    if let Ok((bytes, _)) = allocation_of(remaining_bits, nn_type, groups, config, sides) {
        lemma_groups_sum(bytes, config, config.groups@.len() as int);
    }
}

/// Inside a group the bytes follow the ratios of its channels. As often as the sum of the ratios goes
/// into the bytes of the group, each channel gets its ratio; what remains is divided evenly, and the
/// first channel also gets what does not divide.
pub proof fn hoa_channels_get_their_ratios(
    remaining_bits: int,
    nn_type: NeuralNetworkType,
    groups: Seq<GroupSideInfo>,
    config: HoaConfig,
    sides: Seq<HoaGroupSideInfo>,
    group: int,
    channel: int,
)
    requires
        config.well_formed(),
        0 <= remaining_bits <= usize::MAX,
        0 <= group < config.groups@.len(),
        0 <= channel < config.groups@[group].channels,
    ensures
        allocation_of(remaining_bits, nn_type, groups, config, sides) matches Ok((bytes, _)) ==> {
            let count = config.groups@[group].channels as int;
            let ratios = sides[group].channel_bits_ratio@;
            let sum = ratio_sum(ratios, count);
            let has = bytes_of_group(bytes, config, group);
            let gets = bytes[config.groups@[group].channel_offset + channel] as int;
            let rounds = has / sum;
            let extra = gets - rounds * ratios[channel];
            &&& sum > 0
            &&& 0 <= has - rounds * sum < sum
            &&& channel > 0 ==> count * extra <= has - rounds * sum < count * extra + count
            &&& channel == 0 ==> extra == has - rounds * sum - (count - 1) * ((has - rounds * sum)
                / count)
        },
{
    lemma_accepted(remaining_bits, nn_type, groups, config, sides, group);
    if let Ok((bytes, _)) = allocation_of(remaining_bits, nn_type, groups, config, sides) {
        let count = config.groups@[group].channels as int;
        let ratios = sides[group].channel_bits_ratio@;
        let sum = ratio_sum(ratios, count);
        let has = bytes_of_group(bytes, config, group);
        let rounds = has / sum;
        vstd::arithmetic::div_mod::lemma_fundamental_div_mod(has, sum);
        vstd::arithmetic::div_mod::lemma_mod_bound(has, sum);
        assert(rounds * sum == sum * rounds) by (nonlinear_arith);
        let left = has % sum;
        vstd::arithmetic::div_mod::lemma_fundamental_div_mod(left, count);
        vstd::arithmetic::div_mod::lemma_mod_bound(left, count);
        let each = left / count;
        assert((count - 1) * each == count * each - each) by (nonlinear_arith);
        let offset = channels_before(config.groups@, group);
        assert(bytes[offset + channel] == channel_share(has, ratios, channel));
    }
}

/// Sum of the group ratios from `from` on, the last one left out.
pub open spec fn ratios_but_the_last(sides: Seq<HoaGroupSideInfo>, from: int) -> int
    decreases sides.len() - from,
{
    if from >= sides.len() - 1 {
        0
    } else {
        sides[from].group_bits_ratio + ratios_but_the_last(sides, from + 1)
    }
}

proof fn lemma_shares_exist(total: int, sides: Seq<HoaGroupSideInfo>, from: int, remaining: int)
    requires
        0 <= total,
        16 * total <= usize::MAX,
        ratios_but_the_last(sides, from) <= 16,
        total * ratios_but_the_last(sides, from) <= 16 * remaining,
        0 <= from,
    ensures
        group_shares(total, group_ratios(ratios_of(sides)), from, remaining) is Ok,
        ratios_but_the_last(sides, from) >= 0,
    decreases sides.len() - from,
{
    if from < sides.len() - 1 {
        let ratio = sides[from].group_bits_ratio as int;
        let later = ratios_but_the_last(sides, from + 1);
        lemma_ratios_positive(sides, from + 1);
        assert(total * (ratio + later) == total * ratio + total * later) by (nonlinear_arith);
        assert(0 <= total * ratio <= 16 * total && 0 <= total * later) by (nonlinear_arith)
            requires
                0 <= total,
                0 <= ratio <= 16,
                0 <= later,
        ;
        assert(group_ratios(ratios_of(sides))[from] == ratio);
        lemma_shares_exist(total, sides, from + 1, remaining - total * ratio / 16);
    }
}

proof fn lemma_ratios_positive(sides: Seq<HoaGroupSideInfo>, from: int)
    ensures
        ratios_but_the_last(sides, from) >= 0,
    decreases sides.len() - from,
{
    if from < sides.len() - 1 {
        lemma_ratios_positive(sides, from + 1);
    }
}

proof fn lemma_all_filled(
    config: HoaConfig,
    sides: Seq<HoaGroupRatios>,
    shares: Seq<usize>,
    from: int,
    before: Seq<usize>,
)
    requires
        0 <= from,
        forall|i: int|
            0 <= i < config.groups@.len() ==> group_side_error(
                config.groups@[i],
                #[trigger] sides[i],
            ) is None,
    ensures
        groups_filled(config.groups@, sides, shares, from, before) is Ok,
    decreases config.groups@.len() - from,
{
    if from < config.groups@.len() {
        assert(group_side_error(config.groups@[from], sides[from]) is None);
        lemma_all_filled(
            config,
            sides,
            shares,
            from + 1,
            group_filled(
                before,
                config.groups@[from].channel_offset as int,
                shares[from] as int,
                sides[from].channel_ratios,
            ),
        );
    }
}

proof fn lemma_fixed_ok(nn_type: NeuralNetworkType, groups: Seq<GroupSideInfo>, channel: int)
    requires
        !(nn_type is Reserved),
        forall|i: int| 0 <= i < groups.len() ==> 1 <= (#[trigger] groups[i]).num_groups <= 2,
        0 <= channel,
    ensures
        fixed_bits_from(nn_type, group_counts(groups), channel) is Ok,
    decreases groups.len() - channel,
{
    if channel < groups.len() {
        assert(1 <= groups[channel].num_groups <= 2);
        lemma_fixed_ok(nn_type, groups, channel + 1);
    }
}

/// A frame is accepted if its side information fits the configuration, its fixed fields fit the
/// bits, and the groups in front of the last ask for sixteen sixteenths at most.
pub proof fn fitting_hoa_frames_are_allocated(
    remaining_bits: int,
    nn_type: NeuralNetworkType,
    groups: Seq<GroupSideInfo>,
    config: HoaConfig,
    sides: Seq<HoaGroupSideInfo>,
)
    requires
        config.well_formed(),
        0 <= 2 * remaining_bits <= usize::MAX,
        !(nn_type is Reserved),
        groups.len() == config.transport_channels,
        forall|i: int| 0 <= i < groups.len() ==> 1 <= (#[trigger] groups[i]).num_groups <= 2,
        16 * groups.len() + 3 * all_groups(groups) <= remaining_bits,
        sides.len() == config.groups@.len(),
        forall|i: int|
            0 <= i < sides.len() ==> {
                let side = #[trigger] sides[i];
                &&& side.channels == config.groups@[i].channels
                &&& side.channel_offset == config.groups@[i].channel_offset
                &&& side.channel_bits_ratio@.len() == side.channels
                &&& ratio_sum(side.channel_bits_ratio@, side.channels as int) > 0
            },
        ratios_but_the_last(sides, 0) <= 16,
    ensures
        allocation_of(remaining_bits, nn_type, groups, config, sides) is Ok,
{
    let all = ratios_of(sides);
    lemma_fixed_ok(nn_type, groups, 0);
    lemma_fixed_from(nn_type, groups, 0);
    lemma_fixed_bits(nn_type, group_counts(groups), 0);
    assert(groups.take(0) =~= Seq::empty());
    let fixed = fixed_bits_from(nn_type, group_counts(groups), 0)->Ok_0;
    let total = (remaining_bits - fixed) / 8;
    let asked = ratios_but_the_last(sides, 0);
    assert(total * asked <= 16 * total) by (nonlinear_arith)
        requires
            0 <= total,
            asked <= 16,
    ;
    lemma_shares_exist(total, sides, 0, total);
    let shares = group_shares(total, group_ratios(all), 0, total)->Ok_0;
    assert forall|i: int| 0 <= i < config.groups@.len() implies group_side_error(
        config.groups@[i],
        #[trigger] all[i],
    ) is None by {
        assert(sides[i].channels == config.groups@[i].channels);
    }
    let zero = Seq::new(config.transport_channels as nat, |i: int| 0usize);
    lemma_all_filled(config, all, shares, 0, zero);
    hoa_allocation_conserves_bytes(remaining_bits, nn_type, group_counts(groups), config, all);
}

} // verus!
