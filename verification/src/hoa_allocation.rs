//! Division of the range coded bytes of an ambisonic frame among groups and channels.

use crate::config::NeuralNetworkType;
use crate::error::CodecError;
use crate::ga_frame::group_counts;
use crate::group::GroupSideInfo;
use crate::hoa_side::{channels_before, HoaConfig, HoaGroupConfig};
use crate::hoa_syntax::{HoaGroupSideInfo, HoaSideInfo};
use crate::qc::{qc_fixed_header_bits, qc_header_bits, qc_header_error};
use vstd::prelude::*;

verus! {

/// Byte budget of every transport channel.
#[derive(Clone, Debug, PartialEq, Eq)]
pub struct HoaBitAllocation {
    pub channel_bytes: Vec<usize>,
    /// Bits behind the last whole byte.
    pub trailing_bits: usize,
}

/// Sum of the entries of `values` from `from` up to but not including `to`.
pub open spec fn range_sum(values: Seq<usize>, from: int, to: int) -> int
    decreases to - from,
{
    if from >= to {
        0
    } else {
        range_sum(values, from, to - 1) + values[to - 1]
    }
}

/// Sum of the first `count` ratios.
pub open spec fn ratio_sum(ratios: Seq<u8>, count: int) -> int
    decreases count,
{
    if count <= 0 {
        0
    } else {
        ratio_sum(ratios, count - 1) + ratios[count - 1]
    }
}

/// Width of the fixed fields of the channels from `channel` on, or why one of them has none.
pub open spec fn fixed_bits_from(
    nn_type: NeuralNetworkType,
    groups: Seq<int>,
    channel: int,
) -> Result<int, CodecError>
    decreases groups.len() - channel,
{
    if channel >= groups.len() {
        Ok(0)
    } else if qc_header_error(nn_type, groups[channel]) is Some {
        Err(qc_header_error(nn_type, groups[channel])->0)
    } else {
        match fixed_bits_from(nn_type, groups, channel + 1) {
            Err(error) => Err(error),
            Ok(rest) => Ok(qc_header_bits(groups[channel]) + rest),
        }
    }
}

/// Bytes of the groups from `group` on: each but the last gets sixteenths of the total, the last
/// one what remains.
pub open spec fn group_shares(
    total: int,
    ratios: Seq<u8>,
    group: int,
    remaining: int,
) -> Result<Seq<usize>, CodecError>
    decreases ratios.len() - group,
{
    if group >= ratios.len() {
        Ok(Seq::empty())
    } else if group == ratios.len() - 1 {
        Ok(seq![remaining as usize])
    } else if total * ratios[group] > usize::MAX {
        Err(CodecError::InvalidData("HOA group byte allocation overflow"))
    } else if total * ratios[group] / 16 > remaining {
        Err(
            CodecError::InvalidData("HOA group bit ratio exceeds the remaining payload budget"),
        )
    } else {
        match group_shares(
            total,
            ratios,
            group + 1,
            remaining - total * ratios[group] / 16,
        ) {
            Err(error) => Err(error),
            Ok(rest) => Ok(seq![(total * ratios[group] / 16) as usize] + rest),
        }
    }
}

/// Bytes of channel `channel` of a group of `bytes` bytes: its ratio's share, an equal part of the
/// remainder, and for the first channel what does not divide equally.
pub open spec fn channel_share(bytes: int, ratios: Seq<u8>, channel: int) -> int {
    let sum = ratio_sum(ratios, ratios.len() as int);
    let residual = bytes % sum;
    let count = ratios.len() as int;
    (bytes / sum) * ratios[channel] + residual / count + if channel == 0 {
        residual % count
    } else {
        0
    }
}

/// `channel_bytes` with the channels of one group filled in.
pub open spec fn group_filled(
    channel_bytes: Seq<usize>,
    offset: int,
    bytes: int,
    ratios: Seq<u8>,
) -> Seq<usize> {
    Seq::new(
        channel_bytes.len(),
        |channel: int|
            if offset <= channel < offset + ratios.len() {
                channel_share(bytes, ratios, channel - offset) as usize
            } else {
                channel_bytes[channel]
            },
    )
}

/// What the allocation takes from the side information of a group.
#[verifier::ext_equal]
pub struct HoaGroupRatios {
    pub channels: u8,
    pub channel_offset: u8,
    pub group_ratio: u8,
    pub channel_ratios: Seq<u8>,
}

/// What the allocation takes from the side information of the groups.
pub open spec fn ratios_of(sides: Seq<HoaGroupSideInfo>) -> Seq<HoaGroupRatios> {
    Seq::new(
        sides.len(),
        |i: int|
            HoaGroupRatios {
                channels: sides[i].channels,
                channel_offset: sides[i].channel_offset,
                group_ratio: sides[i].group_bits_ratio,
                channel_ratios: sides[i].channel_bits_ratio@,
            },
    )
}

/// What is wrong with the side information of a group, if anything.
pub open spec fn group_side_error(config: HoaGroupConfig, side: HoaGroupRatios) -> Option<
    CodecError,
> {
    if side.channels != config.channels || side.channel_offset != config.channel_offset
        || side.channel_ratios.len() != config.channels {
        Some(
            CodecError::InvalidData(
                "HOA group side information does not match bitrate configuration",
            ),
        )
    } else if ratio_sum(side.channel_ratios, config.channels as int) == 0 {
        Some(CodecError::InvalidData("HOA group channel bit ratios sum to zero"))
    } else {
        None
    }
}

/// `channel_bytes` with the groups from `group` on filled in.
pub open spec fn groups_filled(
    configs: Seq<HoaGroupConfig>,
    sides: Seq<HoaGroupRatios>,
    shares: Seq<usize>,
    group: int,
    channel_bytes: Seq<usize>,
) -> Result<Seq<usize>, CodecError>
    decreases configs.len() - group,
{
    if group >= configs.len() {
        Ok(channel_bytes)
    } else if group_side_error(configs[group], sides[group]) is Some {
        Err(group_side_error(configs[group], sides[group])->0)
    } else {
        groups_filled(
            configs,
            sides,
            shares,
            group + 1,
            group_filled(
                channel_bytes,
                configs[group].channel_offset as int,
                shares[group] as int,
                sides[group].channel_ratios,
            ),
        )
    }
}

/// Group ratios in order.
pub open spec fn group_ratios(sides: Seq<HoaGroupRatios>) -> Seq<u8> {
    Seq::new(sides.len(), |i: int| sides[i].group_ratio)
}

/// The byte budgets, and the bits behind the last whole byte.
pub open spec fn hoa_allocation(
    remaining_bits: int,
    nn_type: NeuralNetworkType,
    groups: Seq<int>,
    channels: int,
    configs: Seq<HoaGroupConfig>,
    sides: Seq<HoaGroupRatios>,
) -> Result<(Seq<usize>, int), CodecError> {
    if groups.len() != channels || sides.len() != configs.len() {
        Err(
            CodecError::InvalidData("HOA side information does not match transport geometry"),
        )
    } else {
        match fixed_bits_from(nn_type, groups, 0) {
            Err(error) => Err(error),
            Ok(fixed) => if fixed > remaining_bits {
                Err(CodecError::Truncated)
            } else {
                let total = (remaining_bits - fixed) / 8;
                match group_shares(total, group_ratios(sides), 0, total) {
                    Err(error) => Err(error),
                    Ok(shares) => match groups_filled(
                        configs,
                        sides,
                        shares,
                        0,
                        Seq::new(channels as nat, |i: int| 0usize),
                    ) {
                        Err(error) => Err(error),
                        Ok(channel_bytes) => if range_sum(channel_bytes, 0, channels) != total {
                            Err(
                                CodecError::Internal(
                                    "HOA byte allocation does not conserve entropy payload bytes",
                                ),
                            )
                        } else {
                            Ok((channel_bytes, (remaining_bits - fixed) % 8))
                        },
                    },
                }
            },
        }
    }
}

/// The shares of all groups sum to the total.
pub(crate) proof fn lemma_group_shares(total: int, ratios: Seq<u8>, group: int, remaining: int)
    requires
        0 <= remaining <= usize::MAX,
        0 <= total,
        0 <= group <= ratios.len(),
    ensures
        group_shares(total, ratios, group, remaining) matches Ok(shares) ==> {
            &&& shares.len() == ratios.len() - group
            &&& shares.len() > 0 ==> range_sum(shares, 0, shares.len() as int) == remaining
        },
    decreases ratios.len() - group,
{
    if group < ratios.len() - 1 {
        let share = total * ratios[group] / 16;
        assert(0 <= total * ratios[group]) by (nonlinear_arith)
            requires
                0 <= total,
        ;
        if total * ratios[group] <= usize::MAX && share <= remaining {
            lemma_group_shares(total, ratios, group + 1, remaining - share);
            if let Ok(rest) = group_shares(total, ratios, group + 1, remaining - share) {
                lemma_sum_push_front(share as usize, rest, rest.len() as int);
            }
        }
    } else if group < ratios.len() {
        reveal_with_fuel(range_sum, 2);
    }
}

/// A sum over a sequence with a new first entry.
proof fn lemma_sum_push_front(first: usize, rest: Seq<usize>, count: int)
    requires
        0 <= count <= rest.len(),
    ensures
        range_sum(seq![first] + rest, 0, count + 1) == first + range_sum(rest, 0, count),
    decreases count,
{
    reveal_with_fuel(range_sum, 2);
    if count > 0 {
        lemma_sum_push_front(first, rest, count - 1);
    }
}

/// A range sum is the sum of its two parts.
pub proof fn lemma_sum_split(values: Seq<usize>, from: int, middle: int, to: int)
    requires
        from <= middle <= to,
    ensures
        range_sum(values, from, to) == range_sum(values, from, middle) + range_sum(
            values,
            middle,
            to,
        ),
    decreases to - middle,
{
    if middle < to {
        lemma_sum_split(values, from, middle, to - 1);
    }
}

/// Sequences that agree on a range have the same sum over it, and sums are not negative.
proof fn lemma_sum_same(a: Seq<usize>, b: Seq<usize>, from: int, to: int)
    requires
        forall|i: int| from <= i < to ==> #[trigger] a[i] == b[i],
    ensures
        range_sum(a, from, to) == range_sum(b, from, to),
        range_sum(a, from, to) >= 0,
    decreases to - from,
{
    if from < to {
        lemma_sum_same(a, b, from, to - 1);
        assert(a[to - 1] == b[to - 1]);
    }
}

/// Ratio sums grow with the number of ratios.
pub(crate) proof fn lemma_ratio_sum(ratios: Seq<u8>, a: int, b: int)
    requires
        0 <= a <= b,
    ensures
        0 <= ratio_sum(ratios, a) <= ratio_sum(ratios, b) <= 255 * b,
    decreases b,
{
    if a < b {
        lemma_ratio_sum(ratios, a, b - 1);
    } else if a > 0 {
        lemma_ratio_sum(ratios, a - 1, b - 1);
    }
}

/// The first `count` channels of a group receive together what their ratios give, `count` equal
/// parts of the remainder, and the indivisible rest.
proof fn lemma_share_prefix(bytes: int, ratios: Seq<u8>, count: int)
    requires
        0 <= bytes,
        0 <= count <= ratios.len(),
        ratio_sum(ratios, ratios.len() as int) > 0,
    ensures
        ({
            let sum = ratio_sum(ratios, ratios.len() as int);
            let residual = bytes % sum;
            let len = ratios.len() as int;
            share_sum(bytes, ratios, count) == (bytes / sum) * ratio_sum(ratios, count) + count * (
            residual / len) + if count > 0 {
                residual % len
            } else {
                0
            }
        }),
    decreases count,
{
    let sum = ratio_sum(ratios, ratios.len() as int);
    let unit = bytes / sum;
    let part = bytes % sum / ratios.len() as int;
    if count > 0 {
        lemma_share_prefix(bytes, ratios, count - 1);
        let before = ratio_sum(ratios, count - 1);
        let ratio = ratios[count - 1] as int;
        assert(unit * (before + ratio) == unit * before + unit * ratio) by (nonlinear_arith);
        assert(count * part == (count - 1) * part + part) by (nonlinear_arith);
    } else {
        assert(unit * 0 == 0) by (nonlinear_arith);
        assert(0 * part == 0) by (nonlinear_arith);
    }
}

/// Sum of the shares of the first `count` channels of a group.
pub open spec fn share_sum(bytes: int, ratios: Seq<u8>, count: int) -> int
    decreases count,
{
    if count <= 0 {
        0
    } else {
        share_sum(bytes, ratios, count - 1) + channel_share(bytes, ratios, count - 1)
    }
}

/// A group hands out exactly the bytes that it has, whatever the ratios of its channels are.
pub proof fn hoa_group_hands_out_every_byte(bytes: int, ratios: Seq<u8>)
    requires
        0 <= bytes,
        ratio_sum(ratios, ratios.len() as int) > 0,
    ensures
        share_sum(bytes, ratios, ratios.len() as int) == bytes,
{
    let sum = ratio_sum(ratios, ratios.len() as int);
    let len = ratios.len() as int;
    assert(len > 0);
    lemma_share_prefix(bytes, ratios, len);
    let residual = bytes % sum;
    assert((bytes / sum) * sum + bytes % sum == bytes) by {
        vstd::arithmetic::div_mod::lemma_fundamental_div_mod(bytes, sum);
        vstd::arithmetic::mul::lemma_mul_is_commutative(bytes / sum, sum);
    }
    assert(len * (residual / len) + residual % len == residual) by {
        vstd::arithmetic::div_mod::lemma_fundamental_div_mod(residual, len);
    }
}

/// No channel gets more than its group has.
pub(crate) proof fn lemma_share_bound(bytes: int, ratios: Seq<u8>, channel: int)
    requires
        0 <= bytes,
        0 <= channel < ratios.len(),
        ratio_sum(ratios, ratios.len() as int) > 0,
    ensures
        0 <= channel_share(bytes, ratios, channel) <= bytes,
        0 <= (bytes / ratio_sum(ratios, ratios.len() as int)) * ratios[channel] <= bytes,
        0 <= bytes % ratio_sum(ratios, ratios.len() as int),
{
    let sum = ratio_sum(ratios, ratios.len() as int);
    let unit = bytes / sum;
    let ratio = ratios[channel] as int;
    let len = ratios.len() as int;
    lemma_ratio_sum(ratios, channel, channel + 1);
    lemma_ratio_sum(ratios, channel + 1, len);
    assert(ratio <= sum);
    vstd::arithmetic::div_mod::lemma_fundamental_div_mod(bytes, sum);
    vstd::arithmetic::div_mod::lemma_div_pos_is_pos(bytes, sum);
    vstd::arithmetic::div_mod::lemma_mod_bound(bytes, sum);
    let residual = bytes % sum;
    assert(0 <= unit * ratio <= sum * unit) by (nonlinear_arith)
        requires
            0 <= ratio <= sum,
            0 <= unit,
    ;
    vstd::arithmetic::div_mod::lemma_fundamental_div_mod(residual, len);
    vstd::arithmetic::div_mod::lemma_div_pos_is_pos(residual, len);
    vstd::arithmetic::div_mod::lemma_mod_bound(residual, len);
    assert(residual / len <= len * (residual / len)) by (nonlinear_arith)
        requires
            1 <= len,
            0 <= residual / len,
    ;
}

/// The shares of a group, written one after the other, sum to the bytes of the group.
proof fn lemma_filled_sum(
    channel_bytes: Seq<usize>,
    offset: int,
    bytes: int,
    ratios: Seq<u8>,
    count: int,
)
    requires
        0 <= offset,
        offset + ratios.len() <= channel_bytes.len(),
        0 <= bytes <= usize::MAX,
        0 <= count <= ratios.len(),
        ratio_sum(ratios, ratios.len() as int) > 0,
    ensures
        range_sum(
            group_filled(channel_bytes, offset, bytes, ratios),
            offset,
            offset + count,
        ) == share_sum(bytes, ratios, count),
    decreases count,
{
    if count > 0 {
        lemma_filled_sum(channel_bytes, offset, bytes, ratios, count - 1);
        lemma_share_bound(bytes, ratios, count - 1);
    }
}

/// Filling a group replaces the bytes of its channels by those of the group.
proof fn lemma_group_filled_sum(
    channel_bytes: Seq<usize>,
    offset: int,
    bytes: int,
    ratios: Seq<u8>,
)
    requires
        0 <= offset,
        offset + ratios.len() <= channel_bytes.len(),
        0 <= bytes <= usize::MAX,
        ratio_sum(ratios, ratios.len() as int) > 0,
    ensures
        range_sum(
            group_filled(channel_bytes, offset, bytes, ratios),
            0,
            channel_bytes.len() as int,
        ) == range_sum(channel_bytes, 0, channel_bytes.len() as int) - range_sum(
            channel_bytes,
            offset,
            offset + ratios.len(),
        ) + bytes,
        range_sum(channel_bytes, offset, offset + ratios.len()) >= 0,
{
    let filled = group_filled(channel_bytes, offset, bytes, ratios);
    let end = offset + ratios.len();
    let all = channel_bytes.len() as int;
    lemma_sum_split(filled, 0, offset, all);
    lemma_sum_split(filled, offset, end, all);
    lemma_sum_split(channel_bytes, 0, offset, all);
    lemma_sum_split(channel_bytes, offset, end, all);
    lemma_sum_same(filled, channel_bytes, 0, offset);
    lemma_sum_same(filled, channel_bytes, end, all);
    lemma_sum_same(channel_bytes, channel_bytes, offset, end);
    lemma_filled_sum(channel_bytes, offset, bytes, ratios, ratios.len() as int);
    hoa_group_hands_out_every_byte(bytes, ratios);
}

/// Filling the groups of a configuration without overlaps keeps the account: what the filled
/// channels hold is what the groups had.
proof fn lemma_groups_filled_sum(
    config: HoaConfig,
    sides: Seq<HoaGroupRatios>,
    shares: Seq<usize>,
    group: int,
    channel_bytes: Seq<usize>,
)
    requires
        config.well_formed(),
        0 <= group <= config.groups@.len(),
        sides.len() == config.groups@.len(),
        shares.len() == config.groups@.len(),
        channel_bytes.len() == config.transport_channels,
        range_sum(channel_bytes, 0, channels_before(config.groups@, group)) == range_sum(
            shares,
            0,
            group,
        ),
        forall|i: int|
            channels_before(config.groups@, group) <= i < channel_bytes.len() ==> #[trigger]
            channel_bytes[i] == 0,
    ensures
        groups_filled(config.groups@, sides, shares, group, channel_bytes) matches Ok(filled)
            ==> range_sum(filled, 0, config.transport_channels as int) == range_sum(
            shares,
            0,
            shares.len() as int,
        ),
    decreases config.groups@.len() - group,
{
    let configs = config.groups@;
    if group < configs.len() {
        if group_side_error(configs[group], sides[group]) is None {
            let offset = configs[group].channel_offset as int;
            let ratios = sides[group].channel_ratios;
            let next = group_filled(channel_bytes, offset, shares[group] as int, ratios);
            assert(configs[group].channel_offset == channels_before(configs, group));
            crate::hoa_side::lemma_channels_before_monotone(
                configs,
                group + 1,
                configs.len() as int,
            );
            crate::hoa_side::lemma_channels_before_monotone(configs, 0, group);
            lemma_ratio_sum(ratios, 0, ratios.len() as int);
            lemma_filled_sum(
                channel_bytes,
                offset,
                shares[group] as int,
                ratios,
                ratios.len() as int,
            );
            hoa_group_hands_out_every_byte(shares[group] as int, ratios);
            lemma_sum_same(next, channel_bytes, 0, offset);
            lemma_sum_split(next, 0, offset, offset + ratios.len());
            assert(range_sum(shares, 0, group + 1) == range_sum(shares, 0, group)
                + shares[group]);
            lemma_groups_filled_sum(config, sides, shares, group + 1, next);
        }
    }
}

/// The number of bytes to be divided, for a configuration and its channels' groups.
pub open spec fn hoa_total_bytes(
    remaining_bits: int,
    nn_type: NeuralNetworkType,
    groups: Seq<int>,
) -> int {
    (remaining_bits - fixed_bits_from(nn_type, groups, 0)->Ok_0) / 8
}

/// The byte budgets of a frame sum to all its whole bytes, and a well-formed configuration never
/// fails to divide them for want of conservation.
pub proof fn hoa_allocation_conserves_bytes(
    remaining_bits: int,
    nn_type: NeuralNetworkType,
    groups: Seq<int>,
    config: HoaConfig,
    sides: Seq<HoaGroupRatios>,
)
    requires
        config.well_formed(),
        0 <= remaining_bits <= usize::MAX,
    ensures
        hoa_allocation(
            remaining_bits,
            nn_type,
            groups,
            config.transport_channels as int,
            config.groups@,
            sides,
        ) matches Ok((bytes, trailing)) ==> {
            &&& bytes.len() == config.transport_channels
            &&& range_sum(bytes, 0, bytes.len() as int) == hoa_total_bytes(
                remaining_bits,
                nn_type,
                groups,
            )
            &&& 8 * range_sum(bytes, 0, bytes.len() as int) + trailing
                + fixed_bits_from(nn_type, groups, 0)->Ok_0 == remaining_bits
        },
        hoa_allocation(
            remaining_bits,
            nn_type,
            groups,
            config.transport_channels as int,
            config.groups@,
            sides,
        ) matches Err(error) ==> error != CodecError::Internal("HOA byte allocation does not conserve entropy payload bytes"),
{
    if groups.len() == config.transport_channels && sides.len() == config.groups@.len() {
        lemma_fixed_bits(nn_type, groups, 0);
        if let Ok(fixed) = fixed_bits_from(nn_type, groups, 0) {
            if fixed <= remaining_bits {
                let total = (remaining_bits - fixed) / 8;
                lemma_group_shares(total, group_ratios(sides), 0, total);
                if let Ok(shares) = group_shares(total, group_ratios(sides), 0, total) {
                    let zero = Seq::new(config.transport_channels as nat, |i: int| 0usize);
                    lemma_groups_filled_sum(config, sides, shares, 0, zero);
                    lemma_groups_filled_len(config.groups@, sides, shares, 0, zero);
                    lemma_groups_filled_errors(config.groups@, sides, shares, 0, zero);
                }
                lemma_group_shares_errors(total, group_ratios(sides), 0, total);
            }
        }
    }
}

/// Filling groups keeps the number of channels.
proof fn lemma_groups_filled_len(
    configs: Seq<HoaGroupConfig>,
    sides: Seq<HoaGroupRatios>,
    shares: Seq<usize>,
    group: int,
    channel_bytes: Seq<usize>,
)
    ensures
        groups_filled(configs, sides, shares, group, channel_bytes) matches Ok(filled)
            ==> filled.len() == channel_bytes.len(),
    decreases configs.len() - group,
{
    if group < configs.len() {
        lemma_groups_filled_len(
            configs,
            sides,
            shares,
            group + 1,
            group_filled(
                channel_bytes,
                configs[group].channel_offset as int,
                shares[group] as int,
                sides[group].channel_ratios,
            ),
        );
    }
}

/// Filling groups fails for invalid data only.
proof fn lemma_groups_filled_errors(
    configs: Seq<HoaGroupConfig>,
    sides: Seq<HoaGroupRatios>,
    shares: Seq<usize>,
    group: int,
    channel_bytes: Seq<usize>,
)
    ensures
        groups_filled(configs, sides, shares, group, channel_bytes) matches Err(error) ==> error
            is InvalidData,
    decreases configs.len() - group,
{
    if group < configs.len() {
        lemma_groups_filled_errors(
            configs,
            sides,
            shares,
            group + 1,
            group_filled(
                channel_bytes,
                configs[group].channel_offset as int,
                shares[group] as int,
                sides[group].channel_ratios,
            ),
        );
    }
}

/// Sharing bytes among groups fails for invalid data only.
proof fn lemma_group_shares_errors(total: int, ratios: Seq<u8>, group: int, remaining: int)
    ensures
        group_shares(total, ratios, group, remaining) matches Err(error) ==> error is InvalidData,
    decreases ratios.len() - group,
{
    if group < ratios.len() {
        lemma_group_shares_errors(
            total,
            ratios,
            group + 1,
            remaining - total * ratios[group] / 16,
        );
    }
}

/// The fixed fields of a channel take 19 or 22 bits.
pub(crate) proof fn lemma_fixed_bits(nn_type: NeuralNetworkType, groups: Seq<int>, channel: int)
    requires
        0 <= channel <= groups.len(),
    ensures
        match fixed_bits_from(nn_type, groups, channel) {
            Ok(fixed) => 0 <= fixed <= 22 * (groups.len() - channel),
            Err(error) => error is InvalidData || error is Unsupported,
        },
    decreases groups.len() - channel,
{
    if channel < groups.len() {
        lemma_fixed_bits(nn_type, groups, channel + 1);
    }
}

/// Add up the fixed fields of all channels.
fn sum_fixed_bits(nn_type: NeuralNetworkType, groups: &[GroupSideInfo]) -> (result: Result<
    usize,
    CodecError,
>)
    requires
        groups@.len() <= 255,
    ensures
        match fixed_bits_from(nn_type, group_counts(groups@), 0) {
            Ok(fixed) => result is Ok && result->Ok_0 == fixed,
            Err(error) => result == Err::<usize, CodecError>(error),
        },
{
    let ghost counts = group_counts(groups@);
    let mut sum: usize = 0;
    let mut channel: usize = 0;
    while channel < groups.len()
        invariant
            channel <= groups@.len() <= 255,
            counts == group_counts(groups@),
            sum <= 22 * channel,
            match fixed_bits_from(nn_type, counts, channel as int) {
                Ok(rest) => fixed_bits_from(nn_type, counts, 0) == Ok::<int, CodecError>(
                    sum + rest,
                ),
                Err(error) => fixed_bits_from(nn_type, counts, 0) == Err::<int, CodecError>(error),
            },
        decreases groups@.len() - channel,
    {
        sum = sum + qc_fixed_header_bits(nn_type, groups[channel].num_groups)?;
        channel = channel + 1;
    }
    Ok(sum)
}

/// Divide `total` bytes among the groups.
fn share_groups(total: usize, sides: &Vec<HoaGroupSideInfo>) -> (result: Result<
    Vec<usize>,
    CodecError,
>)
    ensures
        match group_shares(total as int, group_ratios(ratios_of(sides@)), 0, total as int) {
            Ok(shares) => result is Ok && result->Ok_0@ == shares,
            Err(error) => result == Err::<Vec<usize>, CodecError>(error),
        },
{
    let ghost ratios = group_ratios(ratios_of(sides@));
    let mut shares: Vec<usize> = Vec::new();
    if sides.len() == 0 {
        assert(shares@ =~= Seq::<usize>::empty());
        return Ok(shares);
    }
    let mut remaining: usize = total;
    let mut group: usize = 0;
    while group < sides.len() - 1
        invariant
            sides@.len() >= 1,
            group <= sides@.len() - 1,
            ratios == group_ratios(ratios_of(sides@)),
            remaining <= total,
            shares@.len() == group,
            match group_shares(total as int, ratios, group as int, remaining as int) {
                Ok(rest) => group_shares(total as int, ratios, 0, total as int) == Ok::<
                    Seq<usize>,
                    CodecError,
                >(shares@ + rest),
                Err(error) => group_shares(total as int, ratios, 0, total as int) == Err::<
                    Seq<usize>,
                    CodecError,
                >(error),
            },
        decreases sides@.len() - group,
    {
        let ghost before = shares@;
        let ratio: u8 = sides[group].group_bits_ratio;
        let product: usize = match total.checked_mul(ratio as usize) {
            Some(product) => product,
            None => {
                return Err(CodecError::InvalidData("HOA group byte allocation overflow"));
            },
        };
        let requested: usize = product / 16;
        if requested > remaining {
            return Err(
                CodecError::InvalidData("HOA group bit ratio exceeds the remaining payload budget"),
            );
        }
        shares.push(requested);
        remaining = remaining - requested;
        proof {
            if let Ok(rest) = group_shares(
                total as int,
                ratios,
                group as int + 1,
                remaining as int,
            ) {
                assert(before + (seq![requested] + rest) =~= shares@ + rest);
            }
        }
        group = group + 1;
    }
    let ghost before = shares@;
    shares.push(remaining);
    assert(before + seq![remaining] =~= shares@);
    Ok(shares)
}

/// Give the channels of one group their bytes.
fn fill_group(channel_bytes: &mut Vec<usize>, offset: usize, bytes: usize, ratios: &Vec<u8>)
    requires
        offset + ratios@.len() <= old(channel_bytes)@.len(),
        ratios@.len() <= 255,
        ratio_sum(ratios@, ratios@.len() as int) > 0,
    ensures
        final(channel_bytes)@ == group_filled(
            old(channel_bytes)@,
            offset as int,
            bytes as int,
            ratios@,
        ),
{
    let sum: usize = sum_ratios(ratios);
    let unit: usize = bytes / sum;
    let residual: usize = bytes % sum;
    let count: usize = ratios.len();
    let all: usize = channel_bytes.len();
    assert(count > 0);
    let part: usize = residual / count;
    let mut channel: usize = 0;
    while channel < count
        invariant
            channel <= count,
            count == ratios@.len(),
            count > 0,
            offset + count <= all,
            all == channel_bytes@.len(),
            channel_bytes@.len() == old(channel_bytes)@.len(),
            sum == ratio_sum(ratios@, ratios@.len() as int),
            sum > 0,
            unit == bytes / sum,
            residual == bytes % sum,
            part == residual / count,
            forall|i: int|
                0 <= i < channel_bytes@.len() ==> #[trigger] channel_bytes@[i] == if offset <= i
                    < offset + channel {
                    channel_share(bytes as int, ratios@, i - offset) as usize
                } else {
                    old(channel_bytes)@[i]
                },
        decreases count - channel,
    {
        proof {
            lemma_share_bound(bytes as int, ratios@, channel as int);
        }
        let mut value: usize = unit * ratios[channel] as usize + part;
        if channel == 0 {
            value = value + residual % count;
        }
        assert(value == channel_share(bytes as int, ratios@, channel as int));
        channel_bytes[offset + channel] = value;
        channel = channel + 1;
    }
    assert(channel_bytes@ =~= group_filled(
        old(channel_bytes)@,
        offset as int,
        bytes as int,
        ratios@,
    ));
}

/// Divide the bits behind the ambisonic side information among the transport channels.
///
/// The fixed fields of all channels come off first, and the rest is rounded down to whole bytes.
/// Every group but the last gets sixteenths of those bytes as its ratio says, the last group what
/// remains; inside a group the bytes follow the ratios of its channels.
pub fn allocate_hoa_bytes(
    remaining_payload_bits: usize,
    nn_type: NeuralNetworkType,
    groups: &[GroupSideInfo],
    config: &HoaConfig,
    side: &HoaSideInfo,
) -> (result: Result<HoaBitAllocation, CodecError>)
    requires
        forall|i: int|
            0 <= i < config.groups@.len() ==> (#[trigger] config.groups@[i]).channel_offset
                + config.groups@[i].channels <= config.transport_channels,
    ensures
        match hoa_allocation(
            remaining_payload_bits as int,
            nn_type,
            group_counts(groups@),
            config.transport_channels as int,
            config.groups@,
            ratios_of(side.groups@),
        ) {
            Ok((bytes, trailing)) => result is Ok && result->Ok_0.channel_bytes@ == bytes
                && result->Ok_0.trailing_bits == trailing,
            Err(error) => result == Err::<HoaBitAllocation, CodecError>(error),
        },
{
    let channels: usize = config.transport_channels as usize;
    if groups.len() != channels || side.groups.len() != config.groups.len() {
        return Err(
            CodecError::InvalidData("HOA side information does not match transport geometry"),
        );
    }
    let fixed_qc_bits: usize = sum_fixed_bits(nn_type, groups)?;
    if remaining_payload_bits < fixed_qc_bits {
        return Err(CodecError::Truncated);
    }
    let available_bits: usize = remaining_payload_bits - fixed_qc_bits;
    let total_bytes: usize = available_bits / 8;
    let trailing_bits: usize = available_bits % 8;
    let ghost sides = ratios_of(side.groups@);
    let shares = share_groups(total_bytes, &side.groups)?;
    proof {
        lemma_group_shares(
            total_bytes as int,
            group_ratios(sides),
            0,
            total_bytes as int,
        );
    }
    let mut channel_bytes: Vec<usize> = Vec::new();
    let mut channel: usize = 0;
    while channel < channels
        invariant
            channel <= channels,
            channel_bytes@ == Seq::new(channel as nat, |i: int| 0usize),
        decreases channels - channel,
    {
        channel_bytes.push(0);
        channel = channel + 1;
        assert(channel_bytes@ =~= Seq::new(channel as nat, |i: int| 0usize));
    }
    let ghost zero = channel_bytes@;
    proof {
        lemma_zero_sum(zero, channels as int);
    }
    let mut group: usize = 0;
    while group < config.groups.len()
        invariant
            group <= config.groups@.len(),
            channels == config.transport_channels,
            side.groups@.len() == config.groups@.len(),
            shares@.len() == config.groups@.len(),
            channel_bytes@.len() == channels,
            zero == Seq::new(channels as nat, |i: int| 0usize),
            forall|i: int|
                0 <= i < config.groups@.len() ==> (#[trigger] config.groups@[i]).channel_offset
                    + config.groups@[i].channels <= config.transport_channels,
            0 <= range_sum(channel_bytes@, 0, channels as int) <= range_sum(
                shares@,
                0,
                group as int,
            ),
            hoa_allocation(
                remaining_payload_bits as int,
                nn_type,
                group_counts(groups@),
                config.transport_channels as int,
                config.groups@,
                sides,
            ) == hoa_result(
                groups_filled(config.groups@, sides, shares@, 0, zero),
                channels as int,
                total_bytes as int,
                trailing_bits as int,
            ),
            sides == ratios_of(side.groups@),
            groups_filled(config.groups@, sides, shares@, group as int, channel_bytes@)
                == groups_filled(config.groups@, sides, shares@, 0, zero),
        decreases config.groups@.len() - group,
    {
        let group_config: HoaGroupConfig = config.groups[group];
        let group_side: &HoaGroupSideInfo = &side.groups[group];
        if group_side.channels != group_config.channels || group_side.channel_offset
            != group_config.channel_offset || group_side.channel_bits_ratio.len()
            != group_config.channels as usize {
            return Err(
                CodecError::InvalidData(
                    "HOA group side information does not match bitrate configuration",
                ),
            );
        }
        let sum: usize = sum_ratios(&group_side.channel_bits_ratio);
        if sum == 0 {
            return Err(CodecError::InvalidData("HOA group channel bit ratios sum to zero"));
        }
        proof {
            lemma_group_filled_sum(
                channel_bytes@,
                group_config.channel_offset as int,
                shares@[group as int] as int,
                group_side.channel_bits_ratio@,
            );
            lemma_sum_same(
                group_filled(
                    channel_bytes@,
                    group_config.channel_offset as int,
                    shares@[group as int] as int,
                    group_side.channel_bits_ratio@,
                ),
                group_filled(
                    channel_bytes@,
                    group_config.channel_offset as int,
                    shares@[group as int] as int,
                    group_side.channel_bits_ratio@,
                ),
                0,
                channels as int,
            );
        }
        fill_group(
            &mut channel_bytes,
            group_config.channel_offset as usize,
            shares[group],
            &group_side.channel_bits_ratio,
        );
        group = group + 1;
    }
    proof {
        if shares@.len() == 0 {
            assert(range_sum(shares@, 0, 0) == 0);
        }
    }
    let mut sum: usize = 0;
    let mut index: usize = 0;
    while index < channel_bytes.len()
        invariant
            index <= channel_bytes@.len(),
            sum == range_sum(channel_bytes@, 0, index as int),
            range_sum(channel_bytes@, 0, channel_bytes@.len() as int) <= usize::MAX,
        decreases channel_bytes@.len() - index,
    {
        proof {
            lemma_sum_split(
                channel_bytes@,
                0,
                index as int + 1,
                channel_bytes@.len() as int,
            );
            lemma_sum_same(
                channel_bytes@,
                channel_bytes@,
                index as int + 1,
                channel_bytes@.len() as int,
            );
        }
        sum = sum + channel_bytes[index];
        index = index + 1;
    }
    if sum != total_bytes {
        return Err(
            CodecError::Internal("HOA byte allocation does not conserve entropy payload bytes"),
        );
    }
    Ok(HoaBitAllocation { channel_bytes, trailing_bits })
}

/// The last step of the allocation: the account must balance.
pub open spec fn hoa_result(
    filled: Result<Seq<usize>, CodecError>,
    channels: int,
    total: int,
    trailing: int,
) -> Result<(Seq<usize>, int), CodecError> {
    match filled {
        Err(error) => Err(error),
        Ok(channel_bytes) => if range_sum(channel_bytes, 0, channels) != total {
            Err(
                CodecError::Internal(
                    "HOA byte allocation does not conserve entropy payload bytes",
                ),
            )
        } else {
            Ok((channel_bytes, trailing))
        },
    }
}

/// A sequence of zeros sums to zero.
proof fn lemma_zero_sum(values: Seq<usize>, count: int)
    requires
        0 <= count <= values.len(),
        forall|i: int| 0 <= i < values.len() ==> #[trigger] values[i] == 0,
    ensures
        range_sum(values, 0, count) == 0,
    decreases count,
{
    if count > 0 {
        lemma_zero_sum(values, count - 1);
        assert(values[count - 1] == 0);
    }
}

/// Add up the ratios of a group.
fn sum_ratios(ratios: &Vec<u8>) -> (sum: usize)
    requires
        ratios@.len() <= 255,
    ensures
        sum == ratio_sum(ratios@, ratios@.len() as int),
{
    let mut sum: usize = 0;
    let mut index: usize = 0;
    while index < ratios.len()
        invariant
            index <= ratios@.len() <= 255,
            sum == ratio_sum(ratios@, index as int),
            sum <= 255 * index,
        decreases ratios@.len() - index,
    {
        sum = sum + ratios[index] as usize;
        index = index + 1;
    }
    sum
}

} // verus!
