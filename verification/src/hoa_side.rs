//! Ambisonic frames: their bitrate configurations, side information and byte allocation.

use crate::bitreader::{lemma_span_monotone, lemma_span_values, span};
use crate::bwe::BweConfig;
use crate::error::CodecError;
use vstd::prelude::*;

verus! {

pub const MAX_HOA_GROUPS: usize = 3;

/// Most basis vectors that a frame can carry.
pub const MAX_HOA_BASIS: usize = 4;

/// Most coupled pairs that a group can carry.
pub const MAX_HOA_GROUP_PAIRS: usize = 8;

/// Scale factor bands in which a pair can be coupled.
pub const HOA_SCALE_FACTOR_BANDS: usize = 21;

/// Number of fixed directions that basis indices refer to.
pub const HOA_BASIS_TABLE_LEN: usize = 1_343;

/// The level index that stands for an unchanged level.
pub const HOA_NO_ILD_INDEX: u8 = 30;

/// First line of each scale factor band, and the end of the last one.
pub const HOA_SFB_BOUNDARIES: [usize; 22] = [
    0,
    8,
    24,
    40,
    56,
    72,
    88,
    104,
    128,
    160,
    192,
    224,
    256,
    288,
    336,
    384,
    432,
    480,
    544,
    608,
    672,
    768,
];

/// One group of transport channels.
#[derive(Clone, Copy, Debug, PartialEq, Eq, Structural)]
pub struct HoaGroupConfig {
    pub channels: u8,
    pub channel_offset: u8,
    pub pair_index_bits: u8,
    pub core_lines: u16,
    pub bwe_enabled: bool,
}

/// How an ambisonic signal is transported at a given bitrate.
#[derive(Clone, Debug, PartialEq, Eq)]
pub struct HoaConfig {
    pub order: u8,
    pub output_channels: u8,
    pub transport_channels: u8,
    pub foreground_channels: u8,
    pub residual_channels: u8,
    pub default_spatial_analysis: bool,
    pub groups: Vec<HoaGroupConfig>,
}

/// Number of unordered pairs of `channels` channels.
pub open spec fn pair_count(channels: int) -> int {
    channels * (channels - 1) / 2
}

/// `width` is the least number of bits, at least one, that can number `count` things.
pub open spec fn is_index_width(width: int, count: int) -> bool {
    &&& width >= 1
    &&& count <= span(width as nat)
    &&& width == 1 || count > span((width - 1) as nat)
}

/// Width of the field that names a pair of channels inside a group.
pub fn hoa_pair_index_bits(channels: u8) -> (result: Result<u8, CodecError>)
    ensures
        channels < 2 ==> result == Err::<u8, CodecError>(
            CodecError::InvalidData("HOA coupling group requires at least two channels"),
        ),
        channels >= 2 ==> result is Ok && is_index_width(
            result->Ok_0 as int,
            pair_count(channels as int),
        ) && result->Ok_0 <= 15,
{
    if channels < 2 {
        return Err(CodecError::InvalidData("HOA coupling group requires at least two channels"));
    }
    let count: u32 = channels as u32;
    assert(2 <= count * (count - 1) <= 255 * 254) by (nonlinear_arith)
        requires
            2 <= count <= 255,
    ;
    let combinations: u32 = count * (count - 1) / 2;
    let mut width: u8 = 1;
    let mut capacity: u32 = 2;
    proof {
        lemma_span_values();
    }
    while capacity < combinations
        invariant
            1 <= width <= 15,
            capacity == span(width as nat),
            capacity <= 0x8000,
            combinations <= 32385,
            width == 1 || combinations > span((width - 1) as nat),
        decreases 16 - width,
    {
        proof {
            lemma_span_values();
            assert(span(15) == 0x8000) by {
                assert(span(16) == 2 * span(15));
            }
            if width >= 15 {
                lemma_span_monotone(15, width as nat);
            }
        }
        capacity = capacity * 2;
        width = width + 1;
        proof {
            lemma_span_monotone(width as nat, 15);
        }
    }
    Ok(width)
}

/// The pair `(first, second)` is number `index` in the order `(0,1), (0,2), (1,2), (0,3), ...`.
pub open spec fn is_hoa_pair(first: int, second: int, index: int) -> bool {
    0 <= first < second && index == second * (second - 1) / 2 + first
}

/// Find the two channels of a pair. Pairs are numbered `(0,1), (0,2), (1,2), (0,3), ...`.
pub fn resolve_hoa_pair_index(channels: u8, pair_index: u16) -> (result: Result<
    (u8, u8),
    CodecError,
>)
    ensures
        channels < 2 ==> result == Err::<(u8, u8), CodecError>(
            CodecError::InvalidData("HOA pair resolution requires at least two channels"),
        ),
        channels >= 2 && pair_index >= pair_count(channels as int) ==> result == Err::<
            (u8, u8),
            CodecError,
        >(CodecError::InvalidData("HOA pair index exceeds available channel combinations")),
        channels >= 2 && pair_index < pair_count(channels as int) ==> result is Ok && is_hoa_pair(
            result->Ok_0.0 as int,
            result->Ok_0.1 as int,
            pair_index as int,
        ) && result->Ok_0.1 < channels,
{
    if channels < 2 {
        return Err(CodecError::InvalidData("HOA pair resolution requires at least two channels"));
    }
    assert(2 <= channels * (channels - 1) <= 255 * 254) by (nonlinear_arith)
        requires
            2 <= channels <= 255,
    ;
    let total_pairs: u32 = channels as u32 * (channels as u32 - 1) / 2;
    if pair_index as u32 >= total_pairs {
        return Err(
            CodecError::InvalidData("HOA pair index exceeds available channel combinations"),
        );
    }
    // `base` pairs have a smaller second channel than `second`.
    let mut second: u8 = 1;
    let mut base: u32 = 0;
    while pair_index as u32 >= base + second as u32
        invariant
            1 <= second < channels,
            base == second * (second - 1) / 2,
            base <= pair_index,
            total_pairs == channels * (channels - 1) / 2,
            pair_index < total_pairs,
            total_pairs <= 32385,
        decreases channels - second,
    {
        proof {
            let s = second as int;
            assert((s + 1) * s / 2 == s * (s - 1) / 2 + s) by {
                assert((s + 1) * s == s * (s - 1) + 2 * s) by (nonlinear_arith);
            }
            if s + 1 == channels {
                assert(channels * (channels - 1) == (s + 1) * s) by (nonlinear_arith)
                    requires
                        s + 1 == channels,
                ;
            }
        }
        base = base + second as u32;
        second = second + 1;
    }
    let first: u8 = (pair_index as u32 - base) as u8;
    Ok((first, second))
}

/// A pair number has only one pair.
pub proof fn hoa_pairs_are_numbered_once(
    first: int,
    second: int,
    other_first: int,
    other_second: int,
    index: int,
)
    requires
        is_hoa_pair(first, second, index),
        is_hoa_pair(other_first, other_second, index),
    ensures
        first == other_first,
        second == other_second,
{
    if second < other_second {
        lemma_pairs_ascend(first, second, other_first, other_second);
    } else if other_second < second {
        lemma_pairs_ascend(other_first, other_second, first, second);
    }
}

proof fn lemma_pairs_ascend(first: int, second: int, other_first: int, other_second: int)
    requires
        0 <= first < second < other_second,
        0 <= other_first,
    ensures
        second * (second - 1) / 2 + first < other_second * (other_second - 1) / 2 + other_first,
{
    let s = second;
    let o = other_second;
    assert((s + 1) * s == s * (s - 1) + 2 * s) by (nonlinear_arith);
    assert(o * (o - 1) >= (s + 1) * s) by (nonlinear_arith)
        requires
            0 < s,
            s + 1 <= o,
    ;
}

/// Group sizes, core line counts and extension flags of a supported configuration.
pub struct HoaRow {
    pub default_spatial_analysis: bool,
    pub groups: Seq<(u8, u16, bool)>,
}

/// The configurations that exist.
pub open spec fn hoa_row(order: int, kbps: int) -> Option<HoaRow> {
    if order == 1 && (kbps == 48 || kbps == 96 || kbps == 128 || kbps == 192 || kbps == 256) {
        Some(HoaRow { default_spatial_analysis: false, groups: seq![(4u8, 1_024u16, true)] })
    } else if order == 2 && kbps == 192 {
        Some(HoaRow { default_spatial_analysis: false, groups: seq![(9u8, 352u16, true)] })
    } else if order == 2 && kbps == 256 {
        Some(HoaRow { default_spatial_analysis: false, groups: seq![(9u8, 384u16, true)] })
    } else if order == 2 && kbps == 320 {
        Some(HoaRow { default_spatial_analysis: false, groups: seq![(9u8, 544u16, true)] })
    } else if order == 2 && (kbps == 384 || kbps == 480) {
        Some(HoaRow { default_spatial_analysis: false, groups: seq![(9u8, 672u16, true)] })
    } else if order == 2 && kbps == 512 {
        Some(HoaRow { default_spatial_analysis: false, groups: seq![(9u8, 768u16, false)] })
    } else if order == 2 && kbps == 640 {
        Some(HoaRow { default_spatial_analysis: false, groups: seq![(9u8, 800u16, false)] })
    } else if order == 3 && kbps == 256 {
        Some(
            HoaRow {
                default_spatial_analysis: true,
                groups: seq![(2u8, 732u16, false), (6u8, 384u16, true)],
            },
        )
    } else if order == 3 && kbps == 320 {
        Some(
            HoaRow {
                default_spatial_analysis: true,
                groups: seq![(2u8, 732u16, false), (7u8, 384u16, true)],
            },
        )
    } else if order == 3 && kbps == 384 {
        Some(
            HoaRow {
                default_spatial_analysis: true,
                groups: seq![(2u8, 768u16, false), (9u8, 384u16, true)],
            },
        )
    } else if order == 3 && kbps == 512 {
        Some(
            HoaRow {
                default_spatial_analysis: true,
                groups: seq![(2u8, 768u16, false), (10u8, 544u16, true)],
            },
        )
    } else if order == 3 && kbps == 640 {
        Some(
            HoaRow {
                default_spatial_analysis: true,
                groups: seq![(2u8, 768u16, false), (12u8, 672u16, true)],
            },
        )
    } else if order == 3 && kbps == 896 {
        Some(HoaRow { default_spatial_analysis: false, groups: seq![(16u8, 672u16, true)] })
    } else {
        None
    }
}

/// Channels in the groups before `group`.
pub open spec fn channels_before(groups: Seq<HoaGroupConfig>, group: int) -> int
    decreases group,
{
    if group <= 0 {
        0
    } else {
        channels_before(groups, group - 1) + groups[group - 1].channels
    }
}

impl HoaConfig {
    /// The groups follow one another without gaps, each has at least two channels and a field wide
    /// enough for its pairs, and together they are all the transport channels.
    pub open spec fn well_formed(&self) -> bool {
        &&& self.groups@.len() >= 1
        &&& forall|i: int|
            0 <= i < self.groups@.len() ==> {
                let group = #[trigger] self.groups@[i];
                &&& group.channel_offset == channels_before(self.groups@, i)
                &&& group.channels >= 2
                &&& is_index_width(
                    group.pair_index_bits as int,
                    pair_count(group.channels as int),
                )
                &&& group.pair_index_bits <= 15
            }
        &&& self.transport_channels == channels_before(self.groups@, self.groups@.len() as int)
        &&& self.residual_channels <= self.transport_channels
    }

    /// The configuration is the one that the table has for `row` at `order`.
    pub open spec fn is_row(&self, order: int, row: HoaRow) -> bool {
        &&& self.order == order
        &&& self.output_channels == (order + 1) * (order + 1)
        &&& self.default_spatial_analysis == row.default_spatial_analysis
        &&& self.groups@.len() == row.groups.len()
        &&& forall|i: int|
            0 <= i < row.groups.len() ==> {
                let group = #[trigger] self.groups@[i];
                &&& group.channels == row.groups[i].0
                &&& group.core_lines == row.groups[i].1
                &&& group.bwe_enabled == row.groups[i].2
            }
        &&& self.foreground_channels == if order == 1 {
            0
        } else {
            row.groups[0].0 as int
        }
        &&& self.residual_channels == if order == 1 {
            0
        } else {
            self.transport_channels - row.groups[0].0
        }
    }

    /// The configuration for an ambisonic order and a total bitrate, where there is one.
    pub fn for_order_bitrate(order: u8, total_bitrate_kbps: u32) -> (result: Result<
        Self,
        CodecError,
    >)
        ensures
            match hoa_row(order as int, total_bitrate_kbps as int) {
                Some(row) => result is Ok && result->Ok_0.is_row(order as int, row)
                    && result->Ok_0.well_formed(),
                None => result == Err::<HoaConfig, CodecError>(
                    CodecError::Unsupported("unsupported AVS3 HOA order/bitrate configuration"),
                ),
            },
    {
        let (default_spatial_analysis, first, second): (
            bool,
            (u8, u16, bool),
            Option<(u8, u16, bool)>,
        ) = match (order, total_bitrate_kbps) {
            (1, 48 | 96 | 128 | 192 | 256) => (false, (4, 1_024, true), None),
            (2, 192) => (false, (9, 352, true), None),
            (2, 256) => (false, (9, 384, true), None),
            (2, 320) => (false, (9, 544, true), None),
            (2, 384 | 480) => (false, (9, 672, true), None),
            (2, 512) => (false, (9, 768, false), None),
            (2, 640) => (false, (9, 800, false), None),
            (3, 256) => (true, (2, 732, false), Some((6, 384, true))),
            (3, 320) => (true, (2, 732, false), Some((7, 384, true))),
            (3, 384) => (true, (2, 768, false), Some((9, 384, true))),
            (3, 512) => (true, (2, 768, false), Some((10, 544, true))),
            (3, 640) => (true, (2, 768, false), Some((12, 672, true))),
            (3, 896) => (false, (16, 672, true), None),
            _ => {
                return Err(
                    CodecError::Unsupported("unsupported AVS3 HOA order/bitrate configuration"),
                );
            },
        };
        let output_channels: u8 = match order {
            1 => 4,
            2 => 9,
            _ => 16,
        };
        let mut groups: Vec<HoaGroupConfig> = Vec::new();
        groups.push(
            HoaGroupConfig {
                channels: first.0,
                channel_offset: 0,
                pair_index_bits: hoa_pair_index_bits(first.0)?,
                core_lines: first.1,
                bwe_enabled: first.2,
            },
        );
        let mut transport_channels: u8 = first.0;
        if let Some(next) = second {
            groups.push(
                HoaGroupConfig {
                    channels: next.0,
                    channel_offset: transport_channels,
                    pair_index_bits: hoa_pair_index_bits(next.0)?,
                    core_lines: next.1,
                    bwe_enabled: next.2,
                },
            );
            transport_channels = transport_channels + next.0;
        }
        let foreground_channels: u8 = if order == 1 {
            0
        } else {
            first.0
        };
        let residual_channels: u8 = if order == 1 {
            0
        } else {
            transport_channels - first.0
        };
        proof {
            reveal_with_fuel(channels_before, 3);
        }
        Ok(
            HoaConfig {
                order,
                output_channels,
                transport_channels,
                foreground_channels,
                residual_channels,
                default_spatial_analysis,
                groups,
            },
        )
    }

    /// The group that a transport channel belongs to.
    pub fn group_for_channel(&self, channel: usize) -> (result: Result<HoaGroupConfig, CodecError>)
        ensures
            result == if channel >= self.transport_channels {
                Err::<HoaGroupConfig, CodecError>(
                    CodecError::InvalidData(
                        "HOA transport channel index exceeds configured channel count",
                    ),
                )
            } else {
                let index = group_index_of(self.groups@, channel as int, 0);
                if index < self.groups@.len() {
                    Ok(self.groups@[index])
                } else {
                    Err(CodecError::Internal("HOA transport channel is not covered by a group"))
                }
            },
            channel < self.transport_channels && self.well_formed() ==> result is Ok,
    {
        if channel >= self.transport_channels as usize {
            return Err(
                CodecError::InvalidData(
                    "HOA transport channel index exceeds configured channel count",
                ),
            );
        }
        proof {
            if self.well_formed() {
                lemma_some_group_has(self, channel as int, 0);
            }
        }
        let mut index: usize = 0;
        while index < self.groups.len()
            invariant
                index <= self.groups@.len(),
                channel < self.transport_channels,
                group_index_of(self.groups@, channel as int, 0) == group_index_of(
                    self.groups@,
                    channel as int,
                    index as int,
                ),
            decreases self.groups@.len() - index,
        {
            let group: HoaGroupConfig = self.groups[index];
            let start: usize = group.channel_offset as usize;
            if channel >= start && channel < start + group.channels as usize {
                return Ok(group);
            }
            index = index + 1;
        }
        Err(CodecError::Internal("HOA transport channel is not covered by a group"))
    }

    /// Whether envelopes use the small codebooks: up to 32 kb/s per transport channel.
    pub fn low_bitrate_lsf_precision(&self, total_bitrate_kbps: u32) -> (low: bool)
        ensures
            low == (total_bitrate_kbps <= 32 * self.transport_channels),
    {
        total_bitrate_kbps <= self.transport_channels as u32 * 32
    }

    /// The bandwidth extension of a transport channel: `hoa_bwe`, where its group uses one.
    pub fn bwe_config_for_channel(&self, channel: usize, hoa_bwe: Option<BweConfig>) -> (result:
        Result<Option<BweConfig>, CodecError>)
        requires
            self.well_formed(),
        ensures
            channel >= self.transport_channels ==> result == Err::<Option<BweConfig>, CodecError>(
                CodecError::InvalidData(
                    "HOA transport channel index exceeds configured channel count",
                ),
            ),
            channel < self.transport_channels ==> result == channel_bwe(
                self.groups@,
                channel as int,
                hoa_bwe,
            ),
    {
        let group = self.group_for_channel(channel)?;
        if !group.bwe_enabled {
            return Ok(None);
        }
        match hoa_bwe {
            Some(config) => Ok(Some(config)),
            None => Err(
                CodecError::Internal(
                    "HOA group enables BWE but no HOA BWE configuration was selected",
                ),
            ),
        }
    }
}

/// Whether `channel` belongs to `group`.
pub open spec fn group_has(group: HoaGroupConfig, channel: int) -> bool {
    group.channel_offset <= channel < group.channel_offset + group.channels
}

/// The first group from `from` on that a transport channel belongs to, or the number of groups.
pub open spec fn group_index_of(groups: Seq<HoaGroupConfig>, channel: int, from: int) -> int
    decreases groups.len() - from,
{
    if from >= groups.len() {
        groups.len() as int
    } else if group_has(groups[from], channel) {
        from
    } else {
        group_index_of(groups, channel, from + 1)
    }
}

/// The bandwidth extension of a transport channel.
pub open spec fn channel_bwe(
    groups: Seq<HoaGroupConfig>,
    channel: int,
    hoa_bwe: Option<BweConfig>,
) -> Result<Option<BweConfig>, CodecError> {
    if !groups[group_index_of(groups, channel, 0)].bwe_enabled {
        Ok(None)
    } else if hoa_bwe is None {
        Err(
            CodecError::Internal(
                "HOA group enables BWE but no HOA BWE configuration was selected",
            ),
        )
    } else {
        Ok(hoa_bwe)
    }
}

/// Every transport channel that is not in the first `from` groups is in a later one.
proof fn lemma_some_group_has(config: &HoaConfig, channel: int, from: int)
    requires
        config.well_formed(),
        0 <= from <= config.groups@.len(),
        channels_before(config.groups@, from) <= channel < config.transport_channels,
    ensures
        from <= group_index_of(config.groups@, channel, from) < config.groups@.len(),
    decreases config.groups@.len() - from,
{
    if from < config.groups@.len() {
        let group = config.groups@[from];
        assert(group.channel_offset == channels_before(config.groups@, from));
        if !group_has(group, channel) {
            lemma_some_group_has(config, channel, from + 1);
        }
    }
}

/// Later groups start later.
pub proof fn lemma_channels_before_monotone(groups: Seq<HoaGroupConfig>, a: int, b: int)
    requires
        0 <= a <= b,
    ensures
        0 <= channels_before(groups, a) <= channels_before(groups, b),
    decreases b,
{
    if a < b {
        lemma_channels_before_monotone(groups, a, b - 1);
    } else if a > 0 {
        lemma_channels_before_monotone(groups, a - 1, b - 1);
    }
}

/// No two groups of a well-formed configuration share a channel.
pub proof fn hoa_groups_are_disjoint(config: HoaConfig, channel: int, a: int, b: int)
    requires
        config.well_formed(),
        0 <= a < config.groups@.len(),
        0 <= b < config.groups@.len(),
        group_has(config.groups@[a], channel),
        group_has(config.groups@[b], channel),
    ensures
        a == b,
{
    let groups = config.groups@;
    assert(groups[a].channel_offset == channels_before(groups, a));
    assert(groups[b].channel_offset == channels_before(groups, b));
    if a < b {
        lemma_channels_before_monotone(groups, a + 1, b);
    } else if b < a {
        lemma_channels_before_monotone(groups, b + 1, a);
    }
}

/// A bitrate and an order leave no choice: two configurations for them have the same groups and
/// the same channel counts.
pub proof fn hoa_configuration_is_unique(a: HoaConfig, b: HoaConfig, order: int, row: HoaRow)
    requires
        a.is_row(order, row),
        a.well_formed(),
        b.is_row(order, row),
        b.well_formed(),
    ensures
        a.groups@ == b.groups@,
        a.order == b.order,
        a.output_channels == b.output_channels,
        a.transport_channels == b.transport_channels,
        a.foreground_channels == b.foreground_channels,
        a.residual_channels == b.residual_channels,
        a.default_spatial_analysis == b.default_spatial_analysis,
{
    assert forall|i: int| 0 <= i < row.groups.len() implies a.groups@[i] == b.groups@[i] by {
        let left = a.groups@[i];
        let right = b.groups@[i];
        lemma_same_channels_before(a.groups@, b.groups@, i);
        lemma_index_width_unique(
            left.pair_index_bits as int,
            right.pair_index_bits as int,
            pair_count(left.channels as int),
        );
    }
    assert(a.groups@ =~= b.groups@);
}

proof fn lemma_same_channels_before(a: Seq<HoaGroupConfig>, b: Seq<HoaGroupConfig>, count: int)
    requires
        0 <= count <= a.len(),
        a.len() == b.len(),
        forall|i: int| 0 <= i < a.len() ==> (#[trigger] a[i]).channels == b[i].channels,
    ensures
        channels_before(a, count) == channels_before(b, count),
    decreases count,
{
    if count > 0 {
        lemma_same_channels_before(a, b, count - 1);
        assert(a[count - 1].channels == b[count - 1].channels);
    }
}

proof fn lemma_index_width_unique(a: int, b: int, count: int)
    requires
        is_index_width(a, count),
        is_index_width(b, count),
    ensures
        a == b,
{
    if a < b {
        lemma_span_monotone(a as nat, (b - 1) as nat);
    } else if b < a {
        lemma_span_monotone(b as nat, (a - 1) as nat);
    }
}

} // verus!
