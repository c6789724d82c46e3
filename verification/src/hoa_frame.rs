//! Side information of a whole ambisonic frame.

use crate::bitreader::{addressable_bits, bit_capacity};
use crate::bwe::{BweConfig, BweSideInfo};
use crate::config::NeuralNetworkType;
use crate::core_side::{core_syntax_at, parse_core_side_prefix_at, CoreSidePrefix, TnsCodebook};
use crate::error::CodecError;
use crate::ga_frame::{
    channel_groups_at, channel_head_at, channel_qcs_at, group_counts, head_matches,
    head_transforms, join_channels, lemma_channel_groups_len, lemma_channel_head_bounds,
    lemma_channel_qcs_bounds, parse_channel_groups, parse_channel_qcs, transforms_of, ChannelHead,
    ChannelHeads, GaChannelSideInfo,
};
use crate::group::GroupSyntax;
use crate::hoa_allocation::{
    allocate_hoa_bytes, fixed_bits_from, hoa_allocation, hoa_allocation_conserves_bytes,
    lemma_sum_split, range_sum, ratios_of, HoaBitAllocation, HoaGroupRatios,
};
use crate::hoa_side::{channel_bwe, hoa_configuration_is_unique, hoa_row, HoaConfig, HoaGroupConfig};
use crate::hoa_syntax::{
    hoa_syntax_at, parse_hoa_side_info_at, HoaGroupSyntax, HoaSideInfo, HoaSyntax,
};
use crate::qc::{qc_syntax_at, QcSyntax};
use vstd::prelude::*;

verus! {

/// Side information of an ambisonic frame.
#[derive(Clone, Debug, PartialEq, Eq)]
pub struct GaHoaFrameSideInfo {
    pub config: HoaConfig,
    pub channels: Vec<GaChannelSideInfo>,
    pub channel_bwe_configs: Vec<Option<BweConfig>>,
    pub hoa: HoaSideInfo,
    pub allocation: HoaBitAllocation,
    pub next_bit_offset: usize,
    pub trailing_bits: usize,
}

/// What an ambisonic frame says.
pub struct HoaFrameSyntax {
    pub heads: Seq<ChannelHead>,
    pub groups: Seq<GroupSyntax>,
    pub hoa: HoaSyntax,
    pub channel_bytes: Seq<usize>,
    pub qcs: Seq<QcSyntax>,
    pub end: int,
    pub trailing_bits: int,
}

/// The bandwidth extension of every channel.
pub open spec fn bwe_configs(
    groups: Seq<HoaGroupConfig>,
    channels: int,
    hoa_bwe: Option<BweConfig>,
) -> Seq<Option<BweConfig>> {
    Seq::new(channels as nat, |channel: int| channel_bwe(groups, channel, hoa_bwe)->Ok_0)
}

/// The number of groups that each grouping block gives.
pub open spec fn syntax_counts(groups: Seq<GroupSyntax>) -> Seq<int> {
    Seq::new(groups.len(), |i: int| groups[i].num_groups)
}

/// What the allocation takes from the groups of an ambisonic block.
pub open spec fn syntax_ratios(configs: Seq<HoaGroupConfig>, groups: Seq<HoaGroupSyntax>) -> Seq<
    HoaGroupRatios,
> {
    Seq::new(
        groups.len(),
        |i: int|
            HoaGroupRatios {
                channels: configs[i].channels,
                channel_offset: configs[i].channel_offset,
                group_ratio: groups[i].group_ratio,
                channel_ratios: groups[i].channel_ratios,
            },
    )
}

/// The core and bandwidth extension blocks of one transport channel. Which bandwidth extension the
/// channel has is looked up behind its core.
pub open spec fn hoa_head_at(
    codebook: TnsCodebook,
    bytes: Seq<u8>,
    end: int,
    position: int,
    low_bitrate_precision: bool,
    groups: Seq<HoaGroupConfig>,
    hoa_bwe: Option<BweConfig>,
    channel: int,
) -> Result<ChannelHead, CodecError> {
    match core_syntax_at(codebook, bytes, end, position, low_bitrate_precision) {
        Err(error) => Err(error),
        Ok(_) => match channel_bwe(groups, channel, hoa_bwe) {
            Err(error) => Err(error),
            Ok(config) => channel_head_at(
                codebook,
                bytes,
                end,
                position,
                low_bitrate_precision,
                config,
            ),
        },
    }
}

/// The heads of the transport channels from `channel` on, and the bit after them.
pub open spec fn hoa_heads_at(
    codebook: TnsCodebook,
    bytes: Seq<u8>,
    end: int,
    position: int,
    low_bitrate_precision: bool,
    groups: Seq<HoaGroupConfig>,
    channels: int,
    hoa_bwe: Option<BweConfig>,
    channel: int,
) -> Result<(Seq<ChannelHead>, int), CodecError>
    decreases channels - channel,
{
    if channel >= channels {
        Ok((Seq::empty(), position))
    } else {
        match hoa_head_at(
            codebook,
            bytes,
            end,
            position,
            low_bitrate_precision,
            groups,
            hoa_bwe,
            channel,
        ) {
            Err(error) => Err(error),
            Ok(head) => match hoa_heads_at(
                codebook,
                bytes,
                end,
                head.end,
                low_bitrate_precision,
                groups,
                channels,
                hoa_bwe,
                channel + 1,
            ) {
                Err(error) => Err(error),
                Ok((rest, next)) => Ok((seq![head] + rest, next)),
            },
        }
    }
}

/// The part of an ambisonic frame in front of its byte allocation.
pub open spec fn hoa_prefix_at(
    codebook: TnsCodebook,
    bytes: Seq<u8>,
    end: int,
    start: int,
    total_bitrate_kbps: int,
    config: HoaConfig,
    hoa_bwe: Option<BweConfig>,
) -> Result<(Seq<ChannelHead>, Seq<GroupSyntax>, HoaSyntax), CodecError> {
    match hoa_heads_at(
        codebook,
        bytes,
        end,
        start,
        total_bitrate_kbps <= 32 * config.transport_channels,
        config.groups@,
        config.transport_channels as int,
        hoa_bwe,
        0,
    ) {
        Err(error) => Err(error),
        Ok((heads, middle)) => match channel_groups_at(
            bytes,
            end,
            middle,
            head_transforms(heads),
            0,
        ) {
            Err(error) => Err(error),
            Ok((groups, next)) => match hoa_syntax_at(bytes, end, next, config) {
                Err(error) => Err(error),
                Ok(hoa) => Ok((heads, groups, hoa)),
            },
        },
    }
}

/// The ambisonic frame written at bit `start`: all core and bandwidth extension blocks, all
/// grouping blocks, the ambisonic block, then one quantisation and coding block per channel.
pub open spec fn hoa_frame_at(
    codebook: TnsCodebook,
    bytes: Seq<u8>,
    end: int,
    start: int,
    nn_type: NeuralNetworkType,
    total_bitrate_kbps: int,
    config: HoaConfig,
    hoa_bwe: Option<BweConfig>,
) -> Result<HoaFrameSyntax, CodecError> {
    match hoa_prefix_at(codebook, bytes, end, start, total_bitrate_kbps, config, hoa_bwe) {
        Err(error) => Err(error),
        Ok((heads, groups, hoa)) => match hoa_allocation(
            end - hoa.end,
            nn_type,
            syntax_counts(groups),
            config.transport_channels as int,
            config.groups@,
            syntax_ratios(config.groups@, hoa.groups),
        ) {
            Err(error) => Err(error),
            Ok((channel_bytes, trailing_bits)) => match channel_qcs_at(
                bytes,
                end,
                hoa.end,
                nn_type,
                syntax_counts(groups),
                channel_bytes,
                0,
            ) {
                Err(error) => Err(error),
                Ok((qcs, next)) => Ok(
                    HoaFrameSyntax {
                        heads,
                        groups,
                        hoa,
                        channel_bytes,
                        qcs,
                        end: next,
                        trailing_bits,
                    },
                ),
            },
        },
    }
}

impl GaHoaFrameSideInfo {
    /// The frame holds exactly what `syntax` says.
    pub open spec fn matches(&self, syntax: HoaFrameSyntax, hoa_bwe: Option<BweConfig>) -> bool {
        let channels = self.config.transport_channels as int;
        &&& self.channels@.len() == channels
        &&& syntax.qcs.len() == channels
        &&& forall|i: int|
            0 <= i < channels ==> (#[trigger] self.channels@[i]).matches(
                syntax.heads[i],
                syntax.groups[i],
                syntax.qcs[i],
            )
        &&& self.channel_bwe_configs@ == bwe_configs(self.config.groups@, channels, hoa_bwe)
        &&& self.hoa.matches(self.config, syntax.hoa)
        &&& self.allocation.channel_bytes@ == syntax.channel_bytes
        &&& self.allocation.trailing_bits == syntax.trailing_bits
        &&& self.next_bit_offset == syntax.end
        &&& self.trailing_bits == syntax.trailing_bits
    }
}

/// There is one head per channel, and they end behind their start.
proof fn lemma_hoa_heads(
    codebook: TnsCodebook,
    bytes: Seq<u8>,
    end: int,
    position: int,
    low_bitrate_precision: bool,
    groups: Seq<HoaGroupConfig>,
    channels: int,
    hoa_bwe: Option<BweConfig>,
    channel: int,
)
    requires
        0 <= channel <= channels,
    ensures
        hoa_heads_at(
            codebook,
            bytes,
            end,
            position,
            low_bitrate_precision,
            groups,
            channels,
            hoa_bwe,
            channel,
        ) matches Ok((heads, next)) ==> heads.len() == channels - channel && position <= next,
    decreases channels - channel,
{
    if channel < channels {
        if let Ok(head) = hoa_head_at(
            codebook,
            bytes,
            end,
            position,
            low_bitrate_precision,
            groups,
            hoa_bwe,
            channel,
        ) {
            lemma_channel_head_bounds(
                codebook,
                bytes,
                end,
                position,
                low_bitrate_precision,
                channel_bwe(groups, channel, hoa_bwe)->Ok_0,
            );
            lemma_hoa_heads(
                codebook,
                bytes,
                end,
                head.end,
                low_bitrate_precision,
                groups,
                channels,
                hoa_bwe,
                channel + 1,
            );
        }
    }
}

/// The blocks end where their fixed fields and bytes say.
proof fn lemma_qcs_end(
    bytes: Seq<u8>,
    end: int,
    position: int,
    nn_type: NeuralNetworkType,
    groups: Seq<int>,
    channel_bytes: Seq<usize>,
    channel: int,
)
    requires
        groups.len() == channel_bytes.len(),
        0 <= channel <= groups.len(),
    ensures
        channel_qcs_at(
            bytes,
            end,
            position,
            nn_type,
            groups,
            channel_bytes,
            channel,
        ) matches Ok((qcs, next)) ==> {
            &&& fixed_bits_from(nn_type, groups, channel) is Ok
            &&& next == position + fixed_bits_from(nn_type, groups, channel)->Ok_0 + 8 * range_sum(
                channel_bytes,
                channel,
                channel_bytes.len() as int,
            )
        },
    decreases groups.len() - channel,
{
    reveal(qc_syntax_at);
    if channel < groups.len() {
        if let Ok(qc) = qc_syntax_at(
            bytes,
            end,
            position,
            nn_type,
            groups[channel],
            channel_bytes[channel] as int,
        ) {
            lemma_qcs_end(bytes, end, qc.end, nn_type, groups, channel_bytes, channel + 1);
            lemma_sum_split(channel_bytes, channel, channel + 1, channel_bytes.len() as int);
            assert(range_sum(channel_bytes, channel, channel + 1) == channel_bytes[channel]) by {
                reveal_with_fuel(range_sum, 2);
            }
        }
    }
}

/// The blocks of an ambisonic frame and the bits left over make up the whole payload, and fewer
/// than eight bits are left over.
pub proof fn hoa_frame_accounts_for_every_bit(
    codebook: TnsCodebook,
    bytes: Seq<u8>,
    end: int,
    start: int,
    nn_type: NeuralNetworkType,
    total_bitrate_kbps: int,
    config: HoaConfig,
    hoa_bwe: Option<BweConfig>,
)
    requires
        config.well_formed(),
        0 <= start,
        end <= usize::MAX,
    ensures
        hoa_frame_at(
            codebook,
            bytes,
            end,
            start,
            nn_type,
            total_bitrate_kbps,
            config,
            hoa_bwe,
        ) matches Ok(syntax) ==> {
            &&& syntax.end + syntax.trailing_bits == end
            &&& 0 <= syntax.trailing_bits < 8
        },
{
    let low = total_bitrate_kbps <= 32 * config.transport_channels;
    let channels = config.transport_channels as int;
    lemma_hoa_heads(codebook, bytes, end, start, low, config.groups@, channels, hoa_bwe, 0);
    if let Ok((heads, middle)) = hoa_heads_at(
        codebook,
        bytes,
        end,
        start,
        low,
        config.groups@,
        channels,
        hoa_bwe,
        0,
    ) {
        lemma_channel_groups_len(bytes, end, middle, head_transforms(heads), 0);
        if let Ok((groups, next)) = channel_groups_at(
            bytes,
            end,
            middle,
            head_transforms(heads),
            0,
        ) {
            crate::hoa_syntax::lemma_hoa_syntax_bounds(bytes, end, next, config);
            if let Ok(hoa) = hoa_syntax_at(bytes, end, next, config) {
                let ratios = syntax_ratios(config.groups@, hoa.groups);
                let counts = syntax_counts(groups);
                hoa_allocation_conserves_bytes(end - hoa.end, nn_type, counts, config, ratios);
                if let Ok((channel_bytes, _)) = hoa_allocation(
                    end - hoa.end,
                    nn_type,
                    counts,
                    config.transport_channels as int,
                    config.groups@,
                    ratios,
                ) {
                    lemma_qcs_end(bytes, end, hoa.end, nn_type, counts, channel_bytes, 0);
                }
            }
        }
    }
}

/// A frame depends on the content of its configuration only.
proof fn lemma_same_config_same_frame(
    codebook: TnsCodebook,
    bytes: Seq<u8>,
    end: int,
    start: int,
    nn_type: NeuralNetworkType,
    total_bitrate_kbps: int,
    a: HoaConfig,
    b: HoaConfig,
    hoa_bwe: Option<BweConfig>,
)
    requires
        a.groups@ == b.groups@,
        a.transport_channels == b.transport_channels,
        a.foreground_channels == b.foreground_channels,
        a.residual_channels == b.residual_channels,
        a.default_spatial_analysis == b.default_spatial_analysis,
    ensures
        hoa_frame_at(
            codebook,
            bytes,
            end,
            start,
            nn_type,
            total_bitrate_kbps,
            a,
            hoa_bwe,
        ) == hoa_frame_at(
            codebook,
            bytes,
            end,
            start,
            nn_type,
            total_bitrate_kbps,
            b,
            hoa_bwe,
        ),
{
    assert forall|position: int| hoa_syntax_at(bytes, end, position, a) == #[trigger] hoa_syntax_at(
        bytes,
        end,
        position,
        b,
    ) by {}
}

/// Parse the core and bandwidth extension blocks of every transport channel, and keep which
/// bandwidth extension each of them has.
fn parse_hoa_heads(
    payload: &[u8],
    bit_offset: usize,
    low_bitrate_precision: bool,
    config: &HoaConfig,
    hoa_bwe: Option<BweConfig>,
    codebook: &TnsCodebook,
) -> (result: Result<(ChannelHeads, Vec<Option<BweConfig>>), CodecError>)
    requires
        config.well_formed(),
    ensures
        match hoa_heads_at(
            *codebook,
            payload@,
            bit_capacity(payload@),
            bit_offset as int,
            low_bitrate_precision,
            config.groups@,
            config.transport_channels as int,
            hoa_bwe,
            0,
        ) {
            Ok((heads, next)) => {
                &&& result is Ok
                &&& (result->Ok_0).0.matches(heads)
                &&& (result->Ok_0).0.next_bit_offset == next
                &&& (result->Ok_0).1@ == bwe_configs(
                    config.groups@,
                    config.transport_channels as int,
                    hoa_bwe,
                )
            },
            Err(error) => result == Err::<(ChannelHeads, Vec<Option<BweConfig>>), CodecError>(
                error,
            ),
        },
{
    let ghost bytes = payload@;
    let ghost end = bit_capacity(bytes);
    let ghost groups = config.groups@;
    let channels: usize = config.transport_channels as usize;
    let ghost goal = hoa_heads_at(
        *codebook,
        bytes,
        end,
        bit_offset as int,
        low_bitrate_precision,
        groups,
        channels as int,
        hoa_bwe,
        0,
    );
    let mut cores: Vec<CoreSidePrefix> = Vec::new();
    let mut bwe: Vec<Option<BweSideInfo>> = Vec::new();
    let mut configs: Vec<Option<BweConfig>> = Vec::new();
    let mut offset: usize = bit_offset;
    let mut channel: usize = 0;
    let ghost mut done = Seq::<ChannelHead>::empty();
    proof {
        if let Ok((all, _)) = goal {
            assert(done + all =~= all);
        }
    }
    while channel < channels
        invariant
            channel <= channels,
            channels == config.transport_channels,
            config.well_formed(),
            groups == config.groups@,
            bytes == payload@,
            end == bit_capacity(bytes),
            done.len() == channel,
            cores@.len() == channel,
            bwe@.len() == channel,
            configs@.len() == channel,
            forall|i: int|
                0 <= i < channel ==> head_matches(#[trigger] cores@[i], bwe@[i], done[i]),
            forall|i: int|
                0 <= i < channel ==> #[trigger] configs@[i] == channel_bwe(
                    groups,
                    i,
                    hoa_bwe,
                )->Ok_0,
            goal == hoa_heads_at(
                *codebook,
                bytes,
                end,
                bit_offset as int,
                low_bitrate_precision,
                groups,
                channels as int,
                hoa_bwe,
                0,
            ),
            match hoa_heads_at(
                *codebook,
                bytes,
                end,
                offset as int,
                low_bitrate_precision,
                groups,
                channels as int,
                hoa_bwe,
                channel as int,
            ) {
                Ok((rest, next)) => goal == Ok::<(Seq<ChannelHead>, int), CodecError>(
                    (done + rest, next),
                ),
                Err(error) => goal == Err::<(Seq<ChannelHead>, int), CodecError>(error),
            },
        decreases channels - channel,
    {
        let core = parse_core_side_prefix_at(payload, offset, low_bitrate_precision, codebook)?;
        let bwe_config = config.bwe_config_for_channel(channel, hoa_bwe)?;
        let (side, next): (Option<BweSideInfo>, usize) = match bwe_config {
            None => (None, core.next_bit_offset),
            Some(extension) => {
                let side = extension.parse_side_info(payload, core.next_bit_offset)?;
                (Some(side), side.next_bit_offset)
            },
        };
        proof {
            let head = hoa_head_at(
                *codebook,
                bytes,
                end,
                offset as int,
                low_bitrate_precision,
                groups,
                hoa_bwe,
                channel as int,
            )->Ok_0;
            if let Ok((rest, _)) = hoa_heads_at(
                *codebook,
                bytes,
                end,
                head.end,
                low_bitrate_precision,
                groups,
                channels as int,
                hoa_bwe,
                channel as int + 1,
            ) {
                assert(done + (seq![head] + rest) =~= done.push(head) + rest);
            }
            done = done.push(head);
        }
        cores.push(core);
        bwe.push(side);
        configs.push(bwe_config);
        offset = next;
        channel = channel + 1;
    }
    assert(done + Seq::<ChannelHead>::empty() =~= done);
    assert(configs@ =~= bwe_configs(groups, channels as int, hoa_bwe));
    Ok((ChannelHeads { cores, bwe, next_bit_offset: offset }, configs))
}

/// Parse an ambisonic frame through the quantisation and coding blocks of all its transport
/// channels. `hoa_bwe` is the bandwidth extension for this order and bitrate, where there is one.
pub fn parse_hoa_frame_side_info(
    payload: &[u8],
    core_bit_offset: usize,
    order: u8,
    total_bitrate_kbps: u32,
    nn_type: NeuralNetworkType,
    hoa_bwe: Option<BweConfig>,
    codebook: &TnsCodebook,
) -> (result: Result<GaHoaFrameSideInfo, CodecError>)
    ensures
        nn_type is Reserved ==> result == Err::<GaHoaFrameSideInfo, CodecError>(
            CodecError::Unsupported("reserved AVS3 neural-network type"),
        ),
        !(nn_type is Reserved) ==> match hoa_row(order as int, total_bitrate_kbps as int) {
            None => result == Err::<GaHoaFrameSideInfo, CodecError>(
                CodecError::Unsupported("unsupported AVS3 HOA order/bitrate configuration"),
            ),
            Some(row) => {
                &&& result matches Ok(frame) ==> frame.config.is_row(order as int, row)
                    && frame.config.well_formed()
                &&& forall|config: HoaConfig| #[trigger]
                    config.is_row(order as int, row) && config.well_formed()
                        ==> match hoa_frame_at(
                        *codebook,
                        payload@,
                        bit_capacity(payload@),
                        core_bit_offset as int,
                        nn_type,
                        total_bitrate_kbps as int,
                        config,
                        hoa_bwe,
                    ) {
                        Err(error) => result == Err::<GaHoaFrameSideInfo, CodecError>(error),
                        Ok(syntax) => result is Ok && result->Ok_0.matches(syntax, hoa_bwe),
                    }
            },
        },
{
    if let NeuralNetworkType::Reserved(_) = nn_type {
        return Err(CodecError::Unsupported("reserved AVS3 neural-network type"));
    }
    let config = HoaConfig::for_order_bitrate(order, total_bitrate_kbps)?;
    let ghost row = hoa_row(order as int, total_bitrate_kbps as int)->0;
    proof {
        assert forall|other: HoaConfig| #[trigger]
            other.is_row(order as int, row) && other.well_formed() implies hoa_frame_at(
            *codebook,
            payload@,
            bit_capacity(payload@),
            core_bit_offset as int,
            nn_type,
            total_bitrate_kbps as int,
            other,
            hoa_bwe,
        ) == hoa_frame_at(
            *codebook,
            payload@,
            bit_capacity(payload@),
            core_bit_offset as int,
            nn_type,
            total_bitrate_kbps as int,
            config,
            hoa_bwe,
        ) by {
            hoa_configuration_is_unique(config, other, order as int, row);
            lemma_same_config_same_frame(
                *codebook,
                payload@,
                bit_capacity(payload@),
                core_bit_offset as int,
                nn_type,
                total_bitrate_kbps as int,
                other,
                config,
                hoa_bwe,
            );
        }
    }
    parse_configured_hoa_frame(
        payload,
        core_bit_offset,
        config,
        total_bitrate_kbps,
        nn_type,
        hoa_bwe,
        codebook,
    )
}

/// Parse an ambisonic frame of a known configuration.
fn parse_configured_hoa_frame(
    payload: &[u8],
    core_bit_offset: usize,
    config: HoaConfig,
    total_bitrate_kbps: u32,
    nn_type: NeuralNetworkType,
    hoa_bwe: Option<BweConfig>,
    codebook: &TnsCodebook,
) -> (result: Result<GaHoaFrameSideInfo, CodecError>)
    requires
        config.well_formed(),
    ensures
        match hoa_frame_at(
            *codebook,
            payload@,
            bit_capacity(payload@),
            core_bit_offset as int,
            nn_type,
            total_bitrate_kbps as int,
            config,
            hoa_bwe,
        ) {
            Err(error) => result == Err::<GaHoaFrameSideInfo, CodecError>(error),
            Ok(syntax) => result is Ok && result->Ok_0.matches(syntax, hoa_bwe)
                && result->Ok_0.config == config,
        },
{
    let ghost bytes = payload@;
    let ghost end = bit_capacity(payload@);
    let low_bitrate_precision: bool = config.low_bitrate_lsf_precision(total_bitrate_kbps);
    let (heads, configs) = parse_hoa_heads(
        payload,
        core_bit_offset,
        low_bitrate_precision,
        &config,
        hoa_bwe,
        codebook,
    )?;
    let ghost head_syntax = hoa_heads_at(
        *codebook,
        bytes,
        end,
        core_bit_offset as int,
        low_bitrate_precision,
        config.groups@,
        config.transport_channels as int,
        hoa_bwe,
        0,
    )->Ok_0.0;
    assert(transforms_of(heads.cores@) =~= head_transforms(head_syntax));
    let groups = parse_channel_groups(payload, heads.next_bit_offset, &heads.cores)?;
    let ghost group_syntax = channel_groups_at(
        bytes,
        end,
        heads.next_bit_offset as int,
        head_transforms(head_syntax),
        0,
    )->Ok_0.0;
    assert(group_counts(groups.groups@) =~= syntax_counts(group_syntax));
    assert forall|i: int| 0 <= i < config.groups@.len() implies (
    #[trigger] config.groups@[i]).pair_index_bits <= 16 && config.groups@[i].channel_offset
        + config.groups@[i].channels <= config.transport_channels by {
        crate::hoa_side::lemma_channels_before_monotone(
            config.groups@,
            i + 1,
            config.groups@.len() as int,
        );
    }
    let hoa = parse_hoa_side_info_at(payload, groups.next_bit_offset, &config)?;
    let ghost hoa_syntax = hoa_syntax_at(bytes, end, groups.next_bit_offset as int, config)->Ok_0;
    proof {
        crate::hoa_syntax::lemma_hoa_syntax_bounds(
            bytes,
            end,
            groups.next_bit_offset as int,
            config,
        );
        assert(ratios_of(hoa.groups@) =~= syntax_ratios(config.groups@, hoa_syntax.groups)) by {
            assert forall|i: int| 0 <= i < hoa.groups@.len() implies ratios_of(hoa.groups@)[i]
                == syntax_ratios(config.groups@, hoa_syntax.groups)[i] by {
                assert(hoa.groups@[i].matches(config.groups@[i], hoa_syntax.groups[i]));
            }
        }
    }
    let payload_bits: usize = addressable_bits(payload);
    let allocation = allocate_hoa_bytes(
        payload_bits - hoa.next_bit_offset,
        nn_type,
        groups.groups.as_slice(),
        &config,
        &hoa,
    )?;
    let blocks = parse_channel_qcs(
        payload,
        hoa.next_bit_offset,
        nn_type,
        &groups.groups,
        &allocation.channel_bytes,
    )?;
    proof {
        lemma_hoa_heads(
            *codebook,
            bytes,
            end,
            core_bit_offset as int,
            low_bitrate_precision,
            config.groups@,
            config.transport_channels as int,
            hoa_bwe,
            0,
        );
        lemma_channel_groups_len(
            bytes,
            end,
            heads.next_bit_offset as int,
            head_transforms(head_syntax),
            0,
        );
        hoa_allocation_conserves_bytes(
            end - hoa.next_bit_offset,
            nn_type,
            syntax_counts(group_syntax),
            config,
            syntax_ratios(config.groups@, hoa_syntax.groups),
        );
        lemma_channel_qcs_bounds(
            bytes,
            end,
            hoa.next_bit_offset as int,
            nn_type,
            syntax_counts(group_syntax),
            allocation.channel_bytes@,
            0,
        );
    }
    let channels = join_channels(&heads.cores, &heads.bwe, &groups.groups, &blocks.qcs);
    let trailing_bits: usize = allocation.trailing_bits;
    Ok(
        GaHoaFrameSideInfo {
            config,
            channels,
            channel_bwe_configs: configs,
            hoa,
            allocation,
            next_bit_offset: blocks.next_bit_offset,
            trailing_bits,
        },
    )
}

} // verus!
