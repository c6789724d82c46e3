//! Side information of a coded channel, and of a whole multichannel frame.

use crate::bitreader::{addressable_bits, bit_capacity};
use crate::bwe::{bwe_syntax_at, BweConfig, BweSideInfo, BweSyntax};
use crate::config::NeuralNetworkType;
use crate::core_side::{
    core_syntax_at, parse_core_side_prefix_at, CoreSidePrefix, CoreSyntax, TnsCodebook,
    TransformType,
};
use crate::error::CodecError;
use crate::group::{group_syntax_at, parse_group_bits_at, GroupSideInfo, GroupSyntax};
use crate::qc::{parse_qc_side_info_at, qc_syntax_at, QcSideInfo, QcSyntax};
use vstd::prelude::*;

verus! {

/// Side information of one coded channel.
#[derive(Clone, Copy, Debug, PartialEq, Eq)]
pub struct GaChannelSideInfo {
    pub core: CoreSidePrefix,
    pub bwe: Option<BweSideInfo>,
    pub group: GroupSideInfo,
    pub qc: QcSideInfo,
}

/// The core block of a channel together with its bandwidth extension block, if it has one.
pub struct ChannelHead {
    pub core: CoreSyntax,
    pub bwe: Option<BweSyntax>,
    pub end: int,
}

/// The core and bandwidth extension blocks written at bit `start`.
pub open spec fn channel_head_at(
    codebook: TnsCodebook,
    bytes: Seq<u8>,
    end: int,
    start: int,
    low_bitrate_precision: bool,
    bwe_config: Option<BweConfig>,
) -> Result<ChannelHead, CodecError> {
    match core_syntax_at(codebook, bytes, end, start, low_bitrate_precision) {
        Err(error) => Err(error),
        Ok(core) => match bwe_config {
            None => Ok(ChannelHead { core, bwe: None, end: core.end }),
            Some(config) => match bwe_syntax_at(bytes, end, core.end, config) {
                Err(error) => Err(error),
                Ok(bwe) => Ok(ChannelHead { core, bwe: Some(bwe), end: bwe.end }),
            },
        },
    }
}

/// `core` and `bwe` hold exactly what `head` says.
pub open spec fn head_matches(
    core: CoreSidePrefix,
    bwe: Option<BweSideInfo>,
    head: ChannelHead,
) -> bool {
    &&& core.matches(head.core)
    &&& match (bwe, head.bwe) {
        (Some(side), Some(syntax)) => side.matches(syntax),
        (None, None) => true,
        _ => false,
    }
}

impl GaChannelSideInfo {
    /// The channel holds exactly what its three blocks say.
    pub open spec fn matches(&self, head: ChannelHead, group: GroupSyntax, qc: QcSyntax) -> bool {
        &&& head_matches(self.core, self.bwe, head)
        &&& self.group.matches(group)
        &&& self.qc.matches(qc)
    }
}

/// A core and bandwidth extension block that was read lies inside the data, behind its start.
pub proof fn lemma_channel_head_bounds(
    codebook: TnsCodebook,
    bytes: Seq<u8>,
    end: int,
    start: int,
    low_bitrate_precision: bool,
    bwe_config: Option<BweConfig>,
)
    ensures
        channel_head_at(
            codebook,
            bytes,
            end,
            start,
            low_bitrate_precision,
            bwe_config,
        ) matches Ok(head) ==> start < head.end <= end,
{
    crate::core_side::lemma_core_syntax_bounds(
        codebook,
        bytes,
        end,
        start,
        low_bitrate_precision,
    );
    if let Ok(core) = core_syntax_at(codebook, bytes, end, start, low_bitrate_precision) {
        if let Some(config) = bwe_config {
            crate::bwe::lemma_bwe_syntax_bounds(bytes, end, core.end, config);
        }
    }
}

/// Parse the core and bandwidth extension blocks of one channel.
pub fn parse_channel_core_and_bwe(
    payload: &[u8],
    bit_offset: usize,
    low_bitrate_precision: bool,
    bwe_config: Option<BweConfig>,
    codebook: &TnsCodebook,
) -> (result: Result<(CoreSidePrefix, Option<BweSideInfo>, usize), CodecError>)
    ensures
        match channel_head_at(
            *codebook,
            payload@,
            bit_capacity(payload@),
            bit_offset as int,
            low_bitrate_precision,
            bwe_config,
        ) {
            Ok(head) => result is Ok && head_matches(result->Ok_0.0, result->Ok_0.1, head)
                && result->Ok_0.2 == head.end,
            Err(error) => result == Err::<
                (CoreSidePrefix, Option<BweSideInfo>, usize),
                CodecError,
            >(error),
        },
{
    let core = parse_core_side_prefix_at(payload, bit_offset, low_bitrate_precision, codebook)?;
    match bwe_config {
        None => Ok((core, None, core.next_bit_offset)),
        Some(config) => {
            let side = config.parse_side_info(payload, core.next_bit_offset)?;
            Ok((core, Some(side), side.next_bit_offset))
        },
    }
}

/// The heads of the channels from `channel` on, and the bit after them.
pub open spec fn channel_heads_at(
    codebook: TnsCodebook,
    bytes: Seq<u8>,
    end: int,
    position: int,
    low_bitrate_precision: bool,
    configs: Seq<Option<BweConfig>>,
    channel: int,
) -> Result<(Seq<ChannelHead>, int), CodecError>
    decreases configs.len() - channel,
{
    if channel >= configs.len() {
        Ok((Seq::empty(), position))
    } else {
        match channel_head_at(
            codebook,
            bytes,
            end,
            position,
            low_bitrate_precision,
            configs[channel],
        ) {
            Err(error) => Err(error),
            Ok(head) => match channel_heads_at(
                codebook,
                bytes,
                end,
                head.end,
                low_bitrate_precision,
                configs,
                channel + 1,
            ) {
                Err(error) => Err(error),
                Ok((rest, next)) => Ok((seq![head] + rest, next)),
            },
        }
    }
}

/// The grouping blocks of the channels from `channel` on, and the bit after them.
pub open spec fn channel_groups_at(
    bytes: Seq<u8>,
    end: int,
    position: int,
    transforms: Seq<TransformType>,
    channel: int,
) -> Result<(Seq<GroupSyntax>, int), CodecError>
    decreases transforms.len() - channel,
{
    if channel >= transforms.len() {
        Ok((Seq::empty(), position))
    } else {
        match group_syntax_at(bytes, end, position, transforms[channel]) {
            Err(error) => Err(error),
            Ok(group) => match channel_groups_at(bytes, end, group.end, transforms, channel + 1) {
                Err(error) => Err(error),
                Ok((rest, next)) => Ok((seq![group] + rest, next)),
            },
        }
    }
}

/// The quantisation and coding blocks of the channels from `channel` on, and the bit after them.
/// A channel takes part if it has both a group and a byte budget.
pub open spec fn channel_qcs_at(
    bytes: Seq<u8>,
    end: int,
    position: int,
    nn_type: NeuralNetworkType,
    groups: Seq<int>,
    channel_bytes: Seq<usize>,
    channel: int,
) -> Result<(Seq<QcSyntax>, int), CodecError>
    decreases groups.len() - channel,
{
    if channel >= groups.len() || channel >= channel_bytes.len() {
        Ok((Seq::empty(), position))
    } else {
        match qc_syntax_at(
            bytes,
            end,
            position,
            nn_type,
            groups[channel],
            channel_bytes[channel] as int,
        ) {
            Err(error) => Err(error),
            Ok(qc) => match channel_qcs_at(
                bytes,
                end,
                qc.end,
                nn_type,
                groups,
                channel_bytes,
                channel + 1,
            ) {
                Err(error) => Err(error),
                Ok((rest, next)) => Ok((seq![qc] + rest, next)),
            },
        }
    }
}

/// Core and bandwidth extension blocks of several channels.
pub struct ChannelHeads {
    pub cores: Vec<CoreSidePrefix>,
    pub bwe: Vec<Option<BweSideInfo>>,
    pub next_bit_offset: usize,
}

impl ChannelHeads {
    /// The blocks hold exactly what `heads` say.
    pub open spec fn matches(&self, heads: Seq<ChannelHead>) -> bool {
        &&& self.cores@.len() == heads.len()
        &&& self.bwe@.len() == heads.len()
        &&& forall|i: int|
            0 <= i < heads.len() ==> head_matches(
                #[trigger] self.cores@[i],
                self.bwe@[i],
                heads[i],
            )
    }
}

/// Parse the core and bandwidth extension blocks of one channel per entry of `configs`.
pub fn parse_channel_heads(
    payload: &[u8],
    bit_offset: usize,
    low_bitrate_precision: bool,
    configs: &Vec<Option<BweConfig>>,
    codebook: &TnsCodebook,
) -> (result: Result<ChannelHeads, CodecError>)
    ensures
        match channel_heads_at(
            *codebook,
            payload@,
            bit_capacity(payload@),
            bit_offset as int,
            low_bitrate_precision,
            configs@,
            0,
        ) {
            Ok((heads, next)) => result is Ok && result->Ok_0.matches(heads)
                && result->Ok_0.next_bit_offset == next,
            Err(error) => result == Err::<ChannelHeads, CodecError>(error),
        },
{
    let ghost bytes = payload@;
    let ghost end = bit_capacity(bytes);
    let mut cores: Vec<CoreSidePrefix> = Vec::new();
    let mut bwe: Vec<Option<BweSideInfo>> = Vec::new();
    let mut offset: usize = bit_offset;
    let mut channel: usize = 0;
    let ghost mut done = Seq::<ChannelHead>::empty();
    while channel < configs.len()
        invariant
            channel <= configs@.len(),
            bytes == payload@,
            end == bit_capacity(bytes),
            done.len() == channel,
            cores@.len() == channel,
            bwe@.len() == channel,
            forall|i: int|
                0 <= i < channel ==> head_matches(#[trigger] cores@[i], bwe@[i], done[i]),
            match channel_heads_at(
                *codebook,
                bytes,
                end,
                offset as int,
                low_bitrate_precision,
                configs@,
                channel as int,
            ) {
                Ok((rest, next)) => channel_heads_at(
                    *codebook,
                    bytes,
                    end,
                    bit_offset as int,
                    low_bitrate_precision,
                    configs@,
                    0,
                ) == Ok::<(Seq<ChannelHead>, int), CodecError>((done + rest, next)),
                Err(error) => channel_heads_at(
                    *codebook,
                    bytes,
                    end,
                    bit_offset as int,
                    low_bitrate_precision,
                    configs@,
                    0,
                ) == Err::<(Seq<ChannelHead>, int), CodecError>(error),
            },
        decreases configs@.len() - channel,
    {
        let (core, side, next) = parse_channel_core_and_bwe(
            payload,
            offset,
            low_bitrate_precision,
            configs[channel],
            codebook,
        )?;
        proof {
            let head = channel_head_at(
                *codebook,
                bytes,
                end,
                offset as int,
                low_bitrate_precision,
                configs@[channel as int],
            )->Ok_0;
            if let Ok((rest, _)) = channel_heads_at(
                *codebook,
                bytes,
                end,
                head.end,
                low_bitrate_precision,
                configs@,
                channel as int + 1,
            ) {
                assert(done + (seq![head] + rest) =~= done.push(head) + rest);
            }
            done = done.push(head);
        }
        cores.push(core);
        bwe.push(side);
        offset = next;
        channel = channel + 1;
    }
    assert(done + Seq::<ChannelHead>::empty() =~= done);
    Ok(ChannelHeads { cores, bwe, next_bit_offset: offset })
}

/// Grouping blocks of several channels.
pub struct ChannelGroups {
    pub groups: Vec<GroupSideInfo>,
    pub next_bit_offset: usize,
}

/// The groups hold exactly what `syntax` says.
pub open spec fn groups_match(groups: Seq<GroupSideInfo>, syntax: Seq<GroupSyntax>) -> bool {
    &&& groups.len() == syntax.len()
    &&& forall|i: int| 0 <= i < syntax.len() ==> (#[trigger] groups[i]).matches(syntax[i])
}

/// The window sequence of each channel.
pub open spec fn transforms_of(cores: Seq<CoreSidePrefix>) -> Seq<TransformType> {
    Seq::new(cores.len(), |i: int| cores[i].transform_type)
}

/// Parse one grouping block per channel of `cores`.
pub fn parse_channel_groups(
    payload: &[u8],
    bit_offset: usize,
    cores: &Vec<CoreSidePrefix>,
) -> (result: Result<ChannelGroups, CodecError>)
    ensures
        match channel_groups_at(
            payload@,
            bit_capacity(payload@),
            bit_offset as int,
            transforms_of(cores@),
            0,
        ) {
            Ok((syntax, next)) => result is Ok && groups_match(result->Ok_0.groups@, syntax)
                && result->Ok_0.next_bit_offset == next,
            Err(error) => result == Err::<ChannelGroups, CodecError>(error),
        },
{
    let ghost bytes = payload@;
    let ghost end = bit_capacity(bytes);
    let ghost transforms = transforms_of(cores@);
    let mut groups: Vec<GroupSideInfo> = Vec::new();
    let mut offset: usize = bit_offset;
    let mut channel: usize = 0;
    let ghost mut done = Seq::<GroupSyntax>::empty();
    while channel < cores.len()
        invariant
            channel <= cores@.len(),
            transforms == transforms_of(cores@),
            bytes == payload@,
            end == bit_capacity(bytes),
            done.len() == channel,
            groups_match(groups@, done),
            match channel_groups_at(bytes, end, offset as int, transforms, channel as int) {
                Ok((rest, next)) => channel_groups_at(bytes, end, bit_offset as int, transforms, 0)
                    == Ok::<(Seq<GroupSyntax>, int), CodecError>((done + rest, next)),
                Err(error) => channel_groups_at(bytes, end, bit_offset as int, transforms, 0) == Err::<
                    (Seq<GroupSyntax>, int),
                    CodecError,
                >(error),
            },
        decreases cores@.len() - channel,
    {
        let group = parse_group_bits_at(payload, offset, cores[channel].transform_type)?;
        proof {
            let syntax = group_syntax_at(
                bytes,
                end,
                offset as int,
                transforms[channel as int],
            )->Ok_0;
            if let Ok((rest, _)) = channel_groups_at(
                bytes,
                end,
                syntax.end,
                transforms,
                channel as int + 1,
            ) {
                assert(done + (seq![syntax] + rest) =~= done.push(syntax) + rest);
            }
            done = done.push(syntax);
        }
        groups.push(group);
        offset = group.next_bit_offset;
        channel = channel + 1;
    }
    assert(done + Seq::<GroupSyntax>::empty() =~= done);
    Ok(ChannelGroups { groups, next_bit_offset: offset })
}

/// Quantisation and coding blocks of several channels.
pub struct ChannelQcs {
    pub qcs: Vec<QcSideInfo>,
    pub next_bit_offset: usize,
}

/// The blocks hold exactly what `syntax` says.
pub open spec fn qcs_match(qcs: Seq<QcSideInfo>, syntax: Seq<QcSyntax>) -> bool {
    &&& qcs.len() == syntax.len()
    &&& forall|i: int| 0 <= i < syntax.len() ==> (#[trigger] qcs[i]).matches(syntax[i])
}

/// The number of groups of each channel.
pub open spec fn group_counts(groups: Seq<GroupSideInfo>) -> Seq<int> {
    Seq::new(groups.len(), |i: int| groups[i].num_groups as int)
}

/// Parse one quantisation and coding block per channel that has a group and a byte budget.
pub fn parse_channel_qcs(
    payload: &[u8],
    bit_offset: usize,
    nn_type: NeuralNetworkType,
    groups: &Vec<GroupSideInfo>,
    channel_bytes: &Vec<usize>,
) -> (result: Result<ChannelQcs, CodecError>)
    ensures
        match channel_qcs_at(
            payload@,
            bit_capacity(payload@),
            bit_offset as int,
            nn_type,
            group_counts(groups@),
            channel_bytes@,
            0,
        ) {
            Ok((syntax, next)) => result is Ok && qcs_match(result->Ok_0.qcs@, syntax)
                && result->Ok_0.next_bit_offset == next,
            Err(error) => result == Err::<ChannelQcs, CodecError>(error),
        },
{
    let ghost bytes = payload@;
    let ghost end = bit_capacity(bytes);
    let ghost counts = group_counts(groups@);
    let mut qcs: Vec<QcSideInfo> = Vec::new();
    let mut offset: usize = bit_offset;
    let mut channel: usize = 0;
    let ghost mut done = Seq::<QcSyntax>::empty();
    while channel < groups.len() && channel < channel_bytes.len()
        invariant
            channel <= groups@.len(),
            counts == group_counts(groups@),
            bytes == payload@,
            end == bit_capacity(bytes),
            done.len() == channel,
            qcs_match(qcs@, done),
            match channel_qcs_at(
                bytes,
                end,
                offset as int,
                nn_type,
                counts,
                channel_bytes@,
                channel as int,
            ) {
                Ok((rest, next)) => channel_qcs_at(
                    bytes,
                    end,
                    bit_offset as int,
                    nn_type,
                    counts,
                    channel_bytes@,
                    0,
                ) == Ok::<(Seq<QcSyntax>, int), CodecError>((done + rest, next)),
                Err(error) => channel_qcs_at(
                    bytes,
                    end,
                    bit_offset as int,
                    nn_type,
                    counts,
                    channel_bytes@,
                    0,
                ) == Err::<(Seq<QcSyntax>, int), CodecError>(error),
            },
        decreases groups@.len() - channel,
    {
        let qc = parse_qc_side_info_at(
            payload,
            offset,
            nn_type,
            groups[channel].num_groups,
            channel_bytes[channel],
        )?;
        proof {
            let syntax = qc_syntax_at(
                bytes,
                end,
                offset as int,
                nn_type,
                counts[channel as int],
                channel_bytes@[channel as int] as int,
            )->Ok_0;
            if let Ok((rest, _)) = channel_qcs_at(
                bytes,
                end,
                syntax.end,
                nn_type,
                counts,
                channel_bytes@,
                channel as int + 1,
            ) {
                assert(done + (seq![syntax] + rest) =~= done.push(syntax) + rest);
            }
            done = done.push(syntax);
        }
        qcs.push(qc);
        offset = qc.next_bit_offset;
        channel = channel + 1;
    }
    assert(done + Seq::<QcSyntax>::empty() =~= done);
    Ok(ChannelQcs { qcs, next_bit_offset: offset })
}

/// The multichannel coupling block, as far as the frame layout depends on it.
#[derive(Clone, Copy, Debug, PartialEq, Eq, Structural)]
pub struct MultichannelSideInfo {
    pub next_bit_offset: usize,
}

/// How the range coded bytes of a multichannel frame are divided.
#[derive(Clone, Debug, PartialEq, Eq)]
pub struct McBitAllocation {
    pub channel_bytes: Vec<usize>,
    pub lfe_index: Option<usize>,
    /// Bits behind the last whole byte.
    pub trailing_bits: usize,
}

/// The part of a multichannel frame in front of the coupling block.
pub struct MultichannelFrameHead {
    pub cores: Vec<CoreSidePrefix>,
    pub bwe: Vec<Option<BweSideInfo>>,
    pub groups: Vec<GroupSideInfo>,
    /// Channels that take part in coupling: all but the low frequency one.
    pub couple_ch_num: u16,
    pub next_bit_offset: usize,
}

/// Side information of a multichannel frame.
#[derive(Clone, Debug, PartialEq, Eq)]
pub struct GaMultichannelFrameSideInfo {
    pub channels: Vec<GaChannelSideInfo>,
    pub bwe_config: Option<BweConfig>,
    pub multichannel: MultichannelSideInfo,
    pub allocation: McBitAllocation,
    pub next_bit_offset: usize,
    pub trailing_bits: usize,
}

/// What is wrong with the channel layout of a multichannel frame, if anything.
pub open spec fn multichannel_layout_error(channel_count: int, lfe_index: Option<usize>) -> Option<
    CodecError,
> {
    if channel_count < 3 {
        Some(
            CodecError::InvalidData("multichannel frame parser requires at least three channels"),
        )
    } else if lfe_index is Some && lfe_index->0 >= channel_count {
        Some(CodecError::InvalidData("multichannel LFE index exceeds channel count"))
    } else {
        None
    }
}

/// What the part of a multichannel frame in front of the coupling block says: all core and
/// bandwidth extension blocks, then all grouping blocks.
pub open spec fn multichannel_head_at(
    codebook: TnsCodebook,
    bytes: Seq<u8>,
    end: int,
    start: int,
    channel_count: nat,
    low_bitrate_precision: bool,
    bwe_config: Option<BweConfig>,
) -> Result<(Seq<ChannelHead>, Seq<GroupSyntax>, int), CodecError> {
    match channel_heads_at(
        codebook,
        bytes,
        end,
        start,
        low_bitrate_precision,
        Seq::new(channel_count, |i: int| bwe_config),
        0,
    ) {
        Err(error) => Err(error),
        Ok((heads, middle)) => match channel_groups_at(
            bytes,
            end,
            middle,
            head_transforms(heads),
            0,
        ) {
            Err(error) => Err(error),
            Ok((groups, next)) => Ok((heads, groups, next)),
        },
    }
}

/// The window sequence that each head selects.
pub open spec fn head_transforms(heads: Seq<ChannelHead>) -> Seq<TransformType> {
    Seq::new(heads.len(), |i: int| heads[i].core.transform)
}

impl MultichannelFrameHead {
    /// The head holds exactly what the blocks say.
    pub open spec fn matches(&self, heads: Seq<ChannelHead>, groups: Seq<GroupSyntax>, next: int) -> bool {
        &&& self.cores@.len() == heads.len()
        &&& self.bwe@.len() == heads.len()
        &&& forall|i: int|
            0 <= i < heads.len() ==> head_matches(
                #[trigger] self.cores@[i],
                self.bwe@[i],
                heads[i],
            )
        &&& groups_match(self.groups@, groups)
        &&& self.next_bit_offset == next
    }
}

/// Parse a multichannel frame up to its coupling block.
pub fn parse_multichannel_frame_head(
    payload: &[u8],
    core_bit_offset: usize,
    channel_count: u16,
    low_bitrate_precision: bool,
    bwe_config: Option<BweConfig>,
    lfe_index: Option<usize>,
    codebook: &TnsCodebook,
) -> (result: Result<MultichannelFrameHead, CodecError>)
    ensures
        match multichannel_layout_error(channel_count as int, lfe_index) {
            Some(error) => result == Err::<MultichannelFrameHead, CodecError>(error),
            None => match multichannel_head_at(
                *codebook,
                payload@,
                bit_capacity(payload@),
                core_bit_offset as int,
                channel_count as nat,
                low_bitrate_precision,
                bwe_config,
            ) {
                Ok((heads, groups, next)) => result is Ok && result->Ok_0.matches(
                    heads,
                    groups,
                    next,
                ) && result->Ok_0.couple_ch_num == if lfe_index is Some {
                    channel_count - 1
                } else {
                    channel_count as int
                },
                Err(error) => result == Err::<MultichannelFrameHead, CodecError>(error),
            },
        },
{
    if channel_count < 3 {
        return Err(
            CodecError::InvalidData("multichannel frame parser requires at least three channels"),
        );
    }
    if let Some(index) = lfe_index {
        if index >= channel_count as usize {
            return Err(CodecError::InvalidData("multichannel LFE index exceeds channel count"));
        }
    }
    let mut configs: Vec<Option<BweConfig>> = Vec::new();
    let mut channel: u16 = 0;
    while channel < channel_count
        invariant
            channel <= channel_count,
            configs@ == Seq::new(channel as nat, |i: int| bwe_config),
        decreases channel_count - channel,
    {
        configs.push(bwe_config);
        channel = channel + 1;
        assert(configs@ =~= Seq::new(channel as nat, |i: int| bwe_config));
    }
    let heads = parse_channel_heads(
        payload,
        core_bit_offset,
        low_bitrate_precision,
        &configs,
        codebook,
    )?;
    let ghost head_syntax = channel_heads_at(
        *codebook,
        payload@,
        bit_capacity(payload@),
        core_bit_offset as int,
        low_bitrate_precision,
        configs@,
        0,
    )->Ok_0.0;
    assert(transforms_of(heads.cores@) =~= head_transforms(head_syntax));
    let groups = parse_channel_groups(payload, heads.next_bit_offset, &heads.cores)?;
    let couple_ch_num: u16 = if lfe_index.is_some() {
        channel_count - 1
    } else {
        channel_count
    };
    Ok(
        MultichannelFrameHead {
            cores: heads.cores,
            bwe: heads.bwe,
            groups: groups.groups,
            couple_ch_num,
            next_bit_offset: groups.next_bit_offset,
        },
    )
}

/// Bits of the payload behind the coupling block, which the byte allocation divides.
pub fn multichannel_remaining_bits(payload: &[u8], multichannel: &MultichannelSideInfo) -> (result:
    Result<usize, CodecError>)
    ensures
        result == if multichannel.next_bit_offset <= bit_capacity(payload@) {
            Ok::<usize, CodecError>(
                (bit_capacity(payload@) - multichannel.next_bit_offset) as usize,
            )
        } else {
            Err(CodecError::Truncated)
        },
{
    let payload_bits: usize = addressable_bits(payload);
    match payload_bits.checked_sub(multichannel.next_bit_offset) {
        Some(remaining) => Ok(remaining),
        None => Err(CodecError::Truncated),
    }
}

/// The smaller of two lengths.
pub open spec fn shorter(a: nat, b: nat) -> nat {
    if a <= b {
        a
    } else {
        b
    }
}

/// Channel `i` of a frame is made of the blocks at position `i` of each list.
pub open spec fn channel_is(
    channel: GaChannelSideInfo,
    core: CoreSidePrefix,
    bwe: Option<BweSideInfo>,
    group: GroupSideInfo,
    qc: QcSyntax,
) -> bool {
    &&& channel.core == core
    &&& channel.bwe == bwe
    &&& channel.group == group
    &&& channel.qc.matches(qc)
}

/// Put the blocks of the channels together, as many as every list has.
pub fn join_channels(
    cores: &Vec<CoreSidePrefix>,
    bwe: &Vec<Option<BweSideInfo>>,
    groups: &Vec<GroupSideInfo>,
    qcs: &Vec<QcSideInfo>,
) -> (channels: Vec<GaChannelSideInfo>)
    ensures
        channels@.len() == shorter(
            shorter(cores@.len(), bwe@.len()),
            shorter(groups@.len(), qcs@.len()),
        ),
        forall|i: int|
            0 <= i < channels@.len() ==> {
                let channel = #[trigger] channels@[i];
                &&& channel.core == cores@[i]
                &&& channel.bwe == bwe@[i]
                &&& channel.group == groups@[i]
                &&& channel.qc == qcs@[i]
            },
{
    let mut channels: Vec<GaChannelSideInfo> = Vec::new();
    let mut index: usize = 0;
    while index < cores.len() && index < bwe.len() && index < groups.len() && index < qcs.len()
        invariant
            index <= cores@.len(),
            index <= bwe@.len(),
            index <= groups@.len(),
            index <= qcs@.len(),
            channels@.len() == index,
            forall|i: int|
                0 <= i < index ==> {
                    let channel = #[trigger] channels@[i];
                    &&& channel.core == cores@[i]
                    &&& channel.bwe == bwe@[i]
                    &&& channel.group == groups@[i]
                    &&& channel.qc == qcs@[i]
                },
        decreases cores@.len() - index,
    {
        channels.push(
            GaChannelSideInfo {
                core: cores[index],
                bwe: bwe[index],
                group: groups[index],
                qc: qcs[index],
            },
        );
        index = index + 1;
    }
    channels
}

/// Parse the rest of a multichannel frame: one quantisation and coding block per channel, each
/// with the byte budget that `allocation` gives it.
pub fn parse_multichannel_frame_side_info(
    payload: &[u8],
    head: &MultichannelFrameHead,
    nn_type: NeuralNetworkType,
    bwe_config: Option<BweConfig>,
    multichannel: MultichannelSideInfo,
    allocation: McBitAllocation,
) -> (result: Result<GaMultichannelFrameSideInfo, CodecError>)
    ensures
        multichannel.next_bit_offset > bit_capacity(payload@) ==> result == Err::<
            GaMultichannelFrameSideInfo,
            CodecError,
        >(CodecError::Truncated),
        multichannel.next_bit_offset <= bit_capacity(payload@) ==> match channel_qcs_at(
            payload@,
            bit_capacity(payload@),
            multichannel.next_bit_offset as int,
            nn_type,
            group_counts(head.groups@),
            allocation.channel_bytes@,
            0,
        ) {
            Err(error) => result == Err::<GaMultichannelFrameSideInfo, CodecError>(error),
            Ok((qcs, next)) => if bit_capacity(payload@) - next != allocation.trailing_bits {
                result == Err::<GaMultichannelFrameSideInfo, CodecError>(
                    CodecError::Internal(
                        "multichannel QC parsing does not match McBitsAllocation payload accounting",
                    ),
                )
            } else {
                &&& result matches Ok(frame)
                &&& frame.channels@.len() == shorter(
                    shorter(head.cores@.len(), head.bwe@.len()),
                    qcs.len(),
                )
                &&& forall|i: int|
                    0 <= i < frame.channels@.len() ==> channel_is(
                        #[trigger] frame.channels@[i],
                        head.cores@[i],
                        head.bwe@[i],
                        head.groups@[i],
                        qcs[i],
                    )
                &&& frame.bwe_config == bwe_config
                &&& frame.multichannel == multichannel
                &&& frame.allocation == allocation
                &&& frame.next_bit_offset == next
                &&& frame.trailing_bits == allocation.trailing_bits
            },
        },
{
    let payload_bits: usize = addressable_bits(payload);
    let _remaining: usize = multichannel_remaining_bits(payload, &multichannel)?;
    let blocks = parse_channel_qcs(
        payload,
        multichannel.next_bit_offset,
        nn_type,
        &head.groups,
        &allocation.channel_bytes,
    )?;
    proof {
        lemma_channel_qcs_bounds(
            payload@,
            bit_capacity(payload@),
            multichannel.next_bit_offset as int,
            nn_type,
            group_counts(head.groups@),
            allocation.channel_bytes@,
            0,
        );
    }
    let actual_tail: usize = payload_bits - blocks.next_bit_offset;
    if actual_tail != allocation.trailing_bits {
        return Err(
            CodecError::Internal(
                "multichannel QC parsing does not match McBitsAllocation payload accounting",
            ),
        );
    }
    let channels = join_channels(&head.cores, &head.bwe, &head.groups, &blocks.qcs);
    let trailing_bits: usize = allocation.trailing_bits;
    Ok(
        GaMultichannelFrameSideInfo {
            channels,
            bwe_config,
            multichannel,
            allocation,
            next_bit_offset: blocks.next_bit_offset,
            trailing_bits,
        },
    )
}

/// There is one grouping block per channel, and they end behind their start.
pub proof fn lemma_channel_groups_len(
    bytes: Seq<u8>,
    end: int,
    position: int,
    transforms: Seq<TransformType>,
    channel: int,
)
    requires
        0 <= channel <= transforms.len(),
    ensures
        channel_groups_at(bytes, end, position, transforms, channel) matches Ok((groups, next))
            ==> groups.len() == transforms.len() - channel && position <= next,
    decreases transforms.len() - channel,
{
    if channel < transforms.len() {
        if let Ok(group) = group_syntax_at(bytes, end, position, transforms[channel]) {
            lemma_channel_groups_len(bytes, end, group.end, transforms, channel + 1);
        }
    }
}

/// The blocks that were read lie inside the data, and there is one per channel that has a group
/// and a byte budget.
pub proof fn lemma_channel_qcs_bounds(
    bytes: Seq<u8>,
    end: int,
    position: int,
    nn_type: NeuralNetworkType,
    groups: Seq<int>,
    channel_bytes: Seq<usize>,
    channel: int,
)
    requires
        position <= end,
        0 <= channel,
    ensures
        channel_qcs_at(
            bytes,
            end,
            position,
            nn_type,
            groups,
            channel_bytes,
            channel,
        ) matches Ok((qcs, next)) ==> {
            &&& position <= next <= end
            &&& channel + qcs.len() == shorter(groups.len(), channel_bytes.len()) || (channel
                > shorter(groups.len(), channel_bytes.len()) && qcs.len() == 0)
        },
    decreases groups.len() - channel,
{
    reveal(qc_syntax_at);
    if channel < groups.len() && channel < channel_bytes.len() {
        if let Ok(qc) = qc_syntax_at(
            bytes,
            end,
            position,
            nn_type,
            groups[channel],
            channel_bytes[channel] as int,
        ) {
            lemma_channel_qcs_bounds(
                bytes,
                end,
                qc.end,
                nn_type,
                groups,
                channel_bytes,
                channel + 1,
            );
        }
    }
}

} // verus!
