//! Writing the side information of whole frames, and what reading does with it.

use crate::bit_writing::{put_all, spells};
use crate::bwe::{BweConfig, BweSideInfo, WhiteningLevel};
use crate::config::NeuralNetworkType;
use crate::core_side::{CoreSidePrefix, TnsCodebook, TransformType};
use crate::engine::stereo_side::pair_at;
use crate::ga_frame::{
    channel_groups_at, channel_head_at, channel_heads_at, head_matches, head_transforms,
    multichannel_head_at,
};
use crate::ga_mono::mono_syntax_at;
use crate::ga_stereo::{mcr_syntax_at, stereo_syntax_at, StereoCouplingSideInfo, StereoSideInfo};
use crate::group::{group_syntax_at, GroupSideInfo};
use crate::side_laws::{
    bwe_bits, core_bits, envelope_fits, group_bits, long_windows_have_one_group, picks_fit,
    written_core_blocks_read_back, written_extensions_read_back, written_groupings_read_back,
};
use crate::stereo_laws::{mode_bits, written_couplings_read_back};
use vstd::prelude::*;

verus! {

/// The side information of a channel to be written, up to its range coded bytes.
pub ghost struct WrittenChannel {
    pub transform: TransformType,
    pub envelope: Seq<u8>,
    /// Which codeword each coefficient of the two filters has.
    pub first: Seq<int>,
    pub second: Seq<int>,
    /// The envelope of the bandwidth extension and the whitening of its tiles.
    pub extension: Option<(Seq<u8>, Seq<WhiteningLevel>)>,
    /// Which short blocks are in the second group, if there are two.
    pub groups: Option<Seq<bool>>,
}

/// What the frame says of all its channels alike.
pub ghost struct WrittenLayout {
    pub codebook: TnsCodebook,
    pub low_precision: bool,
    pub config: Option<BweConfig>,
}

/// The core block of a channel, and its bandwidth extension block if it has one.
pub open spec fn head_bits(layout: WrittenLayout, channel: WrittenChannel, rest: Seq<bool>) -> Seq<
    bool,
> {
    core_bits(
        layout.codebook,
        channel.transform,
        channel.envelope,
        channel.first,
        channel.second,
        match channel.extension {
            Some((envelope, levels)) => bwe_bits(envelope, levels, rest),
            None => rest,
        },
    )
}

/// The grouping block of a channel; only short windows have one.
pub open spec fn grouping_bits(channel: WrittenChannel, rest: Seq<bool>) -> Seq<bool> {
    if channel.transform is Short {
        group_bits(channel.groups, rest)
    } else {
        rest
    }
}

/// The parts of a channel fit.
pub open spec fn channel_is_writable(layout: WrittenLayout, channel: WrittenChannel) -> bool {
    &&& envelope_fits(channel.envelope, layout.low_precision)
    &&& picks_fit(layout.codebook, channel.first)
    &&& picks_fit(layout.codebook, channel.second)
    &&& channel.extension is Some <==> layout.config is Some
    &&& channel.extension matches Some((envelope, levels)) ==> {
        &&& envelope.len() == layout.config->0.band_count <= 16
        &&& levels.len() == layout.config->0.tile_count <= 8
        &&& forall|i: int| 0 <= i < envelope.len() ==> #[trigger] envelope[i] < 128
    }
    &&& channel.groups matches Some(groups) ==> groups.len() == 8 && channel.transform is Short
}

/// A core block and a bandwidth extension block say what was written.
pub open spec fn head_says(
    core: CoreSidePrefix,
    bwe: Option<BweSideInfo>,
    layout: WrittenLayout,
    channel: WrittenChannel,
) -> bool {
    &&& core.transform_type == channel.transform
    &&& core.fd_shaping.low_bitrate_precision == layout.low_precision
    &&& forall|i: int|
        0 <= i < 7 ==> #[trigger] core.fd_shaping.lsf_vq_indices@[i] == if i
            < channel.envelope.len() {
            Some(channel.envelope[i])
        } else {
            None
        }
    &&& core.tns.filters@[0].order == channel.first.len()
    &&& core.tns.filters@[1].order == channel.second.len()
    &&& bwe is Some <==> channel.extension is Some
    &&& channel.extension matches Some((envelope, levels)) ==> {
        &&& forall|i: int|
            0 <= i < envelope.len() ==> bwe->0.envelope_indices@[i] == #[trigger] envelope[i]
        &&& forall|i: int| 0 <= i < levels.len() ==> bwe->0.whitening@[i] == #[trigger] levels[i]
    }
}

/// A grouping block says what was written.
pub open spec fn grouping_says(group: GroupSideInfo, channel: WrittenChannel) -> bool {
    &&& group.num_groups == (if channel.groups is Some {
        2int
    } else {
        1
    })
    &&& forall|i: int|
        0 <= i < 8 ==> #[trigger] group.group_indicator@[i] == (channel.groups is Some
            && channel.groups->0[i])
}

proof fn lemma_head(
    layout: WrittenLayout,
    bytes: Seq<u8>,
    end: int,
    at: int,
    channel: WrittenChannel,
    rest: Seq<bool>,
    core: CoreSidePrefix,
    bwe: Option<BweSideInfo>,
)
    requires
        channel_is_writable(layout, channel),
        spells(bytes, at, head_bits(layout, channel, rest)),
        at + head_bits(layout, channel, rest).len() - rest.len() <= end,
        end <= 8 * bytes.len(),
    ensures
        ({
            let head = channel_head_at(
                layout.codebook,
                bytes,
                end,
                at,
                layout.low_precision,
                layout.config,
            );
            &&& head is Ok
            &&& head->Ok_0.core.transform == channel.transform
            &&& head->Ok_0.end == at + head_bits(layout, channel, rest).len() - rest.len()
            &&& spells(bytes, head->Ok_0.end, rest)
            &&& head_matches(core, bwe, head->Ok_0) ==> head_says(core, bwe, layout, channel)
        }),
{
    let tail = match channel.extension {
        Some((envelope, levels)) => bwe_bits(envelope, levels, rest),
        None => rest,
    };
    assert(tail.len() >= rest.len()) by {
        if let Some((envelope, levels)) = channel.extension {
            lemma_bwe_len(envelope, levels, rest);
        }
    }
    written_core_blocks_read_back(
        layout.codebook,
        bytes,
        end,
        at,
        channel.transform,
        channel.envelope,
        layout.low_precision,
        channel.first,
        channel.second,
        tail,
        core,
    );
    let next = at + head_bits(layout, channel, rest).len() - tail.len();
    if let Some((envelope, levels)) = channel.extension {
        let side = bwe->0;
        written_extensions_read_back(
            bytes,
            end,
            next,
            layout.config->0,
            envelope,
            levels,
            rest,
            side,
        );
        let head = channel_head_at(
            layout.codebook,
            bytes,
            end,
            at,
            layout.low_precision,
            layout.config,
        );
        if head_matches(core, bwe, head->Ok_0) {
            assert forall|i: int| 0 <= i < envelope.len() implies bwe->0.envelope_indices@[i]
                == #[trigger] envelope[i] by {
                assert(side.envelope_indices@[i] == envelope[i]);
            }
            assert forall|i: int| 0 <= i < levels.len() implies bwe->0.whitening@[i]
                == #[trigger] levels[i] by {
                assert(side.whitening@[i] == levels[i]);
            }
        }
    }
}

proof fn lemma_bwe_len(envelope: Seq<u8>, levels: Seq<WhiteningLevel>, rest: Seq<bool>)
    ensures
        bwe_bits(envelope, levels, rest).len() >= rest.len(),
{
    crate::side_laws::lemma_whitening_len(levels, 0, rest);
    lemma_put_all_grows(envelope, 7, 0, crate::side_laws::whitening_bits(levels, 0, rest));
}

proof fn lemma_put_all_grows(values: Seq<u8>, width: int, from: int, rest: Seq<bool>)
    requires
        0 <= width,
    ensures
        put_all(values, width, from, rest).len() >= rest.len(),
    decreases values.len() - from,
{
    crate::bit_writing::lemma_strings();
    if from < values.len() {
        lemma_put_all_grows(values, width, from + 1, rest);
    }
}

proof fn lemma_grouping(
    bytes: Seq<u8>,
    end: int,
    at: int,
    channel: WrittenChannel,
    rest: Seq<bool>,
    group: GroupSideInfo,
)
    requires
        channel.groups matches Some(groups) ==> groups.len() == 8 && channel.transform is Short,
        spells(bytes, at, grouping_bits(channel, rest)),
        at + grouping_bits(channel, rest).len() - rest.len() <= end,
    ensures
        ({
            let syntax = group_syntax_at(bytes, end, at, channel.transform);
            &&& syntax is Ok
            &&& syntax->Ok_0.end == at + grouping_bits(channel, rest).len() - rest.len()
            &&& spells(bytes, syntax->Ok_0.end, rest)
            &&& group.matches(syntax->Ok_0) ==> grouping_says(group, channel)
        }),
{
    if channel.transform is Short {
        written_groupings_read_back(bytes, end, at, channel.groups, rest, group);
    } else {
        long_windows_have_one_group(bytes, end, at, channel.transform, group);
    }
}

proof fn lemma_grouping_len(channel: WrittenChannel, rest: Seq<bool>)
    ensures
        grouping_bits(channel, rest).len() >= rest.len(),
{
    crate::bit_writing::lemma_strings();
    reveal(crate::bit_writing::put_flags);
}

proof fn lemma_head_len(layout: WrittenLayout, channel: WrittenChannel, rest: Seq<bool>)
    ensures
        head_bits(layout, channel, rest).len() >= rest.len(),
{
    let tail = match channel.extension {
        Some((envelope, levels)) => bwe_bits(envelope, levels, rest),
        None => rest,
    };
    if let Some((envelope, levels)) = channel.extension {
        lemma_bwe_len(envelope, levels, rest);
    }
    let last = crate::side_laws::filter_bits(layout.codebook, channel.second, tail);
    crate::side_laws::lemma_filter_len(layout.codebook, channel.second, tail);
    crate::side_laws::lemma_filter_len(layout.codebook, channel.first, last);
    crate::bit_writing::lemma_strings();
}

/// A mono frame is read as it was written: its head, then its grouping.
pub proof fn written_mono_frames_read_back(
    layout: WrittenLayout,
    bytes: Seq<u8>,
    end: int,
    at: int,
    nn_type: NeuralNetworkType,
    channel: WrittenChannel,
    rest: Seq<bool>,
    core: CoreSidePrefix,
    bwe: Option<BweSideInfo>,
    group: GroupSideInfo,
)
    requires
        channel_is_writable(layout, channel),
        spells(bytes, at, head_bits(layout, channel, grouping_bits(channel, rest))),
        at + head_bits(layout, channel, grouping_bits(channel, rest)).len() - rest.len() <= end,
        end <= 8 * bytes.len(),
    ensures
        mono_syntax_at(
            layout.codebook,
            bytes,
            end,
            at,
            nn_type,
            layout.low_precision,
            layout.config,
        ) matches Ok(syntax) ==> {
            &&& head_matches(core, bwe, syntax.head) ==> head_says(core, bwe, layout, channel)
            &&& group.matches(syntax.group) ==> grouping_says(group, channel)
            &&& spells(bytes, syntax.group.end, rest)
        },
{
    let tail = grouping_bits(channel, rest);
    lemma_grouping_len(channel, rest);
    lemma_head(layout, bytes, end, at, channel, tail, core, bwe);
    let next = at + head_bits(layout, channel, tail).len() - tail.len();
    lemma_grouping(bytes, end, next, channel, rest, group);
}

/// The bits of a stereo frame in front of its coupling: both heads, then both groupings.
pub open spec fn stereo_bits(
    layout: WrittenLayout,
    left: WrittenChannel,
    right: WrittenChannel,
    rest: Seq<bool>,
) -> Seq<bool> {
    head_bits(
        layout,
        left,
        head_bits(layout, right, grouping_bits(left, grouping_bits(right, rest))),
    )
}

/// A stereo frame is read as it was written: both heads, both groupings, each by the windows of its
/// own channel, and the coupling.
pub proof fn written_stereo_frames_read_back(
    layout: WrittenLayout,
    bytes: Seq<u8>,
    end: int,
    at: int,
    nn_type: NeuralNetworkType,
    bitrate: int,
    left: WrittenChannel,
    right: WrittenChannel,
    level: Option<u8>,
    ratio: u8,
    rest: Seq<bool>,
    cores: (CoreSidePrefix, CoreSidePrefix),
    bwes: (Option<BweSideInfo>, Option<BweSideInfo>),
    groups: (GroupSideInfo, GroupSideInfo),
    stereo: StereoSideInfo,
)
    requires
        bitrate > 32,
        channel_is_writable(layout, left),
        channel_is_writable(layout, right),
        level matches Some(level) ==> level < 16,
        ratio < 8,
        spells(bytes, at, stereo_bits(layout, left, right, mode_bits(level, ratio, rest))),
        at + stereo_bits(layout, left, right, mode_bits(level, ratio, rest)).len() - rest.len()
            <= end,
        end <= 8 * bytes.len(),
    ensures
        stereo_syntax_at(
            layout.codebook,
            bytes,
            end,
            at,
            nn_type,
            layout.low_precision,
            layout.config,
            bitrate,
        ) matches Ok(syntax) ==> {
            &&& head_matches(cores.0, bwes.0, syntax.heads.0) ==> head_says(
                cores.0,
                bwes.0,
                layout,
                left,
            )
            &&& head_matches(cores.1, bwes.1, syntax.heads.1) ==> head_says(
                cores.1,
                bwes.1,
                layout,
                right,
            )
            &&& groups.0.matches(syntax.groups.0) ==> grouping_says(groups.0, left)
            &&& groups.1.matches(syntax.groups.1) ==> grouping_says(groups.1, right)
            &&& stereo.matches(syntax.coupling) ==> stereo.coupling == (StereoCouplingSideInfo::Ms {
                is_ms: level is Some,
                ild_q_idx: level,
                bits_ratio: ratio,
            })
        },
{
    let mode = mode_bits(level, ratio, rest);
    let fourth = grouping_bits(right, mode);
    let third = grouping_bits(left, fourth);
    let second = head_bits(layout, right, third);
    let first = head_bits(layout, left, second);
    assert(mode.len() >= rest.len()) by {
        crate::bit_writing::lemma_strings();
    }
    lemma_grouping_len(right, mode);
    lemma_grouping_len(left, fourth);
    lemma_head_len(layout, right, third);
    lemma_head(layout, bytes, end, at, left, second, cores.0, bwes.0);
    let at_right = at + first.len() - second.len();
    lemma_head(layout, bytes, end, at_right, right, third, cores.1, bwes.1);
    let at_left_group = at_right + second.len() - third.len();
    lemma_grouping(bytes, end, at_left_group, left, fourth, groups.0);
    let at_right_group = at_left_group + third.len() - fourth.len();
    lemma_grouping(bytes, end, at_right_group, right, mode, groups.1);
    let at_mode = at_right_group + fourth.len() - mode.len();
    written_couplings_read_back(
        bytes,
        end,
        at_mode,
        bitrate,
        left.transform,
        level,
        ratio,
        rest,
        stereo,
    );
}

/// The heads and the grouping of a frame with one coded channel are read as they were written, by
/// both parsers.
pub proof fn written_rotated_frames_read_back(
    layout: WrittenLayout,
    bytes: Seq<u8>,
    end: int,
    nn_type: NeuralNetworkType,
    bitrate: int,
    left: WrittenChannel,
    right: WrittenChannel,
    tail: Seq<bool>,
    cores: (CoreSidePrefix, CoreSidePrefix),
    bwes: (Option<BweSideInfo>, Option<BweSideInfo>),
    group: GroupSideInfo,
)
    requires
        channel_is_writable(layout, left),
        channel_is_writable(layout, right),
        spells(
            bytes,
            0,
            head_bits(layout, left, head_bits(layout, right, grouping_bits(left, tail))),
        ),
        head_bits(layout, left, head_bits(layout, right, grouping_bits(left, tail))).len()
            - tail.len() <= end,
        end <= 8 * bytes.len(),
    ensures
        ({
            let pair = pair_at(
                layout.codebook,
                bytes,
                end,
                layout.low_precision,
                layout.config,
            );
            &&& pair is Ok
            &&& head_matches(cores.0, bwes.0, pair->Ok_0.left) ==> head_says(
                cores.0,
                bwes.0,
                layout,
                left,
            )
            &&& head_matches(cores.1, bwes.1, pair->Ok_0.right) ==> head_says(
                cores.1,
                bwes.1,
                layout,
                right,
            )
            &&& group.matches(pair->Ok_0.left_group) ==> grouping_says(group, left)
            &&& spells(bytes, pair->Ok_0.left_group.end, tail)
        }),
        mcr_syntax_at(
            layout.codebook,
            bytes,
            end,
            0,
            nn_type,
            layout.low_precision,
            layout.config,
            bitrate,
        ) matches Ok(syntax) ==> {
            &&& head_matches(cores.0, bwes.0, syntax.left.head) ==> head_says(
                cores.0,
                bwes.0,
                layout,
                left,
            )
            &&& head_matches(cores.1, bwes.1, syntax.right) ==> head_says(
                cores.1,
                bwes.1,
                layout,
                right,
            )
            &&& group.matches(syntax.left.group) ==> grouping_says(group, left)
            &&& spells(bytes, syntax.left.group.end, tail)
        },
{
    let third = grouping_bits(left, tail);
    let second = head_bits(layout, right, third);
    let first = head_bits(layout, left, second);
    lemma_grouping_len(left, tail);
    lemma_head_len(layout, right, third);
    lemma_head(layout, bytes, end, 0, left, second, cores.0, bwes.0);
    let at_right = first.len() - second.len();
    lemma_head(layout, bytes, end, at_right, right, third, cores.1, bwes.1);
    let at_group = at_right + second.len() - third.len();
    lemma_grouping(bytes, end, at_group, left, tail, group);
}

/// The heads of the channels from `from` on, one behind the other.
pub open spec fn heads_bits(
    layout: WrittenLayout,
    channels: Seq<WrittenChannel>,
    from: int,
    rest: Seq<bool>,
) -> Seq<bool>
    decreases channels.len() - from,
{
    if from >= channels.len() {
        rest
    } else {
        head_bits(layout, channels[from], heads_bits(layout, channels, from + 1, rest))
    }
}

/// The groupings of the channels from `from` on, one behind the other.
pub open spec fn groupings_bits(
    channels: Seq<WrittenChannel>,
    from: int,
    rest: Seq<bool>,
) -> Seq<bool>
    decreases channels.len() - from,
{
    if from >= channels.len() {
        rest
    } else {
        grouping_bits(channels[from], groupings_bits(channels, from + 1, rest))
    }
}

proof fn lemma_heads_len(
    layout: WrittenLayout,
    channels: Seq<WrittenChannel>,
    from: int,
    rest: Seq<bool>,
)
    ensures
        heads_bits(layout, channels, from, rest).len() >= rest.len(),
    decreases channels.len() - from,
{
    if from < channels.len() {
        lemma_heads_len(layout, channels, from + 1, rest);
        lemma_head_len(layout, channels[from], heads_bits(layout, channels, from + 1, rest));
    }
}

proof fn lemma_groupings_len(channels: Seq<WrittenChannel>, from: int, rest: Seq<bool>)
    ensures
        groupings_bits(channels, from, rest).len() >= rest.len(),
    decreases channels.len() - from,
{
    if from < channels.len() {
        lemma_groupings_len(channels, from + 1, rest);
        lemma_grouping_len(channels[from], groupings_bits(channels, from + 1, rest));
    }
}

proof fn lemma_heads(
    layout: WrittenLayout,
    bytes: Seq<u8>,
    end: int,
    at: int,
    channels: Seq<WrittenChannel>,
    from: int,
    rest: Seq<bool>,
    index: int,
    core: CoreSidePrefix,
    bwe: Option<BweSideInfo>,
)
    requires
        forall|i: int|
            0 <= i < channels.len() ==> channel_is_writable(layout, #[trigger] channels[i]),
        0 <= from <= channels.len(),
        spells(bytes, at, heads_bits(layout, channels, from, rest)),
        at + heads_bits(layout, channels, from, rest).len() - rest.len() <= end,
        end <= 8 * bytes.len(),
    ensures
        ({
            let found = channel_heads_at(
                layout.codebook,
                bytes,
                end,
                at,
                layout.low_precision,
                Seq::new(channels.len(), |i: int| layout.config),
                from,
            );
            &&& found is Ok
            &&& found->Ok_0.1 == at + heads_bits(layout, channels, from, rest).len() - rest.len()
            &&& spells(bytes, found->Ok_0.1, rest)
            &&& found->Ok_0.0.len() == channels.len() - from
            &&& from <= index < channels.len() ==> {
                let head = found->Ok_0.0[index - from];
                &&& head.core.transform == channels[index].transform
                &&& head_matches(core, bwe, head) ==> head_says(core, bwe, layout, channels[index])
            }
        }),
    decreases channels.len() - from,
{
    let configs = Seq::new(channels.len(), |i: int| layout.config);
    if from < channels.len() {
        let later = heads_bits(layout, channels, from + 1, rest);
        lemma_heads_len(layout, channels, from + 1, rest);
        assert(channel_is_writable(layout, channels[from]));
        lemma_head(layout, bytes, end, at, channels[from], later, core, bwe);
        let next = at + heads_bits(layout, channels, from, rest).len() - later.len();
        lemma_heads(
            layout,
            bytes,
            end,
            next,
            channels,
            from + 1,
            rest,
            index,
            core,
            bwe,
        );
        let head = channel_head_at(
            layout.codebook,
            bytes,
            end,
            at,
            layout.low_precision,
            layout.config,
        )->Ok_0;
        let tail = channel_heads_at(
            layout.codebook,
            bytes,
            end,
            next,
            layout.low_precision,
            configs,
            from + 1,
        )->Ok_0.0;
        let found = seq![head] + tail;
        if from < index < channels.len() {
            assert(found[index - from] == tail[index - (from + 1)]);
        }
    }
}

proof fn lemma_groupings(
    bytes: Seq<u8>,
    end: int,
    at: int,
    channels: Seq<WrittenChannel>,
    transforms: Seq<TransformType>,
    from: int,
    rest: Seq<bool>,
    index: int,
    group: GroupSideInfo,
)
    requires
        transforms.len() == channels.len(),
        forall|i: int|
            0 <= i < channels.len() ==> transforms[i] == (#[trigger] channels[i]).transform && (
            channels[i].groups matches Some(groups) ==> groups.len() == 8 && channels[i].transform
                is Short),
        0 <= from <= channels.len(),
        spells(bytes, at, groupings_bits(channels, from, rest)),
        at + groupings_bits(channels, from, rest).len() - rest.len() <= end,
    ensures
        ({
            let found = channel_groups_at(bytes, end, at, transforms, from);
            &&& found is Ok
            &&& found->Ok_0.1 == at + groupings_bits(channels, from, rest).len() - rest.len()
            &&& spells(bytes, found->Ok_0.1, rest)
            &&& found->Ok_0.0.len() == channels.len() - from
            &&& from <= index < channels.len() ==> (group.matches(found->Ok_0.0[index - from])
                ==> grouping_says(group, channels[index]))
        }),
    decreases channels.len() - from,
{
    if from < channels.len() {
        let later = groupings_bits(channels, from + 1, rest);
        lemma_groupings_len(channels, from + 1, rest);
        assert(transforms[from] == channels[from].transform);
        lemma_grouping(bytes, end, at, channels[from], later, group);
        let next = at + groupings_bits(channels, from, rest).len() - later.len();
        lemma_groupings(bytes, end, next, channels, transforms, from + 1, rest, index, group);
        let first = group_syntax_at(bytes, end, at, transforms[from])->Ok_0;
        let tail = channel_groups_at(bytes, end, next, transforms, from + 1)->Ok_0.0;
        let found = seq![first] + tail;
        if from < index < channels.len() {
            assert(found[index - from] == tail[index - (from + 1)]);
        }
    }
}

/// The front of a multichannel frame is read as it was written: the heads of all channels, then the
/// groupings of all channels, each by the windows of its own channel.
pub proof fn written_multichannel_frames_read_back(
    layout: WrittenLayout,
    bytes: Seq<u8>,
    end: int,
    at: int,
    channels: Seq<WrittenChannel>,
    rest: Seq<bool>,
    index: int,
    core: CoreSidePrefix,
    bwe: Option<BweSideInfo>,
    group: GroupSideInfo,
)
    requires
        forall|i: int|
            0 <= i < channels.len() ==> channel_is_writable(layout, #[trigger] channels[i]),
        spells(bytes, at, heads_bits(layout, channels, 0, groupings_bits(channels, 0, rest))),
        at + heads_bits(layout, channels, 0, groupings_bits(channels, 0, rest)).len() - rest.len()
            <= end,
        end <= 8 * bytes.len(),
        0 <= index < channels.len(),
    ensures
        ({
            let found = multichannel_head_at(
                layout.codebook,
                bytes,
                end,
                at,
                channels.len(),
                layout.low_precision,
                layout.config,
            );
            let (heads, groups, next) = found->Ok_0;
            &&& found is Ok
            &&& heads.len() == channels.len()
            &&& groups.len() == channels.len()
            &&& head_matches(core, bwe, heads[index]) ==> head_says(
                core,
                bwe,
                layout,
                channels[index],
            )
            &&& group.matches(groups[index]) ==> grouping_says(group, channels[index])
            &&& spells(bytes, next, rest)
        }),
{
    let tail = groupings_bits(channels, 0, rest);
    lemma_groupings_len(channels, 0, rest);
    lemma_heads(layout, bytes, end, at, channels, 0, tail, index, core, bwe);
    let heads = channel_heads_at(
        layout.codebook,
        bytes,
        end,
        at,
        layout.low_precision,
        Seq::new(channels.len(), |i: int| layout.config),
        0,
    )->Ok_0.0;
    let transforms = head_transforms(heads);
    assert forall|i: int| 0 <= i < channels.len() implies transforms[i] == (
    #[trigger] channels[i]).transform && (channels[i].groups matches Some(groups)
        ==> groups.len() == 8 && channels[i].transform is Short) by {
        lemma_heads(layout, bytes, end, at, channels, 0, tail, i, core, bwe);
        assert(channel_is_writable(layout, channels[i]));
    }
    let next = at + heads_bits(layout, channels, 0, tail).len() - tail.len();
    lemma_groupings(bytes, end, next, channels, transforms, 0, rest, index, group);
}

} // verus!
