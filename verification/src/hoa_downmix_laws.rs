//! How the channels of an ambisonic frame are decoded and which steps undo their downmix, said of the
//! groups, pairs, masks and levels in the side information.

use crate::bwe::BweConfig;
use crate::error::CodecError;
use crate::ga_hoa_pcm::{
    band_steps, downmix_steps, gain_steps, hoa_noise_lines, level_steps, pair_steps,
    rotation_steps, HoaDownmixStep,
};
use crate::hoa_side::{
    channel_bwe, channels_before, group_has, group_index_of, hoa_groups_are_disjoint,
    lemma_channels_before_monotone, HoaConfig, HoaGroupConfig, HOA_SFB_BOUNDARIES,
};
use crate::hoa_syntax::{HoaGroupSideInfo, HoaPairSideInfo, HoaSideInfo};
use vstd::prelude::*;

verus! {

/// The first line of a band; the last one is where the bands end.
pub open spec fn band_edge(band: int) -> int {
    seq![
        0int,
        8,
        24,
        40,
        56,
        72,
        88,
        104,
        128,
        160,
        192,
        224,
        256,
        288,
        336,
        384,
        432,
        480,
        544,
        608,
        672,
        768,
    ][band]
}

/// How many of the bands in front of `band` are coupled.
pub open spec fn coupled_bands(mask: Seq<bool>, band: int) -> int
    decreases band,
{
    if band <= 0 {
        0
    } else {
        coupled_bands(mask, band - 1) + if mask[band - 1] {
            1int
        } else {
            0
        }
    }
}

/// How many bands the pairs in front of `pair` couple together.
pub open spec fn bands_of_pairs(pairs: Seq<HoaPairSideInfo>, pair: int) -> int
    decreases pair,
{
    if pair <= 0 {
        0
    } else {
        bands_of_pairs(pairs, pair - 1) + coupled_bands(pairs[pair - 1].sfb_mask@, 21)
    }
}

/// How many bands the pairs of the groups in front of `group` couple together.
pub open spec fn bands_of_groups(sides: Seq<HoaGroupSideInfo>, group: int) -> int
    decreases group,
{
    if group <= 0 {
        0
    } else {
        bands_of_groups(sides, group - 1) + bands_of_pairs(
            sides[group - 1].pairs@,
            sides[group - 1].pairs@.len() as int,
        )
    }
}

/// How many of the channels in front of `channel` have a level.
pub open spec fn levels_before(levels: Seq<Option<u8>>, channel: int) -> int
    decreases channel,
{
    if channel <= 0 {
        0
    } else {
        levels_before(levels, channel - 1) + if levels[channel - 1] is Some {
            1int
        } else {
            0
        }
    }
}

/// How many channels of the groups in front of `group` have a level.
pub open spec fn levels_of_groups(sides: Seq<HoaGroupSideInfo>, group: int) -> int
    decreases group,
{
    if group <= 0 {
        0
    } else {
        levels_of_groups(sides, group - 1) + levels_before(
            sides[group - 1].ild_indices@,
            sides[group - 1].ild_indices@.len() as int,
        )
    }
}

proof fn lemma_edges(band: int)
    requires
        0 <= band <= 21,
    ensures
        HOA_SFB_BOUNDARIES@[band] == band_edge(band),
{
}

proof fn lemma_bands(mask: Seq<bool>, first: int, second: int, bands: int, band: int)
    requires
        0 <= bands <= 21,
        0 <= band,
    ensures
        ({
            let steps = band_steps(mask, first, second, bands);
            &&& steps.len() == coupled_bands(mask, bands)
            &&& band < bands && mask[band] ==> {
                &&& 0 <= coupled_bands(mask, band) < steps.len()
                &&& steps[coupled_bands(mask, band)] == (HoaDownmixStep::Rotate {
                    first: first as usize,
                    second: second as usize,
                    start: band_edge(band) as usize,
                    stop: band_edge(band + 1) as usize,
                })
            }
        }),
    decreases bands,
{
    if bands > 0 {
        lemma_bands(mask, first, second, bands - 1, band);
        lemma_edges(bands - 1);
        lemma_edges(bands);
    }
}

proof fn lemma_pairs(
    pairs: Seq<HoaPairSideInfo>,
    offset: int,
    spectra: int,
    count: int,
    pair: int,
    band: int,
)
    requires
        0 <= count <= pairs.len(),
        0 <= pair,
        0 <= band < 21,
    ensures
        pair_steps(pairs, offset, spectra, count) matches Ok(steps) ==> {
            &&& steps.len() == bands_of_pairs(pairs, count)
            &&& pair < count && pairs[pair].sfb_mask@[band] ==> {
                let place = bands_of_pairs(pairs, pair) + coupled_bands(
                    pairs[pair].sfb_mask@,
                    band,
                );
                &&& 0 <= place < steps.len()
                &&& steps[place] == (HoaDownmixStep::Rotate {
                    first: (offset + pairs[pair].first) as usize,
                    second: (offset + pairs[pair].second) as usize,
                    start: band_edge(band) as usize,
                    stop: band_edge(band + 1) as usize,
                })
            }
        },
    decreases count,
{
    if count > 0 {
        lemma_pairs(pairs, offset, spectra, count - 1, pair, band);
        let last = pairs[count - 1];
        let first = offset + last.first;
        let second = offset + last.second;
        lemma_bands(last.sfb_mask@, first, second, 21, band);
        if let Ok(steps) = pair_steps(pairs, offset, spectra, count) {
            let before = pair_steps(pairs, offset, spectra, count - 1)->Ok_0;
            let own = band_steps(last.sfb_mask@, first, second, 21);
            assert(steps =~= before + own);
            if pair == count - 1 && last.sfb_mask@[band] {
                let place = coupled_bands(last.sfb_mask@, band);
                assert(steps[before.len() + place] == own[place]);
            }
        }
    }
}

proof fn lemma_rotations(
    sides: Seq<HoaGroupSideInfo>,
    groups: Seq<HoaGroupConfig>,
    spectra: int,
    count: int,
    group: int,
    pair: int,
    band: int,
)
    requires
        0 <= count <= sides.len(),
        0 <= group,
        0 <= pair,
        0 <= band < 21,
    ensures
        rotation_steps(sides, groups, spectra, count) matches Ok(steps) ==> {
            &&& steps.len() == bands_of_groups(sides, count)
            &&& group < count && pair < sides[group].pairs@.len()
                && sides[group].pairs@[pair].sfb_mask@[band] ==> {
                let found = sides[group].pairs@[pair];
                let place = bands_of_groups(sides, group) + bands_of_pairs(
                    sides[group].pairs@,
                    pair,
                ) + coupled_bands(found.sfb_mask@, band);
                &&& 0 <= place < steps.len()
                &&& steps[place] == (HoaDownmixStep::Rotate {
                    first: (groups[group].channel_offset + found.first) as usize,
                    second: (groups[group].channel_offset + found.second) as usize,
                    start: band_edge(band) as usize,
                    stop: band_edge(band + 1) as usize,
                })
            }
        },
    decreases count,
{
    if count > 0 {
        lemma_rotations(sides, groups, spectra, count - 1, group, pair, band);
        let pairs = sides[count - 1].pairs@;
        let offset = groups[count - 1].channel_offset as int;
        lemma_pairs(pairs, offset, spectra, pairs.len() as int, pair, band);
        if let Ok(steps) = rotation_steps(sides, groups, spectra, count) {
            let before = rotation_steps(sides, groups, spectra, count - 1)->Ok_0;
            let own = pair_steps(pairs, offset, spectra, pairs.len() as int)->Ok_0;
            assert(steps =~= before + own);
            if group == count - 1 && pair < pairs.len() && pairs[pair].sfb_mask@[band] {
                let place = bands_of_pairs(pairs, pair) + coupled_bands(
                    pairs[pair].sfb_mask@,
                    band,
                );
                assert(steps[before.len() + place] == own[place]);
            }
        }
    }
}

proof fn lemma_levels(levels: Seq<Option<u8>>, offset: int, count: int, channel: int)
    requires
        0 <= channel,
    ensures
        ({
            let steps = level_steps(levels, offset, count);
            &&& steps.len() == levels_before(levels, count)
            &&& channel < count && levels[channel] is Some ==> {
                &&& 0 <= levels_before(levels, channel) < steps.len()
                &&& steps[levels_before(levels, channel)] == (HoaDownmixStep::Gain {
                    channel: (offset + channel) as usize,
                    index: levels[channel]->0,
                })
            }
        }),
    decreases count,
{
    if count > 0 {
        lemma_levels(levels, offset, count - 1, channel);
    }
}

proof fn lemma_gains(
    sides: Seq<HoaGroupSideInfo>,
    groups: Seq<HoaGroupConfig>,
    count: int,
    group: int,
    channel: int,
)
    requires
        0 <= count <= sides.len(),
        0 <= group,
        0 <= channel,
    ensures
        gain_steps(sides, groups, count) matches Ok(steps) ==> {
            &&& steps.len() == levels_of_groups(sides, count)
            &&& group < count && channel < sides[group].ild_indices@.len()
                && sides[group].ild_indices@[channel] is Some ==> {
                let place = levels_of_groups(sides, group) + levels_before(
                    sides[group].ild_indices@,
                    channel,
                );
                &&& 0 <= place < steps.len()
                &&& steps[place] == (HoaDownmixStep::Gain {
                    channel: (groups[group].channel_offset + channel) as usize,
                    index: sides[group].ild_indices@[channel]->0,
                })
            }
        },
    decreases count,
{
    if count > 0 {
        lemma_gains(sides, groups, count - 1, group, channel);
        let levels = sides[count - 1].ild_indices@;
        let offset = groups[count - 1].channel_offset as int;
        lemma_levels(levels, offset, levels.len() as int, channel);
        if let Ok(steps) = gain_steps(sides, groups, count) {
            let before = gain_steps(sides, groups, count - 1)->Ok_0;
            let own = level_steps(levels, offset, levels.len() as int);
            assert(steps =~= before + own);
            if group == count - 1 && channel < levels.len() && levels[channel] is Some {
                let place = levels_before(levels, channel);
                assert(steps[before.len() + place] == own[place]);
            }
        }
    }
}

/// Undoing the downmix rotates each pair in each band that its mask names, over the lines of that
/// band and no others: group by group, pair by pair and band by band. Only then each channel that
/// has a level is multiplied by it. Nothing else is done.
pub proof fn the_downmix_is_undone_pair_by_pair(
    side: HoaSideInfo,
    config: HoaConfig,
    spectra: int,
    group: int,
    pair: int,
    band: int,
    channel: int,
)
    requires
        0 <= group < config.groups@.len(),
        0 <= pair,
        0 <= band < 21,
        0 <= channel,
    ensures
        downmix_steps(side, config, spectra) matches Ok(steps) ==> {
            let sides = side.groups@;
            let offset = config.groups@[group].channel_offset;
            let rotations = bands_of_groups(sides, sides.len() as int);
            &&& steps.len() == rotations + levels_of_groups(sides, sides.len() as int)
            &&& pair < sides[group].pairs@.len() && sides[group].pairs@[pair].sfb_mask@[band] ==> {
                let found = sides[group].pairs@[pair];
                let place = bands_of_groups(sides, group) + bands_of_pairs(
                    sides[group].pairs@,
                    pair,
                ) + coupled_bands(found.sfb_mask@, band);
                &&& 0 <= place < rotations
                &&& steps[place] == (HoaDownmixStep::Rotate {
                    first: (offset + found.first) as usize,
                    second: (offset + found.second) as usize,
                    start: band_edge(band) as usize,
                    stop: band_edge(band + 1) as usize,
                })
            }
            &&& channel < sides[group].ild_indices@.len() && sides[group].ild_indices@[channel]
                is Some ==> {
                let place = levels_of_groups(sides, group) + levels_before(
                    sides[group].ild_indices@,
                    channel,
                );
                &&& 0 <= place < steps.len() - rotations
                &&& steps[rotations + place] == (HoaDownmixStep::Gain {
                    channel: (offset + channel) as usize,
                    index: sides[group].ild_indices@[channel]->0,
                })
            }
        },
{
    let sides = side.groups@;
    let count = config.groups@.len() as int;
    if let Ok(steps) = downmix_steps(side, config, spectra) {
        lemma_rotations(sides, config.groups@, spectra, count, group, pair, band);
        lemma_gains(sides, config.groups@, count, group, channel);
        let first = rotation_steps(sides, config.groups@, spectra, count)->Ok_0;
        let second = gain_steps(sides, config.groups@, count)->Ok_0;
        assert(steps =~= first + second);
        if channel < sides[group].ild_indices@.len() && sides[group].ild_indices@[channel] is Some {
            let place = levels_of_groups(sides, group) + levels_before(
                sides[group].ild_indices@,
                channel,
            );
            assert(steps[first.len() + place] == second[place]);
        }
    }
}

proof fn lemma_first_group(groups: Seq<HoaGroupConfig>, channel: int, from: int, group: int)
    requires
        0 <= from <= group < groups.len(),
        group_has(groups[group], channel),
    ensures
        from <= group_index_of(groups, channel, from) <= group,
        group_has(groups[group_index_of(groups, channel, from)], channel),
    decreases group - from,
{
    if !group_has(groups[from], channel) {
        lemma_first_group(groups, channel, from + 1, group);
    }
}

/// A transport channel is decoded as the group says that it is in: noise reaches up to the first line
/// of its bandwidth extension or, if it has none, up to the last line that its group codes; and it
/// has the bandwidth extension of the frame if its group has one.
pub proof fn hoa_channels_go_by_their_group(
    config: HoaConfig,
    group: int,
    inside: int,
    extension: Option<BweConfig>,
)
    requires
        config.well_formed(),
        0 <= group < config.groups@.len(),
        0 <= inside < config.groups@[group].channels,
    ensures
        ({
            let own = config.groups@[group];
            let channel = own.channel_offset + inside;
            &&& hoa_noise_lines(config, None, channel) == Ok::<int, CodecError>(
                own.core_lines as int,
            )
            &&& extension matches Some(bwe) ==> (bwe.target_tiles@[0] matches Some(line)
                ==> hoa_noise_lines(config, extension, channel) == Ok::<int, CodecError>(
                line as int,
            ))
            &&& !own.bwe_enabled ==> channel_bwe(config.groups@, channel, extension) == Ok::<
                Option<BweConfig>,
                CodecError,
            >(None)
            &&& own.bwe_enabled && extension is Some ==> channel_bwe(
                config.groups@,
                channel,
                extension,
            ) == Ok::<Option<BweConfig>, CodecError>(extension)
            &&& own.bwe_enabled && extension is None ==> channel_bwe(
                config.groups@,
                channel,
                extension,
            ) is Err
        }),
{
    let groups = config.groups@;
    let channel = groups[group].channel_offset + inside;
    assert(group_has(groups[group], channel));
    lemma_first_group(groups, channel, 0, group);
    hoa_groups_are_disjoint(config, channel, group_index_of(groups, channel, 0), group);
    assert(groups[group].channel_offset == channels_before(groups, group));
    lemma_channels_before_monotone(groups, group + 1, groups.len() as int);
}

} // verus!
