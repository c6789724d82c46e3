//! The transport channels of an ambisonic frame: which stages they run, and how their downmix is
//! undone.

use crate::bitreader::bit_capacity;
use crate::bwe::BweConfig;
use crate::config::NeuralNetworkType;
use crate::core_side::TnsCodebook;
use crate::error::CodecError;
use crate::group::MDCT_LINES;
use crate::hoa_frame::{hoa_frame_at, parse_hoa_frame_side_info, GaHoaFrameSideInfo};
use crate::hoa_side::{
    group_index_of, hoa_row, HoaConfig, HoaGroupConfig, HOA_SCALE_FACTOR_BANDS, HOA_SFB_BOUNDARIES,
};
use crate::hoa_syntax::{HoaGroupSideInfo, HoaPairSideInfo, HoaSideInfo};
use crate::synthesis_plan::{
    channel_samples_stages, ends_at_refusal, for_channels, in_order, lemma_for_channels_ends,
    lemma_for_channels_refused, lemma_in_order_ends, lemma_joined, plan_channel_samples, plan_spectrum, refused,
    spectrum_stages, SynthesisStage,
};
use vstd::prelude::*;

verus! {

/// One step that undoes the downmix of the transport channels.
#[derive(Clone, Copy, Debug, PartialEq, Eq)]
pub enum HoaDownmixStep {
    /// Replace lines `start` to `stop` of two channels by their sum and difference over root two.
    Rotate { first: usize, second: usize, start: usize, stop: usize },
    /// Multiply a channel by the level difference with the given index.
    Gain { channel: usize, index: u8 },
}

/// The rotations of a pair in the bands below `band`.
pub open spec fn band_steps(mask: Seq<bool>, first: int, second: int, band: int) -> Seq<
    HoaDownmixStep,
>
    decreases band,
{
    if band <= 0 {
        Seq::empty()
    } else {
        let before = band_steps(mask, first, second, band - 1);
        if mask[band - 1] {
            before.push(
                HoaDownmixStep::Rotate {
                    first: first as usize,
                    second: second as usize,
                    start: HOA_SFB_BOUNDARIES@[band - 1],
                    stop: HOA_SFB_BOUNDARIES@[band],
                },
            )
        } else {
            before
        }
    }
}

/// The rotations of the pairs below `count` of a group whose channels start at `offset`.
pub open spec fn pair_steps(
    pairs: Seq<HoaPairSideInfo>,
    offset: int,
    spectra: int,
    count: int,
) -> Result<Seq<HoaDownmixStep>, CodecError>
    decreases count,
{
    if count <= 0 {
        Ok(Seq::empty())
    } else {
        match pair_steps(pairs, offset, spectra, count - 1) {
            Err(error) => Err(error),
            Ok(before) => {
                let pair = pairs[count - 1];
                let first = offset + pair.first;
                let second = offset + pair.second;
                if first == second || first >= spectra || second >= spectra {
                    Err(CodecError::InvalidData("invalid HOA transport-channel pair"))
                } else {
                    Ok(
                        before + band_steps(
                            pair.sfb_mask@,
                            first,
                            second,
                            HOA_SCALE_FACTOR_BANDS as int,
                        ),
                    )
                }
            },
        }
    }
}

/// The rotations of the groups below `count`.
pub open spec fn rotation_steps(
    sides: Seq<HoaGroupSideInfo>,
    groups: Seq<HoaGroupConfig>,
    spectra: int,
    count: int,
) -> Result<Seq<HoaDownmixStep>, CodecError>
    decreases count,
{
    if count <= 0 {
        Ok(Seq::empty())
    } else {
        match rotation_steps(sides, groups, spectra, count - 1) {
            Err(error) => Err(error),
            Ok(before) => {
                let side = sides[count - 1];
                let group = groups[count - 1];
                if side.channels != group.channels || side.channel_offset != group.channel_offset {
                    Err(CodecError::InvalidData("HOA inverse DMX group geometry mismatch"))
                } else {
                    match pair_steps(
                        side.pairs@,
                        group.channel_offset as int,
                        spectra,
                        side.pairs@.len() as int,
                    ) {
                        Err(error) => Err(error),
                        Ok(steps) => Ok(before + steps),
                    }
                }
            },
        }
    }
}

/// The gains of the channels below `count` of a group whose channels start at `offset`.
pub open spec fn level_steps(levels: Seq<Option<u8>>, offset: int, count: int) -> Seq<
    HoaDownmixStep,
>
    decreases count,
{
    if count <= 0 {
        Seq::empty()
    } else {
        let before = level_steps(levels, offset, count - 1);
        match levels[count - 1] {
            Some(index) => before.push(
                HoaDownmixStep::Gain { channel: (offset + count - 1) as usize, index },
            ),
            None => before,
        }
    }
}

/// The gains of the groups below `count`.
pub open spec fn gain_steps(
    sides: Seq<HoaGroupSideInfo>,
    groups: Seq<HoaGroupConfig>,
    count: int,
) -> Result<Seq<HoaDownmixStep>, CodecError>
    decreases count,
{
    if count <= 0 {
        Ok(Seq::empty())
    } else {
        match gain_steps(sides, groups, count - 1) {
            Err(error) => Err(error),
            Ok(before) => {
                let levels = sides[count - 1].ild_indices@;
                let group = groups[count - 1];
                if levels.len() != group.channels {
                    Err(CodecError::InvalidData("HOA ILD vector does not match group channel count"))
                } else {
                    Ok(
                        before + level_steps(
                            levels,
                            group.channel_offset as int,
                            levels.len() as int,
                        ),
                    )
                }
            },
        }
    }
}

/// All rotations, then all gains.
pub open spec fn downmix_steps(side: HoaSideInfo, config: HoaConfig, spectra: int) -> Result<
    Seq<HoaDownmixStep>,
    CodecError,
> {
    let count = config.groups@.len() as int;
    if spectra != config.transport_channels || side.groups@.len() != count {
        Err(CodecError::InvalidData("HOA inverse DMX transport geometry mismatch"))
    } else {
        match rotation_steps(side.groups@, config.groups@, spectra, count) {
            Err(error) => Err(error),
            Ok(rotations) => match gain_steps(side.groups@, config.groups@, count) {
                Err(error) => Err(error),
                Ok(gains) => Ok(rotations + gains),
            },
        }
    }
}

/// Append the rotations of one pair.
fn plan_pair(steps: &mut Vec<HoaDownmixStep>, mask: &[bool; 21], first: usize, second: usize)
    ensures
        final(steps)@ == old(steps)@ + band_steps(
            mask@,
            first as int,
            second as int,
            HOA_SCALE_FACTOR_BANDS as int,
        ),
{
    let ghost before = steps@;
    let mut band: usize = 0;
    assert(before + band_steps(mask@, first as int, second as int, 0) =~= before);
    while band < HOA_SCALE_FACTOR_BANDS
        invariant
            band <= HOA_SCALE_FACTOR_BANDS,
            steps@ == before + band_steps(mask@, first as int, second as int, band as int),
        decreases HOA_SCALE_FACTOR_BANDS - band,
    {
        if mask[band] {
            let start: usize = HOA_SFB_BOUNDARIES[band];
            let stop: usize = HOA_SFB_BOUNDARIES[band + 1];
            steps.push(HoaDownmixStep::Rotate { first, second, start, stop });
        }
        band = band + 1;
        assert(steps@ =~= before + band_steps(mask@, first as int, second as int, band as int));
    }
}

/// Append the rotations of one group.
fn plan_group(
    steps: &mut Vec<HoaDownmixStep>,
    pairs: &[HoaPairSideInfo],
    offset: usize,
    spectra: usize,
) -> (result: Result<(), CodecError>)
    requires
        offset <= 255,
    ensures
        match pair_steps(pairs@, offset as int, spectra as int, pairs@.len() as int) {
            Ok(added) => result is Ok && final(steps)@ == old(steps)@ + added,
            Err(error) => result == Err::<(), CodecError>(error),
        },
{
    let ghost before = steps@;
    let mut index: usize = 0;
    assert(before + Seq::<HoaDownmixStep>::empty() =~= before);
    while index < pairs.len()
        invariant
            index <= pairs@.len(),
            offset <= 255,
            match pair_steps(pairs@, offset as int, spectra as int, index as int) {
                Ok(added) => steps@ == before + added,
                Err(_) => false,
            },
        decreases pairs.len() - index,
    {
        let pair = &pairs[index];
        let first: usize = offset + pair.first as usize;
        let second: usize = offset + pair.second as usize;
        if first == second || first >= spectra || second >= spectra {
            proof {
                lemma_pair_error(
                    pairs@,
                    offset as int,
                    spectra as int,
                    index as int + 1,
                    pairs@.len() as int,
                );
            }
            return Err(CodecError::InvalidData("invalid HOA transport-channel pair"));
        }
        let ghost done = steps@;
        plan_pair(steps, &pair.sfb_mask, first, second);
        proof {
            let added = pair_steps(pairs@, offset as int, spectra as int, index as int)->Ok_0;
            let bands = band_steps(
                pair.sfb_mask@,
                first as int,
                second as int,
                HOA_SCALE_FACTOR_BANDS as int,
            );
            assert((before + added) + bands =~= before + (added + bands));
        }
        index = index + 1;
    }
    Ok(())
}

/// A pair that is refused refuses the whole group.
proof fn lemma_pair_error(
    pairs: Seq<HoaPairSideInfo>,
    offset: int,
    spectra: int,
    some: int,
    count: int,
)
    requires
        0 <= some <= count,
        pair_steps(pairs, offset, spectra, some) is Err,
    ensures
        pair_steps(pairs, offset, spectra, count) == pair_steps(pairs, offset, spectra, some),
    decreases count,
{
    if some < count {
        lemma_pair_error(pairs, offset, spectra, some, count - 1);
    }
}

/// A group that is refused refuses all rotations.
proof fn lemma_rotation_error(
    sides: Seq<HoaGroupSideInfo>,
    groups: Seq<HoaGroupConfig>,
    spectra: int,
    some: int,
    count: int,
)
    requires
        0 <= some <= count,
        rotation_steps(sides, groups, spectra, some) is Err,
    ensures
        rotation_steps(sides, groups, spectra, count) == rotation_steps(
            sides,
            groups,
            spectra,
            some,
        ),
    decreases count,
{
    if some < count {
        lemma_rotation_error(sides, groups, spectra, some, count - 1);
    }
}

/// A group that is refused refuses all gains.
proof fn lemma_gain_error(
    sides: Seq<HoaGroupSideInfo>,
    groups: Seq<HoaGroupConfig>,
    some: int,
    count: int,
)
    requires
        0 <= some <= count,
        gain_steps(sides, groups, some) is Err,
    ensures
        gain_steps(sides, groups, count) == gain_steps(sides, groups, some),
    decreases count,
{
    if some < count {
        lemma_gain_error(sides, groups, some, count - 1);
    }
}

/// Append the gains of one group.
fn plan_levels(steps: &mut Vec<HoaDownmixStep>, levels: &[Option<u8>], offset: usize)
    requires
        offset <= 255,
        levels@.len() <= 255,
    ensures
        final(steps)@ == old(steps)@ + level_steps(
            levels@,
            offset as int,
            levels@.len() as int,
        ),
{
    let ghost before = steps@;
    let mut local: usize = 0;
    assert(before + level_steps(levels@, offset as int, 0) =~= before);
    while local < levels.len()
        invariant
            local <= levels@.len() <= 255,
            offset <= 255,
            steps@ == before + level_steps(levels@, offset as int, local as int),
        decreases levels.len() - local,
    {
        if let Some(index) = levels[local] {
            steps.push(HoaDownmixStep::Gain { channel: offset + local, index });
        }
        local = local + 1;
        assert(steps@ =~= before + level_steps(levels@, offset as int, local as int));
    }
}

/// The steps that undo the downmix of `spectra` transport channels.
///
/// Each pair is rotated back in the bands that its mask names. Behind all rotations each channel
/// with a level difference is multiplied by it.
pub fn plan_inverse_hoa_dmx(side: &HoaSideInfo, config: &HoaConfig, spectra: usize) -> (result:
    Result<Vec<HoaDownmixStep>, CodecError>)
    ensures
        match downmix_steps(*side, *config, spectra as int) {
            Ok(steps) => result is Ok && result->Ok_0@ == steps,
            Err(error) => result is Err && result->Err_0 == error,
        },
{
    if spectra != config.transport_channels as usize || side.groups.len() != config.groups.len() {
        return Err(CodecError::InvalidData("HOA inverse DMX transport geometry mismatch"));
    }
    let ghost count = config.groups@.len() as int;
    let mut steps: Vec<HoaDownmixStep> = Vec::new();
    let mut index: usize = 0;
    while index < config.groups.len()
        invariant
            index <= config.groups@.len(),
            count == config.groups@.len(),
            side.groups@.len() == count,
            spectra == config.transport_channels,
            match rotation_steps(side.groups@, config.groups@, spectra as int, index as int) {
                Ok(added) => steps@ == added,
                Err(_) => false,
            },
        decreases config.groups.len() - index,
    {
        let group_side = &side.groups[index];
        let group: HoaGroupConfig = config.groups[index];
        if group_side.channels != group.channels || group_side.channel_offset
            != group.channel_offset {
            proof {
                lemma_rotation_error(
                    side.groups@,
                    config.groups@,
                    spectra as int,
                    index as int + 1,
                    count,
                );
            }
            return Err(CodecError::InvalidData("HOA inverse DMX group geometry mismatch"));
        }
        match plan_group(
            &mut steps,
            group_side.pairs.as_slice(),
            group.channel_offset as usize,
            spectra,
        ) {
            Ok(()) => {},
            Err(error) => {
                proof {
                    lemma_rotation_error(
                        side.groups@,
                        config.groups@,
                        spectra as int,
                        index as int + 1,
                        count,
                    );
                }
                return Err(error);
            },
        }
        index = index + 1;
    }
    let ghost rotations = steps@;
    assert(rotations + Seq::<HoaDownmixStep>::empty() =~= rotations);
    index = 0;
    while index < config.groups.len()
        invariant
            index <= config.groups@.len(),
            count == config.groups@.len(),
            side.groups@.len() == count,
            spectra == config.transport_channels,
            rotation_steps(side.groups@, config.groups@, spectra as int, count) == Ok::<
                Seq<HoaDownmixStep>,
                CodecError,
            >(rotations),
            match gain_steps(side.groups@, config.groups@, index as int) {
                Ok(added) => steps@ == rotations + added,
                Err(_) => false,
            },
        decreases config.groups.len() - index,
    {
        let levels = &side.groups[index].ild_indices;
        let group: HoaGroupConfig = config.groups[index];
        if levels.len() != group.channels as usize {
            proof {
                lemma_gain_error(side.groups@, config.groups@, index as int + 1, count);
            }
            return Err(
                CodecError::InvalidData("HOA ILD vector does not match group channel count"),
            );
        }
        let ghost added = gain_steps(side.groups@, config.groups@, index as int)->Ok_0;
        plan_levels(&mut steps, levels.as_slice(), group.channel_offset as usize);
        proof {
            let more = level_steps(levels@, group.channel_offset as int, levels@.len() as int);
            assert((rotations + added) + more =~= rotations + (added + more));
        }
        index = index + 1;
    }
    Ok(steps)
}

/// A rotation joins two different channels, below line 768, and no gain reaches behind the last
/// channel.
pub open spec fn step_fits(step: HoaDownmixStep, spectra: int) -> bool {
    match step {
        HoaDownmixStep::Rotate { first, second, start, stop } => {
            &&& first < spectra
            &&& second < spectra
            &&& first != second
            &&& start < stop <= 768
        },
        HoaDownmixStep::Gain { channel, index } => channel < spectra,
    }
}

/// All steps fit.
pub open spec fn steps_fit(steps: Seq<HoaDownmixStep>, spectra: int) -> bool {
    forall|i: int| 0 <= i < steps.len() ==> step_fits(#[trigger] steps[i], spectra)
}

proof fn lemma_bands_fit(mask: Seq<bool>, first: int, second: int, band: int, spectra: int)
    requires
        0 <= first < spectra,
        0 <= second < spectra,
        first != second,
        spectra <= 255,
        band <= HOA_SCALE_FACTOR_BANDS,
    ensures
        steps_fit(band_steps(mask, first, second, band), spectra),
    decreases band,
{
    if band > 0 {
        lemma_bands_fit(mask, first, second, band - 1, spectra);
    }
}

proof fn lemma_pairs_fit(pairs: Seq<HoaPairSideInfo>, offset: int, spectra: int, count: int)
    requires
        0 <= offset,
        spectra <= 255,
        count <= pairs.len(),
    ensures
        pair_steps(pairs, offset, spectra, count) matches Ok(steps) ==> steps_fit(steps, spectra),
    decreases count,
{
    if count > 0 {
        lemma_pairs_fit(pairs, offset, spectra, count - 1);
        let pair = pairs[count - 1];
        let first = offset + pair.first;
        let second = offset + pair.second;
        if first != second && first < spectra && second < spectra {
            lemma_bands_fit(
                pair.sfb_mask@,
                first,
                second,
                HOA_SCALE_FACTOR_BANDS as int,
                spectra,
            );
        }
    }
}

proof fn lemma_rotations_fit(
    sides: Seq<HoaGroupSideInfo>,
    groups: Seq<HoaGroupConfig>,
    spectra: int,
    count: int,
)
    requires
        spectra <= 255,
    ensures
        rotation_steps(sides, groups, spectra, count) matches Ok(steps) ==> steps_fit(
            steps,
            spectra,
        ),
    decreases count,
{
    if count > 0 {
        lemma_rotations_fit(sides, groups, spectra, count - 1);
        let pairs = sides[count - 1].pairs@;
        lemma_pairs_fit(
            pairs,
            groups[count - 1].channel_offset as int,
            spectra,
            pairs.len() as int,
        );
    }
}

proof fn lemma_levels_fit(levels: Seq<Option<u8>>, offset: int, count: int, spectra: int)
    requires
        0 <= offset,
        offset + count <= spectra <= 255,
    ensures
        steps_fit(level_steps(levels, offset, count), spectra),
    decreases count,
{
    if count > 0 {
        lemma_levels_fit(levels, offset, count - 1, spectra);
    }
}

proof fn lemma_gains_fit(
    sides: Seq<HoaGroupSideInfo>,
    groups: Seq<HoaGroupConfig>,
    spectra: int,
    count: int,
)
    requires
        count <= groups.len(),
        spectra <= 255,
        forall|i: int|
            0 <= i < groups.len() ==> (#[trigger] groups[i]).channel_offset + groups[i].channels
                <= spectra,
    ensures
        gain_steps(sides, groups, count) matches Ok(steps) ==> steps_fit(steps, spectra),
    decreases count,
{
    if count > 0 {
        lemma_gains_fit(sides, groups, spectra, count - 1);
        let levels = sides[count - 1].ild_indices@;
        let group = groups[count - 1];
        if levels.len() == group.channels {
            lemma_levels_fit(levels, group.channel_offset as int, levels.len() as int, spectra);
        }
    }
}

/// Undoing the downmix touches only the transport channels there are, and rotates only pairs of
/// different channels, below line 768.
pub proof fn downmix_stays_inside_the_frame(side: HoaSideInfo, config: HoaConfig, spectra: int)
    requires
        config.well_formed(),
        spectra <= 255,
    ensures
        downmix_steps(side, config, spectra) matches Ok(steps) ==> steps_fit(steps, spectra),
{
    let count = config.groups@.len() as int;
    if spectra == config.transport_channels && side.groups@.len() == count {
        assert forall|i: int| 0 <= i < count implies (
        #[trigger] config.groups@[i]).channel_offset + config.groups@[i].channels <= spectra by {
            crate::hoa_side::lemma_channels_before_monotone(config.groups@, i + 1, count);
        }
        lemma_rotations_fit(side.groups@, config.groups@, spectra, count);
        lemma_gains_fit(side.groups@, config.groups@, spectra, count);
    }
}

/// The two sides of an ambisonic frame disagree about its bandwidth extension.
pub open spec fn hoa_disagreement() -> CodecError {
    CodecError::InvalidData("HOA BWE configuration and decoded side information disagree")
}

/// Lines below which noise is filled in: up to the first extended line, or up to the last line
/// that the group codes.
pub open spec fn hoa_noise_lines(
    config: HoaConfig,
    bwe_config: Option<BweConfig>,
    channel: int,
) -> Result<int, CodecError> {
    let index = group_index_of(config.groups@, channel, 0);
    if channel >= config.transport_channels {
        Err(CodecError::InvalidData("HOA transport channel index exceeds configured channel count"))
    } else if index >= config.groups@.len() {
        Err(CodecError::Internal("HOA transport channel is not covered by a group"))
    } else {
        match bwe_config {
            None => Ok(config.groups@[index].core_lines as int),
            Some(bwe) => match bwe.target_tiles@[0] {
                Some(line) => Ok(line as int),
                None => Err(
                    CodecError::InvalidData("HOA BWE configuration is missing its start line"),
                ),
            },
        }
    }
}

/// The spectra of the transport channels, one behind the other.
pub open spec fn hoa_spectra(nn_type: NeuralNetworkType, side: GaHoaFrameSideInfo) -> spec_fn(
    int,
) -> Seq<SynthesisStage> {
    |channel: int|
        match hoa_noise_lines(side.config, side.channel_bwe_configs@[channel], channel) {
            Err(error) => seq![SynthesisStage::Refuse(error)],
            Ok(lines) => spectrum_stages(
                nn_type,
                side.channels@[channel].qc,
                channel,
                lines,
                MDCT_LINES as int,
            ),
        }
}

/// The samples of the transport channels, one behind the other.
pub open spec fn hoa_samples(side: GaHoaFrameSideInfo) -> spec_fn(int) -> Seq<SynthesisStage> {
    |channel: int|
        seq![SynthesisStage::InverseGrouping { channel: channel as usize }]
            + channel_samples_stages(
            channel,
            side.channel_bwe_configs@[channel] is Some,
            side.channels@[channel].bwe is Some,
            false,
            hoa_disagreement(),
        )
}

/// All spectra, then the downmix, then all samples.
pub open spec fn hoa_stages(nn_type: NeuralNetworkType, side: GaHoaFrameSideInfo) -> Seq<
    SynthesisStage,
> {
    let count = side.config.transport_channels as int;
    in_order(
        in_order(
            for_channels(hoa_spectra(nn_type, side), count),
            seq![SynthesisStage::HoaDownmix],
        ),
        for_channels(hoa_samples(side), count),
    )
}

/// The first line of a transport channel that is not filled with noise.
pub fn hoa_noise_line_count(
    config: &HoaConfig,
    bwe_config: Option<BweConfig>,
    channel: usize,
) -> (result: Result<usize, CodecError>)
    ensures
        match hoa_noise_lines(*config, bwe_config, channel as int) {
            Ok(lines) => result is Ok && result->Ok_0 == lines,
            Err(error) => result == Err::<usize, CodecError>(error),
        },
{
    let group: HoaGroupConfig = config.group_for_channel(channel)?;
    match bwe_config {
        Some(bwe) => match bwe.target_tiles[0] {
            Some(line) => Ok(line as usize),
            None => Err(CodecError::InvalidData("HOA BWE configuration is missing its start line")),
        },
        None => Ok(group.core_lines as usize),
    }
}

/// Append the spectrum of one transport channel.
fn plan_hoa_spectrum(
    plan: &mut Vec<SynthesisStage>,
    nn_type: NeuralNetworkType,
    side: &GaHoaFrameSideInfo,
    channel: usize,
) -> (goes_on: bool)
    requires
        channel < side.channels@.len(),
        channel < side.channel_bwe_configs@.len(),
    ensures
        final(plan)@ == old(plan)@ + hoa_spectra(nn_type, *side)(channel as int),
        goes_on == !refused(hoa_spectra(nn_type, *side)(channel as int)),
{
    let ghost before = plan@;
    match hoa_noise_line_count(&side.config, side.channel_bwe_configs[channel], channel) {
        Err(error) => {
            plan.push(SynthesisStage::Refuse(error));
            assert(plan@ =~= before + seq![SynthesisStage::Refuse(error)]);
            false
        },
        Ok(lines) => plan_spectrum(
            plan,
            nn_type,
            &side.channels[channel].qc,
            channel,
            lines,
            MDCT_LINES,
        ),
    }
}

/// Append the samples of one transport channel.
fn plan_hoa_samples(
    plan: &mut Vec<SynthesisStage>,
    side: &GaHoaFrameSideInfo,
    channel: usize,
) -> (goes_on: bool)
    requires
        channel < side.channels@.len(),
        channel < side.channel_bwe_configs@.len(),
    ensures
        final(plan)@ == old(plan)@ + hoa_samples(*side)(channel as int),
        goes_on == !refused(hoa_samples(*side)(channel as int)),
{
    let ghost before = plan@;
    plan.push(SynthesisStage::InverseGrouping { channel });
    let ghost head = seq![SynthesisStage::InverseGrouping { channel }];
    let ghost tail = channel_samples_stages(
        channel as int,
        side.channel_bwe_configs@[channel as int] is Some,
        side.channels@[channel as int].bwe is Some,
        false,
        hoa_disagreement(),
    );
    let goes_on: bool = plan_channel_samples(
        plan,
        channel,
        side.channel_bwe_configs[channel].is_some(),
        side.channels[channel].bwe.is_some(),
        false,
        CodecError::InvalidData("HOA BWE configuration and decoded side information disagree"),
    );
    proof {
        assert(plan@ =~= before + (head + tail));
        lemma_joined(head, tail);
    }
    goes_on
}

/// Plan the transport channels of an ambisonic frame up to their samples.
pub fn plan_hoa_transport(nn_type: NeuralNetworkType, side: &GaHoaFrameSideInfo) -> (result:
    Result<Vec<SynthesisStage>, CodecError>)
    ensures
        if side.channels@.len() != side.config.transport_channels
            || side.channel_bwe_configs@.len() != side.config.transport_channels {
            result is Err && result->Err_0 == CodecError::Internal(
                "HOA frame parser returned inconsistent transport geometry",
            )
        } else {
            result is Ok && result->Ok_0@ == hoa_stages(nn_type, *side)
        },
{
    let channel_count: usize = side.config.transport_channels as usize;
    if side.channels.len() != channel_count || side.channel_bwe_configs.len() != channel_count {
        return Err(
            CodecError::Internal("HOA frame parser returned inconsistent transport geometry"),
        );
    }
    let ghost count = channel_count as int;
    let ghost front = hoa_spectra(nn_type, *side);
    let ghost back = hoa_samples(*side);
    let mut plan: Vec<SynthesisStage> = Vec::new();
    let mut channel: usize = 0;
    while channel < channel_count
        invariant
            channel <= channel_count,
            count == channel_count,
            channel_count == side.config.transport_channels,
            side.channels@.len() == count,
            side.channel_bwe_configs@.len() == count,
            front == hoa_spectra(nn_type, *side),
            plan@ == for_channels(front, channel as int),
            !refused(plan@),
        decreases channel_count - channel,
    {
        let ghost before = plan@;
        let goes_on: bool = plan_hoa_spectrum(&mut plan, nn_type, side, channel);
        proof {
            lemma_joined(before, front(channel as int));
        }
        if !goes_on {
            proof {
                lemma_for_channels_refused(front, channel as int + 1, count);
            }
            return Ok(plan);
        }
        channel = channel + 1;
    }
    let ghost spectral = plan@;
    plan.push(SynthesisStage::HoaDownmix);
    assert(plan@ =~= spectral + seq![SynthesisStage::HoaDownmix]);
    let ghost mixed = plan@;
    assert(plan@ =~= mixed + for_channels(back, 0));
    channel = 0;
    while channel < channel_count
        invariant
            channel <= channel_count,
            count == channel_count,
            channel_count == side.config.transport_channels,
            side.channels@.len() == count,
            side.channel_bwe_configs@.len() == count,
            front == hoa_spectra(nn_type, *side),
            back == hoa_samples(*side),
            spectral == for_channels(front, count),
            !refused(spectral),
            mixed == spectral + seq![SynthesisStage::HoaDownmix],
            plan@ == mixed + for_channels(back, channel as int),
            !refused(for_channels(back, channel as int)),
        decreases channel_count - channel,
    {
        let ghost before = for_channels(back, channel as int);
        let goes_on: bool = plan_hoa_samples(&mut plan, side, channel);
        proof {
            lemma_joined(before, back(channel as int));
            assert((mixed + before) + back(channel as int) =~= mixed + (before + back(
                channel as int,
            )));
        }
        if !goes_on {
            proof {
                lemma_for_channels_refused(back, channel as int + 1, count);
            }
            return Ok(plan);
        }
        channel = channel + 1;
    }
    Ok(plan)
}

/// Parse an ambisonic payload and plan its transport channels up to their samples.
pub fn plan_hoa_transport_frame(
    nn_type: NeuralNetworkType,
    payload: &[u8],
    core_bit_offset: usize,
    order: u8,
    total_bitrate_kbps: u32,
    hoa_bwe: Option<BweConfig>,
    codebook: &TnsCodebook,
) -> (result: Result<(GaHoaFrameSideInfo, Vec<SynthesisStage>), CodecError>)
    ensures
        nn_type is Reserved ==> result is Err && result->Err_0 == CodecError::Unsupported(
            "reserved AVS3 neural-network type",
        ),
        !(nn_type is Reserved) ==> match hoa_row(order as int, total_bitrate_kbps as int) {
            None => result is Err && result->Err_0 == CodecError::Unsupported(
                "unsupported AVS3 HOA order/bitrate configuration",
            ),
            Some(row) => {
                &&& result matches Ok(planned) ==> {
                    &&& planned.0.config.is_row(order as int, row)
                    &&& planned.0.config.well_formed()
                    &&& planned.1@ == hoa_stages(nn_type, planned.0)
                }
                &&& forall|config: HoaConfig| #[trigger]
                    config.is_row(order as int, row) && config.well_formed()
                        ==> match hoa_frame_at(
                        *codebook,
                        payload@,
                        bit_capacity(payload@),
                        core_bit_offset as int,
                        nn_type,
                        total_bitrate_kbps as int,
                        config,
                        hoa_bwe,
                    ) {
                        Err(error) => result is Err && result->Err_0 == error,
                        Ok(syntax) => result is Ok && (result->Ok_0).0.matches(syntax, hoa_bwe),
                    }
            },
        },
{
    let side = parse_hoa_frame_side_info(
        payload,
        core_bit_offset,
        order,
        total_bitrate_kbps,
        nn_type,
        hoa_bwe,
        codebook,
    )?;
    proof {
        let row = hoa_row(order as int, total_bitrate_kbps as int)->0;
        assert(side.config.is_row(order as int, row) && side.config.well_formed());
    }
    let plan = plan_hoa_transport(nn_type, &side)?;
    Ok((side, plan))
}

/// Nothing is done behind the refusal of an ambisonic frame.
pub proof fn hoa_plan_ends_at_its_refusal(nn_type: NeuralNetworkType, side: GaHoaFrameSideInfo)
    ensures
        ends_at_refusal(hoa_stages(nn_type, side)),
{
    let count = side.config.transport_channels as int;
    let front = hoa_spectra(nn_type, side);
    let back = hoa_samples(side);
    assert forall|channel: int| ends_at_refusal(#[trigger] front(channel)) by {}
    assert forall|channel: int| ends_at_refusal(#[trigger] back(channel)) by {
        let head = seq![SynthesisStage::InverseGrouping { channel: channel as usize }];
        let extension = crate::synthesis_plan::extension_stages(
            channel,
            side.channel_bwe_configs@[channel] is Some,
            side.channels@[channel].bwe is Some,
            hoa_disagreement(),
        );
        let tail = channel_samples_stages(
            channel,
            side.channel_bwe_configs@[channel] is Some,
            side.channels@[channel].bwe is Some,
            false,
            hoa_disagreement(),
        );
        lemma_in_order_ends(
            extension,
            crate::synthesis_plan::shaping_stages(channel, false),
        );
        lemma_in_order_ends(head, tail);
        assert(back(channel) == in_order(head, tail));
    }
    lemma_for_channels_ends(front, count);
    lemma_for_channels_ends(back, count);
    lemma_in_order_ends(for_channels(front, count), seq![SynthesisStage::HoaDownmix]);
    lemma_in_order_ends(
        in_order(for_channels(front, count), seq![SynthesisStage::HoaDownmix]),
        for_channels(back, count),
    );
}

} // verus!
