//! In what order the stages of a frame are done, said of the plans.

use crate::bwe::BweConfig;
use crate::config::NeuralNetworkType;
use crate::error::CodecError;
use crate::ga_frame::GaChannelSideInfo;
use crate::ga_hoa_pcm::{hoa_noise_lines, hoa_samples, hoa_spectra, hoa_stages};
use crate::ga_mono::GaMonoFrameSideInfo;
use crate::ga_pcm_plan::{coupled_stages, mono_disagreement, mono_stages, samples, spectra};
use crate::hoa_frame::GaHoaFrameSideInfo;
use crate::synthesis_plan::{
    channel_samples_stages, extension_stages, for_channels, grouped_spectrum_stages, in_order,
    noise_lines_of, refused, spectrum_stages, SynthesisStage,
};
use vstd::prelude::*;

verus! {

/// The channel that a stage is for, if it is for one.
pub open spec fn channel_of(stage: SynthesisStage) -> Option<usize> {
    match stage {
        SynthesisStage::ContextModels { channel } => Some(channel),
        SynthesisStage::BasicSpectrum { channel, .. } => Some(channel),
        SynthesisStage::LowComplexitySpectrum { channel, .. } => Some(channel),
        SynthesisStage::InverseGrouping { channel } => Some(channel),
        SynthesisStage::BandwidthExtension { channel } => Some(channel),
        SynthesisStage::InverseTns { channel } => Some(channel),
        SynthesisStage::InverseShaping { channel } => Some(channel),
        SynthesisStage::LfeRestriction { channel } => Some(channel),
        SynthesisStage::Transform { channel } => Some(channel),
        _ => None,
    }
}

/// Whose turn it is, from the spectrum of a channel to its samples: the models, the spectrum, the
/// order of the short blocks, the bandwidth extension, the noise shaping in time, the shaping of the
/// spectrum, the limit of a low-frequency channel, and the transform.
pub open spec fn turn(stage: SynthesisStage) -> int {
    match stage {
        SynthesisStage::ContextModels { .. } => 0,
        SynthesisStage::BasicSpectrum { .. } => 1,
        SynthesisStage::LowComplexitySpectrum { .. } => 1,
        SynthesisStage::InverseGrouping { .. } => 2,
        SynthesisStage::BandwidthExtension { .. } => 3,
        SynthesisStage::InverseTns { .. } => 4,
        SynthesisStage::InverseShaping { .. } => 5,
        SynthesisStage::LfeRestriction { .. } => 6,
        _ => 7,
    }
}

/// Each channel goes through its stages in turn, and through none of them twice.
pub open spec fn turns_are_kept(stages: Seq<SynthesisStage>) -> bool {
    forall|i: int, j: int|
        0 <= i < j < stages.len() && channel_of(#[trigger] stages[i]) is Some && channel_of(
            stages[i],
        ) == channel_of(#[trigger] stages[j]) ==> turn(stages[i]) < turn(stages[j])
}

/// All stages for a channel have a turn from `low` up to but not including `high`, and a channel in
/// front of `count`.
pub open spec fn turns_lie(stages: Seq<SynthesisStage>, low: int, high: int, count: int) -> bool {
    forall|i: int|
        0 <= i < stages.len() ==> (channel_of(#[trigger] stages[i]) matches Some(channel) ==> low
            <= turn(stages[i]) < high && channel < count)
}

/// All stages are for one channel, but for a refusal.
pub open spec fn only_for(stages: Seq<SynthesisStage>, channel: int) -> bool {
    forall|i: int|
        0 <= i < stages.len() ==> (channel_of(#[trigger] stages[i]) matches Some(own) ==> own
            == channel)
}

/// What the stages of the channels have in common.
pub open spec fn fitting(
    stages: spec_fn(int) -> Seq<SynthesisStage>,
    low: int,
    high: int,
    count: int,
) -> bool {
    forall|channel: int|
        0 <= channel < count ==> only_for(#[trigger] stages(channel), channel) && turns_are_kept(
            stages(channel),
        ) && turns_lie(stages(channel), low, high, count)
}

proof fn lemma_all_channels(
    stages: spec_fn(int) -> Seq<SynthesisStage>,
    low: int,
    high: int,
    all: int,
    count: int,
)
    requires
        fitting(stages, low, high, all),
        0 <= count <= all,
    ensures
        turns_are_kept(for_channels(stages, count)),
        turns_lie(for_channels(stages, count), low, high, count),
    decreases count,
{
    if count > 0 {
        lemma_all_channels(stages, low, high, all, count - 1);
        let first = for_channels(stages, count - 1);
        let second = stages(count - 1);
        let both = for_channels(stages, count);
        assert(only_for(second, count - 1));
        if !refused(first) {
            assert(both == first + second);
            assert forall|i: int, j: int|
                0 <= i < j < both.len() && channel_of(#[trigger] both[i]) is Some && channel_of(
                    both[i],
                ) == channel_of(#[trigger] both[j]) implies turn(both[i]) < turn(both[j]) by {
                if j < first.len() {
                    assert(both[i] == first[i] && both[j] == first[j]);
                } else if i >= first.len() {
                    assert(both[i] == second[i - first.len()] && both[j] == second[j
                        - first.len()]);
                } else {
                    assert(both[i] == first[i] && both[j] == second[j - first.len()]);
                }
            }
            assert forall|i: int| 0 <= i < both.len() implies (channel_of(
                #[trigger] both[i],
            ) matches Some(channel) ==> low <= turn(both[i]) < high && channel < count) by {
                if i < first.len() {
                    assert(both[i] == first[i]);
                } else {
                    assert(both[i] == second[i - first.len()]);
                }
            }
        }
    }
}

/// A stage of a channel is one of the plan, unless the frame is refused, and no channel refuses it.
proof fn lemma_channel_inside(
    stages: spec_fn(int) -> Seq<SynthesisStage>,
    count: int,
    channel: int,
)
    requires
        0 <= channel < count,
        !refused(for_channels(stages, count)),
    ensures
        !refused(stages(channel)),
        forall|stage: SynthesisStage| #[trigger]
            stages(channel).contains(stage) ==> for_channels(stages, count).contains(stage),
    decreases count,
{
    let first = for_channels(stages, count - 1);
    let second = stages(count - 1);
    if refused(first) {
        assert(for_channels(stages, count) == first);
    }
    let both = for_channels(stages, count);
    assert(both == first + second);
    if second.len() > 0 {
        assert(both.last() == second.last());
    }
    let own = stages(channel);
    if channel < count - 1 {
        lemma_channel_inside(stages, count - 1, channel);
    }
    assert forall|stage: SynthesisStage| #[trigger] own.contains(stage) implies both.contains(
        stage,
    ) by {
        if channel < count - 1 {
            let place = choose|k: int| 0 <= k < first.len() && first[k] == stage;
            assert(first.contains(stage));
            assert(both[place] == stage);
        } else {
            let place = choose|k: int| 0 <= k < own.len() && own[k] == stage;
            assert(both[first.len() + place] == stage);
        }
    }
}

proof fn lemma_parts_inside(first: Seq<SynthesisStage>, second: Seq<SynthesisStage>)
    requires
        !refused(in_order(first, second)),
    ensures
        !refused(first),
        !refused(second),
        in_order(first, second) == first + second,
        forall|stage: SynthesisStage| #[trigger]
            first.contains(stage) ==> in_order(first, second).contains(stage),
        forall|stage: SynthesisStage| #[trigger]
            second.contains(stage) ==> in_order(first, second).contains(stage),
{
    let both = in_order(first, second);
    if refused(first) {
        assert(both == first);
    }
    assert(both == first + second);
    if second.len() > 0 {
        assert(both.last() == second.last());
    }
    assert forall|stage: SynthesisStage| #[trigger] first.contains(stage) implies both.contains(
        stage,
    ) by {
        let i = choose|i: int| 0 <= i < first.len() && first[i] == stage;
        assert(both[i] == stage);
    }
    assert forall|stage: SynthesisStage| #[trigger] second.contains(stage) implies both.contains(
        stage,
    ) by {
        let i = choose|i: int| 0 <= i < second.len() && second[i] == stage;
        assert(both[first.len() + i] == stage);
    }
}

/// The stage that gives the spectrum of a channel: with the network of the frame, its own scale, and
/// noise below `lines`.
pub open spec fn spectrum_stage(
    nn_type: NeuralNetworkType,
    side: GaChannelSideInfo,
    channel: usize,
    lines: usize,
) -> SynthesisStage {
    match nn_type {
        NeuralNetworkType::Basic => SynthesisStage::BasicSpectrum {
            channel,
            noise_lines: lines,
            amplified: side.qc.is_feat_amplified->0,
            scale: side.qc.scale_q_idx->0,
        },
        _ => SynthesisStage::LowComplexitySpectrum {
            channel,
            noise_lines: lines,
            scale: side.qc.scale_q_idx_lc->0,
        },
    }
}

/// A plan turns the spectrum of a channel into samples with all the stages that this takes.
pub open spec fn gives_samples(
    plan: Seq<SynthesisStage>,
    channel: usize,
    extended: bool,
    low_frequency: bool,
) -> bool {
    &&& plan.contains(SynthesisStage::InverseGrouping { channel })
    &&& extended ==> plan.contains(SynthesisStage::BandwidthExtension { channel })
    &&& plan.contains(SynthesisStage::InverseTns { channel })
    &&& plan.contains(SynthesisStage::InverseShaping { channel })
    &&& low_frequency ==> plan.contains(SynthesisStage::LfeRestriction { channel })
    &&& plan.contains(SynthesisStage::Transform { channel })
}

/// A stage stands behind all stages whose turn is in front of `middle` and in front of all others.
pub open spec fn stands_between(
    plan: Seq<SynthesisStage>,
    stage: SynthesisStage,
    middle: int,
) -> bool {
    exists|place: int|
        0 <= place < plan.len() && #[trigger] plan[place] == stage && forall|i: int|
            0 <= i < plan.len() && channel_of(#[trigger] plan[i]) is Some ==> (i < place
                <==> turn(plan[i]) < middle)
}

/// What is known of a plan with one stage between two parts of each channel.
proof fn lemma_plan(
    f: spec_fn(int) -> Seq<SynthesisStage>,
    g: spec_fn(int) -> Seq<SynthesisStage>,
    stage: SynthesisStage,
    middle: int,
    count: int,
    channel: int,
)
    requires
        fitting(f, 0, middle, count),
        fitting(g, middle, 8, count),
        channel_of(stage) is None,
        !(stage is Refuse),
        0 <= channel < count,
    ensures
        ({
            let plan = in_order(
                in_order(for_channels(f, count), seq![stage]),
                for_channels(g, count),
            );
            !refused(plan) ==> {
                &&& turns_are_kept(plan)
                &&& stands_between(plan, stage, middle)
                &&& plan.contains(stage)
                &&& !refused(f(channel))
                &&& !refused(g(channel))
                &&& forall|own: SynthesisStage| #[trigger]
                    f(channel).contains(own) ==> plan.contains(own)
                &&& forall|own: SynthesisStage| #[trigger]
                    g(channel).contains(own) ==> plan.contains(own)
            }
        }),
{
    let first = for_channels(f, count);
    let with = in_order(first, seq![stage]);
    let second = for_channels(g, count);
    let plan = in_order(with, second);
    lemma_all_channels(f, 0, middle, count, count);
    lemma_all_channels(g, middle, 8, count, count);
    if !refused(plan) {
        lemma_parts_inside(with, second);
        lemma_parts_inside(first, seq![stage]);
        lemma_channel_inside(f, count, channel);
        lemma_channel_inside(g, count, channel);
        let place = first.len() as int;
        assert(plan =~= first + seq![stage] + second);
        assert(plan[place] == stage);
        assert forall|i: int| 0 <= i < plan.len() && channel_of(#[trigger] plan[i]) is Some implies (
        i < place <==> turn(plan[i]) < middle) by {
            if i < place {
                assert(plan[i] == first[i]);
            } else {
                assert(plan[i] == second[i - place - 1]);
            }
        }
        assert forall|i: int, j: int|
            0 <= i < j < plan.len() && channel_of(#[trigger] plan[i]) is Some && channel_of(plan[i])
                == channel_of(#[trigger] plan[j]) implies turn(plan[i]) < turn(plan[j]) by {
            if j < place {
                assert(plan[i] == first[i] && plan[j] == first[j]);
            } else if i > place {
                assert(plan[i] == second[i - place - 1] && plan[j] == second[j - place - 1]);
            } else {
                assert(i < place < j);
            }
        }
    }
}

proof fn lemma_spectrum_block(
    nn_type: NeuralNetworkType,
    side: GaChannelSideInfo,
    channel: int,
    lines: int,
    count: int,
)
    requires
        0 <= channel < count <= u16::MAX,
        0 <= lines,
    ensures
        ({
            let block = spectrum_stages(nn_type, side.qc, channel, lines, 1024);
            &&& only_for(block, channel)
            &&& turns_are_kept(block)
            &&& turns_lie(block, 0, 2, count)
            &&& block.len() > 0
            &&& !refused(block) ==> block == seq![
                SynthesisStage::ContextModels { channel: channel as usize },
                spectrum_stage(nn_type, side, channel as usize, lines as usize),
            ]
        }),
{
    let block = spectrum_stages(nn_type, side.qc, channel, lines, 1024);
    assert(block.len() == 1 || block.len() == 2);
    assert(block.len() == 2 ==> block.last() == block[1]);
    if !refused(block) {
        assert(block =~= seq![
            SynthesisStage::ContextModels { channel: channel as usize },
            spectrum_stage(nn_type, side, channel as usize, lines as usize),
        ]);
    }
}

proof fn lemma_grouped_block(
    nn_type: NeuralNetworkType,
    side: GaChannelSideInfo,
    channel: int,
    config: Option<BweConfig>,
    count: int,
)
    requires
        0 <= channel < count <= u16::MAX,
    ensures
        ({
            let block = grouped_spectrum_stages(nn_type, side, channel, config);
            let lines = match config {
                Some(config) => config.target_tiles@[0]->0 as usize,
                None => 1024,
            };
            &&& only_for(block, channel)
            &&& turns_are_kept(block)
            &&& turns_lie(block, 0, 3, count)
            &&& !refused(block) ==> block == seq![
                SynthesisStage::ContextModels { channel: channel as usize },
                spectrum_stage(nn_type, side, channel as usize, lines),
                SynthesisStage::InverseGrouping { channel: channel as usize },
            ]
        }),
{
    let block = grouped_spectrum_stages(nn_type, side, channel, config);
    let grouping = SynthesisStage::InverseGrouping { channel: channel as usize };
    match noise_lines_of(config) {
        Ok(lines) => {
            lemma_spectrum_block(nn_type, side, channel, lines, count);
            let first = spectrum_stages(nn_type, side.qc, channel, lines, 1024);
            if !refused(first) {
                assert(block =~= first.push(grouping));
                assert(block =~= seq![
                    SynthesisStage::ContextModels { channel: channel as usize },
                    spectrum_stage(nn_type, side, channel as usize, lines as usize),
                    grouping,
                ]);
            } else {
                assert(block == first);
            }
        },
        Err(error) => {
            assert(block =~= seq![SynthesisStage::Refuse(error)]);
        },
    }
}

proof fn lemma_samples_block(
    channel: int,
    configured: bool,
    present: bool,
    low_frequency: bool,
    disagreement: CodecError,
    count: int,
)
    requires
        0 <= channel < count <= u16::MAX,
    ensures
        ({
            let block = channel_samples_stages(
                channel,
                configured,
                present,
                low_frequency,
                disagreement,
            );
            let own = channel as usize;
            &&& only_for(block, channel)
            &&& turns_are_kept(block)
            &&& turns_lie(block, 3, 8, count)
            &&& !refused(block) ==> {
                &&& configured == present
                &&& configured ==> block.contains(
                    SynthesisStage::BandwidthExtension { channel: own },
                )
                &&& block.contains(SynthesisStage::InverseTns { channel: own })
                &&& block.contains(SynthesisStage::InverseShaping { channel: own })
                &&& low_frequency ==> block.contains(
                    SynthesisStage::LfeRestriction { channel: own },
                )
                &&& block.contains(SynthesisStage::Transform { channel: own })
            }
        }),
{
    let block = channel_samples_stages(channel, configured, present, low_frequency, disagreement);
    let own = channel as usize;
    if configured != present {
        assert(block =~= seq![SynthesisStage::Refuse(disagreement)]);
    } else {
        let front: int = if configured {
            1
        } else {
            0
        };
        let last: int = if low_frequency {
            3
        } else {
            2
        };
        assert(block.len() == front + last + 1);
        assert(configured ==> block[0] == (SynthesisStage::BandwidthExtension { channel: own }));
        assert(block[front] == (SynthesisStage::InverseTns { channel: own }));
        assert(block[front + 1] == (SynthesisStage::InverseShaping { channel: own }));
        assert(low_frequency ==> block[front + 2] == (SynthesisStage::LfeRestriction {
            channel: own,
        }));
        assert(block[front + last] == (SynthesisStage::Transform { channel: own }));
    }
}

/// Every channel of a stereo or multichannel frame that is not refused goes through all its stages,
/// in turn and once. The coupling is undone between the last spectrum and the first sample, and the
/// samples are interleaved at the end.
pub proof fn channels_go_through_their_stages(
    nn_type: NeuralNetworkType,
    channels: Seq<GaChannelSideInfo>,
    bwe_config: Option<BweConfig>,
    lfe_index: Option<usize>,
    coupling: SynthesisStage,
    disagreement: CodecError,
    channel: int,
)
    requires
        channels.len() <= u16::MAX,
        0 <= channel < channels.len(),
        channel_of(coupling) is None,
        !(coupling is Refuse),
    ensures
        ({
            let plan = coupled_stages(
                nn_type,
                channels,
                bwe_config,
                lfe_index,
                coupling,
                disagreement,
            );
            let side = channels[channel];
            let own = channel as usize;
            let lines = match bwe_config {
                Some(config) => config.target_tiles@[0]->0 as usize,
                None => 1024,
            };
            !refused(plan) ==> {
                &&& turns_are_kept(plan)
                &&& stands_between(plan, coupling, 3)
                &&& plan.contains(SynthesisStage::ContextModels { channel: own })
                &&& plan.contains(spectrum_stage(nn_type, side, own, lines))
                &&& gives_samples(plan, own, bwe_config is Some, lfe_index == Some(own))
                &&& bwe_config is Some <==> side.bwe is Some
                &&& plan.last() is Interleave
            }
        }),
{
    let count = channels.len() as int;
    let f = spectra(nn_type, channels, bwe_config);
    let g = samples(channels, bwe_config, lfe_index, disagreement);
    lemma_spectra_fit(nn_type, channels, bwe_config);
    lemma_samples_fit(channels, bwe_config, lfe_index, disagreement);
    let most = in_order(in_order(for_channels(f, count), seq![coupling]), for_channels(g, count));
    let end = seq![SynthesisStage::Interleave];
    let plan = in_order(most, end);
    assert(plan == coupled_stages(
        nn_type,
        channels,
        bwe_config,
        lfe_index,
        coupling,
        disagreement,
    ));
    lemma_plan(f, g, coupling, 3, count, channel);
    if !refused(plan) {
        lemma_parts_inside(most, end);
        lemma_channel_contents(
            nn_type,
            channels,
            bwe_config,
            lfe_index,
            disagreement,
            channel,
            plan,
        );
        lemma_appended(most, coupling);
    }
}

proof fn lemma_spectra_fit(
    nn_type: NeuralNetworkType,
    channels: Seq<GaChannelSideInfo>,
    bwe_config: Option<BweConfig>,
)
    requires
        channels.len() <= u16::MAX,
    ensures
        fitting(spectra(nn_type, channels, bwe_config), 0, 3, channels.len() as int),
{
    let count = channels.len() as int;
    let f = spectra(nn_type, channels, bwe_config);
    assert forall|c: int| 0 <= c < count implies only_for(#[trigger] f(c), c) && turns_are_kept(
        f(c),
    ) && turns_lie(f(c), 0, 3, count) by {
        lemma_grouped_block(nn_type, channels[c], c, bwe_config, count);
    }
}

proof fn lemma_samples_fit(
    channels: Seq<GaChannelSideInfo>,
    bwe_config: Option<BweConfig>,
    lfe_index: Option<usize>,
    disagreement: CodecError,
)
    requires
        channels.len() <= u16::MAX,
    ensures
        fitting(
            samples(channels, bwe_config, lfe_index, disagreement),
            3,
            8,
            channels.len() as int,
        ),
{
    let count = channels.len() as int;
    let g = samples(channels, bwe_config, lfe_index, disagreement);
    assert forall|c: int| 0 <= c < count implies only_for(#[trigger] g(c), c) && turns_are_kept(
        g(c),
    ) && turns_lie(g(c), 3, 8, count) by {
        lemma_samples_block(
            c,
            bwe_config is Some,
            channels[c].bwe is Some,
            lfe_index is Some && lfe_index->0 == c,
            disagreement,
            count,
        );
    }
}

proof fn lemma_channel_contents(
    nn_type: NeuralNetworkType,
    channels: Seq<GaChannelSideInfo>,
    bwe_config: Option<BweConfig>,
    lfe_index: Option<usize>,
    disagreement: CodecError,
    channel: int,
    plan: Seq<SynthesisStage>,
)
    requires
        channels.len() <= u16::MAX,
        0 <= channel < channels.len(),
        ({
            let f = spectra(nn_type, channels, bwe_config)(channel);
            let g = samples(channels, bwe_config, lfe_index, disagreement)(channel);
            &&& !refused(f)
            &&& !refused(g)
            &&& forall|stage: SynthesisStage| #[trigger] f.contains(stage) ==> plan.contains(stage)
            &&& forall|stage: SynthesisStage| #[trigger] g.contains(stage) ==> plan.contains(stage)
        }),
    ensures
        ({
            let side = channels[channel];
            let own = channel as usize;
            let lines = match bwe_config {
                Some(config) => config.target_tiles@[0]->0 as usize,
                None => 1024,
            };
            &&& plan.contains(SynthesisStage::ContextModels { channel: own })
            &&& plan.contains(spectrum_stage(nn_type, side, own, lines))
            &&& gives_samples(plan, own, bwe_config is Some, lfe_index == Some(own))
            &&& bwe_config is Some <==> side.bwe is Some
        }),
{
    let count = channels.len() as int;
    let ours = spectra(nn_type, channels, bwe_config)(channel);
    lemma_grouped_block(nn_type, channels[channel], channel, bwe_config, count);
    lemma_samples_block(
        channel,
        bwe_config is Some,
        channels[channel].bwe is Some,
        lfe_index is Some && lfe_index->0 == channel,
        disagreement,
        count,
    );
    assert(ours.contains(ours[0]) && ours.contains(ours[1]) && ours.contains(ours[2]));
}

/// Interleaving at the end changes nothing of the order.
proof fn lemma_appended(most: Seq<SynthesisStage>, coupling: SynthesisStage)
    requires
        turns_are_kept(most),
        stands_between(most, coupling, 3),
    ensures
        turns_are_kept(most + seq![SynthesisStage::Interleave]),
        stands_between(most + seq![SynthesisStage::Interleave], coupling, 3),
        (most + seq![SynthesisStage::Interleave]).last() is Interleave,
{
    let plan = most + seq![SynthesisStage::Interleave];
    assert forall|i: int, j: int|
        0 <= i < j < plan.len() && channel_of(#[trigger] plan[i]) is Some && channel_of(plan[i])
            == channel_of(#[trigger] plan[j]) implies turn(plan[i]) < turn(plan[j]) by {
        assert(j < most.len());
        assert(plan[i] == most[i] && plan[j] == most[j]);
    }
    let place = choose|place: int|
        0 <= place < most.len() && #[trigger] most[place] == coupling && forall|i: int|
            0 <= i < most.len() && channel_of(#[trigger] most[i]) is Some ==> (i < place <==> turn(
                most[i],
            ) < 3);
    assert(plan[place] == coupling);
    assert forall|i: int| 0 <= i < plan.len() && channel_of(#[trigger] plan[i]) is Some implies (i
        < place <==> turn(plan[i]) < 3) by {
        assert(i < most.len());
        assert(plan[i] == most[i]);
    }
}

/// Every transport channel of an ambisonic frame that is not refused goes through all its stages, in
/// turn and once. The downmix is undone behind all spectra, while short blocks are still grouped.
pub proof fn hoa_channels_go_through_their_stages(
    nn_type: NeuralNetworkType,
    side: GaHoaFrameSideInfo,
    channel: int,
)
    requires
        0 <= channel < side.config.transport_channels,
    ensures
        ({
            let plan = hoa_stages(nn_type, side);
            let own = side.channels@[channel];
            let config = side.channel_bwe_configs@[channel];
            let lines = hoa_noise_lines(side.config, config, channel);
            !refused(plan) ==> {
                &&& turns_are_kept(plan)
                &&& stands_between(plan, SynthesisStage::HoaDownmix, 2)
                &&& lines is Ok
                &&& plan.contains(SynthesisStage::ContextModels { channel: channel as usize })
                &&& plan.contains(
                    spectrum_stage(nn_type, own, channel as usize, lines->Ok_0 as usize),
                )
                &&& gives_samples(plan, channel as usize, config is Some, false)
                &&& config is Some <==> own.bwe is Some
            }
        }),
{
    let count = side.config.transport_channels as int;
    let f = hoa_spectra(nn_type, side);
    let g = hoa_samples(side);
    assert(fitting(f, 0, 2, count)) by {
        assert forall|c: int| 0 <= c < count implies only_for(#[trigger] f(c), c) && turns_are_kept(
            f(c),
        ) && turns_lie(f(c), 0, 2, count) by {
            lemma_hoa_spectrum(nn_type, side, c);
        }
    }
    assert(fitting(g, 2, 8, count)) by {
        assert forall|c: int| 0 <= c < count implies only_for(#[trigger] g(c), c) && turns_are_kept(
            g(c),
        ) && turns_lie(g(c), 2, 8, count) by {
            lemma_hoa_samples(side, c);
        }
    }
    lemma_plan(f, g, SynthesisStage::HoaDownmix, 2, count, channel);
    if !refused(hoa_stages(nn_type, side)) {
        lemma_hoa_spectrum(nn_type, side, channel);
        lemma_hoa_samples(side, channel);
        let ours = f(channel);
        assert(ours.contains(ours[0]) && ours.contains(ours[1]));
    }
}

proof fn lemma_hoa_spectrum(
    nn_type: NeuralNetworkType,
    side: GaHoaFrameSideInfo,
    channel: int,
)
    requires
        0 <= channel < side.config.transport_channels,
    ensures
        ({
            let block = hoa_spectra(nn_type, side)(channel);
            let lines = hoa_noise_lines(
                side.config,
                side.channel_bwe_configs@[channel],
                channel,
            );
            &&& only_for(block, channel)
            &&& turns_are_kept(block)
            &&& turns_lie(block, 0, 2, side.config.transport_channels as int)
            &&& !refused(block) ==> lines is Ok && block == seq![
                SynthesisStage::ContextModels { channel: channel as usize },
                spectrum_stage(
                    nn_type,
                    side.channels@[channel],
                    channel as usize,
                    lines->Ok_0 as usize,
                ),
            ]
        }),
{
    let block = hoa_spectra(nn_type, side)(channel);
    match hoa_noise_lines(side.config, side.channel_bwe_configs@[channel], channel) {
        Ok(lines) => {
            lemma_spectrum_block(
                nn_type,
                side.channels@[channel],
                channel,
                lines,
                side.config.transport_channels as int,
            );
        },
        Err(error) => {
            assert(block =~= seq![SynthesisStage::Refuse(error)]);
        },
    }
}

proof fn lemma_hoa_samples(side: GaHoaFrameSideInfo, channel: int)
    requires
        0 <= channel < side.config.transport_channels,
    ensures
        ({
            let block = hoa_samples(side)(channel);
            let config = side.channel_bwe_configs@[channel];
            &&& only_for(block, channel)
            &&& turns_are_kept(block)
            &&& turns_lie(block, 2, 8, side.config.transport_channels as int)
            &&& !refused(block) ==> {
                &&& config is Some <==> side.channels@[channel].bwe is Some
                &&& gives_samples(block, channel as usize, config is Some, false)
            }
        }),
{
    let grouping = SynthesisStage::InverseGrouping { channel: channel as usize };
    let rest = channel_samples_stages(
        channel,
        side.channel_bwe_configs@[channel] is Some,
        side.channels@[channel].bwe is Some,
        false,
        crate::ga_hoa_pcm::hoa_disagreement(),
    );
    let block = hoa_samples(side)(channel);
    lemma_samples_block(
        channel,
        side.channel_bwe_configs@[channel] is Some,
        side.channels@[channel].bwe is Some,
        false,
        crate::ga_hoa_pcm::hoa_disagreement(),
        side.config.transport_channels as int,
    );
    assert(block == seq![grouping] + rest);
    assert(block[0] == grouping);
    assert forall|stage: SynthesisStage| #[trigger] rest.contains(stage) implies block.contains(
        stage,
    ) by {
        let place = choose|k: int| 0 <= k < rest.len() && rest[k] == stage;
        assert(block[place + 1] == stage);
    }
    assert forall|i: int| 1 <= i < block.len() implies #[trigger] block[i] == rest[i - 1] by {}
    if rest.len() > 0 {
        assert(block.last() == rest.last());
    }
}

/// A mono frame that is not refused goes through all its stages and no others, each once: models,
/// spectrum, grouping, bandwidth extension, the two shapings, and the transform.
pub proof fn mono_frames_go_through_their_stages(
    nn_type: NeuralNetworkType,
    side: GaMonoFrameSideInfo,
)
    ensures
        ({
            let plan = mono_stages(nn_type, side);
            let lines = match side.bwe_config {
                Some(config) => config.target_tiles@[0]->0 as usize,
                None => 1024,
            };
            let extension = if side.bwe_config is Some {
                seq![SynthesisStage::BandwidthExtension { channel: 0 }]
            } else {
                Seq::empty()
            };
            !refused(plan) ==> {
                &&& side.bwe_config is Some <==> side.channel.bwe is Some
                &&& plan == seq![
                    SynthesisStage::ContextModels { channel: 0 },
                    spectrum_stage(nn_type, side.channel, 0, lines),
                    SynthesisStage::InverseGrouping { channel: 0 },
                ] + extension + seq![
                    SynthesisStage::InverseTns { channel: 0 },
                    SynthesisStage::InverseShaping { channel: 0 },
                    SynthesisStage::Transform { channel: 0 },
                ]
            }
        }),
{
    let first = grouped_spectrum_stages(nn_type, side.channel, 0, side.bwe_config);
    let second = extension_stages(
        0,
        side.bwe_config is Some,
        side.channel.bwe is Some,
        mono_disagreement(),
    );
    let third = seq![SynthesisStage::InverseTns { channel: 0 }];
    let fourth = seq![
        SynthesisStage::InverseShaping { channel: 0 },
        SynthesisStage::Transform { channel: 0 },
    ];
    let plan = mono_stages(nn_type, side);
    if !refused(plan) {
        lemma_parts_inside(in_order(in_order(first, second), third), fourth);
        lemma_parts_inside(in_order(first, second), third);
        lemma_parts_inside(first, second);
        lemma_grouped_block(nn_type, side.channel, 0, side.bwe_config, 1);
        assert(plan =~= first + second + third + fourth);
        assert(third + fourth =~= seq![
            SynthesisStage::InverseTns { channel: 0 },
            SynthesisStage::InverseShaping { channel: 0 },
            SynthesisStage::Transform { channel: 0 },
        ]);
    }
}

} // verus!
