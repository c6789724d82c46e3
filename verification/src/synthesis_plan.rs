//! The order in which the stages of a general full-rate frame are run.
//!
//! The stages themselves work on sampled spectra. What is decided here is which of them a frame
//! needs, in which order and with which side information, and when a frame is refused.

use crate::bwe::BweConfig;
use crate::config::NeuralNetworkType;
use crate::error::CodecError;
use crate::ga_frame::GaChannelSideInfo;
use crate::group::MDCT_LINES;
use crate::qc::QcSideInfo;
use vstd::prelude::*;

verus! {

/// One stage of a frame.
#[derive(Clone, Copy, Debug, PartialEq, Eq)]
pub enum SynthesisStage {
    /// Decode the context latents of a channel and select its range models.
    ContextModels { channel: usize },
    /// Decode the spectrum of a channel with the basic network.
    BasicSpectrum { channel: usize, noise_lines: usize, amplified: bool, scale: u8 },
    /// Decode the spectrum of a channel without a network.
    LowComplexitySpectrum { channel: usize, noise_lines: usize, scale: u8 },
    /// Put the short blocks of a channel back in order.
    InverseGrouping { channel: usize },
    /// Turn mid and side into left and right.
    StereoUpmix,
    /// Undo the coupling of channel pairs.
    ChannelCoupling,
    /// Undo the downmix of the ambisonic transport channels.
    HoaDownmix,
    /// Extend the bandwidth of a channel.
    BandwidthExtension { channel: usize },
    /// Undo the temporal noise shaping of a channel.
    InverseTns { channel: usize },
    /// Undo the spectral shaping of a channel.
    InverseShaping { channel: usize },
    /// Keep only the lowest lines of a channel.
    LfeRestriction { channel: usize },
    /// Transform a channel back to samples.
    Transform { channel: usize },
    /// Interleave the samples of all channels.
    Interleave,
    /// Refuse the frame. Nothing comes behind it.
    Refuse(CodecError),
}

/// The frame is refused by the last of these stages.
pub open spec fn refused(stages: Seq<SynthesisStage>) -> bool {
    stages.len() > 0 && stages.last() is Refuse
}

/// `first`, and `second` behind it unless the frame is refused before.
pub open spec fn in_order(first: Seq<SynthesisStage>, second: Seq<SynthesisStage>) -> Seq<
    SynthesisStage,
> {
    if refused(first) {
        first
    } else {
        first + second
    }
}

/// The stages of channels `0` to `count`, one channel behind the other.
pub open spec fn for_channels(stages: spec_fn(int) -> Seq<SynthesisStage>, count: int) -> Seq<
    SynthesisStage,
>
    decreases count,
{
    if count <= 0 {
        Seq::empty()
    } else {
        in_order(for_channels(stages, count - 1), stages(count - 1))
    }
}

/// A frame that one channel refuses is refused, whatever the channels behind it say.
pub proof fn lemma_for_channels_refused(
    stages: spec_fn(int) -> Seq<SynthesisStage>,
    some: int,
    count: int,
)
    requires
        0 <= some <= count,
        refused(for_channels(stages, some)),
    ensures
        for_channels(stages, count) == for_channels(stages, some),
    decreases count,
{
    if some < count {
        lemma_for_channels_refused(stages, some, count - 1);
    }
}

/// Whether a plan is refused depends on the last stages that are appended.
pub proof fn lemma_joined(first: Seq<SynthesisStage>, second: Seq<SynthesisStage>)
    requires
        !refused(first),
    ensures
        refused(first + second) == refused(second),
        in_order(first, second) == first + second,
{
    if second.len() > 0 {
        assert((first + second).last() == second.last());
    } else {
        assert(first + second =~= first);
    }
}

/// There is one refusal at most, and nothing behind it.
pub open spec fn ends_at_refusal(stages: Seq<SynthesisStage>) -> bool {
    forall|i: int| 0 <= i < stages.len() - 1 ==> !(#[trigger] stages[i] is Refuse)
}

/// Plans that end at their refusal do so one behind the other.
pub proof fn lemma_in_order_ends(first: Seq<SynthesisStage>, second: Seq<SynthesisStage>)
    requires
        ends_at_refusal(first),
        ends_at_refusal(second),
    ensures
        ends_at_refusal(in_order(first, second)),
{
    if !refused(first) {
        let joined = first + second;
        assert forall|i: int| 0 <= i < joined.len() - 1 implies !(
        #[trigger] joined[i] is Refuse) by {
            if i < first.len() {
                if i == first.len() - 1 {
                    assert(first.last() == joined[i]);
                } else {
                    assert(first[i] == joined[i]);
                }
            } else {
                assert(second[i - first.len()] == joined[i]);
            }
        }
    }
}

/// The same of all channels.
pub proof fn lemma_for_channels_ends(stages: spec_fn(int) -> Seq<SynthesisStage>, count: int)
    requires
        forall|channel: int| ends_at_refusal(#[trigger] stages(channel)),
    ensures
        ends_at_refusal(for_channels(stages, count)),
    decreases count,
{
    if count > 0 {
        lemma_for_channels_ends(stages, count - 1);
        lemma_in_order_ends(for_channels(stages, count - 1), stages(count - 1));
    }
}

/// Lines below which noise is filled in: up to the first extended line, or all of them.
pub open spec fn noise_lines_of(bwe_config: Option<BweConfig>) -> Result<int, CodecError> {
    match bwe_config {
        None => Ok(MDCT_LINES as int),
        Some(config) => match config.target_tiles@[0] {
            Some(line) => Ok(line as int),
            None => Err(CodecError::InvalidData("BWE configuration is missing its start line")),
        },
    }
}

/// The stages that give the spectrum of one channel, whose noise is filled in below `lines`.
pub open spec fn spectrum_stages(
    nn_type: NeuralNetworkType,
    qc: QcSideInfo,
    channel: int,
    lines: int,
    output_len: int,
) -> Seq<SynthesisStage> {
    let channel = channel as usize;
    let noise_lines = lines as usize;
    let context = SynthesisStage::ContextModels { channel };
    if output_len != MDCT_LINES {
        seq![SynthesisStage::Refuse(
            CodecError::InvalidData("AVS3 channel neural output must contain 1024 MDCT coefficients"),
        )]
    } else if lines > MDCT_LINES {
        seq![SynthesisStage::Refuse(
            CodecError::InvalidData("AVS3 neural noise-fill line count exceeds MDCT geometry"),
        )]
    } else {
        match nn_type {
            NeuralNetworkType::Basic => if qc.is_feat_amplified is None {
                seq![context, SynthesisStage::Refuse(
                    CodecError::InvalidData("basic channel QC is missing isFeatAmplified"),
                )]
            } else if qc.scale_q_idx is None {
                seq![context, SynthesisStage::Refuse(
                    CodecError::InvalidData("basic channel QC is missing scaleQIdx"),
                )]
            } else if qc.scale_q_idx_lc is Some {
                seq![context, SynthesisStage::Refuse(
                    CodecError::InvalidData(
                        "basic channel QC unexpectedly contains low-complexity scale data",
                    ),
                )]
            } else {
                seq![
                    context,
                    SynthesisStage::BasicSpectrum {
                        channel,
                        noise_lines,
                        amplified: qc.is_feat_amplified->0,
                        scale: qc.scale_q_idx->0,
                    },
                ]
            },
            NeuralNetworkType::LowComplexity => if qc.scale_q_idx_lc is None {
                seq![context, SynthesisStage::Refuse(
                    CodecError::InvalidData("low-complexity channel QC is missing scaleQIdxLc"),
                )]
            } else if qc.is_feat_amplified is Some || qc.scale_q_idx is Some {
                seq![context, SynthesisStage::Refuse(
                    CodecError::InvalidData(
                        "low-complexity channel QC unexpectedly contains Basic scale data",
                    ),
                )]
            } else {
                seq![
                    context,
                    SynthesisStage::LowComplexitySpectrum {
                        channel,
                        noise_lines,
                        scale: qc.scale_q_idx_lc->0,
                    },
                ]
            },
            NeuralNetworkType::Reserved(_) => seq![context, SynthesisStage::Refuse(
                CodecError::Unsupported("reserved AVS3 neural-network type in inverse-QC"),
            )],
        }
    }
}

/// As `spectrum_stages`, with the lines that the bandwidth extension leaves.
pub open spec fn extended_spectrum_stages(
    nn_type: NeuralNetworkType,
    qc: QcSideInfo,
    channel: int,
    bwe_config: Option<BweConfig>,
    output_len: int,
) -> Seq<SynthesisStage> {
    match noise_lines_of(bwe_config) {
        Err(error) => seq![SynthesisStage::Refuse(error)],
        Ok(lines) => spectrum_stages(nn_type, qc, channel, lines, output_len),
    }
}

/// The bandwidth extension of a channel, which is refused with `disagreement` if the frame
/// configures one and the channel has none, or the other way round.
pub open spec fn extension_stages(
    channel: int,
    configured: bool,
    present: bool,
    disagreement: CodecError,
) -> Seq<SynthesisStage> {
    if configured != present {
        seq![SynthesisStage::Refuse(disagreement)]
    } else if configured {
        seq![SynthesisStage::BandwidthExtension { channel: channel as usize }]
    } else {
        Seq::empty()
    }
}

/// What follows the bandwidth extension of a channel, up to its samples.
pub open spec fn shaping_stages(channel: int, low_frequency: bool) -> Seq<SynthesisStage> {
    let channel = channel as usize;
    if low_frequency {
        seq![
            SynthesisStage::InverseTns { channel },
            SynthesisStage::InverseShaping { channel },
            SynthesisStage::LfeRestriction { channel },
            SynthesisStage::Transform { channel },
        ]
    } else {
        seq![
            SynthesisStage::InverseTns { channel },
            SynthesisStage::InverseShaping { channel },
            SynthesisStage::Transform { channel },
        ]
    }
}

/// The first line that is not filled with noise, counted over the whole frame.
pub fn noise_fill_line_count(bwe_config: Option<BweConfig>) -> (result: Result<usize, CodecError>)
    ensures
        match noise_lines_of(bwe_config) {
            Ok(lines) => result is Ok && result->Ok_0 == lines,
            Err(error) => result == Err::<usize, CodecError>(error),
        },
{
    match bwe_config {
        Some(config) => match config.target_tiles[0] {
            Some(line) => Ok(line as usize),
            None => Err(CodecError::InvalidData("BWE configuration is missing its start line")),
        },
        None => Ok(MDCT_LINES),
    }
}

/// Append the stages that give the spectrum of one channel. Whether the frame goes on is returned.
pub fn plan_spectrum(
    plan: &mut Vec<SynthesisStage>,
    nn_type: NeuralNetworkType,
    qc: &QcSideInfo,
    channel: usize,
    lines: usize,
    output_len: usize,
) -> (goes_on: bool)
    ensures
        final(plan)@ == old(plan)@ + spectrum_stages(
            nn_type,
            *qc,
            channel as int,
            lines as int,
            output_len as int,
        ),
        goes_on == !refused(
            spectrum_stages(nn_type, *qc, channel as int, lines as int, output_len as int),
        ),
{
    let ghost before = plan@;
    let ghost goal = spectrum_stages(
        nn_type,
        *qc,
        channel as int,
        lines as int,
        output_len as int,
    );
    if output_len != MDCT_LINES {
        plan.push(
            SynthesisStage::Refuse(
                CodecError::InvalidData(
                    "AVS3 channel neural output must contain 1024 MDCT coefficients",
                ),
            ),
        );
        assert(plan@ =~= before + goal);
        return false;
    }
    if lines > MDCT_LINES {
        plan.push(
            SynthesisStage::Refuse(
                CodecError::InvalidData("AVS3 neural noise-fill line count exceeds MDCT geometry"),
            ),
        );
        assert(plan@ =~= before + goal);
        return false;
    }
    plan.push(SynthesisStage::ContextModels { channel });
    let stage: SynthesisStage = match nn_type {
        NeuralNetworkType::Basic => match qc.is_feat_amplified {
            None => SynthesisStage::Refuse(
                CodecError::InvalidData("basic channel QC is missing isFeatAmplified"),
            ),
            Some(amplified) => match qc.scale_q_idx {
                None => SynthesisStage::Refuse(
                    CodecError::InvalidData("basic channel QC is missing scaleQIdx"),
                ),
                Some(scale) => match qc.scale_q_idx_lc {
                    Some(_) => SynthesisStage::Refuse(
                        CodecError::InvalidData(
                            "basic channel QC unexpectedly contains low-complexity scale data",
                        ),
                    ),
                    None => SynthesisStage::BasicSpectrum {
                        channel,
                        noise_lines: lines,
                        amplified,
                        scale,
                    },
                },
            },
        },
        NeuralNetworkType::LowComplexity => match qc.scale_q_idx_lc {
            None => SynthesisStage::Refuse(
                CodecError::InvalidData("low-complexity channel QC is missing scaleQIdxLc"),
            ),
            Some(scale) => if qc.is_feat_amplified.is_some() || qc.scale_q_idx.is_some() {
                SynthesisStage::Refuse(
                    CodecError::InvalidData(
                        "low-complexity channel QC unexpectedly contains Basic scale data",
                    ),
                )
            } else {
                SynthesisStage::LowComplexitySpectrum { channel, noise_lines: lines, scale }
            },
        },
        NeuralNetworkType::Reserved(_) => SynthesisStage::Refuse(
            CodecError::Unsupported("reserved AVS3 neural-network type in inverse-QC"),
        ),
    };
    let goes_on: bool = match stage {
        SynthesisStage::Refuse(_) => false,
        _ => true,
    };
    plan.push(stage);
    assert(plan@ =~= before + goal);
    goes_on
}

/// As `plan_spectrum`, with the lines that the bandwidth extension leaves.
pub fn plan_extended_spectrum(
    plan: &mut Vec<SynthesisStage>,
    nn_type: NeuralNetworkType,
    qc: &QcSideInfo,
    channel: usize,
    bwe_config: Option<BweConfig>,
    output_len: usize,
) -> (goes_on: bool)
    ensures
        final(plan)@ == old(plan)@ + extended_spectrum_stages(
            nn_type,
            *qc,
            channel as int,
            bwe_config,
            output_len as int,
        ),
        goes_on == !refused(
            extended_spectrum_stages(nn_type, *qc, channel as int, bwe_config, output_len as int),
        ),
{
    match noise_fill_line_count(bwe_config) {
        Ok(lines) => plan_spectrum(plan, nn_type, qc, channel, lines, output_len),
        Err(error) => {
            let ghost before = plan@;
            plan.push(SynthesisStage::Refuse(error));
            assert(plan@ =~= before + seq![SynthesisStage::Refuse(error)]);
            false
        },
    }
}

/// Append the bandwidth extension of a channel. Whether the frame goes on is returned.
pub fn plan_extension(
    plan: &mut Vec<SynthesisStage>,
    channel: usize,
    configured: bool,
    present: bool,
    disagreement: CodecError,
) -> (goes_on: bool)
    ensures
        final(plan)@ == old(plan)@ + extension_stages(
            channel as int,
            configured,
            present,
            disagreement,
        ),
        goes_on == (configured == present),
{
    let ghost before = plan@;
    let ghost goal = extension_stages(channel as int, configured, present, disagreement);
    if configured != present {
        plan.push(SynthesisStage::Refuse(disagreement));
    } else if configured {
        plan.push(SynthesisStage::BandwidthExtension { channel });
    }
    assert(plan@ =~= before + goal);
    configured == present
}

/// Append what follows the bandwidth extension of a channel, up to its samples.
pub fn plan_shaping(plan: &mut Vec<SynthesisStage>, channel: usize, low_frequency: bool)
    ensures
        final(plan)@ == old(plan)@ + shaping_stages(channel as int, low_frequency),
{
    let ghost before = plan@;
    plan.push(SynthesisStage::InverseTns { channel });
    plan.push(SynthesisStage::InverseShaping { channel });
    if low_frequency {
        plan.push(SynthesisStage::LfeRestriction { channel });
    }
    plan.push(SynthesisStage::Transform { channel });
    assert(plan@ =~= before + shaping_stages(channel as int, low_frequency));
}

/// The stages of one channel from its extension to its samples.
pub open spec fn channel_samples_stages(
    channel: int,
    configured: bool,
    present: bool,
    low_frequency: bool,
    disagreement: CodecError,
) -> Seq<SynthesisStage> {
    in_order(
        extension_stages(channel, configured, present, disagreement),
        shaping_stages(channel, low_frequency),
    )
}

/// Append the stages of one channel from its extension to its samples.
pub fn plan_channel_samples(
    plan: &mut Vec<SynthesisStage>,
    channel: usize,
    configured: bool,
    present: bool,
    low_frequency: bool,
    disagreement: CodecError,
) -> (goes_on: bool)
    ensures
        final(plan)@ == old(plan)@ + channel_samples_stages(
            channel as int,
            configured,
            present,
            low_frequency,
            disagreement,
        ),
        goes_on == !refused(
            channel_samples_stages(
                channel as int,
                configured,
                present,
                low_frequency,
                disagreement,
            ),
        ),
{
    let ghost before = plan@;
    let goes_on: bool = plan_extension(plan, channel, configured, present, disagreement);
    let ghost middle = plan@;
    if goes_on {
        plan_shaping(plan, channel, low_frequency);
    }
    proof {
        let extension = extension_stages(channel as int, configured, present, disagreement);
        let shaping = shaping_stages(channel as int, low_frequency);
        assert(refused(extension) == !goes_on);
        assert((before + extension) + shaping =~= before + (extension + shaping));
        if goes_on {
            assert((extension + shaping).last() == shaping.last());
        }
    }
    goes_on
}

/// The spectrum of one channel, with its short blocks in order.
pub open spec fn grouped_spectrum_stages(
    nn_type: NeuralNetworkType,
    side: GaChannelSideInfo,
    channel: int,
    bwe_config: Option<BweConfig>,
) -> Seq<SynthesisStage> {
    in_order(
        extended_spectrum_stages(nn_type, side.qc, channel, bwe_config, MDCT_LINES as int),
        seq![SynthesisStage::InverseGrouping { channel: channel as usize }],
    )
}

/// Append the stages that give the spectrum of one channel, with its short blocks in order.
pub fn plan_grouped_spectrum(
    plan: &mut Vec<SynthesisStage>,
    nn_type: NeuralNetworkType,
    side: &GaChannelSideInfo,
    channel: usize,
    bwe_config: Option<BweConfig>,
) -> (goes_on: bool)
    ensures
        final(plan)@ == old(plan)@ + grouped_spectrum_stages(
            nn_type,
            *side,
            channel as int,
            bwe_config,
        ),
        goes_on == !refused(
            grouped_spectrum_stages(nn_type, *side, channel as int, bwe_config),
        ),
{
    let ghost before = plan@;
    let goes_on: bool = plan_extended_spectrum(
        plan,
        nn_type,
        &side.qc,
        channel,
        bwe_config,
        MDCT_LINES,
    );
    if goes_on {
        plan.push(SynthesisStage::InverseGrouping { channel });
    }
    proof {
        let spectrum = extended_spectrum_stages(
            nn_type,
            side.qc,
            channel as int,
            bwe_config,
            MDCT_LINES as int,
        );
        let group = seq![SynthesisStage::InverseGrouping { channel }];
        assert((before + spectrum).push(SynthesisStage::InverseGrouping { channel }) =~= before + (
        spectrum + group));
        assert((spectrum + group).last() == SynthesisStage::InverseGrouping { channel });
    }
    goes_on
}

} // verus!
