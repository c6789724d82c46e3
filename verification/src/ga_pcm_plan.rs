//! From a general full-rate payload to the stages that turn it into samples, for each format.

use crate::bitreader::bit_capacity;
use crate::bwe::BweConfig;
use crate::config::NeuralNetworkType;
use crate::core_side::TnsCodebook;
use crate::error::CodecError;
use crate::ga_frame::{GaChannelSideInfo, GaMultichannelFrameSideInfo};
use crate::ga_mono::{mono_syntax_at, parse_mono_frame_side_info, GaMonoFrameSideInfo};
use crate::ga_stereo::{
    parse_stereo_frame_side_info, stereo_syntax_at, GaStereoFrameSideInfo,
};
use crate::group::MDCT_LINES;
use crate::synthesis_plan::{
    channel_samples_stages, ends_at_refusal, extension_stages, for_channels,
    grouped_spectrum_stages, in_order, lemma_for_channels_ends, lemma_for_channels_refused,
    lemma_in_order_ends, lemma_joined, plan_channel_samples, plan_extension, plan_grouped_spectrum,
    refused, SynthesisStage,
};
use vstd::prelude::*;

verus! {

/// Samples of an interleaved stereo frame.
pub const STEREO_PCM_SAMPLES: usize = 2048;

/// The two sides of a mono frame disagree about its bandwidth extension.
pub open spec fn mono_disagreement() -> CodecError {
    CodecError::InvalidData("mono BWE configuration and decoded side information disagree")
}

/// The stages of a mono frame up to its spectral shaping.
pub open spec fn mono_pre_fd_stages(nn_type: NeuralNetworkType, side: GaMonoFrameSideInfo) -> Seq<
    SynthesisStage,
> {
    in_order(
        in_order(
            grouped_spectrum_stages(nn_type, side.channel, 0, side.bwe_config),
            extension_stages(
                0,
                side.bwe_config is Some,
                side.channel.bwe is Some,
                mono_disagreement(),
            ),
        ),
        seq![SynthesisStage::InverseTns { channel: 0 }],
    )
}

/// The stages of a mono frame up to its samples.
pub open spec fn mono_stages(nn_type: NeuralNetworkType, side: GaMonoFrameSideInfo) -> Seq<
    SynthesisStage,
> {
    in_order(
        mono_pre_fd_stages(nn_type, side),
        seq![
            SynthesisStage::InverseShaping { channel: 0 },
            SynthesisStage::Transform { channel: 0 },
        ],
    )
}

/// Append the stages of a mono frame up to its spectral shaping.
fn plan_mono_front(
    plan: &mut Vec<SynthesisStage>,
    nn_type: NeuralNetworkType,
    side: &GaMonoFrameSideInfo,
) -> (goes_on: bool)
    requires
        old(plan)@.len() == 0,
    ensures
        final(plan)@ == mono_pre_fd_stages(nn_type, *side),
        goes_on == !refused(mono_pre_fd_stages(nn_type, *side)),
{
    let ghost first = grouped_spectrum_stages(nn_type, side.channel, 0, side.bwe_config);
    let ghost second = extension_stages(
        0,
        side.bwe_config is Some,
        side.channel.bwe is Some,
        mono_disagreement(),
    );
    assert(plan@ + first =~= first);
    if !plan_grouped_spectrum(plan, nn_type, &side.channel, 0, side.bwe_config) {
        return false;
    }
    proof {
        assert(refused(first + second) == refused(second)) by {
            if second.len() > 0 {
                assert((first + second).last() == second.last());
            } else {
                assert(first + second =~= first);
            }
        }
    }
    if !plan_extension(
        plan,
        0,
        side.bwe_config.is_some(),
        side.channel.bwe.is_some(),
        CodecError::InvalidData("mono BWE configuration and decoded side information disagree"),
    ) {
        return false;
    }
    plan.push(SynthesisStage::InverseTns { channel: 0 });
    proof {
        let tail = seq![SynthesisStage::InverseTns { channel: 0 }];
        assert(plan@ =~= (first + second) + tail);
        assert(plan@.last() == SynthesisStage::InverseTns { channel: 0 });
    }
    true
}

/// Parse a mono payload and plan it up to its spectral shaping.
pub fn plan_basic_mono_pre_fd(
    payload: &[u8],
    core_bit_offset: usize,
    low_bitrate_precision: bool,
    bwe_config: Option<BweConfig>,
    codebook: &TnsCodebook,
    output_len: usize,
) -> (result: Result<(GaMonoFrameSideInfo, Vec<SynthesisStage>), CodecError>)
    ensures
        if output_len != MDCT_LINES {
            result is Err && result->Err_0 == CodecError::InvalidData(
                "basic mono pre-FD output must contain 1024 MDCT coefficients",
            )
        } else {
            match mono_syntax_at(
                *codebook,
                payload@,
                bit_capacity(payload@),
                core_bit_offset as int,
                NeuralNetworkType::Basic,
                low_bitrate_precision,
                bwe_config,
            ) {
                Err(error) => result is Err && result->Err_0 == error,
                Ok(syntax) => {
                    &&& result is Ok
                    &&& (result->Ok_0).0.channel.matches(syntax.head, syntax.group, syntax.qc)
                    &&& (result->Ok_0).0.bwe_config == bwe_config
                    &&& (result->Ok_0).0.next_bit_offset == syntax.qc.end
                    &&& (result->Ok_0).0.trailing_bits == syntax.trailing_bits
                    &&& (result->Ok_0).1@ == mono_pre_fd_stages(
                        NeuralNetworkType::Basic,
                        (result->Ok_0).0,
                    )
                },
            }
        },
{
    if output_len != MDCT_LINES {
        return Err(
            CodecError::InvalidData("basic mono pre-FD output must contain 1024 MDCT coefficients"),
        );
    }
    let side = parse_mono_frame_side_info(
        payload,
        core_bit_offset,
        NeuralNetworkType::Basic,
        low_bitrate_precision,
        bwe_config,
        codebook,
    )?;
    let mut plan: Vec<SynthesisStage> = Vec::new();
    let _goes_on: bool = plan_mono_front(&mut plan, NeuralNetworkType::Basic, &side);
    Ok((side, plan))
}

/// Parse a mono payload and plan it up to its samples.
pub fn plan_mono_pcm(
    nn_type: NeuralNetworkType,
    payload: &[u8],
    core_bit_offset: usize,
    low_bitrate_precision: bool,
    bwe_config: Option<BweConfig>,
    codebook: &TnsCodebook,
    pcm_len: usize,
) -> (result: Result<(GaMonoFrameSideInfo, Vec<SynthesisStage>), CodecError>)
    ensures
        if pcm_len != MDCT_LINES {
            result is Err && result->Err_0 == CodecError::InvalidData(
                "basic mono synthesis output must contain 1024 PCM samples",
            )
        } else {
            match mono_syntax_at(
                *codebook,
                payload@,
                bit_capacity(payload@),
                core_bit_offset as int,
                nn_type,
                low_bitrate_precision,
                bwe_config,
            ) {
                Err(error) => result is Err && result->Err_0 == error,
                Ok(syntax) => {
                    &&& result is Ok
                    &&& (result->Ok_0).0.channel.matches(syntax.head, syntax.group, syntax.qc)
                    &&& (result->Ok_0).0.bwe_config == bwe_config
                    &&& (result->Ok_0).0.next_bit_offset == syntax.qc.end
                    &&& (result->Ok_0).0.trailing_bits == syntax.trailing_bits
                    &&& (result->Ok_0).1@ == mono_stages(nn_type, (result->Ok_0).0)
                },
            }
        },
{
    if pcm_len != MDCT_LINES {
        return Err(
            CodecError::InvalidData("basic mono synthesis output must contain 1024 PCM samples"),
        );
    }
    let side = parse_mono_frame_side_info(
        payload,
        core_bit_offset,
        nn_type,
        low_bitrate_precision,
        bwe_config,
        codebook,
    )?;
    let mut plan: Vec<SynthesisStage> = Vec::new();
    if plan_mono_front(&mut plan, nn_type, &side) {
        let ghost front = plan@;
        plan.push(SynthesisStage::InverseShaping { channel: 0 });
        plan.push(SynthesisStage::Transform { channel: 0 });
        assert(plan@ =~= front + seq![
            SynthesisStage::InverseShaping { channel: 0 },
            SynthesisStage::Transform { channel: 0 },
        ]);
    }
    Ok((side, plan))
}

/// The two sides of a stereo frame disagree about its bandwidth extension.
pub open spec fn stereo_disagreement() -> CodecError {
    CodecError::InvalidData("stereo BWE configuration and decoded side information disagree")
}

/// The two sides of a multichannel frame disagree about its bandwidth extension.
pub open spec fn multichannel_disagreement() -> CodecError {
    CodecError::InvalidData("multichannel BWE configuration and decoded side information disagree")
}

/// The spectra of the channels of a frame, one behind the other.
pub open spec fn spectra(
    nn_type: NeuralNetworkType,
    channels: Seq<GaChannelSideInfo>,
    bwe_config: Option<BweConfig>,
) -> spec_fn(int) -> Seq<SynthesisStage> {
    |channel: int| grouped_spectrum_stages(nn_type, channels[channel], channel, bwe_config)
}

/// The samples of the channels of a frame, one behind the other.
pub open spec fn samples(
    channels: Seq<GaChannelSideInfo>,
    bwe_config: Option<BweConfig>,
    lfe_index: Option<usize>,
    disagreement: CodecError,
) -> spec_fn(int) -> Seq<SynthesisStage> {
    |channel: int|
        channel_samples_stages(
            channel,
            bwe_config is Some,
            channels[channel].bwe is Some,
            lfe_index is Some && lfe_index->0 == channel,
            disagreement,
        )
}

/// All spectra, then `coupling`, then all samples, then the interleaved frame.
pub open spec fn coupled_stages(
    nn_type: NeuralNetworkType,
    channels: Seq<GaChannelSideInfo>,
    bwe_config: Option<BweConfig>,
    lfe_index: Option<usize>,
    coupling: SynthesisStage,
    disagreement: CodecError,
) -> Seq<SynthesisStage> {
    let count = channels.len() as int;
    in_order(
        in_order(
            in_order(
                for_channels(spectra(nn_type, channels, bwe_config), count),
                seq![coupling],
            ),
            for_channels(samples(channels, bwe_config, lfe_index, disagreement), count),
        ),
        seq![SynthesisStage::Interleave],
    )
}

/// Plan a frame whose channels are coupled by one stage between their spectra and their samples.
fn plan_coupled(
    nn_type: NeuralNetworkType,
    channels: &[GaChannelSideInfo],
    bwe_config: Option<BweConfig>,
    lfe_index: Option<usize>,
    coupling: SynthesisStage,
    disagreement: CodecError,
) -> (plan: Vec<SynthesisStage>)
    requires
        !(coupling is Refuse),
    ensures
        plan@ == coupled_stages(
            nn_type,
            channels@,
            bwe_config,
            lfe_index,
            coupling,
            disagreement,
        ),
{
    let ghost count = channels@.len() as int;
    let ghost front = spectra(nn_type, channels@, bwe_config);
    let ghost back = samples(channels@, bwe_config, lfe_index, disagreement);
    let mut plan: Vec<SynthesisStage> = Vec::new();
    let mut channel: usize = 0;
    while channel < channels.len()
        invariant
            channel <= channels@.len(),
            count == channels@.len(),
            front == spectra(nn_type, channels@, bwe_config),
            plan@ == for_channels(front, channel as int),
            !refused(plan@),
            !(coupling is Refuse),
        decreases channels.len() - channel,
    {
        let ghost before = plan@;
        let ghost stages = grouped_spectrum_stages(
            nn_type,
            channels@[channel as int],
            channel as int,
            bwe_config,
        );
        let goes_on: bool = plan_grouped_spectrum(
            &mut plan,
            nn_type,
            &channels[channel],
            channel,
            bwe_config,
        );
        proof {
            assert(front(channel as int) == stages);
            lemma_joined(before, stages);
        }
        if !goes_on {
            proof {
                lemma_for_channels_refused(front, channel as int + 1, count);
            }
            return plan;
        }
        channel = channel + 1;
    }
    let ghost spectral = plan@;
    plan.push(coupling);
    assert(plan@ =~= spectral + seq![coupling]);
    let ghost coupled = plan@;
    assert(plan@ =~= coupled + for_channels(back, 0));
    channel = 0;
    while channel < channels.len()
        invariant
            channel <= channels@.len(),
            count == channels@.len(),
            front == spectra(nn_type, channels@, bwe_config),
            back == samples(channels@, bwe_config, lfe_index, disagreement),
            spectral == for_channels(front, count),
            !refused(spectral),
            !(coupling is Refuse),
            coupled == spectral + seq![coupling],
            plan@ == coupled + for_channels(back, channel as int),
            !refused(for_channels(back, channel as int)),
        decreases channels.len() - channel,
    {
        let ghost before = for_channels(back, channel as int);
        let low_frequency: bool = match lfe_index {
            Some(index) => index == channel,
            None => false,
        };
        let ghost stages = channel_samples_stages(
            channel as int,
            bwe_config is Some,
            channels@[channel as int].bwe is Some,
            low_frequency,
            disagreement,
        );
        let goes_on: bool = plan_channel_samples(
            &mut plan,
            channel,
            bwe_config.is_some(),
            channels[channel].bwe.is_some(),
            low_frequency,
            disagreement,
        );
        proof {
            assert(back(channel as int) == stages);
            lemma_joined(before, stages);
            assert((coupled + before) + stages =~= coupled + (before + stages));
        }
        if !goes_on {
            proof {
                lemma_for_channels_refused(back, channel as int + 1, count);
                lemma_joined(coupled, for_channels(back, count));
            }
            return plan;
        }
        channel = channel + 1;
    }
    let ghost sampled = plan@;
    plan.push(SynthesisStage::Interleave);
    proof {
        assert(plan@ =~= sampled + seq![SynthesisStage::Interleave]);
        lemma_joined(coupled, for_channels(back, count));
    }
    plan
}

/// Parse a conventional stereo payload and plan it up to its interleaved samples.
pub fn plan_basic_stereo_pcm(
    payload: &[u8],
    core_bit_offset: usize,
    low_bitrate_precision: bool,
    bwe_config: Option<BweConfig>,
    total_bitrate_kbps: u32,
    codebook: &TnsCodebook,
    pcm_len: usize,
) -> (result: Result<(GaStereoFrameSideInfo, Vec<SynthesisStage>), CodecError>)
    ensures
        if pcm_len != STEREO_PCM_SAMPLES {
            result is Err && result->Err_0 == CodecError::InvalidData(
                "basic stereo synthesis output must contain 2048 interleaved PCM samples",
            )
        } else if total_bitrate_kbps <= 32 {
            result is Err && result->Err_0 == CodecError::Unsupported(
                "low-bitrate AVS3 stereo uses the dedicated MCR frame parser",
            )
        } else {
            match stereo_syntax_at(
                *codebook,
                payload@,
                bit_capacity(payload@),
                core_bit_offset as int,
                NeuralNetworkType::Basic,
                low_bitrate_precision,
                bwe_config,
                total_bitrate_kbps as int,
            ) {
                Err(error) => result is Err && result->Err_0 == error,
                Ok(syntax) => {
                    &&& result is Ok
                    &&& (result->Ok_0).0.channels[0].matches(
                        syntax.heads.0,
                        syntax.groups.0,
                        syntax.tail.qcs.0,
                    )
                    &&& (result->Ok_0).0.channels[1].matches(
                        syntax.heads.1,
                        syntax.groups.1,
                        syntax.tail.qcs.1,
                    )
                    &&& (result->Ok_0).0.bwe_config == bwe_config
                    &&& (result->Ok_0).0.stereo.matches(syntax.coupling)
                    &&& (result->Ok_0).0.channel_bytes[0] == syntax.tail.bytes.0
                    &&& (result->Ok_0).0.channel_bytes[1] == syntax.tail.bytes.1
                    &&& (result->Ok_0).0.next_bit_offset == syntax.tail.qcs.1.end
                    &&& (result->Ok_0).0.trailing_bits == syntax.tail.trailing_bits
                    &&& (result->Ok_0).1@ == coupled_stages(
                        NeuralNetworkType::Basic,
                        (result->Ok_0).0.channels@,
                        bwe_config,
                        None,
                        SynthesisStage::StereoUpmix,
                        stereo_disagreement(),
                    )
                },
            }
        },
{
    if pcm_len != STEREO_PCM_SAMPLES {
        return Err(
            CodecError::InvalidData(
                "basic stereo synthesis output must contain 2048 interleaved PCM samples",
            ),
        );
    }
    let side = parse_stereo_frame_side_info(
        payload,
        core_bit_offset,
        NeuralNetworkType::Basic,
        low_bitrate_precision,
        bwe_config,
        total_bitrate_kbps,
        codebook,
    )?;
    let plan = plan_coupled(
        NeuralNetworkType::Basic,
        side.channels.as_slice(),
        side.bwe_config,
        None,
        SynthesisStage::StereoUpmix,
        CodecError::InvalidData("stereo BWE configuration and decoded side information disagree"),
    );
    Ok((side, plan))
}

/// What is wrong with the channels of a multichannel frame or with the room for its samples.
pub open spec fn multichannel_geometry_error(
    channel_count: int,
    lfe_index: Option<usize>,
    pcm_len: int,
) -> Option<CodecError> {
    if channel_count < 3 {
        Some(
            CodecError::InvalidData("basic multichannel synthesis requires at least three channels"),
        )
    } else if lfe_index is Some && lfe_index->0 >= channel_count {
        Some(CodecError::InvalidData("multichannel synthesis LFE index exceeds channel count"))
    } else if pcm_len != channel_count * MDCT_LINES {
        Some(
            CodecError::InvalidData(
                "basic multichannel synthesis output has invalid interleaved PCM geometry",
            ),
        )
    } else {
        None
    }
}

/// Check the channels of a multichannel frame, and the room for its samples, before it is parsed.
pub fn check_multichannel_geometry(
    channel_count: u16,
    lfe_index: Option<usize>,
    pcm_len: usize,
) -> (result: Result<(), CodecError>)
    ensures
        result == match multichannel_geometry_error(
            channel_count as int,
            lfe_index,
            pcm_len as int,
        ) {
            Some(error) => Err::<(), CodecError>(error),
            None => Ok(()),
        },
{
    if channel_count < 3 {
        return Err(
            CodecError::InvalidData("basic multichannel synthesis requires at least three channels"),
        );
    }
    if let Some(index) = lfe_index {
        if index >= channel_count as usize {
            return Err(
                CodecError::InvalidData("multichannel synthesis LFE index exceeds channel count"),
            );
        }
    }
    let expected: usize = channel_count as usize * MDCT_LINES;
    if pcm_len != expected {
        return Err(
            CodecError::InvalidData(
                "basic multichannel synthesis output has invalid interleaved PCM geometry",
            ),
        );
    }
    Ok(())
}

/// Plan a multichannel frame up to its interleaved samples.
pub fn plan_basic_multichannel_pcm(
    side: &GaMultichannelFrameSideInfo,
    channel_count: u16,
    lfe_index: Option<usize>,
) -> (result: Result<Vec<SynthesisStage>, CodecError>)
    ensures
        if side.channels@.len() != channel_count || side.allocation.lfe_index != lfe_index {
            result is Err && result->Err_0 == CodecError::Internal(
                "multichannel parser returned inconsistent channel geometry",
            )
        } else {
            result is Ok && result->Ok_0@ == coupled_stages(
                NeuralNetworkType::Basic,
                side.channels@,
                side.bwe_config,
                lfe_index,
                SynthesisStage::ChannelCoupling,
                multichannel_disagreement(),
            )
        },
{
    let same_lfe: bool = match (side.allocation.lfe_index, lfe_index) {
        (Some(left), Some(right)) => left == right,
        (None, None) => true,
        _ => false,
    };
    if side.channels.len() != channel_count as usize || !same_lfe {
        return Err(
            CodecError::Internal("multichannel parser returned inconsistent channel geometry"),
        );
    }
    Ok(
        plan_coupled(
            NeuralNetworkType::Basic,
            side.channels.as_slice(),
            side.bwe_config,
            lfe_index,
            SynthesisStage::ChannelCoupling,
            CodecError::InvalidData(
                "multichannel BWE configuration and decoded side information disagree",
            ),
        ),
    )
}

/// A spectrum that is refused is refused by its last stage.
proof fn lemma_grouped_ends(
    nn_type: NeuralNetworkType,
    side: GaChannelSideInfo,
    channel: int,
    bwe_config: Option<BweConfig>,
)
    ensures
        ends_at_refusal(grouped_spectrum_stages(nn_type, side, channel, bwe_config)),
{
    lemma_in_order_ends(
        crate::synthesis_plan::extended_spectrum_stages(
            nn_type,
            side.qc,
            channel,
            bwe_config,
            MDCT_LINES as int,
        ),
        seq![SynthesisStage::InverseGrouping { channel: channel as usize }],
    );
}

/// Samples that are refused are refused by the last stage.
proof fn lemma_samples_end(
    channel: int,
    configured: bool,
    present: bool,
    low_frequency: bool,
    disagreement: CodecError,
)
    ensures
        ends_at_refusal(
            channel_samples_stages(channel, configured, present, low_frequency, disagreement),
        ),
{
    lemma_in_order_ends(
        extension_stages(channel, configured, present, disagreement),
        crate::synthesis_plan::shaping_stages(channel, low_frequency),
    );
}

/// Nothing is done behind the refusal of a mono frame.
pub proof fn mono_plan_ends_at_its_refusal(nn_type: NeuralNetworkType, side: GaMonoFrameSideInfo)
    ensures
        ends_at_refusal(mono_stages(nn_type, side)),
{
    let first = grouped_spectrum_stages(nn_type, side.channel, 0, side.bwe_config);
    let second = extension_stages(
        0,
        side.bwe_config is Some,
        side.channel.bwe is Some,
        mono_disagreement(),
    );
    lemma_grouped_ends(nn_type, side.channel, 0, side.bwe_config);
    lemma_in_order_ends(first, second);
    lemma_in_order_ends(in_order(first, second), seq![SynthesisStage::InverseTns { channel: 0 }]);
    lemma_in_order_ends(
        mono_pre_fd_stages(nn_type, side),
        seq![
            SynthesisStage::InverseShaping { channel: 0 },
            SynthesisStage::Transform { channel: 0 },
        ],
    );
}

/// Nothing is done behind the refusal of a stereo or multichannel frame.
pub proof fn coupled_plan_ends_at_its_refusal(
    nn_type: NeuralNetworkType,
    channels: Seq<GaChannelSideInfo>,
    bwe_config: Option<BweConfig>,
    lfe_index: Option<usize>,
    coupling: SynthesisStage,
    disagreement: CodecError,
)
    ensures
        ends_at_refusal(
            coupled_stages(nn_type, channels, bwe_config, lfe_index, coupling, disagreement),
        ),
{
    let count = channels.len() as int;
    let front = spectra(nn_type, channels, bwe_config);
    let back = samples(channels, bwe_config, lfe_index, disagreement);
    assert forall|channel: int| ends_at_refusal(#[trigger] front(channel)) by {
        lemma_grouped_ends(nn_type, channels[channel], channel, bwe_config);
    }
    assert forall|channel: int| ends_at_refusal(#[trigger] back(channel)) by {
        lemma_samples_end(
            channel,
            bwe_config is Some,
            channels[channel].bwe is Some,
            lfe_index is Some && lfe_index->0 == channel,
            disagreement,
        );
    }
    lemma_for_channels_ends(front, count);
    lemma_for_channels_ends(back, count);
    let first = for_channels(front, count);
    lemma_in_order_ends(first, seq![coupling]);
    lemma_in_order_ends(in_order(first, seq![coupling]), for_channels(back, count));
    lemma_in_order_ends(
        in_order(in_order(first, seq![coupling]), for_channels(back, count)),
        seq![SynthesisStage::Interleave],
    );
}

} // verus!
