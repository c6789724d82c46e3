//! The order in which the engine runs the stages of a frame.
//!
//! The noise stream of a decoder moves on only when a frame is committed, which is its last stage.
//! The overlap of a channel moves on with the transform of that channel: one that fails in the
//! second channel leaves the overlap of the first one changed.

use crate::engine::header::NnType;
use crate::qc::QcSideInfo;
use vstd::prelude::*;

verus! {

/// One stage of a frame, or its refusal with an error.
#[derive(Debug, Clone, Copy, PartialEq, Eq)]
pub enum CoreStage<E> {
    /// Decode the spectrum of a channel with the main network.
    DecodeMain { channel: usize },
    /// Decode the spectrum of a channel without a network.
    DecodeLowComplexity { channel: usize },
    /// Put the short blocks of a channel back in order.
    Degroup { channel: usize },
    /// Turn mid and side into left and right, with a level difference.
    InverseMidSide { ild: u8 },
    /// Rotate both channels out of the one that is coded.
    Rotate,
    /// Extend the bandwidth of a channel.
    BandwidthExtension { channel: usize },
    /// Undo the temporal noise shaping of a channel.
    Tns { channel: usize },
    /// Undo the spectral shaping of a channel.
    FdShaping { channel: usize },
    /// Transform a channel back to samples.
    MdctSynthesis { channel: usize },
    /// Interleave the samples of both channels.
    Interleave,
    /// Keep the noise stream that the frame has left.
    Commit,
    /// Refuse the frame. Nothing comes behind it.
    Refuse(E),
}

/// The frame is refused by the last of these stages.
pub open spec fn core_refused<E>(stages: Seq<CoreStage<E>>) -> bool {
    stages.len() > 0 && stages.last() is Refuse
}

/// `first`, and `second` behind it unless the frame is refused before.
pub open spec fn core_in_order<E>(first: Seq<CoreStage<E>>, second: Seq<CoreStage<E>>) -> Seq<
    CoreStage<E>,
> {
    if core_refused(first) {
        first
    } else {
        first + second
    }
}

/// Whether a plan is refused depends on the last stages that are appended.
pub proof fn lemma_core_joined<E>(first: Seq<CoreStage<E>>, second: Seq<CoreStage<E>>)
    requires
        !core_refused(first),
    ensures
        core_refused(first + second) == core_refused(second),
        core_in_order(first, second) == first + second,
{
    if second.len() > 0 {
        assert((first + second).last() == second.last());
    } else {
        assert(first + second =~= first);
    }
}

/// No stage but the last refuses the frame or commits it.
pub open spec fn settles_last<E>(stages: Seq<CoreStage<E>>) -> bool {
    forall|i: int|
        0 <= i < stages.len() - 1 ==> !(#[trigger] stages[i] is Refuse) && !(stages[i] is Commit)
}

/// No stage commits the frame.
pub open spec fn never_commits<E>(stages: Seq<CoreStage<E>>) -> bool {
    forall|i: int| 0 <= i < stages.len() ==> !(#[trigger] stages[i] is Commit)
}

/// Plans that settle last do so one behind the other, if the first does not commit.
pub proof fn lemma_settles<E>(first: Seq<CoreStage<E>>, second: Seq<CoreStage<E>>)
    requires
        settles_last(first),
        never_commits(first),
        settles_last(second),
    ensures
        settles_last(core_in_order(first, second)),
        never_commits(second) ==> never_commits(core_in_order(first, second)),
{
    if !core_refused(first) {
        let joined = first + second;
        assert forall|i: int| 0 <= i < joined.len() - 1 implies !(#[trigger] joined[i] is Refuse)
            && !(joined[i] is Commit) by {
            if i < first.len() {
                assert(first[i] == joined[i]);
                if i == first.len() - 1 {
                    assert(first.last() == joined[i]);
                }
            } else {
                assert(second[i - first.len()] == joined[i]);
            }
        }
    }
}

/// The network that the coded fields of a channel are for, if they are for one.
pub open spec fn profile_of(qc: QcSideInfo) -> Option<NnType> {
    if qc.is_feat_amplified is Some && qc.scale_q_idx is Some && qc.scale_q_idx_lc is None {
        Some(NnType::Main)
    } else if qc.is_feat_amplified is None && qc.scale_q_idx is None && qc.scale_q_idx_lc is Some {
        Some(NnType::LowComplexity)
    } else {
        None
    }
}

/// The network that the coded fields of a channel are for, if they are for one.
pub fn neural_profile(qc: &QcSideInfo) -> (profile: Option<NnType>)
    ensures
        profile == profile_of(*qc),
{
    let main: bool = qc.is_feat_amplified.is_some() && qc.scale_q_idx.is_some();
    let low: bool = qc.scale_q_idx_lc.is_some();
    if main && !low {
        Some(NnType::Main)
    } else if qc.is_feat_amplified.is_none() && qc.scale_q_idx.is_none() && low {
        Some(NnType::LowComplexity)
    } else {
        None
    }
}

/// The spectrum of a channel, which is refused with `mismatch` if it is coded for another network
/// than the frame, and the order of its short blocks.
pub open spec fn spectrum_stages<E>(
    nn_type: NnType,
    qc: QcSideInfo,
    channel: usize,
    mismatch: E,
) -> Seq<CoreStage<E>> {
    if profile_of(qc) != Some(nn_type) {
        seq![CoreStage::Refuse(mismatch)]
    } else {
        match nn_type {
            NnType::Main => seq![
                CoreStage::DecodeMain { channel },
                CoreStage::Degroup { channel },
            ],
            NnType::LowComplexity => seq![
                CoreStage::DecodeLowComplexity { channel },
                CoreStage::Degroup { channel },
            ],
        }
    }
}

/// Append the spectrum of a channel. Whether the frame goes on is returned.
pub fn plan_spectrum<E>(
    plan: &mut Vec<CoreStage<E>>,
    nn_type: NnType,
    qc: &QcSideInfo,
    channel: usize,
    mismatch: E,
) -> (goes_on: bool)
    ensures
        final(plan)@ == old(plan)@ + spectrum_stages(nn_type, *qc, channel, mismatch),
        goes_on == !core_refused(spectrum_stages(nn_type, *qc, channel, mismatch)),
{
    let ghost before = plan@;
    let ghost goal = spectrum_stages(nn_type, *qc, channel, mismatch);
    let fits: bool = match neural_profile(qc) {
        Some(profile) => profile == nn_type,
        None => false,
    };
    if !fits {
        plan.push(CoreStage::Refuse(mismatch));
    } else {
        match nn_type {
            NnType::Main => plan.push(CoreStage::DecodeMain { channel }),
            NnType::LowComplexity => plan.push(CoreStage::DecodeLowComplexity { channel }),
        }
        plan.push(CoreStage::Degroup { channel });
    }
    assert(plan@ =~= before + goal);
    fits
}

/// The bandwidth extension of a channel, which is refused with `disagreement` if the frame
/// configures one and the channel has none, or the other way round, and what follows it.
pub open spec fn shaped_stages<E>(
    channel: usize,
    configured: bool,
    present: bool,
    disagreement: E,
) -> Seq<CoreStage<E>> {
    if configured != present {
        seq![CoreStage::Refuse(disagreement)]
    } else if configured {
        seq![
            CoreStage::BandwidthExtension { channel },
            CoreStage::Tns { channel },
            CoreStage::FdShaping { channel },
        ]
    } else {
        seq![CoreStage::Tns { channel }, CoreStage::FdShaping { channel }]
    }
}

/// Append the bandwidth extension of a channel and what follows it. Whether the frame goes on is
/// returned.
pub fn plan_shaped<E>(
    plan: &mut Vec<CoreStage<E>>,
    channel: usize,
    configured: bool,
    present: bool,
    disagreement: E,
) -> (goes_on: bool)
    ensures
        final(plan)@ == old(plan)@ + shaped_stages(channel, configured, present, disagreement),
        goes_on == !core_refused(shaped_stages(channel, configured, present, disagreement)),
{
    let ghost before = plan@;
    let ghost goal = shaped_stages(channel, configured, present, disagreement);
    if configured != present {
        plan.push(CoreStage::Refuse(disagreement));
    } else {
        if configured {
            plan.push(CoreStage::BandwidthExtension { channel });
        }
        plan.push(CoreStage::Tns { channel });
        plan.push(CoreStage::FdShaping { channel });
    }
    assert(plan@ =~= before + goal);
    configured == present
}

} // verus!
