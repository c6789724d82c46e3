//! The stages of a stereo frame, and the noise stream that its decoder keeps.

use crate::bwe::BweConfig;
use crate::engine::core_plan::{
    core_in_order, core_refused, lemma_core_joined, lemma_settles, plan_shaped, plan_spectrum,
    settles_last, shaped_stages, spectrum_stages, CoreStage,
};
use crate::engine::header::{FrameHeader, NnType};
use crate::engine::neural_qc::NeuralQcError;
use crate::engine::random::{initial_seed, Avs3Random};
use crate::engine::spectrum::SpectrumReorderError;
use crate::engine::stereo_side::{
    McrFrameSideInfo, StereoError, StereoFrameSideInfo, StereoSideInfo, StereoSideInfoDecoder,
};
use crate::engine::tns::TnsSynthesisError;
use crate::qc::QcSideInfo;
use crate::text::{decimal, plain, with_number, with_two_numbers};
use vstd::prelude::*;

verus! {

/// Samples of an interleaved stereo frame.
pub const STEREO_FRAME_SAMPLES: usize = 2048;

/// Why a stereo frame was not decoded.
#[derive(Debug, Clone, Copy, PartialEq, Eq)]
pub enum StereoCoreDecodeError {
    InvalidOutputLength { expected: usize, actual: usize },
    UnexpectedNeuralProfile { channel: usize },
    InconsistentBweSideInformation { channel: usize },
    MissingIld,
    SideInformation(StereoError),
    NeuralQc(NeuralQcError),
    SpectrumReorder(SpectrumReorderError),
    Tns(TnsSynthesisError),
}

impl StereoCoreDecodeError {
    /// The error in words, but for an error of the bits themselves.
    pub open spec fn words(self) -> Option<Seq<char>> {
        match self {
            StereoCoreDecodeError::InvalidOutputLength { expected, actual } => Some(
                "stereo synthesis output has "@ + decimal(actual as nat) + " samples; expected "@
                    + decimal(expected as nat) + ""@,
            ),
            StereoCoreDecodeError::UnexpectedNeuralProfile { channel } => Some(
                "parsed neural QC profile does not match stereo channel "@ + decimal(channel as nat)
                    + " configuration"@,
            ),
            StereoCoreDecodeError::InconsistentBweSideInformation { channel } => Some(
                "stereo channel "@ + decimal(channel as nat)
                    + " BWE configuration and side information are inconsistent"@,
            ),
            StereoCoreDecodeError::MissingIld => Some(
                "MS stereo frame is missing its ILD parameter"@,
            ),
            StereoCoreDecodeError::SideInformation(error) => error.words(),
            StereoCoreDecodeError::NeuralQc(error) => Some(error.words()),
            StereoCoreDecodeError::SpectrumReorder(error) => Some(error.words()),
            StereoCoreDecodeError::Tns(error) => Some(error.words()),
        }
    }

    /// The error in words, but for an error of the bits themselves.
    pub fn message(self) -> (text: Option<String>)
        ensures
            text is Some <==> self.words() is Some,
            text matches Some(words) ==> words@ == self.words()->0,
    {
        match self {
            StereoCoreDecodeError::InvalidOutputLength { expected, actual } => Some(
                with_two_numbers(
                    "stereo synthesis output has ",
                    actual as u64,
                    " samples; expected ",
                    expected as u64,
                    "",
                ),
            ),
            StereoCoreDecodeError::UnexpectedNeuralProfile { channel } => Some(
                with_number(
                    "parsed neural QC profile does not match stereo channel ",
                    channel as u64,
                    " configuration",
                ),
            ),
            StereoCoreDecodeError::InconsistentBweSideInformation { channel } => Some(
                with_number(
                    "stereo channel ",
                    channel as u64,
                    " BWE configuration and side information are inconsistent",
                ),
            ),
            StereoCoreDecodeError::MissingIld => Some(
                plain("MS stereo frame is missing its ILD parameter"),
            ),
            StereoCoreDecodeError::SideInformation(error) => error.message(),
            StereoCoreDecodeError::NeuralQc(error) => Some(error.message()),
            StereoCoreDecodeError::SpectrumReorder(error) => Some(error.message()),
            StereoCoreDecodeError::Tns(error) => Some(error.message()),
        }
    }
}

/// A total rate goes with a bandwidth extension.
pub open spec fn stereo_bwe_configured(bitrate: u32) -> bool {
    bitrate <= 128_000
}

/// The spectrum of one channel.
pub open spec fn channel_spectrum(nn_type: NnType, qc: QcSideInfo, channel: usize) -> Seq<
    CoreStage<StereoCoreDecodeError>,
> {
    spectrum_stages(
        nn_type,
        qc,
        channel,
        StereoCoreDecodeError::UnexpectedNeuralProfile { channel },
    )
}

/// The bandwidth extension of one channel, and what follows it.
pub open spec fn channel_shaped(configured: bool, present: bool, channel: usize) -> Seq<
    CoreStage<StereoCoreDecodeError>,
> {
    shaped_stages(
        channel,
        configured,
        present,
        StereoCoreDecodeError::InconsistentBweSideInformation { channel },
    )
}

/// Undo mid and side coding, where it is used.
pub open spec fn mid_side_stages(stereo: StereoSideInfo) -> Seq<CoreStage<StereoCoreDecodeError>> {
    if !stereo.is_mid_side() {
        Seq::empty()
    } else {
        match stereo.level() {
            Some(ild) => seq![CoreStage::InverseMidSide { ild }],
            None => seq![CoreStage::Refuse(StereoCoreDecodeError::MissingIld)],
        }
    }
}

/// Both transforms, the interleaved samples and the commitment.
pub open spec fn last_stages() -> Seq<CoreStage<StereoCoreDecodeError>> {
    seq![
        CoreStage::MdctSynthesis { channel: 0 },
        CoreStage::MdctSynthesis { channel: 1 },
        CoreStage::Interleave,
        CoreStage::Commit,
    ]
}

/// The extension and shaping of both channels, and their samples.
pub open spec fn post_stages(configured: bool, left: bool, right: bool) -> Seq<
    CoreStage<StereoCoreDecodeError>,
> {
    core_in_order(
        core_in_order(channel_shaped(configured, left, 0), channel_shaped(configured, right, 1)),
        last_stages(),
    )
}

/// The stages of a frame of which both channels are coded.
pub open spec fn stereo_core_stages(
    nn_type: NnType,
    left_qc: QcSideInfo,
    right_qc: QcSideInfo,
    stereo: StereoSideInfo,
    bwe_configured: bool,
    left_bwe: bool,
    right_bwe: bool,
) -> Seq<CoreStage<StereoCoreDecodeError>> {
    core_in_order(
        core_in_order(
            core_in_order(
                channel_spectrum(nn_type, left_qc, 0),
                channel_spectrum(nn_type, right_qc, 1),
            ),
            mid_side_stages(stereo),
        ),
        post_stages(bwe_configured, left_bwe, right_bwe),
    )
}

/// The stages of a frame of which only one channel is coded.
pub open spec fn mcr_core_stages(
    nn_type: NnType,
    qc: QcSideInfo,
    bwe_configured: bool,
    left_bwe: bool,
    right_bwe: bool,
) -> Seq<CoreStage<StereoCoreDecodeError>> {
    core_in_order(
        core_in_order(channel_spectrum(nn_type, qc, 0), seq![CoreStage::Rotate]),
        post_stages(bwe_configured, left_bwe, right_bwe),
    )
}

/// Check two spectra and the level difference before mid and side are turned into left and right.
pub fn check_mid_side(left: usize, right: usize, ild: u8) -> (result: Result<(), StereoError>)
    ensures
        result == if left != right {
            Err::<(), StereoError>(StereoError::ChannelLengthMismatch { left, right })
        } else if !(1 <= ild <= 15) {
            Err(StereoError::InvalidIld(ild))
        } else {
            Ok(())
        },
{
    if left != right {
        return Err(StereoError::ChannelLengthMismatch { left, right });
    }
    if ild < 1 || ild > 15 {
        return Err(StereoError::InvalidIld(ild));
    }
    Ok(())
}

/// Append the extension and shaping of both channels, and their samples.
fn plan_post(
    plan: &mut Vec<CoreStage<StereoCoreDecodeError>>,
    configured: bool,
    left: bool,
    right: bool,
)
    requires
        !core_refused(old(plan)@),
    ensures
        final(plan)@ == core_in_order(old(plan)@, post_stages(configured, left, right)),
{
    let ghost before = plan@;
    let ghost first = channel_shaped(configured, left, 0);
    let ghost second = channel_shaped(configured, right, 1);
    proof {
        lemma_core_joined(before, post_stages(configured, left, right));
    }
    if !plan_shaped(
        plan,
        0,
        configured,
        left,
        StereoCoreDecodeError::InconsistentBweSideInformation { channel: 0 },
    ) {
        return ;
    }
    proof {
        lemma_core_joined(first, second);
        assert((before + first) + second =~= before + (first + second));
    }
    if !plan_shaped(
        plan,
        1,
        configured,
        right,
        StereoCoreDecodeError::InconsistentBweSideInformation { channel: 1 },
    ) {
        return ;
    }
    plan.push(CoreStage::MdctSynthesis { channel: 0 });
    plan.push(CoreStage::MdctSynthesis { channel: 1 });
    plan.push(CoreStage::Interleave);
    plan.push(CoreStage::Commit);
    proof {
        lemma_core_joined(first + second, last_stages());
        assert(plan@ =~= before + ((first + second) + last_stages()));
    }
}

/// A parser of stereo frames and the noise stream of their decoder.
#[derive(Debug)]
pub struct StereoCoreDecoder {
    side_information: StereoSideInfoDecoder,
    random: Avs3Random,
}

impl StereoCoreDecoder {
    /// The parser.
    pub closed spec fn parser(&self) -> StereoSideInfoDecoder {
        self.side_information
    }

    /// The state of the noise stream.
    pub closed spec fn noise(&self) -> int {
        self.random.state()
    }

    /// A decoder whose noise stream is at its start.
    pub fn new(side_information: StereoSideInfoDecoder) -> (decoder: Self)
        ensures
            decoder.parser() == side_information,
            decoder.noise() == initial_seed(),
    {
        StereoCoreDecoder { side_information, random: Avs3Random::new() }
    }

    /// Go back to the start of the noise stream.
    pub fn reset(&mut self)
        ensures
            final(self).noise() == initial_seed(),
            final(self).parser() == old(self).parser(),
    {
        self.random.reset();
    }

    /// The noise stream.
    pub fn random(&self) -> (random: &Avs3Random)
        ensures
            random.state() == self.noise(),
    {
        &self.random
    }

    /// The noise stream, to draw from it or to set it.
    pub fn random_mut(&mut self) -> (random: &mut Avs3Random)
        ensures
            random.state() == old(self).noise(),
            final(self).noise() == final(random).state(),
            final(self).parser() == old(self).parser(),
    {
        &mut self.random
    }

    /// Keep the noise stream that a frame has left.
    pub fn commit(&mut self, random: Avs3Random)
        ensures
            final(self).noise() == random.state(),
            final(self).parser() == old(self).parser(),
    {
        self.random = random;
    }

    /// Parse and plan a frame of which both channels are coded. The noise stream stays where it is
    /// until the frame is committed.
    pub fn plan(&self, payload: &[u8], header: &FrameHeader, output_len: usize) -> (result: Result<
        (StereoFrameSideInfo, Vec<CoreStage<StereoCoreDecodeError>>),
        StereoCoreDecodeError,
    >)
        ensures
            if output_len != STEREO_FRAME_SAMPLES {
                result is Err && result->Err_0 == (StereoCoreDecodeError::InvalidOutputLength {
                    expected: STEREO_FRAME_SAMPLES,
                    actual: output_len,
                })
            } else {
                exists|parsed: Result<StereoFrameSideInfo, StereoError>|
                    {
                        &&& #[trigger] self.parser().parses(payload@, *header, parsed)
                        &&& match parsed {
                            Err(error) => result is Err && result->Err_0
                                == StereoCoreDecodeError::SideInformation(error),
                            Ok(side) => result is Ok && (result->Ok_0).0 == side && (
                            result->Ok_0).1@ == stereo_core_stages(
                                header.nn_type,
                                side.neural_qc.0.side,
                                side.neural_qc.1.side,
                                side.stereo,
                                stereo_bwe_configured(header.bitrate),
                                side.cores@[0].bwe is Some,
                                side.cores@[1].bwe is Some,
                            ),
                        }
                    }
            },
    {
        if output_len != STEREO_FRAME_SAMPLES {
            return Err(
                StereoCoreDecodeError::InvalidOutputLength {
                    expected: STEREO_FRAME_SAMPLES,
                    actual: output_len,
                },
            );
        }
        let parsed = self.side_information.parse(payload, header);
        assert(self.parser().parses(payload@, *header, parsed));
        let config = BweConfig::for_stereo_bitrate(header.bitrate, &self.side_information.bands);
        let side = match parsed {
            Ok(side) => side,
            Err(error) => {
                return Err(StereoCoreDecodeError::SideInformation(error));
            },
        };
        let plan = plan_stereo_core(header.nn_type, &side, config.is_some());
        Ok((side, plan))
    }
}

/// Plan a parsed frame of which both channels are coded.
pub fn plan_stereo_core(nn_type: NnType, side: &StereoFrameSideInfo, bwe_configured: bool) -> (plan:
    Vec<CoreStage<StereoCoreDecodeError>>)
    ensures
        plan@ == stereo_core_stages(
            nn_type,
            side.neural_qc.0.side,
            side.neural_qc.1.side,
            side.stereo,
            bwe_configured,
            side.cores@[0].bwe is Some,
            side.cores@[1].bwe is Some,
        ),
{
    let ghost first = channel_spectrum(nn_type, side.neural_qc.0.side, 0);
    let ghost second = channel_spectrum(nn_type, side.neural_qc.1.side, 1);
    let ghost third = mid_side_stages(side.stereo);
    let mut plan: Vec<CoreStage<StereoCoreDecodeError>> = Vec::new();
    assert(plan@ + first =~= first);
    if !plan_spectrum(
        &mut plan,
        nn_type,
        &side.neural_qc.0.side,
        0,
        StereoCoreDecodeError::UnexpectedNeuralProfile { channel: 0 },
    ) {
        return plan;
    }
    proof {
        lemma_core_joined(first, second);
    }
    if !plan_spectrum(
        &mut plan,
        nn_type,
        &side.neural_qc.1.side,
        1,
        StereoCoreDecodeError::UnexpectedNeuralProfile { channel: 1 },
    ) {
        return plan;
    }
    proof {
        lemma_core_joined(first + second, third);
        assert((first + second) + Seq::<CoreStage<StereoCoreDecodeError>>::empty() =~= first
            + second);
    }
    if side.stereo.mid_side() {
        match side.stereo.ild() {
            Some(ild) => {
                plan.push(CoreStage::InverseMidSide { ild });
                assert(plan@ =~= (first + second) + third);
            },
            None => {
                plan.push(CoreStage::Refuse(StereoCoreDecodeError::MissingIld));
                assert(plan@ =~= (first + second) + third);
                return plan;
            },
        }
    }
    plan_post(
        &mut plan,
        bwe_configured,
        side.cores[0].bwe.is_some(),
        side.cores[1].bwe.is_some(),
    );
    plan
}

/// Plan a parsed frame of which only one channel is coded.
pub fn plan_mcr_core(nn_type: NnType, side: &McrFrameSideInfo, bwe_configured: bool) -> (plan: Vec<
    CoreStage<StereoCoreDecodeError>,
>)
    ensures
        plan@ == mcr_core_stages(
            nn_type,
            side.neural_qc.side,
            bwe_configured,
            side.cores@[0].bwe is Some,
            side.cores@[1].bwe is Some,
        ),
{
    let ghost first = channel_spectrum(nn_type, side.neural_qc.side, 0);
    let mut plan: Vec<CoreStage<StereoCoreDecodeError>> = Vec::new();
    assert(plan@ + first =~= first);
    if !plan_spectrum(
        &mut plan,
        nn_type,
        &side.neural_qc.side,
        0,
        StereoCoreDecodeError::UnexpectedNeuralProfile { channel: 0 },
    ) {
        return plan;
    }
    plan.push(CoreStage::Rotate);
    proof {
        let second = seq![CoreStage::<StereoCoreDecodeError>::Rotate];
        lemma_core_joined(first, second);
        assert(plan@ =~= first + second);
    }
    plan_post(
        &mut plan,
        bwe_configured,
        side.cores[0].bwe.is_some(),
        side.cores[1].bwe.is_some(),
    );
    plan
}

impl StereoCoreDecoder {
    /// Parse and plan a frame of which only one channel is coded. The noise stream stays where it is
    /// until the frame is committed.
    pub fn plan_mcr(&self, payload: &[u8], header: &FrameHeader, output_len: usize) -> (result:
        Result<(McrFrameSideInfo, Vec<CoreStage<StereoCoreDecodeError>>), StereoCoreDecodeError>)
        ensures
            if output_len != STEREO_FRAME_SAMPLES {
                result is Err && result->Err_0 == (StereoCoreDecodeError::InvalidOutputLength {
                    expected: STEREO_FRAME_SAMPLES,
                    actual: output_len,
                })
            } else {
                exists|parsed: Result<McrFrameSideInfo, StereoError>|
                    {
                        &&& #[trigger] self.parser().parses_mcr(payload@, *header, parsed)
                        &&& match parsed {
                            Err(error) => result is Err && result->Err_0
                                == StereoCoreDecodeError::SideInformation(error),
                            Ok(side) => result is Ok && (result->Ok_0).0 == side && (
                            result->Ok_0).1@ == mcr_core_stages(
                                header.nn_type,
                                side.neural_qc.side,
                                stereo_bwe_configured(header.bitrate),
                                side.cores@[0].bwe is Some,
                                side.cores@[1].bwe is Some,
                            ),
                        }
                    }
            },
    {
        if output_len != STEREO_FRAME_SAMPLES {
            return Err(
                StereoCoreDecodeError::InvalidOutputLength {
                    expected: STEREO_FRAME_SAMPLES,
                    actual: output_len,
                },
            );
        }
        let parsed = self.side_information.parse_mcr(payload, header);
        assert(self.parser().parses_mcr(payload@, *header, parsed));
        let config = BweConfig::for_stereo_bitrate(header.bitrate, &self.side_information.bands);
        let side = match parsed {
            Ok(side) => side,
            Err(error) => {
                return Err(StereoCoreDecodeError::SideInformation(error));
            },
        };
        let plan = plan_mcr_core(header.nn_type, &side, config.is_some());
        Ok((side, plan))
    }
}

/// What follows the spectra either runs to the commitment, which is last, or is refused before.
proof fn lemma_post_settles(configured: bool, left: bool, right: bool)
    ensures
        settles_last(post_stages(configured, left, right)),
        post_stages(configured, left, right).last() is Commit || post_stages(
            configured,
            left,
            right,
        ).last() is Refuse,
        post_stages(configured, left, right).len() > 0,
{
    let first = channel_shaped(configured, left, 0);
    let second = channel_shaped(configured, right, 1);
    lemma_settles(first, second);
    lemma_settles(core_in_order(first, second), last_stages());
    if !core_refused(core_in_order(first, second)) {
        assert((core_in_order(first, second) + last_stages()).last() == last_stages().last());
    }
}

/// A stereo frame either runs to its last stage, which commits it, or is refused and commits
/// nothing.
pub proof fn refused_stereo_frames_leave_no_trace(
    nn_type: NnType,
    left_qc: QcSideInfo,
    right_qc: QcSideInfo,
    stereo: StereoSideInfo,
    bwe_configured: bool,
    left_bwe: bool,
    right_bwe: bool,
)
    ensures
        ({
            let stages = stereo_core_stages(
                nn_type,
                left_qc,
                right_qc,
                stereo,
                bwe_configured,
                left_bwe,
                right_bwe,
            );
            &&& settles_last(stages)
            &&& stages.last() is Commit || stages.last() is Refuse
        }),
{
    let first = channel_spectrum(nn_type, left_qc, 0);
    let second = channel_spectrum(nn_type, right_qc, 1);
    let third = mid_side_stages(stereo);
    let front = core_in_order(core_in_order(first, second), third);
    let back = post_stages(bwe_configured, left_bwe, right_bwe);
    lemma_post_settles(bwe_configured, left_bwe, right_bwe);
    lemma_settles(first, second);
    lemma_settles(core_in_order(first, second), third);
    lemma_settles(front, back);
    if !core_refused(front) {
        assert((front + back).last() == back.last());
    }
}

/// A frame of which only one channel is coded either runs to its last stage, which commits it, or
/// is refused and commits nothing.
pub proof fn refused_mcr_frames_leave_no_trace(
    nn_type: NnType,
    qc: QcSideInfo,
    bwe_configured: bool,
    left_bwe: bool,
    right_bwe: bool,
)
    ensures
        ({
            let stages = mcr_core_stages(nn_type, qc, bwe_configured, left_bwe, right_bwe);
            &&& settles_last(stages)
            &&& stages.last() is Commit || stages.last() is Refuse
        }),
{
    let first = channel_spectrum(nn_type, qc, 0);
    let second = seq![CoreStage::<StereoCoreDecodeError>::Rotate];
    let front = core_in_order(first, second);
    let back = post_stages(bwe_configured, left_bwe, right_bwe);
    lemma_post_settles(bwe_configured, left_bwe, right_bwe);
    lemma_settles(first, second);
    lemma_settles(front, back);
    if !core_refused(front) {
        assert((front + back).last() == back.last());
    }
}

} // verus!
