//! The stages of a mono frame, and the noise stream that its decoder keeps.

use crate::engine::core_plan::{
    core_in_order, core_refused, lemma_core_joined, lemma_settles, plan_shaped, plan_spectrum,
    settles_last, shaped_stages, spectrum_stages, CoreStage,
};
use crate::engine::header::NnType;
use crate::engine::model::AVS3_FEATURE_DIMENSIONS;
use crate::engine::neural_qc::NeuralQcError;
use crate::engine::random::{initial_seed, Avs3Random};
use crate::engine::spectrum::SpectrumReorderError;
use crate::engine::stereo_side::CoreBitstreamError;
use crate::engine::tns::TnsSynthesisError;
use crate::qc::QcSideInfo;
use crate::text::{decimal, plain, with_two_numbers};
use vstd::prelude::*;

verus! {

/// Why a mono frame was not decoded.
#[derive(Debug, Clone, Copy, PartialEq, Eq)]
pub enum MonoCoreDecodeError {
    InvalidOutputLength { expected: usize, actual: usize },
    InconsistentBweSideInformation,
    UnexpectedNeuralProfile,
    SideInformation(CoreBitstreamError),
    NeuralQc(NeuralQcError),
    SpectrumReorder(SpectrumReorderError),
    Tns(TnsSynthesisError),
}

impl MonoCoreDecodeError {
    /// The error in words, but for an error of the bits themselves.
    pub open spec fn words(self) -> Option<Seq<char>> {
        match self {
            MonoCoreDecodeError::InvalidOutputLength { expected, actual } => Some(
                "mono synthesis output has "@ + decimal(actual as nat) + " samples; expected "@
                    + decimal(expected as nat) + ""@,
            ),
            MonoCoreDecodeError::InconsistentBweSideInformation => Some(
                "mono BWE configuration and side information are inconsistent"@,
            ),
            MonoCoreDecodeError::UnexpectedNeuralProfile => Some(
                "parsed neural QC profile does not match the frame configuration"@,
            ),
            MonoCoreDecodeError::SideInformation(_) => None,
            MonoCoreDecodeError::NeuralQc(error) => Some(error.words()),
            MonoCoreDecodeError::SpectrumReorder(error) => Some(error.words()),
            MonoCoreDecodeError::Tns(error) => Some(error.words()),
        }
    }

    /// The error in words, but for an error of the bits themselves.
    pub fn message(self) -> (text: Option<String>)
        ensures
            text is Some <==> self.words() is Some,
            text matches Some(words) ==> words@ == self.words()->0,
    {
        match self {
            MonoCoreDecodeError::InvalidOutputLength { expected, actual } => Some(
                with_two_numbers(
                    "mono synthesis output has ",
                    actual as u64,
                    " samples; expected ",
                    expected as u64,
                    "",
                ),
            ),
            MonoCoreDecodeError::InconsistentBweSideInformation => Some(
                plain("mono BWE configuration and side information are inconsistent"),
            ),
            MonoCoreDecodeError::UnexpectedNeuralProfile => Some(
                plain("parsed neural QC profile does not match the frame configuration"),
            ),
            MonoCoreDecodeError::SideInformation(_) => None,
            MonoCoreDecodeError::NeuralQc(error) => Some(error.message()),
            MonoCoreDecodeError::SpectrumReorder(error) => Some(error.message()),
            MonoCoreDecodeError::Tns(error) => Some(error.message()),
        }
    }
}

/// The stages of a mono frame.
pub open spec fn mono_core_stages(
    nn_type: NnType,
    qc: QcSideInfo,
    bwe_configured: bool,
    bwe_present: bool,
) -> Seq<CoreStage<MonoCoreDecodeError>> {
    core_in_order(
        core_in_order(
            spectrum_stages(nn_type, qc, 0, MonoCoreDecodeError::UnexpectedNeuralProfile),
            shaped_stages(
                0,
                bwe_configured,
                bwe_present,
                MonoCoreDecodeError::InconsistentBweSideInformation,
            ),
        ),
        seq![CoreStage::MdctSynthesis { channel: 0 }, CoreStage::Commit],
    )
}

/// The noise stream of a mono decoder.
#[derive(Debug, Clone, PartialEq, Eq)]
pub struct MonoCoreDecoder {
    random: Avs3Random,
}

impl MonoCoreDecoder {
    /// The state of the noise stream.
    pub closed spec fn noise(&self) -> int {
        self.random.state()
    }

    /// A decoder whose noise stream is at its start.
    pub fn new() -> (decoder: Self)
        ensures
            decoder.noise() == initial_seed(),
    {
        MonoCoreDecoder { random: Avs3Random::new() }
    }

    /// Go back to the start of the noise stream.
    pub fn reset(&mut self)
        ensures
            final(self).noise() == initial_seed(),
    {
        self.random.reset();
    }

    /// The noise stream.
    pub fn random(&self) -> (random: &Avs3Random)
        ensures
            random.state() == self.noise(),
    {
        &self.random
    }

    /// The noise stream, to draw from it or to set it.
    pub fn random_mut(&mut self) -> (random: &mut Avs3Random)
        ensures
            random.state() == old(self).noise(),
            final(self).noise() == final(random).state(),
    {
        &mut self.random
    }

    /// Plan a frame. The noise stream stays where it is until the frame is committed.
    pub fn plan(
        &self,
        nn_type: NnType,
        qc: &QcSideInfo,
        bwe_configured: bool,
        bwe_present: bool,
        output_len: usize,
    ) -> (result: Result<Vec<CoreStage<MonoCoreDecodeError>>, MonoCoreDecodeError>)
        ensures
            if output_len != AVS3_FEATURE_DIMENSIONS {
                result is Err && result->Err_0 == (MonoCoreDecodeError::InvalidOutputLength {
                    expected: AVS3_FEATURE_DIMENSIONS,
                    actual: output_len,
                })
            } else {
                result is Ok && result->Ok_0@ == mono_core_stages(
                    nn_type,
                    *qc,
                    bwe_configured,
                    bwe_present,
                )
            },
    {
        if output_len != AVS3_FEATURE_DIMENSIONS {
            return Err(
                MonoCoreDecodeError::InvalidOutputLength {
                    expected: AVS3_FEATURE_DIMENSIONS,
                    actual: output_len,
                },
            );
        }
        let ghost first = spectrum_stages(
            nn_type,
            *qc,
            0,
            MonoCoreDecodeError::UnexpectedNeuralProfile,
        );
        let ghost second = shaped_stages(
            0,
            bwe_configured,
            bwe_present,
            MonoCoreDecodeError::InconsistentBweSideInformation,
        );
        let mut plan: Vec<CoreStage<MonoCoreDecodeError>> = Vec::new();
        assert(plan@ + first =~= first);
        if !plan_spectrum(
            &mut plan,
            nn_type,
            qc,
            0,
            MonoCoreDecodeError::UnexpectedNeuralProfile,
        ) {
            return Ok(plan);
        }
        proof {
            lemma_core_joined(first, second);
        }
        if !plan_shaped(
            &mut plan,
            0,
            bwe_configured,
            bwe_present,
            MonoCoreDecodeError::InconsistentBweSideInformation,
        ) {
            return Ok(plan);
        }
        plan.push(CoreStage::MdctSynthesis { channel: 0 });
        plan.push(CoreStage::Commit);
        assert(plan@ =~= (first + second) + seq![
            CoreStage::MdctSynthesis { channel: 0 },
            CoreStage::Commit,
        ]);
        Ok(plan)
    }

    /// Keep the noise stream that a frame has left.
    pub fn commit(&mut self, random: Avs3Random)
        ensures
            final(self).noise() == random.state(),
    {
        self.random = random;
    }
}

/// A mono frame either runs to its last stage, which commits it, or is refused and commits nothing.
pub proof fn refused_mono_frames_leave_no_trace(
    nn_type: NnType,
    qc: QcSideInfo,
    bwe_configured: bool,
    bwe_present: bool,
)
    ensures
        ({
            let stages = mono_core_stages(nn_type, qc, bwe_configured, bwe_present);
            &&& settles_last(stages)
            &&& stages.last() is Commit || stages.last() is Refuse
        }),
{
    let first = spectrum_stages(nn_type, qc, 0, MonoCoreDecodeError::UnexpectedNeuralProfile);
    let second = shaped_stages(
        0,
        bwe_configured,
        bwe_present,
        MonoCoreDecodeError::InconsistentBweSideInformation,
    );
    let third = seq![
        CoreStage::<MonoCoreDecodeError>::MdctSynthesis { channel: 0 },
        CoreStage::Commit,
    ];
    lemma_settles(first, second);
    lemma_settles(core_in_order(first, second), third);
    if !core_refused(core_in_order(first, second)) {
        lemma_core_joined(core_in_order(first, second), third);
        assert((core_in_order(first, second) + third).last() == third.last());
    }
}

} // verus!
