//! Which lines the temporal noise shaping filters run over, and with which coefficients.

use crate::core_side::{TnsFilterSideInfo, TnsSideInfo, TransformType};
use crate::engine::model::AVS3_FEATURE_DIMENSIONS;
use crate::text::{decimal, with_two_numbers};
use vstd::prelude::*;

verus! {

/// Filters of a channel.
pub const MAX_TNS_FILTERS: usize = 2;

/// Why noise shaping can not be undone.
#[derive(Debug, Clone, Copy, PartialEq, Eq, Structural)]
pub enum TnsSynthesisError {
    InvalidSpectrumLength { expected: usize, actual: usize },
}

impl TnsSynthesisError {
    /// The error in words.
    pub open spec fn words(self) -> Seq<char> {
        match self {
            TnsSynthesisError::InvalidSpectrumLength { expected, actual } => "TNS spectrum has "@
                + decimal(actual as nat) + " lines; expected "@ + decimal(expected as nat) + ""@,
        }
    }

    /// The error in words.
    pub fn message(self) -> (text: String)
        ensures
            text@ == self.words(),
    {
        match self {
            TnsSynthesisError::InvalidSpectrumLength { expected, actual } => with_two_numbers(
                "TNS spectrum has ",
                actual as u64,
                " lines; expected ",
                expected as u64,
                "",
            ),
        }
    }
}

/// One filter run: the lines from `start` to `stop`, in rising order, with the first `order`
/// coefficients.
#[derive(Debug, Clone, Copy, PartialEq, Eq)]
pub struct TnsFilterStep {
    pub start: usize,
    pub stop: usize,
    pub order: u8,
    pub coefficient_indices: [u8; 8],
}

/// One step of undoing the noise shaping of a channel.
#[derive(Debug, Clone, Copy, PartialEq, Eq)]
pub enum TnsStep {
    /// Put the lines of interleaved short blocks in order block by block.
    Deinterleave,
    Filter(TnsFilterStep),
    /// Interleave the lines of short blocks again.
    Interleave,
}

/// First line of a filter.
pub open spec fn filter_start(filter: int) -> int {
    if filter == 0 {
        28
    } else {
        230
    }
}

/// Line behind a filter.
pub open spec fn filter_stop(filter: int) -> int {
    if filter == 0 {
        230
    } else {
        853
    }
}

/// The run of a filter, if it is switched on.
pub open spec fn filter_steps(side: TnsFilterSideInfo, filter: int) -> Seq<TnsFilterStep> {
    if side.order == 0 {
        Seq::empty()
    } else {
        seq![
            TnsFilterStep {
                start: filter_start(filter) as usize,
                stop: filter_stop(filter) as usize,
                order: side.order,
                coefficient_indices: side.coefficient_indices,
            },
        ]
    }
}

/// The runs of a channel, the higher lines first.
///
/// The lattice of the first run is carried on into the second.
pub open spec fn tns_steps(side: TnsSideInfo) -> Seq<TnsFilterStep> {
    filter_steps(side.filters@[1], 1) + filter_steps(side.filters@[0], 0)
}

/// The steps of a channel: its filters, around which the lines of short blocks are put in order
/// block by block and restored.
pub open spec fn tns_plan(side: TnsSideInfo, transform_type: TransformType) -> Seq<TnsStep> {
    let filters = tns_steps(side).map_values(|step: TnsFilterStep| TnsStep::Filter(step));
    if transform_type is Short {
        seq![TnsStep::Deinterleave] + filters + seq![TnsStep::Interleave]
    } else {
        filters
    }
}

/// Plan how the noise shaping of a channel is undone.
pub fn plan_tns(side: &TnsSideInfo, transform_type: TransformType, spectrum_len: usize) -> (result:
    Result<Vec<TnsStep>, TnsSynthesisError>)
    ensures
        if spectrum_len != AVS3_FEATURE_DIMENSIONS {
            result is Err && result->Err_0 == (TnsSynthesisError::InvalidSpectrumLength {
                expected: AVS3_FEATURE_DIMENSIONS,
                actual: spectrum_len,
            })
        } else {
            result is Ok && result->Ok_0@ == tns_plan(*side, transform_type)
        },
{
    if spectrum_len != AVS3_FEATURE_DIMENSIONS {
        return Err(
            TnsSynthesisError::InvalidSpectrumLength {
                expected: AVS3_FEATURE_DIMENSIONS,
                actual: spectrum_len,
            },
        );
    }
    let short: bool = matches!(transform_type, TransformType::Short);
    let mut steps: Vec<TnsStep> = Vec::new();
    if short {
        steps.push(TnsStep::Deinterleave);
    }
    if side.filters[1].order != 0 {
        steps.push(
            TnsStep::Filter(
                TnsFilterStep {
                    start: 230,
                    stop: 853,
                    order: side.filters[1].order,
                    coefficient_indices: side.filters[1].coefficient_indices,
                },
            ),
        );
    }
    if side.filters[0].order != 0 {
        steps.push(
            TnsStep::Filter(
                TnsFilterStep {
                    start: 28,
                    stop: 230,
                    order: side.filters[0].order,
                    coefficient_indices: side.filters[0].coefficient_indices,
                },
            ),
        );
    }
    if short {
        steps.push(TnsStep::Interleave);
    }
    assert(steps@ =~= tns_plan(*side, transform_type));
    Ok(steps)
}

/// The two filters share no line.
pub proof fn filters_share_no_line(side: TnsSideInfo, a: int, b: int)
    requires
        0 <= a < b < tns_steps(side).len(),
    ensures
        tns_steps(side)[b].stop <= tns_steps(side)[a].start,
        tns_steps(side)[a].stop <= AVS3_FEATURE_DIMENSIONS,
{
}

/// Each filter that is switched on runs once, with its own order and coefficients, over its own
/// lines: the second one over lines 230 to 852, and behind it the first one over lines 28 to 229.
/// Nothing else is filtered, and only short blocks are reordered, before and after.
pub proof fn filters_run_once_over_their_lines(side: TnsSideInfo, transform_type: TransformType)
    ensures
        ({
            let plan = tns_plan(side, transform_type);
            let (low, high) = (side.filters@[0], side.filters@[1]);
            let front = if transform_type is Short {
                1int
            } else {
                0
            };
            let behind = front + if high.order > 0 {
                1int
            } else {
                0
            };
            &&& plan.len() == behind + (if low.order > 0 {
                1int
            } else {
                0
            }) + front
            &&& high.order > 0 ==> plan[front] == TnsStep::Filter(
                TnsFilterStep {
                    start: 230,
                    stop: 853,
                    order: high.order,
                    coefficient_indices: high.coefficient_indices,
                },
            )
            &&& low.order > 0 ==> plan[behind] == TnsStep::Filter(
                TnsFilterStep {
                    start: 28,
                    stop: 230,
                    order: low.order,
                    coefficient_indices: low.coefficient_indices,
                },
            )
            &&& transform_type is Short ==> plan[0] is Deinterleave && plan.last() is Interleave
        }),
{
}

} // verus!
