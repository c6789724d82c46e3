//! What the engine keeps of the side information of one channel.

use crate::engine::neural_qc::{
    index_error, lines_error, NeuralQcError, NoiseFilling, NoiseGroup,
};
use crate::group::GroupSideInfo;
use crate::qc::QcSideInfo;
use vstd::prelude::*;

verus! {

/// How the short blocks of a frame are grouped.
#[derive(Debug, Clone, Copy, PartialEq, Eq)]
pub struct WindowGrouping {
    count: u8,
    indicator: [NoiseGroup; 8],
}

impl WindowGrouping {
    /// Number of groups.
    pub closed spec fn groups(self) -> int {
        self.count as int
    }

    /// Which blocks are not transient.
    pub closed spec fn flags(self) -> Seq<bool> {
        Seq::new(8, |i: int| self.indicator@[i] is Other)
    }

    /// There are one or two groups.
    pub open spec fn well_formed(self) -> bool {
        self.groups() == 1 || self.groups() == 2
    }

    /// One group of all blocks.
    pub fn single() -> (grouping: Self)
        ensures
            grouping.well_formed(),
            grouping.groups() == 1,
            forall|i: int| 0 <= i < 8 ==> !(#[trigger] grouping.flags()[i]),
    {
        WindowGrouping { count: 1, indicator: [NoiseGroup::Transient;8] }
    }

    /// The grouping that a grouping block describes.
    pub fn from_group(group: &GroupSideInfo) -> (grouping: Self)
        ensures
            grouping.groups() == group.num_groups,
            grouping.flags() == group.group_indicator@,
    {
        let mut indicator: [NoiseGroup; 8] = [NoiseGroup::Transient;8];
        let mut block: usize = 0;
        while block < 8
            invariant
                block <= 8,
                forall|i: int|
                    0 <= i < block ==> (#[trigger] indicator@[i] is Other)
                        == group.group_indicator@[i],
                forall|i: int| block <= i < 8 ==> #[trigger] indicator@[i] is Transient,
            decreases 8 - block,
        {
            if group.group_indicator[block] {
                indicator[block] = NoiseGroup::Other;
            }
            block = block + 1;
        }
        let grouping = WindowGrouping { count: group.num_groups, indicator };
        assert(grouping.flags() =~= group.group_indicator@);
        grouping
    }

    /// Number of groups.
    pub fn count(self) -> (count: usize)
        ensures
            count == self.groups(),
    {
        self.count as usize
    }

    /// The group of each block.
    pub fn indicator(self) -> (indicator: [NoiseGroup; 8])
        ensures
            self.flags().len() == 8,
            forall|i: int|
                0 <= i < 8 ==> #[trigger] self.flags()[i] == (indicator@[i] is Other),
    {
        self.indicator
    }
}

/// The amount of noise of a group. A group without one has none.
pub open spec fn noise_index(side: QcSideInfo, group: int) -> u8 {
    match side.nf_param_q_idx@[group] {
        Some(index) => index,
        None => 0,
    }
}

/// The noise filling of a channel: one group takes the first amount, two take one each.
pub fn noise_filling_of(side: &QcSideInfo, grouping: WindowGrouping, lines: usize) -> (result: Result<
    NoiseFilling,
    NeuralQcError,
>)
    ensures
        if let Some(error) = lines_error(lines as int) {
            result == Err::<NoiseFilling, NeuralQcError>(error)
        } else if let Some(error) = index_error(0, noise_index(*side, 0)) {
            result == Err::<NoiseFilling, NeuralQcError>(error)
        } else if grouping.groups() == 1 {
            &&& result is Ok
            &&& result->Ok_0.well_formed()
            &&& result->Ok_0.lines() == lines
            &&& result->Ok_0.groups() == 1
            &&& forall|i: int|
                0 <= i < 8 ==> #[trigger] result->Ok_0.indicator()[i] == NoiseGroup::Transient
            &&& result->Ok_0.indexes() == seq![noise_index(*side, 0), 0u8]
        } else if let Some(error) = index_error(1, noise_index(*side, 1)) {
            result == Err::<NoiseFilling, NeuralQcError>(error)
        } else {
            &&& result is Ok
            &&& result->Ok_0.well_formed()
            &&& result->Ok_0.lines() == lines
            &&& result->Ok_0.groups() == 2
            &&& forall|i: int|
                0 <= i < 8 ==> (#[trigger] result->Ok_0.indicator()[i] is Other)
                    == grouping.flags()[i]
            &&& result->Ok_0.indexes() == seq![noise_index(*side, 0), noise_index(*side, 1)]
        },
{
    let first: u8 = match side.nf_param_q_idx[0] {
        Some(index) => index,
        None => 0,
    };
    let second: u8 = match side.nf_param_q_idx[1] {
        Some(index) => index,
        None => 0,
    };
    if grouping.count() == 1 {
        let result = NoiseFilling::single(lines, first);
        if let Ok(filling) = &result {
            assert(filling.indexes() =~= seq![first, 0u8]);
        }
        result
    } else {
        let indicator: [NoiseGroup; 8] = grouping.indicator();
        let result = NoiseFilling::two_groups(lines, indicator, [first, second]);
        assert forall|i: int| 0 <= i < 8 implies (#[trigger] indicator@[i] is Other)
            == grouping.flags()[i] by {
            assert(grouping.flags()[i] == (indicator@[i] is Other));
        }
        if let Ok(filling) = &result {
            assert(filling.indexes() =~= seq![first, second]);
        }
        result
    }
}

} // verus!
