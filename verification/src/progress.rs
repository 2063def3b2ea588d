use vstd::prelude::*;

use crate::error::{AllocationError, ErrorModel};
use crate::sub_allocation::{SubAllocation, SubAllocationModel};

verus! {

/// What an allocation has come to: it waits as `P`, or it is done.
pub enum Progress<P> {
    Pending(P),
    Done(Result<SubAllocation, AllocationError>),
}

/// What a [`Progress`] holds.
#[verifier::ext_equal]
pub enum ProgressModel<P> {
    Pending(P),
    Allocated(SubAllocationModel),
    Failed(ErrorModel),
}

impl<P> View for Progress<P> {
    type V = ProgressModel<P>;

    open spec fn view(&self) -> ProgressModel<P> {
        match *self {
            Progress::Pending(pending) => ProgressModel::Pending(pending),
            Progress::Done(Ok(sub_allocation)) => ProgressModel::Allocated(sub_allocation@),
            Progress::Done(Err(error)) => ProgressModel::Failed(error@),
        }
    }
}

/// A sub-allocation that is to be handed back to the sub-allocator of its block.
pub struct PendingFree {
    pub memory_type_index: usize,
    pub memory_block_index: usize,
    pub sub_allocation: SubAllocation,
}

/// What a free has come to.
pub enum FreeProgress {
    Pending(PendingFree),
    Done(Result<(), AllocationError>),
}

} // verus!
