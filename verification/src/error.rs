use vstd::prelude::*;

verus! {

/// Why an allocation or a free did not succeed.
#[derive(Clone, Debug, PartialEq, Eq)]
pub enum AllocationError {
    /// The device, or the block that was asked, has no room left.
    OutOfMemory,
    /// The device memory of a new block could not be mapped.
    FailedToMap,
    /// No memory type of the device satisfies the request.
    NoCompatibleMemoryTypeFound,
    /// The request has size zero, or an alignment that is not a power of two.
    InvalidAllocationCreateDesc,
    /// The bookkeeping of the allocator is inconsistent.
    Internal(String),
}

/// An [`AllocationError`] with its message as a sequence of characters.
pub enum ErrorModel {
    OutOfMemory,
    FailedToMap,
    NoCompatibleMemoryTypeFound,
    InvalidAllocationCreateDesc,
    Internal(Seq<char>),
}

impl View for AllocationError {
    type V = ErrorModel;

    open spec fn view(&self) -> ErrorModel {
        match *self {
            AllocationError::OutOfMemory => ErrorModel::OutOfMemory,
            AllocationError::FailedToMap => ErrorModel::FailedToMap,
            AllocationError::NoCompatibleMemoryTypeFound => ErrorModel::NoCompatibleMemoryTypeFound,
            AllocationError::InvalidAllocationCreateDesc => ErrorModel::InvalidAllocationCreateDesc,
            AllocationError::Internal(message) => ErrorModel::Internal(message@),
        }
    }
}

} // verus!
