use ash::vk;
use vstd::prelude::*;

use crate::error::AllocationError;
use crate::sub_allocation::ChunkId;
use crate::types::AllocationType;

verus! {

/// Work that an unfinished allocation waits for. It is done outside the allocator, and
/// its result is handed back as the [`Reply`] of the same kind.
#[allow(inconsistent_fields)]
#[derive(Clone, Copy, Debug)]
pub enum Request<'a> {
    /// Allocate a device memory object.
    AllocateMemory { allocation_size: u64, memory_type_index: u32 },
    /// Map `size` bytes of a device memory object, from `offset` on.
    MapMemory { device_memory: u64, offset: u64, size: u64 },
    /// Free a device memory object.
    FreeMemory { device_memory: u64 },
    /// Create the sub-allocator of a block of `size` bytes: one that serves a single
    /// allocation if `dedicated`, a general one otherwise.
    CreateSubAllocator { size: u64, dedicated: bool },
    /// Ask the sub-allocator of a live block for a part of the block.
    SubAllocate {
        memory_type_index: usize,
        memory_block_index: usize,
        size: u64,
        alignment: u64,
        allocation_type: AllocationType,
        granularity: u64,
        name: &'a str,
        backtrace: Option<&'a str>,
    },
}

/// What came of a [`Request`].
pub enum Reply<S> {
    /// Handle of the new device memory object, or `None` if the device refused.
    MemoryAllocated(Option<u64>),
    /// Host address at which the memory is mapped, or `None` if the device refused.
    MemoryMapped(Option<u64>),
    /// The device memory object is gone.
    MemoryFreed,
    /// The new sub-allocator.
    SubAllocatorCreated(S),
    /// Offset and chunk of the part that the sub-allocator gave, or its error.
    SubAllocated(Result<(u64, ChunkId), AllocationError>),
}

/// A call to make on the device when a memory block goes away.
#[derive(Clone, Copy, Debug, PartialEq, Eq, Structural)]
pub enum DeviceCall {
    UnmapMemory { device_memory: u64 },
    FreeMemory { device_memory: u64 },
}

/// What came of handing a sub-allocation back to the sub-allocator of its block.
pub enum FreeReply {
    /// The sub-allocator refused it.
    Refused(AllocationError),
    /// It is freed, and the sub-allocator still holds others.
    InUse,
    /// It is freed, and the sub-allocator holds nothing any more. `general` tells whether
    /// the sub-allocator supports general allocations.
    Empty { general: bool },
}

/// `ash::vk::WHOLE_SIZE`, which stands for everything from an offset on: its value is
/// the largest `u64`.
#[verifier::external_body]
pub(crate) fn whole_size() -> (size: u64)
    ensures
        size == u64::MAX,
{
    vk::WHOLE_SIZE
}

} // verus!
