use vstd::prelude::*;

use crate::error::AllocationError;
use crate::protocol::{whole_size, DeviceCall, Reply, Request};

verus! {

/// A device memory object, from which the sub-allocator `S` hands out parts.
#[derive(Debug)]
pub struct MemoryBlock<S> {
    /// Raw handle of the device memory object.
    pub device_memory: u64,
    pub size: u64,
    /// Host address at which the whole object is mapped, zero if it is not.
    pub mapped_ptr: u64,
    pub sub_allocator: S,
}

/// How far the creation of a memory block has come.
#[derive(Clone, Copy, Debug)]
pub enum CreationStage {
    /// The device memory object is to be allocated.
    Memory,
    /// The device memory object is to be mapped.
    Mapping { device_memory: u64 },
    /// Mapping failed, and the device memory object is to be freed again.
    Release { device_memory: u64 },
    /// The sub-allocator is to be created.
    SubAllocator { device_memory: u64, mapped_ptr: u64 },
}

/// A memory block under creation.
#[derive(Clone, Copy, Debug)]
pub struct BlockCreation {
    pub size: u64,
    pub memory_type_index: u32,
    /// Whether the memory is to be mapped.
    pub mapped: bool,
    /// Whether the block is to serve a single allocation.
    pub dedicated: bool,
    pub stage: CreationStage,
}

/// What the creation of a memory block has come to.
pub enum CreationProgress<S> {
    Pending(BlockCreation),
    Created(MemoryBlock<S>),
    Failed(AllocationError),
}

impl BlockCreation {
    /// Only memory that is to be mapped has anything to do with a mapping.
    pub open spec fn wf(self) -> bool {
        !self.mapped ==> match self.stage {
            CreationStage::Memory => true,
            CreationStage::SubAllocator { mapped_ptr, .. } => mapped_ptr == 0,
            _ => false,
        }
    }

    /// What the creation waits for.
    pub open spec fn awaits(self) -> Request<'static> {
        match self.stage {
            CreationStage::Memory => Request::AllocateMemory {
                allocation_size: self.size,
                memory_type_index: self.memory_type_index,
            },
            CreationStage::Mapping { device_memory } => Request::MapMemory {
                device_memory,
                offset: 0,
                size: u64::MAX,
            },
            CreationStage::Release { device_memory } => Request::FreeMemory { device_memory },
            CreationStage::SubAllocator { .. } => Request::CreateSubAllocator {
                size: self.size,
                dedicated: self.dedicated,
            },
        }
    }

    /// `reply` answers what the creation waits for.
    pub open spec fn admits<S>(self, reply: Reply<S>) -> bool {
        match self.stage {
            CreationStage::Memory => reply is MemoryAllocated,
            CreationStage::Mapping { .. } => reply is MemoryMapped,
            CreationStage::Release { .. } => reply is MemoryFreed,
            CreationStage::SubAllocator { .. } => reply is SubAllocatorCreated,
        }
    }

    /// The same creation at another stage.
    pub open spec fn at(self, stage: CreationStage) -> BlockCreation {
        BlockCreation { stage, ..self }
    }

    /// What the creation comes to with `reply`.
    pub open spec fn after<S>(self, reply: Reply<S>) -> CreationProgress<S> {
        match (self.stage, reply) {
            (CreationStage::Memory, Reply::MemoryAllocated(Some(device_memory))) => {
                if self.mapped {
                    CreationProgress::Pending(self.at(CreationStage::Mapping { device_memory }))
                } else {
                    CreationProgress::Pending(
                        self.at(CreationStage::SubAllocator { device_memory, mapped_ptr: 0 }),
                    )
                }
            },
            (CreationStage::Mapping { device_memory }, Reply::MemoryMapped(Some(mapped_ptr))) => {
                CreationProgress::Pending(
                    self.at(CreationStage::SubAllocator { device_memory, mapped_ptr }),
                )
            },
            (CreationStage::Mapping { device_memory }, _) => CreationProgress::Pending(
                self.at(CreationStage::Release { device_memory }),
            ),
            (CreationStage::Release { .. }, _) => CreationProgress::Failed(
                AllocationError::FailedToMap,
            ),
            (
                CreationStage::SubAllocator { device_memory, mapped_ptr },
                Reply::SubAllocatorCreated(sub_allocator),
            ) => CreationProgress::Created(
                MemoryBlock { device_memory, size: self.size, mapped_ptr, sub_allocator },
            ),
            _ => CreationProgress::Failed(AllocationError::OutOfMemory),
        }
    }

    /// What the creation waits for.
    pub fn request(&self) -> (request: Request<'static>)
        ensures
            request == self.awaits(),
    {
        match self.stage {
            CreationStage::Memory => Request::AllocateMemory {
                allocation_size: self.size,
                memory_type_index: self.memory_type_index,
            },
            CreationStage::Mapping { device_memory } => Request::MapMemory {
                device_memory,
                offset: 0,
                size: whole_size(),
            },
            CreationStage::Release { device_memory } => Request::FreeMemory { device_memory },
            CreationStage::SubAllocator { .. } => Request::CreateSubAllocator {
                size: self.size,
                dedicated: self.dedicated,
            },
        }
    }

    /// Goes on with what came of the request.
    pub fn resume<S>(self, reply: Reply<S>) -> (progress: CreationProgress<S>)
        requires
            self.admits(reply),
        ensures
            progress == self.after(reply),
    {
        match (self.stage, reply) {
            (CreationStage::Memory, Reply::MemoryAllocated(Some(device_memory))) => {
                if self.mapped {
                    CreationProgress::Pending(
                        BlockCreation { stage: CreationStage::Mapping { device_memory }, ..self },
                    )
                } else {
                    CreationProgress::Pending(
                        BlockCreation {
                            stage: CreationStage::SubAllocator { device_memory, mapped_ptr: 0 },
                            ..self
                        },
                    )
                }
            },
            (CreationStage::Mapping { device_memory }, Reply::MemoryMapped(Some(mapped_ptr))) => {
                CreationProgress::Pending(
                    BlockCreation {
                        stage: CreationStage::SubAllocator { device_memory, mapped_ptr },
                        ..self
                    },
                )
            },
            (CreationStage::Mapping { device_memory }, _) => CreationProgress::Pending(
                BlockCreation { stage: CreationStage::Release { device_memory }, ..self },
            ),
            (CreationStage::Release { .. }, _) => CreationProgress::Failed(
                AllocationError::FailedToMap,
            ),
            (
                CreationStage::SubAllocator { device_memory, mapped_ptr },
                Reply::SubAllocatorCreated(sub_allocator),
            ) => CreationProgress::Created(
                MemoryBlock { device_memory, size: self.size, mapped_ptr, sub_allocator },
            ),
            _ => CreationProgress::Failed(AllocationError::OutOfMemory),
        }
    }
}

impl<S> MemoryBlock<S> {
    /// Begins the creation of a memory block.
    pub fn new(size: u64, mem_type_index: usize, mapped: bool, dedicated: bool) -> (creation:
        BlockCreation)
        ensures
            creation == (BlockCreation {
                size,
                memory_type_index: mem_type_index as u32,
                mapped,
                dedicated,
                stage: CreationStage::Memory,
            }),
    {
        BlockCreation {
            size,
            memory_type_index: #[verifier::truncate]
            (mem_type_index as u32),
            mapped,
            dedicated,
            stage: CreationStage::Memory,
        }
    }

    /// The calls that return the memory of the block to the device.
    pub open spec fn teardown(self) -> Seq<DeviceCall> {
        let device_memory = self.device_memory;
        if self.mapped_ptr != 0 {
            seq![DeviceCall::UnmapMemory { device_memory }, DeviceCall::FreeMemory { device_memory }]
        } else {
            seq![DeviceCall::FreeMemory { device_memory }]
        }
    }

    /// Takes the block apart, and appends to `calls` what is to be done on the device.
    pub fn destroy(self, calls: &mut Vec<DeviceCall>)
        ensures
            final(calls)@ == old(calls)@ + self.teardown(),
    {
        let device_memory = self.device_memory;
        if self.mapped_ptr != 0 {
            calls.push(DeviceCall::UnmapMemory { device_memory });
        }
        calls.push(DeviceCall::FreeMemory { device_memory });
    }
}

} // verus!
