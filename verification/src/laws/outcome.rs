use vstd::prelude::*;

use crate::allocator::{required_flags, Allocation, AllocatorModel};
use crate::flags::{HOST_COHERENT, HOST_VISIBLE};
use crate::laws::selection::selection_is_compatible;
use crate::error::AllocationError;
use crate::memory_block::{BlockCreation, CreationProgress, CreationStage, MemoryBlock};
use crate::memory_type::AllocationStage;
use crate::progress::{FreeProgress, ProgressModel};
use crate::protocol::{Reply, Request};
use crate::search::{lemma_first_none, lemma_last_none};
use crate::sub_allocation::{borrowed_text, SubAllocation};
use crate::types::{AllocationCreateDesc, AllocationType};

verus! {

/// The creation of a block fails for want of memory if the device gives none, and for want
/// of a mapping if one was asked for and refused, after the memory was freed again.
/// Otherwise it comes to a block of the asked size on the memory that the device gave,
/// mapped if that was asked for.
pub proof fn block_creation_outcome<S>(
    creation: BlockCreation,
    memory: Option<u64>,
    mapping: Option<u64>,
    sub_allocator: S,
)
    requires
        creation.stage is Memory,
    ensures
        match (memory, creation.after::<S>(Reply::MemoryAllocated(memory))) {
            (None, CreationProgress::Failed(error)) => error is OutOfMemory,
            (Some(device_memory), CreationProgress::Pending(pending)) => if creation.mapped {
                &&& pending.awaits() == (Request::MapMemory {
                    device_memory,
                    offset: 0,
                    size: u64::MAX,
                })
                &&& match (mapping, pending.after::<S>(Reply::MemoryMapped(mapping))) {
                    (None, CreationProgress::Pending(pending)) => {
                        &&& pending.awaits() == (Request::FreeMemory { device_memory })
                        &&& pending.after::<S>(Reply::MemoryFreed) == CreationProgress::<S>::Failed(
                            AllocationError::FailedToMap,
                        )
                    },
                    (Some(mapped_ptr), CreationProgress::Pending(pending)) => pending.after(
                        Reply::SubAllocatorCreated(sub_allocator),
                    ) == CreationProgress::Created(
                        MemoryBlock { device_memory, size: creation.size, mapped_ptr, sub_allocator },
                    ),
                    _ => false,
                }
            } else {
                pending.after(Reply::SubAllocatorCreated(sub_allocator))
                    == CreationProgress::Created(
                    MemoryBlock {
                        device_memory,
                        size: creation.size,
                        mapped_ptr: 0,
                        sub_allocator,
                    },
                )
            },
            _ => false,
        },
{
}

/// How far an attempt is from its end.
pub open spec fn distance(stage: AllocationStage) -> nat {
    match stage {
        AllocationStage::Search { memory_block_index } => (memory_block_index + 6) as nat,
        AllocationStage::Create(creation) => match creation.stage {
            CreationStage::Memory => 5,
            CreationStage::Mapping { .. } => 4,
            CreationStage::Release { .. } => 2,
            CreationStage::SubAllocator { .. } => 3,
        },
        AllocationStage::Fill { .. } => 1,
    }
}

/// An allocation ends: each reply ends it, or brings the attempt closer to its end, or
/// starts the one second attempt.
pub proof fn allocation_ends<'a, S>(
    allocator: AllocatorModel<S>,
    allocation: Allocation<'a>,
    reply: Reply<S>,
)
    requires
        allocator.wf(),
        allocation.fits(allocator),
        allocation.admits(allocator, reply),
    ensures
        allocation.after(allocator, reply) matches ProgressModel::Pending(pending) ==> {
            ||| !allocation.retried && pending.retried
            ||| allocation.retried == pending.retried && distance(pending.attempt.stage)
                < distance(allocation.attempt.stage)
        },
{
    let on = allocation.on(allocator);
    match allocation.attempt.stage {
        AllocationStage::Search { memory_block_index } => {
            lemma_last_none(on.occupancy(memory_block_index as int));
        },
        _ => {},
    }
}

/// An allocation succeeds exactly when a sub-allocator gives a part of its block.
pub proof fn success_comes_from_a_sub_allocator<'a, S>(
    allocator: AllocatorModel<S>,
    allocation: Allocation<'a>,
    reply: Reply<S>,
)
    requires
        allocation.fits(allocator),
        allocation.admits(allocator, reply),
    ensures
        allocation.after(allocator, reply) is Allocated <==> (reply matches Reply::SubAllocated(
            given,
        ) && given is Ok),
{
}

/// A finished allocation gives what was asked for: a part of the asked size, at the offset
/// that the sub-allocator chose, with the name and the backtrace it was given, in a block that
/// is live and that the sub-allocation names by its memory object. The memory is of the type
/// that the attempt was made on, which can serve the request and has the flags that the
/// location requires. The sub-allocation is not null, and it can be handed back.
pub proof fn allocated_part_of_a_live_block<'a, S>(
    allocator: AllocatorModel<S>,
    allocation: Allocation<'a>,
    reply: Reply<S>,
    sub_allocation: SubAllocation,
    progress: FreeProgress,
)
    requires
        allocator.wf(),
        allocation.fits(allocator),
        allocation.admits(allocator, reply),
        allocation.after(allocator, reply) == ProgressModel::<Allocation<'a>>::Allocated(
            sub_allocation@,
        ),
        allocation.state_after(allocator, reply).frees(sub_allocation, progress),
    ensures
        ({
            let given = sub_allocation@;
            let after = allocation.state_after(allocator, reply);
            &&& given.size == allocation.desc.requirements.size
            &&& given.name == Some(allocation.desc.name@)
            &&& given.backtrace == borrowed_text(allocation.backtrace)
            &&& reply matches Reply::SubAllocated(Ok((offset, chunk_id))) && given.offset == offset
                && given.chunk_id == Some(chunk_id)
            &&& given.memory_type_index == allocation.attempt.memory_type_index
            &&& given.memory_type_index < after.memory_types.len()
            &&& after.memory_types[given.memory_type_index as int].compatible(
                allocation.desc.requirements,
                required_flags(allocation.desc.location),
            )
            &&& after.memory_types[given.memory_type_index as int].live(
                given.memory_block_index as int,
            )
            &&& given.device_memory == after.memory_types[given.memory_type_index as int].block(
                given.memory_block_index as int,
            ).device_memory
            &&& progress is Pending
        }),
{
}

/// Every attempt is made on a memory type that can serve the request and has the flags that
/// the location requires, from the beginning of an allocation and through every reply.
pub proof fn attempts_are_compatible<'a, S>(
    allocator: AllocatorModel<S>,
    desc: AllocationCreateDesc<'a>,
    backtrace: Option<&'a str>,
    allocation: Allocation<'a>,
    reply: Reply<S>,
)
    requires
        allocator.wf(),
        allocation.fits(allocator),
        allocation.admits(allocator, reply),
    ensures
        allocator.begun(desc, backtrace) matches ProgressModel::Pending(pending) ==> pending.on(
            allocator,
        ).compatible(desc.requirements, required_flags(desc.location)),
        ({
            let after = allocation.state_after(allocator, reply);
            allocation.after(allocator, reply) matches ProgressModel::Pending(pending) ==> {
                &&& pending.desc == allocation.desc
                &&& pending.on(after).compatible(
                    allocation.desc.requirements,
                    required_flags(allocation.desc.location),
                )
            }
        }),
{
    selection_is_compatible(allocator, desc.requirements, desc.location);
    let after = allocation.state_after(allocator, reply);
    lemma_first_none(
        after.compatibility(
            allocation.desc.requirements,
            HOST_VISIBLE | HOST_COHERENT,
        ),
    );
}

/// What an unfinished allocation asks for is what the request asks for. A sub-allocator is
/// asked only of a live block, and the device only for a general block, or for exactly what
/// was asked if that is larger.
pub proof fn requests_stay_true_to_the_description<'a, S>(
    allocator: AllocatorModel<S>,
    allocation: Allocation<'a>,
)
    requires
        allocator.wf(),
        allocation.fits(allocator),
    ensures
        match allocation.attempt.awaits() {
            Request::SubAllocate {
                memory_type_index,
                memory_block_index,
                size,
                alignment,
                allocation_type,
                granularity,
                name,
                backtrace,
            } => {
                &&& memory_type_index < allocator.memory_types.len()
                &&& allocator.memory_types[memory_type_index as int].live(
                    memory_block_index as int,
                )
                &&& size == allocation.desc.requirements.size
                &&& alignment == allocation.desc.requirements.alignment
                &&& allocation_type == (if allocation.desc.linear {
                    AllocationType::Linear
                } else {
                    AllocationType::NonLinear
                })
                &&& granularity == allocator.buffer_image_granularity
                &&& name == allocation.desc.name
                &&& backtrace == allocation.backtrace
            },
            Request::AllocateMemory { allocation_size, memory_type_index } => {
                &&& memory_type_index < allocator.memory_types.len()
                &&& allocation_size >= allocation.desc.requirements.size
                &&& allocation_size
                    >= allocator.memory_types[memory_type_index as int].memblock_size()
                &&& allocation_size == allocation.desc.requirements.size || allocation_size
                    == allocator.memory_types[memory_type_index as int].memblock_size()
            },
            Request::CreateSubAllocator { size, dedicated } => {
                &&& size >= allocation.desc.requirements.size
                &&& dedicated ==> size == allocation.desc.requirements.size
            },
            _ => true,
        },
{
    assert(allocation.on(allocator).memory_type_index == allocation.attempt.memory_type_index);
}

} // verus!
