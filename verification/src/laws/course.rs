use vstd::prelude::*;

use crate::allocator::{required_flags, Allocation, AllocatorModel};
use crate::error::{AllocationError, ErrorModel};
use crate::laws::choice::{
    bit, compatibility_is_bits, indexed, lemma_bit, lemma_location_flags, usable,
};
use crate::memory_block::{BlockCreation, CreationStage, MemoryBlock};
use crate::memory_type::{AllocationStage, MemoryTypeModel, TypeAllocation};
use crate::progress::ProgressModel;
use crate::protocol::{Reply, Request};
use crate::search::{lemma_first_none, lemma_last_none};
use crate::sub_allocation::{ChunkId, SubAllocationModel};
use crate::types::AllocationCreateDesc;

verus! {

/// Size of a general block: 64 MiB of memory that is visible to the host (bit 1), 256 MiB of
/// any other.
pub open spec fn general_size(properties: u32) -> int {
    if bit(properties, 1) {
        64 * 1024 * 1024int
    } else {
        256 * 1024 * 1024int
    }
}

/// `creation` is the beginning of a block of `size` bytes of memory type `on`.
pub open spec fn creates<S>(
    on: MemoryTypeModel<S>,
    creation: BlockCreation,
    size: int,
    dedicated: bool,
) -> bool {
    &&& creation.size == size
    &&& creation.dedicated == dedicated
    &&& creation.memory_type_index == on.memory_type_index
    &&& creation.mapped == on.mappable
    &&& creation.stage == CreationStage::Memory
}

/// At `stage` the last block before slot `end` is asked, or a general block is created if
/// there is no block before that slot.
pub open spec fn looks_below<S>(on: MemoryTypeModel<S>, end: int, stage: AllocationStage) -> bool {
    match stage {
        AllocationStage::Search { memory_block_index } => {
            &&& memory_block_index < end
            &&& on.memory_blocks[memory_block_index as int] is Some
            &&& forall|j: int|
                memory_block_index < j < end ==> (#[trigger] on.memory_blocks[j]) is None
        },
        AllocationStage::Create(creation) => {
            &&& creates(on, creation, general_size(on.memory_properties), false)
            &&& forall|j: int| 0 <= j < end ==> (#[trigger] on.memory_blocks[j]) is None
        },
        AllocationStage::Fill { .. } => false,
    }
}

/// `stage` is where a request of `size` bytes starts: with a dedicated block if it is larger
/// than a general one, with the last block otherwise.
pub open spec fn starts_at<S>(on: MemoryTypeModel<S>, size: u64, stage: AllocationStage) -> bool {
    if size > general_size(on.memory_properties) {
        stage matches AllocationStage::Create(creation) && creates(on, creation, size as int, true)
    } else {
        looks_below(on, on.memory_blocks.len() as int, stage)
    }
}

/// An attempt that is begun starts where a request of its size starts.
pub(crate) proof fn lemma_starts<'a, S>(
    on: MemoryTypeModel<S>,
    desc: AllocationCreateDesc<'a>,
    granularity: u64,
    backtrace: Option<&'a str>,
)
    requires
        on.memory_type_index < 32,
        on.memory_blocks.len() <= usize::MAX,
    ensures
        starts_at(on, desc.requirements.size, on.begun(desc, granularity, backtrace).stage),
{
    general_blocks_have_one_size(on);
    lemma_looks_below(on, on.memory_blocks.len() as int);
}

/// All general blocks of a memory type have one size.
pub proof fn general_blocks_have_one_size<S>(on: MemoryTypeModel<S>)
    ensures
        on.memblock_size() == general_size(on.memory_properties),
{
    let p = on.memory_properties;
    lemma_bit(p, 1);
    assert((p & 2 == 2) == ((p >> 1) & 1 == 1)) by (bit_vector);
}

proof fn lemma_looks_below<S>(on: MemoryTypeModel<S>, end: int)
    requires
        on.memory_type_index < 32,
        0 <= end <= on.memory_blocks.len() <= usize::MAX,
    ensures
        looks_below(on, end, on.search_below(end)),
{
    general_blocks_have_one_size(on);
    let marks = on.occupancy(end);
    lemma_last_none(marks);
    assert forall|j: int| 0 <= j < end implies (#[trigger] on.memory_blocks[j]) is Some
        == marks[j] by {}
}

/// Two attempts ask for the same, at whatever stage.
pub open spec fn same_request<'a>(a: TypeAllocation<'a>, b: TypeAllocation<'a>) -> bool {
    &&& a.memory_type_index == b.memory_type_index
    &&& a.size == b.size
    &&& a.alignment == b.alignment
    &&& a.allocation_type == b.allocation_type
    &&& a.granularity == b.granularity
    &&& a.name == b.name
    &&& a.backtrace == b.backtrace
}

/// `request` asks the sub-allocator in slot `j` for what `attempt` is made for.
pub open spec fn asks_block<'a>(request: Request<'a>, attempt: TypeAllocation<'a>, j: int) -> bool {
    match request {
        Request::SubAllocate {
            memory_type_index,
            memory_block_index,
            size,
            alignment,
            allocation_type,
            granularity,
            name,
            backtrace,
        } => {
            &&& memory_type_index == attempt.memory_type_index
            &&& memory_block_index == j
            &&& size == attempt.size
            &&& alignment == attempt.alignment
            &&& allocation_type == attempt.allocation_type
            &&& granularity == attempt.granularity
            &&& name == attempt.name
            &&& backtrace == attempt.backtrace
        },
        _ => false,
    }
}

/// Two memory types are one in all but their slots and the counter of their general blocks.
pub open spec fn same_type<S>(a: MemoryTypeModel<S>, b: MemoryTypeModel<S>) -> bool {
    &&& a.memory_properties == b.memory_properties
    &&& a.memory_type_index == b.memory_type_index
    &&& a.heap_index == b.heap_index
    &&& a.mappable == b.mappable
}

/// Two memory types are one in all respects.
pub open spec fn unchanged<S>(a: MemoryTypeModel<S>, b: MemoryTypeModel<S>) -> bool {
    &&& same_type(a, b)
    &&& a.active_general_blocks == b.active_general_blocks
    &&& a.memory_blocks == b.memory_blocks
}

/// `after` is `on` with one more block, in slot `j`: the lowest vacant one for a dedicated
/// block, the highest vacant one for a general block, or a new one if none is vacant.
pub open spec fn gains_block<S>(
    on: MemoryTypeModel<S>,
    after: MemoryTypeModel<S>,
    j: int,
    block: MemoryBlock<S>,
    dedicated: bool,
) -> bool {
    let before = on.memory_blocks;
    &&& same_type(after, on)
    &&& after.active_general_blocks == on.active_general_blocks + if dedicated {
        0int
    } else {
        1int
    }
    &&& after.memory_blocks.len() == if j < before.len() {
        before.len()
    } else {
        before.len() + 1
    }
    &&& 0 <= j < after.memory_blocks.len()
    &&& after.memory_blocks[j] == Some(block)
    &&& forall|k: int|
        0 <= k < before.len() && k != j ==> (#[trigger] after.memory_blocks[k]) == before[k]
    &&& if j < before.len() {
        &&& before[j] is None
        &&& dedicated ==> forall|k: int| 0 <= k < j ==> (#[trigger] before[k]) is Some
        &&& !dedicated ==> forall|k: int| j < k < before.len() ==> (#[trigger] before[k]) is Some
    } else {
        forall|k: int| 0 <= k < before.len() ==> (#[trigger] before[k]) is Some
    }
}

/// The attempt waits for the sub-allocator of a block on the memory object `device_memory`,
/// mapped at `mapped_ptr`. Once it has `sub_allocator`, the block is there, and is asked first
/// of all.
pub open spec fn finishes_block<'a, S>(
    on: MemoryTypeModel<S>,
    attempt: TypeAllocation<'a>,
    size: u64,
    dedicated: bool,
    device_memory: u64,
    mapped_ptr: u64,
    sub_allocator: S,
) -> bool {
    let reply = Reply::SubAllocatorCreated(sub_allocator);
    &&& attempt.awaits() == (Request::CreateSubAllocator { size, dedicated })
    &&& attempt.after(on, reply) matches ProgressModel::Pending(next) && {
        &&& same_request(next, attempt)
        &&& next.stage matches AllocationStage::Fill { memory_block_index, dedicated: filled } && {
            &&& filled == dedicated
            &&& gains_block(
                on,
                attempt.state_after(on, reply),
                memory_block_index as int,
                MemoryBlock { device_memory, size, mapped_ptr, sub_allocator },
                dedicated,
            )
            &&& asks_block(next.awaits(), attempt, memory_block_index as int)
        }
    }
}

/// A block is made of what the device grants. First memory is asked for, of the size and the
/// memory type of the block; without memory the attempt fails. Memory that is to be mapped is
/// mapped whole; without a mapping just that memory is freed again, and the attempt fails.
/// Then the block is finished on that memory, with that mapping.
pub proof fn block_is_made_of_what_is_granted<'a, S>(
    on: MemoryTypeModel<S>,
    attempt: TypeAllocation<'a>,
    creation: BlockCreation,
    memory: Option<u64>,
    mapping: Option<u64>,
    sub_allocator: S,
)
    requires
        attempt.stage == AllocationStage::Create(creation),
        creation.stage == CreationStage::Memory,
        on.memory_blocks.len() < usize::MAX,
        creation.dedicated || on.active_general_blocks < usize::MAX,
    ensures
        attempt.awaits() == (Request::AllocateMemory {
            allocation_size: creation.size,
            memory_type_index: creation.memory_type_index,
        }),
        ({
            let (size, dedicated) = (creation.size, creation.dedicated);
            let granted = Reply::<S>::MemoryAllocated(memory);
            let mapped = Reply::<S>::MemoryMapped(mapping);
            &&& unchanged(attempt.state_after(on, granted), on)
            &&& match (memory, attempt.after(on, granted)) {
                (None, ProgressModel::Failed(error)) => error is OutOfMemory,
                (Some(device_memory), ProgressModel::Pending(next)) => {
                    &&& same_request(next, attempt)
                    &&& if creation.mapped {
                        &&& next.awaits() == (Request::MapMemory {
                            device_memory,
                            offset: 0,
                            size: u64::MAX,
                        })
                        &&& unchanged(next.state_after(on, mapped), on)
                        &&& match (mapping, next.after(on, mapped)) {
                            (None, ProgressModel::Pending(last)) => {
                                &&& same_request(last, attempt)
                                &&& last.awaits() == (Request::FreeMemory { device_memory })
                                &&& unchanged(last.state_after(on, Reply::MemoryFreed), on)
                                &&& last.after(on, Reply::MemoryFreed) matches ProgressModel::Failed(
                                    error,
                                ) && error is FailedToMap
                            },
                            (Some(mapped_ptr), ProgressModel::Pending(last)) => {
                                &&& same_request(last, attempt)
                                &&& finishes_block(
                                    on,
                                    last,
                                    size,
                                    dedicated,
                                    device_memory,
                                    mapped_ptr,
                                    sub_allocator,
                                )
                            },
                            _ => false,
                        }
                    } else {
                        finishes_block(on, next, size, dedicated, device_memory, 0, sub_allocator)
                    }
                },
                _ => false,
            }
        }),
{
    let block = |h: u64, p: u64|
        MemoryBlock { device_memory: h, size: creation.size, mapped_ptr: p, sub_allocator };
    assert forall|h: u64, p: u64| gains_block(
        on,
        on.with_block(#[trigger] block(h, p), creation.dedicated),
        on.slot_for(creation.dedicated),
        block(h, p),
        creation.dedicated,
    ) && on.slot_for(creation.dedicated) <= on.memory_blocks.len() by {
        lemma_gains_block(on, block(h, p), creation.dedicated);
    }
    let handle = memory->0;
    let address = if creation.mapped { mapping->0 } else { 0 };
    assert(block(handle, address) == (MemoryBlock {
        device_memory: handle,
        size: creation.size,
        mapped_ptr: address,
        sub_allocator,
    }));
}

/// What `given` says is true: it is the part at `offset` of the block in slot `j`, for what
/// `attempt` was made for. Its address is that of the block if the block is given whole, and
/// `offset` further on otherwise; without a mapping it has none.
pub open spec fn is_part<'a, S>(
    given: SubAllocationModel,
    attempt: TypeAllocation<'a>,
    j: int,
    block: MemoryBlock<S>,
    whole: bool,
    offset: u64,
    chunk_id: ChunkId,
) -> bool {
    &&& given.chunk_id == Some(chunk_id)
    &&& given.memory_type_index == attempt.memory_type_index
    &&& given.memory_block_index == j
    &&& given.device_memory == block.device_memory
    &&& given.offset == offset
    &&& given.size == attempt.size
    &&& given.name == Some(attempt.name@)
    &&& match attempt.backtrace {
        Some(backtrace) => given.backtrace == Some(backtrace@),
        None => given.backtrace is None,
    }
    &&& match given.mapped_ptr {
        Some(address) => {
            &&& block.mapped_ptr != 0
            &&& address == block.mapped_ptr + if whole {
                0
            } else {
                offset as int
            }
        },
        None => block.mapped_ptr == 0,
    }
}

/// The error of a sub-allocator, as it is passed on.
pub open spec fn tells(error: AllocationError, told: ErrorModel) -> bool {
    match error {
        AllocationError::OutOfMemory => told is OutOfMemory,
        AllocationError::FailedToMap => told is FailedToMap,
        AllocationError::NoCompatibleMemoryTypeFound => told is NoCompatibleMemoryTypeFound,
        AllocationError::InvalidAllocationCreateDesc => told is InvalidAllocationCreateDesc,
        AllocationError::Internal(message) => told == ErrorModel::Internal(message@),
    }
}

/// While a request is put to the existing blocks, one that gives a part ends the search with
/// that part. One that has no room is passed over for the last block before it, and a general
/// block is created when no block is left. Any other error ends the attempt. The memory type
/// stays as it is.
pub proof fn block_that_is_asked_decides<'a, S>(
    on: MemoryTypeModel<S>,
    attempt: TypeAllocation<'a>,
    j: usize,
    answer: Result<(u64, ChunkId), AllocationError>,
)
    requires
        attempt.stage == (AllocationStage::Search { memory_block_index: j }),
        j < on.memory_blocks.len() <= usize::MAX,
        on.memory_type_index < 32,
        on.memory_blocks[j as int] matches Some(block) && (answer matches Ok((offset, _))
            ==> block.mapped_ptr + offset <= u64::MAX),
    ensures
        asks_block(attempt.awaits(), attempt, j as int),
        unchanged(attempt.state_after(on, Reply::SubAllocated(answer)), on),
        match (answer, attempt.after(on, Reply::SubAllocated(answer))) {
            (Ok((offset, chunk_id)), ProgressModel::Allocated(given)) => is_part(
                given,
                attempt,
                j as int,
                on.memory_blocks[j as int]->0,
                false,
                offset,
                chunk_id,
            ),
            (Err(AllocationError::OutOfMemory), ProgressModel::Pending(next)) => {
                &&& same_request(next, attempt)
                &&& looks_below(on, j as int, next.stage)
            },
            (Err(error), ProgressModel::Failed(told)) => !(error is OutOfMemory) && tells(
                error,
                told,
            ),
            _ => false,
        },
{
    lemma_looks_below(on, j as int);
}

/// The block that was created for a request gives the part that the request comes to, whole
/// if it is dedicated. If it gives none, the attempt fails with its error; of a general block
/// that has no room, which has no business to be full, that is told as an internal one. The
/// memory type stays as it is.
pub proof fn new_block_decides<'a, S>(
    on: MemoryTypeModel<S>,
    attempt: TypeAllocation<'a>,
    j: usize,
    dedicated: bool,
    answer: Result<(u64, ChunkId), AllocationError>,
)
    requires
        attempt.stage == (AllocationStage::Fill { memory_block_index: j, dedicated }),
        on.memory_blocks[j as int] matches Some(block) && (answer matches Ok((offset, _))
            ==> dedicated || block.mapped_ptr + offset <= u64::MAX),
    ensures
        asks_block(attempt.awaits(), attempt, j as int),
        unchanged(attempt.state_after(on, Reply::SubAllocated(answer)), on),
        match (answer, attempt.after(on, Reply::SubAllocated(answer))) {
            (Ok((offset, chunk_id)), ProgressModel::Allocated(given)) => is_part(
                given,
                attempt,
                j as int,
                on.memory_blocks[j as int]->0,
                dedicated,
                offset,
                chunk_id,
            ),
            (Err(error), ProgressModel::Failed(told)) => if error is OutOfMemory && !dedicated {
                told == ErrorModel::Internal(
                    "Allocation that must succeed failed. This is a bug in the allocator."@,
                )
            } else {
                tells(error, told)
            },
            _ => false,
        },
{
}

/// An allocation comes to what its attempt comes to, but for a failed first attempt of an
/// upload. No memory type but the one of the attempt changes, and that one as the attempt
/// changes it. A reply answers the allocation if it answers the attempt.
pub proof fn attempt_decides<'a, S>(
    allocator: AllocatorModel<S>,
    allocation: Allocation<'a>,
    reply: Reply<S>,
)
    requires
        allocation.attempt.memory_type_index < allocator.memory_types.len(),
    ensures
        ({
            let t = allocation.attempt.memory_type_index as int;
            let on = allocator.memory_types[t];
            let after = allocation.state_after(allocator, reply);
            &&& allocation.admits(allocator, reply) <==> allocation.attempt.admits(on, reply)
            &&& after.buffer_image_granularity == allocator.buffer_image_granularity
            &&& after.debug_settings == allocator.debug_settings
            &&& after.memory_types.len() == allocator.memory_types.len()
            &&& after.memory_types[t] == allocation.attempt.state_after(on, reply)
            &&& forall|i: int|
                0 <= i < allocator.memory_types.len() && i != t
                    ==> (#[trigger] after.memory_types[i]) == allocator.memory_types[i]
            &&& match (
                allocation.attempt.after(on, reply),
                allocation.after(allocator, reply),
            ) {
                (ProgressModel::Pending(attempt), ProgressModel::Pending(pending)) => {
                    &&& pending.attempt == attempt
                    &&& pending.desc == allocation.desc
                    &&& pending.backtrace == allocation.backtrace
                    &&& pending.retried == allocation.retried
                },
                (ProgressModel::Allocated(part), ProgressModel::Allocated(given)) => part == given,
                (ProgressModel::Failed(error), ProgressModel::Failed(told)) => {
                    allocation.desc.location is CpuToGpu && !allocation.retried || error == told
                },
                (ProgressModel::Failed(_), ProgressModel::Pending(_)) => {
                    allocation.desc.location is CpuToGpu && !allocation.retried
                },
                _ => false,
            }
        }),
{
}

/// What an allocation waits for follows from what was described and the memory type that the
/// attempt is made on, which is one that the request allows and that is good enough. Memory
/// is asked for of that very type: as much as a general block has, or just what was described
/// if that is more. It is mapped, or freed again for want of a mapping, only if that type is
/// mapped. A sub-allocator is asked of a block that is there, for what was described.
pub proof fn requests_are_of_the_attempts_type<'a, S>(
    allocator: AllocatorModel<S>,
    allocation: Allocation<'a>,
)
    requires
        indexed(allocator.memory_types),
        allocation.fits(allocator),
    ensures
        ({
            let t = allocation.attempt.memory_type_index as int;
            let on = allocator.memory_types[t];
            let asked = allocation.desc.requirements.size;
            let general = general_size(on.memory_properties);
            &&& usable(
                allocator.memory_types,
                allocation.desc.requirements,
                allocation.desc.location,
                t,
            )
            &&& match allocation.attempt.awaits() {
                Request::AllocateMemory { allocation_size, memory_type_index } => {
                    &&& memory_type_index == t
                    &&& allocation_size == if asked > general {
                        asked as int
                    } else {
                        general
                    }
                },
                Request::MapMemory { offset, size, .. } => on.mappable && offset == 0 && size
                    == u64::MAX,
                Request::FreeMemory { .. } => on.mappable,
                Request::CreateSubAllocator { size, dedicated } => {
                    &&& dedicated <==> asked > general
                    &&& size == if asked > general {
                        asked as int
                    } else {
                        general
                    }
                },
                Request::SubAllocate {
                    memory_type_index,
                    memory_block_index,
                    size,
                    alignment,
                    allocation_type,
                    granularity,
                    name,
                    backtrace,
                } => {
                    &&& memory_type_index == t
                    &&& memory_block_index < on.memory_blocks.len()
                    &&& on.memory_blocks[memory_block_index as int] is Some
                    &&& size == asked
                    &&& alignment == allocation.desc.requirements.alignment
                    &&& allocation_type is Linear <==> allocation.desc.linear
                    &&& granularity == allocator.buffer_image_granularity
                    &&& name == allocation.desc.name
                    &&& backtrace == allocation.backtrace
                },
            }
        }),
{
    let on = allocator.memory_types[allocation.attempt.memory_type_index as int];
    general_blocks_have_one_size(on);
    lemma_location_flags(on.memory_properties, allocation.desc.location);
    compatibility_is_bits(
        on,
        allocation.desc.requirements,
        required_flags(allocation.desc.location),
    );
}

/// Whatever the device replies to a request can be handed over, and so can whatever a
/// sub-allocator replies, if a part of mapped memory has an address. Of a new sub-allocator
/// only the number of general blocks is asked: it must still fit its counter.
pub proof fn every_answer_is_taken<'a, S>(
    on: MemoryTypeModel<S>,
    attempt: TypeAllocation<'a>,
    memory: Option<u64>,
    mapping: Option<u64>,
    sub_allocator: S,
    answer: Result<(u64, ChunkId), AllocationError>,
)
    ensures
        attempt.awaits() is AllocateMemory ==> attempt.admits(on, Reply::MemoryAllocated(memory)),
        attempt.awaits() is MapMemory ==> attempt.admits(on, Reply::MemoryMapped(mapping)),
        attempt.awaits() is FreeMemory ==> attempt.admits(on, Reply::MemoryFreed),
        attempt.awaits() matches Request::CreateSubAllocator { dedicated, .. } ==> (dedicated
            || on.active_general_blocks < usize::MAX) ==> attempt.admits(
            on,
            Reply::SubAllocatorCreated(sub_allocator),
        ),
        attempt.awaits() matches Request::SubAllocate { memory_block_index, .. } ==> {
            let block = on.memory_blocks[memory_block_index as int]->0;
            (answer matches Ok((offset, _)) ==> block.mapped_ptr == 0 || block.mapped_ptr + offset
                <= u64::MAX) ==> attempt.admits(on, Reply::SubAllocated(answer))
        },
{
}

/// A new block goes to its slot.
proof fn lemma_gains_block<S>(on: MemoryTypeModel<S>, block: MemoryBlock<S>, dedicated: bool)
    requires
        dedicated || on.active_general_blocks < usize::MAX,
    ensures
        gains_block(
            on,
            on.with_block(block, dedicated),
            on.slot_for(dedicated),
            block,
            dedicated,
        ),
        on.slot_for(dedicated) <= on.memory_blocks.len(),
{
    let marks = on.vacancies();
    lemma_first_none(marks);
    lemma_last_none(marks);
    assert forall|i: int| 0 <= i < on.memory_blocks.len() implies (
    #[trigger] on.memory_blocks[i]) is Some == !marks[i] by {}
}

} // verus!
