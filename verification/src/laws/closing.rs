use log::Level;
use vstd::prelude::*;

use crate::allocator::{teardown_of_types, AllocatorModel, LeakReport};
use crate::error::{AllocationError, ErrorModel};
use crate::laws::course::{same_type, tells, unchanged};
use crate::laws::custody::{fair_life, what_is_out_is_there};
use crate::laws::life::{born, livable, lived, Event, Life};
use crate::memory_block::MemoryBlock;
use crate::memory_type::{teardown_of, MemoryTypeModel};
use crate::progress::{FreeProgress, Progress, ProgressModel};
use crate::protocol::{DeviceCall, FreeReply};
use crate::sub_allocation::{non_null_spec, SubAllocation, SubAllocationModel};
use crate::types::PhysicalDeviceMemoryProperties;

verus! {

/// The block in slot `j` of memory type `i`, if there is one.
pub open spec fn block_at<S>(
    types: Seq<MemoryTypeModel<S>>,
    i: int,
    j: int,
) -> Option<MemoryBlock<S>> {
    if 0 <= i < types.len() && 0 <= j < types[i].memory_blocks.len() {
        types[i].memory_blocks[j]
    } else {
        None
    }
}

/// A sub-allocation that stands for nothing is freed at once. Any other is to be handed back
/// to the sub-allocator of the very block that it names, in the memory type that it names; if
/// there is no block in that slot, that is an error.
pub proof fn free_goes_to_the_named_block<S>(
    allocator: AllocatorModel<S>,
    sub_allocation: SubAllocation,
    progress: FreeProgress,
)
    requires
        allocator.frees(sub_allocation, progress),
        sub_allocation@.chunk_id is Some ==> sub_allocation@.memory_type_index
            < allocator.memory_types.len(),
    ensures
        ({
            let given = sub_allocation@;
            let block = block_at(
                allocator.memory_types,
                given.memory_type_index as int,
                given.memory_block_index as int,
            );
            match progress {
                FreeProgress::Pending(pending) => {
                    &&& given.chunk_id is Some
                    &&& block is Some
                    &&& pending.memory_type_index == given.memory_type_index
                    &&& pending.memory_block_index == given.memory_block_index
                    &&& pending.sub_allocation == sub_allocation
                },
                FreeProgress::Done(Ok(())) => given.chunk_id is None,
                FreeProgress::Done(Err(error)) => {
                    &&& given.chunk_id is Some
                    &&& block is None
                    &&& tells(error, ErrorModel::Internal("Memory block must be Some."@))
                },
            }
        }),
{
}

/// Whatever is out is handed back to the sub-allocator of a block on its own memory object.
pub proof fn free_goes_to_the_memory_it_came_from<'a, S>(
    life: Life<'a, S>,
    events: Seq<Event<'a, S>>,
    sub_allocation: SubAllocation,
    progress: FreeProgress,
)
    requires
        born(life),
        livable(life, events),
        fair_life(life, events),
        lived(life, events).out.contains(sub_allocation@),
        lived(life, events).allocator.frees(sub_allocation, progress),
    ensures
        progress matches FreeProgress::Pending(pending) && {
            &&& pending.sub_allocation == sub_allocation
            &&& block_at(
                lived(life, events).allocator.memory_types,
                pending.memory_type_index as int,
                pending.memory_block_index as int,
            ) matches Some(block) && block.device_memory == sub_allocation@.device_memory
        },
{
    what_is_out_is_there(life, events, sub_allocation@);
    free_goes_to_the_named_block(lived(life, events).allocator, sub_allocation, progress);
}

/// A sub-allocator changes for its own block only: nothing else of any memory type does.
pub proof fn one_sub_allocator_changes<S>(
    allocator: AllocatorModel<S>,
    i: int,
    j: int,
    sub_allocator: S,
)
    requires
        block_at(allocator.memory_types, i, j) is Some,
    ensures
        ({
            let before = allocator.memory_types;
            let after = allocator.with_sub_allocator(i, j, sub_allocator).memory_types;
            &&& after.len() == before.len()
            &&& forall|k: int|
                0 <= k < before.len() && k != i ==> (#[trigger] after[k]) == before[k]
            &&& same_type(after[i], before[i])
            &&& after[i].active_general_blocks == before[i].active_general_blocks
            &&& after[i].memory_blocks.len() == before[i].memory_blocks.len()
            &&& forall|k: int|
                0 <= k < before[i].memory_blocks.len() && k != j ==> (
                #[trigger] after[i].memory_blocks[k]) == before[i].memory_blocks[k]
            &&& block_at(after, i, j) matches Some(block) && {
                let was = block_at(before, i, j)->0;
                &&& block.sub_allocator == sub_allocator
                &&& block.device_memory == was.device_memory
                &&& block.size == was.size
                &&& block.mapped_ptr == was.mapped_ptr
            }
            &&& allocator.memory_types[i].live(j)
            &&& allocator.memory_types[i].block(j) == block_at(before, i, j)->0
            &&& allocator.with_sub_allocator(i, j, sub_allocator).buffer_image_granularity
                == allocator.buffer_image_granularity
            &&& allocator.with_sub_allocator(i, j, sub_allocator).debug_settings
                == allocator.debug_settings
        }),
{
}

/// A slot is live exactly if there is a block in it.
pub proof fn live_slots_have_blocks<S>(on: MemoryTypeModel<S>, j: int)
    ensures
        on.live(j) <==> 0 <= j < on.memory_blocks.len() && on.memory_blocks[j] is Some,
        on.live(j) ==> on.memory_blocks[j] == Some(on.block(j)),
{
}

/// `calls` return the memory of `block` to the device: they undo its mapping, if it has one,
/// and free it then.
pub open spec fn returns_memory<S>(calls: Seq<DeviceCall>, block: MemoryBlock<S>) -> bool {
    let device_memory = block.device_memory;
    if block.mapped_ptr == 0 {
        calls.len() == 1 && calls[0] == DeviceCall::FreeMemory { device_memory }
    } else {
        &&& calls.len() == 2
        &&& calls[0] == DeviceCall::UnmapMemory { device_memory }
        &&& calls[1] == DeviceCall::FreeMemory { device_memory }
    }
}

/// A free that the sub-allocator refuses is an error, with its reason. A block that is still
/// in use stays. One that is empty goes, and its memory with it, unless it is the last general
/// one: then it stays, and nothing is done on the device. No other block is touched.
pub proof fn empty_block_goes_unless_it_is_the_last<S>(
    on: MemoryTypeModel<S>,
    j: int,
    reply: FreeReply,
)
    requires
        0 <= j < on.memory_blocks.len(),
        on.memory_blocks[j] is Some,
    ensures
        ({
            let after = on.after_free(j, reply);
            let outcome = on.free_outcome(j, reply);
            match reply {
                FreeReply::Refused(error) => {
                    &&& unchanged(after, on)
                    &&& outcome matches Err(told) && tells(error, told)
                },
                FreeReply::InUse => {
                    &&& unchanged(after, on)
                    &&& outcome matches Ok(calls) && calls.len() == 0
                },
                FreeReply::Empty { general } => if general && on.active_general_blocks <= 1 {
                    &&& unchanged(after, on)
                    &&& outcome matches Ok(calls) && calls.len() == 0
                } else {
                    &&& same_type(after, on)
                    &&& after.active_general_blocks == on.active_general_blocks - if general {
                        1int
                    } else {
                        0int
                    }
                    &&& after.memory_blocks.len() == on.memory_blocks.len()
                    &&& after.memory_blocks[j] is None
                    &&& forall|k: int|
                        0 <= k < on.memory_blocks.len() && k != j ==> (
                        #[trigger] after.memory_blocks[k]) == on.memory_blocks[k]
                    &&& outcome matches Ok(calls) && returns_memory(calls, on.memory_blocks[j]->0)
                },
            }
        }),
{
}

/// A free changes no memory type but its own, and that one as the reply says.
pub proof fn free_changes_one_type<S>(
    allocator: AllocatorModel<S>,
    i: int,
    memory_type: MemoryTypeModel<S>,
)
    requires
        0 <= i < allocator.memory_types.len(),
    ensures
        ({
            let after = allocator.with_type(i, memory_type);
            &&& after.buffer_image_granularity == allocator.buffer_image_granularity
            &&& after.debug_settings == allocator.debug_settings
            &&& after.memory_types.len() == allocator.memory_types.len()
            &&& after.memory_types[i] == memory_type
            &&& forall|k: int|
                0 <= k < allocator.memory_types.len() && k != i ==> (
                #[trigger] after.memory_types[k]) == allocator.memory_types[k]
        }),
{
}

/// Shutting down a memory type takes slot after slot apart: each block adds the calls that
/// return its memory behind those of the slots before it, and a vacant slot adds none.
pub proof fn slots_are_taken_apart_in_order<S>(
    slots: Seq<Option<MemoryBlock<S>>>,
    slot: Option<MemoryBlock<S>>,
)
    ensures
        teardown_of(Seq::<Option<MemoryBlock<S>>>::empty()).len() == 0,
        ({
            let before = teardown_of(slots);
            let after = teardown_of(slots.push(slot));
            match slot {
                Some(block) => {
                    &&& after.len() >= before.len()
                    &&& after.take(before.len() as int) == before
                    &&& returns_memory(after.skip(before.len() as int), block)
                },
                None => after == before,
            }
        }),
{
    assert(slots.push(slot).drop_last() =~= slots);
    let before = teardown_of(slots);
    let after = teardown_of(slots.push(slot));
    if slot is Some {
        assert(after.take(before.len() as int) =~= before);
        assert(after.skip(before.len() as int) =~= slot->0.teardown());
    }
}

/// Shutting down takes memory type after memory type apart.
pub proof fn types_are_taken_apart_in_order<S>(
    types: Seq<MemoryTypeModel<S>>,
    memory_type: MemoryTypeModel<S>,
)
    ensures
        teardown_of_types(Seq::<MemoryTypeModel<S>>::empty()).len() == 0,
        teardown_of_types(types.push(memory_type)) == teardown_of_types(types) + teardown_of(
            memory_type.memory_blocks,
        ),
{
    assert(types.push(memory_type).drop_last() =~= types);
}

/// After shutting down, every slot of every memory type is vacant, and nothing else changed.
pub proof fn nothing_is_left_after_shutdown<S>(allocator: AllocatorModel<S>)
    ensures
        ({
            let after = allocator.emptied();
            &&& after.buffer_image_granularity == allocator.buffer_image_granularity
            &&& after.debug_settings == allocator.debug_settings
            &&& after.memory_types.len() == allocator.memory_types.len()
            &&& forall|i: int|
                0 <= i < allocator.memory_types.len() ==> {
                    let (was, is) = (allocator.memory_types[i], #[trigger] after.memory_types[i]);
                    &&& same_type(is, was)
                    &&& is.active_general_blocks == was.active_general_blocks
                    &&& is.memory_blocks.len() == was.memory_blocks.len()
                    &&& forall|j: int|
                        0 <= j < is.memory_blocks.len() ==> (#[trigger] is.memory_blocks[j]) is None
                }
        }),
{
}

/// Reports of leaks are one for each block that there is, and for nothing else: each at the
/// wanted level, each about a slot with a block, in the order of memory types and then of
/// slots, and none missing.
pub proof fn each_block_is_reported_once<S>(
    allocator: AllocatorModel<S>,
    reports: Seq<LeakReport>,
    log_level: Level,
)
    requires
        allocator.reported(reports, log_level),
    ensures
        forall|k: int|
            0 <= k < reports.len() ==> {
                let report = #[trigger] reports[k];
                &&& report.log_level == log_level
                &&& block_at(
                    allocator.memory_types,
                    report.memory_type_index as int,
                    report.memory_block_index as int,
                ) is Some
            },
        forall|k: int, l: int|
            0 <= k < l < reports.len() ==> {
                let (one, next) = (#[trigger] reports[k], #[trigger] reports[l]);
                ||| one.memory_type_index < next.memory_type_index
                ||| one.memory_type_index == next.memory_type_index && one.memory_block_index
                    < next.memory_block_index
            },
        forall|i: usize, j: usize|
            (#[trigger] block_at(allocator.memory_types, i as int, j as int)) is Some ==> exists|
                k: int,
            |
                0 <= k < reports.len() && (#[trigger] reports[k]).memory_type_index == i
                    && reports[k].memory_block_index == j,
{
    assert forall|i: usize, j: usize|
        (#[trigger] block_at(allocator.memory_types, i as int, j as int)) is Some implies exists|
        k: int,
    |
        0 <= k < reports.len() && (#[trigger] reports[k]).memory_type_index == i
            && reports[k].memory_block_index == j by {
        let report = LeakReport { log_level, memory_type_index: i, memory_block_index: j };
        assert(allocator.about_live_block(report));
        let k = choose|k: int| 0 <= k < reports.len() && reports[k] == report;
        assert(reports[k].memory_type_index == i && reports[k].memory_block_index == j);
    }
}

/// A sub-allocation with an address covers as many bytes as it has, from that address on, and
/// one without covers nothing.
pub proof fn slice_begins_at_the_address(given: SubAllocationModel)
    ensures
        given.mapped_slice() matches Some(slice) ==> {
            &&& given.mapped_ptr matches Some(address) && slice.address == address
            &&& slice.len == given.size
        },
        given.mapped_slice() is None <==> given.mapped_ptr is None,
{
}

/// Every device that lists no more memory types and heaps than a device can list has memory
/// that an allocator can be made for.
pub proof fn every_device_will_do(memory: PhysicalDeviceMemoryProperties)
    requires
        memory.memory_type_count <= 32,
        memory.memory_heap_count <= 16,
    ensures
        memory.wf(),
{
}

/// Every address but zero is a pointer, and it points there.
pub proof fn only_zero_is_null(address: u64)
    ensures
        non_null_spec(address) matches Some(pointer) ==> pointer == address && address != 0,
        non_null_spec(address) is None ==> address == 0,
{
}

/// What an operation comes to is what its result says: it waits, it gives a sub-allocation, or
/// it fails with its error.
pub proof fn progress_is_what_it_says<P>(progress: Progress<P>)
    ensures
        match (progress, progress@) {
            (Progress::Pending(waits), ProgressModel::Pending(pending)) => waits == pending,
            (Progress::Done(Ok(sub_allocation)), ProgressModel::Allocated(given)) => {
                sub_allocation@ == given
            },
            (Progress::Done(Err(error)), ProgressModel::Failed(told)) => tells(error, told),
            _ => false,
        },
{
}

/// Two errors that are told alike are of one kind.
pub proof fn errors_are_told_apart(a: AllocationError, b: AllocationError)
    requires
        a@ == b@,
    ensures
        tells(a, b@),
        tells(b, a@),
        a is OutOfMemory == b is OutOfMemory,
        a is FailedToMap == b is FailedToMap,
        a is NoCompatibleMemoryTypeFound == b is NoCompatibleMemoryTypeFound,
        a is InvalidAllocationCreateDesc == b is InvalidAllocationCreateDesc,
        a is Internal == b is Internal,
{
}

} // verus!
