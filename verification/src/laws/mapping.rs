use vstd::prelude::*;

use crate::allocator::AllocatorModel;
use crate::laws::custody::{
    a_life_keeps_what_is_out, fair_life, lemma_serve_changes_one_slot, lemma_was_out, placed,
    present,
};
use crate::laws::life::{
    all_is_accounted_for, asked, born, lemma_served, livable, lived, served, Event, Life,
};
use crate::memory_block::CreationStage;
use crate::memory_type::{AllocationStage, MemoryTypeModel, TypeAllocation};
use crate::progress::ProgressModel;
use crate::protocol::{FreeReply, Reply};
use crate::search::{lemma_first_none, lemma_last_none};
use crate::sub_allocation::SubAllocationModel;

verus! {

/// All blocks of a memory type that the host can map are mapped.
pub open spec fn all_mapped<S>(memory_type: MemoryTypeModel<S>) -> bool {
    memory_type.mappable ==> forall|i: int| #[trigger]
        memory_type.live(i) ==> memory_type.block(i).mapped_ptr != 0
}

/// A block under creation that has got past its mapping has an address.
pub open spec fn creation_mapped(stage: AllocationStage) -> bool {
    stage matches AllocationStage::Create(creation) ==> (creation.mapped ==> (
    creation.stage matches CreationStage::SubAllocator { mapped_ptr, .. } ==> mapped_ptr != 0))
}

/// As long as the device maps nothing to the null address, all blocks that the host can
/// map stay mapped through an allocation.
pub proof fn allocation_keeps_blocks_mapped<'a, S>(
    on: MemoryTypeModel<S>,
    allocation: TypeAllocation<'a>,
    reply: Reply<S>,
)
    requires
        on.wf(),
        allocation.fits(on),
        allocation.admits(on, reply),
        all_mapped(on),
        creation_mapped(allocation.stage),
        reply matches Reply::MemoryMapped(Some(address)) ==> address != 0,
    ensures
        all_mapped(allocation.state_after(on, reply)),
        allocation.after(on, reply) matches ProgressModel::Pending(pending) ==> creation_mapped(
            pending.stage,
        ),
{
    let after = allocation.state_after(on, reply);
    lemma_first_none(on.vacancies());
    lemma_last_none(on.vacancies());
    assert forall|i: int| after.mappable && #[trigger] after.live(i) implies after.block(
        i,
    ).mapped_ptr != 0 by {
        if on.live(i) && after.memory_blocks[i] == on.memory_blocks[i] {
        }
    }
}

/// Freeing keeps all blocks mapped that the host can map.
pub proof fn free_keeps_blocks_mapped<S>(on: MemoryTypeModel<S>, i: int, reply: FreeReply)
    requires
        on.live(i),
        all_mapped(on),
    ensures
        all_mapped(on.after_free(i, reply)),
{
    let after = on.after_free(i, reply);
    assert forall|j: int| after.mappable && #[trigger] after.live(j) implies after.block(
        j,
    ).mapped_ptr != 0 by {
        assert(on.live(j));
    }
}

/// What a sub-allocator does to itself keeps all blocks mapped that the host can map.
pub proof fn sub_allocator_keeps_blocks_mapped<S>(on: MemoryTypeModel<S>, i: int, sub_allocator: S)
    requires
        on.live(i),
        all_mapped(on),
    ensures
        all_mapped(on.with_sub_allocator(i, sub_allocator)),
{
    let after = on.with_sub_allocator(i, sub_allocator);
    assert forall|j: int| after.mappable && #[trigger] after.live(j) implies after.block(
        j,
    ).mapped_ptr != 0 by {
        assert(on.live(j));
    }
}

/// A sub-allocation has host addresses exactly if its memory is host visible, and they are
/// exactly its region of the mapped block: its size, from its offset on. (A dedicated block
/// is one single part, so its offset is zero.)
pub proof fn mapped_slice_is_the_region<'a, S>(
    on: MemoryTypeModel<S>,
    allocation: TypeAllocation<'a>,
    reply: Reply<S>,
)
    requires
        on.wf(),
        allocation.fits(on),
        allocation.admits(on, reply),
        all_mapped(on),
        allocation.after(on, reply) is Allocated,
        allocation.size > on.memblock_size() ==> (reply matches Reply::SubAllocated(Ok((offset, _)))
            && offset == 0),
    ensures
        ({
            let given = allocation.after(on, reply)->Allocated_0;
            let block = on.block(given.memory_block_index as int);
            &&& given.mapped_slice() is Some <==> on.mappable
            &&& given.mapped_slice() matches Some(slice) ==> {
                &&& slice.address == block.mapped_ptr + given.offset
                &&& slice.len == given.size
            }
        }),
{
    match allocation.stage {
        AllocationStage::Search { memory_block_index } => {
            assert(on.live(memory_block_index as int));
        },
        AllocationStage::Fill { memory_block_index, .. } => {
            assert(on.live(memory_block_index as int));
        },
        _ => {},
    }
}

/// The device maps nothing to the null address.
pub open spec fn never_null<'a, S>(events: Seq<Event<'a, S>>) -> bool {
    forall|k: int|
        0 <= k < events.len() ==> ((#[trigger] events[k]) matches Event::Serve {
            reply: Reply::MemoryMapped(Some(address)),
            ..
        } ==> address != 0)
}

/// All blocks that the host can map are mapped, and so is the one under creation once it has
/// got past its mapping.
pub open spec fn mapped_throughout<'a, S>(life: Life<'a, S>) -> bool {
    &&& forall|i: int|
        0 <= i < life.allocator.memory_types.len() ==> all_mapped(
            #[trigger] life.allocator.memory_types[i],
        )
    &&& life.pending matches Some(pending) ==> creation_mapped(pending.attempt.stage)
}

/// As long as the device maps nothing to the null address, at every moment all blocks that
/// the host can map are mapped, whatever is allocated and freed.
pub proof fn every_block_is_mapped<'a, S>(life: Life<'a, S>, events: Seq<Event<'a, S>>)
    requires
        born(life),
        livable(life, events),
        never_null(events),
    ensures
        mapped_throughout(lived(life, events)),
    decreases events.len(),
{
    if events.len() > 0 {
        let before = lived(life, events.drop_last());
        assert(never_null(events.drop_last())) by {
            assert forall|k: int| 0 <= k < events.drop_last().len() implies (
            #[trigger] events.drop_last()[k]) == events[k] by {}
        }
        every_block_is_mapped(life, events.drop_last());
        all_is_accounted_for(life, events.drop_last());
        assert(events.last() == events[events.len() - 1]);
        match events.last() {
            Event::Begin { .. } => {},
            Event::Serve { sub_allocator, reply } => {
                let pending = before.pending->0;
                let on = pending.on(before.allocator);
                lemma_served(before.allocator, pending, sub_allocator);
                match pending.attempt.stage {
                    AllocationStage::Search { memory_block_index }
                    | AllocationStage::Fill { memory_block_index, .. } => {
                        sub_allocator_keeps_blocks_mapped(
                            on,
                            memory_block_index as int,
                            sub_allocator,
                        );
                    },
                    AllocationStage::Create(_) => {},
                }
                allocation_keeps_blocks_mapped(
                    asked(on, pending.attempt, sub_allocator),
                    pending.attempt,
                    reply,
                );
            },
            Event::Free { given, sub_allocator, reply } => {
                if given.chunk_id is Some && before.backed(given) {
                    let on = before.allocator.memory_types[given.memory_type_index as int];
                    let j = given.memory_block_index as int;
                    sub_allocator_keeps_blocks_mapped(on, j, sub_allocator);
                    free_keeps_blocks_mapped(on.with_sub_allocator(j, sub_allocator), j, reply);
                }
            },
        }
    }
}

/// A sub-allocation has host addresses exactly if its memory is host visible, and they are
/// exactly its region of the block that it names: its size, from its offset on.
pub open spec fn covers_its_region<S>(
    allocator: AllocatorModel<S>,
    given: SubAllocationModel,
) -> bool {
    let on = allocator.memory_types[given.memory_type_index as int];
    let block = on.block(given.memory_block_index as int);
    &&& given.mapped_slice() is Some <==> on.mappable
    &&& given.mapped_slice() matches Some(slice) ==> {
        &&& slice.address == block.mapped_ptr + given.offset
        &&& slice.len == given.size
    }
}

/// A dedicated block is given as one single part, at offset zero.
pub open spec fn whole_event<'a, S>(life: Life<'a, S>, event: Event<'a, S>) -> bool {
    match event {
        Event::Serve { reply: Reply::SubAllocated(Ok((offset, _))), .. } => {
            life.pending->0.attempt.stage matches AllocationStage::Fill { dedicated: true, .. }
                ==> offset == 0
        },
        _ => true,
    }
}

/// The same, at each of `events`.
pub open spec fn whole_life<'a, S>(life: Life<'a, S>, events: Seq<Event<'a, S>>) -> bool
    decreases events.len(),
{
    events.len() == 0 || {
        &&& whole_life(life, events.drop_last())
        &&& whole_event(lived(life, events.drop_last()), events.last())
    }
}

/// Whatever an allocator in use comes to give covers exactly its region, as long as the
/// device maps nothing to the null address and dedicated blocks are given whole.
pub proof fn new_slice_is_the_region<'a, S>(
    life: Life<'a, S>,
    events: Seq<Event<'a, S>>,
    sub_allocator: S,
    reply: Reply<S>,
)
    requires
        born(life),
        livable(life, events),
        never_null(events),
        lived(life, events).admits(Event::Serve { sub_allocator, reply }),
        whole_event(lived(life, events), Event::Serve { sub_allocator, reply }),
    ensures
        ({
            let before = lived(life, events);
            let pending = before.pending->0;
            let allocator = served(before.allocator, pending, sub_allocator);
            pending.after(allocator, reply) matches ProgressModel::Allocated(given)
                ==> covers_its_region(pending.state_after(allocator, reply), given)
        }),
{
    let before = lived(life, events);
    let pending = before.pending->0;
    let on = pending.on(before.allocator);
    let allocator = served(before.allocator, pending, sub_allocator);
    every_block_is_mapped(life, events);
    all_is_accounted_for(life, events);
    lemma_served(before.allocator, pending, sub_allocator);
    if pending.after(allocator, reply) is Allocated {
        match pending.attempt.stage {
            AllocationStage::Search { memory_block_index }
            | AllocationStage::Fill { memory_block_index, .. } => {
                sub_allocator_keeps_blocks_mapped(on, memory_block_index as int, sub_allocator);
            },
            AllocationStage::Create(_) => {},
        }
        mapped_slice_is_the_region(
            asked(on, pending.attempt, sub_allocator),
            pending.attempt,
            reply,
        );
    }
}

/// Everything that is out covers exactly its region as long as it is out, if in addition no
/// sub-allocator says that it is empty while a part of its block is out.
pub proof fn slices_stay_the_regions<'a, S>(
    life: Life<'a, S>,
    events: Seq<Event<'a, S>>,
    k: int,
)
    requires
        born(life),
        livable(life, events),
        never_null(events),
        whole_life(life, events),
        fair_life(life, events),
        0 <= k < lived(life, events).out.len(),
    ensures
        covers_its_region(lived(life, events).allocator, lived(life, events).out[k]),
    decreases events.len(),
{
    if events.len() > 0 {
        let before = lived(life, events.drop_last());
        let after = lived(life, events);
        assert(never_null(events.drop_last())) by {
            assert forall|k: int| 0 <= k < events.drop_last().len() implies (
            #[trigger] events.drop_last()[k]) == events[k] by {}
        }
        all_is_accounted_for(life, events.drop_last());
        a_life_keeps_what_is_out(life, events.drop_last());
        a_life_keeps_what_is_out(life, events);
        assert(placed(after.allocator, after.out[k]));
        match events.last() {
            Event::Begin { .. } => {
                slices_stay_the_regions(life, events.drop_last(), k);
            },
            Event::Serve { sub_allocator, reply } => {
                if k < before.out.len() {
                    slices_stay_the_regions(life, events.drop_last(), k);
                    let given = before.out[k];
                    assert(placed(before.allocator, given));
                    lemma_serve_changes_one_slot(before, sub_allocator, reply);
                    assert(present(
                        before.allocator,
                        given.memory_type_index as int,
                        given.memory_block_index as int,
                    ));
                } else {
                    new_slice_is_the_region(life, events.drop_last(), sub_allocator, reply);
                }
            },
            Event::Free { given, sub_allocator, reply } => {
                let m = lemma_was_out(before, given, sub_allocator, reply, k);
                slices_stay_the_regions(life, events.drop_last(), m);
            },
        }
    }
}

} // verus!
