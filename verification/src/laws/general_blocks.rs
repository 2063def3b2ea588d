use vstd::prelude::*;

use crate::memory_block::{CreationProgress, MemoryBlock};
use crate::memory_type::{AllocationStage, MemoryTypeModel, TypeAllocation};
use crate::protocol::{FreeReply, Reply};
use crate::search::{lemma_first_none, lemma_last_none};

verus! {

/// The slot holds a general block, which has the size `memblock_size`. Dedicated blocks
/// are larger.
pub open spec fn holds_general<S>(slot: Option<MemoryBlock<S>>, memblock_size: u64) -> bool {
    slot matches Some(block) && block.size == memblock_size
}

/// Number of general blocks in a sequence of slots.
pub open spec fn general_in<S>(slots: Seq<Option<MemoryBlock<S>>>, memblock_size: u64) -> nat
    decreases slots.len(),
{
    if slots.len() == 0 {
        0
    } else {
        general_in(slots.drop_last(), memblock_size) + if holds_general(
            slots.last(),
            memblock_size,
        ) {
            1nat
        } else {
            0nat
        }
    }
}

/// The memory type knows how many general blocks it has.
pub open spec fn counted<S>(memory_type: MemoryTypeModel<S>) -> bool {
    memory_type.active_general_blocks == general_in(
        memory_type.memory_blocks,
        memory_type.memblock_size(),
    )
}

/// The reply tells of the block in slot `i` what it was created as.
pub open spec fn truthful<S>(on: MemoryTypeModel<S>, i: int, reply: FreeReply) -> bool {
    reply matches FreeReply::Empty { general } ==> general == holds_general(
        on.memory_blocks[i],
        on.memblock_size(),
    )
}

/// A memory type without blocks has none to count.
pub proof fn empty_type_is_counted<S>(memory_type: MemoryTypeModel<S>)
    requires
        memory_type.memory_blocks.len() == 0,
        memory_type.active_general_blocks == 0,
    ensures
        counted(memory_type),
{
}

/// An allocation keeps count of the general blocks.
pub proof fn allocation_counts_general_blocks<'a, S>(
    on: MemoryTypeModel<S>,
    allocation: TypeAllocation<'a>,
    reply: Reply<S>,
)
    requires
        allocation.fits(on),
        allocation.admits(on, reply),
        counted(on),
    ensures
        counted(allocation.state_after(on, reply)),
{
    lemma_first_none(on.vacancies());
    lemma_last_none(on.vacancies());
    if let AllocationStage::Create(creation) = allocation.stage {
        if let CreationProgress::Created(block) = creation.after(reply) {
            let slot = on.slot_for(creation.dedicated);
            if slot == on.memory_blocks.len() {
                assert(on.memory_blocks.push(Some(block)).drop_last() =~= on.memory_blocks);
            } else {
                lemma_general_update(on.memory_blocks, slot, Some(block), on.memblock_size());
            }
        }
    }
}

/// A free keeps count of the general blocks.
pub proof fn free_counts_general_blocks<S>(on: MemoryTypeModel<S>, i: int, reply: FreeReply)
    requires
        on.live(i),
        counted(on),
        truthful(on, i, reply),
    ensures
        counted(on.after_free(i, reply)),
{
    lemma_general_update(on.memory_blocks, i, None, on.memblock_size());
}

/// What a sub-allocator does to itself keeps the count of the general blocks.
pub proof fn sub_allocator_keeps_count<S>(on: MemoryTypeModel<S>, i: int, sub_allocator: S)
    requires
        on.live(i),
        counted(on),
    ensures
        counted(on.with_sub_allocator(i, sub_allocator)),
{
    lemma_general_update(
        on.memory_blocks,
        i,
        Some(MemoryBlock { sub_allocator, ..on.block(i) }),
        on.memblock_size(),
    );
}

/// There are at most as many general blocks as slots.
pub proof fn general_blocks_have_slots<S>(memory_type: MemoryTypeModel<S>)
    requires
        counted(memory_type),
    ensures
        memory_type.active_general_blocks <= memory_type.memory_blocks.len(),
{
    lemma_general_bounded(memory_type.memory_blocks, memory_type.memblock_size());
}

/// Once there is a general block, one stays: freeing never destroys the last one, even when
/// nothing is allocated from it.
pub proof fn last_general_block_stays<S>(on: MemoryTypeModel<S>, i: int, reply: FreeReply)
    requires
        on.live(i),
        counted(on),
        truthful(on, i, reply),
        general_in(on.memory_blocks, on.memblock_size()) > 0,
    ensures
        general_in(on.after_free(i, reply).memory_blocks, on.memblock_size()) > 0,
{
    free_counts_general_blocks(on, i, reply);
}

/// A block that is not general goes away as soon as its sub-allocator is empty, and so does
/// a general one as long as another general block remains. No other slot changes.
pub proof fn empty_block_goes_away<S>(on: MemoryTypeModel<S>, i: int, general: bool)
    requires
        on.live(i),
        !general || on.active_general_blocks > 1,
    ensures
        ({
            let after = on.after_free(i, FreeReply::Empty { general });
            &&& !after.live(i)
            &&& on.free_outcome(i, FreeReply::Empty { general }) == Ok::<_, crate::error::ErrorModel>(
                on.block(i).teardown(),
            )
            &&& forall|j: int| j != i ==> (#[trigger] after.live(j) <==> on.live(j))
            &&& forall|j: int| j != i && #[trigger] after.live(j) ==> after.block(j) == on.block(j)
        }),
{
}

/// Replacing a slot counts the general block that comes and the one that goes.
pub(crate) proof fn lemma_general_update<S>(
    slots: Seq<Option<MemoryBlock<S>>>,
    i: int,
    slot: Option<MemoryBlock<S>>,
    memblock_size: u64,
)
    requires
        0 <= i < slots.len(),
    ensures
        general_in(slots.update(i, slot), memblock_size) + (if holds_general(
            slots[i],
            memblock_size,
        ) {
            1nat
        } else {
            0nat
        }) == general_in(slots, memblock_size) + (if holds_general(slot, memblock_size) {
            1nat
        } else {
            0nat
        }),
    decreases slots.len(),
{
    let updated = slots.update(i, slot);
    if i == slots.len() - 1 {
        assert(updated.drop_last() =~= slots.drop_last());
    } else {
        lemma_general_update(slots.drop_last(), i, slot, memblock_size);
        assert(updated.drop_last() =~= slots.drop_last().update(i, slot));
    }
}

proof fn lemma_general_bounded<S>(slots: Seq<Option<MemoryBlock<S>>>, memblock_size: u64)
    ensures
        general_in(slots, memblock_size) <= slots.len(),
    decreases slots.len(),
{
    if slots.len() > 0 {
        lemma_general_bounded(slots.drop_last(), memblock_size);
    }
}

} // verus!
