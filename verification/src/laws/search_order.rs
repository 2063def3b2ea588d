use vstd::prelude::*;

use crate::allocator::{Allocation, AllocatorModel};
use crate::error::AllocationError;
use crate::memory_block::MemoryBlock;
use crate::memory_type::{
    lemma_with_sub_allocator, AllocationStage, MemoryTypeModel, TypeAllocation,
};
use crate::progress::ProgressModel;
use crate::protocol::Reply;
use crate::search::{last, lemma_first_none, lemma_last_none};
use crate::types::AllocationCreateDesc;

verus! {

/// Number of blocks in the slots from `start` up to `end`.
pub open spec fn live_between<S>(memory_type: MemoryTypeModel<S>, start: int, end: int) -> nat
    decreases end - start,
{
    if start >= end {
        0
    } else {
        live_between(memory_type, start + 1, end) + if memory_type.live(start) {
            1nat
        } else {
            0nat
        }
    }
}

/// Two memory types differ in nothing but the sub-allocators of their blocks.
pub open spec fn alike<S>(a: MemoryTypeModel<S>, b: MemoryTypeModel<S>) -> bool {
    &&& a == MemoryTypeModel { memory_blocks: a.memory_blocks, ..b }
    &&& a.memory_blocks.len() == b.memory_blocks.len()
    &&& forall|i: int|
        0 <= i < a.memory_blocks.len() ==> {
            &&& (#[trigger] a.memory_blocks[i]) is Some <==> b.memory_blocks[i] is Some
            &&& a.memory_blocks[i] is Some ==> a.memory_blocks[i]->0 == MemoryBlock {
                sub_allocator: a.memory_blocks[i]->0.sub_allocator,
                ..b.memory_blocks[i]->0
            }
        }
}

/// What becomes of the memory type and of an allocation when one block after the
/// other turns out to be full: the sub-allocator of the block that is asked becomes
/// `states[k]`, and replies that it has no room.
pub open spec fn refused<'a, S>(
    on: MemoryTypeModel<S>,
    allocation: TypeAllocation<'a>,
    states: Seq<S>,
) -> (MemoryTypeModel<S>, ProgressModel<TypeAllocation<'a>>)
    decreases states.len(),
{
    if states.len() == 0 {
        (on, ProgressModel::Pending(allocation))
    } else {
        let (on, progress) = refused(on, allocation, states.drop_last());
        match progress {
            ProgressModel::Pending(pending) => match pending.stage {
                AllocationStage::Search { memory_block_index } => {
                    let on = on.with_sub_allocator(memory_block_index as int, states.last());
                    (on, pending.after(on, Reply::SubAllocated(Err(AllocationError::OutOfMemory))))
                },
                _ => (on, progress),
            },
            _ => (on, progress),
        }
    }
}

/// A request that fits a general block is put to the live blocks from the last to the
/// first, as long as they are full. The block in slot `i` is asked after those above it,
/// and after all of them a new general block is created.
pub proof fn search_asks_last_block_first<'a, S>(
    on: MemoryTypeModel<S>,
    desc: AllocationCreateDesc<'a>,
    granularity: u64,
    backtrace: Option<&'a str>,
    states: Seq<S>,
)
    requires
        on.wf(),
        on.memory_blocks.len() <= usize::MAX,
        desc.requirements.size <= on.memblock_size(),
        states.len() <= live_between(on, 0, on.memory_blocks.len() as int),
    ensures
        ({
            let begun = on.begun(desc, granularity, backtrace);
            let (after, progress) = refused(on, begun, states);
            &&& alike(after, on)
            &&& progress matches ProgressModel::Pending(pending) && pending == begun.at(
                pending.stage,
            ) && match pending.stage {
                AllocationStage::Search { memory_block_index } => {
                    &&& on.live(memory_block_index as int)
                    &&& live_between(on, memory_block_index + 1, on.memory_blocks.len() as int)
                        == states.len()
                },
                AllocationStage::Create(creation) => {
                    &&& creation == on.fresh(on.memblock_size(), false)
                    &&& live_between(on, 0, on.memory_blocks.len() as int) == states.len()
                },
                AllocationStage::Fill { .. } => false,
            }
        }),
    decreases states.len(),
{
    let len = on.memory_blocks.len() as int;
    if states.len() == 0 {
        lemma_search_stage(on, len);
    } else {
        let shorter = states.drop_last();
        search_asks_last_block_first(on, desc, granularity, backtrace, shorter);
        let begun = on.begun(desc, granularity, backtrace);
        let (before, progress) = refused(on, begun, shorter);
        let pending = progress->Pending_0;
        match pending.stage {
            AllocationStage::Search { memory_block_index } => {
                let i = memory_block_index as int;
                assert(before.live(i));
                let after = before.with_sub_allocator(i, states.last());
                assert(alike(after, on));
                lemma_alike_search(after, on, i);
                lemma_search_stage(on, i);
                lemma_live_split(on, i, i + 1, len);
                match on.search_below(i) {
                    AllocationStage::Search { memory_block_index: next } => {
                        lemma_live_split(on, next + 1, i, len);
                    },
                    _ => {
                        lemma_live_split(on, 0, i, len);
                    },
                }
            },
            _ => {
                assert(false);
            },
        }
    }
}

/// The number of live blocks in two adjacent ranges of slots adds up.
proof fn lemma_live_split<S>(memory_type: MemoryTypeModel<S>, start: int, middle: int, end: int)
    requires
        start <= middle <= end,
    ensures
        live_between(memory_type, start, end) == live_between(memory_type, start, middle)
            + live_between(memory_type, middle, end),
    decreases middle - start,
{
    if start < middle {
        lemma_live_split(memory_type, start + 1, middle, end);
    }
}

/// Where no slot is occupied, no block is counted.
proof fn lemma_live_none<S>(memory_type: MemoryTypeModel<S>, start: int, end: int)
    requires
        forall|i: int| start <= i < end ==> !(#[trigger] memory_type.live(i)),
    ensures
        live_between(memory_type, start, end) == 0,
    decreases end - start,
{
    if start < end {
        lemma_live_none(memory_type, start + 1, end);
    }
}

/// Between the slot that is asked next and `end` no block is passed over.
proof fn lemma_search_stage<S>(memory_type: MemoryTypeModel<S>, end: int)
    requires
        0 <= end <= memory_type.memory_blocks.len() <= usize::MAX,
    ensures
        match memory_type.search_below(end) {
            AllocationStage::Search { memory_block_index } => {
                &&& memory_block_index < end
                &&& memory_type.live(memory_block_index as int)
                &&& live_between(memory_type, memory_block_index + 1, end) == 0
            },
            AllocationStage::Create(creation) => {
                &&& creation == memory_type.fresh(memory_type.memblock_size(), false)
                &&& live_between(memory_type, 0, end) == 0
            },
            AllocationStage::Fill { .. } => false,
        },
{
    let marks = memory_type.occupancy(end);
    lemma_last_none(marks);
    match last(marks) {
        Some(i) => {
            assert forall|j: int| i + 1 <= j < end implies !(#[trigger] memory_type.live(j)) by {
                assert(!marks[j]);
            }
            lemma_live_none(memory_type, i + 1, end);
        },
        None => {
            assert forall|j: int| 0 <= j < end implies !(#[trigger] memory_type.live(j)) by {
                assert(!marks[j]);
            }
            lemma_live_none(memory_type, 0, end);
        },
    }
}

/// A search goes the same way whatever the sub-allocators hold.
proof fn lemma_alike_search<S>(a: MemoryTypeModel<S>, b: MemoryTypeModel<S>, end: int)
    requires
        alike(a, b),
        0 <= end <= a.memory_blocks.len(),
    ensures
        a.search_below(end) == b.search_below(end),
{
    assert(a.occupancy(end) =~= b.occupancy(end));
}

/// What a sub-allocator does to itself changes nothing for the allocator: the memory type
/// stays alike, an allocation under way still fits, and new blocks go to the same slots.
pub proof fn sub_allocator_is_its_own_affair<'a, S>(
    allocator: AllocatorModel<S>,
    allocation: Allocation<'a>,
    i: int,
    j: int,
    sub_allocator: S,
    dedicated: bool,
)
    requires
        allocator.wf(),
        0 <= i < allocator.memory_types.len(),
        allocator.memory_types[i].live(j),
        allocation.fits(allocator),
    ensures
        ({
            let after = allocator.with_sub_allocator(i, j, sub_allocator);
            &&& after.wf()
            &&& alike(after.memory_types[i], allocator.memory_types[i])
            &&& allocation.fits(after)
            &&& after.memory_types[i].slot_for(dedicated) == allocator.memory_types[i].slot_for(
                dedicated,
            )
        }),
{
    let on = allocator.memory_types[i];
    let after = on.with_sub_allocator(j, sub_allocator);
    lemma_with_sub_allocator(on, j, sub_allocator);
    assert(after.vacancies() =~= on.vacancies());
}

/// A new block goes to a vacant slot, or to a new one past the last, and no other slot
/// changes: a dedicated block to the lowest vacant slot, a general one to the highest.
pub proof fn new_block_displaces_nothing<S>(
    on: MemoryTypeModel<S>,
    block: MemoryBlock<S>,
    dedicated: bool,
)
    ensures
        ({
            let slot = on.slot_for(dedicated);
            let after = on.with_block(block, dedicated);
            &&& 0 <= slot <= on.memory_blocks.len()
            &&& !on.live(slot)
            &&& after.live(slot) && after.block(slot) == block
            &&& forall|i: int|
                0 <= i < on.memory_blocks.len() && i != slot
                    ==> #[trigger] after.memory_blocks[i] == on.memory_blocks[i]
            &&& after.memory_blocks.len() == if slot == on.memory_blocks.len() {
                on.memory_blocks.len() + 1
            } else {
                on.memory_blocks.len()
            }
            &&& slot == on.memory_blocks.len() ==> forall|i: int|
                0 <= i < on.memory_blocks.len() ==> #[trigger] on.live(i)
            &&& forall|i: int|
                0 <= i < on.memory_blocks.len() && (if dedicated {
                    i < slot
                } else {
                    slot < i
                }) ==> #[trigger] on.live(i)
        }),
{
    let marks = on.vacancies();
    lemma_first_none(marks);
    lemma_last_none(marks);
    assert forall|i: int| 0 <= i < on.memory_blocks.len() implies #[trigger] on.live(i)
        == !marks[i] by {}
}

} // verus!
