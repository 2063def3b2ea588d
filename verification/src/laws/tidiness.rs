use vstd::prelude::*;

use crate::laws::custody::{counts, counts_free};
use crate::laws::general_blocks::{
    allocation_counts_general_blocks, counted, free_counts_general_blocks, general_in,
    holds_general, lemma_general_update, sub_allocator_keeps_count, truthful,
};
use crate::laws::life::asked;
use crate::laws::search_order::new_block_displaces_nothing;
use crate::memory_block::{CreationProgress, MemoryBlock};
use crate::memory_type::{AllocationStage, MemoryTypeModel, TypeAllocation};
use crate::progress::ProgressModel;
use crate::protocol::{FreeReply, Reply};

verus! {

// Throughout, `parts` tells of a sub-allocator how many parts it has given and not got back.

/// The block in slot `j` is there, and nothing is allocated from it.
pub open spec fn idle<S>(on: MemoryTypeModel<S>, j: int, parts: spec_fn(S) -> nat) -> bool {
    on.live(j) && parts(on.block(j).sub_allocator) == 0
}

/// The block in slot `j` is a general one.
pub open spec fn general<S>(on: MemoryTypeModel<S>, j: int) -> bool {
    holds_general(on.memory_blocks[j], on.memblock_size())
}

/// Of the blocks other than the one in slot `new`, at most one is idle, and that is a general
/// one.
pub open spec fn one_idle_beside<S>(
    on: MemoryTypeModel<S>,
    new: int,
    parts: spec_fn(S) -> nat,
) -> bool {
    &&& forall|j: int| #[trigger] idle(on, j, parts) && j != new ==> general(on, j)
    &&& forall|j: int, k: int| #[trigger]
        idle(on, j, parts) && #[trigger] idle(on, k, parts) && j != new && k != new ==> j == k
}

/// A memory type keeps no more than one block for nothing, and only a general one.
pub open spec fn tidy<S>(on: MemoryTypeModel<S>, parts: spec_fn(S) -> nat) -> bool {
    counted(on) && one_idle_beside(on, -1, parts)
}

/// The same, while an allocation is under way on the memory type. A block that was just
/// created is idle until it gives its first part.
pub open spec fn tidy_at<'a, S>(
    on: MemoryTypeModel<S>,
    attempt: TypeAllocation<'a>,
    parts: spec_fn(S) -> nat,
) -> bool {
    match attempt.stage {
        AllocationStage::Fill { memory_block_index, .. } => {
            counted(on) && one_idle_beside(on, memory_block_index as int, parts)
        },
        _ => tidy(on, parts),
    }
}

/// What a sub-allocator promises when it is created or asked: it counts rightly, and a new
/// one meets the request that its block was created for.
pub open spec fn honest<'a, S>(
    on: MemoryTypeModel<S>,
    attempt: TypeAllocation<'a>,
    sub_allocator: S,
    reply: Reply<S>,
    parts: spec_fn(S) -> nat,
) -> bool {
    &&& counts(on, attempt, sub_allocator, reply, parts)
    &&& attempt.stage is Fill ==> reply->SubAllocated_0 is Ok
}

/// What the sub-allocator in slot `j` promises when a part is handed back: it counts rightly,
/// and tells truly whether it is empty then, and what its block is.
pub open spec fn honest_free<S>(
    on: MemoryTypeModel<S>,
    j: int,
    sub_allocator: S,
    reply: FreeReply,
    parts: spec_fn(S) -> nat,
) -> bool {
    &&& counts_free(on, j, sub_allocator, reply, parts)
    &&& truthful(on, j, reply)
    &&& reply is InUse ==> parts(sub_allocator) > 0
}

/// Every reply keeps the memory type tidy, whether the allocation goes on or is over.
pub proof fn allocation_stays_tidy<'a, S>(
    on: MemoryTypeModel<S>,
    attempt: TypeAllocation<'a>,
    sub_allocator: S,
    reply: Reply<S>,
    parts: spec_fn(S) -> nat,
)
    requires
        on.memory_blocks.len() < usize::MAX,
        attempt.fits(on),
        attempt.admits(asked(on, attempt, sub_allocator), reply),
        tidy_at(on, attempt, parts),
        honest(on, attempt, sub_allocator, reply, parts),
    ensures
        ({
            let asked = asked(on, attempt, sub_allocator);
            let after = attempt.state_after(asked, reply);
            match attempt.after(asked, reply) {
                ProgressModel::Pending(pending) => tidy_at(after, pending, parts),
                _ => tidy(after, parts),
            }
        }),
{
    let asked = asked(on, attempt, sub_allocator);
    let after = attempt.state_after(asked, reply);
    match attempt.stage {
        AllocationStage::Create(creation) => {
            allocation_counts_general_blocks(on, attempt, reply);
            if let CreationProgress::Created(block) = creation.after(reply) {
                let slot = on.slot_for(creation.dedicated);
                new_block_displaces_nothing(on, block, creation.dedicated);
                assert forall|j: int| #[trigger] idle(after, j, parts) && j != slot implies idle(
                    on,
                    j,
                    parts,
                ) && general(after, j) by {
                    assert(idle(on, j, parts));
                }
            }
        },
        AllocationStage::Search { memory_block_index }
        | AllocationStage::Fill { memory_block_index, .. } => {
            let i = memory_block_index as int;
            sub_allocator_keeps_count(on, i, sub_allocator);
            assert forall|j: int| #[trigger] idle(after, j, parts) implies idle(on, j, parts)
                && general(after, j) by {
                assert(idle(on, j, parts));
            }
        },
    }
}

/// A free keeps the memory type tidy.
pub proof fn free_stays_tidy<S>(
    on: MemoryTypeModel<S>,
    j: int,
    sub_allocator: S,
    reply: FreeReply,
    parts: spec_fn(S) -> nat,
)
    requires
        on.live(j),
        tidy(on, parts),
        honest_free(on, j, sub_allocator, reply, parts),
    ensures
        tidy(on.with_sub_allocator(j, sub_allocator).after_free(j, reply), parts),
{
    let freed = on.with_sub_allocator(j, sub_allocator);
    let after = freed.after_free(j, reply);
    sub_allocator_keeps_count(on, j, sub_allocator);
    free_counts_general_blocks(freed, j, reply);
    assert forall|k: int| #[trigger] idle(after, k, parts) implies general(after, k) && (k != j
        || reply is Refused ==> idle(on, k, parts)) by {
        if k != j || reply is Refused {
            assert(idle(on, k, parts));
        }
    }
    // A general block that stays though it is empty is the only general one.
    assert forall|k: int| #[trigger] idle(after, k, parts) && k != j && idle(
        after,
        j,
        parts,
    ) implies reply is Refused by {
        if reply is Empty {
            lemma_two_general(after.memory_blocks, j, k, on.memblock_size());
        }
    }
}

/// Two general blocks count as two.
proof fn lemma_two_general<S>(
    slots: Seq<Option<MemoryBlock<S>>>,
    j: int,
    k: int,
    memblock_size: u64,
)
    requires
        0 <= j < slots.len(),
        0 <= k < slots.len(),
        j != k,
        holds_general(slots[j], memblock_size),
        holds_general(slots[k], memblock_size),
    ensures
        general_in(slots, memblock_size) >= 2,
{
    lemma_general_update(slots, j, None, memblock_size);
    lemma_general_update(slots.update(j, None), k, None, memblock_size);
}

} // verus!
