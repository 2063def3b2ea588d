use vstd::prelude::*;

use crate::allocator::{Allocation, AllocatorModel};
use crate::laws::life::{all_is_accounted_for, born, livable, lived, served, without, Event, Life};
use crate::laws::search_order::new_block_displaces_nothing;
use crate::memory_block::CreationProgress;
use crate::memory_type::{AllocationStage, MemoryTypeModel, TypeAllocation};
use crate::progress::ProgressModel;
use crate::protocol::{FreeReply, Reply};
use crate::sub_allocation::SubAllocationModel;

verus! {

/// `given` is a part of the block in slot `j` of memory type `i`.
pub open spec fn lies_in(given: SubAllocationModel, i: int, j: int) -> bool {
    given.memory_type_index == i && given.memory_block_index == j
}

/// How many parts of the block in slot `j` of memory type `i` are out.
pub open spec fn out_of(out: Seq<SubAllocationModel>, i: int, j: int) -> nat
    decreases out.len(),
{
    if out.len() == 0 {
        0
    } else {
        out_of(out.drop_last(), i, j) + if lies_in(out.last(), i, j) {
            1nat
        } else {
            0nat
        }
    }
}

/// There is a block in slot `j` of memory type `i`.
pub open spec fn present<S>(allocator: AllocatorModel<S>, i: int, j: int) -> bool {
    0 <= i < allocator.memory_types.len() && allocator.memory_types[i].live(j)
}

/// `given` can be handed back, and its memory is there: it names a block, and the memory
/// object of that block.
pub open spec fn placed<S>(allocator: AllocatorModel<S>, given: SubAllocationModel) -> bool {
    let i = given.memory_type_index as int;
    let j = given.memory_block_index as int;
    &&& given.chunk_id is Some
    &&& present(allocator, i, j)
    &&& allocator.memory_types[i].block(j).device_memory == given.device_memory
}

/// No sub-allocator says that it is empty while a part of its block is out.
pub open spec fn fair_event<'a, S>(life: Life<'a, S>, event: Event<'a, S>) -> bool {
    match event {
        Event::Free { given, reply: FreeReply::Empty { .. }, .. } => {
            given.chunk_id is Some && life.backed(given) ==> out_of(
                without(life.out, given),
                given.memory_type_index as int,
                given.memory_block_index as int,
            ) == 0
        },
        _ => true,
    }
}

/// The same, at each of `events`.
pub open spec fn fair_life<'a, S>(life: Life<'a, S>, events: Seq<Event<'a, S>>) -> bool
    decreases events.len(),
{
    events.len() == 0 || {
        &&& fair_life(life, events.drop_last())
        &&& fair_event(lived(life, events.drop_last()), events.last())
    }
}

/// All that is out is there.
pub open spec fn kept<'a, S>(life: Life<'a, S>) -> bool {
    forall|k: int| 0 <= k < life.out.len() ==> placed(life.allocator, #[trigger] life.out[k])
}

/// As long as a part is out, its block stays: the slot that the sub-allocation names holds a
/// block on its memory object, whatever else is allocated and freed, and even if something is
/// handed back that is not out.
pub proof fn what_is_out_is_there<'a, S>(
    life: Life<'a, S>,
    events: Seq<Event<'a, S>>,
    given: SubAllocationModel,
)
    requires
        born(life),
        livable(life, events),
        fair_life(life, events),
        lived(life, events).out.contains(given),
    ensures
        placed(lived(life, events).allocator, given),
{
    let end = lived(life, events);
    a_life_keeps_what_is_out(life, events);
    let k = choose|k: int| 0 <= k < end.out.len() && end.out[k] == given;
    assert(placed(end.allocator, end.out[k]));
}

/// At every moment, all that is out is there.
pub proof fn a_life_keeps_what_is_out<'a, S>(life: Life<'a, S>, events: Seq<Event<'a, S>>)
    requires
        born(life),
        livable(life, events),
        fair_life(life, events),
    ensures
        kept(lived(life, events)),
    decreases events.len(),
{
    if events.len() > 0 {
        let before = lived(life, events.drop_last());
        a_life_keeps_what_is_out(life, events.drop_last());
        all_is_accounted_for(life, events.drop_last());
        match events.last() {
            Event::Begin { .. } => {},
            Event::Serve { sub_allocator, reply } => {
                lemma_serve_keeps(before, sub_allocator, reply);
            },
            Event::Free { given, sub_allocator, reply } => {
                lemma_free_keeps(before, given, sub_allocator, reply);
            },
        }
    }
}

proof fn lemma_serve_keeps<'a, S>(life: Life<'a, S>, sub_allocator: S, reply: Reply<S>)
    requires
        life.accounted(),
        life.admits(Event::Serve { sub_allocator, reply }),
        kept(life),
    ensures
        kept(life.after(Event::Serve { sub_allocator, reply })),
{
    let after = life.after(Event::Serve { sub_allocator, reply });
    let pending = life.pending->0;
    lemma_serve_changes_one_slot(life, sub_allocator, reply);
    assert forall|k: int| 0 <= k < after.out.len() implies placed(
        after.allocator,
        #[trigger] after.out[k],
    ) by {
        if k < life.out.len() {
            let given = life.out[k];
            assert(placed(life.allocator, given));
            assert(present(
                life.allocator,
                given.memory_type_index as int,
                given.memory_block_index as int,
            ));
        } else {
            assert(present(
                after.allocator,
                pending.attempt.memory_type_index as int,
                slot_of(pending, life.allocator),
            ));
        }
    }
}

proof fn lemma_free_keeps<'a, S>(
    life: Life<'a, S>,
    given: SubAllocationModel,
    sub_allocator: S,
    reply: FreeReply,
)
    requires
        life.admits(Event::Free { given, sub_allocator, reply }),
        fair_event(life, Event::Free { given, sub_allocator, reply }),
        kept(life),
    ensures
        kept(life.after(Event::Free { given, sub_allocator, reply })),
{
    let after = life.after(Event::Free { given, sub_allocator, reply });
    assert forall|l: int| 0 <= l < after.out.len() implies placed(
        after.allocator,
        #[trigger] after.out[l],
    ) by {
        let m = lemma_was_out(life, given, sub_allocator, reply, l);
        assert(placed(life.allocator, life.out[m]));
        lemma_out_is_counted(after.out, l);
    }
}

/// What is out after a free was out before.
pub(crate) proof fn lemma_was_out<'a, S>(
    life: Life<'a, S>,
    given: SubAllocationModel,
    sub_allocator: S,
    reply: FreeReply,
    l: int,
) -> (m: int)
    requires
        0 <= l < life.after(Event::Free { given, sub_allocator, reply }).out.len(),
    ensures
        m == earlier_index(life, given, sub_allocator, reply, l),
        0 <= m < life.out.len(),
        life.out[m] == life.after(Event::Free { given, sub_allocator, reply }).out[l],
{
    if life.out.contains(given) {
        let k = life.out.index_of(given);
        assert(0 <= k < life.out.len() && life.out[k] == given);
    }
    earlier_index(life, given, sub_allocator, reply, l)
}

/// Where that stood which stands at `l` after a free.
pub(crate) open spec fn earlier_index<'a, S>(
    life: Life<'a, S>,
    given: SubAllocationModel,
    sub_allocator: S,
    reply: FreeReply,
    l: int,
) -> int {
    let after = life.after(Event::Free { given, sub_allocator, reply });
    if after.out.len() < life.out.len() && l >= life.out.index_of(given) {
        l + 1
    } else {
        l
    }
}

/// The slot that the next reply is about.
pub open spec fn slot_of<'a, S>(pending: Allocation<'a>, allocator: AllocatorModel<S>) -> int {
    match pending.attempt.stage {
        AllocationStage::Search { memory_block_index }
        | AllocationStage::Fill { memory_block_index, .. } => memory_block_index as int,
        AllocationStage::Create(creation) => pending.on(allocator).slot_for(creation.dedicated),
    }
}

/// A reply changes the block in at most one slot, and never its memory.
pub(crate) proof fn lemma_serve_changes_one_slot<'a, S>(
    life: Life<'a, S>,
    sub_allocator: S,
    reply: Reply<S>,
)
    requires
        life.accounted(),
        life.admits(Event::Serve { sub_allocator, reply }),
    ensures
        ({
            let before = life.allocator;
            let after = life.after(Event::Serve { sub_allocator, reply }).allocator;
            let pending = life.pending->0;
            &&& after.memory_types.len() == before.memory_types.len()
            &&& forall|i: int|
                0 <= i < before.memory_types.len() && i != pending.attempt.memory_type_index
                    ==> #[trigger] after.memory_types[i] == before.memory_types[i]
            &&& forall|i: int, j: int| #[trigger]
                present(after, i, j) && !(i == pending.attempt.memory_type_index && j == slot_of(
                    pending,
                    before,
                )) ==> present(before, i, j) && after.memory_types[i].block(j)
                    == before.memory_types[i].block(j)
            &&& forall|i: int, j: int| #[trigger]
                present(before, i, j) ==> present(after, i, j)
                    && after.memory_types[i].block(j).device_memory
                    == before.memory_types[i].block(j).device_memory
                    && after.memory_types[i].block(j).size == before.memory_types[i].block(j).size
                    && after.memory_types[i].block(j).mapped_ptr
                    == before.memory_types[i].block(j).mapped_ptr
        }),
{
    let pending = life.pending->0;
    let on = pending.on(life.allocator);
    if let AllocationStage::Create(creation) = pending.attempt.stage {
        if let CreationProgress::Created(block) = creation.after(reply) {
            new_block_displaces_nothing(on, block, creation.dedicated);
        }
    }
}

// From here on, `parts` tells of a sub-allocator how many parts it has given and not got back.

/// How many parts the sub-allocator in slot `j` of memory type `i` has given and not got
/// back.
pub open spec fn given_by<S>(
    allocator: AllocatorModel<S>,
    i: int,
    j: int,
    parts: spec_fn(S) -> nat,
) -> nat {
    if present(allocator, i, j) {
        parts(allocator.memory_types[i].block(j).sub_allocator)
    } else {
        0
    }
}

/// A sub-allocator that is created or asked counts rightly: it starts out empty, a request
/// that it meets adds a part, and one that it refuses adds none.
pub open spec fn counts<'a, S>(
    on: MemoryTypeModel<S>,
    attempt: TypeAllocation<'a>,
    sub_allocator: S,
    reply: Reply<S>,
    parts: spec_fn(S) -> nat,
) -> bool {
    match attempt.stage {
        AllocationStage::Search { memory_block_index }
        | AllocationStage::Fill { memory_block_index, .. } => {
            let before = on.block(memory_block_index as int).sub_allocator;
            parts(sub_allocator) == parts(before) + if reply->SubAllocated_0 is Ok {
                1nat
            } else {
                0nat
            }
        },
        AllocationStage::Create(_) => reply matches Reply::SubAllocatorCreated(created) ==> parts(
            created,
        ) == 0,
    }
}

/// The sub-allocator in slot `j` counts rightly when a part is handed back: it has one part
/// less unless it refuses, and says that it is empty only if it is.
pub open spec fn counts_free<S>(
    on: MemoryTypeModel<S>,
    j: int,
    sub_allocator: S,
    reply: FreeReply,
    parts: spec_fn(S) -> nat,
) -> bool {
    let before = on.block(j).sub_allocator;
    match reply {
        FreeReply::Refused(_) => parts(sub_allocator) == parts(before),
        FreeReply::InUse => parts(before) == parts(sub_allocator) + 1,
        FreeReply::Empty { .. } => parts(before) == 1 && parts(sub_allocator) == 0,
    }
}

/// The sub-allocators count rightly at `event`, and nothing is handed back that is not out.
pub open spec fn counting_event<'a, S>(
    life: Life<'a, S>,
    event: Event<'a, S>,
    parts: spec_fn(S) -> nat,
) -> bool {
    match event {
        Event::Begin { .. } => true,
        Event::Serve { sub_allocator, reply } => life.pending matches Some(pending) ==> counts(
            pending.on(life.allocator),
            pending.attempt,
            sub_allocator,
            reply,
            parts,
        ),
        Event::Free { given, sub_allocator, reply } => given.chunk_id is Some ==> {
            &&& life.out.contains(given)
            &&& counts_free(
                life.allocator.memory_types[given.memory_type_index as int],
                given.memory_block_index as int,
                sub_allocator,
                reply,
                parts,
            )
        },
    }
}

/// The same, at each of `events`.
pub open spec fn counting_life<'a, S>(
    life: Life<'a, S>,
    events: Seq<Event<'a, S>>,
    parts: spec_fn(S) -> nat,
) -> bool
    decreases events.len(),
{
    events.len() == 0 || {
        &&& counting_life(life, events.drop_last(), parts)
        &&& counting_event(lived(life, events.drop_last()), events.last(), parts)
    }
}

/// Each sub-allocator has given what is out of its block.
pub open spec fn tallied<'a, S>(life: Life<'a, S>, parts: spec_fn(S) -> nat) -> bool {
    forall|i: int, j: int| #[trigger]
        out_of(life.out, i, j) == given_by(life.allocator, i, j, parts)
}

/// Sub-allocators that count rightly never say that they are empty while a part of their
/// block is out, and have given exactly what is out.
pub proof fn right_counting_is_fair<'a, S>(
    life: Life<'a, S>,
    events: Seq<Event<'a, S>>,
    parts: spec_fn(S) -> nat,
)
    requires
        born(life),
        livable(life, events),
        counting_life(life, events, parts),
    ensures
        fair_life(life, events),
        tallied(lived(life, events), parts),
    decreases events.len(),
{
    if events.len() > 0 {
        let before = lived(life, events.drop_last());
        right_counting_is_fair(life, events.drop_last(), parts);
        all_is_accounted_for(life, events.drop_last());
        match events.last() {
            Event::Begin { .. } => {},
            Event::Serve { sub_allocator, reply } => {
                let after = lived(life, events);
                assert forall|i: int, j: int| #[trigger]
                    out_of(after.out, i, j) == given_by(after.allocator, i, j, parts) by {
                    lemma_serve_gives(before, sub_allocator, reply, parts, i, j);
                }
            },
            Event::Free { given, sub_allocator, reply } => {
                lemma_free_takes(before, given, sub_allocator, reply, parts);
            },
        }
    }
}

/// A reply keeps count of what is out of the block in slot `j` of memory type `i`.
proof fn lemma_serve_gives<'a, S>(
    life: Life<'a, S>,
    sub_allocator: S,
    reply: Reply<S>,
    parts: spec_fn(S) -> nat,
    i: int,
    j: int,
)
    requires
        life.accounted(),
        life.admits(Event::Serve { sub_allocator, reply }),
        counting_event(life, Event::Serve { sub_allocator, reply }, parts),
        tallied(life, parts),
    ensures
        ({
            let after = life.after(Event::Serve { sub_allocator, reply });
            out_of(after.out, i, j) == given_by(after.allocator, i, j, parts)
        }),
{
    let pending = life.pending->0;
    let after = life.after(Event::Serve { sub_allocator, reply });
    let allocator = served(life.allocator, pending, sub_allocator);
    lemma_serve_changes_one_slot(life, sub_allocator, reply);
    assert(out_of(life.out, i, j) == given_by(life.allocator, i, j, parts));
    assert(present(life.allocator, i, j) ==> present(after.allocator, i, j));
    if let AllocationStage::Create(creation) = pending.attempt.stage {
        if let CreationProgress::Created(block) = creation.after(reply) {
            new_block_displaces_nothing(pending.on(life.allocator), block, creation.dedicated);
        }
    }
    if let ProgressModel::Allocated(given) = pending.after(allocator, reply) {
        assert(life.out.push(given).drop_last() =~= life.out);
    }
}

proof fn lemma_free_takes<'a, S>(
    life: Life<'a, S>,
    given: SubAllocationModel,
    sub_allocator: S,
    reply: FreeReply,
    parts: spec_fn(S) -> nat,
)
    requires
        life.admits(Event::Free { given, sub_allocator, reply }),
        counting_event(life, Event::Free { given, sub_allocator, reply }, parts),
        tallied(life, parts),
    ensures
        fair_event(life, Event::Free { given, sub_allocator, reply }),
        tallied(life.after(Event::Free { given, sub_allocator, reply }), parts),
{
    let after = life.after(Event::Free { given, sub_allocator, reply });
    if given.chunk_id is Some && life.backed(given) {
        let k = life.out.index_of(given);
        assert(0 <= k < life.out.len() && life.out[k] == given);
        let t = given.memory_type_index as int;
        let slot = given.memory_block_index as int;
        lemma_taken_back(life.out, k, t, slot);
        assert(out_of(life.out, t, slot) == given_by(life.allocator, t, slot, parts));
        assert forall|i: int, j: int| #[trigger]
            out_of(after.out, i, j) == given_by(after.allocator, i, j, parts) by {
            assert(out_of(life.out, i, j) == given_by(life.allocator, i, j, parts));
            lemma_taken_back(life.out, k, i, j);
        }
    }
}

/// What is out is counted where it lies.
proof fn lemma_out_is_counted(out: Seq<SubAllocationModel>, k: int)
    requires
        0 <= k < out.len(),
    ensures
        out_of(out, out[k].memory_type_index as int, out[k].memory_block_index as int) > 0,
    decreases out.len(),
{
    if k < out.len() - 1 {
        lemma_out_is_counted(out.drop_last(), k);
    }
}

/// What is taken back is no longer counted where it lay.
proof fn lemma_taken_back(out: Seq<SubAllocationModel>, k: int, i: int, j: int)
    requires
        0 <= k < out.len(),
    ensures
        out_of(out.remove(k), i, j) + (if lies_in(out[k], i, j) {
            1nat
        } else {
            0nat
        }) == out_of(out, i, j),
    decreases out.len(),
{
    if k == out.len() - 1 {
        assert(out.remove(k) =~= out.drop_last());
    } else {
        lemma_taken_back(out.drop_last(), k, i, j);
        assert(out.remove(k).drop_last() =~= out.drop_last().remove(k));
    }
}

} // verus!
