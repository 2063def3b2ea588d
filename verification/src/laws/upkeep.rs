use vstd::prelude::*;

use crate::flags::{HOST_COHERENT, HOST_VISIBLE};
use crate::laws::custody::{counting_life, given_by, out_of, right_counting_is_fair};
use crate::laws::general_blocks::{general_in, lemma_general_update};
use crate::laws::life::{all_is_accounted_for, asked, born, livable, lived, Event, Life};
use crate::laws::selection::selection_is_compatible;
use crate::laws::tidiness::{
    allocation_stays_tidy, free_stays_tidy, general, honest, honest_free, idle, tidy, tidy_at,
};
use crate::memory_block::MemoryBlock;
use crate::protocol::{FreeReply, Reply};
use crate::search::lemma_first_none;
use crate::sub_allocation::SubAllocationModel;

verus! {

// Throughout, `parts` tells of a sub-allocator how many parts it has given and not got back.

/// The sub-allocators keep their promises at `event`, and nothing is handed back that is not
/// out.
pub open spec fn honest_event<'a, S>(
    life: Life<'a, S>,
    event: Event<'a, S>,
    parts: spec_fn(S) -> nat,
) -> bool {
    match event {
        Event::Begin { .. } => true,
        Event::Serve { sub_allocator, reply } => life.pending matches Some(pending) ==> honest(
            pending.on(life.allocator),
            pending.attempt,
            sub_allocator,
            reply,
            parts,
        ),
        Event::Free { given, sub_allocator, reply } => given.chunk_id is Some ==> {
            &&& life.out.contains(given)
            &&& honest_free(
                life.allocator.memory_types[given.memory_type_index as int],
                given.memory_block_index as int,
                sub_allocator,
                reply,
                parts,
            )
        },
    }
}

/// The same, at each of `events`.
pub open spec fn honest_life<'a, S>(
    life: Life<'a, S>,
    events: Seq<Event<'a, S>>,
    parts: spec_fn(S) -> nat,
) -> bool
    decreases events.len(),
{
    events.len() == 0 || {
        &&& honest_life(life, events.drop_last(), parts)
        &&& honest_event(lived(life, events.drop_last()), events.last(), parts)
    }
}

/// Memory type `i` is tidy, or as tidy as the allocation under way on it leaves it.
pub open spec fn in_order<'a, S>(life: Life<'a, S>, i: int, parts: spec_fn(S) -> nat) -> bool {
    let on = life.allocator.memory_types[i];
    match life.pending {
        Some(pending) => if pending.attempt.memory_type_index == i {
            tidy_at(on, pending.attempt, parts)
        } else {
            tidy(on, parts)
        },
        None => tidy(on, parts),
    }
}

/// All memory types are in order.
pub open spec fn orderly<'a, S>(life: Life<'a, S>, parts: spec_fn(S) -> nat) -> bool {
    forall|i: int| 0 <= i < life.allocator.memory_types.len() ==> #[trigger] in_order(
        life,
        i,
        parts,
    )
}

/// Once everything that was allocated is freed again, every memory type has at most one
/// block left: a general one, from which nothing is allocated.
pub proof fn everything_freed<'a, S>(
    life: Life<'a, S>,
    events: Seq<Event<'a, S>>,
    parts: spec_fn(S) -> nat,
    i: int,
)
    requires
        born(life),
        livable(life, events),
        honest_life(life, events, parts),
        lived(life, events).pending is None,
        lived(life, events).out.len() == 0,
        0 <= i < lived(life, events).allocator.memory_types.len(),
    ensures
        ({
            let on = lived(life, events).allocator.memory_types[i];
            &&& on.active_general_blocks <= 1
            &&& forall|j: int| #[trigger] on.live(j) ==> general(on, j) && idle(on, j, parts)
            &&& forall|j: int, k: int| #[trigger] on.live(j) && #[trigger] on.live(k) ==> j == k
            &&& on.active_general_blocks == 0 ==> forall|j: int| !#[trigger] on.live(j)
        }),
{
    let end = lived(life, events);
    let on = end.allocator.memory_types[i];
    a_life_stays_orderly(life, events, parts);
    honesty_is_right_counting(life, events, parts);
    right_counting_is_fair(life, events, parts);
    assert(in_order(end, i, parts));
    assert forall|j: int| #[trigger] on.live(j) implies general(on, j) && idle(on, j, parts) by {
        assert(out_of(end.out, i, j) == given_by(end.allocator, i, j, parts));
        assert(idle(on, j, parts));
    }
    if exists|j: int| #[trigger] on.live(j) {
        let j = choose|j: int| #[trigger] on.live(j);
        let rest = on.memory_blocks.update(j, None);
        assert forall|k: int| 0 <= k < rest.len() implies (#[trigger] rest[k]) is None by {
            if k != j && on.live(k) {
                assert(idle(on, j, parts) && idle(on, k, parts));
            }
        }
        lemma_no_general(rest, on.memblock_size());
        lemma_general_update(on.memory_blocks, j, None, on.memblock_size());
    } else {
        assert forall|j: int| 0 <= j < on.memory_blocks.len() implies (
        #[trigger] on.memory_blocks[j]) is None by {
            assert(!on.live(j));
        }
        lemma_no_general(on.memory_blocks, on.memblock_size());
    }
}

/// Sub-allocators that keep all their promises count rightly.
pub proof fn honesty_is_right_counting<'a, S>(
    life: Life<'a, S>,
    events: Seq<Event<'a, S>>,
    parts: spec_fn(S) -> nat,
)
    requires
        honest_life(life, events, parts),
    ensures
        counting_life(life, events, parts),
    decreases events.len(),
{
    if events.len() > 0 {
        honesty_is_right_counting(life, events.drop_last(), parts);
    }
}

/// As long as the sub-allocators are honest, the memory types stay in order.
pub proof fn a_life_stays_orderly<'a, S>(
    life: Life<'a, S>,
    events: Seq<Event<'a, S>>,
    parts: spec_fn(S) -> nat,
)
    requires
        born(life),
        livable(life, events),
        honest_life(life, events, parts),
    ensures
        orderly(lived(life, events), parts),
    decreases events.len(),
{
    if events.len() == 0 {
        assert forall|i: int|
            0 <= i < life.allocator.memory_types.len() implies #[trigger] in_order(
            life,
            i,
            parts,
        ) by {
            assert forall|j: int| !#[trigger] idle(life.allocator.memory_types[i], j, parts) by {}
        }
    } else {
        let before = lived(life, events.drop_last());
        let after = lived(life, events);
        a_life_stays_orderly(life, events.drop_last(), parts);
        all_is_accounted_for(life, events.drop_last());
        all_is_accounted_for(life, events);
        assert forall|i: int|
            0 <= i < after.allocator.memory_types.len() implies #[trigger] in_order(
            after,
            i,
            parts,
        ) by {
            assert(in_order(before, i, parts));
            match events.last() {
                Event::Begin { desc, .. } => {
                    selection_is_compatible(before.allocator, desc.requirements, desc.location);
                },
                Event::Serve { sub_allocator, reply } => {
                    lemma_serve_keeps_order(before, sub_allocator, reply, parts, i);
                },
                Event::Free { given, sub_allocator, reply } => {
                    lemma_free_keeps_order(before, given, sub_allocator, reply, parts, i);
                },
            }
        }
    }
}

/// A reply keeps memory type `i` in order.
proof fn lemma_serve_keeps_order<'a, S>(
    life: Life<'a, S>,
    sub_allocator: S,
    reply: Reply<S>,
    parts: spec_fn(S) -> nat,
    i: int,
)
    requires
        life.accounted(),
        life.admits(Event::Serve { sub_allocator, reply }),
        honest_event(life, Event::Serve { sub_allocator, reply }, parts),
        orderly(life, parts),
        0 <= i < life.allocator.memory_types.len(),
        life.after(Event::Serve { sub_allocator, reply }).accounted(),
    ensures
        in_order(life.after(Event::Serve { sub_allocator, reply }), i, parts),
{
    let pending = life.pending->0;
    let after = life.after(Event::Serve { sub_allocator, reply });
    let t = pending.attempt.memory_type_index as int;
    let on = life.allocator.memory_types[t];
    let served_on = asked(on, pending.attempt, sub_allocator);
    let next = pending.attempt.state_after(served_on, reply);
    assert(in_order(life, t, parts));
    assert(in_order(life, i, parts));
    allocation_stays_tidy(on, pending.attempt, sub_allocator, reply, parts);
    assert(after.allocator.memory_types =~= life.allocator.memory_types.update(t, next));
    if pending.attempt.after(served_on, reply) is Failed {
        lemma_first_none(
            after.allocator.compatibility(
                pending.desc.requirements,
                HOST_VISIBLE | HOST_COHERENT,
            ),
        );
    }
}

/// A free keeps memory type `i` in order.
proof fn lemma_free_keeps_order<'a, S>(
    life: Life<'a, S>,
    given: SubAllocationModel,
    sub_allocator: S,
    reply: FreeReply,
    parts: spec_fn(S) -> nat,
    i: int,
)
    requires
        life.admits(Event::Free { given, sub_allocator, reply }),
        honest_event(life, Event::Free { given, sub_allocator, reply }, parts),
        orderly(life, parts),
        0 <= i < life.allocator.memory_types.len(),
    ensures
        in_order(life.after(Event::Free { given, sub_allocator, reply }), i, parts),
{
    assert(in_order(life, i, parts));
    if given.chunk_id is Some && life.backed(given) {
        let t = given.memory_type_index as int;
        let slot = given.memory_block_index as int;
        assert(in_order(life, t, parts));
        free_stays_tidy(life.allocator.memory_types[t], slot, sub_allocator, reply, parts);
    }
}

/// Where there is no block, there is no general one.
proof fn lemma_no_general<S>(slots: Seq<Option<MemoryBlock<S>>>, memblock_size: u64)
    requires
        forall|j: int| 0 <= j < slots.len() ==> (#[trigger] slots[j]) is None,
    ensures
        general_in(slots, memblock_size) == 0,
    decreases slots.len(),
{
    if slots.len() > 0 {
        lemma_no_general(slots.drop_last(), memblock_size);
    }
}

} // verus!
