use vstd::prelude::*;

use crate::allocator::AllocatorModel;
use crate::flags::{HOST_COHERENT, HOST_VISIBLE};
use crate::laws::custody::{
    a_life_keeps_what_is_out, counting_event, counting_life, given_by, out_of,
    right_counting_is_fair,
};
use crate::laws::general_blocks::truthful;
use crate::laws::life::{all_is_accounted_for, born, livable, lived, Event, Life};
use crate::laws::search_order::new_block_displaces_nothing;
use crate::laws::selection::selection_is_compatible;
use crate::laws::tidiness::{general, idle};
use crate::laws::upkeep::honest_life;
use crate::memory_block::CreationProgress;
use crate::memory_type::{AllocationStage, DEFAULT_HOST_MEMBLOCK_SIZE};
use crate::protocol::{FreeReply, Reply};
use crate::search::{lemma_first_none, lemma_last_none};
use crate::sub_allocation::SubAllocationModel;
use crate::types::{AllocationCreateDesc, MemoryLocation};

verus! {

/// All blocks that there are are the one in the only slot of memory type `i`, a general one.
pub open spec fn single_block<S>(allocator: AllocatorModel<S>, i: int) -> bool {
    &&& 0 <= i < allocator.memory_types.len()
    &&& allocator.memory_types[i].memory_blocks.len() == 1
    &&& allocator.memory_types[i].live(0)
    &&& general(allocator.memory_types[i], 0)
    &&& allocator.memory_types[i].active_general_blocks == 1
    &&& forall|k: int|
        0 <= k < allocator.memory_types.len() && k != i ==> (
        #[trigger] allocator.memory_types[k]).memory_blocks.len() == 0
}

/// A refusal by a sub-allocator does not make the allocation turn to another block: it ends
/// the allocation, or the same memory type is searched again. Only the second attempt of an
/// upload does otherwise, if the block that was created for the first attempt refused it.
pub open spec fn steady_event<'a, S>(life: Life<'a, S>, event: Event<'a, S>) -> bool {
    event matches Event::Serve { reply: Reply::SubAllocated(Err(_)), .. } ==> (life.after(
        event,
    ).pending matches Some(next) ==> {
        &&& next.attempt.memory_type_index == life.pending->0.attempt.memory_type_index
        &&& next.attempt.stage is Search
    })
}

/// The same, at each of `events`.
pub open spec fn steady_life<'a, S>(life: Life<'a, S>, events: Seq<Event<'a, S>>) -> bool
    decreases events.len(),
{
    events.len() == 0 || {
        &&& steady_life(life, events.drop_last())
        &&& steady_event(lived(life, events.drop_last()), events.last())
    }
}

/// A request that fits a general block of any memory type, put to a new allocator and handed
/// back once it was met, leaves exactly one block: the general one that was created for it,
/// with nothing allocated from it. The free makes no call on the device.
pub proof fn small_request_round_trip<'a, S>(
    life: Life<'a, S>,
    desc: AllocationCreateDesc<'a>,
    backtrace: Option<&'a str>,
    serves: Seq<Event<'a, S>>,
    given: SubAllocationModel,
    sub_allocator: S,
    reply: FreeReply,
    parts: spec_fn(S) -> nat,
)
    requires
        born(life),
        desc.requirements.size <= DEFAULT_HOST_MEMBLOCK_SIZE,
        forall|k: int| 0 <= k < serves.len() ==> #[trigger] serves[k] is Serve,
        ({
            let events = seq![Event::Begin { desc, backtrace }] + serves;
            let met = lived(life, events);
            &&& livable(life, events)
            &&& counting_life(life, events, parts)
            &&& steady_life(life, events)
            &&& met.out == seq![given]
            &&& counting_event(met, Event::Free { given, sub_allocator, reply }, parts)
            &&& truthful(
                met.allocator.memory_types[given.memory_type_index as int],
                given.memory_block_index as int,
                reply,
            )
        }),
        !(reply is Refused),
    ensures
        ({
            let met = lived(life, seq![Event::Begin { desc, backtrace }] + serves);
            let after = met.after(Event::Free { given, sub_allocator, reply });
            let i = given.memory_type_index as int;
            &&& met.admits(Event::Free { given, sub_allocator, reply })
            &&& single_block(met.allocator, i)
            &&& single_block(after.allocator, i)
            &&& given.memory_block_index == 0
            &&& after.allocator.memory_types[i].block(0).device_memory == given.device_memory
            &&& idle(after.allocator.memory_types[i], 0, parts)
            &&& after.out.len() == 0
            &&& after.trace == met.trace
        }),
{
    let events = seq![Event::Begin { desc, backtrace }] + serves;
    let met = lived(life, events);
    let after = met.after(Event::Free { given, sub_allocator, reply });
    let i = given.memory_type_index as int;
    lemma_on_the_way(life, desc, backtrace, serves);
    all_is_accounted_for(life, events);
    right_counting_is_fair(life, events, parts);
    a_life_keeps_what_is_out(life, events);
    assert(met.out[0] == given);
    assert(out_of(met.out, i, 0) == given_by(met.allocator, i, 0, parts));
    assert(met.out.drop_last() =~= Seq::empty());
    assert(met.out.contains(given));
    assert(out_of(met.out, i, 0) == 1) by {
        reveal_with_fuel(out_of, 2);
    }
    assert(met.out.index_of(given) == 0);
    assert(after.trace =~= met.trace);
}

/// A small request to a new allocator never turns to another block if it is not for uploads,
/// or if new blocks meet the request that they were created for.
pub proof fn small_request_is_steady<'a, S>(
    life: Life<'a, S>,
    desc: AllocationCreateDesc<'a>,
    backtrace: Option<&'a str>,
    serves: Seq<Event<'a, S>>,
    parts: spec_fn(S) -> nat,
)
    requires
        born(life),
        desc.requirements.size <= DEFAULT_HOST_MEMBLOCK_SIZE,
        forall|k: int| 0 <= k < serves.len() ==> #[trigger] serves[k] is Serve,
        livable(life, seq![Event::Begin { desc, backtrace }] + serves),
        desc.location != MemoryLocation::CpuToGpu || honest_life(
            life,
            seq![Event::Begin { desc, backtrace }] + serves,
            parts,
        ),
    ensures
        steady_life(life, seq![Event::Begin { desc, backtrace }] + serves),
{
    lemma_never_searches(life, desc, backtrace, serves, parts);
}

proof fn lemma_never_searches<'a, S>(
    life: Life<'a, S>,
    desc: AllocationCreateDesc<'a>,
    backtrace: Option<&'a str>,
    serves: Seq<Event<'a, S>>,
    parts: spec_fn(S) -> nat,
)
    requires
        born(life),
        desc.requirements.size <= DEFAULT_HOST_MEMBLOCK_SIZE,
        forall|k: int| 0 <= k < serves.len() ==> #[trigger] serves[k] is Serve,
        livable(life, seq![Event::Begin { desc, backtrace }] + serves),
        desc.location != MemoryLocation::CpuToGpu || honest_life(
            life,
            seq![Event::Begin { desc, backtrace }] + serves,
            parts,
        ),
    ensures
        ({
            let events = seq![Event::Begin { desc, backtrace }] + serves;
            &&& steady_life(life, events)
            &&& lived(life, events).pending matches Some(pending) ==> !(
            pending.attempt.stage is Search)
        }),
    decreases serves.len(),
{
    let begin = seq![Event::Begin { desc, backtrace }];
    let events = begin + serves;
    if serves.len() == 0 {
        assert(events.drop_last() =~= Seq::empty());
        assert(events.last() == begin[0]);
        assert(steady_life(life, events)) by {
            reveal_with_fuel(steady_life, 2);
        }
        lemma_on_the_way(life, desc, backtrace, serves);
        assert(lived(life, events.drop_last()) == life) by {
            reveal_with_fuel(lived, 2);
        }
    } else {
        let before = lived(life, events.drop_last());
        assert(events.drop_last() =~= begin + serves.drop_last());
        assert(events.last() == serves.last());
        lemma_never_searches(life, desc, backtrace, serves.drop_last(), parts);
        lemma_on_the_way(life, desc, backtrace, serves.drop_last());
        all_is_accounted_for(life, events.drop_last());
        assert(steady_event(before, events.last()));
        lemma_on_the_way(life, desc, backtrace, serves);
        let pending = before.pending->0;
        if let AllocationStage::Create(creation) = pending.attempt.stage {
            match events.last() {
                Event::Serve { reply, .. } => {
                    if !(creation.after(reply) is Created) {
                        assert(lived(life, events).allocator =~= before.allocator);
                    }
                },
                _ => {},
            }
        }
    }
}

/// How far a small request to a new allocator has come: there is no block, or the one that
/// was created for it.
spec fn on_the_way<'a, S>(life: Life<'a, S>, desc: AllocationCreateDesc<'a>) -> bool {
    match life.pending {
        Some(pending) => {
            &&& pending.desc == desc
            &&& life.out.len() == 0
            &&& match pending.attempt.stage {
                AllocationStage::Create(_) => life.allocator.blockless(),
                AllocationStage::Search { memory_block_index }
                | AllocationStage::Fill { memory_block_index, .. } => {
                    &&& memory_block_index == 0
                    &&& single_block(life.allocator, pending.attempt.memory_type_index as int)
                },
            }
        },
        None => life.out.len() == 0 || {
            &&& life.out.len() == 1
            &&& life.out[0].memory_block_index == 0
            &&& single_block(life.allocator, life.out[0].memory_type_index as int)
        },
    }
}

proof fn lemma_on_the_way<'a, S>(
    life: Life<'a, S>,
    desc: AllocationCreateDesc<'a>,
    backtrace: Option<&'a str>,
    serves: Seq<Event<'a, S>>,
)
    requires
        born(life),
        desc.requirements.size <= DEFAULT_HOST_MEMBLOCK_SIZE,
        forall|k: int| 0 <= k < serves.len() ==> #[trigger] serves[k] is Serve,
        livable(life, seq![Event::Begin { desc, backtrace }] + serves),
        steady_life(life, seq![Event::Begin { desc, backtrace }] + serves),
    ensures
        on_the_way(lived(life, seq![Event::Begin { desc, backtrace }] + serves), desc),
    decreases serves.len(),
{
    let begin = seq![Event::Begin { desc, backtrace }];
    let events = begin + serves;
    if serves.len() == 0 {
        assert(events.drop_last() =~= Seq::empty());
        assert(events.last() == begin[0]);
        assert(lived(life, events.drop_last()) == life) by {
            reveal_with_fuel(lived, 2);
        }
        selection_is_compatible(life.allocator, desc.requirements, desc.location);
        if let Some(i) = life.allocator.select(desc.requirements, desc.location) {
            lemma_last_none(life.allocator.memory_types[i].occupancy(0));
        }
    } else {
        assert(events.drop_last() =~= begin + serves.drop_last());
        assert(events.last() == serves.last());
        lemma_on_the_way(life, desc, backtrace, serves.drop_last());
        all_is_accounted_for(life, events.drop_last());
        match events.last() {
            Event::Serve { sub_allocator, reply } => {
                lemma_still_on_the_way(
                    lived(life, events.drop_last()),
                    desc,
                    sub_allocator,
                    reply,
                );
            },
            _ => {},
        }
    }
}

proof fn lemma_still_on_the_way<'a, S>(
    life: Life<'a, S>,
    desc: AllocationCreateDesc<'a>,
    sub_allocator: S,
    reply: Reply<S>,
)
    requires
        on_the_way(life, desc),
        desc.requirements.size <= DEFAULT_HOST_MEMBLOCK_SIZE,
        life.accounted(),
        life.admits(Event::Serve { sub_allocator, reply }),
        steady_event(life, Event::Serve { sub_allocator, reply }),
    ensures
        on_the_way(life.after(Event::Serve { sub_allocator, reply }), desc),
{
    let pending = life.pending->0;
    let on = pending.on(life.allocator);
    let after = life.after(Event::Serve { sub_allocator, reply });
    let marks = after.allocator.compatibility(desc.requirements, HOST_VISIBLE | HOST_COHERENT);
    lemma_first_none(marks);
    if let Some(i) = after.allocator.find_memorytype_index(
        desc.requirements,
        HOST_VISIBLE | HOST_COHERENT,
    ) {
        let types = after.allocator.memory_types;
        lemma_last_none(types[i].occupancy(types[i].memory_blocks.len() as int));
    }
    match pending.attempt.stage {
        AllocationStage::Create(creation) => {
            if let CreationProgress::Created(block) = creation.after(reply) {
                new_block_displaces_nothing(on, block, creation.dedicated);
            } else {
                assert(after.allocator =~= life.allocator);
            }
        },
        AllocationStage::Search { memory_block_index } => {
            lemma_last_none(on.occupancy(0));
            let served_on = on.with_sub_allocator(0, sub_allocator);
            lemma_last_none(served_on.occupancy(0));
        },
        AllocationStage::Fill { .. } => {},
    }
}

} // verus!
