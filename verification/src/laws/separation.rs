use vstd::prelude::*;

use crate::allocator::AllocatorModel;
use crate::laws::accounting::{
    held_by_types, lemma_held_update, lemma_held_update_type, Asset,
};
use crate::laws::custody::{
    a_life_keeps_what_is_out, fair_life, kept, lemma_serve_changes_one_slot, lemma_was_out, placed,
    present, slot_of,
};
use crate::laws::life::{
    all_is_accounted_for, balance, born, exchanged, lemma_times_push, livable, lived, made, Event,
    Life, Traffic,
};
use crate::memory_type::MemoryTypeModel;
use crate::protocol::{DeviceCall, FreeReply, Reply};
use crate::sub_allocation::SubAllocationModel;

verus! {

/// `size` bytes from `offset` on have none in common with `other`, which lies in the same
/// block.
pub open spec fn apart(offset: u64, size: u64, other: SubAllocationModel) -> bool {
    offset + size <= other.offset || other.offset + other.size <= offset
}

/// `given` ends within the block that it names.
pub open spec fn within<S>(allocator: AllocatorModel<S>, given: SubAllocationModel) -> bool {
    given.offset + given.size <= allocator.memory_types[given.memory_type_index as int].block(
        given.memory_block_index as int,
    ).size
}

/// Two sub-allocations name the same block.
pub open spec fn same_block(a: SubAllocationModel, b: SubAllocationModel) -> bool {
    a.memory_type_index == b.memory_type_index && a.memory_block_index == b.memory_block_index
}

/// The sub-allocator that gives a part gives one within its block, which has nothing in
/// common with any other part of the block that is out. The device grants no handle that is
/// not freed yet.
pub open spec fn careful_event<'a, S>(life: Life<'a, S>, event: Event<'a, S>) -> bool {
    match event {
        Event::Serve { reply: Reply::SubAllocated(Ok((offset, _))), .. } => {
            let pending = life.pending->0;
            let slot = slot_of(pending, life.allocator);
            let size = pending.attempt.size;
            &&& offset + size <= pending.on(life.allocator).block(slot).size
            &&& forall|k: int|
                0 <= k < life.out.len() && (#[trigger] life.out[k]).memory_type_index
                    == pending.attempt.memory_type_index && life.out[k].memory_block_index == slot
                    ==> apart(offset, size, life.out[k])
        },
        Event::Serve { reply: Reply::MemoryAllocated(Some(device_memory)), .. } => balance(
            Asset::Memory,
            life.trace,
            device_memory,
        ) == 0,
        _ => true,
    }
}

/// Each of `events` happens with care.
pub open spec fn careful_life<'a, S>(life: Life<'a, S>, events: Seq<Event<'a, S>>) -> bool
    decreases events.len(),
{
    events.len() == 0 || {
        &&& careful_life(life, events.drop_last())
        &&& careful_event(lived(life, events.drop_last()), events.last())
    }
}

/// What is out lies within its blocks without overlapping, and no memory object is held
/// twice.
pub open spec fn separate<'a, S>(life: Life<'a, S>) -> bool {
    &&& forall|h: u64| #[trigger] balance(Asset::Memory, life.trace, h) <= 1
    &&& forall|k: int| 0 <= k < life.out.len() ==> within(life.allocator, #[trigger] life.out[k])
    &&& forall|k: int, l: int|
        0 <= k < life.out.len() && 0 <= l < life.out.len() && k != l && same_block(
            #[trigger] life.out[k],
            #[trigger] life.out[l],
        ) ==> apart(life.out[k].offset, life.out[k].size, life.out[l])
}

/// No two sub-allocations that are out overlap: they are parts of different memory objects,
/// or of the same one with no byte in common. Each lies within a block on its memory object.
pub proof fn allocations_do_not_overlap<'a, S>(
    life: Life<'a, S>,
    events: Seq<Event<'a, S>>,
    k: int,
    l: int,
)
    requires
        born(life),
        livable(life, events),
        fair_life(life, events),
        careful_life(life, events),
        0 <= k < lived(life, events).out.len(),
        0 <= l < lived(life, events).out.len(),
        k != l,
    ensures
        ({
            let end = lived(life, events);
            let (given, other) = (end.out[k], end.out[l]);
            &&& placed(end.allocator, given)
            &&& within(end.allocator, given)
            &&& given.device_memory == other.device_memory ==> same_block(given, other) && apart(
                given.offset,
                given.size,
                other,
            )
        }),
{
    let end = lived(life, events);
    let (given, other) = (end.out[k], end.out[l]);
    all_is_accounted_for(life, events);
    a_life_keeps_what_is_out(life, events);
    a_life_stays_separate(life, events);
    assert(placed(end.allocator, end.out[k]));
    assert(placed(end.allocator, end.out[l]));
    if given.device_memory == other.device_memory && !same_block(given, other) {
        lemma_held_twice(
            end.allocator,
            given.memory_type_index as int,
            given.memory_block_index as int,
            other.memory_type_index as int,
            other.memory_block_index as int,
        );
        assert(balance(Asset::Memory, end.trace, given.device_memory) == end.has(
            Asset::Memory,
            given.device_memory,
        ));
    }
}

/// With sub-allocators and a device that take care, what is out stays separate.
pub proof fn a_life_stays_separate<'a, S>(
    life: Life<'a, S>,
    events: Seq<Event<'a, S>>,
)
    requires
        born(life),
        livable(life, events),
        fair_life(life, events),
        careful_life(life, events),
    ensures
        separate(lived(life, events)),
    decreases events.len(),
{
    if events.len() > 0 {
        let before = lived(life, events.drop_last());
        a_life_stays_separate(life, events.drop_last());
        all_is_accounted_for(life, events.drop_last());
        a_life_keeps_what_is_out(life, events.drop_last());
        a_life_keeps_what_is_out(life, events);
        match events.last() {
            Event::Begin { .. } => {},
            Event::Serve { sub_allocator, reply } => {
                lemma_serve_is_separate(before, sub_allocator, reply);
            },
            Event::Free { given, sub_allocator, reply } => {
                lemma_free_is_separate(before, given, sub_allocator, reply);
            },
        }
    }
}

proof fn lemma_serve_is_separate<'a, S>(life: Life<'a, S>, sub_allocator: S, reply: Reply<S>)
    requires
        life.accounted(),
        life.admits(Event::Serve { sub_allocator, reply }),
        careful_event(life, Event::Serve { sub_allocator, reply }),
        separate(life),
        kept(life),
    ensures
        separate(life.after(Event::Serve { sub_allocator, reply })),
{
    let pending = life.pending->0;
    let after = life.after(Event::Serve { sub_allocator, reply });
    let traffic = exchanged(pending.attempt.awaits(), reply);
    lemma_serve_changes_one_slot(life, sub_allocator, reply);
    assert forall|h: u64| #[trigger] balance(Asset::Memory, after.trace, h) <= 1 by {
        assert(balance(Asset::Memory, life.trace, h) <= 1);
        if traffic.len() == 0 {
            assert(after.trace =~= life.trace);
        } else {
            assert(after.trace =~= life.trace.push(traffic[0]));
            lemma_times_push(life.trace, traffic[0]);
        }
    }
    assert forall|k: int| 0 <= k < after.out.len() implies within(
        after.allocator,
        #[trigger] after.out[k],
    ) by {
        if k < life.out.len() {
            let given = life.out[k];
            assert(placed(life.allocator, given));
            assert(within(life.allocator, given));
            assert(present(
                life.allocator,
                given.memory_type_index as int,
                given.memory_block_index as int,
            ));
        } else {
            assert(present(
                life.allocator,
                pending.attempt.memory_type_index as int,
                slot_of(pending, life.allocator),
            ));
        }
    }
    assert forall|k: int, l: int|
        0 <= k < after.out.len() && 0 <= l < after.out.len() && k != l && same_block(
            #[trigger] after.out[k],
            #[trigger] after.out[l],
        ) implies apart(after.out[k].offset, after.out[k].size, after.out[l]) by {
        if k < life.out.len() && l < life.out.len() {
            assert(same_block(life.out[k], life.out[l]));
        }
    }
}

proof fn lemma_free_is_separate<'a, S>(
    life: Life<'a, S>,
    given: SubAllocationModel,
    sub_allocator: S,
    reply: FreeReply,
)
    requires
        life.admits(Event::Free { given, sub_allocator, reply }),
        separate(life),
        kept(life.after(Event::Free { given, sub_allocator, reply })),
    ensures
        separate(life.after(Event::Free { given, sub_allocator, reply })),
{
    let after = life.after(Event::Free { given, sub_allocator, reply });
    if given.chunk_id is Some && life.backed(given) {
        let t = given.memory_type_index as int;
        let slot = given.memory_block_index as int;
        let on = life.allocator.memory_types[t].with_sub_allocator(slot, sub_allocator);
        assert forall|h: u64| #[trigger] balance(Asset::Memory, after.trace, h) <= 1 by {
            assert(balance(Asset::Memory, life.trace, h) <= 1);
            match on.free_outcome(slot, reply) {
                Ok(calls) => {
                    lemma_calls_grant_nothing(life.trace, calls, h);
                },
                Err(_) => {},
            }
        }
        assert forall|l: int| 0 <= l < after.out.len() implies within(
            after.allocator,
            #[trigger] after.out[l],
        ) by {
            assert(placed(after.allocator, after.out[l]));
            let m = lemma_was_out(life, given, sub_allocator, reply, l);
            assert(within(life.allocator, life.out[m]));
        }
        assert forall|k: int, l: int|
            0 <= k < after.out.len() && 0 <= l < after.out.len() && k != l && same_block(
                #[trigger] after.out[k],
                #[trigger] after.out[l],
            ) implies apart(after.out[k].offset, after.out[k].size, after.out[l]) by {
            let m = lemma_was_out(life, given, sub_allocator, reply, k);
            let n = lemma_was_out(life, given, sub_allocator, reply, l);
            assert(same_block(life.out[m], life.out[n]));
        }
    }
}

/// Calls on the device bring no memory.
proof fn lemma_calls_grant_nothing(trace: Seq<Traffic>, calls: Seq<DeviceCall>, h: u64)
    ensures
        balance(Asset::Memory, trace + made(calls), h) <= balance(Asset::Memory, trace, h),
    decreases calls.len(),
{
    if calls.len() == 0 {
        assert(trace + made(calls) =~= trace);
    } else {
        let shorter = trace + made(calls.drop_last());
        lemma_calls_grant_nothing(trace, calls.drop_last(), h);
        assert(trace + made(calls) =~= shorter.push(made(calls).last()));
        lemma_times_push(shorter, made(calls).last());
    }
}

/// A memory object that two blocks lie on is held twice.
proof fn lemma_held_twice<S>(allocator: AllocatorModel<S>, i: int, j: int, k: int, l: int)
    requires
        present(allocator, i, j),
        present(allocator, k, l),
        i != k || j != l,
        allocator.memory_types[i].block(j).device_memory == allocator.memory_types[k].block(
            l,
        ).device_memory,
    ensures
        held_by_types(Asset::Memory, allocator.memory_types).count(
            allocator.memory_types[i].block(j).device_memory,
        ) >= 2,
{
    let types = allocator.memory_types;
    let h = types[i].block(j).device_memory;
    let asset = Asset::Memory;
    let vacated = MemoryTypeModel {
        memory_blocks: types[i].memory_blocks.update(j, None),
        ..types[i]
    };
    lemma_held_update(asset, types[i].memory_blocks, j, None, h);
    lemma_held_update_type(asset, types, i, vacated, h);
    let rest = types.update(i, vacated);
    let again = MemoryTypeModel {
        memory_blocks: rest[k].memory_blocks.update(l, None),
        ..rest[k]
    };
    lemma_held_update(asset, rest[k].memory_blocks, l, None, h);
    lemma_held_update_type(asset, rest, k, again, h);
}

} // verus!
