use vstd::multiset::Multiset;
use vstd::prelude::*;

use crate::allocator::{teardown_of_types, Allocation, AllocatorModel};
use crate::memory_block::{BlockCreation, CreationProgress, CreationStage, MemoryBlock};
use crate::memory_type::{teardown_of, AllocationStage, MemoryTypeModel};
use crate::progress::ProgressModel;
use crate::protocol::{DeviceCall, FreeReply, Reply, Request};
use crate::search::{lemma_first_none, lemma_last_none};

verus! {

/// What the allocator takes from the device and owes it back. Either is named by the
/// handle of the device memory object.
pub enum Asset {
    /// A device memory object.
    Memory,
    /// A mapping of a device memory object, to an address that is not null.
    Mapping,
}

/// What a block holds.
pub open spec fn held_in_block<S>(asset: Asset, block: MemoryBlock<S>) -> Multiset<u64> {
    if asset is Memory || block.mapped_ptr != 0 {
        Multiset::singleton(block.device_memory)
    } else {
        Multiset::empty()
    }
}

/// What a slot holds.
pub open spec fn held_in<S>(asset: Asset, slot: Option<MemoryBlock<S>>) -> Multiset<u64> {
    match slot {
        Some(block) => held_in_block(asset, block),
        None => Multiset::empty(),
    }
}

/// What a sequence of slots holds.
pub open spec fn held_by_slots<S>(asset: Asset, slots: Seq<Option<MemoryBlock<S>>>) -> Multiset<u64>
    decreases slots.len(),
{
    if slots.len() == 0 {
        Multiset::empty()
    } else {
        held_by_slots(asset, slots.drop_last()).add(held_in(asset, slots.last()))
    }
}

/// What a sequence of memory types holds.
pub open spec fn held_by_types<S>(asset: Asset, types: Seq<MemoryTypeModel<S>>) -> Multiset<u64>
    decreases types.len(),
{
    if types.len() == 0 {
        Multiset::empty()
    } else {
        held_by_types(asset, types.drop_last()).add(
            held_by_slots(asset, types.last().memory_blocks),
        )
    }
}

/// What a block under creation holds.
pub open spec fn under_creation(asset: Asset, creation: BlockCreation) -> Multiset<u64> {
    match creation.stage {
        CreationStage::Memory => Multiset::empty(),
        CreationStage::Mapping { device_memory } | CreationStage::Release { device_memory } => {
            match asset {
                Asset::Memory => Multiset::singleton(device_memory),
                Asset::Mapping => Multiset::empty(),
            }
        },
        CreationStage::SubAllocator { device_memory, mapped_ptr } => {
            if asset is Memory || mapped_ptr != 0 {
                Multiset::singleton(device_memory)
            } else {
                Multiset::empty()
            }
        },
    }
}

/// What an unfinished allocation holds outside of any block.
pub open spec fn in_flight(asset: Asset, stage: AllocationStage) -> Multiset<u64> {
    match stage {
        AllocationStage::Create(creation) => under_creation(asset, creation),
        _ => Multiset::empty(),
    }
}

/// What an allocation still holds outside of any block: nothing, unless it is pending.
pub open spec fn left_in_flight<'a>(
    asset: Asset,
    progress: ProgressModel<Allocation<'a>>,
) -> Multiset<u64> {
    match progress {
        ProgressModel::Pending(pending) => in_flight(asset, pending.attempt.stage),
        _ => Multiset::empty(),
    }
}

/// What `reply` to `request` brings.
pub open spec fn acquired<'a, S>(
    asset: Asset,
    request: Request<'a>,
    reply: Reply<S>,
) -> Multiset<u64> {
    match (asset, request, reply) {
        (Asset::Memory, _, Reply::MemoryAllocated(Some(device_memory))) => Multiset::singleton(
            device_memory,
        ),
        (
            Asset::Mapping,
            Request::MapMemory { device_memory, .. },
            Reply::MemoryMapped(Some(address)),
        ) => if address != 0 {
            Multiset::singleton(device_memory)
        } else {
            Multiset::empty()
        },
        _ => Multiset::empty(),
    }
}

/// What carrying out `request` gives back to the device.
pub open spec fn given_back<'a>(asset: Asset, request: Request<'a>) -> Multiset<u64> {
    match (asset, request) {
        (Asset::Memory, Request::FreeMemory { device_memory }) => Multiset::singleton(
            device_memory,
        ),
        _ => Multiset::empty(),
    }
}

/// What one call gives back to the device.
pub open spec fn released_by(asset: Asset, call: DeviceCall) -> Multiset<u64> {
    match (asset, call) {
        (Asset::Memory, DeviceCall::FreeMemory { device_memory }) => Multiset::singleton(
            device_memory,
        ),
        (Asset::Mapping, DeviceCall::UnmapMemory { device_memory }) => Multiset::singleton(
            device_memory,
        ),
        _ => Multiset::empty(),
    }
}

/// What `calls` give back to the device.
pub open spec fn released(asset: Asset, calls: Seq<DeviceCall>) -> Multiset<u64>
    decreases calls.len(),
{
    if calls.len() == 0 {
        Multiset::empty()
    } else {
        released(asset, calls.drop_last()).add(released_by(asset, calls.last()))
    }
}

/// No memory object and no mapping is lost or made up by an allocation: what the allocator
/// holds, what the allocation has in flight and what it gave back to the device is what was
/// held and in flight before and what the device just handed over. This is so whether the
/// allocation goes on, succeeds or fails.
pub proof fn allocation_loses_nothing<'a, S>(
    asset: Asset,
    allocator: AllocatorModel<S>,
    allocation: Allocation<'a>,
    reply: Reply<S>,
)
    requires
        allocator.wf(),
        allocation.fits(allocator),
        allocation.admits(allocator, reply),
    ensures
        held_by_types(asset, allocation.state_after(allocator, reply).memory_types).add(
            left_in_flight(asset, allocation.after(allocator, reply)),
        ).add(given_back(asset, allocation.attempt.awaits())) == held_by_types(
            asset,
            allocator.memory_types,
        ).add(in_flight(asset, allocation.attempt.stage)).add(
            acquired(asset, allocation.attempt.awaits(), reply),
        ),
{
    let on = allocation.on(allocator);
    let i = allocation.attempt.memory_type_index as int;
    let after = allocation.attempt.state_after(on, reply);
    let left = held_by_types(asset, allocation.state_after(allocator, reply).memory_types).add(
        left_in_flight(asset, allocation.after(allocator, reply)),
    ).add(given_back(asset, allocation.attempt.awaits()));
    let right = held_by_types(asset, allocator.memory_types).add(
        in_flight(asset, allocation.attempt.stage),
    ).add(acquired(asset, allocation.attempt.awaits(), reply));
    lemma_first_none(on.vacancies());
    lemma_last_none(on.vacancies());
    assert forall|handle: u64| #[trigger] left.count(handle) == right.count(handle) by {
        lemma_held_update_type(asset, allocator.memory_types, i, after, handle);
        if let AllocationStage::Create(creation) = allocation.attempt.stage {
            if let CreationProgress::Created(block) = creation.after(reply) {
                let slot = on.slot_for(creation.dedicated);
                if slot == on.memory_blocks.len() {
                    assert(on.memory_blocks.push(Some(block)).drop_last() =~= on.memory_blocks);
                } else {
                    lemma_held_update(asset, on.memory_blocks, slot, Some(block), handle);
                }
            }
        }
    }
    assert(left =~= right);
}

/// What a free takes from the allocator is what its calls give back to the device.
pub proof fn free_loses_nothing<S>(
    asset: Asset,
    allocator: AllocatorModel<S>,
    i: int,
    j: int,
    reply: FreeReply,
)
    requires
        0 <= i < allocator.memory_types.len(),
        allocator.memory_types[i].live(j),
    ensures
        ({
            let on = allocator.memory_types[i];
            let after = allocator.with_type(i, on.after_free(j, reply));
            match on.free_outcome(j, reply) {
                Ok(calls) => held_by_types(asset, after.memory_types).add(released(asset, calls))
                    == held_by_types(asset, allocator.memory_types),
                Err(_) => after == allocator,
            }
        }),
{
    let on = allocator.memory_types[i];
    let after = on.after_free(j, reply);
    match on.free_outcome(j, reply) {
        Ok(calls) => {
            let left = held_by_types(asset, allocator.with_type(i, after).memory_types).add(
                released(asset, calls),
            );
            assert forall|handle: u64| #[trigger]
                left.count(handle) == held_by_types(asset, allocator.memory_types).count(handle) by {
                lemma_held_update_type(asset, allocator.memory_types, i, after, handle);
                lemma_held_update(asset, on.memory_blocks, j, None, handle);
                lemma_teardown_releases(asset, on.block(j));
            }
            assert(left =~= held_by_types(asset, allocator.memory_types));
        },
        Err(_) => {
            assert(allocator.with_type(i, after) =~= allocator);
        },
    }
}

/// What a sub-allocator does to itself takes nothing from the allocator.
pub proof fn sub_allocator_takes_nothing<S>(
    asset: Asset,
    allocator: AllocatorModel<S>,
    i: int,
    j: int,
    sub_allocator: S,
)
    requires
        0 <= i < allocator.memory_types.len(),
        allocator.memory_types[i].live(j),
    ensures
        held_by_types(asset, allocator.with_sub_allocator(i, j, sub_allocator).memory_types)
            == held_by_types(asset, allocator.memory_types),
{
    let on = allocator.memory_types[i];
    let after = on.with_sub_allocator(j, sub_allocator);
    let left = held_by_types(asset, allocator.with_sub_allocator(i, j, sub_allocator).memory_types);
    assert forall|handle: u64| #[trigger]
        left.count(handle) == held_by_types(asset, allocator.memory_types).count(handle) by {
        lemma_held_update_type(asset, allocator.memory_types, i, after, handle);
        lemma_held_update(asset, on.memory_blocks, j, after.memory_blocks[j], handle);
    }
    assert(left =~= held_by_types(asset, allocator.memory_types));
}

/// Shutting down gives back everything that is held, once, and holds nothing after.
pub proof fn shut_down_releases_everything<S>(asset: Asset, allocator: AllocatorModel<S>)
    ensures
        released(asset, teardown_of_types(allocator.memory_types)) == held_by_types(
            asset,
            allocator.memory_types,
        ),
        held_by_types(asset, allocator.emptied().memory_types) == Multiset::<u64>::empty(),
{
    lemma_teardown_of_types(asset, allocator.memory_types);
    lemma_emptied_holds_nothing(asset, allocator.memory_types);
}

/// Every mapping that is held is one of memory that is held.
pub proof fn mappings_are_of_held_memory<S>(types: Seq<MemoryTypeModel<S>>, handle: u64)
    ensures
        held_by_types(Asset::Mapping, types).count(handle) <= held_by_types(
            Asset::Memory,
            types,
        ).count(handle),
    decreases types.len(),
{
    if types.len() > 0 {
        mappings_are_of_held_memory(types.drop_last(), handle);
        lemma_slot_mappings(types.last().memory_blocks, handle);
    }
}

/// Every mapping in a sequence of slots is one of memory that is held there.
pub(crate) proof fn lemma_slot_mappings<S>(slots: Seq<Option<MemoryBlock<S>>>, handle: u64)
    ensures
        held_by_slots(Asset::Mapping, slots).count(handle) <= held_by_slots(
            Asset::Memory,
            slots,
        ).count(handle),
    decreases slots.len(),
{
    if slots.len() > 0 {
        lemma_slot_mappings(slots.drop_last(), handle);
    }
}

/// Memory types without any block hold nothing.
pub(crate) proof fn lemma_blockless_holds_nothing<S>(asset: Asset, types: Seq<MemoryTypeModel<S>>)
    requires
        forall|i: int|
            0 <= i < types.len() ==> (#[trigger] types[i]).memory_blocks.len() == 0,
    ensures
        held_by_types(asset, types) == Multiset::<u64>::empty(),
    decreases types.len(),
{
    if types.len() > 0 {
        lemma_blockless_holds_nothing(asset, types.drop_last());
        assert(held_by_types(asset, types) =~= Multiset::<u64>::empty());
    }
}

proof fn lemma_emptied_holds_nothing<S>(asset: Asset, types: Seq<MemoryTypeModel<S>>)
    ensures
        held_by_types(asset, types.map_values(|m: MemoryTypeModel<S>| m.emptied())) == Multiset::<
            u64,
        >::empty(),
    decreases types.len(),
{
    let emptied = types.map_values(|m: MemoryTypeModel<S>| m.emptied());
    if types.len() > 0 {
        lemma_emptied_holds_nothing(asset, types.drop_last());
        assert(emptied.drop_last() =~= types.drop_last().map_values(
            |m: MemoryTypeModel<S>| m.emptied(),
        ));
        lemma_vacant_holds_nothing::<S>(asset, emptied.last().memory_blocks);
        assert(held_by_types(asset, emptied) =~= Multiset::<u64>::empty());
    }
}

proof fn lemma_vacant_holds_nothing<S>(asset: Asset, slots: Seq<Option<MemoryBlock<S>>>)
    requires
        forall|i: int| 0 <= i < slots.len() ==> (#[trigger] slots[i]) is None,
    ensures
        held_by_slots(asset, slots) == Multiset::<u64>::empty(),
    decreases slots.len(),
{
    if slots.len() > 0 {
        lemma_vacant_holds_nothing(asset, slots.drop_last());
        assert(held_by_slots(asset, slots) =~= Multiset::<u64>::empty());
    }
}

proof fn lemma_released_add(asset: Asset, a: Seq<DeviceCall>, b: Seq<DeviceCall>)
    ensures
        released(asset, a + b) == released(asset, a).add(released(asset, b)),
    decreases b.len(),
{
    if b.len() == 0 {
        assert(a + b =~= a);
    } else {
        lemma_released_add(asset, a, b.drop_last());
        assert((a + b).drop_last() =~= a + b.drop_last());
    }
    assert(released(asset, a + b) =~= released(asset, a).add(released(asset, b)));
}

/// Taking a block apart gives back what it holds.
pub(crate) proof fn lemma_teardown_releases<S>(asset: Asset, block: MemoryBlock<S>)
    ensures
        released(asset, block.teardown()) == held_in_block(asset, block),
{
    reveal_with_fuel(released, 3);
    let calls = block.teardown();
    if block.mapped_ptr != 0 {
        assert(calls.drop_last() =~= seq![
            DeviceCall::UnmapMemory { device_memory: block.device_memory },
        ]);
        assert(calls.drop_last().drop_last() =~= Seq::<DeviceCall>::empty());
    } else {
        assert(calls.drop_last() =~= Seq::<DeviceCall>::empty());
    }
    assert(released(asset, calls) =~= held_in_block(asset, block));
}

proof fn lemma_teardown_of<S>(asset: Asset, slots: Seq<Option<MemoryBlock<S>>>)
    ensures
        released(asset, teardown_of(slots)) == held_by_slots(asset, slots),
    decreases slots.len(),
{
    if slots.len() > 0 {
        lemma_teardown_of(asset, slots.drop_last());
        match slots.last() {
            Some(block) => {
                lemma_teardown_releases(asset, block);
                lemma_released_add(asset, teardown_of(slots.drop_last()), block.teardown());
            },
            None => {},
        }
        assert(released(asset, teardown_of(slots)) =~= held_by_slots(asset, slots));
    }
}

proof fn lemma_teardown_of_types<S>(asset: Asset, types: Seq<MemoryTypeModel<S>>)
    ensures
        released(asset, teardown_of_types(types)) == held_by_types(asset, types),
    decreases types.len(),
{
    if types.len() > 0 {
        lemma_teardown_of_types(asset, types.drop_last());
        lemma_teardown_of(asset, types.last().memory_blocks);
        lemma_released_add(
            asset,
            teardown_of_types(types.drop_last()),
            teardown_of(types.last().memory_blocks),
        );
    }
}

/// Replacing a slot exchanges what it holds, and nothing else.
pub(crate) proof fn lemma_held_update<S>(
    asset: Asset,
    slots: Seq<Option<MemoryBlock<S>>>,
    i: int,
    slot: Option<MemoryBlock<S>>,
    handle: u64,
)
    requires
        0 <= i < slots.len(),
    ensures
        held_by_slots(asset, slots.update(i, slot)).count(handle) + held_in(asset, slots[i]).count(
            handle,
        ) == held_by_slots(asset, slots).count(handle) + held_in(asset, slot).count(handle),
    decreases slots.len(),
{
    let updated = slots.update(i, slot);
    if i == slots.len() - 1 {
        assert(updated.drop_last() =~= slots.drop_last());
    } else {
        lemma_held_update(asset, slots.drop_last(), i, slot, handle);
        assert(updated.drop_last() =~= slots.drop_last().update(i, slot));
    }
}

/// Replacing a memory type exchanges what it holds, and nothing else.
pub(crate) proof fn lemma_held_update_type<S>(
    asset: Asset,
    types: Seq<MemoryTypeModel<S>>,
    i: int,
    memory_type: MemoryTypeModel<S>,
    handle: u64,
)
    requires
        0 <= i < types.len(),
    ensures
        held_by_types(asset, types.update(i, memory_type)).count(handle) + held_by_slots(
            asset,
            types[i].memory_blocks,
        ).count(handle) == held_by_types(asset, types).count(handle) + held_by_slots(
            asset,
            memory_type.memory_blocks,
        ).count(handle),
    decreases types.len(),
{
    let updated = types.update(i, memory_type);
    if i == types.len() - 1 {
        assert(updated.drop_last() =~= types.drop_last());
    } else {
        lemma_held_update_type(asset, types.drop_last(), i, memory_type, handle);
        assert(updated.drop_last() =~= types.drop_last().update(i, memory_type));
    }
}

} // verus!
