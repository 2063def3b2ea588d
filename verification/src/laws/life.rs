use vstd::multiset::Multiset;
use vstd::prelude::*;

use crate::allocator::{required_flags, teardown_of_types, Allocation, AllocatorModel};
use crate::flags::{HOST_COHERENT, HOST_VISIBLE};
use crate::laws::accounting::{
    acquired, allocation_loses_nothing, free_loses_nothing, given_back, held_by_slots,
    held_by_types, held_in_block, in_flight, left_in_flight, lemma_blockless_holds_nothing,
    lemma_slot_mappings, lemma_teardown_releases, mappings_are_of_held_memory,
    sub_allocator_takes_nothing, Asset,
};
use crate::laws::search_order::{new_block_displaces_nothing, sub_allocator_is_its_own_affair};
use crate::laws::selection::selection_is_compatible;
use crate::memory_block::{CreationProgress, MemoryBlock};
use crate::memory_type::{
    lemma_with_sub_allocator, teardown_of, AllocationStage, MemoryTypeModel, TypeAllocation,
};
use crate::progress::ProgressModel;
use crate::protocol::{DeviceCall, FreeReply, Reply, Request};
use crate::search::{lemma_first_none, lemma_last_none};
use crate::sub_allocation::SubAllocationModel;
use crate::types::{AllocationCreateDesc, MemoryLocation};

verus! {

/// What passes between an allocator and its device.
pub enum Traffic {
    /// The device granted a memory object.
    Granted { device_memory: u64 },
    /// The device mapped a memory object, to an address that is not null.
    Mapped { device_memory: u64 },
    /// A mapping was undone.
    Unmapped { device_memory: u64 },
    /// A memory object was freed.
    Freed { device_memory: u64 },
}

/// An allocator in use: its state, the allocation that is under way on it, what it gave and
/// has not taken back, and all its traffic with the device so far.
pub struct Life<'a, S> {
    pub allocator: AllocatorModel<S>,
    pub pending: Option<Allocation<'a>>,
    pub out: Seq<SubAllocationModel>,
    pub trace: Seq<Traffic>,
}

/// What happens to an allocator in use.
#[allow(inconsistent_fields)]
pub enum Event<'a, S> {
    /// An allocation is begun.
    Begin { desc: AllocationCreateDesc<'a>, backtrace: Option<&'a str> },
    /// The request of the allocation under way is carried out, and `reply` handed over. If it
    /// was a request to a sub-allocator, that one is now `sub_allocator`.
    Serve { sub_allocator: S, reply: Reply<S> },
    /// A sub-allocation is handed back. The sub-allocator of its block is now `sub_allocator`
    /// and said `reply`.
    Free { given: SubAllocationModel, sub_allocator: S, reply: FreeReply },
}

/// What carrying out `request` passes to and fro, if it comes to `reply`.
pub open spec fn exchanged<'a, S>(request: Request<'a>, reply: Reply<S>) -> Seq<Traffic> {
    match (request, reply) {
        (_, Reply::MemoryAllocated(Some(device_memory))) => seq![
            Traffic::Granted { device_memory },
        ],
        (Request::MapMemory { device_memory, .. }, Reply::MemoryMapped(Some(address))) => {
            if address != 0 {
                seq![Traffic::Mapped { device_memory }]
            } else {
                Seq::empty()
            }
        },
        (Request::FreeMemory { device_memory }, _) => seq![Traffic::Freed { device_memory }],
        _ => Seq::empty(),
    }
}

/// What making `calls` passes to the device.
pub open spec fn made(calls: Seq<DeviceCall>) -> Seq<Traffic> {
    calls.map_values(
        |call: DeviceCall|
            match call {
                DeviceCall::UnmapMemory { device_memory } => Traffic::Unmapped { device_memory },
                DeviceCall::FreeMemory { device_memory } => Traffic::Freed { device_memory },
            },
    )
}

/// How often `traffic` occurs in `trace`.
pub open spec fn times(trace: Seq<Traffic>, traffic: Traffic) -> nat
    decreases trace.len(),
{
    if trace.len() == 0 {
        0
    } else {
        times(trace.drop_last(), traffic) + if trace.last() == traffic {
            1nat
        } else {
            0nat
        }
    }
}

/// How often the device handed an asset over, less how often it got it back.
pub open spec fn balance(asset: Asset, trace: Seq<Traffic>, device_memory: u64) -> int {
    match asset {
        Asset::Memory => times(trace, Traffic::Granted { device_memory }) - times(
            trace,
            Traffic::Freed { device_memory },
        ),
        Asset::Mapping => times(trace, Traffic::Mapped { device_memory }) - times(
            trace,
            Traffic::Unmapped { device_memory },
        ),
    }
}

/// At every moment no more was freed than granted and no more unmapped than mapped, and
/// whatever is mapped is not freed yet.
pub open spec fn sound(trace: Seq<Traffic>) -> bool {
    forall|n: int, device_memory: u64|
        0 <= n <= trace.len() ==> #[trigger] settled(trace.take(n), device_memory)
}

/// No more of `device_memory` was freed than granted, no more unmapped than mapped, and what
/// is mapped is not freed.
pub open spec fn settled(trace: Seq<Traffic>, device_memory: u64) -> bool {
    0 <= balance(Asset::Mapping, trace, device_memory) <= balance(
        Asset::Memory,
        trace,
        device_memory,
    )
}

/// A new allocator, of which nothing was asked yet.
pub open spec fn born<'a, S>(life: Life<'a, S>) -> bool {
    &&& life.allocator.wf()
    &&& life.allocator.blockless()
    &&& life.pending is None
    &&& life.out.len() == 0
    &&& life.trace.len() == 0
}

/// The memory type once the request of `attempt` was carried out: if it went to a
/// sub-allocator, that one is now `sub_allocator`.
pub open spec fn asked<'a, S>(
    on: MemoryTypeModel<S>,
    attempt: TypeAllocation<'a>,
    sub_allocator: S,
) -> MemoryTypeModel<S> {
    match attempt.stage {
        AllocationStage::Search { memory_block_index }
        | AllocationStage::Fill { memory_block_index, .. } => on.with_sub_allocator(
            memory_block_index as int,
            sub_allocator,
        ),
        AllocationStage::Create(_) => on,
    }
}

/// The allocator once the request of `pending` was carried out.
pub open spec fn served<'a, S>(
    allocator: AllocatorModel<S>,
    pending: Allocation<'a>,
    sub_allocator: S,
) -> AllocatorModel<S> {
    allocator.with_type(
        pending.attempt.memory_type_index as int,
        asked(pending.on(allocator), pending.attempt, sub_allocator),
    )
}

/// What is out once `given` was taken back.
pub open spec fn without(out: Seq<SubAllocationModel>, given: SubAllocationModel) -> Seq<
    SubAllocationModel,
> {
    if out.contains(given) {
        out.remove(out.index_of(given))
    } else {
        out
    }
}

impl<'a, S> Life<'a, S> {
    /// `given` names a block that there is.
    pub open spec fn backed(self, given: SubAllocationModel) -> bool {
        self.allocator.memory_types[given.memory_type_index as int].live(
            given.memory_block_index as int,
        )
    }

    /// The allocation under way came to `progress`.
    pub open spec fn came_to(self, progress: ProgressModel<Allocation<'a>>) -> Self {
        match progress {
            ProgressModel::Pending(pending) => Life { pending: Some(pending), ..self },
            ProgressModel::Allocated(given) => Life {
                pending: None,
                out: self.out.push(given),
                ..self
            },
            ProgressModel::Failed(_) => Life { pending: None, ..self },
        }
    }

    /// `event` can happen here. One thing is done at a time, each reply answers the request
    /// that was made, what is freed names a slot, and all slots can be numbered.
    pub open spec fn admits(self, event: Event<'a, S>) -> bool {
        match event {
            Event::Begin { .. } => self.pending is None,
            Event::Serve { sub_allocator, reply } => {
                &&& self.pending matches Some(pending)
                &&& pending.admits(served(self.allocator, pending, sub_allocator), reply)
                &&& pending.on(self.allocator).memory_blocks.len() < usize::MAX
            },
            Event::Free { given, .. } => {
                &&& self.pending is None
                &&& given.chunk_id is Some ==> {
                    &&& given.memory_type_index < self.allocator.memory_types.len()
                    &&& given.memory_block_index
                        < self.allocator.memory_types[given.memory_type_index as int].memory_blocks.len()
                }
            },
        }
    }

    /// What `event` makes of it. A free of nothing, or of what names a vacant slot, changes
    /// nothing.
    pub open spec fn after(self, event: Event<'a, S>) -> Self {
        match event {
            Event::Begin { desc, backtrace } => self.came_to(self.allocator.begun(desc, backtrace)),
            Event::Serve { sub_allocator, reply } => match self.pending {
                Some(pending) => {
                    let allocator = served(self.allocator, pending, sub_allocator);
                    Life {
                        allocator: pending.state_after(allocator, reply),
                        trace: self.trace + exchanged(pending.attempt.awaits(), reply),
                        ..self
                    }.came_to(pending.after(allocator, reply))
                },
                None => self,
            },
            Event::Free { given, sub_allocator, reply } => {
                if given.chunk_id is Some && self.backed(given) {
                    let i = given.memory_type_index as int;
                    let j = given.memory_block_index as int;
                    let allocator = self.allocator.with_sub_allocator(i, j, sub_allocator);
                    let on = allocator.memory_types[i];
                    let freed = allocator.with_type(i, on.after_free(j, reply));
                    match on.free_outcome(j, reply) {
                        Ok(calls) => Life {
                            allocator: freed,
                            out: without(self.out, given),
                            trace: self.trace + made(calls),
                            ..self
                        },
                        Err(_) => Life { allocator: freed, ..self },
                    }
                } else {
                    self
                }
            },
        }
    }

    /// What is true of an allocator in use at every moment: it is well-formed and so is the
    /// allocation under way, its slots can be numbered, and all that it has of the device is
    /// what it holds in blocks and what the allocation has in flight.
    pub open spec fn accounted(self) -> bool {
        &&& self.allocator.wf()
        &&& self.allocator.numbered()
        &&& self.pending matches Some(pending) ==> pending.fits(self.allocator)
        &&& sound(self.trace)
        &&& forall|asset: Asset, device_memory: u64| #[trigger]
            balance(asset, self.trace, device_memory) == self.has(asset, device_memory)
    }

    /// How often the allocator has an asset, in a block or in flight.
    pub open spec fn has(self, asset: Asset, device_memory: u64) -> nat {
        held_by_types(asset, self.allocator.memory_types).count(device_memory) + match self.pending {
            Some(pending) => in_flight(asset, pending.attempt.stage).count(device_memory),
            None => 0,
        }
    }
}

/// What a sequence of events makes of `life`.
pub open spec fn lived<'a, S>(life: Life<'a, S>, events: Seq<Event<'a, S>>) -> Life<'a, S>
    decreases events.len(),
{
    if events.len() == 0 {
        life
    } else {
        lived(life, events.drop_last()).after(events.last())
    }
}

/// Each of `events` can happen when its turn comes.
pub open spec fn livable<'a, S>(life: Life<'a, S>, events: Seq<Event<'a, S>>) -> bool
    decreases events.len(),
{
    events.len() == 0 || {
        &&& livable(life, events.drop_last())
        &&& lived(life, events.drop_last()).admits(events.last())
    }
}

/// All that passes between an allocator and its device from its creation on, if it is shut
/// down after `events`.
pub open spec fn whole_trace<'a, S>(life: Life<'a, S>, events: Seq<Event<'a, S>>) -> Seq<Traffic> {
    let end = lived(life, events);
    end.trace + made(teardown_of_types(end.allocator.memory_types))
}

/// From the creation of an allocator to its end, whatever is asked of it and whatever the
/// device and the sub-allocators reply, every memory object that the device grants is freed
/// exactly once, and every mapping to an address that is not null is undone exactly once,
/// before its memory is freed. (The device may grant a handle again once it was freed, so
/// each handle is freed as often as it was granted, and never before.)
pub proof fn a_whole_life<'a, S>(
    life: Life<'a, S>,
    events: Seq<Event<'a, S>>,
    device_memory: u64,
)
    requires
        born(life),
        livable(life, events),
        lived(life, events).pending is None,
    ensures
        ({
            let trace = whole_trace(life, events);
            &&& times(trace, Traffic::Granted { device_memory }) == times(
                trace,
                Traffic::Freed { device_memory },
            )
            &&& times(trace, Traffic::Mapped { device_memory }) == times(
                trace,
                Traffic::Unmapped { device_memory },
            )
            &&& sound(trace)
        }),
{
    let end = lived(life, events);
    let types = end.allocator.memory_types;
    all_is_accounted_for(life, events);
    assert forall|h: u64|
        0 <= #[trigger] balance(Asset::Mapping, end.trace, h) - held_by_types(
            Asset::Mapping,
            types,
        ).count(h) <= balance(Asset::Memory, end.trace, h) - held_by_types(
            Asset::Memory,
            types,
        ).count(h) by {
        assert(balance(Asset::Mapping, end.trace, h) == end.has(Asset::Mapping, h));
        assert(balance(Asset::Memory, end.trace, h) == end.has(Asset::Memory, h));
    }
    lemma_types_teardown(end.trace, types);
    let trace = whole_trace(life, events);
    assert(balance(Asset::Memory, trace, device_memory) == 0) by {
        assert(balance(Asset::Memory, end.trace, device_memory) == end.has(
            Asset::Memory,
            device_memory,
        ));
    }
    assert(balance(Asset::Mapping, trace, device_memory) == 0) by {
        assert(balance(Asset::Mapping, end.trace, device_memory) == end.has(
            Asset::Mapping,
            device_memory,
        ));
    }
}

/// At every moment of its use, what an allocator has of the device is what it holds in
/// blocks and what the allocation under way has in flight.
pub proof fn all_is_accounted_for<'a, S>(life: Life<'a, S>, events: Seq<Event<'a, S>>)
    requires
        born(life),
        livable(life, events),
    ensures
        lived(life, events).accounted(),
    decreases events.len(),
{
    if events.len() == 0 {
        assert forall|asset: Asset, device_memory: u64| #[trigger]
            balance(asset, life.trace, device_memory) == life.has(asset, device_memory) by {
            lemma_blockless_holds_nothing(asset, life.allocator.memory_types);
        }
    } else {
        all_is_accounted_for(life, events.drop_last());
        let before = lived(life, events.drop_last());
        match events.last() {
            Event::Begin { desc, backtrace } => {
                lemma_begin_is_accounted(before, desc, backtrace);
            },
            Event::Serve { sub_allocator, reply } => {
                lemma_serve_is_accounted(before, sub_allocator, reply);
            },
            Event::Free { given, sub_allocator, reply } => {
                lemma_free_is_accounted(before, given, sub_allocator, reply);
            },
        }
    }
}

proof fn lemma_begin_is_accounted<'a, S>(
    life: Life<'a, S>,
    desc: AllocationCreateDesc<'a>,
    backtrace: Option<&'a str>,
)
    requires
        life.accounted(),
        life.pending is None,
    ensures
        life.after(Event::Begin { desc, backtrace }).accounted(),
{
    let after = life.after(Event::Begin { desc, backtrace });
    beginning_is_under_way(life.allocator, desc, backtrace);
    assert forall|asset: Asset, device_memory: u64| #[trigger]
        balance(asset, after.trace, device_memory) == after.has(asset, device_memory) by {
        assert(balance(asset, life.trace, device_memory) == life.has(asset, device_memory));
    }
}

proof fn lemma_serve_is_accounted<'a, S>(life: Life<'a, S>, sub_allocator: S, reply: Reply<S>)
    requires
        life.accounted(),
        life.admits(Event::Serve { sub_allocator, reply }),
    ensures
        life.after(Event::Serve { sub_allocator, reply }).accounted(),
{
    let pending = life.pending->0;
    let allocator = served(life.allocator, pending, sub_allocator);
    let after = life.after(Event::Serve { sub_allocator, reply });
    let request = pending.attempt.awaits();
    let traffic = exchanged(request, reply);
    lemma_served(life.allocator, pending, sub_allocator);
    allocation_stays_under_way(allocator, pending, reply);
    assert forall|asset: Asset, device_memory: u64| #[trigger]
        balance(asset, after.trace, device_memory) == after.has(asset, device_memory) by {
        assert(balance(asset, life.trace, device_memory) == life.has(asset, device_memory));
        lemma_served_holds(asset, life.allocator, pending, sub_allocator);
        allocation_loses_nothing(asset, allocator, pending, reply);
        let left = held_by_types(asset, pending.state_after(allocator, reply).memory_types).add(
            left_in_flight(asset, pending.after(allocator, reply)),
        ).add(given_back(asset, request));
        let right = held_by_types(asset, allocator.memory_types).add(
            in_flight(asset, pending.attempt.stage),
        ).add(acquired(asset, request, reply));
        assert(left.count(device_memory) == right.count(device_memory));
        lemma_exchanged(
            asset,
            life.trace,
            pending.attempt,
            pending.on(allocator),
            reply,
            device_memory,
        );
    }
    assert forall|device_memory: u64| #[trigger] settled(after.trace, device_memory) by {
        lemma_has_settles(after, device_memory);
    }
    if traffic.len() == 0 {
        assert(after.trace =~= life.trace);
    } else {
        assert(after.trace =~= life.trace.push(traffic[0]));
        lemma_sound_push(life.trace, traffic[0]);
    }
}

proof fn lemma_free_is_accounted<'a, S>(
    life: Life<'a, S>,
    given: SubAllocationModel,
    sub_allocator: S,
    reply: FreeReply,
)
    requires
        life.accounted(),
        life.admits(Event::Free { given, sub_allocator, reply }),
    ensures
        life.after(Event::Free { given, sub_allocator, reply }).accounted(),
{
    let after = life.after(Event::Free { given, sub_allocator, reply });
    if given.chunk_id is Some && life.backed(given) {
        let i = given.memory_type_index as int;
        let j = given.memory_block_index as int;
        let allocator = life.allocator.with_sub_allocator(i, j, sub_allocator);
        let on = allocator.memory_types[i];
        let block = on.block(j);
        let discarded = on.free_outcome(j, reply) matches Ok(calls) && calls.len() > 0;
        lemma_with_sub_allocator(life.allocator.memory_types[i], j, sub_allocator);
        free_stays_well_formed(allocator, i, j, reply);
        assert forall|asset: Asset, device_memory: u64|
            #![trigger balance(asset, life.trace, device_memory)]
            after.has(asset, device_memory) == balance(asset, life.trace, device_memory) - if discarded {
                held_in_block(asset, block).count(device_memory) as int
            } else {
                0
            } by {
            assert(balance(asset, life.trace, device_memory) == life.has(asset, device_memory));
            sub_allocator_takes_nothing(asset, life.allocator, i, j, sub_allocator);
            free_loses_nothing(asset, allocator, i, j, reply);
            lemma_teardown_releases(asset, block);
        }
        if discarded {
            assert forall|h: u64|
                0 <= #[trigger] balance(Asset::Mapping, life.trace, h) - held_in_block(
                    Asset::Mapping,
                    block,
                ).count(h) <= balance(Asset::Memory, life.trace, h) - held_in_block(
                    Asset::Memory,
                    block,
                ).count(h) by {
                assert(balance(Asset::Memory, life.trace, h) == life.has(Asset::Memory, h));
                mappings_are_of_held_memory(after.allocator.memory_types, h);
            }
            lemma_block_teardown(life.trace, block);
        } else {
            assert(after.trace =~= life.trace);
        }
        assert forall|asset: Asset, device_memory: u64| #[trigger]
            balance(asset, after.trace, device_memory) == after.has(asset, device_memory) by {
            assert(balance(asset, life.trace, device_memory) == life.has(asset, device_memory));
        }
    }
}

/// An allocation that is begun is under way.
pub proof fn beginning_is_under_way<'a, S>(
    allocator: AllocatorModel<S>,
    desc: AllocationCreateDesc<'a>,
    backtrace: Option<&'a str>,
)
    requires
        allocator.wf(),
        allocator.numbered(),
    ensures
        allocator.begun(desc, backtrace) matches ProgressModel::Pending(pending) ==> pending.fits(
            allocator,
        ),
{
    selection_is_compatible(allocator, desc.requirements, desc.location);
    match allocator.select(desc.requirements, desc.location) {
        Some(i) => {
            lemma_attempt_fits(allocator, i, desc, backtrace, false);
        },
        None => {},
    }
}

/// Every reply leaves the allocator well-formed, and the allocation under way if it goes on.
pub proof fn allocation_stays_under_way<'a, S>(
    allocator: AllocatorModel<S>,
    allocation: Allocation<'a>,
    reply: Reply<S>,
)
    requires
        allocator.wf(),
        allocator.numbered(),
        allocation.fits(allocator),
        allocation.admits(allocator, reply),
        allocation.on(allocator).memory_blocks.len() < usize::MAX,
    ensures
        allocation.state_after(allocator, reply).wf(),
        allocation.state_after(allocator, reply).numbered(),
        allocation.after(allocator, reply) matches ProgressModel::Pending(pending) ==> pending.fits(
            allocation.state_after(allocator, reply),
        ),
{
    let on = allocation.on(allocator);
    let after = allocation.state_after(allocator, reply);
    let next = allocation.attempt.state_after(on, reply);
    match allocation.attempt.stage {
        AllocationStage::Create(creation) => match creation.after(reply) {
            CreationProgress::Created(block) => {
                new_block_displaces_nothing(on, block, creation.dedicated);
                assert forall|j: int| #[trigger] next.live(j) implies next.holds(
                    next.block(j),
                ) by {
                    if j != on.slot_for(creation.dedicated) {
                        assert(on.live(j));
                    }
                }
            },
            _ => {},
        },
        AllocationStage::Search { memory_block_index } => {
            lemma_last_none(on.occupancy(memory_block_index as int));
        },
        _ => {},
    }
    assert(next.wf());
    let requirements = allocation.desc.requirements;
    let marks = after.compatibility(requirements, HOST_VISIBLE | HOST_COHERENT);
    lemma_first_none(marks);
    match after.find_memorytype_index(requirements, HOST_VISIBLE | HOST_COHERENT) {
        Some(i) => {
            if allocation.desc.location == MemoryLocation::CpuToGpu {
                lemma_attempt_fits(after, i, allocation.desc, allocation.backtrace, true);
            }
        },
        None => {},
    }
}

/// A free leaves the allocator well-formed.
pub proof fn free_stays_well_formed<S>(
    allocator: AllocatorModel<S>,
    i: int,
    j: int,
    reply: FreeReply,
)
    requires
        allocator.wf(),
        allocator.numbered(),
        0 <= i < allocator.memory_types.len(),
        allocator.memory_types[i].live(j),
    ensures
        allocator.with_type(i, allocator.memory_types[i].after_free(j, reply)).wf(),
        allocator.with_type(i, allocator.memory_types[i].after_free(j, reply)).numbered(),
{
    let on = allocator.memory_types[i];
    let after = on.after_free(j, reply);
    assert forall|k: int| #[trigger] after.live(k) implies after.holds(after.block(k)) by {
        assert(on.live(k));
    }
}

/// An attempt on a memory type that can serve it is under way.
proof fn lemma_attempt_fits<'a, S>(
    allocator: AllocatorModel<S>,
    i: int,
    desc: AllocationCreateDesc<'a>,
    backtrace: Option<&'a str>,
    retried: bool,
)
    requires
        allocator.wf(),
        allocator.numbered(),
        0 <= i < allocator.memory_types.len(),
        allocator.memory_types[i].compatible(desc.requirements, required_flags(desc.location)),
    ensures
        allocator.attempt(i, desc, backtrace, retried).fits(allocator),
{
    let on = allocator.memory_types[i];
    lemma_last_none(on.occupancy(on.memory_blocks.len() as int));
}

/// Carrying out a request leaves the allocator well-formed and the allocation under way.
pub(crate) proof fn lemma_served<'a, S>(
    allocator: AllocatorModel<S>,
    pending: Allocation<'a>,
    sub_allocator: S,
)
    requires
        allocator.wf(),
        allocator.numbered(),
        pending.fits(allocator),
    ensures
        served(allocator, pending, sub_allocator).wf(),
        served(allocator, pending, sub_allocator).numbered(),
        pending.fits(served(allocator, pending, sub_allocator)),
{
    match pending.attempt.stage {
        AllocationStage::Search { memory_block_index }
        | AllocationStage::Fill { memory_block_index, .. } => {
            sub_allocator_is_its_own_affair(
                allocator,
                pending,
                pending.attempt.memory_type_index as int,
                memory_block_index as int,
                sub_allocator,
                false,
            );
        },
        AllocationStage::Create(_) => {
            assert(served(allocator, pending, sub_allocator) =~= allocator);
        },
    }
}

/// Carrying out a request takes nothing from the allocator.
proof fn lemma_served_holds<'a, S>(
    asset: Asset,
    allocator: AllocatorModel<S>,
    pending: Allocation<'a>,
    sub_allocator: S,
)
    requires
        pending.fits(allocator),
    ensures
        held_by_types(asset, served(allocator, pending, sub_allocator).memory_types)
            == held_by_types(asset, allocator.memory_types),
{
    match pending.attempt.stage {
        AllocationStage::Search { memory_block_index }
        | AllocationStage::Fill { memory_block_index, .. } => {
            sub_allocator_takes_nothing(
                asset,
                allocator,
                pending.attempt.memory_type_index as int,
                memory_block_index as int,
                sub_allocator,
            );
        },
        AllocationStage::Create(_) => {
            assert(served(allocator, pending, sub_allocator) =~= allocator);
        },
    }
}

/// What the allocator has is at no moment mapped more often than it is held.
proof fn lemma_has_settles<'a, S>(life: Life<'a, S>, device_memory: u64)
    requires
        forall|asset: Asset, handle: u64| #[trigger]
            balance(asset, life.trace, handle) == life.has(asset, handle),
    ensures
        settled(life.trace, device_memory),
{
    assert(balance(Asset::Mapping, life.trace, device_memory) == life.has(
        Asset::Mapping,
        device_memory,
    ));
    assert(balance(Asset::Memory, life.trace, device_memory) == life.has(
        Asset::Memory,
        device_memory,
    ));
    mappings_are_of_held_memory(life.allocator.memory_types, device_memory);
}

/// One more exchange adds what it brings and takes what it gives back.
proof fn lemma_exchanged<'a, S>(
    asset: Asset,
    trace: Seq<Traffic>,
    attempt: TypeAllocation<'a>,
    on: MemoryTypeModel<S>,
    reply: Reply<S>,
    device_memory: u64,
)
    requires
        attempt.admits(on, reply),
    ensures
        balance(asset, trace + exchanged(attempt.awaits(), reply), device_memory) == balance(
            asset,
            trace,
            device_memory,
        ) + acquired(asset, attempt.awaits(), reply).count(device_memory) - given_back(
            asset,
            attempt.awaits(),
        ).count(device_memory),
{
    let traffic = exchanged(attempt.awaits(), reply);
    if traffic.len() == 0 {
        assert(trace + traffic =~= trace);
    } else {
        assert(trace + traffic =~= trace.push(traffic[0]));
        lemma_times_push(trace, traffic[0]);
    }
}

/// One more exchange counts as one.
pub(crate) proof fn lemma_times_push(trace: Seq<Traffic>, more: Traffic)
    ensures
        forall|traffic: Traffic| #[trigger]
            times(trace.push(more), traffic) == times(trace, traffic) + (if more == traffic {
                1nat
            } else {
                0nat
            }),
{
    assert(trace.push(more).drop_last() =~= trace);
}

/// A sound trace that is settled after one more exchange is still sound.
proof fn lemma_sound_push(trace: Seq<Traffic>, more: Traffic)
    requires
        sound(trace),
        forall|device_memory: u64| #[trigger] settled(trace.push(more), device_memory),
    ensures
        sound(trace.push(more)),
{
    let longer = trace.push(more);
    assert forall|n: int, device_memory: u64|
        0 <= n <= longer.len() implies #[trigger] settled(longer.take(n), device_memory) by {
        if n == longer.len() {
            assert(longer.take(n) =~= longer);
        } else {
            assert(longer.take(n) =~= trace.take(n));
        }
    }
}

/// There is more outstanding than `mappings` and `memories`, and what remains beside them is
/// settled.
spec fn covers(trace: Seq<Traffic>, mappings: Multiset<u64>, memories: Multiset<u64>) -> bool {
    forall|h: u64|
        0 <= #[trigger] balance(Asset::Mapping, trace, h) - mappings.count(h) <= balance(
            Asset::Memory,
            trace,
            h,
        ) - memories.count(h)
}

/// Taking a block apart gives back what it holds, its mapping before its memory.
proof fn lemma_block_teardown<S>(trace: Seq<Traffic>, block: MemoryBlock<S>)
    requires
        sound(trace),
        covers(
            trace,
            held_in_block(Asset::Mapping, block),
            held_in_block(Asset::Memory, block),
        ),
    ensures
        sound(trace + made(block.teardown())),
        forall|asset: Asset, h: u64| #[trigger]
            balance(asset, trace + made(block.teardown()), h) == balance(asset, trace, h)
                - held_in_block(asset, block).count(h),
{
    let device_memory = block.device_memory;
    let unmapped = if block.mapped_ptr != 0 {
        trace.push(Traffic::Unmapped { device_memory })
    } else {
        trace
    };
    let freed = unmapped.push(Traffic::Freed { device_memory });
    lemma_times_push(trace, Traffic::Unmapped { device_memory });
    lemma_times_push(unmapped, Traffic::Freed { device_memory });
    if block.mapped_ptr != 0 {
        assert forall|h: u64| #[trigger] settled(unmapped, h) by {
            assert(0 <= balance(Asset::Mapping, trace, h) - held_in_block(
                Asset::Mapping,
                block,
            ).count(h));
        }
        lemma_sound_push(trace, Traffic::Unmapped { device_memory });
    }
    assert forall|h: u64| #[trigger] settled(freed, h) by {
        assert(0 <= balance(Asset::Mapping, trace, h) - held_in_block(
            Asset::Mapping,
            block,
        ).count(h));
    }
    lemma_sound_push(unmapped, Traffic::Freed { device_memory });
    assert(trace + made(block.teardown()) =~= freed);
}

/// Taking all blocks of a memory type apart gives back what they hold.
proof fn lemma_slots_teardown<S>(trace: Seq<Traffic>, slots: Seq<Option<MemoryBlock<S>>>)
    requires
        sound(trace),
        covers(
            trace,
            held_by_slots(Asset::Mapping, slots),
            held_by_slots(Asset::Memory, slots),
        ),
    ensures
        sound(trace + made(teardown_of(slots))),
        forall|asset: Asset, h: u64| #[trigger]
            balance(asset, trace + made(teardown_of(slots)), h) == balance(asset, trace, h)
                - held_by_slots(asset, slots).count(h),
    decreases slots.len(),
{
    if slots.len() == 0 {
        assert(trace + made(teardown_of(slots)) =~= trace);
    } else {
        let rest = slots.drop_last();
        assert(covers(
            trace,
            held_by_slots(Asset::Mapping, rest),
            held_by_slots(Asset::Memory, rest),
        ));
        lemma_slots_teardown(trace, rest);
        let between = trace + made(teardown_of(rest));
        match slots.last() {
            Some(block) => {
                assert(covers(
                    between,
                    held_in_block(Asset::Mapping, block),
                    held_in_block(Asset::Memory, block),
                ));
                lemma_block_teardown(between, block);
                assert(trace + made(teardown_of(slots)) =~= between + made(block.teardown()));
            },
            None => {},
        }
    }
}

/// Taking all blocks of all memory types apart gives back what they hold.
proof fn lemma_types_teardown<S>(trace: Seq<Traffic>, types: Seq<MemoryTypeModel<S>>)
    requires
        sound(trace),
        covers(
            trace,
            held_by_types(Asset::Mapping, types),
            held_by_types(Asset::Memory, types),
        ),
    ensures
        sound(trace + made(teardown_of_types(types))),
        forall|asset: Asset, h: u64| #[trigger]
            balance(asset, trace + made(teardown_of_types(types)), h) == balance(asset, trace, h)
                - held_by_types(asset, types).count(h),
    decreases types.len(),
{
    if types.len() == 0 {
        assert(trace + made(teardown_of_types(types)) =~= trace);
    } else {
        let rest = types.drop_last();
        let slots = types.last().memory_blocks;
        assert forall|h: u64|
            0 <= #[trigger] balance(Asset::Mapping, trace, h) - held_by_types(
                Asset::Mapping,
                rest,
            ).count(h) <= balance(Asset::Memory, trace, h) - held_by_types(
                Asset::Memory,
                rest,
            ).count(h) by {
            lemma_slot_mappings(slots, h);
        }
        lemma_types_teardown(trace, rest);
        let between = trace + made(teardown_of_types(rest));
        assert(covers(
            between,
            held_by_slots(Asset::Mapping, slots),
            held_by_slots(Asset::Memory, slots),
        ));
        lemma_slots_teardown(between, slots);
        assert(trace + made(teardown_of_types(types)) =~= between + made(teardown_of(slots)));
    }
}

} // verus!
