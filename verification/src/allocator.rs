use log::Level;
use vstd::arithmetic::power2::pow2;
use vstd::prelude::*;

use crate::error::{AllocationError, ErrorModel};
use crate::flags::{
    contains, device_local, flags_contain, host_cached, host_coherent, host_visible, no_flags,
    DEVICE_LOCAL, HOST_CACHED, HOST_COHERENT, HOST_VISIBLE,
};
use crate::laws::selection::selection_is_compatible;
use crate::memory_block::MemoryBlock;
use crate::memory_type::{
    lemma_with_sub_allocator, teardown_of, MemoryType, MemoryTypeModel, TypeAllocation,
};
use crate::progress::{FreeProgress, PendingFree, Progress, ProgressModel};
use crate::protocol::{DeviceCall, FreeReply, Reply, Request};
use crate::search::{first, is_first, lemma_first_is, lemma_first_none};
use crate::stack_trace::capture;
use crate::sub_allocation::SubAllocation;
use crate::types::{
    AllocationCreateDesc, AllocationType, AllocatorCreateDesc, AllocatorDebugSettings,
    MemoryLocation, MemoryRequirements, MAX_MEMORY_TYPES,
};

verus! {

/// Hands out parts of device memory. `S` is the type of the sub-allocators.
#[derive(Debug)]
pub struct Allocator<S> {
    memory_types: Vec<MemoryType<S>>,
    buffer_image_granularity: u64,
    debug_settings: AllocatorDebugSettings,
}

/// What an [`Allocator`] holds.
#[verifier::ext_equal]
pub struct AllocatorModel<S> {
    pub memory_types: Seq<MemoryTypeModel<S>>,
    pub buffer_image_granularity: u64,
    pub debug_settings: AllocatorDebugSettings,
}

/// An unfinished allocation.
#[derive(Clone, Copy, Debug)]
pub struct Allocation<'a> {
    pub desc: AllocationCreateDesc<'a>,
    pub backtrace: Option<&'a str>,
    /// Whether a first attempt failed already.
    pub retried: bool,
    /// The attempt that is under way.
    pub attempt: TypeAllocation<'a>,
}

/// A report that the sub-allocator of a live block is to make.
pub struct LeakReport {
    pub log_level: Level,
    pub memory_type_index: usize,
    pub memory_block_index: usize,
}

/// The level of a log message, as the `log` crate defines it.
#[verifier::external_type_specification]
#[verifier::external_body]
pub struct ExLevel(Level);

/// `x` is a power of two.
pub open spec fn is_power_of_two(x: u64) -> bool {
    exists|k: nat| #[trigger] pow2(k) == x
}

/// `u64::is_power_of_two`: true exactly for the powers of two.
pub assume_specification[ u64::is_power_of_two ](x: u64) -> (result: bool)
    ensures
        result == is_power_of_two(x),
;

/// The property flags that memory for `location` should have.
pub open spec fn preferred_flags(location: MemoryLocation) -> u32 {
    match location {
        MemoryLocation::GpuOnly => DEVICE_LOCAL,
        MemoryLocation::CpuToGpu => HOST_VISIBLE | HOST_COHERENT | DEVICE_LOCAL,
        MemoryLocation::GpuToCpu => HOST_VISIBLE | HOST_COHERENT | HOST_CACHED,
        MemoryLocation::Unknown => 0,
    }
}

/// The property flags that memory for `location` must have.
pub open spec fn required_flags(location: MemoryLocation) -> u32 {
    match location {
        MemoryLocation::GpuOnly => DEVICE_LOCAL,
        MemoryLocation::CpuToGpu => HOST_VISIBLE | HOST_COHERENT,
        MemoryLocation::GpuToCpu => HOST_VISIBLE | HOST_COHERENT,
        MemoryLocation::Unknown => 0,
    }
}

/// The request asks for something, at an alignment that exists.
pub open spec fn valid(requirements: MemoryRequirements) -> bool {
    requirements.size != 0 && is_power_of_two(requirements.alignment)
}

impl<S> MemoryTypeModel<S> {
    /// Memory of this type can serve `requirements`, and has all of `flags`.
    pub open spec fn compatible(self, requirements: MemoryRequirements, flags: u32) -> bool {
        &&& (1u32 << self.memory_type_index) & requirements.memory_type_bits != 0
        &&& contains(self.memory_properties, flags)
    }
}

impl LeakReport {
    /// The block comes before slot `j` of memory type `i`.
    pub open spec fn before(self, i: int, j: int) -> bool {
        self.memory_type_index < i || (self.memory_type_index == i && self.memory_block_index < j)
    }

    /// The block comes before the one of `other`.
    pub open spec fn precedes(self, other: LeakReport) -> bool {
        self.before(other.memory_type_index as int, other.memory_block_index as int)
    }
}

impl<S> AllocatorModel<S> {
    /// What every operation keeps.
    pub open spec fn wf(self) -> bool {
        &&& self.memory_types.len() <= MAX_MEMORY_TYPES
        &&& forall|i: int|
            0 <= i < self.memory_types.len() ==> {
                &&& (#[trigger] self.memory_types[i]).wf()
                &&& self.memory_types[i].memory_type_index == i
            }
    }

    /// No memory type has a block yet.
    pub open spec fn blockless(self) -> bool {
        forall|i: int|
            0 <= i < self.memory_types.len() ==> {
                &&& (#[trigger] self.memory_types[i]).memory_blocks.len() == 0
                &&& self.memory_types[i].active_general_blocks == 0
            }
    }

    /// The slots of every memory type can be numbered.
    pub open spec fn numbered(self) -> bool {
        forall|i: int|
            0 <= i < self.memory_types.len() ==> (
            #[trigger] self.memory_types[i]).memory_blocks.len() <= usize::MAX
    }

    /// Which memory types can serve `requirements` with all of `flags`.
    pub open spec fn compatibility(self, requirements: MemoryRequirements, flags: u32) -> Seq<
        bool,
    > {
        Seq::new(
            self.memory_types.len(),
            |i: int| self.memory_types[i].compatible(requirements, flags),
        )
    }

    /// The lowest memory type that can serve `requirements` with all of `flags`.
    pub open spec fn find_memorytype_index(self, requirements: MemoryRequirements, flags: u32) -> Option<
        int,
    > {
        first(self.compatibility(requirements, flags))
    }

    /// The memory type that serves a request: with the preferred flags if there is one,
    /// with the required flags otherwise.
    pub open spec fn select(self, requirements: MemoryRequirements, location: MemoryLocation) -> Option<
        int,
    > {
        match self.find_memorytype_index(requirements, preferred_flags(location)) {
            Some(i) => Some(i),
            None => self.find_memorytype_index(requirements, required_flags(location)),
        }
    }

    /// This allocator with another memory type at `i`.
    pub open spec fn with_type(self, i: int, memory_type: MemoryTypeModel<S>) -> Self {
        AllocatorModel { memory_types: self.memory_types.update(i, memory_type), ..self }
    }

    /// This allocator with another sub-allocator in the block of slot `j` of memory type `i`.
    pub open spec fn with_sub_allocator(self, i: int, j: int, sub_allocator: S) -> Self {
        self.with_type(i, self.memory_types[i].with_sub_allocator(j, sub_allocator))
    }

    /// An attempt to allocate from the memory type at `i`.
    pub open spec fn attempt<'a>(
        self,
        i: int,
        desc: AllocationCreateDesc<'a>,
        backtrace: Option<&'a str>,
        retried: bool,
    ) -> Allocation<'a> {
        Allocation {
            desc,
            backtrace,
            retried,
            attempt: self.memory_types[i].begun(desc, self.buffer_image_granularity, backtrace),
        }
    }

    /// An allocation at its beginning.
    pub open spec fn begun<'a>(
        self,
        desc: AllocationCreateDesc<'a>,
        backtrace: Option<&'a str>,
    ) -> ProgressModel<Allocation<'a>> {
        if !valid(desc.requirements) {
            ProgressModel::Failed(ErrorModel::InvalidAllocationCreateDesc)
        } else {
            match self.select(desc.requirements, desc.location) {
                Some(i) => ProgressModel::Pending(self.attempt(i, desc, backtrace, false)),
                None => ProgressModel::Failed(ErrorModel::NoCompatibleMemoryTypeFound),
            }
        }
    }

    /// This allocator without any block left.
    pub open spec fn emptied(self) -> Self {
        AllocatorModel {
            memory_types: self.memory_types.map_values(|m: MemoryTypeModel<S>| m.emptied()),
            ..self
        }
    }

    /// `report` is about a live block.
    pub open spec fn about_live_block(self, report: LeakReport) -> bool {
        &&& report.memory_type_index < self.memory_types.len()
        &&& self.memory_types[report.memory_type_index as int].live(
            report.memory_block_index as int,
        )
    }

    /// `reports` holds one report at `log_level` for each live block and nothing else,
    /// ordered by memory type and then by slot.
    pub open spec fn reported(self, reports: Seq<LeakReport>, log_level: Level) -> bool {
        &&& forall|k: int|
            0 <= k < reports.len() ==> {
                &&& self.about_live_block(#[trigger] reports[k])
                &&& reports[k].log_level == log_level
            }
        &&& forall|k: int, l: int|
            0 <= k < l < reports.len() ==> (#[trigger] reports[k]).precedes(#[trigger] reports[l])
        &&& forall|i: usize, j: usize| #[trigger]
            self.about_live_block(
                LeakReport { log_level, memory_type_index: i, memory_block_index: j },
            ) ==> reports.contains(
                LeakReport { log_level, memory_type_index: i, memory_block_index: j },
            )
    }

    /// The same, of the blocks before slot `j` of memory type `i` only.
    spec fn reported_until(
        self,
        reports: Seq<LeakReport>,
        log_level: Level,
        i: int,
        j: int,
    ) -> bool {
        &&& forall|k: int|
            0 <= k < reports.len() ==> {
                &&& self.about_live_block(#[trigger] reports[k])
                &&& reports[k].log_level == log_level
                &&& reports[k].before(i, j)
            }
        &&& forall|k: int, l: int|
            0 <= k < l < reports.len() ==> (#[trigger] reports[k]).precedes(#[trigger] reports[l])
        &&& forall|report: LeakReport|
            #![trigger self.about_live_block(report)]
            self.about_live_block(report) && report.log_level == log_level && report.before(i, j)
                ==> reports.contains(report)
    }

    /// What [`Allocator::free`] comes to.
    pub open spec fn frees(self, sub_allocation: SubAllocation, progress: FreeProgress) -> bool {
        let memory_type_index = sub_allocation@.memory_type_index;
        let memory_block_index = sub_allocation@.memory_block_index;
        if sub_allocation@.chunk_id is None {
            progress == FreeProgress::Done(Ok(()))
        } else if self.memory_types[memory_type_index as int].live(memory_block_index as int) {
            progress == FreeProgress::Pending(
                PendingFree { memory_type_index, memory_block_index, sub_allocation },
            )
        } else {
            &&& progress matches FreeProgress::Done(Err(error))
            &&& error@ == ErrorModel::Internal("Memory block must be Some."@)
        }
    }

    /// A second attempt, with any memory that the host can see.
    pub open spec fn retried<'a>(
        self,
        desc: AllocationCreateDesc<'a>,
        backtrace: Option<&'a str>,
    ) -> ProgressModel<Allocation<'a>> {
        match self.find_memorytype_index(desc.requirements, HOST_VISIBLE | HOST_COHERENT) {
            Some(i) => ProgressModel::Pending(self.attempt(i, desc, backtrace, true)),
            None => ProgressModel::Failed(ErrorModel::NoCompatibleMemoryTypeFound),
        }
    }
}

impl<'a> Allocation<'a> {
    /// The memory type that the attempt is made on.
    pub open spec fn on<S>(self, allocator: AllocatorModel<S>) -> MemoryTypeModel<S> {
        allocator.memory_types[self.attempt.memory_type_index as int]
    }

    /// The allocation is under way on `allocator`: the attempt asks for what was described,
    /// of a memory type that can serve it and has the flags that its location requires.
    pub open spec fn fits<S>(self, allocator: AllocatorModel<S>) -> bool {
        &&& self.attempt.memory_type_index < allocator.memory_types.len()
        &&& self.attempt.fits(self.on(allocator))
        &&& self.on(allocator).compatible(
            self.desc.requirements,
            required_flags(self.desc.location),
        )
        &&& self.attempt.size == self.desc.requirements.size
        &&& self.attempt.alignment == self.desc.requirements.alignment
        &&& self.attempt.granularity == allocator.buffer_image_granularity
        &&& self.attempt.name == self.desc.name
        &&& self.attempt.backtrace == self.backtrace
        &&& self.attempt.allocation_type == if self.desc.linear {
            AllocationType::Linear
        } else {
            AllocationType::NonLinear
        }
    }

    /// `reply` answers what the allocation waits for.
    pub open spec fn admits<S>(self, allocator: AllocatorModel<S>, reply: Reply<S>) -> bool {
        self.attempt.admits(self.on(allocator), reply)
    }

    /// The allocator after `reply`.
    pub open spec fn state_after<S>(self, allocator: AllocatorModel<S>, reply: Reply<S>) -> AllocatorModel<
        S,
    > {
        allocator.with_type(
            self.attempt.memory_type_index as int,
            self.attempt.state_after(self.on(allocator), reply),
        )
    }

    /// What the allocation comes to with `reply`. Memory for uploads gets a second chance.
    pub open spec fn after<S>(self, allocator: AllocatorModel<S>, reply: Reply<S>) -> ProgressModel<
        Allocation<'a>,
    > {
        match self.attempt.after(self.on(allocator), reply) {
            ProgressModel::Pending(attempt) => ProgressModel::Pending(
                Allocation { attempt, ..self },
            ),
            ProgressModel::Allocated(sub_allocation) => ProgressModel::Allocated(sub_allocation),
            ProgressModel::Failed(error) => if self.desc.location == MemoryLocation::CpuToGpu
                && !self.retried {
                self.state_after(allocator, reply).retried(self.desc, self.backtrace)
            } else {
                ProgressModel::Failed(error)
            },
        }
    }

    /// What the allocation waits for.
    pub fn request(&self) -> (request: Request<'a>)
        ensures
            request == self.attempt.awaits(),
    {
        self.attempt.request()
    }
}

/// The calls that return the memory of all blocks to the device, type after type.
pub open spec fn teardown_of_types<S>(memory_types: Seq<MemoryTypeModel<S>>) -> Seq<DeviceCall>
    decreases memory_types.len(),
{
    if memory_types.len() == 0 {
        Seq::empty()
    } else {
        teardown_of_types(memory_types.drop_last()) + teardown_of(memory_types.last().memory_blocks)
    }
}

/// A report about the next live block extends the reports so far.
proof fn lemma_report_more<S>(
    allocator: AllocatorModel<S>,
    before: Seq<LeakReport>,
    after: Seq<LeakReport>,
    log_level: Level,
    i: usize,
    j: usize,
)
    requires
        allocator.reported_until(before, log_level, i as int, j as int),
        i < allocator.memory_types.len(),
        allocator.memory_types[i as int].live(j as int),
        after == before.push(
            LeakReport { log_level, memory_type_index: i, memory_block_index: j },
        ),
    ensures
        allocator.reported_until(after, log_level, i as int, j + 1),
{
    let next = LeakReport { log_level, memory_type_index: i, memory_block_index: j };
    assert forall|report: LeakReport|
        #![trigger allocator.about_live_block(report)]
        allocator.about_live_block(report) && report.log_level == log_level && report.before(
            i as int,
            j + 1,
        ) implies after.contains(report) by {
        if report == next {
            assert(after[before.len() as int] == next);
        } else {
            assert(report.before(i as int, j as int));
            let k = choose|k: int| 0 <= k < before.len() && before[k] == report;
            assert(after[k] == report);
        }
    }
}

impl<S> View for Allocator<S> {
    type V = AllocatorModel<S>;

    closed spec fn view(&self) -> AllocatorModel<S> {
        AllocatorModel {
            memory_types: self.memory_types@.map_values(|m: MemoryType<S>| m@),
            buffer_image_granularity: self.buffer_image_granularity,
            debug_settings: self.debug_settings,
        }
    }
}

impl<S> Allocator<S> {
    /// An allocator for the memory types of a device, without any memory yet.
    pub fn new(desc: &AllocatorCreateDesc) -> (allocator: Self)
        requires
            desc.memory_properties.wf(),
        ensures
            allocator@ == (AllocatorModel {
                memory_types: Seq::new(
                    desc.memory_properties.memory_type_count as nat,
                    |i: int|
                        MemoryTypeModel {
                            memory_blocks: Seq::<Option<MemoryBlock<S>>>::empty(),
                            memory_properties: desc.memory_properties.memory_types@[i].property_flags,
                            memory_type_index: i as usize,
                            heap_index: desc.memory_properties.memory_types@[i].heap_index as usize,
                            mappable: contains(
                                desc.memory_properties.memory_types@[i].property_flags,
                                HOST_VISIBLE,
                            ),
                            active_general_blocks: 0,
                        },
                ),
                buffer_image_granularity: desc.buffer_image_granularity,
                debug_settings: desc.debug_settings,
            }),
            allocator@.wf(),
            allocator@.blockless(),
    {
        let count = desc.memory_properties.memory_type_count as usize;
        let mut memory_types: Vec<MemoryType<S>> = Vec::new();
        let mut i: usize = 0;
        while i < count
            invariant
                desc.memory_properties.wf(),
                i <= count == desc.memory_properties.memory_type_count,
                memory_types@.len() == i,
                forall|j: int|
                    0 <= j < i ==> (#[trigger] memory_types@[j])@ == (MemoryTypeModel {
                        memory_blocks: Seq::<Option<MemoryBlock<S>>>::empty(),
                        memory_properties: desc.memory_properties.memory_types@[j].property_flags,
                        memory_type_index: j as usize,
                        heap_index: desc.memory_properties.memory_types@[j].heap_index as usize,
                        mappable: contains(
                            desc.memory_properties.memory_types@[j].property_flags,
                            HOST_VISIBLE,
                        ),
                        active_general_blocks: 0,
                    }),
            decreases count - i,
        {
            memory_types.push(MemoryType::new(i, desc.memory_properties.memory_types[i]));
            i = i + 1;
        }
        Allocator {
            memory_types,
            buffer_image_granularity: desc.buffer_image_granularity,
            debug_settings: desc.debug_settings,
        }
    }

    /// The memory types of the device.
    pub fn memory_types(&self) -> (memory_types: &Vec<MemoryType<S>>)
        ensures
            memory_types@.map_values(|m: MemoryType<S>| m@) == self@.memory_types,
    {
        &self.memory_types
    }

    /// What the allocator reports about its own work.
    pub fn debug_settings(&self) -> (settings: AllocatorDebugSettings)
        ensures
            settings == self@.debug_settings,
    {
        self.debug_settings
    }

    /// The stack trace to store with an allocation that is made here, if any is stored.
    pub fn stack_trace(&self) -> (trace: Option<String>)
        ensures
            trace is Some <==> self@.debug_settings.store_stack_traces,
    {
        if self.debug_settings.store_stack_traces {
            Some(capture())
        } else {
            None
        }
    }

    /// The lowest memory type that can serve `memory_req` with all of `flags`.
    pub fn find_memorytype_index(&self, memory_req: &MemoryRequirements, flags: u32) -> (index:
        Option<u32>)
        requires
            self@.wf(),
        ensures
            match index {
                Some(i) => {
                    &&& self@.find_memorytype_index(*memory_req, flags) == Some(i as int)
                    &&& i < self@.memory_types.len()
                    &&& self@.memory_types[i as int].compatible(*memory_req, flags)
                    &&& forall|j: int|
                        0 <= j < i ==> !(#[trigger] self@.memory_types[j]).compatible(
                            *memory_req,
                            flags,
                        )
                },
                None => {
                    &&& self@.find_memorytype_index(*memory_req, flags) is None
                    &&& forall|j: int|
                        0 <= j < self@.memory_types.len() ==> !(
                        #[trigger] self@.memory_types[j]).compatible(*memory_req, flags)
                },
            },
    {
        let ghost marks = self@.compatibility(*memory_req, flags);
        let mut i: usize = 0;
        while i < self.memory_types.len()
            invariant
                self@.wf(),
                i <= self@.memory_types.len(),
                marks == self@.compatibility(*memory_req, flags),
                forall|j: int| 0 <= j < i ==> !(#[trigger] marks[j]),
                forall|j: int|
                    0 <= j < i ==> !(#[trigger] self@.memory_types[j]).compatible(
                        *memory_req,
                        flags,
                    ),
            decreases self@.memory_types.len() - i,
        {
            assert(self@.memory_types[i as int] == self.memory_types@[i as int]@);
            let index = self.memory_types[i].memory_type_index();
            let properties = self.memory_types[i].memory_properties();
            if (1u32 << index) & memory_req.memory_type_bits != 0 && flags_contain(
                properties,
                flags,
            ) {
                proof {
                    assert(is_first(marks, i as int));
                    lemma_first_is(marks, i as int);
                }
                return Some(index as u32);
            }
            assert(!marks[i as int]);
            i = i + 1;
        }
        proof {
            lemma_first_none(marks);
        }
        None
    }

    /// The memory type that serves a request, if any can.
    fn select(&self, memory_req: &MemoryRequirements, location: MemoryLocation) -> (index: Option<
        u32,
    >)
        requires
            self@.wf(),
        ensures
            match index {
                Some(i) => self@.select(*memory_req, location) == Some(i as int) && i
                    < self@.memory_types.len(),
                None => self@.select(*memory_req, location) is None,
            },
    {
        let preferred = match location {
            MemoryLocation::GpuOnly => device_local(),
            MemoryLocation::CpuToGpu => host_visible() | host_coherent() | device_local(),
            MemoryLocation::GpuToCpu => host_visible() | host_coherent() | host_cached(),
            MemoryLocation::Unknown => no_flags(),
        };
        let index = self.find_memorytype_index(memory_req, preferred);
        if index.is_some() {
            return index;
        }
        let required = match location {
            MemoryLocation::GpuOnly => device_local(),
            MemoryLocation::CpuToGpu => host_visible() | host_coherent(),
            MemoryLocation::GpuToCpu => host_visible() | host_coherent(),
            MemoryLocation::Unknown => no_flags(),
        };
        self.find_memorytype_index(memory_req, required)
    }

    /// Begins an attempt to allocate from the memory type at `index`.
    fn attempt<'a>(
        &self,
        index: u32,
        desc: &AllocationCreateDesc<'a>,
        backtrace: Option<&'a str>,
        retried: bool,
    ) -> (allocation: Allocation<'a>)
        requires
            self@.wf(),
            index < self@.memory_types.len(),
            self@.memory_types[index as int].compatible(
                desc.requirements,
                required_flags(desc.location),
            ),
        ensures
            allocation == self@.attempt(index as int, *desc, backtrace, retried),
            allocation.fits(self@),
    {
        assert(self@.memory_types[index as int] == self.memory_types@[index as int]@);
        let attempt = self.memory_types[index as usize].allocate(
            desc,
            self.buffer_image_granularity,
            backtrace,
        );
        Allocation { desc: *desc, backtrace, retried, attempt }
    }

    /// Begins an allocation. `backtrace` is stored with it.
    pub fn allocate<'a>(
        &self,
        desc: &AllocationCreateDesc<'a>,
        backtrace: Option<&'a str>,
    ) -> (progress: Progress<Allocation<'a>>)
        requires
            self@.wf(),
        ensures
            progress@ == self@.begun(*desc, backtrace),
            progress@ matches ProgressModel::Pending(pending) ==> pending.fits(self@),
    {
        let size = desc.requirements.size;
        let alignment = desc.requirements.alignment;
        if size == 0 || !alignment.is_power_of_two() {
            return Progress::Done(Err(AllocationError::InvalidAllocationCreateDesc));
        }
        proof {
            selection_is_compatible(self@, desc.requirements, desc.location);
        }
        match self.select(&desc.requirements, desc.location) {
            Some(index) => Progress::Pending(self.attempt(index, desc, backtrace, false)),
            None => Progress::Done(Err(AllocationError::NoCompatibleMemoryTypeFound)),
        }
    }

    /// Goes on with an allocation, with what came of its request.
    pub fn resume<'a>(&mut self, allocation: Allocation<'a>, reply: Reply<S>) -> (progress:
        Progress<Allocation<'a>>)
        requires
            old(self)@.wf(),
            allocation.fits(old(self)@),
            allocation.admits(old(self)@, reply),
        ensures
            final(self)@ == allocation.state_after(old(self)@, reply),
            progress@ == allocation.after(old(self)@, reply),
            final(self)@.wf(),
            progress@ matches ProgressModel::Pending(pending) ==> pending.fits(final(self)@),
    {
        let index = allocation.attempt.memory_type_index;
        assert(self@.memory_types[index as int] == self.memory_types@[index as int]@);
        let progress = self.memory_types[index].resume(allocation.attempt, reply);
        assert(self@ == allocation.state_after(old(self)@, reply));
        match progress {
            Progress::Pending(attempt) => Progress::Pending(Allocation { attempt, ..allocation }),
            Progress::Done(Ok(sub_allocation)) => Progress::Done(Ok(sub_allocation)),
            Progress::Done(Err(error)) => {
                if allocation.desc.location == MemoryLocation::CpuToGpu && !allocation.retried {
                    let flags = host_visible() | host_coherent();
                    match self.find_memorytype_index(&allocation.desc.requirements, flags) {
                        Some(index) => Progress::Pending(
                            self.attempt(index, &allocation.desc, allocation.backtrace, true),
                        ),
                        None => Progress::Done(Err(AllocationError::NoCompatibleMemoryTypeFound)),
                    }
                } else {
                    Progress::Done(Err(error))
                }
            },
        }
    }

    /// The sub-allocator of a live block, to carry out a request on.
    pub fn sub_allocator_mut(&mut self, memory_type_index: usize, memory_block_index: usize) -> (
    sub_allocator: &mut S)
        requires
            memory_type_index < old(self)@.memory_types.len(),
            old(self)@.memory_types[memory_type_index as int].live(memory_block_index as int),
        ensures
            *sub_allocator == old(self)@.memory_types[memory_type_index as int].block(
                memory_block_index as int,
            ).sub_allocator,
            final(self)@ == old(self)@.with_sub_allocator(
                memory_type_index as int,
                memory_block_index as int,
                *final(sub_allocator),
            ),
            old(self)@.wf() ==> old(self)@.with_sub_allocator(
                memory_type_index as int,
                memory_block_index as int,
                *final(sub_allocator),
            ).wf(),
    {
        proof {
            let i = memory_type_index as int;
            let j = memory_block_index as int;
            assert forall|s: S| old(self)@.wf() implies #[trigger] old(self)@.with_sub_allocator(
                i,
                j,
                s,
            ).wf() by {
                lemma_with_sub_allocator(old(self)@.memory_types[i], j, s);
            }
        }
        self.memory_types[memory_type_index].sub_allocator_mut(memory_block_index)
    }

    /// Begins to free a sub-allocation. One that stands for no memory is freed at once.
    pub fn free(&self, sub_allocation: SubAllocation) -> (progress: FreeProgress)
        requires
            self@.wf(),
            sub_allocation@.chunk_id is Some ==> {
                &&& sub_allocation@.memory_type_index < self@.memory_types.len()
                &&& sub_allocation@.memory_block_index
                    < self@.memory_types[sub_allocation@.memory_type_index as int].memory_blocks.len()
            },
        ensures
            self@.frees(sub_allocation, progress),
    {
        if sub_allocation.is_null() {
            return FreeProgress::Done(Ok(()));
        }
        let index = sub_allocation.memory_type_index();
        assert(self@.memory_types[index as int] == self.memory_types@[index as int]@);
        self.memory_types[index].free(sub_allocation)
    }

    /// Finishes a free, with what came of handing the sub-allocation back to the
    /// sub-allocator of its block. Gives the calls to make on the device.
    pub fn finish_free(
        &mut self,
        memory_type_index: usize,
        memory_block_index: usize,
        reply: FreeReply,
    ) -> (result: Result<Vec<DeviceCall>, AllocationError>)
        requires
            old(self)@.wf(),
            memory_type_index < old(self)@.memory_types.len(),
            old(self)@.memory_types[memory_type_index as int].live(memory_block_index as int),
        ensures
            final(self)@ == old(self)@.with_type(
                memory_type_index as int,
                old(self)@.memory_types[memory_type_index as int].after_free(
                    memory_block_index as int,
                    reply,
                ),
            ),
            match old(self)@.memory_types[memory_type_index as int].free_outcome(
                memory_block_index as int,
                reply,
            ) {
                Ok(calls) => result matches Ok(made) && made@ == calls,
                Err(error) => result matches Err(given) && given@ == error,
            },
            final(self)@.wf(),
    {
        assert(self@.memory_types[memory_type_index as int]
            == self.memory_types@[memory_type_index as int]@);
        let result = self.memory_types[memory_type_index].finish_free(memory_block_index, reply);
        assert(self@ == old(self)@.with_type(
            memory_type_index as int,
            old(self)@.memory_types[memory_type_index as int].after_free(
                memory_block_index as int,
                reply,
            ),
        ));
        result
    }

    /// The live blocks, by memory type and then by slot. Each report is to be made by the
    /// sub-allocator of its block, at `log_level`.
    pub fn report_memory_leaks(&self, log_level: Level) -> (reports: Vec<LeakReport>)
        ensures
            self@.reported(reports@, log_level),
    {
        let mut reports: Vec<LeakReport> = Vec::new();
        let mut i: usize = 0;
        while i < self.memory_types.len()
            invariant
                i <= self.memory_types@.len(),
                self@.reported_until(reports@, log_level, i as int, 0),
            decreases self.memory_types@.len() - i,
        {
            assert(self@.memory_types[i as int] == self.memory_types@[i as int]@);
            let memory_blocks = self.memory_types[i].memory_blocks();
            let mut j: usize = 0;
            while j < memory_blocks.len()
                invariant
                    i < self.memory_types@.len(),
                    memory_blocks@ == self@.memory_types[i as int].memory_blocks,
                    j <= memory_blocks@.len(),
                    self@.reported_until(reports@, log_level, i as int, j as int),
                decreases memory_blocks@.len() - j,
            {
                let ghost before = reports@;
                if memory_blocks[j].is_some() {
                    reports.push(
                        LeakReport { log_level, memory_type_index: i, memory_block_index: j },
                    );
                    proof {
                        lemma_report_more(self@, before, reports@, log_level, i, j);
                    }
                }
                j = j + 1;
            }
            i = i + 1;
        }
        reports
    }

    /// The leaks to report when the allocator shuts down, if they are reported at all.
    pub fn leaks_on_shutdown(&self, log_level: Level) -> (reports: Vec<LeakReport>)
        ensures
            if self@.debug_settings.log_leaks_on_shutdown {
                self@.reported(reports@, log_level)
            } else {
                reports@.len() == 0
            },
    {
        if self.debug_settings.log_leaks_on_shutdown {
            self.report_memory_leaks(log_level)
        } else {
            Vec::new()
        }
    }

    /// Takes all remaining memory blocks apart. Gives the calls to make on the device.
    pub fn shut_down(&mut self) -> (calls: Vec<DeviceCall>)
        ensures
            final(self)@ == old(self)@.emptied(),
            calls@ == teardown_of_types(old(self)@.memory_types),
            old(self)@.wf() ==> final(self)@.wf(),
    {
        let ghost types = self@.memory_types;
        let mut calls: Vec<DeviceCall> = Vec::new();
        let mut i: usize = 0;
        while i < self.memory_types.len()
            invariant
                i <= types.len(),
                types == old(self)@.memory_types,
                self@.memory_types.len() == types.len(),
                forall|j: int|
                    0 <= j < i ==> (#[trigger] self@.memory_types[j]) == types[j].emptied(),
                forall|j: int|
                    i <= j < types.len() ==> (#[trigger] self@.memory_types[j]) == types[j],
                self@ == (AllocatorModel { memory_types: self@.memory_types, ..old(self)@ }),
                calls@ == teardown_of_types(types.take(i as int)),
            decreases types.len() - i,
        {
            let ghost before = self@;
            assert(self@.memory_types[i as int] == self.memory_types@[i as int]@);
            self.memory_types[i].destroy_blocks(&mut calls);
            proof {
                assert(self@ == before.with_type(i as int, types[i as int].emptied()));
                assert(types.take(i + 1).drop_last() == types.take(i as int));
                assert(types.take(i + 1).last() == types[i as int]);
            }
            i = i + 1;
        }
        assert(types.take(i as int) == types);
        assert(self@.memory_types == old(self)@.emptied().memory_types);
        calls
    }
}

} // verus!
