use vstd::prelude::*;

use crate::error::{AllocationError, ErrorModel};
use crate::flags::{contains, flags_contain, host_visible, HOST_VISIBLE};
use crate::memory_block::{BlockCreation, CreationProgress, CreationStage, MemoryBlock};
use crate::progress::{FreeProgress, PendingFree, Progress, ProgressModel};
use crate::protocol::{DeviceCall, FreeReply, Reply, Request};
use crate::search::{
    first, is_first, is_last, last, lemma_first_is, lemma_first_none, lemma_last_is,
    lemma_last_none,
};
use crate::sub_allocation::{
    borrowed_text, non_null, ChunkId, SubAllocation, SubAllocationModel,
};
use crate::types::{
    AllocationCreateDesc, AllocationType, MemoryTypeProperties, MAX_MEMORY_TYPES,
};

verus! {

/// Size of a general memory block of a type that the host cannot map.
pub const DEFAULT_DEVICE_MEMBLOCK_SIZE: u64 = 256 * 1024 * 1024;

/// Size of a general memory block of a type that the host can map.
pub const DEFAULT_HOST_MEMBLOCK_SIZE: u64 = 64 * 1024 * 1024;

/// A memory type of the device, with the memory blocks that were allocated from it.
#[derive(Debug)]
pub struct MemoryType<S> {
    memory_blocks: Vec<Option<MemoryBlock<S>>>,
    memory_properties: u32,
    memory_type_index: usize,
    heap_index: usize,
    mappable: bool,
    active_general_blocks: usize,
}

/// What a [`MemoryType`] holds.
#[verifier::ext_equal]
pub struct MemoryTypeModel<S> {
    /// One slot per block. A slot is vacant once its block was destroyed.
    pub memory_blocks: Seq<Option<MemoryBlock<S>>>,
    pub memory_properties: u32,
    pub memory_type_index: usize,
    pub heap_index: usize,
    pub mappable: bool,
    pub active_general_blocks: usize,
}

/// What an allocation from a memory type waits for.
#[derive(Clone, Copy, Debug)]
pub enum AllocationStage {
    /// For room in an existing block, general or dedicated.
    Search { memory_block_index: usize },
    /// For a new block.
    Create(BlockCreation),
    /// For the first part of a block that was just created.
    Fill { memory_block_index: usize, dedicated: bool },
}

/// An unfinished allocation from a memory type.
#[derive(Clone, Copy, Debug)]
pub struct TypeAllocation<'a> {
    pub memory_type_index: usize,
    pub size: u64,
    pub alignment: u64,
    pub allocation_type: AllocationType,
    pub granularity: u64,
    pub name: &'a str,
    pub backtrace: Option<&'a str>,
    pub stage: AllocationStage,
}

impl<S> MemoryTypeModel<S> {
    /// Size of the general blocks of this type.
    pub open spec fn memblock_size(self) -> u64 {
        if contains(self.memory_properties, HOST_VISIBLE) {
            DEFAULT_HOST_MEMBLOCK_SIZE
        } else {
            DEFAULT_DEVICE_MEMBLOCK_SIZE
        }
    }

    /// Slot `i` holds a block.
    pub open spec fn live(self, i: int) -> bool {
        0 <= i < self.memory_blocks.len() && self.memory_blocks[i] is Some
    }

    /// The block in slot `i`.
    pub open spec fn block(self, i: int) -> MemoryBlock<S>
        recommends
            self.live(i),
    {
        self.memory_blocks[i]->0
    }

    /// A block of this type can look like that: general blocks have the usual size,
    /// dedicated ones are larger, and memory that the host cannot see is not mapped.
    pub open spec fn holds(self, block: MemoryBlock<S>) -> bool {
        &&& block.size >= self.memblock_size()
        &&& !self.mappable ==> block.mapped_ptr == 0
    }

    /// What every operation keeps.
    pub open spec fn wf(self) -> bool {
        &&& self.memory_type_index < MAX_MEMORY_TYPES
        &&& self.mappable == contains(self.memory_properties, HOST_VISIBLE)
        &&& forall|i: int| #[trigger] self.live(i) ==> self.holds(self.block(i))
    }

    /// Which of the first `end` slots hold a block.
    pub open spec fn occupancy(self, end: int) -> Seq<bool> {
        Seq::new(end as nat, |i: int| self.memory_blocks[i] is Some)
    }

    /// Which slots are vacant.
    pub open spec fn vacancies(self) -> Seq<bool> {
        Seq::new(self.memory_blocks.len(), |i: int| self.memory_blocks[i] is None)
    }

    /// The highest slot below `end` that holds a block.
    pub open spec fn candidate_below(self, end: int) -> Option<int> {
        last(self.occupancy(end))
    }

    /// The slot that a new block goes to: a dedicated one to the lowest vacant slot, a
    /// general one to the highest, and either to a new slot if none is vacant.
    pub open spec fn slot_for(self, dedicated: bool) -> int {
        let vacant = if dedicated {
            first(self.vacancies())
        } else {
            last(self.vacancies())
        };
        match vacant {
            Some(i) => i,
            None => self.memory_blocks.len() as int,
        }
    }

    /// This type with `block` in the slot that it goes to.
    pub open spec fn with_block(self, block: MemoryBlock<S>, dedicated: bool) -> Self {
        let i = self.slot_for(dedicated);
        MemoryTypeModel {
            memory_blocks: if i == self.memory_blocks.len() {
                self.memory_blocks.push(Some(block))
            } else {
                self.memory_blocks.update(i, Some(block))
            },
            active_general_blocks: if dedicated {
                self.active_general_blocks
            } else {
                (self.active_general_blocks + 1) as usize
            },
            ..self
        }
    }

    /// This type with another sub-allocator in the block of slot `i`.
    pub open spec fn with_sub_allocator(self, i: int, sub_allocator: S) -> Self {
        MemoryTypeModel {
            memory_blocks: self.memory_blocks.update(
                i,
                Some(MemoryBlock { sub_allocator, ..self.block(i) }),
            ),
            ..self
        }
    }

    /// The stage of an allocation that has yet to ask the blocks below `end`.
    pub open spec fn search_below(self, end: int) -> AllocationStage {
        match self.candidate_below(end) {
            Some(i) => AllocationStage::Search { memory_block_index: i as usize },
            None => AllocationStage::Create(self.fresh(self.memblock_size(), false)),
        }
    }

    /// The creation of a block of this type, at its beginning.
    pub open spec fn fresh(self, size: u64, dedicated: bool) -> BlockCreation {
        BlockCreation {
            size,
            memory_type_index: self.memory_type_index as u32,
            mapped: self.mappable,
            dedicated,
            stage: CreationStage::Memory,
        }
    }

    /// An allocation from this type, at its beginning: what is larger than a general block
    /// gets a dedicated one, all else is looked for in the existing blocks, last to first.
    pub open spec fn begun<'a>(
        self,
        desc: AllocationCreateDesc<'a>,
        granularity: u64,
        backtrace: Option<&'a str>,
    ) -> TypeAllocation<'a> {
        TypeAllocation {
            memory_type_index: self.memory_type_index,
            size: desc.requirements.size,
            alignment: desc.requirements.alignment,
            allocation_type: if desc.linear {
                AllocationType::Linear
            } else {
                AllocationType::NonLinear
            },
            granularity,
            name: desc.name,
            backtrace,
            stage: if desc.requirements.size > self.memblock_size() {
                AllocationStage::Create(self.fresh(desc.requirements.size, true))
            } else {
                self.search_below(self.memory_blocks.len() as int)
            },
        }
    }

    /// Whether the block of a sub-allocator that just became empty goes away: a dedicated
    /// block always does, a general one if another general block remains.
    pub open spec fn discards(self, general: bool) -> bool {
        !general || self.active_general_blocks > 1
    }

    /// This type without the block in slot `i`.
    pub open spec fn without_block(self, i: int, general: bool) -> Self {
        MemoryTypeModel {
            memory_blocks: self.memory_blocks.update(i, None),
            active_general_blocks: if general {
                (self.active_general_blocks - 1) as usize
            } else {
                self.active_general_blocks
            },
            ..self
        }
    }

    /// This type after the sub-allocator in slot `i` took a sub-allocation back.
    pub open spec fn after_free(self, i: int, reply: FreeReply) -> Self {
        match reply {
            FreeReply::Empty { general } => if self.discards(general) {
                self.without_block(i, general)
            } else {
                self
            },
            _ => self,
        }
    }

    /// This type without any block left.
    pub open spec fn emptied(self) -> Self {
        MemoryTypeModel {
            memory_blocks: Seq::new(self.memory_blocks.len(), |i: int| None),
            ..self
        }
    }

    /// What is then to be done on the device, or the error of the sub-allocator.
    pub open spec fn free_outcome(self, i: int, reply: FreeReply) -> Result<
        Seq<DeviceCall>,
        ErrorModel,
    > {
        match reply {
            FreeReply::Refused(error) => Err(error@),
            FreeReply::InUse => Ok(Seq::empty()),
            FreeReply::Empty { general } => if self.discards(general) {
                Ok(self.block(i).teardown())
            } else {
                Ok(Seq::empty())
            },
        }
    }
}

impl<'a> TypeAllocation<'a> {
    /// The allocation is under way on the memory type `on`.
    pub open spec fn fits<S>(self, on: MemoryTypeModel<S>) -> bool {
        &&& self.memory_type_index == on.memory_type_index
        &&& match self.stage {
            AllocationStage::Search { memory_block_index } => {
                &&& on.live(memory_block_index as int)
                &&& self.size <= on.memblock_size()
            },
            AllocationStage::Create(creation) => {
                &&& creation.memory_type_index == on.memory_type_index as u32
                &&& creation.mapped == on.mappable
                &&& creation.dedicated == (self.size > on.memblock_size())
                &&& creation.size == if creation.dedicated {
                    self.size
                } else {
                    on.memblock_size()
                }
                &&& creation.wf()
            },
            AllocationStage::Fill { memory_block_index, dedicated } => {
                &&& on.live(memory_block_index as int)
                &&& dedicated == (self.size > on.memblock_size())
            },
        }
    }

    /// What the allocation waits for.
    pub open spec fn awaits(self) -> Request<'a> {
        match self.stage {
            AllocationStage::Search { memory_block_index } => self.asks(memory_block_index),
            AllocationStage::Create(creation) => creation.awaits(),
            AllocationStage::Fill { memory_block_index, .. } => self.asks(memory_block_index),
        }
    }

    /// The request to a sub-allocator.
    pub open spec fn asks(self, memory_block_index: usize) -> Request<'a> {
        Request::SubAllocate {
            memory_type_index: self.memory_type_index,
            memory_block_index,
            size: self.size,
            alignment: self.alignment,
            allocation_type: self.allocation_type,
            granularity: self.granularity,
            name: self.name,
            backtrace: self.backtrace,
        }
    }

    /// `reply` answers what the allocation waits for. A part of a mapped block lies within
    /// the address space, and general blocks can still be counted.
    pub open spec fn admits<S>(self, on: MemoryTypeModel<S>, reply: Reply<S>) -> bool {
        match self.stage {
            AllocationStage::Search { memory_block_index } => {
                &&& reply matches Reply::SubAllocated(given)
                &&& given matches Ok((offset, _)) ==> Self::addressable(
                    on.block(memory_block_index as int),
                    offset,
                )
            },
            AllocationStage::Create(creation) => {
                &&& creation.admits(reply)
                &&& (reply is SubAllocatorCreated && !creation.dedicated)
                    ==> on.active_general_blocks < usize::MAX
            },
            AllocationStage::Fill { memory_block_index, dedicated } => {
                &&& reply matches Reply::SubAllocated(given)
                &&& given matches Ok((offset, _)) ==> dedicated || Self::addressable(
                    on.block(memory_block_index as int),
                    offset,
                )
            },
        }
    }

    /// If the block is mapped, `offset` bytes into it is still an address.
    pub open spec fn addressable<S>(block: MemoryBlock<S>, offset: u64) -> bool {
        block.mapped_ptr != 0 ==> block.mapped_ptr + offset <= u64::MAX
    }

    /// The same allocation at another stage.
    pub open spec fn at(self, stage: AllocationStage) -> TypeAllocation<'a> {
        TypeAllocation { stage, ..self }
    }

    /// The part of `block` at `offset` that the allocation comes to.
    pub open spec fn carved<S>(
        self,
        block: MemoryBlock<S>,
        memory_block_index: usize,
        dedicated: bool,
        offset: u64,
        chunk_id: ChunkId,
    ) -> SubAllocationModel {
        SubAllocationModel {
            chunk_id: Some(chunk_id),
            memory_block_index,
            memory_type_index: self.memory_type_index,
            device_memory: block.device_memory,
            offset,
            size: self.size,
            mapped_ptr: if block.mapped_ptr == 0 {
                None
            } else if dedicated {
                Some(block.mapped_ptr)
            } else {
                Some((block.mapped_ptr + offset) as u64)
            },
            name: Some(self.name@),
            backtrace: borrowed_text(self.backtrace),
        }
    }

    /// The memory type after `reply`.
    pub open spec fn state_after<S>(self, on: MemoryTypeModel<S>, reply: Reply<S>) -> MemoryTypeModel<
        S,
    > {
        match self.stage {
            AllocationStage::Create(creation) => match creation.after(reply) {
                CreationProgress::Created(block) => on.with_block(block, creation.dedicated),
                _ => on,
            },
            _ => on,
        }
    }

    /// What the allocation comes to with `reply`.
    pub open spec fn after<S>(self, on: MemoryTypeModel<S>, reply: Reply<S>) -> ProgressModel<
        TypeAllocation<'a>,
    > {
        match (self.stage, reply) {
            (AllocationStage::Create(creation), _) => match creation.after(reply) {
                CreationProgress::Pending(creation) => ProgressModel::Pending(
                    self.at(AllocationStage::Create(creation)),
                ),
                CreationProgress::Created(_) => ProgressModel::Pending(
                    self.at(
                        AllocationStage::Fill {
                            memory_block_index: on.slot_for(creation.dedicated) as usize,
                            dedicated: creation.dedicated,
                        },
                    ),
                ),
                CreationProgress::Failed(error) => ProgressModel::Failed(error@),
            },
            (
                AllocationStage::Search { memory_block_index },
                Reply::SubAllocated(Ok((offset, chunk_id))),
            ) => ProgressModel::Allocated(
                self.carved(
                    on.block(memory_block_index as int),
                    memory_block_index,
                    false,
                    offset,
                    chunk_id,
                ),
            ),
            (
                AllocationStage::Search { memory_block_index },
                Reply::SubAllocated(Err(AllocationError::OutOfMemory)),
            ) => ProgressModel::Pending(self.at(on.search_below(memory_block_index as int))),
            (
                AllocationStage::Fill { memory_block_index, dedicated },
                Reply::SubAllocated(Ok((offset, chunk_id))),
            ) => ProgressModel::Allocated(
                self.carved(
                    on.block(memory_block_index as int),
                    memory_block_index,
                    dedicated,
                    offset,
                    chunk_id,
                ),
            ),
            (
                AllocationStage::Fill { dedicated: false, .. },
                Reply::SubAllocated(Err(AllocationError::OutOfMemory)),
            ) => ProgressModel::Failed(
                ErrorModel::Internal(
                    "Allocation that must succeed failed. This is a bug in the allocator."@,
                ),
            ),
            (_, Reply::SubAllocated(Err(error))) => ProgressModel::Failed(error@),
            _ => arbitrary(),
        }
    }

    /// What the allocation waits for.
    pub fn request(&self) -> (request: Request<'a>)
        ensures
            request == self.awaits(),
    {
        let memory_block_index = match self.stage {
            AllocationStage::Create(creation) => {
                return creation.request();
            },
            AllocationStage::Search { memory_block_index } => memory_block_index,
            AllocationStage::Fill { memory_block_index, .. } => memory_block_index,
        };
        Request::SubAllocate {
            memory_type_index: self.memory_type_index,
            memory_block_index,
            size: self.size,
            alignment: self.alignment,
            allocation_type: self.allocation_type,
            granularity: self.granularity,
            name: self.name,
            backtrace: self.backtrace,
        }
    }
}

impl<S> View for MemoryType<S> {
    type V = MemoryTypeModel<S>;

    closed spec fn view(&self) -> MemoryTypeModel<S> {
        MemoryTypeModel {
            memory_blocks: self.memory_blocks@,
            memory_properties: self.memory_properties,
            memory_type_index: self.memory_type_index,
            heap_index: self.heap_index,
            mappable: self.mappable,
            active_general_blocks: self.active_general_blocks,
        }
    }
}

impl<S> MemoryType<S> {
    /// The memory type that the device lists at `memory_type_index`, without any block.
    pub fn new(memory_type_index: usize, properties: MemoryTypeProperties) -> (memory_type: Self)
        ensures
            memory_type@ == (MemoryTypeModel {
                memory_blocks: Seq::<Option<MemoryBlock<S>>>::empty(),
                memory_properties: properties.property_flags,
                memory_type_index,
                heap_index: properties.heap_index as usize,
                mappable: contains(properties.property_flags, HOST_VISIBLE),
                active_general_blocks: 0,
            }),
    {
        MemoryType {
            memory_blocks: Vec::new(),
            memory_properties: properties.property_flags,
            memory_type_index,
            heap_index: properties.heap_index as usize,
            mappable: flags_contain(properties.property_flags, host_visible()),
            active_general_blocks: 0,
        }
    }

    /// The slots of this type, vacant or with a block.
    pub fn memory_blocks(&self) -> (memory_blocks: &Vec<Option<MemoryBlock<S>>>)
        ensures
            memory_blocks@ == self@.memory_blocks,
    {
        &self.memory_blocks
    }

    /// Number of general blocks that were created and not yet destroyed.
    pub fn active_general_blocks(&self) -> (count: usize)
        ensures
            count == self@.active_general_blocks,
    {
        self.active_general_blocks
    }

    /// The property flags of this type.
    pub(crate) fn memory_properties(&self) -> (flags: u32)
        ensures
            flags == self@.memory_properties,
    {
        self.memory_properties
    }

    /// The index at which the device lists this type.
    pub(crate) fn memory_type_index(&self) -> (index: usize)
        ensures
            index == self@.memory_type_index,
    {
        self.memory_type_index
    }

    /// The sub-allocator of the block in a slot, to carry out a request on.
    pub fn sub_allocator_mut(&mut self, memory_block_index: usize) -> (sub_allocator: &mut S)
        requires
            old(self)@.live(memory_block_index as int),
        ensures
            *sub_allocator == old(self)@.block(memory_block_index as int).sub_allocator,
            final(self)@ == old(self)@.with_sub_allocator(
                memory_block_index as int,
                *final(sub_allocator),
            ),
            old(self)@.wf() ==> old(self)@.with_sub_allocator(
                memory_block_index as int,
                *final(sub_allocator),
            ).wf(),
    {
        proof {
            assert forall|s: S| old(self)@.wf() implies #[trigger] old(self)@.with_sub_allocator(
                memory_block_index as int,
                s,
            ).wf() by {
                lemma_with_sub_allocator(old(self)@, memory_block_index as int, s);
            }
        }
        match &mut self.memory_blocks[memory_block_index] {
            Some(block) => &mut block.sub_allocator,
            None => vstd::pervasive::unreached(),
        }
    }

    /// Size of the general blocks of this type.
    fn memblock_size(&self) -> (size: u64)
        ensures
            size == self@.memblock_size(),
    {
        if flags_contain(self.memory_properties, host_visible()) {
            DEFAULT_HOST_MEMBLOCK_SIZE
        } else {
            DEFAULT_DEVICE_MEMBLOCK_SIZE
        }
    }

    /// The highest slot below `end` that holds a block.
    fn candidate_below(&self, end: usize) -> (candidate: Option<usize>)
        requires
            end <= self@.memory_blocks.len(),
        ensures
            match candidate {
                Some(i) => self@.candidate_below(end as int) == Some(i as int),
                None => self@.candidate_below(end as int) is None,
            },
    {
        let ghost marks = self@.occupancy(end as int);
        let mut i: usize = end;
        while i > 0
            invariant
                i <= end <= self@.memory_blocks.len(),
                marks == self@.occupancy(end as int),
                forall|j: int| i <= j < end ==> !(#[trigger] marks[j]),
            decreases i,
        {
            i = i - 1;
            if self.memory_blocks[i].is_some() {
                proof {
                    assert(is_last(marks, i as int));
                    lemma_last_is(marks, i as int);
                }
                return Some(i);
            }
            assert(!marks[i as int]);
        }
        proof {
            lemma_last_none(marks);
        }
        None
    }

    /// The slot that a new block goes to. It may lie just past the last one.
    fn slot_for(&self, dedicated: bool) -> (slot: usize)
        ensures
            slot == self@.slot_for(dedicated),
            slot <= self@.memory_blocks.len(),
            slot < self@.memory_blocks.len() ==> self@.memory_blocks[slot as int] is None,
    {
        let ghost marks = self@.vacancies();
        let len = self.memory_blocks.len();
        if dedicated {
            let mut i: usize = 0;
            while i < len
                invariant
                    i <= len == self@.memory_blocks.len(),
                    marks == self@.vacancies(),
                    dedicated,
                    forall|j: int| 0 <= j < i ==> !(#[trigger] marks[j]),
                decreases len - i,
            {
                if self.memory_blocks[i].is_none() {
                    proof {
                        assert(is_first(marks, i as int));
                        lemma_first_is(marks, i as int);
                    }
                    return i;
                }
                assert(!marks[i as int]);
                i = i + 1;
            }
            proof {
                lemma_first_none(marks);
            }
        } else {
            let mut i: usize = len;
            while i > 0
                invariant
                    i <= len == self@.memory_blocks.len(),
                    marks == self@.vacancies(),
                    !dedicated,
                    forall|j: int| i <= j < len ==> !(#[trigger] marks[j]),
                decreases i,
            {
                i = i - 1;
                if self.memory_blocks[i].is_none() {
                    proof {
                        assert(is_last(marks, i as int));
                        lemma_last_is(marks, i as int);
                    }
                    return i;
                }
                assert(!marks[i as int]);
            }
            proof {
                lemma_last_none(marks);
            }
        }
        len
    }

    /// The stage of an allocation that has yet to ask the blocks below `end`.
    fn search_below(&self, end: usize) -> (stage: AllocationStage)
        requires
            end <= self@.memory_blocks.len(),
        ensures
            stage == self@.search_below(end as int),
    {
        match self.candidate_below(end) {
            Some(memory_block_index) => AllocationStage::Search { memory_block_index },
            None => AllocationStage::Create(
                MemoryBlock::<S>::new(
                    self.memblock_size(),
                    self.memory_type_index,
                    self.mappable,
                    false,
                ),
            ),
        }
    }

    /// Begins an allocation from this type.
    pub fn allocate<'a>(
        &self,
        desc: &AllocationCreateDesc<'a>,
        granularity: u64,
        backtrace: Option<&'a str>,
    ) -> (allocation: TypeAllocation<'a>)
        requires
            self@.wf(),
        ensures
            allocation == self@.begun(*desc, granularity, backtrace),
            allocation.fits(self@),
    {
        let allocation_type = if desc.linear {
            AllocationType::Linear
        } else {
            AllocationType::NonLinear
        };
        let size = desc.requirements.size;
        let alignment = desc.requirements.alignment;
        proof {
            lemma_search_fits(self@, self@.memory_blocks.len() as int);
        }
        let stage = if size > self.memblock_size() {
            AllocationStage::Create(
                MemoryBlock::<S>::new(size, self.memory_type_index, self.mappable, true),
            )
        } else {
            self.search_below(self.memory_blocks.len())
        };
        TypeAllocation {
            memory_type_index: self.memory_type_index,
            size,
            alignment,
            allocation_type,
            granularity,
            name: desc.name,
            backtrace,
            stage,
        }
    }

    /// Goes on with an allocation from this type, with what came of its request.
    pub fn resume<'a>(&mut self, allocation: TypeAllocation<'a>, reply: Reply<S>) -> (progress:
        Progress<TypeAllocation<'a>>)
        requires
            old(self)@.wf(),
            allocation.fits(old(self)@),
            allocation.admits(old(self)@, reply),
        ensures
            final(self)@ == allocation.state_after(old(self)@, reply),
            progress@ == allocation.after(old(self)@, reply),
            final(self)@.wf(),
            progress@ matches ProgressModel::Pending(pending) ==> pending.fits(final(self)@),
    {
        match allocation.stage {
            AllocationStage::Create(creation) => self.resume_creation(allocation, creation, reply),
            AllocationStage::Search { memory_block_index } => match reply {
                Reply::SubAllocated(Ok((offset, chunk_id))) => Progress::Done(
                    Ok(self.carve(&allocation, memory_block_index, false, offset, chunk_id)),
                ),
                Reply::SubAllocated(Err(error)) => match error {
                    // The block is full: the search goes on.
                    AllocationError::OutOfMemory => {
                        proof {
                            lemma_search_fits(self@, memory_block_index as int);
                        }
                        let stage = self.search_below(memory_block_index);
                        Progress::Pending(TypeAllocation { stage, ..allocation })
                    },
                    _ => Progress::Done(Err(error)),
                },
                _ => vstd::pervasive::unreached(),
            },
            AllocationStage::Fill { memory_block_index, dedicated } => match reply {
                Reply::SubAllocated(Ok((offset, chunk_id))) => Progress::Done(
                    Ok(self.carve(&allocation, memory_block_index, dedicated, offset, chunk_id)),
                ),
                Reply::SubAllocated(Err(error)) => match error {
                    AllocationError::OutOfMemory if !dedicated => Progress::Done(
                        Err(
                            AllocationError::Internal(
                                "Allocation that must succeed failed. This is a bug in the allocator.".to_owned(),
                            ),
                        ),
                    ),
                    _ => Progress::Done(Err(error)),
                },
                _ => vstd::pervasive::unreached(),
            },
        }
    }

    /// Goes on with an allocation that waits for a new block.
    fn resume_creation<'a>(
        &mut self,
        allocation: TypeAllocation<'a>,
        creation: BlockCreation,
        reply: Reply<S>,
    ) -> (progress: Progress<TypeAllocation<'a>>)
        requires
            old(self)@.wf(),
            allocation.stage == AllocationStage::Create(creation),
            allocation.fits(old(self)@),
            allocation.admits(old(self)@, reply),
        ensures
            final(self)@ == allocation.state_after(old(self)@, reply),
            progress@ == allocation.after(old(self)@, reply),
            final(self)@.wf(),
            progress@ matches ProgressModel::Pending(pending) ==> pending.fits(final(self)@),
    {
        match creation.resume(reply) {
            CreationProgress::Pending(creation) => Progress::Pending(
                TypeAllocation { stage: AllocationStage::Create(creation), ..allocation },
            ),
            CreationProgress::Failed(error) => Progress::Done(Err(error)),
            CreationProgress::Created(block) => {
                let dedicated = creation.dedicated;
                let memory_block_index = self.slot_for(dedicated);
                if memory_block_index == self.memory_blocks.len() {
                    self.memory_blocks.push(Some(block));
                } else {
                    self.memory_blocks[memory_block_index] = Some(block);
                }
                if !dedicated {
                    self.active_general_blocks = self.active_general_blocks + 1;
                }
                proof {
                    assert forall|i: int| #[trigger] self@.live(i) implies self@.holds(
                        self@.block(i),
                    ) by {
                        if i != memory_block_index {
                            assert(old(self)@.live(i));
                        }
                    }
                    assert(self@.live(memory_block_index as int));
                }
                Progress::Pending(
                    TypeAllocation {
                        stage: AllocationStage::Fill { memory_block_index, dedicated },
                        ..allocation
                    },
                )
            },
        }
    }

    /// The part of a block that an allocation comes to.
    fn carve<'a>(
        &self,
        allocation: &TypeAllocation<'a>,
        memory_block_index: usize,
        dedicated: bool,
        offset: u64,
        chunk_id: ChunkId,
    ) -> (sub_allocation: SubAllocation)
        requires
            self@.live(memory_block_index as int),
            dedicated || TypeAllocation::addressable(
                self@.block(memory_block_index as int),
                offset,
            ),
        ensures
            sub_allocation@ == allocation.carved(
                self@.block(memory_block_index as int),
                memory_block_index,
                dedicated,
                offset,
                chunk_id,
            ),
    {
        let (device_memory, base) = match &self.memory_blocks[memory_block_index] {
            Some(block) => (block.device_memory, block.mapped_ptr),
            None => vstd::pervasive::unreached(),
        };
        let mapped_ptr = if dedicated || base == 0 {
            non_null(base)
        } else {
            non_null(base + offset)
        };
        SubAllocation::carve(
            chunk_id,
            memory_block_index,
            allocation.memory_type_index,
            device_memory,
            offset,
            allocation.size,
            mapped_ptr,
            allocation.name,
            allocation.backtrace,
        )
    }

    /// Begins to free a sub-allocation of this type.
    pub fn free(&self, sub_allocation: SubAllocation) -> (progress: FreeProgress)
        requires
            sub_allocation@.memory_block_index < self@.memory_blocks.len(),
        ensures
            match progress {
                FreeProgress::Pending(pending) => {
                    &&& self@.live(sub_allocation@.memory_block_index as int)
                    &&& pending == (PendingFree {
                        memory_type_index: self@.memory_type_index,
                        memory_block_index: sub_allocation@.memory_block_index,
                        sub_allocation,
                    })
                },
                FreeProgress::Done(result) => {
                    &&& !self@.live(sub_allocation@.memory_block_index as int)
                    &&& result matches Err(error)
                    &&& error@ == ErrorModel::Internal("Memory block must be Some."@)
                },
            },
    {
        let memory_block_index = sub_allocation.memory_block_index();
        if self.memory_blocks[memory_block_index].is_none() {
            return FreeProgress::Done(
                Err(AllocationError::Internal("Memory block must be Some.".to_owned())),
            );
        }
        FreeProgress::Pending(
            PendingFree {
                memory_type_index: self.memory_type_index,
                memory_block_index,
                sub_allocation,
            },
        )
    }

    /// Finishes a free, with what came of handing the sub-allocation back to the
    /// sub-allocator of its block. Gives the calls to make on the device.
    pub fn finish_free(&mut self, memory_block_index: usize, reply: FreeReply) -> (result: Result<
        Vec<DeviceCall>,
        AllocationError,
    >)
        requires
            old(self)@.wf(),
            old(self)@.live(memory_block_index as int),
        ensures
            final(self)@ == old(self)@.after_free(memory_block_index as int, reply),
            match old(self)@.free_outcome(memory_block_index as int, reply) {
                Ok(calls) => result matches Ok(made) && made@ == calls,
                Err(error) => result matches Err(given) && given@ == error,
            },
            final(self)@.wf(),
    {
        let mut calls: Vec<DeviceCall> = Vec::new();
        match reply {
            FreeReply::Refused(error) => {
                return Err(error);
            },
            FreeReply::InUse => {},
            FreeReply::Empty { general } => {
                if !general || self.active_general_blocks > 1 {
                    let slot = self.memory_blocks[memory_block_index].take();
                    if let Some(block) = slot {
                        block.destroy(&mut calls);
                    }
                    if general {
                        self.active_general_blocks = self.active_general_blocks - 1;
                    }
                    proof {
                        assert forall|i: int| #[trigger] self@.live(i) implies self@.holds(
                            self@.block(i),
                        ) by {
                            assert(old(self)@.live(i));
                        }
                    }
                }
            },
        }
        Ok(calls)
    }

    /// Takes all blocks apart, and appends to `calls` what is to be done on the device.
    pub(crate) fn destroy_blocks(&mut self, calls: &mut Vec<DeviceCall>)
        ensures
            final(self)@ == old(self)@.emptied(),
            final(calls)@ == old(calls)@ + teardown_of(old(self)@.memory_blocks),
    {
        let ghost blocks = self@.memory_blocks;
        let ghost before = calls@;
        let mut i: usize = 0;
        while i < self.memory_blocks.len()
            invariant
                i <= blocks.len(),
                blocks == old(self)@.memory_blocks,
                self@.memory_blocks.len() == blocks.len(),
                forall|j: int| 0 <= j < i ==> (#[trigger] self@.memory_blocks[j]) is None,
                forall|j: int|
                    i <= j < blocks.len() ==> (#[trigger] self@.memory_blocks[j]) == blocks[j],
                self@ == (MemoryTypeModel { memory_blocks: self@.memory_blocks, ..old(self)@ }),
                calls@ == before + teardown_of(blocks.take(i as int)),
            decreases blocks.len() - i,
        {
            let slot = self.memory_blocks[i].take();
            proof {
                assert(blocks.take(i + 1).drop_last() == blocks.take(i as int));
                assert(blocks.take(i + 1).last() == blocks[i as int]);
            }
            if let Some(block) = slot {
                block.destroy(calls);
            }
            i = i + 1;
        }
        assert(blocks.take(i as int) == blocks);
        assert(self@.memory_blocks == old(self)@.emptied().memory_blocks);
    }
}

/// The calls that return the memory of all blocks to the device, slot after slot.
pub open spec fn teardown_of<S>(memory_blocks: Seq<Option<MemoryBlock<S>>>) -> Seq<DeviceCall>
    decreases memory_blocks.len(),
{
    if memory_blocks.len() == 0 {
        Seq::empty()
    } else {
        let rest = teardown_of(memory_blocks.drop_last());
        match memory_blocks.last() {
            Some(block) => rest + block.teardown(),
            None => rest,
        }
    }
}

/// A well-formed type stays so whatever a sub-allocator does to itself.
pub(crate) proof fn lemma_with_sub_allocator<S>(
    memory_type: MemoryTypeModel<S>,
    i: int,
    sub_allocator: S,
)
    requires
        memory_type.wf(),
        memory_type.live(i),
    ensures
        memory_type.with_sub_allocator(i, sub_allocator).wf(),
{
    let after = memory_type.with_sub_allocator(i, sub_allocator);
    assert forall|j: int| #[trigger] after.live(j) implies after.holds(after.block(j)) by {
        assert(memory_type.live(j));
    }
}

/// Where a search goes on, there is a block to ask.
proof fn lemma_search_fits<S>(memory_type: MemoryTypeModel<S>, end: int)
    requires
        0 <= end <= memory_type.memory_blocks.len(),
    ensures
        memory_type.candidate_below(end) matches Some(i) ==> 0 <= i < end && memory_type.live(i),
{
    lemma_last_none(memory_type.occupancy(end));
}

} // verus!
