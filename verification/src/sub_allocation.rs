use ash::vk;
use ash::vk::Handle;
use vstd::prelude::*;

verus! {

/// Identifier of the chunk that backs a sub-allocation. It is never zero.
#[derive(Clone, Copy, Debug, PartialEq, Eq)]
pub struct ChunkId {
    value: u64,
}

impl ChunkId {
    #[verifier::type_invariant]
    spec fn non_zero(self) -> bool {
        self.value != 0
    }

    /// The identifier as a number.
    pub closed spec fn id(self) -> u64 {
        self.value
    }

    /// The identifier with number `value`, if that is not zero.
    pub fn new(value: u64) -> (chunk_id: Option<ChunkId>)
        ensures
            chunk_id is Some <==> value != 0,
            chunk_id matches Some(c) ==> c.id() == value,
    {
        if value == 0 {
            None
        } else {
            Some(ChunkId { value })
        }
    }

    /// The identifier as a number.
    pub fn get(self) -> (value: u64)
        ensures
            value == self.id(),
            value != 0,
    {
        proof {
            use_type_invariant(self);
        }
        self.value
    }
}

/// The host addresses that a mapped sub-allocation covers.
#[derive(Clone, Copy, Debug, PartialEq, Eq, Structural)]
pub struct MappedSlice {
    /// Address of the first byte.
    pub address: u64,
    /// Number of bytes.
    pub len: u64,
}

/// A part of a memory block that was handed out.
#[derive(Clone, Debug)]
pub struct SubAllocation {
    chunk_id: Option<ChunkId>,
    memory_block_index: usize,
    memory_type_index: usize,
    device_memory: u64,
    offset: u64,
    size: u64,
    mapped_ptr: Option<u64>,
    name: Option<String>,
    backtrace: Option<String>,
}

/// What a [`SubAllocation`] holds.
#[verifier::ext_equal]
pub struct SubAllocationModel {
    pub chunk_id: Option<ChunkId>,
    pub memory_block_index: usize,
    pub memory_type_index: usize,
    pub device_memory: u64,
    pub offset: u64,
    pub size: u64,
    pub mapped_ptr: Option<u64>,
    pub name: Option<Seq<char>>,
    pub backtrace: Option<Seq<char>>,
}

/// The characters of a string that may be absent.
pub open spec fn text(string: Option<String>) -> Option<Seq<char>> {
    match string {
        Some(s) => Some(s@),
        None => None,
    }
}

/// The characters of a borrowed string that may be absent.
pub open spec fn borrowed_text(string: Option<&str>) -> Option<Seq<char>> {
    match string {
        Some(s) => Some(s@),
        None => None,
    }
}

/// `address` as a pointer that is not null: nothing for zero.
pub open spec fn non_null_spec(address: u64) -> Option<u64> {
    if address == 0 {
        None
    } else {
        Some(address)
    }
}

/// `address` as a pointer that is not null: nothing for zero.
pub fn non_null(address: u64) -> (pointer: Option<u64>)
    ensures
        pointer == non_null_spec(address),
{
    if address == 0 {
        None
    } else {
        Some(address)
    }
}

/// `ash::vk::DeviceMemory::null` as a raw handle: the handle is zero.
#[verifier::external_body]
fn null_device_memory() -> (handle: u64)
    ensures
        handle == 0,
{
    vk::DeviceMemory::null().as_raw()
}

impl View for SubAllocation {
    type V = SubAllocationModel;

    closed spec fn view(&self) -> SubAllocationModel {
        SubAllocationModel {
            chunk_id: self.chunk_id,
            memory_block_index: self.memory_block_index,
            memory_type_index: self.memory_type_index,
            device_memory: self.device_memory,
            offset: self.offset,
            size: self.size,
            mapped_ptr: self.mapped_ptr,
            name: text(self.name),
            backtrace: text(self.backtrace),
        }
    }
}

impl SubAllocationModel {
    /// What [`SubAllocation::mapped_slice`] covers.
    pub open spec fn mapped_slice(self) -> Option<MappedSlice> {
        match self.mapped_ptr {
            Some(address) => Some(MappedSlice { address, len: self.size }),
            None => None,
        }
    }
}

impl SubAllocation {
    /// A sub-allocation of the memory block at `memory_block_index` of a memory type.
    pub(crate) fn carve(
        chunk_id: ChunkId,
        memory_block_index: usize,
        memory_type_index: usize,
        device_memory: u64,
        offset: u64,
        size: u64,
        mapped_ptr: Option<u64>,
        name: &str,
        backtrace: Option<&str>,
    ) -> (sub_allocation: SubAllocation)
        ensures
            sub_allocation@ == (SubAllocationModel {
                chunk_id: Some(chunk_id),
                memory_block_index,
                memory_type_index,
                device_memory,
                offset,
                size,
                mapped_ptr,
                name: Some(name@),
                backtrace: borrowed_text(backtrace),
            }),
    {
        SubAllocation {
            chunk_id: Some(chunk_id),
            memory_block_index,
            memory_type_index,
            device_memory,
            offset,
            size,
            mapped_ptr,
            name: Some(name.to_owned()),
            backtrace: match backtrace {
                Some(s) => Some(s.to_owned()),
                None => None,
            },
        }
    }

    /// The chunk that backs this sub-allocation, if any.
    pub fn chunk_id(&self) -> (chunk_id: Option<ChunkId>)
        ensures
            chunk_id == self@.chunk_id,
    {
        self.chunk_id
    }

    /// Returns the raw handle of the device memory object that is backing this allocation.
    /// This memory object can be shared with multiple other allocations and shouldn't be
    /// freed (or allocated from) without this library. When binding it to a buffer or an
    /// image, pass [`SubAllocation::offset`] along.
    pub fn memory(&self) -> (device_memory: u64)
        ensures
            device_memory == self@.device_memory,
    {
        self.device_memory
    }

    /// Returns the offset of the allocation on the device memory object.
    /// When binding the memory to a buffer or image, this offset needs to be supplied as well.
    pub fn offset(&self) -> (offset: u64)
        ensures
            offset == self@.offset,
    {
        self.offset
    }

    /// Returns the size of the allocation.
    pub fn size(&self) -> (size: u64)
        ensures
            size == self@.size,
    {
        self.size
    }

    /// Returns the host address of the allocation, if it is mapped.
    pub fn mapped_ptr(&self) -> (mapped_ptr: Option<u64>)
        ensures
            mapped_ptr == self@.mapped_ptr,
    {
        self.mapped_ptr
    }

    /// Returns the mapped host addresses if the memory is host visible, otherwise `None`.
    /// They are exactly the memory region of the sub-allocation, so no offset needs to be
    /// applied.
    pub fn mapped_slice(&self) -> (slice: Option<MappedSlice>)
        ensures
            slice == self@.mapped_slice(),
    {
        match self.mapped_ptr {
            Some(address) => Some(MappedSlice { address, len: self.size }),
            None => None,
        }
    }

    /// Returns the mapped host addresses for writing if the memory is host visible,
    /// otherwise `None`. They are exactly the memory region of the sub-allocation, so no
    /// offset needs to be applied.
    pub fn mapped_slice_mut(&mut self) -> (slice: Option<MappedSlice>)
        ensures
            slice == old(self)@.mapped_slice(),
            *final(self) == *old(self),
    {
        match self.mapped_ptr {
            Some(address) => Some(MappedSlice { address, len: self.size }),
            None => None,
        }
    }

    /// Whether this sub-allocation stands for no memory at all.
    pub fn is_null(&self) -> (null: bool)
        ensures
            null == (self@.chunk_id is None),
    {
        self.chunk_id.is_none()
    }

    /// The name that the allocation was given, or a stand-in when it has none.
    pub fn label(&self) -> (label: &str)
        ensures
            label@ == (match self@.name {
                Some(name) => name,
                None => "<null>"@,
            }),
    {
        match &self.name {
            Some(name) => name.as_str(),
            None => "<null>",
        }
    }

    /// The index of the memory type that this sub-allocation belongs to.
    pub fn memory_type_index(&self) -> (index: usize)
        ensures
            index == self@.memory_type_index,
    {
        self.memory_type_index
    }

    /// The index of the memory block that this sub-allocation is a part of.
    pub fn memory_block_index(&self) -> (index: usize)
        ensures
            index == self@.memory_block_index,
    {
        self.memory_block_index
    }
}

impl Default for SubAllocation {
    fn default() -> (sub_allocation: SubAllocation)
        ensures
            sub_allocation@ == (SubAllocationModel {
                chunk_id: None,
                memory_block_index: usize::MAX,
                memory_type_index: usize::MAX,
                device_memory: 0,
                offset: 0,
                size: 0,
                mapped_ptr: None,
                name: None,
                backtrace: None,
            }),
    {
        SubAllocation {
            chunk_id: None,
            memory_block_index: usize::MAX,
            memory_type_index: usize::MAX,
            device_memory: null_device_memory(),
            offset: 0,
            size: 0,
            mapped_ptr: None,
            name: None,
            backtrace: None,
        }
    }
}

} // verus!
