use vstd::prelude::*;

use crate::flags::{contains, flags_contain, host_coherent, host_visible, HOST_COHERENT, HOST_VISIBLE};

verus! {

/// Number of memory types that a physical device can list.
pub const MAX_MEMORY_TYPES: usize = 32;

/// Number of memory heaps that a physical device can list.
pub const MAX_MEMORY_HEAPS: usize = 16;

/// Number of bytes in a MiB.
pub const MIB: u64 = 1024 * 1024;

/// Where an allocation should be stored.
#[derive(Clone, Copy, Debug, PartialEq, Eq, Structural)]
pub enum MemoryLocation {
    /// Anywhere.
    Unknown,
    /// In memory that only the device uses.
    GpuOnly,
    /// In memory that the host writes and the device reads.
    CpuToGpu,
    /// In memory that the device writes and the host reads.
    GpuToCpu,
}

/// What kind of resource a sub-allocation holds.
#[derive(Clone, Copy, Debug, PartialEq, Eq, Structural)]
pub enum AllocationType {
    /// A buffer or a linear texture.
    Linear,
    /// A tiled texture.
    NonLinear,
}

/// What the allocator reports about its own work.
#[derive(Clone, Copy, Debug, PartialEq, Eq, Structural)]
pub struct AllocatorDebugSettings {
    /// Log the memory types and heaps of the device at creation.
    pub log_memory_information: bool,
    /// Log what was not freed when the allocator shuts down.
    pub log_leaks_on_shutdown: bool,
    /// Store a stack trace with every allocation.
    pub store_stack_traces: bool,
    /// Log every allocation.
    pub log_allocations: bool,
    /// Log every free.
    pub log_frees: bool,
    /// Log stack traces along with allocations and frees.
    pub log_stack_traces: bool,
}

/// Memory requirements of a resource, as the device states them.
#[derive(Clone, Copy, Debug, PartialEq, Eq, Structural)]
pub struct MemoryRequirements {
    pub size: u64,
    pub alignment: u64,
    /// Bit `i` is set when memory type `i` can hold the resource.
    pub memory_type_bits: u32,
}

/// What is asked of the allocator.
#[derive(Clone, Copy, Debug)]
pub struct AllocationCreateDesc<'a> {
    /// Name of the allocation, for tracking and debugging purposes.
    pub name: &'a str,
    /// Memory requirements of the allocation.
    pub requirements: MemoryRequirements,
    /// Location where the memory allocation should be stored.
    pub location: MemoryLocation,
    /// Whether the resource is linear (buffer or linear texture) or a tiled texture.
    pub linear: bool,
}

/// One memory type, as the physical device describes it.
#[derive(Clone, Copy, Debug, PartialEq, Eq, Structural)]
pub struct MemoryTypeProperties {
    /// Raw bits of the property flags.
    pub property_flags: u32,
    pub heap_index: u32,
}

/// One memory heap, as the physical device describes it.
#[derive(Clone, Copy, Debug, PartialEq, Eq, Structural)]
pub struct MemoryHeap {
    pub size: u64,
    /// Raw bits of the heap flags.
    pub flags: u32,
}

/// The memory of a physical device. Only the first `memory_type_count` types and the
/// first `memory_heap_count` heaps mean anything.
#[derive(Clone, Copy, Debug)]
pub struct PhysicalDeviceMemoryProperties {
    pub memory_type_count: u32,
    pub memory_types: [MemoryTypeProperties; MAX_MEMORY_TYPES],
    pub memory_heap_count: u32,
    pub memory_heaps: [MemoryHeap; MAX_MEMORY_HEAPS],
}

impl PhysicalDeviceMemoryProperties {
    /// The counts stay within the arrays.
    pub open spec fn wf(self) -> bool {
        &&& self.memory_type_count <= MAX_MEMORY_TYPES
        &&& self.memory_heap_count <= MAX_MEMORY_HEAPS
    }

    /// Whether some memory type is host visible without being host coherent.
    pub fn host_visible_not_coherent(&self) -> (found: bool)
        requires
            self.wf(),
        ensures
            found <==> exists|i: int|
                0 <= i < self.memory_type_count && contains(
                    (#[trigger] self.memory_types@[i]).property_flags,
                    HOST_VISIBLE,
                ) && !contains(self.memory_types@[i].property_flags, HOST_COHERENT),
    {
        let visible = host_visible();
        let coherent = host_coherent();
        let mut i: usize = 0;
        while i < self.memory_type_count as usize
            invariant
                self.wf(),
                i <= self.memory_type_count,
                visible == HOST_VISIBLE,
                coherent == HOST_COHERENT,
                forall|j: int|
                    0 <= j < i ==> !(contains(
                        (#[trigger] self.memory_types@[j]).property_flags,
                        HOST_VISIBLE,
                    ) && !contains(self.memory_types@[j].property_flags, HOST_COHERENT)),
            decreases self.memory_type_count - i,
        {
            let flags = self.memory_types[i].property_flags;
            if flags_contain(flags, visible) && !flags_contain(flags, coherent) {
                return true;
            }
            i = i + 1;
        }
        false
    }
}

/// What an allocator is created from.
#[derive(Clone, Copy, Debug)]
pub struct AllocatorCreateDesc {
    pub memory_properties: PhysicalDeviceMemoryProperties,
    /// Distance that linear and tiled resources must keep from each other.
    pub buffer_image_granularity: u64,
    pub debug_settings: AllocatorDebugSettings,
}

/// What is to be said of a memory heap.
#[derive(Clone, Copy, Debug, PartialEq, Eq, Structural)]
pub struct HeapInformation {
    /// Raw bits of the heap flags.
    pub flags: u32,
    /// Size in whole MiB.
    pub mib: u64,
}

/// What is to be said of the memory of a physical device.
#[derive(Clone, Debug)]
pub struct MemoryInformation {
    pub memory_types: Vec<MemoryTypeProperties>,
    pub memory_heaps: Vec<HeapInformation>,
}

impl AllocatorCreateDesc {
    /// What is to be logged of the memory of the device, if that is wanted: all its memory
    /// types and heaps, in order.
    pub fn memory_information(&self) -> (information: Option<MemoryInformation>)
        requires
            self.memory_properties.wf(),
        ensures
            information is Some <==> self.debug_settings.log_memory_information,
            information matches Some(said) ==> {
                let memory = self.memory_properties;
                &&& said.memory_types@ == memory.memory_types@.take(memory.memory_type_count as int)
                &&& said.memory_heaps@ == Seq::new(
                    memory.memory_heap_count as nat,
                    |i: int|
                        HeapInformation {
                            flags: memory.memory_heaps@[i].flags,
                            mib: memory.memory_heaps@[i].size / MIB,
                        },
                )
                &&& forall|i: int|
                    0 <= i < memory.memory_heap_count ==> {
                        let size = memory.memory_heaps@[i].size;
                        let mib = (#[trigger] said.memory_heaps@[i]).mib;
                        mib * 1048576 <= size < (mib + 1) * 1048576
                    }
            },
    {
        if !self.debug_settings.log_memory_information {
            return None;
        }
        let memory = &self.memory_properties;
        let mut memory_types: Vec<MemoryTypeProperties> = Vec::new();
        let mut i: usize = 0;
        while i < memory.memory_type_count as usize
            invariant
                memory.wf(),
                i <= memory.memory_type_count,
                memory_types@ == memory.memory_types@.take(i as int),
            decreases memory.memory_type_count - i,
        {
            memory_types.push(memory.memory_types[i]);
            i = i + 1;
        }
        let mut memory_heaps: Vec<HeapInformation> = Vec::new();
        let mut j: usize = 0;
        while j < memory.memory_heap_count as usize
            invariant
                memory.wf(),
                j <= memory.memory_heap_count,
                memory_heaps@ == Seq::new(
                    j as nat,
                    |k: int|
                        HeapInformation {
                            flags: memory.memory_heaps@[k].flags,
                            mib: memory.memory_heaps@[k].size / MIB,
                        },
                ),
            decreases memory.memory_heap_count - j,
        {
            let heap = memory.memory_heaps[j];
            memory_heaps.push(HeapInformation { flags: heap.flags, mib: heap.size / MIB });
            j = j + 1;
        }
        Some(MemoryInformation { memory_types, memory_heaps })
    }
}

} // verus!
