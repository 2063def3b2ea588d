use ash::vk;
use gpu_allocator::allocator::Allocator;
use gpu_allocator::error::AllocationError;
use gpu_allocator::flags::{DEVICE_LOCAL, HOST_CACHED, HOST_COHERENT, HOST_VISIBLE};
use gpu_allocator::memory_type::{DEFAULT_DEVICE_MEMBLOCK_SIZE, DEFAULT_HOST_MEMBLOCK_SIZE};
use gpu_allocator::progress::{FreeProgress, Progress};
use gpu_allocator::protocol::{DeviceCall, FreeReply, Reply, Request};
use gpu_allocator::sub_allocation::{ChunkId, MappedSlice, SubAllocation};
use gpu_allocator::types::{
    AllocationCreateDesc, AllocationType, AllocatorCreateDesc, AllocatorDebugSettings, MemoryHeap,
    MemoryLocation, MemoryRequirements, MemoryTypeProperties, PhysicalDeviceMemoryProperties,
};
use log::Level;

const MIB: u64 = 1024 * 1024;
const QUIET: AllocatorDebugSettings = AllocatorDebugSettings {
    log_memory_information: false,
    log_leaks_on_shutdown: false,
    store_stack_traces: false,
    log_allocations: false,
    log_frees: false,
    log_stack_traces: false,
};

/// A sub-allocator that hands out parts one after the other.
#[derive(Debug)]
struct Bump {
    size: u64,
    next: u64,
    count: u64,
    general: bool,
}

/// A device, and what was asked of it and of the sub-allocators.
struct World {
    next_handle: u64,
    refused_types: Vec<u32>,
    refuse_mapping: bool,
    map_address: u64,
    broken_blocks: Vec<usize>,
    full_blocks: Vec<usize>,
    allocated: Vec<(u64, u32)>,
    handles: Vec<u64>,
    mapped: Vec<(u64, u64, u64)>,
    freed: Vec<u64>,
    created: Vec<(u64, bool)>,
    asked: Vec<(usize, usize)>,
    kinds: Vec<(u64, u64, AllocationType, u64, String, Option<String>)>,
    traffic: Vec<(&'static str, u64)>,
}

fn world() -> World {
    World {
        next_handle: 100,
        refused_types: vec![],
        refuse_mapping: false,
        map_address: 0x10_0000,
        broken_blocks: vec![],
        full_blocks: vec![],
        allocated: vec![],
        handles: vec![],
        mapped: vec![],
        freed: vec![],
        created: vec![],
        asked: vec![],
        kinds: vec![],
        traffic: vec![],
    }
}

impl World {
    fn serve(&mut self, allocator: &mut Allocator<Bump>, request: Request) -> Reply<Bump> {
        match request {
            Request::AllocateMemory { allocation_size, memory_type_index } => {
                self.allocated.push((allocation_size, memory_type_index));
                if self.refused_types.contains(&memory_type_index) {
                    Reply::MemoryAllocated(None)
                } else {
                    self.next_handle += 1;
                    self.handles.push(self.next_handle);
                    self.traffic.push(("granted", self.next_handle));
                    Reply::MemoryAllocated(Some(self.next_handle))
                }
            }
            Request::MapMemory { device_memory, offset, size } => {
                self.mapped.push((device_memory, offset, size));
                if self.refuse_mapping {
                    Reply::MemoryMapped(None)
                } else {
                    if self.map_address != 0 {
                        self.traffic.push(("mapped", device_memory));
                    }
                    Reply::MemoryMapped(Some(self.map_address))
                }
            }
            Request::FreeMemory { device_memory } => {
                self.freed.push(device_memory);
                self.traffic.push(("freed", device_memory));
                Reply::MemoryFreed
            }
            Request::CreateSubAllocator { size, dedicated } => {
                self.created.push((size, dedicated));
                Reply::SubAllocatorCreated(Bump { size, next: 0, count: 0, general: !dedicated })
            }
            Request::SubAllocate {
                memory_type_index,
                memory_block_index,
                size,
                alignment,
                allocation_type,
                granularity,
                name,
                backtrace,
            } => {
                self.asked.push((memory_type_index, memory_block_index));
                self.kinds.push((
                    size,
                    alignment,
                    allocation_type,
                    granularity,
                    name.to_owned(),
                    backtrace.map(|b| b.to_owned()),
                ));
                let bump = allocator.sub_allocator_mut(memory_type_index, memory_block_index);
                Reply::SubAllocated(if self.broken_blocks.contains(&memory_block_index) {
                    Err(AllocationError::Internal("broken".to_owned()))
                } else if self.full_blocks.contains(&memory_block_index)
                    || bump.size - bump.next < size
                {
                    Err(AllocationError::OutOfMemory)
                } else {
                    let offset = bump.next;
                    bump.next += size;
                    bump.count += 1;
                    Ok((offset, ChunkId::new(bump.count).unwrap()))
                })
            }
        }
    }

    fn allocate(
        &mut self,
        allocator: &mut Allocator<Bump>,
        desc: &AllocationCreateDesc,
    ) -> Result<SubAllocation, AllocationError> {
        let trace = allocator.stack_trace();
        let mut progress = allocator.allocate(desc, trace.as_deref());
        loop {
            match progress {
                Progress::Done(result) => return result,
                Progress::Pending(allocation) => {
                    let reply = self.serve(allocator, allocation.request());
                    progress = allocator.resume(allocation, reply);
                }
            }
        }
    }

    fn free(
        &mut self,
        allocator: &mut Allocator<Bump>,
        sub_allocation: SubAllocation,
    ) -> Result<Vec<DeviceCall>, AllocationError> {
        match allocator.free(sub_allocation) {
            FreeProgress::Done(result) => result.map(|_| vec![]),
            FreeProgress::Pending(pending) => {
                let (i, j) = (pending.memory_type_index, pending.memory_block_index);
                assert!(!pending.sub_allocation.is_null());
                let bump = allocator.sub_allocator_mut(i, j);
                bump.count -= 1;
                let reply = if bump.count > 0 {
                    FreeReply::InUse
                } else {
                    bump.next = 0;
                    FreeReply::Empty { general: bump.general }
                };
                let result = allocator.finish_free(i, j, reply);
                if let Ok(calls) = &result {
                    self.make(calls);
                }
                result
            }
        }
    }

    fn make(&mut self, calls: &[DeviceCall]) {
        for call in calls {
            self.traffic.push(match *call {
                DeviceCall::UnmapMemory { device_memory } => ("unmapped", device_memory),
                DeviceCall::FreeMemory { device_memory } => ("freed", device_memory),
            });
        }
    }

    /// What passed to and fro of a memory object, in order.
    fn traffic_with(&self, device_memory: u64) -> Vec<&'static str> {
        self.traffic.iter().filter(|t| t.1 == device_memory).map(|t| t.0).collect()
    }
}

fn properties(flags: &[u32]) -> PhysicalDeviceMemoryProperties {
    let mut memory_types = [MemoryTypeProperties { property_flags: 0, heap_index: 0 }; 32];
    for (i, f) in flags.iter().enumerate() {
        memory_types[i] = MemoryTypeProperties { property_flags: *f, heap_index: i as u32 };
    }
    PhysicalDeviceMemoryProperties {
        memory_type_count: flags.len() as u32,
        memory_types,
        memory_heap_count: 1,
        memory_heaps: [MemoryHeap { size: 1024 * MIB, flags: 1 }; 16],
    }
}

fn allocator_with(flags: &[u32], debug_settings: AllocatorDebugSettings) -> Allocator<Bump> {
    Allocator::new(&AllocatorCreateDesc {
        memory_properties: properties(flags),
        buffer_image_granularity: 1024,
        debug_settings,
    })
}

fn allocator(flags: &[u32]) -> Allocator<Bump> {
    allocator_with(flags, QUIET)
}

fn desc(size: u64, location: MemoryLocation) -> AllocationCreateDesc<'static> {
    AllocationCreateDesc {
        name: "resource",
        requirements: MemoryRequirements { size, alignment: 256, memory_type_bits: !0 },
        location,
        linear: true,
    }
}

/// The handles of the blocks of a memory type, slot by slot.
fn slots(allocator: &Allocator<Bump>, i: usize) -> Vec<Option<u64>> {
    allocator.memory_types()[i]
        .memory_blocks()
        .iter()
        .map(|slot| slot.as_ref().map(|block| block.device_memory))
        .collect()
}

#[test]
fn empty_request_is_refused() {
    let (mut a, mut w) = (allocator(&[DEVICE_LOCAL]), world());
    let result = w.allocate(&mut a, &desc(0, MemoryLocation::GpuOnly));
    assert_eq!(result.unwrap_err(), AllocationError::InvalidAllocationCreateDesc);
    assert!(w.allocated.is_empty());
    assert!(slots(&a, 0).is_empty());
}

#[test]
fn alignment_must_be_a_power_of_two() {
    for alignment in [0, 3, 6, 12, 255, 257, u64::MAX] {
        let (mut a, mut w) = (allocator(&[DEVICE_LOCAL]), world());
        let mut d = desc(16, MemoryLocation::GpuOnly);
        d.requirements.alignment = alignment;
        let result = w.allocate(&mut a, &d);
        assert_eq!(result.unwrap_err(), AllocationError::InvalidAllocationCreateDesc);
    }
    for alignment in [1, 2, 256, 1 << 63] {
        let (mut a, mut w) = (allocator(&[DEVICE_LOCAL]), world());
        let mut d = desc(16, MemoryLocation::GpuOnly);
        d.requirements.alignment = alignment;
        assert!(w.allocate(&mut a, &d).is_ok());
        assert_eq!(w.kinds[0].1, alignment);
    }
}

#[test]
fn no_memory_type_fits() {
    let (mut a, mut w) = (allocator(&[DEVICE_LOCAL]), world());
    let result = w.allocate(&mut a, &desc(16, MemoryLocation::GpuToCpu));
    assert_eq!(result.unwrap_err(), AllocationError::NoCompatibleMemoryTypeFound);
    let mut d = desc(16, MemoryLocation::GpuOnly);
    d.requirements.memory_type_bits = 2;
    let result = w.allocate(&mut a, &d);
    assert_eq!(result.unwrap_err(), AllocationError::NoCompatibleMemoryTypeFound);
    assert!(w.allocated.is_empty());
}

#[test]
fn preferred_flags_come_first() {
    let flags = [
        HOST_VISIBLE | HOST_COHERENT,
        DEVICE_LOCAL,
        HOST_VISIBLE | HOST_COHERENT | HOST_CACHED,
        DEVICE_LOCAL | HOST_VISIBLE | HOST_COHERENT,
    ];
    let (mut a, mut w) = (allocator(&flags), world());
    for (location, index) in [
        (MemoryLocation::Unknown, 0),
        (MemoryLocation::GpuOnly, 1),
        (MemoryLocation::GpuToCpu, 2),
        (MemoryLocation::CpuToGpu, 3),
    ] {
        let given = w.allocate(&mut a, &desc(16, location)).unwrap();
        assert_eq!(given.memory_type_index(), index);
    }
}

#[test]
fn required_flags_come_second() {
    let flags = [DEVICE_LOCAL, HOST_VISIBLE, HOST_VISIBLE | HOST_COHERENT];
    let (mut a, mut w) = (allocator(&flags), world());
    for location in [MemoryLocation::CpuToGpu, MemoryLocation::GpuToCpu] {
        let given = w.allocate(&mut a, &desc(16, location)).unwrap();
        assert_eq!(given.memory_type_index(), 2);
    }
}

#[test]
fn unknown_location_takes_the_lowest_allowed_type() {
    let (mut a, mut w) = (allocator(&[DEVICE_LOCAL, 0, HOST_VISIBLE]), world());
    let mut d = desc(16, MemoryLocation::Unknown);
    d.requirements.memory_type_bits = 0b110;
    assert_eq!(w.allocate(&mut a, &d).unwrap().memory_type_index(), 1);
}

#[test]
fn find_memorytype_index_takes_the_first() {
    let a = allocator(&[DEVICE_LOCAL, HOST_VISIBLE, HOST_VISIBLE | HOST_CACHED]);
    let mut requirements = MemoryRequirements { size: 1, alignment: 1, memory_type_bits: 7 };
    assert_eq!(a.find_memorytype_index(&requirements, HOST_VISIBLE), Some(1));
    assert_eq!(a.find_memorytype_index(&requirements, HOST_CACHED), Some(2));
    assert_eq!(a.find_memorytype_index(&requirements, HOST_COHERENT), None);
    requirements.memory_type_bits = 0b101;
    assert_eq!(a.find_memorytype_index(&requirements, HOST_VISIBLE), Some(2));
}

#[test]
fn general_blocks_have_the_usual_size() {
    assert_eq!(DEFAULT_DEVICE_MEMBLOCK_SIZE, 268_435_456);
    assert_eq!(DEFAULT_HOST_MEMBLOCK_SIZE, 67_108_864);
    let flags = [DEVICE_LOCAL, HOST_VISIBLE | HOST_COHERENT];
    let (mut a, mut w) = (allocator(&flags), world());
    w.allocate(&mut a, &desc(16, MemoryLocation::GpuOnly)).unwrap();
    w.allocate(&mut a, &desc(64 * MIB, MemoryLocation::GpuToCpu)).unwrap();
    assert_eq!(w.allocated, vec![(256 * MIB, 0), (64 * MIB, 1)]);
    assert_eq!(w.created, vec![(256 * MIB, false), (64 * MIB, false)]);
    assert_eq!(w.mapped, vec![(102, 0, vk::WHOLE_SIZE)]);
    assert_eq!(a.memory_types()[0].active_general_blocks(), 1);
    assert_eq!(a.memory_types()[1].active_general_blocks(), 1);
}

#[test]
fn large_request_gets_a_dedicated_block() {
    let (mut a, mut w) = (allocator(&[DEVICE_LOCAL]), world());
    let size = 256 * MIB + 1;
    let given = w.allocate(&mut a, &desc(size, MemoryLocation::GpuOnly)).unwrap();
    assert_eq!(w.allocated, vec![(size, 0)]);
    assert_eq!(w.created, vec![(size, true)]);
    assert_eq!(a.memory_types()[0].active_general_blocks(), 0);
    assert_eq!((given.offset(), given.size(), given.memory()), (0, size, 101));
    assert!(given.mapped_ptr().is_none());
}

#[test]
fn sub_allocator_is_asked_for_what_was_described() {
    let (mut a, mut w) = (allocator(&[DEVICE_LOCAL]), world());
    let mut d = desc(48, MemoryLocation::GpuOnly);
    d.name = "texture";
    d.linear = false;
    w.allocate(&mut a, &d).unwrap();
    w.allocate(&mut a, &desc(16, MemoryLocation::GpuOnly)).unwrap();
    assert_eq!(
        w.kinds,
        vec![
            (48, 256, AllocationType::NonLinear, 1024, "texture".to_owned(), None),
            (16, 256, AllocationType::Linear, 1024, "resource".to_owned(), None),
        ]
    );
}

#[test]
fn second_allocation_shares_the_block() {
    let (mut a, mut w) = (allocator(&[DEVICE_LOCAL]), world());
    let first = w.allocate(&mut a, &desc(16, MemoryLocation::GpuOnly)).unwrap();
    let second = w.allocate(&mut a, &desc(32, MemoryLocation::GpuOnly)).unwrap();
    assert_eq!(first.memory(), second.memory());
    assert_eq!((first.offset(), second.offset()), (0, 16));
    assert_eq!(w.allocated.len(), 1);
}

#[test]
fn search_goes_from_the_last_block_to_the_first() {
    let (mut a, mut w) = (allocator(&[DEVICE_LOCAL]), world());
    for _ in 0..3 {
        w.allocate(&mut a, &desc(256 * MIB, MemoryLocation::GpuOnly)).unwrap();
    }
    assert_eq!(slots(&a, 0), vec![Some(101), Some(102), Some(103)]);
    w.asked.clear();
    let given = w.allocate(&mut a, &desc(16, MemoryLocation::GpuOnly)).unwrap();
    assert_eq!(w.asked, vec![(0, 2), (0, 1), (0, 0), (0, 3)]);
    assert_eq!(given.memory_block_index(), 3);
    assert_eq!(a.memory_types()[0].active_general_blocks(), 4);
}

#[test]
fn other_errors_end_the_search() {
    let (mut a, mut w) = (allocator(&[DEVICE_LOCAL]), world());
    for _ in 0..2 {
        w.allocate(&mut a, &desc(256 * MIB, MemoryLocation::GpuOnly)).unwrap();
    }
    w.asked.clear();
    w.broken_blocks = vec![1];
    let result = w.allocate(&mut a, &desc(16, MemoryLocation::GpuOnly));
    assert_eq!(result.unwrap_err(), AllocationError::Internal("broken".to_owned()));
    assert_eq!(w.asked, vec![(0, 1)]);
    assert_eq!(w.allocated.len(), 2);
}

#[test]
fn new_general_block_must_have_room() {
    let (mut a, mut w) = (allocator(&[DEVICE_LOCAL]), world());
    w.full_blocks = vec![0];
    let result = w.allocate(&mut a, &desc(16, MemoryLocation::GpuOnly));
    assert_eq!(
        result.unwrap_err(),
        AllocationError::Internal(
            "Allocation that must succeed failed. This is a bug in the allocator.".to_owned()
        )
    );
    assert_eq!(slots(&a, 0), vec![Some(101)]);
    w.broken_blocks = vec![1];
    let result = w.allocate(&mut a, &desc(16, MemoryLocation::GpuOnly));
    assert_eq!(result.unwrap_err(), AllocationError::Internal("broken".to_owned()));
}

#[test]
fn error_of_a_dedicated_block_is_passed_on() {
    let (mut a, mut w) = (allocator(&[DEVICE_LOCAL]), world());
    w.full_blocks = vec![0];
    let result = w.allocate(&mut a, &desc(300 * MIB, MemoryLocation::GpuOnly));
    assert_eq!(result.unwrap_err(), AllocationError::OutOfMemory);
    assert_eq!(slots(&a, 0), vec![Some(101)]);
    assert!(w.freed.is_empty());
}

#[test]
fn device_out_of_memory() {
    let (mut a, mut w) = (allocator(&[DEVICE_LOCAL]), world());
    w.refused_types = vec![0];
    for size in [16, 300 * MIB] {
        let result = w.allocate(&mut a, &desc(size, MemoryLocation::GpuOnly));
        assert_eq!(result.unwrap_err(), AllocationError::OutOfMemory);
    }
    assert!(slots(&a, 0).is_empty());
    assert_eq!(w.allocated.len(), 2);
}

#[test]
fn failed_mapping_frees_the_memory() {
    let (mut a, mut w) = (allocator(&[HOST_VISIBLE | HOST_COHERENT]), world());
    w.refuse_mapping = true;
    let result = w.allocate(&mut a, &desc(16, MemoryLocation::GpuToCpu));
    assert_eq!(result.unwrap_err(), AllocationError::FailedToMap);
    assert_eq!(w.freed, w.handles);
    assert!(slots(&a, 0).is_empty());
    assert_eq!(a.memory_types()[0].active_general_blocks(), 0);
}

#[test]
fn uploads_get_a_second_attempt() {
    let flags =
        [HOST_VISIBLE | HOST_COHERENT, DEVICE_LOCAL | HOST_VISIBLE | HOST_COHERENT];
    let (mut a, mut w) = (allocator(&flags), world());
    w.refused_types = vec![1];
    let given = w.allocate(&mut a, &desc(16, MemoryLocation::CpuToGpu)).unwrap();
    assert_eq!(given.memory_type_index(), 0);
    assert_eq!(w.allocated, vec![(64 * MIB, 1), (64 * MIB, 0)]);
}

#[test]
fn second_attempt_is_the_last() {
    let flags =
        [HOST_VISIBLE | HOST_COHERENT, DEVICE_LOCAL | HOST_VISIBLE | HOST_COHERENT];
    let (mut a, mut w) = (allocator(&flags), world());
    w.refused_types = vec![0, 1];
    let result = w.allocate(&mut a, &desc(16, MemoryLocation::CpuToGpu));
    assert_eq!(result.unwrap_err(), AllocationError::OutOfMemory);
    assert_eq!(w.allocated, vec![(64 * MIB, 1), (64 * MIB, 0)]);

    // The same type is asked twice where no other will do.
    let (mut a, mut w) = (allocator(&[HOST_VISIBLE | HOST_COHERENT]), world());
    w.refused_types = vec![0];
    let result = w.allocate(&mut a, &desc(16, MemoryLocation::CpuToGpu));
    assert_eq!(result.unwrap_err(), AllocationError::OutOfMemory);
    assert_eq!(w.allocated, vec![(64 * MIB, 0), (64 * MIB, 0)]);
}

#[test]
fn other_locations_get_one_attempt() {
    for location in [MemoryLocation::GpuToCpu, MemoryLocation::GpuOnly, MemoryLocation::Unknown] {
        let flags = DEVICE_LOCAL | HOST_VISIBLE | HOST_COHERENT;
        let (mut a, mut w) = (allocator(&[flags, flags]), world());
        w.refused_types = vec![0];
        let result = w.allocate(&mut a, &desc(16, location));
        assert_eq!(result.unwrap_err(), AllocationError::OutOfMemory);
        assert_eq!(w.allocated.len(), 1);
    }
}

#[test]
fn mapped_slice_covers_the_region() {
    let (mut a, mut w) = (allocator(&[HOST_VISIBLE | HOST_COHERENT]), world());
    w.allocate(&mut a, &desc(16, MemoryLocation::GpuToCpu)).unwrap();
    let mut given = w.allocate(&mut a, &desc(48, MemoryLocation::GpuToCpu)).unwrap();
    assert_eq!(given.offset(), 16);
    assert_eq!(given.mapped_ptr(), Some(0x10_0010));
    let slice = Some(MappedSlice { address: 0x10_0010, len: 48 });
    assert_eq!(given.mapped_slice(), slice);
    assert_eq!(given.mapped_slice_mut(), slice);

    let given = w.allocate(&mut a, &desc(65 * MIB, MemoryLocation::GpuToCpu)).unwrap();
    assert_eq!(
        given.mapped_slice(),
        Some(MappedSlice { address: 0x10_0000, len: 65 * MIB })
    );
}

#[test]
fn null_mapping_counts_as_none() {
    let (mut a, mut w) = (allocator(&[HOST_VISIBLE | HOST_COHERENT]), world());
    w.map_address = 0;
    let given = w.allocate(&mut a, &desc(16, MemoryLocation::GpuToCpu)).unwrap();
    assert_eq!(given.mapped_slice(), None);
    assert_eq!(a.shut_down(), vec![DeviceCall::FreeMemory { device_memory: 101 }]);
}

#[test]
fn null_is_freed_at_once() {
    let (mut a, mut w) = (allocator(&[]), world());
    let nothing = SubAllocation::default();
    assert!(nothing.is_null());
    assert_eq!(w.free(&mut a, nothing), Ok(vec![]));
}

#[test]
fn block_in_use_stays() {
    let (mut a, mut w) = (allocator(&[DEVICE_LOCAL]), world());
    let first = w.allocate(&mut a, &desc(16, MemoryLocation::GpuOnly)).unwrap();
    w.allocate(&mut a, &desc(16, MemoryLocation::GpuOnly)).unwrap();
    assert_eq!(w.free(&mut a, first), Ok(vec![]));
    assert_eq!(slots(&a, 0), vec![Some(101)]);
}

#[test]
fn last_general_block_stays() {
    let (mut a, mut w) = (allocator(&[HOST_VISIBLE | HOST_COHERENT]), world());
    let first = w.allocate(&mut a, &desc(64 * MIB, MemoryLocation::GpuToCpu)).unwrap();
    let second = w.allocate(&mut a, &desc(16, MemoryLocation::GpuToCpu)).unwrap();
    assert_eq!(a.memory_types()[0].active_general_blocks(), 2);
    assert_eq!(
        w.free(&mut a, first),
        Ok(vec![
            DeviceCall::UnmapMemory { device_memory: 101 },
            DeviceCall::FreeMemory { device_memory: 101 },
        ])
    );
    assert_eq!(slots(&a, 0), vec![None, Some(102)]);
    assert_eq!(a.memory_types()[0].active_general_blocks(), 1);
    assert_eq!(w.free(&mut a, second), Ok(vec![]));
    assert_eq!(slots(&a, 0), vec![None, Some(102)]);
    assert_eq!(a.memory_types()[0].active_general_blocks(), 1);
}

#[test]
fn dedicated_block_goes_when_empty() {
    let (mut a, mut w) = (allocator(&[DEVICE_LOCAL]), world());
    let given = w.allocate(&mut a, &desc(300 * MIB, MemoryLocation::GpuOnly)).unwrap();
    assert_eq!(
        w.free(&mut a, given),
        Ok(vec![DeviceCall::FreeMemory { device_memory: 101 }])
    );
    assert_eq!(slots(&a, 0), vec![None]);
}

#[test]
fn vacant_slots_are_used_again() {
    let (mut a, mut w) = (allocator(&[DEVICE_LOCAL]), world());
    let mut given = vec![];
    for _ in 0..4 {
        given.push(w.allocate(&mut a, &desc(300 * MIB, MemoryLocation::GpuOnly)).unwrap());
    }
    let last = given.pop().unwrap();
    for sub_allocation in given {
        w.free(&mut a, sub_allocation).unwrap();
    }
    assert_eq!(slots(&a, 0), vec![None, None, None, Some(104)]);
    // A dedicated block goes to the lowest vacant slot, a general one to the highest.
    let dedicated = w.allocate(&mut a, &desc(300 * MIB, MemoryLocation::GpuOnly)).unwrap();
    assert_eq!(dedicated.memory_block_index(), 0);
    let general = w.allocate(&mut a, &desc(16, MemoryLocation::GpuOnly)).unwrap();
    assert_eq!(general.memory_block_index(), 2);
    assert_eq!(slots(&a, 0), vec![Some(105), None, Some(106), Some(104)]);
    w.free(&mut a, last).unwrap();
    assert_eq!(slots(&a, 0), vec![Some(105), None, Some(106), None]);
}

#[test]
fn refusal_of_the_sub_allocator_is_passed_on() {
    let (mut a, mut w) = (allocator(&[DEVICE_LOCAL]), world());
    let given = w.allocate(&mut a, &desc(300 * MIB, MemoryLocation::GpuOnly)).unwrap();
    assert!(matches!(a.free(given), FreeProgress::Pending(_)));
    let result = a.finish_free(0, 0, FreeReply::Refused(AllocationError::OutOfMemory));
    assert_eq!(result, Err(AllocationError::OutOfMemory));
    assert_eq!(slots(&a, 0), vec![Some(101)]);
}

#[test]
fn freeing_from_a_vacant_slot_is_an_error() {
    let (mut a, mut w) = (allocator(&[DEVICE_LOCAL]), world());
    let given = w.allocate(&mut a, &desc(300 * MIB, MemoryLocation::GpuOnly)).unwrap();
    w.free(&mut a, given.clone()).unwrap();
    assert_eq!(
        w.free(&mut a, given),
        Err(AllocationError::Internal("Memory block must be Some.".to_owned()))
    );
}

#[test]
fn leaks_are_reported_in_order() {
    let flags = [DEVICE_LOCAL, HOST_VISIBLE | HOST_COHERENT];
    let (mut a, mut w) = (allocator(&flags), world());
    w.allocate(&mut a, &desc(16, MemoryLocation::GpuToCpu)).unwrap();
    let gone = w.allocate(&mut a, &desc(300 * MIB, MemoryLocation::GpuOnly)).unwrap();
    w.allocate(&mut a, &desc(300 * MIB, MemoryLocation::GpuOnly)).unwrap();
    w.allocate(&mut a, &desc(300 * MIB, MemoryLocation::GpuOnly)).unwrap();
    w.free(&mut a, gone).unwrap();
    let reports: Vec<_> = a
        .report_memory_leaks(Level::Info)
        .iter()
        .map(|r| (r.log_level, r.memory_type_index, r.memory_block_index))
        .collect();
    assert_eq!(reports, vec![(Level::Info, 0, 1), (Level::Info, 0, 2), (Level::Info, 1, 0)]);
    assert!(a.leaks_on_shutdown(Level::Warn).is_empty());
}

#[test]
fn leaks_are_reported_on_shutdown_if_wanted() {
    let settings = AllocatorDebugSettings { log_leaks_on_shutdown: true, ..QUIET };
    let (mut a, mut w) = (allocator_with(&[DEVICE_LOCAL], settings), world());
    w.allocate(&mut a, &desc(16, MemoryLocation::GpuOnly)).unwrap();
    let reports = a.leaks_on_shutdown(Level::Warn);
    assert_eq!(reports.len(), 1);
    assert_eq!(reports[0].log_level, Level::Warn);
}

#[test]
fn shut_down_frees_every_block_once() {
    let flags = [DEVICE_LOCAL, HOST_VISIBLE | HOST_COHERENT];
    let (mut a, mut w) = (allocator(&flags), world());
    w.allocate(&mut a, &desc(16, MemoryLocation::GpuToCpu)).unwrap();
    w.allocate(&mut a, &desc(300 * MIB, MemoryLocation::GpuOnly)).unwrap();
    w.allocate(&mut a, &desc(16, MemoryLocation::GpuOnly)).unwrap();
    assert_eq!(
        a.shut_down(),
        vec![
            DeviceCall::FreeMemory { device_memory: 102 },
            DeviceCall::FreeMemory { device_memory: 103 },
            DeviceCall::UnmapMemory { device_memory: 101 },
            DeviceCall::FreeMemory { device_memory: 101 },
        ]
    );
    assert_eq!(slots(&a, 0), vec![None, None]);
    assert!(a.shut_down().is_empty());
}

#[test]
fn no_memory_is_lost() {
    let flags = [DEVICE_LOCAL, HOST_VISIBLE | HOST_COHERENT];
    let (mut a, mut w) = (allocator(&flags), world());
    let mut freed = vec![];
    for round in 0..4 {
        w.refuse_mapping = round == 2;
        for size in [16, 60 * MIB, 300 * MIB] {
            for location in [MemoryLocation::GpuOnly, MemoryLocation::CpuToGpu] {
                if let Ok(given) = w.allocate(&mut a, &desc(size, location)) {
                    if size > 256 * MIB {
                        freed.extend(w.free(&mut a, given).unwrap());
                    }
                }
            }
        }
    }
    freed.extend(a.shut_down());
    let mut handles = w.freed.clone();
    for call in freed {
        if let DeviceCall::FreeMemory { device_memory } = call {
            handles.push(device_memory);
        }
    }
    handles.sort();
    assert_eq!(handles, w.handles);
}

#[test]
fn whole_life_gives_everything_back_once() {
    let flags = [DEVICE_LOCAL, HOST_VISIBLE | HOST_COHERENT];
    let (mut a, mut w) = (allocator(&flags), world());
    let kept = w.allocate(&mut a, &desc(16, MemoryLocation::GpuOnly)).unwrap();
    let upload = w.allocate(&mut a, &desc(64 * MIB, MemoryLocation::CpuToGpu)).unwrap();
    w.allocate(&mut a, &desc(16, MemoryLocation::GpuToCpu)).unwrap();
    w.free(&mut a, upload).unwrap();
    w.refuse_mapping = true;
    assert!(w.allocate(&mut a, &desc(65 * MIB, MemoryLocation::GpuToCpu)).is_err());
    w.refuse_mapping = false;
    w.map_address = 0;
    w.allocate(&mut a, &desc(66 * MIB, MemoryLocation::GpuToCpu)).unwrap();
    w.free(&mut a, kept).unwrap();
    let calls = a.shut_down();
    w.make(&calls);

    assert_eq!(w.handles, vec![101, 102, 103, 104, 105]);
    assert_eq!(w.traffic_with(101), vec!["granted", "freed"]);
    assert_eq!(w.traffic_with(102), vec!["granted", "mapped", "unmapped", "freed"]);
    assert_eq!(w.traffic_with(103), vec!["granted", "mapped", "unmapped", "freed"]);
    // Mapping was refused.
    assert_eq!(w.traffic_with(104), vec!["granted", "freed"]);
    // Mapped to the null address, which counts as not mapped.
    assert_eq!(w.traffic_with(105), vec!["granted", "freed"]);
}

#[test]
fn everything_freed_leaves_at_most_one_general_block() {
    let flags = [DEVICE_LOCAL, HOST_VISIBLE | HOST_COHERENT];
    let sizes = [200 * MIB, 16, 300 * MIB, 60 * MIB, 256 * MIB, 65 * MIB, 50 * MIB];
    // First to last, last to first, and from the middle on.
    for order in [[0, 1, 2, 3, 4, 5, 6], [6, 5, 4, 3, 2, 1, 0], [3, 4, 5, 6, 0, 1, 2]] {
        let (mut a, mut w) = (allocator(&flags), world());
        let mut given = vec![];
        for size in sizes {
            given.push(Some((
                w.allocate(&mut a, &desc(size, MemoryLocation::GpuOnly)).unwrap(),
                w.allocate(&mut a, &desc(size, MemoryLocation::CpuToGpu)).unwrap(),
            )));
        }
        for k in order {
            let (first, second) = given[k as usize].take().unwrap();
            w.free(&mut a, first).unwrap();
            w.free(&mut a, second).unwrap();
        }
        for (i, size) in [(0, DEFAULT_DEVICE_MEMBLOCK_SIZE), (1, DEFAULT_HOST_MEMBLOCK_SIZE)] {
            let memory_type = &a.memory_types()[i];
            assert_eq!(memory_type.active_general_blocks(), 1);
            let left: Vec<_> = memory_type.memory_blocks().iter().flatten().collect();
            assert_eq!(left.len(), 1);
            assert_eq!(left[0].size, size);
            assert_eq!(left[0].sub_allocator.count, 0);
        }
    }
}

#[test]
fn nothing_is_left_of_large_requests() {
    let (mut a, mut w) = (allocator(&[DEVICE_LOCAL]), world());
    let first = w.allocate(&mut a, &desc(300 * MIB, MemoryLocation::GpuOnly)).unwrap();
    let second = w.allocate(&mut a, &desc(400 * MIB, MemoryLocation::GpuOnly)).unwrap();
    w.free(&mut a, first).unwrap();
    w.free(&mut a, second).unwrap();
    assert_eq!(slots(&a, 0), vec![None, None]);
    assert_eq!(a.memory_types()[0].active_general_blocks(), 0);
}

#[test]
fn small_request_round_trip() {
    let flags = [DEVICE_LOCAL, HOST_VISIBLE | HOST_COHERENT];
    for (size, location, i) in [
        (1, MemoryLocation::GpuOnly, 0),
        (64 * MIB, MemoryLocation::GpuOnly, 0),
        (64 * MIB, MemoryLocation::GpuToCpu, 1),
        (16, MemoryLocation::CpuToGpu, 1),
    ] {
        let (mut a, mut w) = (allocator(&flags), world());
        let given = w.allocate(&mut a, &desc(size, location)).unwrap();
        let memory = given.memory();
        assert_eq!(w.free(&mut a, given), Ok(vec![]));
        assert_eq!(slots(&a, i), vec![Some(memory)]);
        assert_eq!(slots(&a, 1 - i), vec![]);
        assert_eq!(a.memory_types()[i].active_general_blocks(), 1);
        assert_eq!(a.memory_types()[1 - i].active_general_blocks(), 0);
        // The block that stayed serves the next request.
        let again = w.allocate(&mut a, &desc(size, location)).unwrap();
        assert_eq!(again.memory(), memory);
        assert_eq!(w.handles, vec![memory]);
    }
}

#[test]
fn result_is_of_a_compatible_memory_type() {
    let shared = HOST_VISIBLE | HOST_COHERENT;
    let flags = [DEVICE_LOCAL, HOST_VISIBLE, shared, shared];
    let (mut a, mut w) = (allocator(&flags), world());
    for (location, bits, i) in [
        (MemoryLocation::GpuOnly, !0, 0),
        (MemoryLocation::CpuToGpu, !0, 2),
        (MemoryLocation::GpuToCpu, 0b1001, 3),
        (MemoryLocation::Unknown, 0b0110, 1),
    ] {
        let mut d = desc(16, location);
        d.requirements.memory_type_bits = bits;
        let given = w.allocate(&mut a, &d).unwrap();
        assert_eq!(given.memory_type_index(), i);
        assert_eq!(slots(&a, i), vec![Some(given.memory())]);
    }
}

#[test]
fn block_stays_while_a_part_is_out() {
    let (mut a, mut w) = (allocator(&[DEVICE_LOCAL]), world());
    let part = w.allocate(&mut a, &desc(16, MemoryLocation::GpuOnly)).unwrap();
    let beside = w.allocate(&mut a, &desc(16, MemoryLocation::GpuOnly)).unwrap();
    let large = w.allocate(&mut a, &desc(300 * MIB, MemoryLocation::GpuOnly)).unwrap();
    let other = w.allocate(&mut a, &desc(256 * MIB, MemoryLocation::GpuOnly)).unwrap();
    for gone in [beside, large, other] {
        w.free(&mut a, gone).unwrap();
        assert_eq!(slots(&a, 0)[part.memory_block_index()], Some(part.memory()));
    }
    assert_eq!(slots(&a, 0), vec![Some(101), None, None]);
}

#[test]
fn allocations_do_not_overlap() {
    let flags = [DEVICE_LOCAL, HOST_VISIBLE | HOST_COHERENT];
    let (mut a, mut w) = (allocator(&flags), world());
    let mut out = vec![];
    for round in 0..3 {
        for size in [16, 60 * MIB, 100 * MIB, 300 * MIB] {
            for location in [MemoryLocation::GpuOnly, MemoryLocation::GpuToCpu] {
                out.push(w.allocate(&mut a, &desc(size, location)).unwrap());
            }
        }
        let gone = out.remove(round);
        w.free(&mut a, gone).unwrap();
    }
    for (k, given) in out.iter().enumerate() {
        let (i, j) = (given.memory_type_index(), given.memory_block_index());
        let block = a.memory_types()[i].memory_blocks()[j].as_ref().unwrap();
        assert_eq!(block.device_memory, given.memory());
        assert!(given.offset() + given.size() <= block.size);
        for other in &out[k + 1..] {
            if given.memory() == other.memory() {
                assert_eq!((i, j), (other.memory_type_index(), other.memory_block_index()));
                assert!(
                    given.offset() + given.size() <= other.offset()
                        || other.offset() + other.size() <= given.offset()
                );
            }
        }
    }
}

#[test]
fn part_stays_when_new_blocks_refuse() {
    let (mut a, mut w) = (allocator(&[DEVICE_LOCAL]), world());
    let part = w.allocate(&mut a, &desc(16, MemoryLocation::GpuOnly)).unwrap();
    w.broken_blocks = vec![1];
    assert!(w.allocate(&mut a, &desc(300 * MIB, MemoryLocation::GpuOnly)).is_err());
    assert_eq!(slots(&a, 0), vec![Some(101), Some(102)]);
    w.broken_blocks = vec![];
    w.full_blocks = vec![1];
    let beside = w.allocate(&mut a, &desc(16, MemoryLocation::GpuOnly)).unwrap();
    assert_eq!((beside.memory(), beside.offset()), (101, 16));
    w.free(&mut a, beside).unwrap();
    assert_eq!(slots(&a, 0)[part.memory_block_index()], Some(part.memory()));
}

#[test]
fn upload_whose_first_block_refuses_leaves_that_block() {
    let shared = HOST_VISIBLE | HOST_COHERENT;
    let (mut a, mut w) = (allocator(&[shared, shared | DEVICE_LOCAL]), world());
    w.full_blocks = vec![0];
    assert!(w.allocate(&mut a, &desc(16, MemoryLocation::CpuToGpu)).is_err());
    // One general block for each of the two attempts.
    assert_eq!(w.asked, vec![(1, 0), (0, 0)]);
    assert_eq!((slots(&a, 0), slots(&a, 1)), (vec![Some(102)], vec![Some(101)]));
}

#[test]
fn visible_memory_is_always_mapped() {
    let flags = [DEVICE_LOCAL, HOST_VISIBLE | HOST_COHERENT];
    let (mut a, mut w) = (allocator(&flags), world());
    let mut out = vec![];
    for round in 0..3 {
        w.refuse_mapping = round == 1;
        for size in [16, 60 * MIB, 70 * MIB, 300 * MIB] {
            for location in [MemoryLocation::GpuOnly, MemoryLocation::GpuToCpu] {
                out.extend(w.allocate(&mut a, &desc(size, location)).ok());
            }
        }
        let gone = out.remove(round);
        w.free(&mut a, gone).unwrap();
        for (i, mapped) in [(0, false), (1, true)] {
            for block in a.memory_types()[i].memory_blocks().iter().flatten() {
                assert_eq!(block.mapped_ptr != 0, mapped);
            }
        }
        for given in &out {
            let i = given.memory_type_index();
            let blocks = a.memory_types()[i].memory_blocks();
            let block = blocks[given.memory_block_index()].as_ref().unwrap();
            let region = MappedSlice {
                address: block.mapped_ptr + given.offset(),
                len: given.size(),
            };
            assert_eq!(given.mapped_slice(), if i == 1 { Some(region) } else { None });
        }
    }
}

#[test]
fn slices_for_reading_and_writing_are_the_same() {
    let (mut a, mut w) = (allocator(&[HOST_VISIBLE | HOST_COHERENT]), world());
    let mut first = w.allocate(&mut a, &desc(32, MemoryLocation::GpuToCpu)).unwrap();
    let mut second = w.allocate(&mut a, &desc(48, MemoryLocation::GpuToCpu)).unwrap();
    for given in [&mut first, &mut second] {
        let (offset, size, mapped_ptr) = (given.offset(), given.size(), given.mapped_ptr());
        let slice = given.mapped_slice_mut();
        assert_eq!(slice, given.mapped_slice());
        assert_eq!((given.offset(), given.size(), given.mapped_ptr()), (offset, size, mapped_ptr));
    }
    // Neighbours in one block have no address in common.
    let (first, second) = (first.mapped_slice().unwrap(), second.mapped_slice().unwrap());
    assert_eq!(first.address + first.len, second.address);
    // Neither of memory that the host cannot see.
    let (mut a, mut w) = (allocator(&[DEVICE_LOCAL]), world());
    let mut hidden = w.allocate(&mut a, &desc(16, MemoryLocation::GpuOnly)).unwrap();
    assert_eq!(hidden.mapped_slice(), None);
    assert_eq!(hidden.mapped_slice_mut(), None);
}

#[test]
fn stack_traces_are_stored_if_wanted() {
    let (mut a, mut w) = (allocator(&[DEVICE_LOCAL]), world());
    assert_eq!(a.stack_trace(), None);
    w.allocate(&mut a, &desc(16, MemoryLocation::GpuOnly)).unwrap();
    assert_eq!(w.kinds[0].5, None);

    let settings = AllocatorDebugSettings { store_stack_traces: true, ..QUIET };
    let (mut a, mut w) = (allocator_with(&[DEVICE_LOCAL], settings), world());
    assert!(a.debug_settings().store_stack_traces);
    assert!(!a.stack_trace().unwrap().is_empty());
    w.allocate(&mut a, &desc(16, MemoryLocation::GpuOnly)).unwrap();
    assert!(w.kinds[0].5.is_some());
}
