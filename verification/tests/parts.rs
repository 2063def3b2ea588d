use ash::vk;
use gpu_allocator::error::AllocationError;
use gpu_allocator::flags::{DEVICE_LOCAL, HOST_CACHED, HOST_COHERENT, HOST_VISIBLE};
use gpu_allocator::memory_block::{CreationProgress, MemoryBlock};
use gpu_allocator::protocol::{DeviceCall, Reply, Request};
use gpu_allocator::sub_allocation::{non_null, ChunkId, SubAllocation};
use gpu_allocator::types::{
    AllocatorCreateDesc, AllocatorDebugSettings, HeapInformation, MemoryHeap,
    MemoryTypeProperties, PhysicalDeviceMemoryProperties,
};

fn properties(flags: &[u32]) -> PhysicalDeviceMemoryProperties {
    let mut memory_types = [MemoryTypeProperties { property_flags: 0, heap_index: 0 }; 32];
    for (i, f) in flags.iter().enumerate() {
        memory_types[i].property_flags = *f;
    }
    PhysicalDeviceMemoryProperties {
        memory_type_count: flags.len() as u32,
        memory_types,
        memory_heap_count: 0,
        memory_heaps: [MemoryHeap { size: 0, flags: 0 }; 16],
    }
}

#[test]
fn flags_are_those_of_the_device() {
    assert_eq!(DEVICE_LOCAL, vk::MemoryPropertyFlags::DEVICE_LOCAL.as_raw());
    assert_eq!(HOST_VISIBLE, vk::MemoryPropertyFlags::HOST_VISIBLE.as_raw());
    assert_eq!(HOST_COHERENT, vk::MemoryPropertyFlags::HOST_COHERENT.as_raw());
    assert_eq!(HOST_CACHED, vk::MemoryPropertyFlags::HOST_CACHED.as_raw());
}

#[test]
fn host_visible_memory_without_coherence_is_noticed() {
    assert!(!properties(&[]).host_visible_not_coherent());
    assert!(!properties(&[DEVICE_LOCAL, HOST_CACHED]).host_visible_not_coherent());
    assert!(!properties(&[HOST_VISIBLE | HOST_COHERENT]).host_visible_not_coherent());
    assert!(properties(&[DEVICE_LOCAL, HOST_VISIBLE]).host_visible_not_coherent());
    assert!(properties(&[HOST_VISIBLE | HOST_CACHED]).host_visible_not_coherent());
}

#[test]
fn types_beyond_the_count_do_not_matter() {
    let mut p = properties(&[HOST_VISIBLE]);
    p.memory_type_count = 0;
    assert!(!p.host_visible_not_coherent());
}

#[test]
fn memory_is_described_if_wanted() {
    let mut memory_properties = properties(&[DEVICE_LOCAL, HOST_VISIBLE]);
    memory_properties.memory_types[1].heap_index = 1;
    memory_properties.memory_heap_count = 2;
    memory_properties.memory_heaps[0] = MemoryHeap { size: 8 * 1024 * 1024 * 1024, flags: 1 };
    memory_properties.memory_heaps[1] = MemoryHeap { size: 3 * 1024 * 1024 - 1, flags: 0 };
    let mut desc = AllocatorCreateDesc {
        memory_properties,
        buffer_image_granularity: 1,
        debug_settings: AllocatorDebugSettings {
            log_memory_information: true,
            log_leaks_on_shutdown: false,
            store_stack_traces: false,
            log_allocations: false,
            log_frees: false,
            log_stack_traces: false,
        },
    };
    let said = desc.memory_information().unwrap();
    assert_eq!(said.memory_types, memory_properties.memory_types[..2].to_vec());
    assert_eq!(
        said.memory_heaps,
        vec![HeapInformation { flags: 1, mib: 8192 }, HeapInformation { flags: 0, mib: 2 }]
    );
    desc.debug_settings.log_memory_information = false;
    assert!(desc.memory_information().is_none());
}

#[test]
fn default_stands_for_nothing() {
    let nothing = SubAllocation::default();
    assert!(nothing.is_null());
    assert_eq!(nothing.chunk_id(), None);
    assert_eq!((nothing.memory(), nothing.offset(), nothing.size()), (0, 0, 0));
    assert_eq!(nothing.memory_type_index(), usize::MAX);
    assert_eq!(nothing.memory_block_index(), usize::MAX);
    assert_eq!(nothing.mapped_ptr(), None);
    assert_eq!(nothing.mapped_slice(), None);
    assert_eq!(nothing.label(), "<null>");
}

#[test]
fn chunk_ids_are_not_zero() {
    assert!(ChunkId::new(0).is_none());
    assert_eq!(ChunkId::new(7).unwrap().get(), 7);
}

#[test]
fn null_is_no_pointer() {
    assert_eq!(non_null(0), None);
    assert_eq!(non_null(16), Some(16));
}

#[test]
fn mapped_block_is_created_in_steps() {
    let creation = MemoryBlock::<u8>::new(4096, 3, true, true);
    assert!(matches!(
        creation.request(),
        Request::AllocateMemory { allocation_size: 4096, memory_type_index: 3 }
    ));
    let creation = match creation.resume::<u8>(Reply::MemoryAllocated(Some(5))) {
        CreationProgress::Pending(creation) => creation,
        _ => panic!(),
    };
    match creation.request() {
        Request::MapMemory { device_memory, offset, size } => {
            assert_eq!((device_memory, offset, size), (5, 0, vk::WHOLE_SIZE));
        }
        _ => panic!(),
    }
    let creation = match creation.resume::<u8>(Reply::MemoryMapped(Some(64))) {
        CreationProgress::Pending(creation) => creation,
        _ => panic!(),
    };
    assert!(matches!(
        creation.request(),
        Request::CreateSubAllocator { size: 4096, dedicated: true }
    ));
    let block = match creation.resume(Reply::SubAllocatorCreated(9u8)) {
        CreationProgress::Created(block) => block,
        _ => panic!(),
    };
    assert_eq!((block.device_memory, block.size, block.mapped_ptr), (5, 4096, 64));
    assert_eq!(block.sub_allocator, 9);
    let mut calls = vec![];
    block.destroy(&mut calls);
    assert_eq!(
        calls,
        vec![
            DeviceCall::UnmapMemory { device_memory: 5 },
            DeviceCall::FreeMemory { device_memory: 5 },
        ]
    );
}

#[test]
fn failed_creation_names_its_reason() {
    let creation = MemoryBlock::<u8>::new(4096, 3, true, false);
    assert!(matches!(
        creation.resume::<u8>(Reply::MemoryAllocated(None)),
        CreationProgress::Failed(AllocationError::OutOfMemory)
    ));
    let creation = match creation.resume::<u8>(Reply::MemoryAllocated(Some(5))) {
        CreationProgress::Pending(creation) => creation,
        _ => panic!(),
    };
    let creation = match creation.resume::<u8>(Reply::MemoryMapped(None)) {
        CreationProgress::Pending(creation) => creation,
        _ => panic!(),
    };
    assert!(matches!(creation.request(), Request::FreeMemory { device_memory: 5 }));
    assert!(matches!(
        creation.resume::<u8>(Reply::MemoryFreed),
        CreationProgress::Failed(AllocationError::FailedToMap)
    ));
}
