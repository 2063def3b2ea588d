use vstd::prelude::*;

use crate::allocator::{preferred_flags, required_flags, Allocation, AllocatorModel};
use crate::flags::{contains, HOST_COHERENT, HOST_VISIBLE};
use crate::protocol::Reply;
use crate::search::lemma_first_none;
use crate::types::{AllocationCreateDesc, MemoryLocation, MemoryRequirements};

verus! {

/// The memory type that is chosen for a request can serve it, has the required flags, and
/// is the lowest one with the preferred flags if any has those. None is chosen exactly when
/// no memory type that can serve the request has the required flags.
pub proof fn selection_is_compatible<S>(
    allocator: AllocatorModel<S>,
    requirements: MemoryRequirements,
    location: MemoryLocation,
)
    ensures
        match allocator.select(requirements, location) {
            Some(i) => {
                &&& 0 <= i < allocator.memory_types.len()
                &&& allocator.memory_types[i].compatible(requirements, required_flags(location))
                &&& forall|j: int|
                    0 <= j < i ==> !(#[trigger] allocator.memory_types[j]).compatible(
                        requirements,
                        preferred_flags(location),
                    )
                &&& allocator.memory_types[i].compatible(requirements, preferred_flags(location))
                    || forall|j: int|
                    0 <= j < allocator.memory_types.len()
                        ==> !(#[trigger] allocator.memory_types[j]).compatible(
                        requirements,
                        preferred_flags(location),
                    )
                &&& allocator.memory_types[i].compatible(requirements, preferred_flags(location))
                    || forall|j: int|
                    0 <= j < i ==> !(#[trigger] allocator.memory_types[j]).compatible(
                        requirements,
                        required_flags(location),
                    )
            },
            None => forall|j: int|
                0 <= j < allocator.memory_types.len()
                    ==> !(#[trigger] allocator.memory_types[j]).compatible(
                    requirements,
                    required_flags(location),
                ),
        },
{
    let preferred = allocator.compatibility(requirements, preferred_flags(location));
    let required = allocator.compatibility(requirements, required_flags(location));
    lemma_first_none(preferred);
    lemma_first_none(required);
    assert forall|j: int| 0 <= j < allocator.memory_types.len() implies (
    #[trigger] allocator.memory_types[j]).compatible(requirements, preferred_flags(location))
        == preferred[j] && allocator.memory_types[j].compatible(
        requirements,
        required_flags(location),
    ) == required[j] && (preferred[j] ==> required[j]) by {
        if preferred[j] {
            lemma_preferred_implies_required(
                allocator.memory_types[j].memory_properties,
                location,
            );
        }
    }
}

/// Memory with the preferred flags has the required ones too.
proof fn lemma_preferred_implies_required(flags: u32, location: MemoryLocation)
    requires
        contains(flags, preferred_flags(location)),
    ensures
        contains(flags, required_flags(location)),
{
    assert(flags & (2u32 | 4u32 | 1u32) == (2u32 | 4u32 | 1u32) ==> flags & (2u32 | 4u32) == (2u32
        | 4u32)) by (bit_vector);
    assert(flags & (2u32 | 4u32 | 8u32) == (2u32 | 4u32 | 8u32) ==> flags & (2u32 | 4u32) == (2u32
        | 4u32)) by (bit_vector);
}

/// Two allocators list the same memory types, whatever blocks they hold.
pub open spec fn same_memory_types<S>(a: AllocatorModel<S>, b: AllocatorModel<S>) -> bool {
    &&& a.memory_types.len() == b.memory_types.len()
    &&& forall|i: int|
        0 <= i < a.memory_types.len() ==> {
            &&& (#[trigger] a.memory_types[i]).memory_properties
                == b.memory_types[i].memory_properties
            &&& a.memory_types[i].memory_type_index == b.memory_types[i].memory_type_index
        }
}

/// Once an allocation for uploads has begun, there is a memory type for its second attempt,
/// whatever happened to the blocks meanwhile.
pub proof fn second_attempt_has_a_memory_type<'a, S>(
    before: AllocatorModel<S>,
    later: AllocatorModel<S>,
    desc: AllocationCreateDesc<'a>,
    backtrace: Option<&'a str>,
)
    requires
        desc.location == MemoryLocation::CpuToGpu,
        before.begun(desc, backtrace) is Pending,
        same_memory_types(before, later),
    ensures
        later.retried(desc, backtrace) is Pending,
{
    let requirements = desc.requirements;
    selection_is_compatible(before, requirements, desc.location);
    let i = before.select(requirements, desc.location)->0;
    let marks = later.compatibility(requirements, HOST_VISIBLE | HOST_COHERENT);
    lemma_first_none(marks);
    assert(before.memory_types[i].compatible(requirements, required_flags(desc.location)));
    assert(marks[i]);
}

/// No reply to an allocation changes which memory types there are.
pub proof fn allocation_keeps_memory_types<'a, S>(
    allocator: AllocatorModel<S>,
    allocation: Allocation<'a>,
    reply: Reply<S>,
)
    requires
        allocation.fits(allocator),
    ensures
        same_memory_types(allocator, allocation.state_after(allocator, reply)),
{
}

} // verus!
