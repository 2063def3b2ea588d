use vstd::arithmetic::power2::pow2;
use vstd::prelude::*;

use crate::allocator::{preferred_flags, required_flags, Allocation, AllocatorModel};
use crate::error::ErrorModel;
use crate::flags::contains;
use crate::laws::course::{lemma_starts, starts_at};
use crate::memory_type::{MemoryTypeModel, TypeAllocation};
use crate::progress::ProgressModel;
use crate::protocol::Reply;
use crate::search::lemma_first_none;
use crate::types::{AllocationCreateDesc, MemoryLocation, MemoryRequirements};

verus! {

/// Bit `k` of `n` is set.
pub open spec fn bit(n: u32, k: nat) -> bool {
    (n as nat / pow2(k)) % 2 == 1
}

/// Memory with these properties is what `location` would like best: local to the device (bit
/// 0) if the device alone uses it, all of local, visible to the host (bit 1) and coherent (bit
/// 2) for uploads, and visible, coherent and cached (bit 3) for downloads.
pub open spec fn best_for(location: MemoryLocation, properties: u32) -> bool {
    match location {
        MemoryLocation::GpuOnly => bit(properties, 0),
        MemoryLocation::CpuToGpu => bit(properties, 0) && bit(properties, 1) && bit(properties, 2),
        MemoryLocation::GpuToCpu => bit(properties, 1) && bit(properties, 2) && bit(properties, 3),
        MemoryLocation::Unknown => true,
    }
}

/// Memory with these properties is good enough for `location`: local to the device if the
/// device alone uses it, visible to the host and coherent if the host does too.
pub open spec fn enough_for(location: MemoryLocation, properties: u32) -> bool {
    match location {
        MemoryLocation::GpuOnly => bit(properties, 0),
        MemoryLocation::CpuToGpu => bit(properties, 1) && bit(properties, 2),
        MemoryLocation::GpuToCpu => bit(properties, 1) && bit(properties, 2),
        MemoryLocation::Unknown => true,
    }
}

/// Every memory type stands at its own index.
pub open spec fn indexed<S>(types: Seq<MemoryTypeModel<S>>) -> bool {
    &&& types.len() <= 32
    &&& forall|i: int|
        0 <= i < types.len() ==> (#[trigger] types[i]).memory_type_index == i
}

/// The slots of every memory type can be numbered.
pub open spec fn countable<S>(types: Seq<MemoryTypeModel<S>>) -> bool {
    forall|i: int|
        0 <= i < types.len() ==> (#[trigger] types[i]).memory_blocks.len() <= usize::MAX
}

/// The request allows memory type `i`, and that is good enough for `location`.
pub open spec fn usable<S>(
    types: Seq<MemoryTypeModel<S>>,
    requirements: MemoryRequirements,
    location: MemoryLocation,
    i: int,
) -> bool {
    &&& 0 <= i < types.len()
    &&& bit(requirements.memory_type_bits, i as nat)
    &&& enough_for(location, types[i].memory_properties)
}

/// The request allows memory type `i`, and that is what `location` would like best.
pub open spec fn ideal<S>(
    types: Seq<MemoryTypeModel<S>>,
    requirements: MemoryRequirements,
    location: MemoryLocation,
    i: int,
) -> bool {
    &&& 0 <= i < types.len()
    &&& bit(requirements.memory_type_bits, i as nat)
    &&& best_for(location, types[i].memory_properties)
}

/// Memory type `i` is the right one: the lowest ideal one, or the lowest usable one if none is
/// ideal.
pub open spec fn right_type<S>(
    types: Seq<MemoryTypeModel<S>>,
    requirements: MemoryRequirements,
    location: MemoryLocation,
    i: int,
) -> bool {
    if exists|j: int| ideal(types, requirements, location, j) {
        &&& ideal(types, requirements, location, i)
        &&& forall|j: int| 0 <= j < i ==> !ideal(types, requirements, location, j)
    } else {
        &&& usable(types, requirements, location, i)
        &&& forall|j: int| 0 <= j < i ==> !usable(types, requirements, location, j)
    }
}

/// All flags of a set are among those of another exactly if each bit of the one is a bit of
/// the other.
pub proof fn flags_are_bits(flags: u32, wanted: u32)
    ensures
        contains(flags, wanted) <==> forall|k: nat|
            k < 32 && #[trigger] bit(wanted, k) ==> bit(flags, k),
{
    assert forall|k: nat| contains(flags, wanted) && k < 32 && #[trigger] bit(wanted, k) implies bit(
        flags,
        k,
    ) by {
        lemma_bit(wanted, k);
        lemma_bit(flags, k);
        let s = k as u32;
        assert(flags & wanted == wanted && (wanted >> s) & 1 == 1 ==> (flags >> s) & 1 == 1)
            by (bit_vector);
    }
    if forall|k: nat| k < 32 && #[trigger] bit(wanted, k) ==> bit(flags, k) {
        assert forall|s: u32| s < 32 && #[trigger] (wanted >> s) & 1 == 1 implies (flags >> s) & 1
            == 1 by {
            lemma_bit(wanted, s as nat);
            lemma_bit(flags, s as nat);
            assert(bit(wanted, s as nat));
        }
        lemma_all_bits(flags, wanted);
    }
}

/// A memory type can serve a request with some flags exactly if the bit of its index is set
/// in the request, and each of the flags is among its properties.
pub proof fn compatibility_is_bits<S>(
    memory_type: MemoryTypeModel<S>,
    requirements: MemoryRequirements,
    flags: u32,
)
    requires
        memory_type.memory_type_index < 32,
    ensures
        memory_type.compatible(requirements, flags) <==> {
            &&& bit(requirements.memory_type_bits, memory_type.memory_type_index as nat)
            &&& forall|k: nat|
                k < 32 && #[trigger] bit(flags, k) ==> bit(memory_type.memory_properties, k)
        },
{
    let i = memory_type.memory_type_index;
    let s = i as u32;
    let bits = requirements.memory_type_bits;
    lemma_bit(bits, i as nat);
    flags_are_bits(memory_type.memory_properties, flags);
    assert((1u32 << i) == (1u32 << s));
    assert(((1u32 << s) & bits != 0) == ((bits >> s) & 1 == 1)) by (bit_vector)
        requires
            s < 32,
    ;
}

/// Looking for a memory type finds the lowest one whose bit is set in the request and whose
/// properties have every bit of the flags, and none only if there is none.
pub proof fn search_finds_the_lowest<S>(
    allocator: AllocatorModel<S>,
    requirements: MemoryRequirements,
    flags: u32,
)
    requires
        indexed(allocator.memory_types),
    ensures
        match allocator.find_memorytype_index(requirements, flags) {
            Some(i) => {
                &&& fulfils(allocator.memory_types, requirements, flags, i)
                &&& forall|j: int|
                    0 <= j < i ==> !fulfils(allocator.memory_types, requirements, flags, j)
            },
            None => forall|j: int| !fulfils(allocator.memory_types, requirements, flags, j),
        },
{
    let marks = allocator.compatibility(requirements, flags);
    lemma_first_none(marks);
    assert forall|j: int| 0 <= j < allocator.memory_types.len() implies #[trigger] fulfils(
        allocator.memory_types,
        requirements,
        flags,
        j,
    ) == marks[j] by {
        compatibility_is_bits(allocator.memory_types[j], requirements, flags);
    }
}

/// The request allows memory type `i`, and that has every bit of `flags`.
pub open spec fn fulfils<S>(
    types: Seq<MemoryTypeModel<S>>,
    requirements: MemoryRequirements,
    flags: u32,
    i: int,
) -> bool {
    &&& 0 <= i < types.len()
    &&& bit(requirements.memory_type_bits, i as nat)
    &&& forall|k: nat| k < 32 && #[trigger] bit(flags, k) ==> bit(types[i].memory_properties, k)
}

/// The memory type that is selected is the right one, and none is selected only if none is
/// usable.
pub proof fn selection_is_right<S>(
    allocator: AllocatorModel<S>,
    requirements: MemoryRequirements,
    location: MemoryLocation,
)
    requires
        indexed(allocator.memory_types),
    ensures
        match allocator.select(requirements, location) {
            Some(i) => right_type(allocator.memory_types, requirements, location, i),
            None => forall|j: int| !usable(allocator.memory_types, requirements, location, j),
        },
{
    let types = allocator.memory_types;
    let preferred = preferred_flags(location);
    let required = required_flags(location);
    search_finds_the_lowest(allocator, requirements, preferred);
    search_finds_the_lowest(allocator, requirements, required);
    assert forall|j: int|
        #![trigger ideal(types, requirements, location, j)]
        #![trigger fulfils(types, requirements, preferred, j)]
        ideal(types, requirements, location, j) == fulfils(types, requirements, preferred, j) by {
        if 0 <= j < types.len() {
            flags_are_bits(types[j].memory_properties, preferred);
            lemma_location_flags(types[j].memory_properties, location);
        }
    }
    assert forall|j: int|
        #![trigger usable(types, requirements, location, j)]
        #![trigger fulfils(types, requirements, required, j)]
        usable(types, requirements, location, j) == fulfils(types, requirements, required, j) by {
        if 0 <= j < types.len() {
            flags_are_bits(types[j].memory_properties, required);
            lemma_location_flags(types[j].memory_properties, location);
        }
    }
    assert forall|j: int| #[trigger] ideal(types, requirements, location, j) implies usable(
        types,
        requirements,
        location,
        j,
    ) by {}
}

/// What an attempt on memory type `i` asks for is what was described, and it starts where a
/// request of its size starts.
pub open spec fn attempts<'a, S>(
    allocator: AllocatorModel<S>,
    attempt: TypeAllocation<'a>,
    desc: AllocationCreateDesc<'a>,
    backtrace: Option<&'a str>,
    i: int,
) -> bool {
    &&& attempt.memory_type_index == i
    &&& attempt.size == desc.requirements.size
    &&& attempt.alignment == desc.requirements.alignment
    &&& attempt.allocation_type is Linear <==> desc.linear
    &&& attempt.granularity == allocator.buffer_image_granularity
    &&& attempt.name == desc.name
    &&& attempt.backtrace == backtrace
    &&& starts_at(allocator.memory_types[i], desc.requirements.size, attempt.stage)
}

/// A request is refused as invalid exactly if it asks for nothing, or for an alignment that
/// is no power of two. It is refused for want of a memory type exactly if it is valid and no
/// memory type is usable. In all other cases it is begun on the right memory type, for what
/// was described.
pub proof fn request_is_begun_where_it_belongs<'a, S>(
    allocator: AllocatorModel<S>,
    desc: AllocationCreateDesc<'a>,
    backtrace: Option<&'a str>,
)
    requires
        indexed(allocator.memory_types),
        countable(allocator.memory_types),
    ensures
        ({
            let types = allocator.memory_types;
            let invalid = desc.requirements.size == 0 || forall|k: nat| #[trigger]
                pow2(k) != desc.requirements.alignment;
            match allocator.begun(desc, backtrace) {
                ProgressModel::Failed(ErrorModel::InvalidAllocationCreateDesc) => invalid,
                ProgressModel::Failed(ErrorModel::NoCompatibleMemoryTypeFound) => {
                    &&& !invalid
                    &&& forall|i: int| !usable(types, desc.requirements, desc.location, i)
                },
                ProgressModel::Pending(pending) => {
                    let i = pending.attempt.memory_type_index as int;
                    &&& !invalid
                    &&& right_type(types, desc.requirements, desc.location, i)
                    &&& attempts(allocator, pending.attempt, desc, backtrace, i)
                    &&& pending.desc == desc
                    &&& pending.backtrace == backtrace
                    &&& !pending.retried
                },
                _ => false,
            }
        }),
{
    selection_is_right(allocator, desc.requirements, desc.location);
    if let Some(i) = allocator.select(desc.requirements, desc.location) {
        lemma_attempts(allocator, i, desc, backtrace, false);
    }
}

/// Every request for something, at an alignment that is a power of two, for which a memory
/// type is usable, is begun.
pub proof fn valid_request_is_begun<'a, S>(
    allocator: AllocatorModel<S>,
    desc: AllocationCreateDesc<'a>,
    backtrace: Option<&'a str>,
    k: nat,
    i: int,
)
    requires
        indexed(allocator.memory_types),
        desc.requirements.size > 0,
        k < 64,
        desc.requirements.alignment == pow2(k),
        usable(allocator.memory_types, desc.requirements, desc.location, i),
    ensures
        allocator.begun(desc, backtrace) is Pending,
{
    selection_is_right(allocator, desc.requirements, desc.location);
}

/// A request that allows one single memory type, which is good enough, is begun on that one.
pub proof fn only_type_allowed_is_taken<'a, S>(
    allocator: AllocatorModel<S>,
    desc: AllocationCreateDesc<'a>,
    backtrace: Option<&'a str>,
    k: nat,
    i: int,
)
    requires
        indexed(allocator.memory_types),
        desc.requirements.size > 0,
        k < 64,
        desc.requirements.alignment == pow2(k),
        desc.requirements.memory_type_bits == pow2(i as nat),
        0 <= i < allocator.memory_types.len(),
        enough_for(desc.location, allocator.memory_types[i].memory_properties),
    ensures
        allocator.begun(desc, backtrace) matches ProgressModel::Pending(pending)
            && pending.attempt.memory_type_index == i,
{
    let types = allocator.memory_types;
    assert forall|j: nat| j < 32 implies #[trigger] bit(desc.requirements.memory_type_bits, j) == (
    j == i) by {
        lemma_single_bit(desc.requirements.memory_type_bits, i as nat, j);
    }
    selection_is_right(allocator, desc.requirements, desc.location);
    assert(usable(types, desc.requirements, desc.location, i));
}

/// An allocation for uploads whose first attempt fails is attempted once more, whatever the
/// request: on the lowest memory type that it allows and that is visible to the host and
/// coherent, for what was described. There is none only if no such type is there.
pub proof fn failed_upload_is_attempted_again<'a, S>(
    allocator: AllocatorModel<S>,
    allocation: Allocation<'a>,
    reply: Reply<S>,
)
    requires
        indexed(allocator.memory_types),
        allocation.attempt.memory_type_index < allocator.memory_types.len(),
        countable(allocator.memory_types),
        allocation.desc.location is CpuToGpu,
        !allocation.retried,
        allocation.attempt.after(
            allocator.memory_types[allocation.attempt.memory_type_index as int],
            reply,
        ) is Failed,
    ensures
        ({
            let types = allocator.memory_types;
            let after = allocation.state_after(allocator, reply);
            let location = MemoryLocation::CpuToGpu;
            let requirements = allocation.desc.requirements;
            match allocation.after(allocator, reply) {
                ProgressModel::Pending(pending) => {
                    let i = pending.attempt.memory_type_index as int;
                    &&& usable(types, requirements, location, i)
                    &&& forall|j: int| 0 <= j < i ==> !usable(types, requirements, location, j)
                    &&& attempts(
                        after,
                        pending.attempt,
                        allocation.desc,
                        allocation.backtrace,
                        i,
                    )
                    &&& pending.desc == allocation.desc
                    &&& pending.backtrace == allocation.backtrace
                    &&& pending.retried
                },
                ProgressModel::Failed(error) => {
                    &&& error is NoCompatibleMemoryTypeFound
                    &&& forall|j: int| !usable(types, requirements, location, j)
                },
                ProgressModel::Allocated(_) => false,
            }
        }),
        usable(
            allocator.memory_types,
            allocation.desc.requirements,
            MemoryLocation::CpuToGpu,
            allocation.attempt.memory_type_index as int,
        ) ==> allocation.after(allocator, reply) is Pending,
{
    let types = allocator.memory_types;
    let after = allocation.state_after(allocator, reply);
    let location = MemoryLocation::CpuToGpu;
    let requirements = allocation.desc.requirements;
    let flags = required_flags(location);
    search_finds_the_lowest(after, requirements, flags);
    assert forall|j: int|
        #![trigger usable(types, requirements, location, j)]
        #![trigger fulfils(after.memory_types, requirements, flags, j)]
        usable(types, requirements, location, j) == fulfils(
            after.memory_types,
            requirements,
            flags,
            j,
        ) by {
        if 0 <= j < types.len() {
            flags_are_bits(types[j].memory_properties, flags);
            lemma_location_flags(types[j].memory_properties, location);
        }
    }
    if let Some(i) = after.find_memorytype_index(requirements, flags) {
        lemma_attempts(after, i, allocation.desc, allocation.backtrace, true);
    }
}

/// An attempt is made for what was described.
proof fn lemma_attempts<'a, S>(
    allocator: AllocatorModel<S>,
    i: int,
    desc: AllocationCreateDesc<'a>,
    backtrace: Option<&'a str>,
    retried: bool,
)
    requires
        indexed(allocator.memory_types),
        0 <= i < allocator.memory_types.len(),
        allocator.memory_types[i].memory_blocks.len() <= usize::MAX,
    ensures
        attempts(
            allocator,
            allocator.attempt(i, desc, backtrace, retried).attempt,
            desc,
            backtrace,
            i,
        ),
{
    lemma_starts(
        allocator.memory_types[i],
        desc,
        allocator.buffer_image_granularity,
        backtrace,
    );
}

/// A bit is what a shift brings down.
pub(crate) proof fn lemma_bit(n: u32, k: nat)
    requires
        k < 32,
    ensures
        bit(n, k) <==> (n >> (k as u32)) & 1 == 1,
{
    let s = k as u32;
    vstd::bits::lemma_u32_shr_is_div(n, s);
    let shifted = n >> s;
    assert(shifted & 1 == shifted % 2) by (bit_vector);
}

proof fn lemma_all_bits(flags: u32, wanted: u32)
    requires
        forall|s: u32| s < 32 && #[trigger] (wanted >> s) & 1 == 1 ==> (flags >> s) & 1 == 1,
    ensures
        flags & wanted == wanted,
{
    let missing = wanted & !flags;
    if missing != 0 {
        assert(missing >> 0 == missing) by (bit_vector);
        let t = lemma_some_bit(missing, 0);
        assert(((wanted & !flags) >> t) & 1 == 1 ==> (wanted >> t) & 1 == 1 && (flags >> t) & 1
            != 1) by (bit_vector);
    }
    assert(wanted & !flags == 0 ==> flags & wanted == wanted) by (bit_vector);
}

/// A number that is not zero has a bit.
proof fn lemma_some_bit(n: u32, s: u32) -> (t: u32)
    requires
        s < 32,
        n >> s != 0,
    ensures
        t < 32,
        (n >> t) & 1 == 1,
    decreases 32 - s,
{
    if (n >> s) & 1 == 1 {
        s
    } else {
        let next = (s + 1) as u32;
        assert(s < 31 && n >> next != 0) by (bit_vector)
            requires
                s < 32,
                next == s + 1,
                n >> s != 0,
                (n >> s) & 1 != 1,
        ;
        lemma_some_bit(n, next)
    }
}

/// The only bit of a power of two.
proof fn lemma_single_bit(n: u32, i: nat, j: nat)
    requires
        i < 32,
        j < 32,
        n == pow2(i),
    ensures
        bit(n, j) <==> j == i,
{
    let (s, t) = (i as u32, j as u32);
    lemma_bit(n, j);
    vstd::bits::lemma_u32_pow2_no_overflow(i);
    vstd::bits::lemma_u32_shl_is_mul(1, s);
    assert(n == 1u32 << s);
    assert(((1u32 << s) >> t) & 1 == 1 <==> s == t) by (bit_vector)
        requires
            s < 32,
            t < 32,
    ;
}

/// The flags of a location are its bits.
pub(crate) proof fn lemma_location_flags(properties: u32, location: MemoryLocation)
    ensures
        contains(properties, preferred_flags(location)) <==> best_for(location, properties),
        contains(properties, required_flags(location)) <==> enough_for(location, properties),
{
    lemma_bit(properties, 0);
    lemma_bit(properties, 1);
    lemma_bit(properties, 2);
    lemma_bit(properties, 3);
    let p = properties;
    assert((p & 1 == 1) == ((p >> 0) & 1 == 1)) by (bit_vector);
    assert((p & (2u32 | 4u32) == (2u32 | 4u32)) == ((p >> 1) & 1 == 1 && (p >> 2) & 1 == 1))
        by (bit_vector);
    assert((p & (2u32 | 4u32 | 1u32) == (2u32 | 4u32 | 1u32)) == ((p >> 0) & 1 == 1 && (p >> 1) & 1
        == 1 && (p >> 2) & 1 == 1)) by (bit_vector);
    assert((p & (2u32 | 4u32 | 8u32) == (2u32 | 4u32 | 8u32)) == ((p >> 1) & 1 == 1 && (p >> 2) & 1
        == 1 && (p >> 3) & 1 == 1)) by (bit_vector);
    assert(p & 0 == 0) by (bit_vector);
}

} // verus!
