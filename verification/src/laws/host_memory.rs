use vstd::prelude::*;

use crate::sub_allocation::{MappedSlice, SubAllocationModel};

verus! {

// Throughout, `host` gives the byte at each address of the host's memory.

/// The bytes that `slice` covers.
pub open spec fn contents(host: spec_fn(int) -> u8, slice: MappedSlice) -> Seq<u8> {
    Seq::new(slice.len as nat, |k: int| host(slice.address + k))
}

/// The host's memory once `bytes` were written to `slice`.
pub open spec fn written(
    host: spec_fn(int) -> u8,
    slice: MappedSlice,
    bytes: Seq<u8>,
) -> spec_fn(int) -> u8 {
    |address: int|
        if covers_address(slice, address) {
            bytes[address - slice.address]
        } else {
            host(address)
        }
}

/// `slice` covers `address`.
pub open spec fn covers_address(slice: MappedSlice, address: int) -> bool {
    slice.address <= address < slice.address + slice.len
}

/// What is written to the addresses that a sub-allocation gives for writing is what is then
/// read at the addresses that it gives for reading, and no other byte changes. (Asking for
/// either changes nothing of the sub-allocation, and both give the same addresses.)
pub proof fn what_is_written_is_read(
    given: SubAllocationModel,
    host: spec_fn(int) -> u8,
    bytes: Seq<u8>,
)
    requires
        given.mapped_slice() matches Some(slice) ==> bytes.len() == slice.len,
    ensures
        given.mapped_slice() matches Some(slice) ==> {
            let after = written(host, slice, bytes);
            &&& contents(after, slice) == bytes
            &&& forall|address: int|
                !covers_address(slice, address) ==> #[trigger] after(address) == host(address)
        },
{
    if let Some(slice) = given.mapped_slice() {
        assert(contents(written(host, slice, bytes), slice) =~= bytes);
    }
}

/// Writing to one sub-allocation leaves the bytes of another one alone, if both lie in one
/// block that is mapped at `base`, each at its offset, and have no byte of it in common.
pub proof fn other_parts_keep_their_bytes(
    base: u64,
    given: SubAllocationModel,
    other: SubAllocationModel,
    host: spec_fn(int) -> u8,
    bytes: Seq<u8>,
)
    requires
        given.mapped_ptr matches Some(address) && address == base + given.offset,
        other.mapped_ptr matches Some(address) && address == base + other.offset,
        given.offset + given.size <= other.offset || other.offset + other.size <= given.offset,
    ensures
        ({
            let slice = given.mapped_slice()->0;
            let beside = other.mapped_slice()->0;
            contents(written(host, slice, bytes), beside) == contents(host, beside)
        }),
{
    let slice = given.mapped_slice()->0;
    let beside = other.mapped_slice()->0;
    assert(contents(written(host, slice, bytes), beside) =~= contents(host, beside));
}

} // verus!
