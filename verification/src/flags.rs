use ash::vk;
use vstd::prelude::*;

verus! {

/// Bit of memory that is local to the device.
pub const DEVICE_LOCAL: u32 = 1;

/// Bit of memory that the host can map.
pub const HOST_VISIBLE: u32 = 2;

/// Bit of memory that host and device see alike without explicit flushes.
pub const HOST_COHERENT: u32 = 4;

/// Bit of memory that the host caches.
pub const HOST_CACHED: u32 = 8;

/// Every bit of `wanted` is set in `flags`.
pub open spec fn contains(flags: u32, wanted: u32) -> bool {
    flags & wanted == wanted
}

/// `ash::vk::MemoryPropertyFlags::contains` on raw bits: true exactly when all
/// bits of `wanted` are set in `flags`.
#[verifier::external_body]
pub(crate) fn flags_contain(flags: u32, wanted: u32) -> (result: bool)
    ensures
        result == contains(flags, wanted),
{
    vk::MemoryPropertyFlags::from_raw(flags).contains(vk::MemoryPropertyFlags::from_raw(wanted))
}

/// `ash::vk::MemoryPropertyFlags::DEVICE_LOCAL` as raw bits: its value is [`DEVICE_LOCAL`].
#[verifier::external_body]
pub(crate) fn device_local() -> (bits: u32)
    ensures
        bits == DEVICE_LOCAL,
{
    vk::MemoryPropertyFlags::DEVICE_LOCAL.as_raw()
}

/// `ash::vk::MemoryPropertyFlags::HOST_VISIBLE` as raw bits: its value is [`HOST_VISIBLE`].
#[verifier::external_body]
pub(crate) fn host_visible() -> (bits: u32)
    ensures
        bits == HOST_VISIBLE,
{
    vk::MemoryPropertyFlags::HOST_VISIBLE.as_raw()
}

/// `ash::vk::MemoryPropertyFlags::HOST_COHERENT` as raw bits: its value is [`HOST_COHERENT`].
#[verifier::external_body]
pub(crate) fn host_coherent() -> (bits: u32)
    ensures
        bits == HOST_COHERENT,
{
    vk::MemoryPropertyFlags::HOST_COHERENT.as_raw()
}

/// `ash::vk::MemoryPropertyFlags::HOST_CACHED` as raw bits: its value is [`HOST_CACHED`].
#[verifier::external_body]
pub(crate) fn host_cached() -> (bits: u32)
    ensures
        bits == HOST_CACHED,
{
    vk::MemoryPropertyFlags::HOST_CACHED.as_raw()
}

/// `ash::vk::MemoryPropertyFlags::empty` as raw bits: no bit is set.
#[verifier::external_body]
pub(crate) fn no_flags() -> (bits: u32)
    ensures
        bits == 0,
{
    vk::MemoryPropertyFlags::empty().as_raw()
}

} // verus!
