//! An allocator for device memory: it groups device memory objects into blocks by memory
//! type, and leaves it to sub-allocators to hand out parts of the blocks.
//!
//! The allocator itself makes no call on a device or a sub-allocator. An operation that
//! needs one stops with a [`protocol::Request`], and goes on once it is handed the
//! [`protocol::Reply`].

pub mod allocator;
pub mod error;
pub mod flags;
pub mod laws;
pub mod memory_block;
pub mod memory_type;
pub mod progress;
pub mod protocol;
pub mod search;
mod stack_trace;
pub mod sub_allocation;
pub mod types;
