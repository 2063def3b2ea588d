# gpu_allocator

An allocator for device memory, verified with Verus.

The allocator keeps, for each memory type of a device, blocks of device memory, and hands out
parts of them. It decides which memory type serves a request, in which order the blocks are
asked for room, when a block is created, mapped or destroyed, and what a request comes to.
Small requests share general blocks of a fixed size; a request that is larger than such a block
gets a dedicated one.

It makes no call on a device or on a sub-allocator itself. An operation that needs one stops with
a request and goes on when it is handed the reply, so all its decisions are functions of plain
values and are proved for every reply.

- `src/` is the verified library. `allocator.rs`, `memory_type.rs` and `memory_block.rs` hold the
  operations, `protocol.rs` the requests and replies, `laws/` what holds of the library as a whole.
- `app/` runs the library against a Vulkan device.
- `tests/` runs the library against a simulated device.

Some of the laws hold whatever the device and the sub-allocators reply: over the whole life of an
allocator, every memory object and every mapping is given back exactly once (`laws/life.rs`).
Others rest on promises of those outside the library, which each law names:

- A block stays while a part of it is out (`laws/custody.rs`) if no sub-allocator says that it is
  empty while a part of its block is out.
- Allocations do not overlap (`laws/separation.rs`) if, besides, each sub-allocator gives parts of
  its block that do not overlap, and the device grants no handle again before it is freed.
- Once everything is freed, at most one block per memory type is left (`laws/upkeep.rs`), if the
  sub-allocators count their parts rightly, tell truly when they are empty and what they are, and
  meet the request that their block was created for, and if nothing is handed back that is not out.
- A small request to a new allocator, once met and freed, leaves exactly its one general block
  (`laws/round_trip.rs`), if the sub-allocators count rightly and no refusal makes an upload turn
  to another block.
- Memory that the host can see is mapped (`laws/mapping.rs`) if the device maps nothing to the null
  address.
