# tyrne

Core of a capability-based microkernel with its contracts proved by Verus:
page-table descriptor encoding, the physical memory manager, a
generation-tagged object arena, capability tables, endpoint IPC, address
spaces gated by capabilities, and a loader that maps a raw-flat user image
into a fresh address space (with rollback on failure).

Layout:

- `src/hal` — addresses, frames, mapping flags, the `Mmu` contract, and the
  `VMSAv8` descriptor encodings.
- `src/mm` — physical frame ranges, the PMM, and address spaces.
- `src/obj` — the arena, tasks, endpoints, notifications and the loader.
- `src/cap.rs`, `src/ipc.rs` — capabilities and IPC.
- `src/bsp` — the QEMU `virt` page-table walk decisions.
- `src/test_hal.rs` — an in-memory `Mmu` and frame providers for host use.
- `app/` — glue that touches physical memory, system registers and the TLB:
  the QEMU board's `Mmu` implementation, which runs the verified page-table
  walk over physical memory, and the clearing and filling of frames.
