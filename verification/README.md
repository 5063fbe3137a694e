# Tanix

The logic of a small AArch64 microkernel, written in Rust and proved with Verus.

`src/` holds the verified library. It decides; it does not touch hardware. Memory, page
tables, task tables and guest queues are values that its functions take and change, and
whatever the hardware has to do comes back as plain data: register writes, context switches,
calls to the firmware, steps of the boot.

- `mem`: frame allocator, page tables, address spaces, the identity map, page faults
- `sched`: task table, scheduling points, the invariant that no two CPUs run one task
- `ipc`: messages between tasks, channels, frames and devices for tasks, system calls
- `server`: the servers that the kernel starts, their regions and device windows
- `smp`, `irq`, `sync`: CPUs, pending interrupts, locks
- `hypervisor`, `vm`, `virtio`: guests, their message queues and doorbells, image loading,
  the rotation of co-tenants, shared-memory queues
- `arch::aarch64`: exceptions, interrupt controller, timer, UART, caches, MMU, device tree,
  ACPI and UEFI tables, and the EL3 monitor with its secure services
- `boot`, `panic`: the boot plan and the last words
- `bits`, `bytes`, `numbers`, `text`: small helpers

Functions named `law_…` are proof functions that state what holds across calls: what a
receive returns of a send, that a freed frame can be handed out again, that an unsealed text
is the sealed one, that every runnable task gets its turn.

`app/` is the ordinary Rust around the library: entry points, assembly, device access and the
loops that carry out what the library decided. `tests/` runs the library on concrete values.
