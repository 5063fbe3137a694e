//! Verified core of the Tanix microkernel.

pub mod arch;
pub mod bits;
pub mod boot;
pub mod bytes;
pub mod hypervisor;
pub mod ipc;
pub mod irq;
pub mod mem;
pub mod numbers;
pub mod panic;
pub mod sched;
pub mod server;
pub mod smp;
pub mod sync;
pub mod text;
pub mod virtio;
pub mod vm;
