//! Memory management subsystem.

use vstd::prelude::*;

pub mod address_space;
pub mod frame;
pub mod identity;
pub mod laws;
pub mod mapping;
pub mod page_table;
pub mod ram;
pub mod range_laws;
pub mod tables;
pub mod vm_fault;
pub mod windows;

verus! {

/// Physical address.
pub type PhysAddr = u64;

/// Virtual address.
pub type VirtAddr = u64;

/// Page size (4 KiB).
pub const PAGE_SIZE: u64 = 4096;

} // verus!
