//! AArch64: machine tables, device register values and exception decisions.

use vstd::prelude::*;

pub mod acpi;
pub mod boot;
pub mod cache;
pub mod efi;
pub mod exception;
pub mod fault;
pub mod fdt;
pub mod gic;
pub mod laws;
pub mod machine;
pub mod mmu;
pub mod monitor;
pub mod psci;
pub mod timer;
pub mod uart;

verus! {

/// A 32-bit device register and the value to write to it.
#[derive(Debug, Clone, Copy, PartialEq, Eq, Structural)]
pub struct RegWrite {
    pub addr: u64,
    pub val: u32,
}

/// A subsystem that is initialised at boot.
#[derive(Debug, Clone, Copy, PartialEq, Eq, Structural)]
pub enum InitStep {
    /// The UART.
    Uart,
    /// The UART as the log backend.
    Logger,
    /// The exception vectors.
    Vectors,
    /// TCR and MAIR, with the MMU off.
    Mmu,
    /// The interrupt controller.
    Gic,
    /// The timer, disarmed.
    Timer,
}

/// The subsystems in dependency order: the log first, so that the others can use
/// it, then the vectors, so that faults are caught.
pub fn init() -> (r: Vec<InitStep>)
    ensures
        r@ == seq![
            InitStep::Uart,
            InitStep::Logger,
            InitStep::Vectors,
            InitStep::Mmu,
            InitStep::Gic,
            InitStep::Timer,
        ],
{
    let r = vec![
        InitStep::Uart,
        InitStep::Logger,
        InitStep::Vectors,
        InitStep::Mmu,
        InitStep::Gic,
        InitStep::Timer,
    ];
    assert(r@ =~= seq![
        InitStep::Uart,
        InitStep::Logger,
        InitStep::Vectors,
        InitStep::Mmu,
        InitStep::Gic,
        InitStep::Timer,
    ]);
    r
}

} // verus!
