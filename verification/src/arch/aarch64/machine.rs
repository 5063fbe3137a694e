//! The machines that the kernel boots on.
//!
//! `virt` has 256 MiB of DRAM at 0x4000_0000, a GICv3, one PL011 and virtio-mmio
//! transports.  `sbsa-ref` resets at EL3 and has 1 GiB of DRAM at 1 TiB, a
//! secure PL011 of its own and 512 MiB of secure RAM.  The DRAM window of the
//! table is the fallback where no device tree is passed at boot.

use vstd::prelude::*;
use crate::arch::aarch64::acpi::AcpiInfo;

verus! {

/// Machine ids published to server tasks.
pub const MACHINE_VIRT: u32 = 0;

pub const MACHINE_SBSA_REF: u32 = 1;

/// Addresses of a machine's devices and memory.
#[derive(Debug, Clone, Copy, PartialEq, Eq, Structural)]
pub struct Machine {
    pub id: u32,
    /// DRAM base.
    pub dram_base: u64,
    /// DRAM size.
    pub dram_size: u64,
    /// PL011 of the kernel log.
    pub uart_base: u64,
    /// PL011 of the secure world.
    pub secure_uart_base: u64,
    /// GICv3 distributor.
    pub gic_dist_base: u64,
    /// First GICv3 redistributor.
    pub gic_redist_base: u64,
    pub gic_redist_stride: u64,
    /// virtio-mmio transport window (0 is none).
    pub virtio_mmio_base: u64,
    /// Secure RAM (0 is none).
    pub secure_ram_base: u64,
    pub secure_ram_size: u64,
}

/// The `virt` machine.
pub open spec fn virt() -> Machine {
    Machine {
        id: MACHINE_VIRT,
        dram_base: 0x4000_0000,
        dram_size: 0x1000_0000,
        uart_base: 0x0900_0000,
        secure_uart_base: 0x0900_0000,
        gic_dist_base: 0x0800_0000,
        gic_redist_base: 0x080A_0000,
        gic_redist_stride: 0x2_0000,
        virtio_mmio_base: 0x0A00_0000,
        secure_ram_base: 0,
        secure_ram_size: 0,
    }
}

/// The `sbsa-ref` machine.
pub open spec fn sbsa_ref() -> Machine {
    Machine {
        id: MACHINE_SBSA_REF,
        dram_base: 0x100_0000_0000,
        dram_size: 0x4000_0000,
        uart_base: 0x6000_0000,
        secure_uart_base: 0x6003_0000,
        gic_dist_base: 0x4006_0000,
        gic_redist_base: 0x4008_0000,
        gic_redist_stride: 0x2_0000,
        virtio_mmio_base: 0,
        secure_ram_base: 0x2000_0000,
        secure_ram_size: 0x2000_0000,
    }
}

/// The table of the machine that the kernel is built for.
pub fn machine(sbsa: bool) -> (m: Machine)
    ensures
        m == if sbsa {
            sbsa_ref()
        } else {
            virt()
        },
{
    if sbsa {
        Machine {
            id: MACHINE_SBSA_REF,
            dram_base: 0x100_0000_0000,
            dram_size: 0x4000_0000,
            uart_base: 0x6000_0000,
            secure_uart_base: 0x6003_0000,
            gic_dist_base: 0x4006_0000,
            gic_redist_base: 0x4008_0000,
            gic_redist_stride: 0x2_0000,
            virtio_mmio_base: 0,
            secure_ram_base: 0x2000_0000,
            secure_ram_size: 0x2000_0000,
        }
    } else {
        Machine {
            id: MACHINE_VIRT,
            dram_base: 0x4000_0000,
            dram_size: 0x1000_0000,
            uart_base: 0x0900_0000,
            secure_uart_base: 0x0900_0000,
            gic_dist_base: 0x0800_0000,
            gic_redist_base: 0x080A_0000,
            gic_redist_stride: 0x2_0000,
            virtio_mmio_base: 0x0A00_0000,
            secure_ram_base: 0,
            secure_ram_size: 0,
        }
    }
}

/// True for the SBSA reference platform.
pub fn is_sbsa_ref(m: &Machine) -> (r: bool)
    ensures
        r == (m.id == MACHINE_SBSA_REF),
{
    m.id == MACHINE_SBSA_REF
}

/// What the tables say of a base, else what the machine's own table says.
pub open spec fn described(found: u64, otherwise: u64) -> u64 {
    if found != 0 {
        found
    } else {
        otherwise
    }
}

/// The machine with the device addresses that the firmware's tables give.
pub fn set_from_acpi(m: &Machine, info: &AcpiInfo) -> (r: Machine)
    ensures
        r == (Machine {
            gic_dist_base: described(info.gic_dist_base, m.gic_dist_base),
            gic_redist_base: described(info.gic_redist_base, m.gic_redist_base),
            uart_base: described(info.uart_base, m.uart_base),
            ..*m
        }),
{
    Machine {
        gic_dist_base: if info.gic_dist_base != 0 {
            info.gic_dist_base
        } else {
            m.gic_dist_base
        },
        gic_redist_base: if info.gic_redist_base != 0 {
            info.gic_redist_base
        } else {
            m.gic_redist_base
        },
        uart_base: if info.uart_base != 0 {
            info.uart_base
        } else {
            m.uart_base
        },
        ..*m
    }
}

/// What the firmware describes is taken, what it leaves at 0 stays as built in.
pub proof fn law_description_wins(found: u64, otherwise: u64)
    ensures
        found == 0 ==> described(found, otherwise) == otherwise,
        found > 0 ==> described(found, otherwise) == found,
{
}

/// The two machines: 256 MiB of memory at 1 GiB, with a virtio window and no secure memory, and
/// 1 GiB at 1 TiB, with 512 MiB of secure memory and no window.  On both no device lies in
/// memory.
pub proof fn law_machine_layouts()
    ensures
        virt().id == 0 && sbsa_ref().id == 1,
        virt().dram_base == 1024 * 1024 * 1024 && virt().dram_size == 256 * 1024 * 1024,
        sbsa_ref().dram_base == 1024 * 1024 * 1024 * 1024 && sbsa_ref().dram_size == 1024 * 1024
            * 1024,
        virt().gic_redist_stride == 128 * 1024 && sbsa_ref().gic_redist_stride == 128 * 1024,
        virt().uart_base + 0x1000 <= virt().virtio_mmio_base < virt().dram_base,
        virt().gic_dist_base < virt().gic_redist_base < virt().uart_base,
        virt().secure_ram_size == 0,
        sbsa_ref().secure_ram_base == 512 * 1024 * 1024 && sbsa_ref().secure_ram_size == 512 * 1024
            * 1024,
        sbsa_ref().secure_ram_base + sbsa_ref().secure_ram_size <= sbsa_ref().gic_dist_base
            < sbsa_ref().gic_redist_base < sbsa_ref().uart_base < sbsa_ref().secure_uart_base
            < sbsa_ref().dram_base,
        sbsa_ref().virtio_mmio_base == 0,
{
}

} // verus!
