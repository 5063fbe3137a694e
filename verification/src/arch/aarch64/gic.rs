//! GICv3 register values.
//!
//! The kernel runs non-secure, so every interrupt is configured as Group 1NS.
//! SGIs and PPIs (0 to 31) are banked per CPU in its redistributor; SPIs (32 to
//! 1019) live in the distributor.

use vstd::prelude::*;
use crate::arch::aarch64::RegWrite;

verus! {

pub const GICD_BASE: u64 = 0x0800_0000;

/// Distributor control.
pub const GICD_CTLR: u64 = 0x0800_0000;

/// Group, one bit per interrupt.
pub const GICD_IGROUPR: u64 = 0x0800_0080;

/// Set-enable, one bit per interrupt.
pub const GICD_ISENABLER: u64 = 0x0800_0100;

/// Clear-enable, one bit per interrupt.
pub const GICD_ICENABLER: u64 = 0x0800_0180;

pub const GICR_BASE: u64 = 0x080A_0000;

/// Distance between the redistributors of two CPUs.
pub const GICR_STRIDE: u64 = 0x2_0000;

/// Wake register, relative to a redistributor.
pub const GICR_WAKER: u64 = 0x014;

/// Group of the SGIs and PPIs, relative to a redistributor.
pub const GICR_IGROUPR0: u64 = 0x1_0080;

pub const GICR_ISENABLER0: u64 = 0x1_0100;

pub const GICR_ICENABLER0: u64 = 0x1_0180;

/// Address of the redistributor of `cpu`.
pub fn gicr_base(cpu: usize) -> (a: u64)
    requires
        cpu < 256,
    ensures
        a == GICR_BASE + cpu * GICR_STRIDE,
{
    GICR_BASE + cpu as u64 * GICR_STRIDE
}

/// The interrupt is wired: a PPI or an SPI.
pub open spec fn wired(intid: u32) -> bool {
    16 <= intid <= 1019
}

/// The interrupt's bit in its register.
pub open spec fn irq_bit(intid: u32) -> u32 {
    1u32 << (intid % 32)
}

/// Address of the register that holds the interrupt's bit: the redistributor
/// one for a PPI, a word of the distributor bank for an SPI.
pub open spec fn bank_addr(cpu: int, intid: u32, redist: u64, dist: u64) -> int {
    if intid < 32 {
        GICR_BASE + cpu * GICR_STRIDE + redist
    } else {
        dist + (intid / 32) * 4
    }
}

fn bit_of(intid: u32) -> (b: u32)
    ensures
        b == irq_bit(intid),
{
    1u32 << (intid % 32)
}

fn bank(cpu: usize, intid: u32, redist: u64, dist: u64) -> (a: u64)
    requires
        cpu < 256,
        redist <= 0x2_0000,
        dist <= 0x0900_0000,
        intid <= 1019,
    ensures
        a == bank_addr(cpu as int, intid, redist, dist),
{
    if intid < 32 {
        gicr_base(cpu) + redist
    } else {
        dist + (intid / 32) as u64 * 4
    }
}

/// Register to read before [`enable_irq`]: the interrupt's group register.
pub fn group_reg(cpu: usize, intid: u32) -> (r: Option<u64>)
    requires
        cpu < 256,
    ensures
        match r {
            Some(a) => wired(intid) && a == bank_addr(
                cpu as int,
                intid,
                GICR_IGROUPR0,
                GICD_IGROUPR,
            ),
            None => !wired(intid),
        },
{
    if intid >= 16 && intid <= 1019 {
        Some(bank(cpu, intid, GICR_IGROUPR0, GICD_IGROUPR))
    } else {
        None
    }
}

/// Register writes that enable a wired interrupt as Group 1NS on `cpu`; `igroup`
/// is what the group register holds.
pub fn enable_irq(cpu: usize, intid: u32, igroup: u32) -> (r: Vec<RegWrite>)
    requires
        cpu < 256,
    ensures
        !wired(intid) ==> r@.len() == 0,
        wired(intid) ==> {
            &&& r@.len() == 2
            &&& r@[0].addr == bank_addr(cpu as int, intid, GICR_IGROUPR0, GICD_IGROUPR)
            &&& r@[0].val == igroup | irq_bit(intid)
            &&& r@[1].addr == bank_addr(cpu as int, intid, GICR_ISENABLER0, GICD_ISENABLER)
            &&& r@[1].val == irq_bit(intid)
        },
{
    let mut r: Vec<RegWrite> = Vec::new();
    if intid >= 16 && intid <= 1019 {
        let b: u32 = bit_of(intid);
        r.push(
            RegWrite { addr: bank(cpu, intid, GICR_IGROUPR0, GICD_IGROUPR), val: igroup | b },
        );
        r.push(RegWrite { addr: bank(cpu, intid, GICR_ISENABLER0, GICD_ISENABLER), val: b });
    }
    r
}

/// Register write that disables a wired interrupt on `cpu`.
pub fn disable_irq(cpu: usize, intid: u32) -> (r: Option<RegWrite>)
    requires
        cpu < 256,
    ensures
        match r {
            Some(w) => {
                &&& wired(intid)
                &&& w.addr == bank_addr(cpu as int, intid, GICR_ICENABLER0, GICD_ICENABLER)
                &&& w.val == irq_bit(intid)
            },
            None => !wired(intid),
        },
{
    if intid >= 16 && intid <= 1019 {
        Some(
            RegWrite {
                addr: bank(cpu, intid, GICR_ICENABLER0, GICD_ICENABLER),
                val: bit_of(intid),
            },
        )
    } else {
        None
    }
}

/// ICC_SGI1R_EL1 value that sends SGI `intid` to `target_cpu`: the interrupt in
/// bits [27:24], one target bit in [15:0].
pub fn send_sgi(target_cpu: usize, intid: u32) -> (v: u64)
    ensures
        v == (((intid & 0xF) as u64) << 24u64) | (1u64 << ((target_cpu & 0xF) as u64)),
{
    assert(target_cpu & 0xF <= 15) by (bit_vector);
    (((intid & 0xF) as u64) << 24u64) | (1u64 << ((target_cpu & 0xF) as u64))
}

/// A step of the per-CPU GIC initialisation.
#[derive(Debug, Clone, Copy, PartialEq, Eq, Structural)]
pub enum GicStep {
    /// Write a register.
    Write(RegWrite),
    /// Wait until the wake register at the address reads awake.
    WaitAwake(u64),
    /// Write ICC_SRE_EL1.
    SetSre(u64),
    /// Write ICC_IGRPEN1_EL1.
    SetGroupEnable(u64),
    /// Write ICC_PMR_EL1.
    SetPriorityMask(u64),
}

/// True while a wake register value says that the redistributor still sleeps
/// (ChildrenAsleep, bit 2).
pub fn still_asleep(waker: u32) -> (r: bool)
    ensures
        r == (waker & 4 != 0),
{
    waker & 4 != 0
}

/// The steps of [`init`].
pub open spec fn init_steps(cpu: int, waker: u32) -> Seq<GicStep> {
    let base = GICR_BASE + cpu * GICR_STRIDE;
    seq![
        GicStep::Write(RegWrite { addr: (base + GICR_WAKER) as u64, val: waker & !2u32 }),
        GicStep::WaitAwake((base + GICR_WAKER) as u64),
        GicStep::Write(RegWrite { addr: GICD_CTLR, val: 0x17 }),
        GicStep::Write(RegWrite { addr: (base + GICR_IGROUPR0) as u64, val: 0xFFFF }),
        GicStep::Write(RegWrite { addr: (base + GICR_ISENABLER0) as u64, val: 0xFFFF }),
        GicStep::SetSre(1),
        GicStep::SetGroupEnable(1),
        GicStep::SetPriorityMask(0xFF),
    ]
}

/// Steps that initialise the GIC for `cpu`, whose wake register reads `waker`:
/// wake the redistributor (ProcessorSleep, bit 1, cleared), enable the
/// distributor with affinity routing and both Group 1 enables, enable the CPU's
/// SGIs as Group 1NS, then the CPU interface with every priority unmasked.
pub fn init(cpu: usize, waker: u32) -> (r: Vec<GicStep>)
    requires
        cpu < 256,
    ensures
        r@ == init_steps(cpu as int, waker),
{
    let base: u64 = gicr_base(cpu);
    let r = vec![
        GicStep::Write(RegWrite { addr: base + GICR_WAKER, val: waker & !2u32 }),
        GicStep::WaitAwake(base + GICR_WAKER),
        GicStep::Write(RegWrite { addr: GICD_CTLR, val: 0x17 }),
        GicStep::Write(RegWrite { addr: base + GICR_IGROUPR0, val: 0xFFFF }),
        GicStep::Write(RegWrite { addr: base + GICR_ISENABLER0, val: 0xFFFF }),
        GicStep::SetSre(1),
        GicStep::SetGroupEnable(1),
        GicStep::SetPriorityMask(0xFF),
    ];
    assert(r@ =~= init_steps(cpu as int, waker));
    r
}

/// Wake register of `cpu`, to be read before [`init`].
pub fn waker_reg(cpu: usize) -> (a: u64)
    requires
        cpu < 256,
    ensures
        a == GICR_BASE + cpu * GICR_STRIDE + GICR_WAKER,
{
    gicr_base(cpu) + GICR_WAKER
}

proof fn lemma_one_bit(k: u32, j: u32)
    by (bit_vector)
    requires
        k < 32,
        j < 32,
    ensures
        (1u32 << k) >> j & 1 == 1 <==> j == k,
{
}

/// Each interrupt from 16 to 1019 has one bit of its own: those below 32 in the CPU's
/// redistributor, the others, 32 to a register, in the distributor.
pub proof fn law_interrupts_have_their_bit(cpu: int, intid: u32, redist: u64, dist: u64, j: u32)
    requires
        j < 32,
    ensures
        wired(intid) <==> intid >= 16 && intid < 1020,
        irq_bit(intid) >> j & 1 == 1 <==> intid % 32 == j,
        intid < 32 ==> bank_addr(cpu, intid, redist, dist) == 0x080A_0000 + 131072 * cpu + redist,
        intid >= 32 ==> bank_addr(cpu, intid, redist, dist) == dist + 4 * (intid as int / 32),
{
    lemma_one_bit(intid % 32, j);
}

proof fn lemma_awake(waker: u32)
    by (bit_vector)
    ensures
        (waker & !2u32) & 2 == 0,
        (waker & !2u32) | 2 == waker | 2,
{
}

/// Setting up the controller for a CPU: its redistributor is woken first and waited for, then
/// the distributor is enabled, then all its 16 software interrupts are, and at last the CPU
/// takes interrupts of every priority.
pub proof fn law_controller_set_up(cpu: int, waker: u32)
    requires
        0 <= cpu < 256,
    ensures
        ({
            let s = init_steps(cpu, waker);
            let base = 0x080A_0000 + 131072 * cpu;
            &&& s.len() == 8
            &&& s[0] matches GicStep::Write(w) && w.addr == base + 0x14 && w.val & 2 == 0 && w.val
                | 2 == waker | 2
            &&& s[1] matches GicStep::WaitAwake(a) && a == base + 0x14
            &&& s[2] matches GicStep::Write(w) && w.addr == 0x0800_0000 && w.val == 0x17
            &&& s[3] matches GicStep::Write(w) && w.addr == base + 0x1_0080 && w.val == 0xFFFF
            &&& s[4] matches GicStep::Write(w) && w.addr == base + 0x1_0100 && w.val == 0xFFFF
            &&& s[5] matches GicStep::SetSre(v) && v == 1
            &&& s[6] matches GicStep::SetGroupEnable(v) && v == 1
            &&& s[7] matches GicStep::SetPriorityMask(v) && v == 0xFF
        }),
{
    lemma_awake(waker);
}

} // verus!
