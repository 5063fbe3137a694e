//! What the monitor does when a CPU resets into it.

use vstd::prelude::*;
use vstd::utf8::encode_utf8;
use crate::arch::aarch64::machine::Machine;
use crate::arch::aarch64::monitor::cipher::{splitmix, splitmix64};
use crate::arch::aarch64::monitor::keybox::Keybox;
use crate::arch::aarch64::monitor::store::{SecureStore, STORE_SLOTS};
use crate::arch::aarch64::monitor::SecureData;
use crate::arch::aarch64::RegWrite;
use crate::bytes::append;
use crate::numbers::{hex_digits, push_hex_digits};

verus! {

/// SCR_EL3: non-secure below, HVC enabled, AArch64; SMC traps.
pub const SCR: u64 = 0x501;

/// CPTR_EL3: nothing traps.
pub const CPTR: u64 = 0x33f;

/// Counter frequency where the firmware set none.
pub const DEFAULT_FREQ: u64 = 1_000_000_000;

/// GICD_CTLR: all groups and affinity routing.
pub const GICD_ENABLE: u32 = 0x1F;

/// GICR_IGROUPR0: SGIs 0 to 14 and the timer interrupt for the kernel; the rest is secure.
pub const KERNEL_GROUP: u32 = 0x4000_7FFF;

/// GICR_ISENABLER0: all SGIs and both timer interrupts.
pub const ENABLED: u32 = 0x6000_FFFF;

/// GICR_ISENABLER0: the secure timer's interrupt.
pub const SECURE_TIMER_BIT: u32 = 0x2000_0000;

/// Saved state of an exception level to be entered: EL2 with interrupts masked.
pub const SPSR_EL2: u64 = 0x3c9;

/// EL1 with interrupts masked.
pub const SPSR_EL1: u64 = 0x3c5;

/// A step of the monitor's boot.
#[derive(Debug, Clone, Copy, PartialEq, Eq, Structural)]
pub enum El3Step {
    /// VBAR_EL3 is the monitor's vectors.
    Vectors,
    Scr(u64),
    Cptr(u64),
    Mdcr(u64),
    Sctlr(u64),
    /// ICC_SRE_EL3.
    Sre(u64),
    /// ICC_PMR_EL1.
    Pmr(u64),
    Isb,
    /// CNTFRQ_EL0.
    Freq(u64),
    Write(RegWrite),
    /// Until bit 2 of the register is clear.
    AwaitAwake(u64),
}

/// What a resetting CPU is told of.
#[derive(Debug, Clone, Copy)]
pub struct ResetState {
    pub cpu: u64,
    /// Counter frequency, 0 if unset.
    pub freq: u64,
    /// GICR_WAKER of the CPU.
    pub waker: u32,
}

/// Where a CPU goes from the monitor.
#[derive(Debug, Clone, Copy, PartialEq, Eq, Structural)]
pub enum Leave {
    /// To the loop that waits for a command; with this saved state.
    Park(u64),
    /// Through EL2, with the first saved state, to the kernel at EL1, with the second.
    Kernel(u64, u64),
}

/// Redistributor of a CPU.
pub open spec fn redist(m: Machine, cpu: int) -> int {
    m.gic_redist_base + cpu * m.gic_redist_stride
}

/// The steps of every CPU.
pub open spec fn el3_steps(m: Machine, st: ResetState) -> Seq<El3Step> {
    let r = redist(m, st.cpu as int);
    seq![
        El3Step::Vectors,
        El3Step::Scr(SCR),
        El3Step::Cptr(CPTR),
        El3Step::Mdcr(0),
        El3Step::Sctlr(0),
        El3Step::Sre(1),
        El3Step::Pmr(0xFF),
        El3Step::Isb,
    ] + (if st.freq == 0 {
        seq![El3Step::Freq(DEFAULT_FREQ)]
    } else {
        Seq::empty()
    }) + seq![
        El3Step::Write(RegWrite { addr: m.gic_dist_base, val: GICD_ENABLE }),
        El3Step::Write(RegWrite { addr: (r + 0x14) as u64, val: st.waker & !2u32 }),
        El3Step::AwaitAwake((r + 0x14) as u64),
        El3Step::Write(RegWrite { addr: (r + 0x1_0080) as u64, val: KERNEL_GROUP }),
        El3Step::Write(RegWrite { addr: (r + 0x1_0E00) as u64, val: 0xFFFF_FFFF }),
        El3Step::Write(RegWrite { addr: (r + 0x1_0100) as u64, val: ENABLED }),
    ]
}

/// Registers that a CPU sets up when it resets into the monitor.
pub fn el3_setup(m: &Machine, st: ResetState) -> (r: Vec<El3Step>)
    requires
        redist(*m, st.cpu as int) + 0x2_0000 <= u64::MAX,
    ensures
        r@ == el3_steps(*m, st),
{
    let base: u64 = m.gic_redist_base + st.cpu * m.gic_redist_stride;
    let mut r: Vec<El3Step> = Vec::new();
    r.push(El3Step::Vectors);
    r.push(El3Step::Scr(SCR));
    r.push(El3Step::Cptr(CPTR));
    r.push(El3Step::Mdcr(0));
    r.push(El3Step::Sctlr(0));
    r.push(El3Step::Sre(1));
    r.push(El3Step::Pmr(0xFF));
    r.push(El3Step::Isb);
    if st.freq == 0 {
        r.push(El3Step::Freq(DEFAULT_FREQ));
    }
    r.push(El3Step::Write(RegWrite { addr: m.gic_dist_base, val: GICD_ENABLE }));
    r.push(El3Step::Write(RegWrite { addr: base + 0x14, val: st.waker & !2u32 }));
    r.push(El3Step::AwaitAwake(base + 0x14));
    r.push(El3Step::Write(RegWrite { addr: base + 0x1_0080, val: KERNEL_GROUP }));
    r.push(El3Step::Write(RegWrite { addr: base + 0x1_0E00, val: 0xFFFF_FFFF }));
    r.push(El3Step::Write(RegWrite { addr: base + 0x1_0100, val: ENABLED }));
    assert(r@ =~= el3_steps(*m, st));
    r
}

/// `x` rotated left by 17 bits.
pub open spec fn rotated(x: u64) -> u64 {
    (x << 17) | (x >> 47)
}

/// The secret that is made when the counter reads `counter`.
pub open spec fn minted(counter: u64) -> u64 {
    rotated(splitmix(counter ^ 0x9E37_79B9_7F4A_7C15)).wrapping_add(0x5BEE_6EFE_9408_A19C)
}

/// Where the secure world goes: to secure RAM, or it stays where it was linked.
pub open spec fn payload_target(m: Machine, linked: u64) -> u64 {
    if m.secure_ram_base != 0 {
        m.secure_ram_base
    } else {
        linked
    }
}

/// The installation of the secure world by the first CPU.
pub struct Install {
    /// Where the payload is copied to.
    pub target: u64,
    pub data: SecureData,
    /// Enables the secure timer's interrupt.
    pub timer: RegWrite,
}

/// The secure world as it is installed: nothing stored, no keys, a new secret.
pub open spec fn fresh_world(m: Machine, counter: u64, d: SecureData) -> bool {
    &&& d.wf()
    &&& d.iters == 0
    &&& d.round == 0
    &&& d.uart == if m.secure_uart_base != 0 {
        m.secure_uart_base
    } else {
        m.uart_base
    }
    &&& d.ticks == 0
    &&& d.counter == 0
    &&& d.measure == 0
    &&& d.secret == minted(counter)
    &&& forall|i: int| 0 <= i < STORE_SLOTS ==> !(#[trigger] d.store.slots@[i]).occupied()
    &&& forall|id: u64| !#[trigger] d.keybox.has_key(id)
}

/// What the monitor does when a CPU resets.
pub struct El3Boot {
    pub steps: Vec<El3Step>,
    pub cpu_count: u64,
    /// On the first CPU only.
    pub install: Option<Install>,
    pub leave: Leave,
}

fn install(m: &Machine, cpu: u64, linked: u64, counter: u64) -> (r: Install)
    requires
        redist(*m, cpu as int) + 0x2_0000 <= u64::MAX,
    ensures
        r.target == payload_target(*m, linked),
        fresh_world(*m, counter, r.data),
        r.timer.addr == redist(*m, cpu as int) + 0x1_0100,
        r.timer.val == SECURE_TIMER_BIT,
{
    let mixed: u64 = splitmix64(counter ^ 0x9E37_79B9_7F4A_7C15);
    let secret: u64 = ((mixed << 17) | (mixed >> 47)).wrapping_add(0x5BEE_6EFE_9408_A19C);
    let uart: u64 = if m.secure_uart_base != 0 {
        m.secure_uart_base
    } else {
        m.uart_base
    };
    Install {
        target: if m.secure_ram_base != 0 {
            m.secure_ram_base
        } else {
            linked
        },
        data: SecureData {
            iters: 0,
            round: 0,
            uart,
            ticks: 0,
            counter: 0,
            measure: 0,
            secret,
            store: SecureStore::new(),
            keybox: Keybox::new(),
        },
        timer: RegWrite {
            addr: m.gic_redist_base + cpu * m.gic_redist_stride + 0x1_0100,
            val: SECURE_TIMER_BIT,
        },
    }
}

/// Boot of a CPU into the monitor.  `ncpus` is the number of CPUs of the device tree (0 if it
/// has none), `linked` the address that the secure world was linked at, `counter` the counter.
///
/// The first CPU installs the secure world and goes on to the kernel; the others park.
pub fn monitor_el3_init(
    m: &Machine,
    st: ResetState,
    is_secondary: bool,
    ncpus: u64,
    linked: u64,
    counter: u64,
) -> (b: El3Boot)
    requires
        redist(*m, st.cpu as int) + 0x2_0000 <= u64::MAX,
    ensures
        b.steps@ == el3_steps(*m, st),
        b.cpu_count == if ncpus != 0 {
            ncpus
        } else {
            1
        },
        if is_secondary {
            b.install is None && b.leave == Leave::Park(SPSR_EL2)
        } else {
            &&& b.leave == Leave::Kernel(SPSR_EL2, SPSR_EL1)
            &&& b.install matches Some(i) && i.target == payload_target(*m, linked) && fresh_world(
                *m,
                counter,
                i.data,
            ) && i.timer.addr == redist(*m, st.cpu as int) + 0x1_0100 && i.timer.val
                == SECURE_TIMER_BIT
        },
{
    let steps = el3_setup(m, st);
    let cpu_count: u64 = if ncpus != 0 {
        ncpus
    } else {
        1
    };
    if is_secondary {
        El3Boot { steps, cpu_count, install: None, leave: Leave::Park(SPSR_EL2) }
    } else {
        El3Boot {
            steps,
            cpu_count,
            install: Some(install(m, st.cpu, linked, counter)),
            leave: Leave::Kernel(SPSR_EL2, SPSR_EL1),
        }
    }
}

/// `0x` and 16 digits.
pub open spec fn el3_hex(v: u64) -> Seq<u8> {
    encode_utf8("0x"@) + hex_digits(v as nat, 16)
}

/// A tag and a number.
pub open spec fn tagged(tag: Seq<char>, v: u64) -> Seq<u8> {
    encode_utf8(tag) + el3_hex(v)
}

fn push_tagged(out: &mut Vec<u8>, tag: &str, v: u64)
    ensures
        final(out)@ == old(out)@ + tagged(tag@, v),
{
    let ghost pre = out@;
    append(out, tag.as_bytes());
    append(out, "0x".as_bytes());
    push_hex_digits(out, v, 16);
    assert(out@ =~= pre + tagged(tag@, v));
}

/// The text over a call, from the registers that were saved: x0 to x30, then the stack
/// pointer, the return address and the saved state.
pub fn el3_dbg_ctx(ctx: &[u64]) -> (r: Vec<u8>)
    requires
        ctx@.len() >= 34,
    ensures
        r@ == tagged("EL3 SMC fn="@, ctx@[0]) + tagged(" a1="@, ctx@[1]) + tagged(
            " a2="@,
            ctx@[2],
        ) + tagged(" a3="@, ctx@[3]) + tagged(" x30="@, ctx@[30]) + tagged(" elr="@, ctx@[32])
            + tagged(" sps="@, ctx@[33]) + tagged(" x8="@, ctx@[8]) + tagged(" x9="@, ctx@[9])
            + tagged(" x10="@, ctx@[10]) + tagged(" x21="@, ctx@[21]) + encode_utf8("\r\n"@),
{
    let mut out: Vec<u8> = Vec::new();
    push_tagged(&mut out, "EL3 SMC fn=", ctx[0]);
    assert(out@ =~= tagged("EL3 SMC fn="@, ctx@[0]));
    push_tagged(&mut out, " a1=", ctx[1]);
    push_tagged(&mut out, " a2=", ctx[2]);
    push_tagged(&mut out, " a3=", ctx[3]);
    push_tagged(&mut out, " x30=", ctx[30]);
    push_tagged(&mut out, " elr=", ctx[32]);
    push_tagged(&mut out, " sps=", ctx[33]);
    push_tagged(&mut out, " x8=", ctx[8]);
    push_tagged(&mut out, " x9=", ctx[9]);
    push_tagged(&mut out, " x10=", ctx[10]);
    push_tagged(&mut out, " x21=", ctx[21]);
    append(&mut out, "\r\n".as_bytes());
    out
}

} // verus!
