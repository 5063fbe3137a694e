//! Exceptions: which one it is, what is done about it, and what is reported of a fatal one.

use vstd::prelude::*;
use vstd::utf8::encode_utf8;
use crate::arch::aarch64::gic::{bank_addr, disable_irq, irq_bit, GICD_ICENABLER, GICR_ICENABLER0};
use crate::arch::aarch64::timer::TickCounter;
use crate::arch::aarch64::RegWrite;
use crate::bytes::append;
use crate::hypervisor::backend::{BareMetalBackend, GuestFrame, GuestTick};
use crate::hypervisor::doorbell::{delivered, DoorbellTable, MAX_DOORBELLS};
use crate::hypervisor::{GuestEnv, Hypervisor};
use crate::irq::{marked, note_pending, PendingIrqs, IRQ_MAX};
use crate::mem::page_table::{l0_idx, l1_idx, l2_idx, l3_idx, TableSpace};
use crate::mem::tables::{idx, is_table, Tables};
use crate::mem::PhysAddr;
use crate::numbers::{decimal, hex, hex_digits, push_decimal, push_hex, push_hex_digits};
use crate::sched::run::{
    any_expired, awake, is_switch, moved, tick_slots, tick_target, RunQueue, Switch,
};
use crate::sched::task::in_state;
use crate::sched::TaskState;
use crate::smp::{idle_slot_of, CpuMask, MAX_CPUS};

verus! {

/// HVC instruction.
pub const EC_HVC64: u64 = 0x16;

/// Instruction abort from a lower exception level.
pub const EC_IABT_LOWER: u64 = 0x20;

/// Data abort from a lower exception level.
pub const EC_DABT_LOWER: u64 = 0x24;

/// Exception class: bits 31 to 26 of the syndrome.
pub open spec fn class_of(esr: u64) -> int {
    esr as int / 0x400_0000 % 64
}

/// Exception class of a syndrome.
pub fn esr_ec(esr: u64) -> (ec: u64)
    ensures
        ec == class_of(esr),
{
    assert((esr >> 26) & 0x3F == (esr / 0x400_0000) % 64) by (bit_vector);
    (esr >> 26) & 0x3F
}

/// True if the interrupted context ran at EL0: the mode field of its saved state is 0.
pub fn from_el0(spsr: u64) -> (r: bool)
    ensures
        r == (spsr % 16 == 0),
{
    assert(spsr & 0xF == spsr % 16) by (bit_vector);
    spsr & 0xF == 0
}

/// What is done about a synchronous exception from a lower level.
#[derive(Debug, Clone, Copy, PartialEq, Eq, Structural)]
pub enum SyncAction {
    /// A guest calls a service.
    Serve,
    /// A task touched memory it may not: repair the fault, else kill the task.
    Repair,
    /// A task did something else that it may not: kill it.
    Kill,
    /// A guest touched memory it may not: report and park it.
    ParkGuest,
    /// The kernel cannot go on: data abort.
    Abort,
    /// The kernel cannot go on: anything else.
    Unhandled,
}

/// The action for a syndrome, the saved state `spsr` of the interrupted context, and whether
/// a guest is running.
pub open spec fn sync_action_of(esr: u64, spsr: u64, guest: bool) -> SyncAction {
    if class_of(esr) == EC_HVC64 {
        SyncAction::Serve
    } else if class_of(esr) == EC_DABT_LOWER {
        if spsr % 16 == 0 {
            SyncAction::Repair
        } else if guest {
            SyncAction::ParkGuest
        } else {
            SyncAction::Abort
        }
    } else if spsr % 16 == 0 {
        SyncAction::Kill
    } else {
        SyncAction::Unhandled
    }
}

/// Decide what is done about a synchronous exception.
pub fn sync_action(esr: u64, spsr: u64, guest: bool) -> (a: SyncAction)
    ensures
        a == sync_action_of(esr, spsr, guest),
{
    match esr_ec(esr) {
        EC_HVC64 => SyncAction::Serve,
        EC_DABT_LOWER => {
            if from_el0(spsr) {
                SyncAction::Repair
            } else if guest {
                SyncAction::ParkGuest
            } else {
                SyncAction::Abort
            }
        },
        _ => {
            if from_el0(spsr) {
                SyncAction::Kill
            } else {
                SyncAction::Unhandled
            }
        },
    }
}

/// A task never brings the kernel down: whatever it does, its call is served, its fault
/// repaired, or the task alone is killed.
pub proof fn law_task_faults_are_contained(esr: u64, spsr: u64, guest: bool)
    requires
        spsr % 16 == 0,
    ensures
        ({
            let a = sync_action_of(esr, spsr, guest);
            a == SyncAction::Serve || a == SyncAction::Repair || a == SyncAction::Kill
        }),
{
}

/// A line of a report: a tag and 16 hexadecimal digits.
pub open spec fn raw_line(tag: Seq<char>, v: u64) -> Seq<u8> {
    encode_utf8(tag) + hex_digits(v as nat, 16) + encode_utf8("\n"@)
}

/// Add a line to a report.
pub fn raw_uart_line(out: &mut Vec<u8>, tag: &str, v: u64)
    ensures
        final(out)@ == old(out)@ + raw_line(tag@, v),
{
    let ghost pre = out@;
    append(out, tag.as_bytes());
    push_hex_digits(out, v, 16);
    append(out, "\n".as_bytes());
    assert(out@ =~= pre + raw_line(tag@, v));
}

/// The report of a guest's fault.
pub fn guest_fault_report(esr: u64, elr: u64, far: u64) -> (r: Vec<u8>)
    ensures
        r@ == raw_line("GUESTfault ESR="@, esr) + raw_line("GUESTfault ELR="@, elr) + raw_line(
            "GUESTfault FAR="@,
            far,
        ),
{
    let mut out: Vec<u8> = Vec::new();
    raw_uart_line(&mut out, "GUESTfault ESR=", esr);
    raw_uart_line(&mut out, "GUESTfault ELR=", elr);
    raw_uart_line(&mut out, "GUESTfault FAR=", far);
    assert(out@ =~= raw_line("GUESTfault ESR="@, esr) + raw_line("GUESTfault ELR="@, elr)
        + raw_line("GUESTfault FAR="@, far));
    out
}

/// `ESR=.. ELR=..` as in the texts of fatal exceptions.
pub open spec fn where_text(esr: u64, elr: u64) -> Seq<u8> {
    encode_utf8(" ESR="@) + hex(esr as nat, 8) + encode_utf8(" ELR="@) + hex(elr as nat, 16)
}

pub(crate) fn push_where(out: &mut Vec<u8>, esr: u64, elr: u64)
    ensures
        final(out)@ == old(out)@ + where_text(esr, elr),
{
    let ghost pre = out@;
    append(out, " ESR=".as_bytes());
    push_hex(out, esr, 8);
    append(out, " ELR=".as_bytes());
    push_hex(out, elr, 16);
    assert(out@ =~= pre + where_text(esr, elr));
}

/// Text of the panic over a data abort.
pub fn abort_text(esr: u64, elr: u64, far: u64) -> (r: Vec<u8>)
    ensures
        r@ == encode_utf8("guest abort EC="@) + hex(class_of(esr) as nat, 1) + where_text(esr, elr)
            + encode_utf8(" FAR="@) + hex(far as nat, 16),
{
    let mut out: Vec<u8> = Vec::new();
    append(&mut out, "guest abort EC=".as_bytes());
    push_hex(&mut out, esr_ec(esr), 1);
    push_where(&mut out, esr, elr);
    append(&mut out, " FAR=".as_bytes());
    push_hex(&mut out, far, 16);
    assert(out@ =~= encode_utf8("guest abort EC="@) + hex(class_of(esr) as nat, 1) + where_text(
        esr,
        elr,
    ) + encode_utf8(" FAR="@) + hex(far as nat, 16));
    out
}

/// Text of the panic over an exception that nothing handles.
pub fn unhandled_text(esr: u64, elr: u64) -> (r: Vec<u8>)
    ensures
        r@ == encode_utf8("unhandled sync exception EC="@) + hex(class_of(esr) as nat, 1)
            + where_text(esr, elr),
{
    let mut out: Vec<u8> = Vec::new();
    append(&mut out, "unhandled sync exception EC=".as_bytes());
    push_hex(&mut out, esr_ec(esr), 1);
    push_where(&mut out, esr, elr);
    assert(out@ =~= encode_utf8("unhandled sync exception EC="@) + hex(class_of(esr) as nat, 1)
        + where_text(esr, elr));
    out
}

/// Text of the panic that ends a fatal exception.
pub fn fatal_text(kind: u64, esr: u64, elr: u64, far: u64) -> (r: Vec<u8>)
    ensures
        r@ == encode_utf8("fatal exception kind="@) + decimal(kind as nat) + where_text(esr, elr)
            + encode_utf8(" FAR="@) + hex(far as nat, 16),
{
    let mut out: Vec<u8> = Vec::new();
    append(&mut out, "fatal exception kind=".as_bytes());
    push_decimal(&mut out, kind);
    push_where(&mut out, esr, elr);
    append(&mut out, " FAR=".as_bytes());
    push_hex(&mut out, far, 16);
    assert(out@ =~= encode_utf8("fatal exception kind="@) + decimal(kind as nat) + where_text(
        esr,
        elr,
    ) + encode_utf8(" FAR="@) + hex(far as nat, 16));
    out
}

/// Guard against a fault in the report of a fault.
pub struct FatalGuard {
    pub panicking: bool,
}

impl FatalGuard {
    /// Nothing fatal has happened.
    pub fn new() -> (g: Self)
        ensures
            !g.panicking,
    {
        FatalGuard { panicking: false }
    }

    /// A fatal exception: true if it is the first, which is to be reported; later ones only
    /// park the CPU.
    pub fn enter(&mut self) -> (first: bool)
        ensures
            first == !old(self).panicking,
            final(self).panicking,
    {
        let first: bool = !self.panicking;
        self.panicking = true;
        first
    }
}

/// The descriptors that translate `va` under the table `f`, level by level; 0 below a
/// descriptor that does not lead to a table.
pub open spec fn walk(t: Tables, f: int, va: u64, l: int) -> Seq<u64>
    decreases 4 - l,
{
    if l >= 4 {
        Seq::empty()
    } else {
        let e = t.entry(f, idx(va, l));
        if l < 3 && is_table(e) {
            seq![e] + walk(t, t.target(e), va, l + 1)
        } else {
            seq![e] + Seq::new((3 - l) as nat, |i: int| 0u64)
        }
    }
}

/// The descriptors that translate `va` under `root`, from level 0 to level 3.
pub fn fault_walk(space: &TableSpace, root: PhysAddr, va: u64) -> (r: [u64; 4])
    requires
        space.wf(),
        space@.is_root(root as int),
    ensures
        r@ == walk(space@, space@.frame(root as int), va, 0),
{
    let ghost t = space@;
    let ghost r0 = t.frame(root as int);
    let mut out: [u64; 4] = [0u64;4];
    let mut table: PhysAddr = root;
    let mut l: usize = 0;
    while l < 4
        invariant
            l <= 4,
            t == space@,
            space.wf(),
            t.is_root(root as int),
            r0 == t.frame(root as int),
            l < 4 ==> t.has_frame(table as int) && t.live(t.frame(table as int))
                && t.levels[t.frame(table as int)] == l,
            out@.len() == 4,
            forall|k: int| l <= k < 4 ==> out@[k] == 0,
            l < 4 ==> walk(t, r0, va, 0) == out@.take(l as int) + walk(
                t,
                t.frame(table as int),
                va,
                l as int,
            ),
            l == 4 ==> walk(t, r0, va, 0) == out@,
        decreases 4 - l,
    {
        let i: usize = if l == 0 {
            l0_idx(va)
        } else if l == 1 {
            l1_idx(va)
        } else if l == 2 {
            l2_idx(va)
        } else {
            l3_idx(va)
        };
        let e: u64 = space.read(table, i);
        let ghost before = out@;
        out[l] = e;
        if l == 3 || e & 1 == 0 || e & 2 == 0 {
            assert(walk(t, r0, va, 0) =~= out@);
            return out;
        }
        proof {
            let f = t.frame(table as int);
            assert(t.link(f, i as int));
            assert(before.take(l as int) + (seq![e] + walk(t, t.target(e), va, l + 1)) =~= out@.take(
                l + 1,
            ) + walk(t, t.target(e), va, l + 1));
        }
        table = e & crate::mem::tables::ADDR_MASK;
        l = l + 1;
    }
    out
}

/// Registers of the CPU at a fatal exception.
#[derive(Debug, Clone, Copy)]
pub struct FaultRegs {
    pub ttbr0: u64,
    pub sctlr: u64,
    /// CurrentEL: the level is in bits 3 and 2.
    pub current_el: u64,
}

/// How the report names the vector.
pub open spec fn kind_text(kind: u64) -> Seq<u8> {
    if kind == 4 {
        encode_utf8("cur-sync"@)
    } else if kind == 5 {
        encode_utf8("cur-irq"@)
    } else if kind == 9 {
        encode_utf8("low-irq"@)
    } else {
        raw_line("k="@, kind) + encode_utf8("?"@)
    }
}

fn push_kind(out: &mut Vec<u8>, kind: u64)
    ensures
        final(out)@ == old(out)@ + kind_text(kind),
{
    let ghost pre = out@;
    match kind {
        4 => append(out, "cur-sync".as_bytes()),
        5 => append(out, "cur-irq".as_bytes()),
        9 => append(out, "low-irq".as_bytes()),
        _ => {
            raw_uart_line(out, "k=", kind);
            append(out, "?".as_bytes());
        },
    }
    assert(out@ =~= pre + kind_text(kind));
}

/// The first part of the report of a fatal exception: what happened.
pub open spec fn report_head(kind: u64, esr: u64, elr: u64, far: u64, regs: FaultRegs) -> Seq<u8> {
    encode_utf8("\n!!EXC "@) + kind_text(kind) + raw_line("ESR="@, esr) + raw_line("ELR="@, elr)
        + raw_line("FAR="@, far) + raw_line("EL="@, regs.current_el / 4) + raw_line(
        "TTBR0="@,
        regs.ttbr0,
    )
}

/// The second part: registers of the interrupted context.
pub open spec fn report_frame(frame: Seq<u64>) -> Seq<u8> {
    raw_line("gX10="@, frame[10]) + raw_line("gX12="@, frame[12]) + raw_line("gX13="@, frame[13])
        + raw_line("gX30="@, frame[19]) + raw_line("gELR="@, frame[20]) + raw_line(
        "gSPSR="@,
        frame[21],
    )
}

/// The last part: how the address is translated.
pub open spec fn report_walk(w: Seq<u64>, sctlr: u64) -> Seq<u8> {
    raw_line("L0="@, w[0]) + raw_line("L1="@, w[1]) + raw_line("L2="@, w[2]) + raw_line("L3="@, w[3])
        + raw_line("SCTLR="@, sctlr)
}

/// The report of a fatal exception.  `frame` is the saved register file, `w` the descriptors
/// that translate the fault address.
pub fn exception_handler(
    kind: u64,
    esr: u64,
    elr: u64,
    far: u64,
    regs: FaultRegs,
    frame: &[u64],
    w: [u64; 4],
) -> (r: Vec<u8>)
    requires
        frame@.len() >= 22,
    ensures
        r@ == report_head(kind, esr, elr, far, regs) + report_frame(frame@) + report_walk(
            w@,
            regs.sctlr,
        ),
{
    let mut out: Vec<u8> = Vec::new();
    append(&mut out, "\n!!EXC ".as_bytes());
    push_kind(&mut out, kind);
    raw_uart_line(&mut out, "ESR=", esr);
    raw_uart_line(&mut out, "ELR=", elr);
    raw_uart_line(&mut out, "FAR=", far);
    let el: u64 = regs.current_el;
    assert(el >> 2 == el / 4) by (bit_vector);
    raw_uart_line(&mut out, "EL=", el >> 2);
    raw_uart_line(&mut out, "TTBR0=", regs.ttbr0);
    assert(out@ =~= report_head(kind, esr, elr, far, regs));
    let ghost head = out@;
    push_frame(&mut out, frame);
    push_walk(&mut out, w, regs.sctlr);
    out
}

fn push_frame(out: &mut Vec<u8>, frame: &[u64])
    requires
        frame@.len() >= 22,
    ensures
        final(out)@ == old(out)@ + report_frame(frame@),
{
    let ghost pre = out@;
    raw_uart_line(out, "gX10=", frame[10]);
    raw_uart_line(out, "gX12=", frame[12]);
    raw_uart_line(out, "gX13=", frame[13]);
    raw_uart_line(out, "gX30=", frame[19]);
    raw_uart_line(out, "gELR=", frame[20]);
    raw_uart_line(out, "gSPSR=", frame[21]);
    assert(out@ =~= pre + report_frame(frame@));
}

fn push_walk(out: &mut Vec<u8>, w: [u64; 4], sctlr: u64)
    ensures
        final(out)@ == old(out)@ + report_walk(w@, sctlr),
{
    let ghost pre = out@;
    raw_uart_line(out, "L0=", w[0]);
    raw_uart_line(out, "L1=", w[1]);
    raw_uart_line(out, "L2=", w[2]);
    raw_uart_line(out, "L3=", w[3]);
    raw_uart_line(out, "SCTLR=", sctlr);
    assert(out@ =~= pre + report_walk(w@, sctlr));
}

/// An interrupt, as it was acknowledged.
#[derive(Clone, Copy)]
pub struct IrqEvent {
    pub intid: u32,
    /// It interrupted a task, not the kernel or a guest.
    pub from_el0: bool,
    /// Counter frequency in Hz.
    pub freq: u64,
    /// What a guest runs in.
    pub env: GuestEnv,
    /// Registers of the interrupted context.
    pub frame: GuestFrame,
}

/// What is left to be done about an interrupt; all are ended at the controller.
pub enum IrqDone {
    /// A tick: arm the next one after `arm` counts, poke CPUs, and hand over this one.
    Tick { arm: u64, switch: Option<Switch>, poke: CpuMask },
    /// A tick that interrupted a guest.
    GuestTick { arm: u64, tick: GuestTick },
    /// A doorbell, a poke, or nothing at all: done.
    Done,
    /// A device: mask its interrupt first, then poke CPUs.
    Device { mask: RegWrite, poke: CpuMask },
    /// Nobody expects it.
    Unexpected,
}

/// The timer interrupt.
pub const TIMER_INTID: u32 = 30;

/// No interrupt is pending.
pub const SPURIOUS_INTID: u32 = 1023;

/// The interrupt is one of those of devices that are recorded.
pub open spec fn is_device(intid: u32) -> bool {
    16 <= intid < IRQ_MAX && intid != TIMER_INTID
}

/// What interrupts work on, at one moment.
pub struct IrqState {
    pub q: RunQueue,
    pub ticks: TickCounter,
    pub bells: DoorbellTable,
    pub irqs: PendingIrqs,
    pub hv: BareMetalBackend,
}

impl IrqState {
    /// The tick counts for a guest on the CPU.
    pub open spec fn guest_tick(self, cpu: usize) -> bool {
        self.hv.preempt_enabled && self.hv.active is Some && cpu == self.hv.active_cpu
    }

    /// The table after a tick, and the slot that takes over.
    pub open spec fn task_tick(pre: Self, post: Self, ev: IrqEvent, done: IrqDone) -> bool {
        let cpu = ev.env.cpu as int;
        let now = post.ticks.spec_ticks();
        let s = awake(pre.q.sched.slots(), now);
        let woke = any_expired(pre.q.sched.slots(), now);
        let cur = pre.q.cpus.current(cpu);
        let target = tick_target(s, cpu, cur, ev.from_el0, woke);
        match done {
            IrqDone::Tick { arm, switch, poke } => {
                &&& arm == ev.freq / 1000
                &&& is_switch(switch, cur, target)
                &&& moved(pre.q, post.q, cpu, tick_slots(s, cpu, cur, ev.from_el0, woke), target)
                &&& post.q.sched.woken_slot() == pre.q.sched.woken_slot()
                &&& forall|c: int|
                    0 <= c < MAX_CPUS ==> #[trigger] poke@[c] == (woke && c >= 1
                        && pre.q.cpus.online(c) && in_state(
                        s,
                        idle_slot_of(c),
                        TaskState::Running,
                    ))
            },
            _ => false,
        }
    }

    /// What an interrupt does.
    pub open spec fn handled(pre: Self, post: Self, ev: IrqEvent, done: IrqDone) -> bool {
        let cpu = ev.env.cpu;
        if ev.intid == TIMER_INTID {
            &&& post.bells == pre.bells
            &&& post.irqs == pre.irqs
            &&& post.ticks.spec_ticks() == (pre.ticks.spec_ticks() + 1) % 0x1_0000_0000_0000_0000
            &&& if !ev.from_el0 && pre.guest_tick(cpu) {
                &&& post.q == pre.q
                &&& done matches IrqDone::GuestTick { arm, tick } && arm == ev.freq / 1000
                    && BareMetalBackend::ticked(pre.hv, ev.env, ev.frame, post.hv, tick)
            } else {
                &&& post.hv == pre.hv
                &&& Self::task_tick(pre, post, ev, done)
            }
        } else {
            &&& post.q == pre.q
            &&& post.ticks == pre.ticks
            &&& post.hv == pre.hv
            &&& if ev.intid == 1 || ev.intid == 2 {
                &&& post.irqs == pre.irqs
                &&& post.bells.next() == pre.bells.next()
                &&& forall|i: int|
                    0 <= i < MAX_DOORBELLS ==> #[trigger] post.bells.slots()[i] == delivered(
                        pre.bells.slots()[i],
                        ev.intid,
                    )
                &&& done is Done
            } else {
                &&& post.bells == pre.bells
                &&& if is_device(ev.intid) {
                    &&& marked(pre.irqs, post.irqs, ev.intid, true)
                    &&& done matches IrqDone::Device { mask, poke } && {
                        &&& mask.addr == bank_addr(
                            cpu as int,
                            ev.intid,
                            GICR_ICENABLER0,
                            GICD_ICENABLER,
                        )
                        &&& mask.val == irq_bit(ev.intid)
                        &&& forall|c: int|
                            0 <= c < MAX_CPUS ==> #[trigger] poke@[c] == (c != cpu
                                && pre.q.cpus.online(c))
                    }
                } else {
                    &&& post.irqs == pre.irqs
                    &&& if ev.intid == 0 || ev.intid == 3 || ev.intid == SPURIOUS_INTID {
                        done is Done
                    } else {
                        done is Unexpected
                    }
                }
            }
        }
    }
}

/// Handle an interrupt.  A tick preempts the interrupted task or guest; a device's interrupt
/// is recorded for the task that waits for it.
pub fn irq_handler(
    q: &mut RunQueue,
    ticks: &mut TickCounter,
    bells: &mut DoorbellTable,
    irqs: &mut PendingIrqs,
    hv: &mut BareMetalBackend,
    ev: IrqEvent,
) -> (done: IrqDone)
    requires
        old(q).wf(),
        old(bells).wf(),
        old(hv).wf(),
        ev.env.cpu < MAX_CPUS,
    ensures
        final(q).wf(),
        final(bells).wf(),
        final(hv).wf(),
        IrqState::handled(
            (IrqState {
                q: *old(q),
                ticks: *old(ticks),
                bells: *old(bells),
                irqs: *old(irqs),
                hv: *old(hv),
            }),
            (IrqState {
                q: *final(q),
                ticks: *final(ticks),
                bells: *final(bells),
                irqs: *final(irqs),
                hv: *final(hv),
            }),
            ev,
            done,
        ),
{
    let cpu: usize = ev.env.cpu;
    match ev.intid {
        TIMER_INTID => {
            let arm: u64 = ticks.tick(ev.freq);
            if !ev.from_el0 && hv.guest_tick_active(cpu) {
                let tick = hv.tick_guest(ev.env, ev.frame);
                IrqDone::GuestTick { arm, tick }
            } else {
                let now: u64 = ticks.ticks();
                let (switch, poke) = q.tick_preempt(cpu, now, ev.from_el0);
                IrqDone::Tick { arm, switch, poke }
            }
        },
        1 | 2 => {
            bells.note_delivery(ev.intid);
            IrqDone::Done
        },
        0 | 3 | SPURIOUS_INTID => IrqDone::Done,
        _ => {
            if ev.intid >= 16 && (ev.intid as usize) < IRQ_MAX {
                note_pending(irqs, ev.intid);
                match disable_irq(cpu, ev.intid) {
                    Some(mask) => {
                        let poke = q.poke_other_cpus(cpu);
                        IrqDone::Device { mask, poke }
                    },
                    None => IrqDone::Unexpected,
                }
            } else {
                IrqDone::Unexpected
            }
        },
    }
}

/// A device's interrupt wakes the task that waits for it: it is seen once, however the wait
/// and the delivery are ordered.
pub proof fn law_device_interrupt_reaches_waiter(
    pre: IrqState,
    post: IrqState,
    ev: IrqEvent,
    done: IrqDone,
)
    requires
        IrqState::handled(pre, post, ev, done),
        is_device(ev.intid),
    ensures
        post.irqs.has(ev.intid as int),
        forall|i: int| i != ev.intid ==> #[trigger] post.irqs.has(i) == pre.irqs.has(i),
        done matches IrqDone::Device { mask, poke } && forall|c: int|
            0 <= c < MAX_CPUS && c != ev.env.cpu && pre.q.cpus.online(c) ==> #[trigger] poke@[c],
{
}

/// A report with `n` lines added, each a tag, 16 digits and a line feed.
pub open spec fn with_lines(head: Seq<u8>, tags: Seq<Seq<char>>, values: Seq<u64>, n: int) -> Seq<
    u8,
>
    decreases n,
{
    if n <= 0 {
        head
    } else {
        with_lines(head, tags, values, n - 1) + (encode_utf8(tags[n - 1]) + hex_digits(
            values[n - 1] as nat,
            16,
        ) + encode_utf8("\n"@))
    }
}

/// The report of a fatal exception begins with the kind, then tells, one to a line, syndrome,
/// address, fault address, level and table.
pub proof fn law_report_begins(
    kind: u64,
    esr: u64,
    elr: u64,
    far: u64,
    regs: FaultRegs,
    a: Seq<Seq<char>>,
    b: Seq<u64>,
)
    requires
        a == seq!["ESR="@, "ELR="@, "FAR="@, "EL="@, "TTBR0="@],
        b == seq![esr, elr, far, regs.current_el / 4, regs.ttbr0],
    ensures
        report_head(kind, esr, elr, far, regs) == with_lines(
            encode_utf8("\n!!EXC "@) + kind_text(kind),
            a,
            b,
            5,
        ),
{
    reveal_with_fuel(with_lines, 6);
}

/// Of the interrupted context it tells x10, x12, x13 and x30, from words 10, 12, 13 and 19 of its
/// frame, and its address and state from words 20 and 21.
pub proof fn law_report_of_frame(frame: Seq<u64>, a: Seq<Seq<char>>, b: Seq<u64>)
    requires
        a == seq!["gX12="@, "gX13="@, "gX30="@, "gELR="@, "gSPSR="@],
        b == seq![frame[12], frame[13], frame[19], frame[20], frame[21]],
    ensures
        report_frame(frame) == with_lines(
            encode_utf8("gX10="@) + hex_digits(frame[10] as nat, 16) + encode_utf8("\n"@),
            a,
            b,
            5,
        ),
{
    reveal_with_fuel(with_lines, 6);
}

/// At last it tells the four descriptors of the walk, and the control register.
pub proof fn law_report_of_walk(w: Seq<u64>, sctlr: u64, a: Seq<Seq<char>>, b: Seq<u64>)
    requires
        a == seq!["L1="@, "L2="@, "L3="@, "SCTLR="@],
        b == seq![w[1], w[2], w[3], sctlr],
    ensures
        report_walk(w, sctlr) == with_lines(
            encode_utf8("L0="@) + hex_digits(w[0] as nat, 16) + encode_utf8("\n"@),
            a,
            b,
            4,
        ),
{
    reveal_with_fuel(with_lines, 5);
}

/// An exception is named by its vector: 4 and 5 are synchronous ones and interrupts of the
/// kernel's own level, 9 interrupts of a lower one; any other is told by number.
pub proof fn law_vectors_have_names(kind: u64)
    ensures
        kind == 4 ==> kind_text(kind) == encode_utf8("cur-sync"@),
        kind == 5 ==> kind_text(kind) == encode_utf8("cur-irq"@),
        kind == 9 ==> kind_text(kind) == encode_utf8("low-irq"@),
        kind != 4 && kind != 5 && kind != 9 ==> kind_text(kind) == encode_utf8("k="@) + hex_digits(
            kind as nat,
            16,
        ) + encode_utf8("\n"@) + encode_utf8("?"@),
{
}

/// Where an exception was taken is told by its syndrome, in eight digits at least, and its
/// address, in 16.
pub proof fn law_place_of_exception(esr: u64, elr: u64)
    ensures
        where_text(esr, elr) == encode_utf8(" ESR="@) + hex(esr as nat, 8) + encode_utf8(" ELR="@)
            + hex(elr as nat, 16),
{
}

} // verus!
