//! What exceptions and interrupts lead to, told by syndrome codes, interrupt numbers and
//! registers.

use vstd::prelude::*;
use vstd::utf8::encode_utf8;
use crate::arch::aarch64::exception::{
    sync_action_of, walk, IrqDone, IrqEvent, IrqState, SyncAction,
};
use crate::arch::aarch64::fault::{
    fault_kill_post, killed, repair_post, repairable, sync_post, SyncDone, SyncEvent,
};
use crate::hypervisor::backend::BareMetalBackend;
use crate::hypervisor::doorbell::{service, ServiceReply, Services};
use crate::hypervisor::{HvcReply, Hypervisor};
use crate::mem::tables::{is_table, Tables};
use crate::mem::PhysAddr;
use crate::numbers::{decimal, hex};
use crate::sched::laws::{home, law_best_task_is_picked, lemma_runnable, runnable};
use crate::sched::run::{tick_post, Switch};
use crate::sched::task::Task;
use crate::sched::TaskState;
use crate::server::Host;
use crate::text::name_text;

verus! {

/// Exception class of a syndrome: six bits from bit 26 on.
pub open spec fn class(esr: u64) -> int {
    esr as int / 67108864 % 64
}

/// What is done about an exception depends on its class, on whether it comes from EL0, and on
/// whether a guest runs: a call to the hypervisor is served, a data abort of a task repaired,
/// any other fault of a task kills it; a data abort of a guest parks the guest, and what is left
/// is fatal.
pub proof fn law_exceptions_by_class(esr: u64, spsr: u64, guest: bool)
    ensures
        ({
            let a = sync_action_of(esr, spsr, guest);
            let task = spsr % 16 == 0;
            &&& a == SyncAction::Serve <==> class(esr) == 22
            &&& a == SyncAction::Repair <==> class(esr) == 36 && task
            &&& a == SyncAction::ParkGuest <==> class(esr) == 36 && !task && guest
            &&& a == SyncAction::Abort <==> class(esr) == 36 && !task && !guest
            &&& a == SyncAction::Kill <==> class(esr) != 22 && class(esr) != 36 && task
            &&& a == SyncAction::Unhandled <==> class(esr) != 22 && class(esr) != 36 && !task
        }),
{
}

/// A call to the hypervisor is served with x0 to x3 of the caller; it goes on behind the
/// instruction with the answer in x0, and no other register changes.
pub proof fn law_hypercall_returns_behind<H: Hypervisor>(
    pre: Host,
    post: Host,
    sv: Services<H>,
    sw: Services<H>,
    frame: Seq<u64>,
    after: Seq<u64>,
    ev: SyncEvent,
    zero_page: PhysAddr,
    reply: HvcReply,
    done: SyncDone,
    args: Seq<u64>,
    k: int,
)
    requires
        frame.len() == 34,
        args.len() == 4,
        args[0] == frame[0] && args[1] == frame[1] && args[2] == frame[2] && args[3] == frame[3],
        class(ev.esr) == 22,
        ev.elr + 4 <= u64::MAX,
        sync_post(pre, post, sv, sw, frame, after, ev, zero_page, reply, done),
        0 <= k < 34,
    ensures
        post == pre,
        after.len() == 34,
        after[20] == ev.elr + 4,
        k != 0 && k != 20 ==> after[k] == frame[k],
        done is Return,
        exists|r: ServiceReply| #[trigger]
            Services::served(sv, service(args), reply, sw, r) && after[0] == r.x0 && done->Return_0
                == r.sgi,
{
    assert(frame.take(4) =~= args);
}

/// A data abort of a task that can be repaired returns to the task, which runs on; one that
/// cannot kills it.  The saved registers stay.
pub proof fn law_data_abort_of_task<H: Hypervisor>(
    pre: Host,
    post: Host,
    sv: Services<H>,
    sw: Services<H>,
    frame: Seq<u64>,
    after: Seq<u64>,
    ev: SyncEvent,
    zero_page: PhysAddr,
    reply: HvcReply,
    done: SyncDone,
)
    requires
        frame.len() == 34,
        class(ev.esr) == 36,
        frame[21] % 16 == 0,
        sync_post(pre, post, sv, sw, frame, after, ev, zero_page, reply, done),
    ensures
        sw == sv,
        after == frame,
        exists|mid: Host, r: bool|
            {
                &&& #[trigger] repair_post(
                    pre,
                    mid,
                    ev.cpu as int,
                    ev.far,
                    ev.esr,
                    zero_page,
                    r,
                )
                &&& r ==> post == mid && (done matches SyncDone::Return(sgi) && sgi is None)
                &&& !r ==> killed(mid, post, ev, done)
            },
{
}

/// Any other fault of a task kills it; its registers, the tables and memory stay.
pub proof fn law_fault_kills_task<H: Hypervisor>(
    pre: Host,
    post: Host,
    sv: Services<H>,
    sw: Services<H>,
    frame: Seq<u64>,
    after: Seq<u64>,
    ev: SyncEvent,
    zero_page: PhysAddr,
    reply: HvcReply,
    done: SyncDone,
)
    requires
        frame.len() == 34,
        class(ev.esr) != 22,
        class(ev.esr) != 36,
        frame[21] % 16 == 0,
        sync_post(pre, post, sv, sw, frame, after, ev, zero_page, reply, done),
    ensures
        sw == sv,
        after == frame,
        post.space == pre.space,
        post.frames == pre.frames,
        post.ram == pre.ram,
        done is Killed,
        fault_kill_post(pre, post, ev.cpu as int, done->Killed_1),
{
}

/// A task that is killed after a fault is a zombie that waits for nothing, and the CPU goes to
/// the best task that can run, or to the CPU's own slot; the other tasks stay.
#[verifier::rlimit(50)]
pub proof fn law_killed_task_is_left(pre: Host, post: Host, cpu: int, sw: Switch, j: int)
    requires
        pre.wf(),
        0 <= cpu < 4,
        pre.q.sched.slots()[pre.q.cpus.current(cpu)] is Some,
        pre.q.cpus.current(cpu) != home(cpu),
        fault_kill_post(pre, post, cpu, sw),
    ensures
        ({
            let s = pre.q.sched.slots();
            let cur = pre.q.cpus.current(cpu);
            let u = post.q.sched.slots();
            &&& sw.from == cur
            &&& sw.to != cur
            &&& post.q.cpus.current(cpu) == sw.to
            &&& u[cur] == Some(
                Task { state: TaskState::Zombie, recv_blocked: false, recv_buf: 0, ..s[cur]->0 },
            )
            &&& runnable(s, cpu, j) && j != cur ==> runnable(s, cpu, sw.to as int)
                && s[sw.to as int]->0.priority <= s[j]->0.priority
            &&& runnable(s, cpu, sw.to as int) || sw.to == home(cpu)
            &&& s[sw.to as int] is Some ==> u[sw.to as int] == Some(
                Task { state: TaskState::Running, ..s[sw.to as int]->0 },
            )
            &&& 0 <= j < 32 && j != cur && j != sw.to ==> u[j] == s[j]
        }),
        post.q.sched.woken_slot() == pre.q.sched.woken_slot(),
{
    let s = pre.q.sched.slots();
    let cur = pre.q.cpus.current(cpu);
    pre.q.sched.lemma_len();
    assert(0 <= cur < 32);
    let z = crate::sched::run::faulted(s, cur);
    lemma_runnable(z, cpu, j);
    lemma_runnable(s, cpu, j);
    law_best_task_is_picked(z, cpu, cur, j);
    assert(post.q.cpus.current(cpu) == post.q.cpus.current(cpu));
}

/// What is fatal, or parks the guest, changes nothing.
pub proof fn law_fatal_changes_nothing<H: Hypervisor>(
    pre: Host,
    post: Host,
    sv: Services<H>,
    sw: Services<H>,
    frame: Seq<u64>,
    after: Seq<u64>,
    ev: SyncEvent,
    zero_page: PhysAddr,
    reply: HvcReply,
    done: SyncDone,
)
    requires
        frame.len() == 34,
        class(ev.esr) != 22,
        frame[21] % 16 != 0,
        sync_post(pre, post, sv, sw, frame, after, ev, zero_page, reply, done),
    ensures
        post == pre,
        sw == sv,
        after == frame,
        class(ev.esr) == 36 && ev.guest ==> done is Park,
        class(ev.esr) != 36 || !ev.guest ==> done is Panic,
{
}

/// The walk of an address reads one descriptor per level, by nine bits of the address each from
/// bit 39 downwards, as long as it finds tables; behind that it reads nothing.
pub proof fn law_walk_reads_each_level(t: Tables, f: int, va: u64)
    ensures
        ({
            let w = walk(t, f, va, 0);
            let e0 = t.entry(f, va as int / 0x80_0000_0000 % 512);
            let e1 = t.entry(t.target(e0), va as int / 0x4000_0000 % 512);
            let e2 = t.entry(t.target(e1), va as int / 0x20_0000 % 512);
            let e3 = t.entry(t.target(e2), va as int / 4096 % 512);
            &&& w.len() == 4
            &&& w[0] == e0
            &&& w[1] == if is_table(e0) {
                e1
            } else {
                0
            }
            &&& w[2] == if is_table(e0) && is_table(e1) {
                e2
            } else {
                0
            }
            &&& w[3] == if is_table(e0) && is_table(e1) && is_table(e2) {
                e3
            } else {
                0
            }
        }),
{
    reveal_with_fuel(walk, 5);
}

/// The timer's interrupt, number 30, counts one tick and arms the next millisecond.  Outside of
/// tasks, while a guest that can be preempted is active on the CPU, the tick is the guest's;
/// otherwise it is the scheduler's, with the new count as the time.
#[verifier::rlimit(50)]
pub proof fn law_timer_interrupt(pre: IrqState, post: IrqState, ev: IrqEvent, done: IrqDone)
    requires
        ev.intid == 30,
        IrqState::handled(pre, post, ev, done),
    ensures
        ({
            let before = pre.ticks.spec_ticks();
            let now = post.ticks.spec_ticks();
            let guest = !ev.from_el0 && pre.hv.preempt_enabled && pre.hv.active is Some
                && ev.env.cpu == pre.hv.active_cpu;
            &&& before < u64::MAX ==> now == before + 1
            &&& before == u64::MAX ==> now == 0
            &&& guest <==> done is GuestTick
            &&& guest ==> post.q == pre.q && done->GuestTick_arm == ev.freq / 1000
                && BareMetalBackend::ticked(pre.hv, ev.env, ev.frame, post.hv, done->tick)
            &&& !guest ==> post.hv == pre.hv && done is Tick && done->Tick_arm == ev.freq / 1000
                && tick_post(
                pre.q,
                post.q,
                ev.env.cpu as int,
                now,
                ev.from_el0,
                done->switch,
                done->Tick_poke,
            )
            &&& post.bells == pre.bells
            &&& post.irqs == pre.irqs
        }),
{
}

/// A device's interrupt, 16 to 95 but for the timer's, is recorded, masked at its controller, and
/// told to every other CPU that is online.
pub proof fn law_device_interrupt(
    pre: IrqState,
    post: IrqState,
    ev: IrqEvent,
    done: IrqDone,
    i: int,
    c: int,
)
    requires
        16 <= ev.intid < 96,
        ev.intid != 30,
        ev.env.cpu < 4,
        IrqState::handled(pre, post, ev, done),
        0 <= c < 4,
    ensures
        post.irqs.has(i) == (i == ev.intid || pre.irqs.has(i)),
        done is Device,
        done->mask.addr == if ev.intid < 32 {
            0x080B_0180 + 0x2_0000 * ev.env.cpu
        } else {
            0x0800_0180 + 4 * (ev.intid as int / 32)
        },
        done->mask.val == 1u32 << (ev.intid % 32),
        done->Device_poke@[c] <==> c != ev.env.cpu && pre.q.cpus.online(c),
        post.q == pre.q,
        post.ticks == pre.ticks,
        post.hv == pre.hv,
        post.bells == pre.bells,
{
    assert(post.irqs.has(i) == if i == ev.intid && i < 96 {
        true
    } else {
        pre.irqs.has(i)
    });
}

/// Interrupts 1 and 2 are doorbells: their deliveries are counted, nothing else changes.
/// Interrupts 0, 3 and 1023 are done with; of any other there is nobody to tell.
pub proof fn law_other_interrupts(
    pre: IrqState,
    post: IrqState,
    ev: IrqEvent,
    done: IrqDone,
    i: int,
)
    requires
        ev.intid < 16 || ev.intid >= 96,
        IrqState::handled(pre, post, ev, done),
        0 <= i < 8,
    ensures
        post.q == pre.q,
        post.ticks == pre.ticks,
        post.hv == pre.hv,
        post.irqs == pre.irqs,
        ev.intid == 0 || ev.intid == 1 || ev.intid == 2 || ev.intid == 3 || ev.intid == 1023
            <==> done is Done,
        4 <= ev.intid < 16 || (ev.intid >= 96 && ev.intid != 1023) <==> done is Unexpected,
        (ev.intid == 1 || ev.intid == 2) && pre.bells.slots()[i] is Some
            && pre.bells.slots()[i]->0.irq == ev.intid && pre.bells.slots()[i]->0.deliveries
            < u64::MAX ==> post.bells.slots()[i] is Some && post.bells.slots()[i]->0.deliveries
            == pre.bells.slots()[i]->0.deliveries + 1,
        pre.bells.slots()[i] is None || pre.bells.slots()[i]->0.irq != ev.intid
            ==> post.bells.slots()[i] == pre.bells.slots()[i],
{
}

/// A fault of a task can be repaired where its regions end below 2 to the 48, and there are
/// frames for the tables that a page takes, three at most.
pub proof fn law_what_can_be_repaired(host: Host, cpu: int, far: u64, esr: u64, k: int)
    requires
        host.wf(),
        0 <= cpu < 4,
        host.q.sched.slots()[host.q.cpus.current(cpu)] is Some,
        0 <= k < 4,
    ensures
        ({
            let t = host.q.sched.slots()[host.q.cpus.current(cpu)]->0;
            let rs = t.regions@;
            let d = esr % 64;
            &&& repairable(host, cpu, far, esr) && rs[k] is Some ==> rs[k]->0.base + 4096
                * rs[k]->0.pages <= 0x1_0000_0000_0000
            &&& (forall|i: int|
                0 <= i < 4 ==> (#[trigger] rs[i] is Some ==> rs[i]->0.base + 4096 * rs[i]->0.pages
                    <= 0x1_0000_0000_0000)) && host.frames.free_set().len() >= 3 && 4 <= d <= 7
                ==> repairable(host, cpu, far, esr)
        }),
{
    host.q.sched.lemma_len();
    assert(0 <= host.q.cpus.current(cpu) < 32);
    let t = host.q.sched.slots()[host.q.cpus.current(cpu)]->0;
    crate::mem::laws::lemma_repairable(host.space@, host.frames, t.ttbr0, t.regions@, far, esr, k);
}

/// The line about a task that was killed tells its number, its name, and where and at what
/// address it faulted.
pub proof fn law_line_of_killed_task(
    pre: Host,
    post: Host,
    ev: SyncEvent,
    done: SyncDone,
    t: Task,
)
    requires
        pre.q.sched.slots()[pre.q.cpus.current(ev.cpu as int)] == Some(t),
        killed(pre, post, ev, done),
    ensures
        done is Killed,
        done->Killed_0@ == encode_utf8("EL0 fault: task TaskId("@) + decimal(t.id.0 as nat)
            + encode_utf8(") '"@) + encode_utf8(name_text(t.name@)) + encode_utf8("'"@) + (
        encode_utf8(" ESR="@) + hex(ev.esr as nat, 8) + encode_utf8(" ELR="@) + hex(
            ev.elr as nat,
            16,
        )) + encode_utf8(" FAR="@) + hex(ev.far as nat, 16) + encode_utf8(" — killed"@),
{
}

} // verus!
