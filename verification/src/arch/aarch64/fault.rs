//! Synchronous exceptions of tasks and guests, carried out.

use vstd::prelude::*;
use vstd::utf8::encode_utf8;
use crate::arch::aarch64::exception::{
    abort_text, class_of, guest_fault_report, raw_line, sync_action, sync_action_of, unhandled_text,
    where_text, SyncAction,
};
use crate::bytes::append;
use crate::hypervisor::doorbell::{service, ServiceReply, Services};
use crate::hypervisor::{HvcReply, Hypervisor};
use crate::ipc::frames::{name_of, only_memory, table_of};
use crate::mem::vm_fault::{
    can_resolve, fault_action, resolvable, resolve_user_fault, resolved,
};
use crate::mem::PhysAddr;
use crate::numbers::{decimal, hex, push_decimal, push_hex};
use crate::sched::run::{current_of, faulted, Switch};
use crate::sched::task::{with_state, Region, Slots, Task, MAX_TASKS};
use crate::sched::{TaskId, TaskState};
use crate::server::{lemma_blocked, lemma_same_tasks, same_tasks, Host};
use crate::smp::MAX_CPUS;

verus! {

/// Words of the frame that holds the registers of the interrupted context.
pub const FRAME_WORDS: usize = 34;

/// Word of the frame with the address to return to.
pub const FRAME_ELR: usize = 20;

/// Word of the frame with the saved state.
pub const FRAME_SPSR: usize = 21;

/// A synchronous exception from a lower level.
#[derive(Debug, Clone, Copy)]
pub struct SyncEvent {
    pub cpu: usize,
    pub esr: u64,
    pub elr: u64,
    pub far: u64,
    /// A guest is running on the CPU.
    pub guest: bool,
}

/// What is left to be done about it.
pub enum SyncDone {
    /// Return; ring the interrupt, if any.
    Return(Option<u32>),
    /// Log the line and switch; the task is gone.
    Killed(Vec<u8>, Switch),
    /// Report, set the guest's state to parked, and wait.
    Park(Vec<u8>),
    /// Panic with the text.
    Panic(Vec<u8>),
}

/// Windows of the task that a CPU runs that faults may fill.
pub open spec fn regions_of(s: Slots, cur: int) -> Seq<Option<Region>> {
    match s[cur] {
        Some(t) => t.regions@,
        None => Seq::empty(),
    }
}

/// The fault can be repaired as far as memory goes: there are frames for the tables that it
/// takes, and a shared page lies in memory.
pub open spec fn repairable(host: Host, cpu: int, far: u64, esr: u64) -> bool {
    let s = host.q.sched.slots();
    let cur = host.q.cpus.current(cpu);
    let root = table_of(s, cur);
    let rs = regions_of(s, cur);
    resolvable(host.space@, host.frames, root, rs, far, esr)
}

/// What repairing the fault of the task that `cpu` runs does.
pub open spec fn repair_post(
    pre: Host,
    post: Host,
    cpu: int,
    far: u64,
    esr: u64,
    zero_page: PhysAddr,
    r: bool,
) -> bool {
    let s = pre.q.sched.slots();
    let cur = pre.q.cpus.current(cpu);
    let root = table_of(s, cur);
    &&& only_memory(pre, post)
    &&& resolved(
        pre.space@,
        pre.frames,
        root,
        zero_page,
        far,
        fault_action(pre.space@, root, regions_of(s, cur), far, esr),
        post.space@,
        post.frames,
        r,
    )
}

/// True if memory permits to repair the fault of the task that `cpu` runs.
pub fn can_repair(host: &Host, cpu: usize, far: u64, esr: u64) -> (r: bool)
    requires
        host.wf(),
        cpu < MAX_CPUS,
        host.q.sched.slots()[host.q.cpus.current(cpu as int)] is Some,
    ensures
        r == repairable(*host, cpu as int, far, esr),
{
    assert(host.q.cpus.current(cpu as int) < 32);
    proof {
        host.q.sched.lemma_len();
    }
    let cur: usize = host.q.cpus.current_idx(cpu);
    match host.q.sched.task_at(cur) {
        Some(t) => can_resolve(&host.space, &host.frames, t.ttbr0, &t.regions, far, esr),
        None => false,
    }
}

/// Try to repair a fault of the task that `cpu` runs; `zero_page` is the page of zeroes that
/// tasks share until they write.
pub fn repair(host: &mut Host, cpu: usize, far: u64, esr: u64, zero_page: PhysAddr) -> (r: bool)
    requires
        old(host).wf(),
        cpu < MAX_CPUS,
        old(host).q.sched.slots()[old(host).q.cpus.current(cpu as int)] is Some,
        repairable(*old(host), cpu as int, far, esr),
    ensures
        final(host).wf(),
        repair_post(*old(host), *final(host), cpu as int, far, esr, zero_page, r),
{
    let ghost pre = *host;
    assert(host.q.cpus.current(cpu as int) < 32);
    proof {
        host.q.sched.lemma_len();
    }
    let cur: usize = host.q.cpus.current_idx(cpu);
    let task: Task = match host.q.sched.task_at(cur) {
        Some(t) => *t,
        None => {
            return false;
        },
    };
    let r: bool = resolve_user_fault(
        &mut host.space,
        &mut host.frames,
        task.ttbr0,
        &task.regions,
        zero_page,
        far,
        esr,
    );
    proof {
        let (t, u) = (pre.space@, host.space@);
        assert(u.base == t.base && u.n() == t.n());
        assert(forall|f: int| #[trigger] t.live(f) ==> u.live(f) && u.levels[f] == t.levels[f]);
    }
    r
}

/// The log line over a task that is killed.
pub open spec fn kill_text(id: TaskId, name: Seq<char>, esr: u64, elr: u64, far: u64) -> Seq<u8> {
    encode_utf8("EL0 fault: task TaskId("@) + decimal(id.0 as nat) + encode_utf8(") '"@)
        + encode_utf8(name) + encode_utf8("'"@) + where_text(esr, elr) + encode_utf8(" FAR="@)
        + hex(far as nat, 16) + encode_utf8(" — killed"@)
}

fn kill_line(id: TaskId, name: &str, esr: u64, elr: u64, far: u64) -> (r: Vec<u8>)
    ensures
        r@ == kill_text(id, name@, esr, elr, far),
{
    let mut out: Vec<u8> = Vec::new();
    append(&mut out, "EL0 fault: task TaskId(".as_bytes());
    push_decimal(&mut out, id.0 as u64);
    append(&mut out, ") '".as_bytes());
    append(&mut out, name.as_bytes());
    append(&mut out, "'".as_bytes());
    crate::arch::aarch64::exception::push_where(&mut out, esr, elr);
    append(&mut out, " FAR=".as_bytes());
    push_hex(&mut out, far, 16);
    append(&mut out, " — killed".as_bytes());
    assert(out@ =~= kill_text(id, name@, esr, elr, far));
    out
}

/// What killing the task that `cpu` runs after a fault does.
pub open spec fn fault_kill_post(pre: Host, post: Host, cpu: int, sw: Switch) -> bool {
    let cur = pre.q.cpus.current(cpu);
    let s = faulted(pre.q.sched.slots(), cur);
    &&& post == (Host { q: post.q, ..pre })
    &&& post.q.sched.woken_slot() == pre.q.sched.woken_slot()
    &&& crate::ipc::message::blocked(pre.q, post.q, cpu, s, sw)
}

/// Kill the task that `cpu` runs after a fault; the kernel and the other tasks go on.
pub fn kill_faulting_task(host: &mut Host, ev: SyncEvent) -> (r: (Vec<u8>, Switch))
    requires
        old(host).wf(),
        ev.cpu < MAX_CPUS,
        old(host).q.sched.slots()[old(host).q.cpus.current(ev.cpu as int)] is Some,
    ensures
        final(host).wf(),
        fault_kill_post(*old(host), *final(host), ev.cpu as int, r.1),
        ({
            let s = old(host).q.sched.slots();
            let cur = old(host).q.cpus.current(ev.cpu as int);
            r.0@ == kill_text(current_of(s, cur), name_of(s, cur), ev.esr, ev.elr, ev.far)
        }),
{
    let ghost pre = *host;
    assert(host.q.cpus.current(ev.cpu as int) < 32);
    let cur: usize = host.q.cpus.current_idx(ev.cpu);
    let line = kill_line(
        host.q.sched.current_id(cur),
        host.q.sched.current_name(cur),
        ev.esr,
        ev.elr,
        ev.far,
    );
    let sw = host.q.kill_faulting_task(ev.cpu);
    proof {
        pre.q.sched.lemma_len();
        let s = pre.q.sched.slots();
        assert(same_tasks(s, faulted(s, cur as int)));
        lemma_blocked(pre.q, host.q, ev.cpu as int, faulted(s, cur as int), sw);
        lemma_same_tasks(pre, *host);
    }
    (line, sw)
}

/// The frame once a guest's call has been served: the result is in x0, and the guest goes on
/// behind the call.
pub open spec fn returned(frame: Seq<u64>, x0: u64, elr: u64) -> Seq<u64> {
    frame.update(0, x0).update(FRAME_ELR as int, (elr + 4) as u64)
}

/// What a synchronous exception does.
pub open spec fn sync_post<H: Hypervisor>(
    pre: Host,
    post: Host,
    sv: Services<H>,
    sw: Services<H>,
    frame: Seq<u64>,
    after: Seq<u64>,
    ev: SyncEvent,
    zero_page: PhysAddr,
    reply: HvcReply,
    done: SyncDone,
) -> bool {
    let s = pre.q.sched.slots();
    let cur = pre.q.cpus.current(ev.cpu as int);
    let act = sync_action_of(ev.esr, frame[FRAME_SPSR as int], ev.guest);
    if act == SyncAction::Serve {
        &&& post == pre
        &&& exists|r: ServiceReply|
            {
                &&& #[trigger] Services::served(sv, service(frame.take(4)), reply, sw, r)
                &&& after == returned(frame, r.x0, ev.elr)
                &&& done matches SyncDone::Return(sgi) && sgi == r.sgi
            }
    } else {
        &&& sw == sv
        &&& after == frame
        &&& match act {
            SyncAction::Repair => exists|mid: Host, r: bool|
                {
                    &&& #[trigger] repair_post(
                        pre,
                        mid,
                        ev.cpu as int,
                        ev.far,
                        ev.esr,
                        zero_page,
                        r,
                    )
                    &&& if r {
                        post == mid && done == SyncDone::Return(None)
                    } else {
                        killed(mid, post, ev, done)
                    }
                },
            SyncAction::Kill => killed(pre, post, ev, done),
            SyncAction::ParkGuest => {
                &&& post == pre
                &&& done matches SyncDone::Park(text) && text@ == raw_line(
                    "GUESTfault ESR="@,
                    ev.esr,
                ) + raw_line("GUESTfault ELR="@, ev.elr) + raw_line("GUESTfault FAR="@, ev.far)
            },
            SyncAction::Abort => {
                &&& post == pre
                &&& done matches SyncDone::Panic(text) && text@ == encode_utf8("guest abort EC="@)
                    + hex(class_of(ev.esr) as nat, 1) + where_text(ev.esr, ev.elr) + encode_utf8(
                    " FAR="@,
                ) + hex(ev.far as nat, 16)
            },
            _ => {
                &&& post == pre
                &&& done matches SyncDone::Panic(text) && text@ == encode_utf8(
                    "unhandled sync exception EC="@,
                ) + hex(class_of(ev.esr) as nat, 1) + where_text(ev.esr, ev.elr)
            },
        }
    }
}

/// The task was killed, with its line.
pub open spec fn killed(pre: Host, post: Host, ev: SyncEvent, done: SyncDone) -> bool {
    let s = pre.q.sched.slots();
    let cur = pre.q.cpus.current(ev.cpu as int);
    &&& done matches SyncDone::Killed(line, sw) && {
        &&& fault_kill_post(pre, post, ev.cpu as int, sw)
        &&& line@ == kill_text(current_of(s, cur), name_of(s, cur), ev.esr, ev.elr, ev.far)
    }
}

/// Handle a synchronous exception: a guest's call, or a fault of a task or guest.  `frame`
/// holds the registers of the interrupted context.
pub fn sync_handler<H: Hypervisor>(
    host: &mut Host,
    services: &mut Services<H>,
    frame: &mut [u64; FRAME_WORDS],
    ev: SyncEvent,
    zero_page: PhysAddr,
    reply: HvcReply,
) -> (done: SyncDone)
    requires
        old(host).wf(),
        old(services).wf(),
        ev.cpu < MAX_CPUS,
        ({
            let act = sync_action_of(ev.esr, old(frame)@[FRAME_SPSR as int], ev.guest);
            &&& act == SyncAction::Serve ==> ev.elr + 4 <= u64::MAX
            &&& act == SyncAction::Repair || act == SyncAction::Kill ==> old(
                host).q.sched.slots()[old(host).q.cpus.current(ev.cpu as int)] is Some
            &&& act == SyncAction::Repair ==> repairable(
                *old(host),
                ev.cpu as int,
                ev.far,
                ev.esr,
            )
        }),
    ensures
        final(host).wf(),
        final(services).wf(),
        sync_post(
            *old(host),
            *final(host),
            *old(services),
            *final(services),
            old(frame)@,
            final(frame)@,
            ev,
            zero_page,
            reply,
            done,
        ),
{
    let ghost pre = *host;
    let ghost sv = *services;
    let ghost words = frame@;
    let spsr: u64 = frame[FRAME_SPSR];
    match sync_action(ev.esr, spsr, ev.guest) {
        SyncAction::Serve => {
            let args: [u64; 4] = [frame[0], frame[1], frame[2], frame[3]];
            assert(args@ =~= words.take(4));
            let r = services.handle_hvc(args, reply);
            frame[0] = r.x0;
            frame[FRAME_ELR] = ev.elr + 4;
            assert(frame@ =~= returned(words, r.x0, ev.elr));
            assert(Services::served(sv, service(words.take(4)), reply, *services, r));
            SyncDone::Return(r.sgi)
        },
        SyncAction::Repair => {
            let ok: bool = repair(host, ev.cpu, ev.far, ev.esr, zero_page);
            let ghost mid = *host;
            assert(repair_post(pre, mid, ev.cpu as int, ev.far, ev.esr, zero_page, ok));
            if ok {
                SyncDone::Return(None)
            } else {
                let (line, sw) = kill_faulting_task(host, ev);
                SyncDone::Killed(line, sw)
            }
        },
        SyncAction::Kill => {
            let (line, sw) = kill_faulting_task(host, ev);
            SyncDone::Killed(line, sw)
        },
        SyncAction::ParkGuest => SyncDone::Park(guest_fault_report(ev.esr, ev.elr, ev.far)),
        SyncAction::Abort => SyncDone::Panic(abort_text(ev.esr, ev.elr, ev.far)),
        SyncAction::Unhandled => SyncDone::Panic(unhandled_text(ev.esr, ev.elr)),
    }
}

/// Killing a task after a fault touches nothing of the others: memory, tables and every other
/// task stay as they are, but that one of them runs now.
pub proof fn law_kill_spares_the_others(pre: Host, post: Host, cpu: int, sw: Switch, i: int)
    requires
        pre.wf(),
        0 <= cpu < MAX_CPUS,
        fault_kill_post(pre, post, cpu, sw),
        0 <= i < MAX_TASKS,
        i != sw.from,
    ensures
        post.space == pre.space,
        post.frames == pre.frames,
        post.ram == pre.ram,
        post.q.sched.slots()[i] == if i == sw.to {
            with_state(pre.q.sched.slots(), i, TaskState::Running)[i]
        } else {
            pre.q.sched.slots()[i]
        },
{
    pre.q.sched.lemma_len();
    assert(0 <= pre.q.cpus.current(cpu) < 32);
}

} // verus!
