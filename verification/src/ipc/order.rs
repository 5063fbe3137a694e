//! Every system call keeps the scheduler in order.

use vstd::prelude::*;
use crate::ipc::message::{receive_post, send_post, ReceiveOutcome, SendOutcome};
use crate::ipc::process::{
    exec_post, kill_post, name_arg, replaced, spawn_number, sys_spawn_post,
};
use crate::ipc::syscall::{
    call_ok, ended, rescheduled, served, syscall_post, Call, Inputs, Kernel, Outcome,
};
use crate::mem::PhysAddr;
use crate::sched::exclusion::{
    cpus_ok, has_idle, law_exit_keeps_order, law_kill_keeps_order, law_preemption_keeps_order,
    law_receive_keeps_order, law_reschedule_keeps_order, law_send_keeps_order,
    law_sleep_keeps_order, law_spawn_keeps_order, law_wait_keeps_order, lemma_unmoved, orderly,
    woken_ok,
};
use crate::sched::run::{current_of, killed, wake_target, RunQueue, Switch};
use crate::sched::task::{
    first_free, first_id, first_named, full, in_state, named, reserved, MAX_TASKS,
};
use crate::sched::{TaskId, TaskState};
use crate::server::{
    image_index, image_loaded, is_server_task, layout, link_base, Host, ServerImage,
};
use crate::smp::MAX_CPUS;
use crate::vm::loader::LoadedImage;

verus! {

/// A task makes a call on `cpu`: the scheduler is in order, the task is Running, and no record
/// is left of a task that was woken before.
pub open spec fn calling(q: RunQueue, cpu: int) -> bool {
    &&& orderly(q)
    &&& has_idle(q, cpu)
    &&& !reserved(q.cpus.current(cpu))
    &&& in_state(q.sched.slots(), q.cpus.current(cpu), TaskState::Running)
    &&& q.sched.woken_slot() is None
}

/// Starting a server keeps the scheduler in order; a new task is recorded as woken.
pub proof fn law_server_keeps_order(
    pre: Host,
    bins: Seq<ServerImage>,
    name: Seq<char>,
    post: Host,
    r: Result<TaskId, i32>,
)
    requires
        orderly(pre.q),
        woken_ok(pre.q),
        pre.can_spawn(bins, name),
        Host::spawn_post(pre, bins, name, post, r),
    ensures
        orderly(post.q),
        woken_ok(post.q),
        forall|i: int|
            0 <= i < MAX_TASKS && pre.q.sched.slots()[i] is Some
                ==> #[trigger] post.q.sched.slots()[i] == pre.q.sched.slots()[i],
{
    let k = image_index(bins, name, 0);
    let found = link_base(pre.machine, name);
    if k < bins.len() && found != 0 {
        let image = bins[k].image@;
        let base = found as u64;
        let (mem, img) = choose|mem: Seq<u8>, img: Result<LoadedImage, i32>|
            {
                &&& #[trigger] image_loaded(pre.ram, image, base, mem, img)
                &&& match img {
                    Err(e) => {
                        &&& r == Err::<TaskId, i32>(e)
                        &&& post.ram@ == mem
                        &&& post.space == pre.space
                        &&& post.frames == pre.frames
                        &&& post.q.sched == pre.q.sched
                    },
                    Ok(i) => Host::placed(pre, name, base, i, mem, post, r),
                }
            };
        if let Ok(i) = img {
            let root = choose|root: Result<PhysAddr, i32>| #[trigger]
                Host::placed_in(pre, name, base, i, mem, root, post, r);
            if let Ok(t) = root {
                let s = pre.q.sched.slots();
                if !full(s) {
                    let j = choose|j: int| #[trigger]
                        first_free(s, j) && post.q.sched.slots()[j] is Some && post.q.sched.slots()
                            == s.update(j, post.q.sched.slots()[j]) && is_server_task(
                            post.q.sched.slots()[j]->0,
                            TaskId(pre.q.sched.next() as u32),
                            name,
                            i.entry,
                            t,
                            layout(base as int, i.image_end as int),
                            pre.machine.id,
                        );
                    let w = post.q.sched.woken_slot()->0;
                    assert(first_free(s, w as int) && first_free(s, j));
                    assert(w == j) by {
                        if w < j {
                            assert(s[w as int] is None);
                        }
                        if j < w {
                            assert(s[j] is None);
                        }
                    }
                    law_spawn_keeps_order(pre.q, post.q, j);
                } else {
                    lemma_same_order(pre.q, post.q);
                }
            } else {
                lemma_same_order(pre.q, post.q);
            }
        } else {
            lemma_same_order(pre.q, post.q);
        }
    }
}

proof fn lemma_same_order(a: RunQueue, b: RunQueue)
    requires
        orderly(a),
        woken_ok(a),
        b.sched.slots() == a.sched.slots(),
        b.sched.next() == a.sched.next(),
        b.sched.woken_slot() == a.sched.woken_slot(),
        b.cpus == a.cpus,
    ensures
        orderly(b),
        woken_ok(b),
{
}

/// Killing the task `id` keeps the scheduler in order.
proof fn lemma_killed(pre: Host, post: Host, cpu: int, id: TaskId, r: bool)
    requires
        orderly(pre.q),
        0 <= cpu < MAX_CPUS,
        kill_post(pre, post, cpu, id, r),
    ensures
        orderly(post.q),
        post.q.cpus == pre.q.cpus,
        post.q.sched.woken_slot() == pre.q.sched.woken_slot(),
        post.q.sched.next() == pre.q.sched.next(),
        id != current_of(pre.q.sched.slots(), pre.q.cpus.current(cpu))
            && pre.q.sched.slots()[pre.q.cpus.current(cpu)] is Some
            ==> post.q.sched.slots()[pre.q.cpus.current(cpu)]
            == pre.q.sched.slots()[pre.q.cpus.current(cpu)],
{
    let s = pre.q.sched.slots();
    if r {
        let own = id == current_of(s, pre.q.cpus.current(cpu));
        let i = choose|i: int| #[trigger]
            first_id(s, i, id) && post.q.sched.slots() == s.update(
                i,
                Some(killed(s[i]->0, s[i]->0.ttbr0 != 0 && !own)),
            );
        law_kill_keeps_order(pre.q, post.q, i, id, s[i]->0.ttbr0 != 0 && !own);
        assert(0 <= pre.q.cpus.current(cpu) < MAX_TASKS);
    } else {
        assert(post.q.sched.slots() == s);
    }
}

/// The end of a call keeps the scheduler in order and leaves no record of a woken task.
proof fn lemma_rescheduled(a: RunQueue, b: RunQueue, cpu: int, sw: Option<Switch>)
    requires
        a.wf(),
        orderly(a),
        has_idle(a, cpu),
        woken_ok(a),
        a.sched.woken_slot() is None || in_state(
            a.sched.slots(),
            a.cpus.current(cpu),
            TaskState::Running,
        ),
        rescheduled(a, b, cpu, sw),
    ensures
        orderly(b),
        b.sched.woken_slot() is None,
{
    if a.sched.woken_slot() is None {
        assert(wake_target(a.sched.slots(), cpu, a.cpus.current(cpu), None::<usize>) is None);
        lemma_unmoved(a, b, cpu);
    } else {
        law_reschedule_keeps_order(a, b, cpu);
    }
}

/// The call does not make the caller kill itself to be replaced.
pub open spec fn not_own_exec(pre: Host, cpu: int, call: Call, mem: Seq<u8>) -> bool {
    let s = pre.q.sched.slots();
    call is Exec ==> (name_arg(mem) matches Some(name) ==> !first_named(
        s,
        pre.q.cpus.current(cpu),
        name,
    ))
}

/// What a call does before its end keeps the scheduler in order.
proof fn lemma_served(
    pre: Kernel,
    mid: Kernel,
    cpu: int,
    bins: Seq<ServerImage>,
    call: Call,
    inp: Inputs,
    o: Outcome,
)
    requires
        pre.host.wf(),
        calling(pre.host.q, cpu),
        call_ok(pre, cpu, bins, call, inp),
        not_own_exec(pre.host, cpu, call, inp.mem@),
        served(pre, mid, cpu, bins, call, inp, o),
    ensures
        orderly(mid.host.q),
        o.switch is Some || call is WaitIrq || call is Yield ==> mid.host.q.sched.woken_slot() is None,
        o.switch is None ==> has_idle(mid.host.q, cpu) && woken_ok(mid.host.q) && (
        mid.host.q.sched.woken_slot() is None || in_state(
            mid.host.q.sched.slots(),
            mid.host.q.cpus.current(cpu),
            TaskState::Running,
        )),
{
    let a = pre.host.q;
    let b = mid.host.q;
    let s = a.sched.slots();
    let cur = a.cpus.current(cpu);
    assert(0 <= cur < MAX_TASKS);
    match call {
        Call::Send { dst, msg } => {
            let r = choose|r: SendOutcome| #[trigger]
                send_post(a, b, cpu, dst, inp.msg, r) && match r {
                    SendOutcome::Refused(e) => o.switch is None,
                    SendOutcome::Delivered(d, mask) => o.switch is None,
                    SendOutcome::Blocked(sw) => o.switch == Some(sw),
                };
            law_send_keeps_order(a, b, cpu, dst, inp.msg, r);
        },
        Call::Receive { filter, out } => {
            let r = choose|r: ReceiveOutcome| #[trigger]
                receive_post(a, b, cpu, filter, out, r) && match r {
                    ReceiveOutcome::Received(m, mask) => o.switch is None,
                    ReceiveOutcome::Blocked(sw) => o.switch == Some(sw),
                };
            law_receive_keeps_order(a, b, cpu, filter, out, r);
        },
        Call::Spawn { name } => {
            let r = choose|r: i32| #[trigger] sys_spawn_post(pre.host, bins, inp.mem@, mid.host, r);
            if let Some(n) = name_arg(inp.mem@) {
                let res = choose|res: Result<TaskId, i32>| #[trigger]
                    Host::spawn_post(pre.host, bins, n, mid.host, res) && r == spawn_number(res);
                law_server_keeps_order(pre.host, bins, n, mid.host, res);
            }
        },
        Call::Exec { name } => {
            let r = choose|r: i32| #[trigger]
                exec_post(pre.host, cpu, bins, inp.mem@, mid.host, r);
            if let Some(n) = name_arg(inp.mem@) {
                let (h, res) = choose|h: Host, res: Result<TaskId, i32>| #[trigger]
                    replaced(pre.host, cpu, bins, n, h, mid.host, res) && r == spawn_number(res);
                if exists|i: int| #[trigger] named(s, i, n) {
                    let i = choose|i: int| #[trigger]
                        first_named(s, i, n) && kill_post(pre.host, h, cpu, s[i]->0.id, true);
                    assert(named(s, i, n));
                    assert(i != cur);
                    assert(s[i]->0.id != s[cur]->0.id);
                    lemma_killed(pre.host, h, cpu, s[i]->0.id, true);
                }
                law_server_keeps_order(h, bins, n, mid.host, res);
            }
        },
        Call::ExitTask { pid } => {
            lemma_killed(
                pre.host,
                mid.host,
                cpu,
                TaskId(pid),
                o.reply == crate::ipc::syscall::Reply::Value(0),
            );
        },
        Call::Exit => {
            law_exit_keeps_order(a, b, cpu, o.switch->0);
        },
        Call::Sleep { ms } => {
            law_sleep_keeps_order(a, b, cpu, ms, inp.now, o.switch->0);
        },
        Call::WaitIrq { irq } => {
            if b.sched.slots() != s {
                law_wait_keeps_order(a, b, cpu, Some(irq));
            } else {
                lemma_same_order(a, b);
            }
        },
        Call::Yield => {
            law_preemption_keeps_order(a, b, cpu, true);
        },
        _ => {
            assert(b == a);
        },
    }
}

/// A system call keeps the scheduler in order, so that at most one CPU executes a given task
/// after it, and leaves no record of a woken task behind.
pub proof fn law_syscall_keeps_order(
    pre: Kernel,
    post: Kernel,
    cpu: int,
    bins: Seq<ServerImage>,
    call: Call,
    inp: Inputs,
    o: Outcome,
)
    requires
        pre.host.wf(),
        calling(pre.host.q, cpu),
        call_ok(pre, cpu, bins, call, inp),
        not_own_exec(pre.host, cpu, call, inp.mem@),
        syscall_post(pre, post, cpu, bins, call, inp, o),
    ensures
        orderly(post.host.q),
        post.host.q.sched.woken_slot() is None,
{
    let (mid, sw) = choose|mid: Kernel, sw: Option<Switch>|
        {
            &&& #[trigger] served(pre, mid, cpu, bins, call, inp, Outcome { switch: sw, ..o })
            &&& #[trigger] ended(mid, post, cpu, call, sw, o.switch)
        };
    lemma_served(pre, mid, cpu, bins, call, inp, Outcome { switch: sw, ..o });
    if !(sw is Some || call is WaitIrq || call is Yield) {
        assert(mid.host.q.wf()) by {
            assert(cpus_ok(mid.host.q));
        }
        lemma_rescheduled(mid.host.q, post.host.q, cpu, o.switch);
    }
}

} // verus!
