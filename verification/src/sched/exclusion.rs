//! One CPU per task: at most one CPU executes a given task, whatever the CPUs do.
//!
//! [`orderly`] says what the scheduler keeps at all times; the laws here say that every
//! scheduling point and every call that changes the task table keeps it.

use vstd::prelude::*;
use crate::ipc::message::{
    accepts, blocked, first_pending, pending_match, queue_full, queue_room, queue_set,
    receive_post, send_post, sender_woken, staged_match, took_pending, took_staged, ReceiveOutcome,
    SendOutcome,
};
use crate::ipc::syscall::{deadline, sleep_post};
use crate::sched::run::{
    awake, current_of, expired, faulted, handover, is_boot_context, killed, law_pick_ready,
    law_preemption_never_idles, moved, preempt_target, tick_slots, tick_target, wake_target,
    RunQueue, Switch,
};
use crate::sched::task::{
    candidate, exists_id, first_free, first_id, has_id, in_state, is_idle_task, pick, reserved,
    with_state, Slots, Task, IDLE_ID, IDLE_SLOT_BASE, MAX_PENDING_SENDERS, MAX_TASKS,
};
use crate::sched::{Message, PendingSend, StagedSend, TaskId, TaskState};
use crate::smp::{idle_slot_of, other_slot, MAX_CPUS};

verus! {

/// The task waits for nothing that would make it Ready: it neither sleeps nor waits for a
/// message, nor holds one back.
pub open spec fn inert(t: Task) -> bool {
    t.sleep_deadline == 0 && !t.recv_blocked && t.send_full_wait is None
}

/// What the task waits for agrees with its state.
pub open spec fn consistent(t: Task) -> bool {
    &&& t.state == TaskState::Ready || t.state == TaskState::Running ==> inert(t)
    &&& t.recv_blocked ==> t.state == TaskState::Blocked && t.sleep_deadline == 0
        && t.send_full_wait is None
    &&& t.send_full_wait matches Some(g) ==> g.src == t.id.0 && t.sleep_deadline == 0
}

/// The task is blocked until a message of its own is taken from a queue, or was killed then.
pub open spec fn parked(t: Task) -> bool {
    (t.state == TaskState::Blocked || t.state == TaskState::Zombie) && inert(t)
}

/// Entry `k` of the queue of the task in slot `i` is a message of `src`.
pub open spec fn entry(s: Slots, i: int, k: int, src: u32) -> bool {
    &&& 0 <= i < s.len()
    &&& s[i] is Some
    &&& 0 <= k < MAX_PENDING_SENDERS
    &&& s[i]->0.pending_senders@[k] is Some
    &&& s[i]->0.pending_senders@[k]->0.src == src
}

/// No queue holds a message of `src`.
pub open spec fn unqueued(s: Slots, src: u32) -> bool {
    forall|i: int, k: int| !#[trigger] entry(s, i, k, src)
}

/// The senders of queued messages are parked, and no task has more than one message queued.
pub open spec fn queues_ok(s: Slots) -> bool {
    &&& forall|i: int, k: int, src: u32| #[trigger]
        entry(s, i, k, src) ==> exists_id(s, TaskId(src))
    &&& forall|i: int, k: int, src: u32, j: int|
        #![trigger entry(s, i, k, src), has_id(s, j, TaskId(src))]
        entry(s, i, k, src) && has_id(s, j, TaskId(src)) ==> parked(s[j]->0) && !reserved(j)
    &&& forall|i: int, k: int, j: int, l: int, src: u32|
        #![trigger entry(s, i, k, src), entry(s, j, l, src)]
        entry(s, i, k, src) && entry(s, j, l, src) ==> i == j && k == l
}

/// Slot `i` is that of a CPU's idle task.
pub open spec fn idle_of(i: int) -> bool {
    IDLE_SLOT_BASE <= i < IDLE_SLOT_BASE + MAX_CPUS - 1
}

/// The ids are different, and those below `next` were given out in turn.
pub open spec fn ids_ok(s: Slots, next: int) -> bool {
    &&& 0 < next <= IDLE_ID
    &&& forall|i: int|
        0 <= i < s.len() && (#[trigger] s[i]) is Some ==> if idle_of(i) {
            s[i]->0.id.0 == IDLE_ID + (i - IDLE_SLOT_BASE) + 1
        } else {
            s[i]->0.id.0 < next
        }
    &&& forall|i: int, j: int|
        0 <= i < s.len() && 0 <= j < s.len() && i != j && (#[trigger] s[i]) is Some && (
        #[trigger] s[j]) is Some ==> s[i]->0.id != s[j]->0.id
}

/// The boot context and the idle tasks wait for nothing, and an idle task is for its CPU alone.
pub open spec fn reserved_ok(s: Slots) -> bool {
    &&& s[0] is Some
    &&& forall|i: int|
        0 <= i < s.len() && reserved(i) && (#[trigger] s[i]) is Some ==> inert(s[i]->0)
            && s[i]->0.state != TaskState::Blocked
    &&& forall|i: int|
        0 <= i < s.len() && idle_of(i) && (#[trigger] s[i]) is Some ==> s[i]->0.cpu_affinity == Some(
            (i - IDLE_SLOT_BASE + 1) as usize,
        )
}

/// The task table is in order.
pub open spec fn table_ok(s: Slots, next: int) -> bool {
    &&& s.len() == MAX_TASKS
    &&& forall|i: int| 0 <= i < s.len() && (#[trigger] s[i]) is Some ==> consistent(s[i]->0)
    &&& queues_ok(s)
    &&& ids_ok(s, next)
    &&& reserved_ok(s)
}

/// A CPU may be executing the task in slot `i`: it is Running, or was killed meanwhile, and
/// nothing can make it Ready.
pub open spec fn active(s: Slots, i: int) -> bool {
    &&& 0 <= i < s.len()
    &&& s[i] is Some
    &&& s[i]->0.state == TaskState::Running || s[i]->0.state == TaskState::Zombie
    &&& inert(s[i]->0)
    &&& unqueued(s, s[i]->0.id.0)
}

/// What the CPUs execute is in order: no two the same task, none a task that could be picked.
/// (Slot 0, the boot context, is where every CPU starts.)
pub open spec fn cpus_ok(q: RunQueue) -> bool {
    let s = q.sched.slots();
    &&& forall|c: int|
        0 <= c < MAX_CPUS ==> 0 <= #[trigger] q.cpus.current(c) < MAX_TASKS && (q.cpus.current(c)
            != 0 ==> active(s, q.cpus.current(c)))
    &&& forall|c: int, d: int|
        #![trigger q.cpus.current(c), q.cpus.current(d)]
        0 <= c < MAX_CPUS && 0 <= d < MAX_CPUS && c != d && q.cpus.current(c) != 0
            ==> q.cpus.current(c) != q.cpus.current(d)
    &&& forall|c: int, d: int|
        #![trigger q.cpus.current(c), idle_slot_of(d)]
        0 <= c < MAX_CPUS && 1 <= d < MAX_CPUS && q.cpus.current(c) == idle_slot_of(d) ==> c == d
}

/// The scheduler is in order.
pub open spec fn orderly(q: RunQueue) -> bool {
    table_ok(q.sched.slots(), q.sched.next()) && cpus_ok(q)
}

/// `cpu` has a slot to fall back to.
pub open spec fn has_idle(q: RunQueue, cpu: int) -> bool {
    0 <= cpu < MAX_CPUS && q.sched.slots()[idle_slot_of(cpu)] is Some
}

/// At most one CPU executes a given task.
pub proof fn law_one_cpu_per_task(q: RunQueue, c: int, d: int)
    requires
        orderly(q),
        0 <= c < MAX_CPUS,
        0 <= d < MAX_CPUS,
        c != d,
        q.cpus.current(c) == q.cpus.current(d),
    ensures
        q.cpus.current(c) == 0,
{
}

/// No CPU picks a task that another CPU executes.
pub proof fn law_pick_spares_running(q: RunQueue, cpu: int, d: int)
    requires
        orderly(q),
        has_idle(q, cpu),
        0 <= d < MAX_CPUS,
        d != cpu,
        q.cpus.current(d) != 0,
    ensures
        pick(q.sched.slots(), cpu, q.cpus.current(cpu)) != q.cpus.current(d),
{
    let s = q.sched.slots();
    law_pick_ready(s, cpu, q.cpus.current(cpu));
    if q.cpus.current(d) == idle_slot_of(cpu) {
        assert(cpu != 0);
    }
}

/// A slot that is picked is Ready and not reserved, or is the idle slot.
proof fn lemma_picked(s: Slots, cpu: int, cur: int, next: int)
    requires
        s.len() == MAX_TASKS,
        reserved_ok(s),
        0 <= cpu < MAX_CPUS,
        candidate(s, cpu, next),
    ensures
        !reserved(next),
        in_state(s, next, TaskState::Ready),
        1 <= next < MAX_TASKS,
{
    if idle_of(next) {
        assert(s[next]->0.cpu_affinity == Some((next - IDLE_SLOT_BASE + 1) as usize));
    }
}

/// The same queues hold the same messages.
pub open spec fn same_queues(s: Slots, t: Slots) -> bool {
    &&& t.len() == s.len()
    &&& forall|i: int|
        0 <= i < s.len() ==> {
            &&& (#[trigger] t[i]) is Some <==> s[i] is Some
            &&& s[i] is Some ==> t[i]->0.id == s[i]->0.id && t[i]->0.cpu_affinity
                == s[i]->0.cpu_affinity && t[i]->0.pending_senders@ == s[i]->0.pending_senders@
        }
}

proof fn lemma_same_queues(s: Slots, t: Slots)
    requires
        same_queues(s, t),
    ensures
        forall|i: int, k: int, src: u32| #[trigger] entry(t, i, k, src) == entry(s, i, k, src),
        forall|i: int, id: TaskId| #[trigger] has_id(t, i, id) == has_id(s, i, id),
        forall|id: TaskId| #[trigger] exists_id(t, id) == exists_id(s, id),
{
    assert forall|i: int, k: int, src: u32| #[trigger] entry(t, i, k, src) == entry(s, i, k, src) by {
        if 0 <= i < s.len() {
            assert(t[i] is Some <==> s[i] is Some);
        }
    }
    assert forall|i: int, id: TaskId| #[trigger] has_id(t, i, id) == has_id(s, i, id) by {
        if 0 <= i < s.len() {
            assert(t[i] is Some <==> s[i] is Some);
        }
    }
    assert forall|id: TaskId| #[trigger] exists_id(t, id) == exists_id(s, id) by {
        if exists_id(s, id) {
            let i = choose|i: int| #[trigger] has_id(s, i, id);
            assert(has_id(t, i, id));
        }
        if exists_id(t, id) {
            let i = choose|i: int| #[trigger] has_id(t, i, id);
            assert(has_id(s, i, id));
        }
    }
}

/// A change to one task that leaves its queue alone keeps the table in order.
proof fn lemma_task_changed(s: Slots, next: int, j: int, t: Task)
    requires
        table_ok(s, next),
        0 <= j < s.len(),
        s[j] is Some,
        t.id == s[j]->0.id,
        t.cpu_affinity == s[j]->0.cpu_affinity,
        t.pending_senders == s[j]->0.pending_senders,
        consistent(t),
        unqueued(s, t.id.0) || parked(t),
        reserved(j) ==> inert(t) && t.state != TaskState::Blocked,
    ensures
        table_ok(s.update(j, Some(t)), next),
        same_queues(s, s.update(j, Some(t))),
{
    let u = s.update(j, Some(t));
    assert(same_queues(s, u));
    lemma_same_queues(s, u);
    assert forall|i: int, k: int, src: u32, g: int|
        #![trigger entry(u, i, k, src), has_id(u, g, TaskId(src))]
        entry(u, i, k, src) && has_id(u, g, TaskId(src)) implies parked(u[g]->0) && !reserved(g) by {
        assert(entry(s, i, k, src) && has_id(s, g, TaskId(src)));
    }
    assert forall|i: int, k: int, g: int, l: int, src: u32|
        #![trigger entry(u, i, k, src), entry(u, g, l, src)]
        entry(u, i, k, src) && entry(u, g, l, src) implies i == g && k == l by {
        assert(entry(s, i, k, src) && entry(s, g, l, src));
    }
    assert forall|i: int, k: int, src: u32| #[trigger] entry(u, i, k, src) implies exists_id(
        u,
        TaskId(src),
    ) by {
        assert(entry(s, i, k, src));
        assert(exists_id(u, TaskId(src)) == exists_id(s, TaskId(src)));
    }
}

/// What is active stays so while its task and the queues stay as they are.
proof fn lemma_active_kept(s: Slots, t: Slots, i: int)
    requires
        active(s, i),
        same_queues(s, t),
        t[i]->0.state == TaskState::Running || t[i]->0.state == TaskState::Zombie,
        inert(t[i]->0),
    ensures
        active(t, i),
{
    lemma_same_queues(s, t);
    assert(t[i] is Some <==> s[i] is Some);
    assert forall|a: int, k: int| !#[trigger] entry(t, a, k, t[i]->0.id.0) by {
        assert(!entry(s, a, k, s[i]->0.id.0));
    }
}

/// A CPU goes on with `next`, from the table `s`.
proof fn lemma_step(a: RunQueue, b: RunQueue, cpu: int, s: Slots, next: int)
    requires
        a.wf(),
        cpus_ok(a),
        table_ok(s, a.sched.next()),
        0 <= cpu < MAX_CPUS,
        forall|d: int|
            0 <= d < MAX_CPUS && d != cpu && #[trigger] a.cpus.current(d) != 0 ==> active(
                s,
                a.cpus.current(d),
            ),
        (in_state(s, next, TaskState::Ready) && !reserved(next) && 1 <= next < MAX_TASKS) || (next
            == idle_slot_of(cpu) && s[next] is Some),
        moved(a, b, cpu, with_state(s, next, TaskState::Running), Some(next)),
    ensures
        orderly(b),
{
    let t = Task { state: TaskState::Running, ..s[next]->0 };
    let u = s.update(next, Some(t));
    assert(u == with_state(s, next, TaskState::Running));
    assert(unqueued(s, t.id.0)) by {
        assert forall|i: int, k: int| !#[trigger] entry(s, i, k, t.id.0) by {
            if entry(s, i, k, t.id.0) {
                assert(has_id(s, next, TaskId(t.id.0)));
            }
        }
    }
    lemma_task_changed(s, a.sched.next(), next, t);
    lemma_same_queues(s, u);
    assert(active(u, next)) by {
        assert forall|i: int, k: int| !#[trigger] entry(u, i, k, t.id.0) by {
            assert(!entry(s, i, k, t.id.0));
        }
    }
    assert forall|d: int| 0 <= d < MAX_CPUS && d != cpu && #[trigger] a.cpus.current(d)
        != 0 implies a.cpus.current(d) != next && active(u, a.cpus.current(d)) by {
        if a.cpus.current(d) == next {
            assert(next == idle_slot_of(cpu));
            assert(cpu != 0);
            assert(false);
        }
        lemma_active_kept(s, u, a.cpus.current(d));
    }
    assert forall|c: int|
        0 <= c < MAX_CPUS implies 0 <= #[trigger] b.cpus.current(c) < MAX_TASKS && (
    b.cpus.current(c) != 0 ==> active(b.sched.slots(), b.cpus.current(c))) by {
        if c != cpu {
            assert(0 <= a.cpus.current(c) < MAX_TASKS);
        }
    }
    assert forall|c: int, d: int|
        #![trigger b.cpus.current(c), b.cpus.current(d)]
        0 <= c < MAX_CPUS && 0 <= d < MAX_CPUS && c != d && b.cpus.current(c) != 0 implies
        b.cpus.current(c) != b.cpus.current(d) by {
        assert(a.cpus.current(c) == a.cpus.current(c) && a.cpus.current(d) == a.cpus.current(d));
    }
    assert forall|c: int, d: int|
        #![trigger b.cpus.current(c), idle_slot_of(d)]
        0 <= c < MAX_CPUS && 1 <= d < MAX_CPUS && b.cpus.current(c) == idle_slot_of(d) implies c
        == d by {
        if c != cpu {
            assert(a.cpus.current(c) == idle_slot_of(d));
        }
    }
}

/// No CPU goes elsewhere; the table is now `s`.
proof fn lemma_stay(a: RunQueue, b: RunQueue, cpu: int, s: Slots)
    requires
        cpus_ok(a),
        table_ok(s, a.sched.next()),
        forall|d: int|
            0 <= d < MAX_CPUS && #[trigger] a.cpus.current(d) != 0 ==> active(
                s,
                a.cpus.current(d),
            ),
        moved(a, b, cpu, s, None),
    ensures
        orderly(b),
{
    assert forall|c: int|
        0 <= c < MAX_CPUS implies 0 <= #[trigger] b.cpus.current(c) < MAX_TASKS && (
    b.cpus.current(c) != 0 ==> active(b.sched.slots(), b.cpus.current(c))) by {
        assert(0 <= a.cpus.current(c) < MAX_TASKS);
    }
    assert forall|c: int, d: int|
        #![trigger b.cpus.current(c), b.cpus.current(d)]
        0 <= c < MAX_CPUS && 0 <= d < MAX_CPUS && c != d && b.cpus.current(c) != 0 implies
        b.cpus.current(c) != b.cpus.current(d) by {
        assert(a.cpus.current(c) == a.cpus.current(c) && a.cpus.current(d) == a.cpus.current(d));
    }
    assert forall|c: int, d: int|
        #![trigger b.cpus.current(c), idle_slot_of(d)]
        0 <= c < MAX_CPUS && 1 <= d < MAX_CPUS && b.cpus.current(c) == idle_slot_of(d) implies c
        == d by {
        assert(a.cpus.current(c) == idle_slot_of(d));
    }
}

/// Nothing changes.
pub(crate) proof fn lemma_unmoved(a: RunQueue, b: RunQueue, cpu: int)
    requires
        orderly(a),
        moved(a, b, cpu, a.sched.slots(), None),
    ensures
        orderly(b),
{
    lemma_stay(a, b, cpu, a.sched.slots());
}

/// The task that `cpu` leaves changes without its queue, and the best task takes over.
proof fn lemma_left(a: RunQueue, b: RunQueue, cpu: int, t: Task, sw: Switch)
    requires
        a.wf(),
        orderly(a),
        has_idle(a, cpu),
        ({
            let cur = a.cpus.current(cpu);
            let before = a.sched.slots()[cur]->0;
            &&& cur != 0
            &&& !reserved(cur)
            &&& t.id == before.id
            &&& t.cpu_affinity == before.cpu_affinity
            &&& t.pending_senders == before.pending_senders
            &&& t.state == TaskState::Blocked || t.state == TaskState::Zombie
            &&& consistent(t)
            &&& blocked(a, b, cpu, a.sched.slots().update(cur, Some(t)), sw)
        }),
    ensures
        orderly(b),
{
    let s = a.sched.slots();
    let cur = a.cpus.current(cpu);
    let u = s.update(cur, Some(t));
    assert(active(s, cur));
    lemma_task_changed(s, a.sched.next(), cur, t);
    assert forall|d: int| 0 <= d < MAX_CPUS && d != cpu && #[trigger] a.cpus.current(d)
        != 0 implies active(u, a.cpus.current(d)) by {
        assert(a.cpus.current(d) != cur);
        lemma_active_kept(s, u, a.cpus.current(d));
    }
    let next = pick(u, cpu, cur);
    law_pick_ready(u, cpu, cur);
    if candidate(u, cpu, next) {
        lemma_picked(u, cpu, cur, next);
    }
    lemma_step(a, b, cpu, u, next);
}

/// A CPU leaves a Running task, which is Ready then, for another.
proof fn lemma_handover(a: RunQueue, b: RunQueue, cpu: int, s: Slots, cur: int, next: int)
    requires
        a.wf(),
        cpus_ok(a),
        table_ok(s, a.sched.next()),
        0 <= cpu < MAX_CPUS,
        forall|d: int|
            0 <= d < MAX_CPUS && #[trigger] a.cpus.current(d) != 0 ==> active(
                s,
                a.cpus.current(d),
            ),
        cur == a.cpus.current(cpu) || cur == idle_slot_of(cpu),
        next != cur,
        cur != 0 ==> in_state(s, cur, TaskState::Running),
        cur == 0 ==> s[0] is Some,
        in_state(s, next, TaskState::Ready) && !reserved(next) && 1 <= next < MAX_TASKS,
        moved(a, b, cpu, handover(s, cur, next), Some(next)),
    ensures
        orderly(b),
{
    let t = Task { state: TaskState::Ready, ..s[cur]->0 };
    let u = s.update(cur, Some(t));
    assert(u == with_state(s, cur, TaskState::Ready));
    if reserved(cur) {
        assert(inert(s[cur]->0));
        assert(unqueued(s, t.id.0)) by {
            assert forall|i: int, k: int| !#[trigger] entry(s, i, k, t.id.0) by {
                if entry(s, i, k, t.id.0) {
                    assert(has_id(s, cur, TaskId(t.id.0)));
                }
            }
        }
    } else {
        assert(active(s, cur));
    }
    lemma_task_changed(s, a.sched.next(), cur, t);
    assert forall|d: int| 0 <= d < MAX_CPUS && d != cpu && #[trigger] a.cpus.current(d)
        != 0 implies active(u, a.cpus.current(d)) by {
        assert(a.cpus.current(d) != cur) by {
            if cur != 0 && a.cpus.current(d) == cur {
                assert(a.cpus.current(cpu) == a.cpus.current(cpu));
                if cur == idle_slot_of(cpu) {
                    assert(cpu >= 1);
                }
            }
        }
        lemma_active_kept(s, u, a.cpus.current(d));
    }
    assert(u[next] == s[next]);
    lemma_step(a, b, cpu, u, next);
}

/// The table with the expired sleepers awake is in order, and what the CPUs execute is as it
/// was.
proof fn lemma_awake(q: RunQueue, now: u64)
    requires
        orderly(q),
    ensures
        table_ok(awake(q.sched.slots(), now), q.sched.next()),
        same_queues(q.sched.slots(), awake(q.sched.slots(), now)),
        forall|d: int|
            0 <= d < MAX_CPUS && #[trigger] q.cpus.current(d) != 0 ==> active(
                awake(q.sched.slots(), now),
                q.cpus.current(d),
            ),
{
    let s = q.sched.slots();
    let u = awake(s, now);
    assert(same_queues(s, u));
    lemma_same_queues(s, u);
    assert forall|i: int, k: int, src: u32, g: int|
        #![trigger entry(u, i, k, src), has_id(u, g, TaskId(src))]
        entry(u, i, k, src) && has_id(u, g, TaskId(src)) implies parked(u[g]->0) && !reserved(g) by {
        assert(entry(s, i, k, src) && has_id(s, g, TaskId(src)));
        assert(!expired(s, g, now));
    }
    assert forall|i: int, k: int, g: int, l: int, src: u32|
        #![trigger entry(u, i, k, src), entry(u, g, l, src)]
        entry(u, i, k, src) && entry(u, g, l, src) implies i == g && k == l by {
        assert(entry(s, i, k, src) && entry(s, g, l, src));
    }
    assert forall|i: int, k: int, src: u32| #[trigger] entry(u, i, k, src) implies exists_id(
        u,
        TaskId(src),
    ) by {
        assert(entry(s, i, k, src));
        assert(exists_id(u, TaskId(src)) == exists_id(s, TaskId(src)));
    }
    assert forall|d: int| 0 <= d < MAX_CPUS && #[trigger] q.cpus.current(d) != 0 implies active(
        u,
        q.cpus.current(d),
    ) by {
        assert(active(s, q.cpus.current(d)));
        assert(!expired(s, q.cpus.current(d), now));
        lemma_active_kept(s, u, q.cpus.current(d));
    }
}

/// A timer tick keeps the scheduler in order.
pub proof fn law_tick_keeps_order(
    a: RunQueue,
    b: RunQueue,
    cpu: int,
    now: u64,
    from_el0: bool,
    woke: bool,
)
    requires
        a.wf(),
        orderly(a),
        has_idle(a, cpu),
        ({
            let s = awake(a.sched.slots(), now);
            let cur = a.cpus.current(cpu);
            moved(
                a,
                b,
                cpu,
                tick_slots(s, cpu, cur, from_el0, woke),
                tick_target(s, cpu, cur, from_el0, woke),
            )
        }),
    ensures
        orderly(b),
{
    let s = awake(a.sched.slots(), now);
    let cur = a.cpus.current(cpu);
    lemma_awake(a, now);
    assert(s[idle_slot_of(cpu)] is Some);
    law_pick_ready(s, cpu, cur);
    match tick_target(s, cpu, cur, from_el0, woke) {
        None => {
            lemma_stay(a, b, cpu, s);
        },
        Some(next) => {
            if candidate(s, cpu, next) {
                lemma_picked(s, cpu, cur, next);
            }
            if in_state(s, cur, TaskState::Zombie) || cur == idle_slot_of(cpu) {
                lemma_step(a, b, cpu, s, next);
            } else {
                law_preemption_never_idles(s, cpu, cur, false);
                lemma_handover(a, b, cpu, s, cur, next);
            }
        },
    }
}

/// A preemption keeps the scheduler in order, be it a yield or the end of a time slice.
pub proof fn law_preemption_keeps_order(a: RunQueue, b: RunQueue, cpu: int, strict: bool)
    requires
        a.wf(),
        orderly(a),
        has_idle(a, cpu),
        ({
            let s = a.sched.slots();
            let cur = a.cpus.current(cpu);
            let target = preempt_target(s, cpu, cur, strict);
            moved(
                a,
                b,
                cpu,
                match target {
                    Some(next) => handover(s, cur, next),
                    None => s,
                },
                target,
            )
        }),
    ensures
        orderly(b),
{
    let s = a.sched.slots();
    let cur = a.cpus.current(cpu);
    match preempt_target(s, cpu, cur, strict) {
        None => {
            lemma_stay(a, b, cpu, s);
        },
        Some(next) => {
            law_preemption_never_idles(s, cpu, cur, strict);
            lemma_picked(s, cpu, cur, next);
            lemma_handover(a, b, cpu, s, cur, next);
        },
    }
}

/// The record of a woken task is that of a task that may be switched to.
pub open spec fn woken_ok(q: RunQueue) -> bool {
    q.sched.woken_slot() matches Some(w) ==> {
        &&& 1 <= w < MAX_TASKS
        &&& !reserved(w as int)
        &&& in_state(q.sched.slots(), w as int, TaskState::Ready)
    }
}

/// The end of a system call keeps the scheduler in order.
pub proof fn law_reschedule_keeps_order(a: RunQueue, b: RunQueue, cpu: int)
    requires
        a.wf(),
        orderly(a),
        has_idle(a, cpu),
        woken_ok(a),
        in_state(a.sched.slots(), a.cpus.current(cpu), TaskState::Running),
        ({
            let s = a.sched.slots();
            let cur = a.cpus.current(cpu);
            let target = wake_target(s, cpu, cur, a.sched.woken_slot());
            moved(
                a,
                b,
                cpu,
                match target {
                    Some(next) => handover(s, cur, next),
                    None => s,
                },
                target,
            )
        }),
    ensures
        orderly(b),
{
    let s = a.sched.slots();
    let cur = a.cpus.current(cpu);
    match wake_target(s, cpu, cur, a.sched.woken_slot()) {
        None => {
            lemma_stay(a, b, cpu, s);
        },
        Some(next) => {
            lemma_handover(a, b, cpu, s, cur, next);
        },
    }
}

/// Entering the scheduler from the boot context keeps it in order.
pub proof fn law_enter_keeps_order(a: RunQueue, b: RunQueue, cpu: int)
    requires
        a.wf(),
        orderly(a),
        has_idle(a, cpu),
        ({
            let s = a.sched.slots();
            let next = pick(s, cpu, a.cpus.current(cpu));
            if next == idle_slot_of(cpu) {
                moved(a, b, cpu, s, None)
            } else {
                moved(a, b, cpu, with_state(s, next, TaskState::Running), Some(next))
            }
        }),
    ensures
        orderly(b),
{
    let s = a.sched.slots();
    let cur = a.cpus.current(cpu);
    let next = pick(s, cpu, cur);
    law_pick_ready(s, cpu, cur);
    if next == idle_slot_of(cpu) {
        lemma_stay(a, b, cpu, s);
    } else {
        lemma_picked(s, cpu, cur, next);
        lemma_step(a, b, cpu, s, next);
    }
}

/// A round of a secondary's idle loop keeps the scheduler in order.
pub proof fn law_secondary_keeps_order(a: RunQueue, b: RunQueue, cpu: int)
    requires
        a.wf(),
        orderly(a),
        has_idle(a, cpu),
        a.cpus.current(cpu) == 0 || a.cpus.current(cpu) == idle_slot_of(cpu),
        in_state(a.sched.slots(), idle_slot_of(cpu), TaskState::Running),
        ({
            let s = a.sched.slots();
            let idle = idle_slot_of(cpu);
            let next = pick(s, cpu, a.cpus.current(cpu));
            if next == idle {
                moved(a, b, cpu, s, None)
            } else {
                moved(a, b, cpu, handover(s, idle, next), Some(next))
            }
        }),
    ensures
        orderly(b),
{
    let s = a.sched.slots();
    let cur = a.cpus.current(cpu);
    let next = pick(s, cpu, cur);
    law_pick_ready(s, cpu, cur);
    if next == idle_slot_of(cpu) {
        lemma_stay(a, b, cpu, s);
    } else {
        lemma_picked(s, cpu, cur, next);
        lemma_handover(a, b, cpu, s, idle_slot_of(cpu), next);
    }
}

/// The exit of a task keeps the scheduler in order.
pub proof fn law_exit_keeps_order(a: RunQueue, b: RunQueue, cpu: int, sw: Switch)
    requires
        a.wf(),
        orderly(a),
        has_idle(a, cpu),
        !reserved(a.cpus.current(cpu)),
        blocked(
            a,
            b,
            cpu,
            with_state(a.sched.slots(), a.cpus.current(cpu), TaskState::Zombie),
            sw,
        ),
    ensures
        orderly(b),
{
    let cur = a.cpus.current(cpu);
    assert(active(a.sched.slots(), cur));
    lemma_left(
        a,
        b,
        cpu,
        Task { state: TaskState::Zombie, ..a.sched.slots()[cur]->0 },
        sw,
    );
}

/// Killing a task after a fault keeps the scheduler in order.
pub proof fn law_fault_keeps_order(a: RunQueue, b: RunQueue, cpu: int, sw: Switch)
    requires
        a.wf(),
        orderly(a),
        has_idle(a, cpu),
        !reserved(a.cpus.current(cpu)),
        blocked(a, b, cpu, faulted(a.sched.slots(), a.cpus.current(cpu)), sw),
    ensures
        orderly(b),
{
    let cur = a.cpus.current(cpu);
    assert(active(a.sched.slots(), cur));
    lemma_left(
        a,
        b,
        cpu,
        Task {
            state: TaskState::Zombie,
            recv_blocked: false,
            recv_buf: 0,
            ..a.sched.slots()[cur]->0
        },
        sw,
    );
}

/// A sleep keeps the scheduler in order.
pub proof fn law_sleep_keeps_order(
    a: RunQueue,
    b: RunQueue,
    cpu: int,
    ms: u32,
    now: u64,
    sw: Switch,
)
    requires
        a.wf(),
        orderly(a),
        has_idle(a, cpu),
        !reserved(a.cpus.current(cpu)),
        in_state(a.sched.slots(), a.cpus.current(cpu), TaskState::Running),
        sleep_post(a, b, cpu, ms, now, sw),
    ensures
        orderly(b),
{
    let cur = a.cpus.current(cpu);
    assert(active(a.sched.slots(), cur));
    lemma_left(
        a,
        b,
        cpu,
        Task {
            sleep_deadline: deadline(now, ms) as u64,
            state: TaskState::Blocked,
            ..a.sched.slots()[cur]->0
        },
        sw,
    );
}

/// Killing a task, from whatever CPU, keeps the scheduler in order.
pub proof fn law_kill_keeps_order(a: RunQueue, b: RunQueue, i: int, id: TaskId, give_up: bool)
    requires
        orderly(a),
        first_id(a.sched.slots(), i, id),
        b.cpus == a.cpus,
        b.sched.next() == a.sched.next(),
        b.sched.slots() == a.sched.slots().update(
            i,
            Some(killed(a.sched.slots()[i]->0, give_up)),
        ),
    ensures
        orderly(b),
{
    let s = a.sched.slots();
    let t = killed(s[i]->0, give_up);
    let u = s.update(i, Some(t));
    assert(has_id(s, i, id));
    assert(unqueued(s, t.id.0) || parked(t)) by {
        if !unqueued(s, t.id.0) {
            let (j, k) = choose|j: int, k: int| #[trigger] entry(s, j, k, t.id.0);
            assert(has_id(s, i, TaskId(t.id.0)));
        }
    }
    lemma_task_changed(s, a.sched.next(), i, t);
    assert forall|d: int| 0 <= d < MAX_CPUS && #[trigger] a.cpus.current(d) != 0 implies active(
        u,
        a.cpus.current(d),
    ) by {
        lemma_active_kept(s, u, a.cpus.current(d));
    }
    lemma_stay(a, b, 0, u);
}

/// A voluntary switch keeps the scheduler in order.
pub proof fn law_schedule_keeps_order(a: RunQueue, b: RunQueue, cpu: int)
    requires
        a.wf(),
        orderly(a),
        has_idle(a, cpu),
        ({
            let s = a.sched.slots();
            let cur = a.cpus.current(cpu);
            let next = pick(s, cpu, cur);
            if next == cur || s[cur] is None || s[next] is None {
                moved(a, b, cpu, s, None)
            } else if in_state(s, cur, TaskState::Running) {
                moved(a, b, cpu, handover(s, cur, next), Some(next))
            } else {
                moved(a, b, cpu, with_state(s, next, TaskState::Running), Some(next))
            }
        }),
    ensures
        orderly(b),
{
    let s = a.sched.slots();
    let cur = a.cpus.current(cpu);
    let next = pick(s, cpu, cur);
    law_pick_ready(s, cpu, cur);
    if next == cur || s[cur] is None || s[next] is None {
        lemma_stay(a, b, cpu, s);
    } else {
        if candidate(s, cpu, next) {
            lemma_picked(s, cpu, cur, next);
        }
        if in_state(s, cur, TaskState::Running) {
            if candidate(s, cpu, next) {
                lemma_handover(a, b, cpu, s, cur, next);
            } else {
                lemma_to_idle(a, b, cpu);
            }
        } else {
            lemma_step(a, b, cpu, s, next);
        }
    }
}

/// A CPU leaves a Running task, which is Ready then, for its idle slot.
proof fn lemma_to_idle(a: RunQueue, b: RunQueue, cpu: int)
    requires
        a.wf(),
        orderly(a),
        has_idle(a, cpu),
        a.cpus.current(cpu) != idle_slot_of(cpu),
        in_state(a.sched.slots(), a.cpus.current(cpu), TaskState::Running),
        moved(
            a,
            b,
            cpu,
            handover(a.sched.slots(), a.cpus.current(cpu), idle_slot_of(cpu)),
            Some(idle_slot_of(cpu)),
        ),
    ensures
        orderly(b),
{
    let s = a.sched.slots();
    let cur = a.cpus.current(cpu);
    let t = Task { state: TaskState::Ready, ..s[cur]->0 };
    let u = s.update(cur, Some(t));
    assert(u == with_state(s, cur, TaskState::Ready));
    if cur == 0 {
        assert(inert(s[0]->0));
        assert(unqueued(s, t.id.0)) by {
            assert forall|i: int, k: int| !#[trigger] entry(s, i, k, t.id.0) by {
                if entry(s, i, k, t.id.0) {
                    assert(has_id(s, 0, TaskId(t.id.0)));
                }
            }
        }
    } else {
        assert(active(s, cur));
    }
    lemma_task_changed(s, a.sched.next(), cur, t);
    assert forall|d: int| 0 <= d < MAX_CPUS && d != cpu && #[trigger] a.cpus.current(d)
        != 0 implies active(u, a.cpus.current(d)) by {
        assert(a.cpus.current(cpu) == cur);
        assert(a.cpus.current(d) != cur);
        lemma_active_kept(s, u, a.cpus.current(d));
    }
    lemma_step(a, b, cpu, u, idle_slot_of(cpu));
}

/// Beginning or ending a wait for an interrupt, or ending a sleep, keeps the scheduler in order.
pub proof fn law_wait_keeps_order(a: RunQueue, b: RunQueue, cpu: int, irq: Option<u32>)
    requires
        orderly(a),
        0 <= cpu < MAX_CPUS,
        a.cpus.current(cpu) != 0,
        b.cpus == a.cpus,
        b.sched.next() == a.sched.next(),
        ({
            let s = a.sched.slots();
            let cur = a.cpus.current(cpu);
            ||| b.sched.slots() == s.update(cur, Some(Task { irq_wait: irq, ..s[cur]->0 }))
            ||| b.sched.slots() == s.update(cur, Some(Task { sleep_deadline: 0, ..s[cur]->0 }))
        }),
    ensures
        orderly(b),
{
    let s = a.sched.slots();
    let cur = a.cpus.current(cpu);
    let u = b.sched.slots();
    let t = u[cur]->0;
    assert(active(s, cur));
    assert(u == s.update(cur, Some(t)));
    lemma_task_changed(s, a.sched.next(), cur, t);
    assert forall|d: int| 0 <= d < MAX_CPUS && #[trigger] a.cpus.current(d) != 0 implies active(
        u,
        a.cpus.current(d),
    ) by {
        lemma_active_kept(s, u, a.cpus.current(d));
    }
    lemma_stay(a, b, cpu, u);
}

/// The task in slot `i`, which waits, is Ready, and no CPU goes elsewhere.
proof fn lemma_woken(a: RunQueue, b: RunQueue, cpu: int, s: Slots, i: int, t: Task)
    requires
        cpus_ok(a),
        table_ok(s, a.sched.next()),
        forall|d: int|
            0 <= d < MAX_CPUS && #[trigger] a.cpus.current(d) != 0 ==> active(
                s,
                a.cpus.current(d),
            ),
        0 <= i < s.len(),
        in_state(s, i, TaskState::Blocked),
        unqueued(s, t.id.0),
        t.state == TaskState::Ready,
        t.id == s[i]->0.id,
        t.cpu_affinity == s[i]->0.cpu_affinity,
        t.pending_senders == s[i]->0.pending_senders,
        inert(t),
        moved(a, b, cpu, s.update(i, Some(t)), None),
        b.sched.woken_slot() == Some(i as usize),
    ensures
        orderly(b),
        woken_ok(b),
{
    let u = s.update(i, Some(t));
    lemma_task_changed(s, a.sched.next(), i, t);
    assert forall|d: int| 0 <= d < MAX_CPUS && #[trigger] a.cpus.current(d) != 0 implies active(
        u,
        a.cpus.current(d),
    ) by {
        assert(a.cpus.current(d) != i);
        lemma_active_kept(s, u, a.cpus.current(d));
    }
    lemma_stay(a, b, cpu, u);
    assert(!reserved(i)) by {
        if reserved(i) {
            assert(s[i]->0.state != TaskState::Blocked);
        }
    }
    assert(i != 0);
}

/// The caller's message waits in the queue of the task in slot `i`.
proof fn lemma_queued(
    a: RunQueue,
    b: RunQueue,
    cpu: int,
    i: int,
    k: int,
    t: Task,
    msg: Message,
    sw: Switch,
)
    requires
        a.wf(),
        orderly(a),
        has_idle(a, cpu),
        !reserved(a.cpus.current(cpu)),
        ({
            let s = a.sched.slots();
            let cur = a.cpus.current(cpu);
            let me = s[cur]->0.id.0;
            &&& in_state(s, cur, TaskState::Running)
            &&& 0 <= i < s.len()
            &&& i != cur
            &&& s[i] is Some
            &&& queue_room(s[i]->0, k)
            &&& queue_set(s[i]->0, t, k, Some(PendingSend { src: me, msg }))
            &&& blocked(
                a,
                b,
                cpu,
                with_state(s.update(i, Some(t)), cur, TaskState::Blocked),
                sw,
            )
        }),
    ensures
        orderly(b),
{
    let s = a.sched.slots();
    let cur = a.cpus.current(cpu);
    let me = s[cur]->0.id.0;
    let u = with_state(s.update(i, Some(t)), cur, TaskState::Blocked);
    assert(active(s, cur));
    assert(u[cur] == Some(Task { state: TaskState::Blocked, ..s[cur]->0 }));
    assert(u[i] == Some(t));
    assert forall|j: int, l: int, src: u32| #[trigger] entry(u, j, l, src) implies (entry(
        s,
        j,
        l,
        src,
    ) && src != me) || (j == i && l == k && src == me) by {
        if j == i {
            if l != k {
                assert(t.pending_senders@[l] == s[i]->0.pending_senders@[l]);
                assert(entry(s, j, l, src));
            }
        } else {
            assert(entry(s, j, l, src));
        }
        assert(!entry(s, j, l, me));
    }
    assert forall|j: int, id: TaskId| #[trigger] has_id(u, j, id) == has_id(s, j, id) by {}
    assert forall|j: int, l: int, src: u32| #[trigger] entry(u, j, l, src) implies exists_id(
        u,
        TaskId(src),
    ) by {
        if src == me {
            assert(has_id(u, cur, TaskId(me)));
        } else {
            assert(entry(s, j, l, src));
            let g = choose|g: int| #[trigger] has_id(s, g, TaskId(src));
            assert(has_id(u, g, TaskId(src)));
        }
    }
    assert forall|j: int, l: int, src: u32, g: int|
        #![trigger entry(u, j, l, src), has_id(u, g, TaskId(src))]
        entry(u, j, l, src) && has_id(u, g, TaskId(src)) implies parked(u[g]->0) && !reserved(g) by {
        assert(has_id(s, g, TaskId(src)));
        if src == me {
            assert(g == cur);
        } else {
            assert(entry(s, j, l, src));
            assert(g != cur);
        }
    }
    assert forall|j: int, l: int, g: int, m: int, src: u32|
        #![trigger entry(u, j, l, src), entry(u, g, m, src)]
        entry(u, j, l, src) && entry(u, g, m, src) implies j == g && l == m by {
        if src != me {
            assert(entry(s, j, l, src) && entry(s, g, m, src));
        }
    }
    assert(queues_ok(u));
    assert(table_ok(u, a.sched.next()));
    assert forall|d: int| 0 <= d < MAX_CPUS && d != cpu && #[trigger] a.cpus.current(d)
        != 0 implies active(u, a.cpus.current(d)) by {
        let c = a.cpus.current(d);
        assert(a.cpus.current(cpu) == cur);
        assert(c != cur);
        assert(active(s, c));
        assert(s[c]->0.id.0 != me);
        assert forall|j: int, l: int| !#[trigger] entry(u, j, l, u[c]->0.id.0) by {
            assert(!entry(s, j, l, s[c]->0.id.0));
        }
    }
    let next = pick(u, cpu, cur);
    law_pick_ready(u, cpu, cur);
    if candidate(u, cpu, next) {
        lemma_picked(u, cpu, cur, next);
    }
    assert(u[idle_slot_of(cpu)] is Some);
    lemma_step(a, b, cpu, u, next);
}

/// A send keeps the scheduler in order, and the record of whom it woke is right.
pub proof fn law_send_keeps_order(
    a: RunQueue,
    b: RunQueue,
    cpu: int,
    dst: u32,
    msg: Message,
    r: SendOutcome,
)
    requires
        a.wf(),
        orderly(a),
        woken_ok(a),
        has_idle(a, cpu),
        !reserved(a.cpus.current(cpu)),
        in_state(a.sched.slots(), a.cpus.current(cpu), TaskState::Running),
        send_post(a, b, cpu, dst, msg, r),
    ensures
        orderly(b),
        r is Delivered || r is Refused ==> woken_ok(b),
{
    let s = a.sched.slots();
    let cur = a.cpus.current(cpu);
    let me = current_of(s, cur).0;
    assert(active(s, cur));
    match r {
        SendOutcome::Refused(e) => {},
        SendOutcome::Delivered(d, mask) => {
            let i = choose|i: int| #[trigger]
                first_id(s, i, TaskId(dst)) && accepts(s[i]->0, me) && moved(
                    a,
                    b,
                    cpu,
                    s.update(
                        i,
                        Some(Task { recv_blocked: false, state: TaskState::Ready, ..s[i]->0 }),
                    ),
                    None,
                ) && b.sched.woken_slot() == Some(i as usize);
            let t = Task { recv_blocked: false, state: TaskState::Ready, ..s[i]->0 };
            assert(has_id(s, i, TaskId(dst)));
            assert(unqueued(s, t.id.0)) by {
                assert forall|j: int, k: int| !#[trigger] entry(s, j, k, t.id.0) by {
                    if entry(s, j, k, t.id.0) {
                        assert(has_id(s, i, TaskId(t.id.0)));
                    }
                }
            }
            lemma_woken(a, b, cpu, s, i, t);
        },
        SendOutcome::Blocked(sw) => {
            let i = choose|i: int| #[trigger]
                first_id(s, i, TaskId(dst)) && dst != me && !accepts(s[i]->0, me)
                    && b.sched.woken_slot() == a.sched.woken_slot() && {
                    ||| exists|k: int, t: Task|
                        #![trigger queue_room(s[i]->0, k), queue_set(s[i]->0, t, k, Some(PendingSend { src: me, msg }))]
                        queue_room(s[i]->0, k) && queue_set(
                            s[i]->0,
                            t,
                            k,
                            Some(PendingSend { src: me, msg }),
                        ) && blocked(
                            a,
                            b,
                            cpu,
                            with_state(s.update(i, Some(t)), cur, TaskState::Blocked),
                            sw,
                        )
                    ||| queue_full(s[i]->0) && blocked(
                        a,
                        b,
                        cpu,
                        s.update(
                            cur,
                            Some(
                                Task {
                                    send_full_wait: Some(StagedSend { dst, src: me, msg }),
                                    state: TaskState::Blocked,
                                    ..s[cur]->0
                                },
                            ),
                        ),
                        sw,
                    )
                };
            assert(has_id(s, i, TaskId(dst)));
            if exists|k: int, t: Task|
                #![trigger queue_room(s[i]->0, k), queue_set(s[i]->0, t, k, Some(PendingSend { src: me, msg }))]
                queue_room(s[i]->0, k) && queue_set(
                    s[i]->0,
                    t,
                    k,
                    Some(PendingSend { src: me, msg }),
                ) && blocked(
                    a,
                    b,
                    cpu,
                    with_state(s.update(i, Some(t)), cur, TaskState::Blocked),
                    sw,
                ) {
                let (k, t) = choose|k: int, t: Task|
                    #![trigger queue_room(s[i]->0, k), queue_set(s[i]->0, t, k, Some(PendingSend { src: me, msg }))]
                    queue_room(s[i]->0, k) && queue_set(
                        s[i]->0,
                        t,
                        k,
                        Some(PendingSend { src: me, msg }),
                    ) && blocked(
                        a,
                        b,
                        cpu,
                        with_state(s.update(i, Some(t)), cur, TaskState::Blocked),
                        sw,
                    );
                lemma_queued(a, b, cpu, i, k, t, msg, sw);
            } else {
                lemma_left(
                    a,
                    b,
                    cpu,
                    Task {
                        send_full_wait: Some(StagedSend { dst, src: me, msg }),
                        state: TaskState::Blocked,
                        ..s[cur]->0
                    },
                    sw,
                );
            }
        },
    }
}

/// Taking entry `k` from the queue of the task in slot `cur` leaves the table in order, and
/// its sender is in no queue.
proof fn lemma_taken(q: RunQueue, cur: int, k: int, t: Task)
    requires
        orderly(q),
        0 <= cur < q.sched.slots().len(),
        q.sched.slots()[cur] is Some,
        0 <= k < MAX_PENDING_SENDERS,
        q.sched.slots()[cur]->0.pending_senders@[k] is Some,
        queue_set(q.sched.slots()[cur]->0, t, k, None),
    ensures
        table_ok(q.sched.slots().update(cur, Some(t)), q.sched.next()),
        unqueued(
            q.sched.slots().update(cur, Some(t)),
            q.sched.slots()[cur]->0.pending_senders@[k]->0.src,
        ),
        forall|d: int|
            0 <= d < MAX_CPUS && #[trigger] q.cpus.current(d) != 0 ==> active(
                q.sched.slots().update(cur, Some(t)),
                q.cpus.current(d),
            ),
{
    let s = q.sched.slots();
    let u = s.update(cur, Some(t));
    let p = s[cur]->0.pending_senders@[k]->0;
    assert(entry(s, cur, k, p.src));
    assert forall|j: int, l: int, src: u32| #[trigger] entry(u, j, l, src) implies entry(
        s,
        j,
        l,
        src,
    ) && !(j == cur && l == k) by {
        if j == cur && l != k {
            assert(t.pending_senders@[l] == s[cur]->0.pending_senders@[l]);
        }
    }
    assert forall|j: int, id: TaskId| #[trigger] has_id(u, j, id) == has_id(s, j, id) by {}
    assert forall|j: int, l: int| !#[trigger] entry(u, j, l, p.src) by {
        if entry(u, j, l, p.src) {
            assert(entry(s, j, l, p.src));
        }
    }
    assert forall|j: int, l: int, src: u32| #[trigger] entry(u, j, l, src) implies exists_id(
        u,
        TaskId(src),
    ) by {
        assert(entry(s, j, l, src));
        let g = choose|g: int| #[trigger] has_id(s, g, TaskId(src));
        assert(has_id(u, g, TaskId(src)));
    }
    assert forall|j: int, l: int, src: u32, g: int|
        #![trigger entry(u, j, l, src), has_id(u, g, TaskId(src))]
        entry(u, j, l, src) && has_id(u, g, TaskId(src)) implies parked(u[g]->0) && !reserved(g) by {
        assert(entry(s, j, l, src) && has_id(s, g, TaskId(src)));
    }
    assert forall|j: int, l: int, g: int, m: int, src: u32|
        #![trigger entry(u, j, l, src), entry(u, g, m, src)]
        entry(u, j, l, src) && entry(u, g, m, src) implies j == g && l == m by {
        assert(entry(s, j, l, src) && entry(s, g, m, src));
    }
    assert(queues_ok(u));
    assert forall|d: int| 0 <= d < MAX_CPUS && #[trigger] q.cpus.current(d) != 0 implies active(
        u,
        q.cpus.current(d),
    ) by {
        let c = q.cpus.current(d);
        assert(active(s, c));
        assert forall|j: int, l: int| !#[trigger] entry(u, j, l, u[c]->0.id.0) by {
            assert(!entry(s, j, l, s[c]->0.id.0));
        }
    }
}

/// A receive keeps the scheduler in order, and the record of whom it woke is right.
pub proof fn law_receive_keeps_order(
    a: RunQueue,
    b: RunQueue,
    cpu: int,
    filter: i32,
    out: u64,
    r: ReceiveOutcome,
)
    requires
        a.wf(),
        orderly(a),
        woken_ok(a),
        has_idle(a, cpu),
        !reserved(a.cpus.current(cpu)),
        in_state(a.sched.slots(), a.cpus.current(cpu), TaskState::Running),
        receive_post(a, b, cpu, filter, out, r),
    ensures
        orderly(b),
        r is Received ==> woken_ok(b),
{
    let s = a.sched.slots();
    let cur = a.cpus.current(cpu);
    assert(active(s, cur));
    match r {
        ReceiveOutcome::Received(m, mask) => {
            if exists|k: int, t1: Task, s2: Slots, w: Option<int>| #[trigger]
                took_pending(a, b, cpu, filter, m, mask, k, t1, s2, w) {
                let (k, t1, s2, w) = choose|k: int, t1: Task, s2: Slots, w: Option<int>| #[trigger]
                    took_pending(a, b, cpu, filter, m, mask, k, t1, s2, w);
                lemma_received(a, b, cpu, filter, k, t1, s2, w);
            } else {
                let i = choose|i: int| #[trigger] took_staged(a, b, cpu, filter, m, mask, i);
                let t = Task { send_full_wait: None, state: TaskState::Ready, ..s[i]->0 };
                assert(staged_match(s, s[cur]->0.id.0, filter, i));
                assert(unqueued(s, t.id.0)) by {
                    assert forall|j: int, l: int| !#[trigger] entry(s, j, l, t.id.0) by {
                        if entry(s, j, l, t.id.0) {
                            assert(has_id(s, i, TaskId(t.id.0)));
                        }
                    }
                }
                lemma_woken(a, b, cpu, s, i, t);
            }
        },
        ReceiveOutcome::Blocked(sw) => {
            lemma_left(
                a,
                b,
                cpu,
                Task {
                    recv_blocked: true,
                    recv_filter: filter,
                    recv_buf: out,
                    state: TaskState::Blocked,
                    ..s[cur]->0
                },
                sw,
            );
        },
    }
}

/// A message was taken from the caller's queue, and its sender woken.
proof fn lemma_received(
    a: RunQueue,
    b: RunQueue,
    cpu: int,
    filter: i32,
    k: int,
    t1: Task,
    s2: Slots,
    w: Option<int>,
)
    requires
        a.wf(),
        orderly(a),
        woken_ok(a),
        0 <= cpu < MAX_CPUS,
        a.cpus.current(cpu) != 0,
        in_state(a.sched.slots(), a.cpus.current(cpu), TaskState::Running),
        ({
            let s = a.sched.slots();
            let cur = a.cpus.current(cpu);
            let t = s[cur]->0;
            let p = t.pending_senders@[k]->0;
            &&& first_pending(t, filter, k)
            &&& queue_set(t, t1, k, None)
            &&& sender_woken(s.update(cur, Some(t1)), p.src, s2, w)
            &&& moved(a, b, cpu, s2, None)
            &&& match w {
                Some(i) => b.sched.woken_slot() == Some(i as usize),
                None => b.sched.woken_slot() == a.sched.woken_slot(),
            }
        }),
    ensures
        orderly(b),
        woken_ok(b),
{
    let s = a.sched.slots();
    let cur = a.cpus.current(cpu);
    let t = s[cur]->0;
    let p = t.pending_senders@[k]->0;
    let u = s.update(cur, Some(t1));
    assert(active(s, cur));
    assert(pending_match(t, filter, k));
    assert(entry(s, cur, k, p.src));
    lemma_taken(a, cur, k, t1);
    match w {
        Some(i) => {
            assert(exists_id(u, TaskId(p.src)));
            assert(first_id(u, i, TaskId(p.src)));
            assert(has_id(u, i, TaskId(p.src)));
            assert(has_id(s, i, TaskId(p.src)));
            assert(parked(s[i]->0));
            assert(i != cur);
            assert(s2 == with_state(u, i, TaskState::Ready));
            lemma_woken(a, b, cpu, u, i, Task { state: TaskState::Ready, ..u[i]->0 });
        },
        None => {
            assert(s2 == u);
            lemma_stay(a, b, cpu, u);
            if let Some(x) = a.sched.woken_slot() {
                assert(x as int != cur);
                assert(u[x as int] == s[x as int]);
            }
        },
    }
}

/// A new task, which waits for nothing, keeps the scheduler in order.
pub proof fn law_spawn_keeps_order(a: RunQueue, b: RunQueue, i: int)
    requires
        orderly(a),
        a.sched.next() < IDLE_ID,
        first_free(a.sched.slots(), i),
        b.cpus == a.cpus,
        b.sched.next() == a.sched.next() + 1,
        b.sched.slots()[i] is Some,
        b.sched.slots() == a.sched.slots().update(i, b.sched.slots()[i]),
        ({
            let t = b.sched.slots()[i]->0;
            &&& t.id == TaskId(a.sched.next() as u32)
            &&& t.state == TaskState::Ready
            &&& inert(t)
            &&& forall|k: int| 0 <= k < MAX_PENDING_SENDERS ==> #[trigger] t.pending_senders@[k] is None
        }),
    ensures
        orderly(b),
        b.sched.woken_slot() == Some(i as usize) ==> woken_ok(b),
{
    let s = a.sched.slots();
    lemma_added(s, a.sched.next(), b.sched.slots(), b.sched.next(), i);
    assert forall|d: int| 0 <= d < MAX_CPUS && #[trigger] a.cpus.current(d) != 0 implies active(
        b.sched.slots(),
        a.cpus.current(d),
    ) by {
        lemma_active_added(s, b.sched.slots(), i, a.cpus.current(d));
    }
    assert forall|c: int|
        0 <= c < MAX_CPUS implies 0 <= #[trigger] b.cpus.current(c) < MAX_TASKS && (
    b.cpus.current(c) != 0 ==> active(b.sched.slots(), b.cpus.current(c))) by {
        assert(0 <= a.cpus.current(c) < MAX_TASKS);
    }
}

/// The table with one more task is in order.
proof fn lemma_added(s: Slots, next: int, u: Slots, after: int, i: int)
    requires
        table_ok(s, next),
        0 < i < s.len(),
        s[i] is None,
        u[i] is Some,
        u == s.update(i, u[i]),
        next <= after <= IDLE_ID,
        idle_of(i) ==> u[i]->0.id.0 == IDLE_ID + (i - IDLE_SLOT_BASE) + 1
            && u[i]->0.cpu_affinity == Some((i - IDLE_SLOT_BASE + 1) as usize),
        !idle_of(i) ==> next <= u[i]->0.id.0 < after,
        inert(u[i]->0),
        u[i]->0.state == TaskState::Ready || u[i]->0.state == TaskState::Running,
        forall|k: int|
            0 <= k < MAX_PENDING_SENDERS ==> #[trigger] u[i]->0.pending_senders@[k] is None,
    ensures
        table_ok(u, after),
{
    assert forall|j: int, k: int, src: u32| #[trigger] entry(u, j, k, src) implies entry(
        s,
        j,
        k,
        src,
    ) by {
        if j == i {
            assert(u[i]->0.pending_senders@[k] is None);
        }
    }
    assert forall|j: int, k: int, src: u32| #[trigger] entry(u, j, k, src) implies exists_id(
        u,
        TaskId(src),
    ) && u[i]->0.id.0 != src by {
        assert(entry(s, j, k, src));
        let g = choose|g: int| #[trigger] has_id(s, g, TaskId(src));
        assert(has_id(u, g, TaskId(src)));
        assert(s[g] is Some);
    }
    assert forall|j: int, k: int, src: u32, g: int|
        #![trigger entry(u, j, k, src), has_id(u, g, TaskId(src))]
        entry(u, j, k, src) && has_id(u, g, TaskId(src)) implies parked(u[g]->0) && !reserved(g) by {
        assert(entry(s, j, k, src));
        assert(g != i);
        assert(has_id(s, g, TaskId(src)));
    }
    assert forall|j: int, k: int, g: int, l: int, src: u32|
        #![trigger entry(u, j, k, src), entry(u, g, l, src)]
        entry(u, j, k, src) && entry(u, g, l, src) implies j == g && k == l by {
        assert(entry(s, j, k, src) && entry(s, g, l, src));
    }
    assert(queues_ok(u));
    assert forall|j: int, g: int|
        0 <= j < u.len() && 0 <= g < u.len() && j != g && (#[trigger] u[j]) is Some && (
        #[trigger] u[g]) is Some implies u[j]->0.id != u[g]->0.id by {
        if j != i && g != i {
            assert(s[j] is Some && s[g] is Some);
        } else {
            let h = if j == i {
                g
            } else {
                j
            };
            assert(s[h] is Some);
        }
    }
}

proof fn lemma_active_added(s: Slots, u: Slots, i: int, c: int)
    requires
        active(s, c),
        0 <= i < s.len(),
        s[i] is None,
        u[i] is Some,
        u == s.update(i, u[i]),
        forall|k: int|
            0 <= k < MAX_PENDING_SENDERS ==> #[trigger] u[i]->0.pending_senders@[k] is None,
    ensures
        active(u, c),
{
    assert forall|j: int, k: int| !#[trigger] entry(u, j, k, u[c]->0.id.0) by {
        assert(!entry(s, j, k, s[c]->0.id.0));
        if j == i && 0 <= k < MAX_PENDING_SENDERS {
            assert(u[i]->0.pending_senders@[k] is None);
        }
    }
}

/// The scheduler is in order when it is new.
pub proof fn law_new_is_orderly(q: RunQueue)
    requires
        q.sched.slots().len() == 32,
        forall|i: int| 1 <= i < 32 ==> #[trigger] q.sched.slots()[i] is None,
        is_boot_context(q.sched.slots()[0]),
        q.sched.next() == 1,
        forall|c: int| 0 <= c < MAX_CPUS ==> #[trigger] q.cpus.current(c) == 0,
    ensures
        orderly(q),
        has_idle(q, 0),
{
    let s = q.sched.slots();
    assert forall|i: int, k: int, src: u32| !#[trigger] entry(s, i, k, src) by {
        if i == 0 && 0 <= k < MAX_PENDING_SENDERS {
            assert(s[0]->0.pending_senders@[k] is None);
        } else if 1 <= i < 32 {
            assert(s[i] is None);
        }
    }
    assert(queues_ok(s));
    assert(table_ok(s, 1));
}

/// Bringing up the secondaries keeps the scheduler in order, and every CPU has its idle task.
pub proof fn law_bring_up_keeps_order(a: RunQueue, b: RunQueue)
    requires
        orderly(a),
        forall|c: int| 1 <= c < MAX_CPUS ==> a.sched.slots()[#[trigger] idle_slot_of(c)] is None,
        b.sched.slots().len() == MAX_TASKS,
        b.sched.next() == a.sched.next(),
        forall|c: int|
            1 <= c < MAX_CPUS ==> (b.sched.slots()[#[trigger] idle_slot_of(c)] matches Some(t)
                && is_idle_task(t, c)),
        forall|i: int|
            0 <= i < MAX_TASKS && other_slot(i) ==> #[trigger] b.sched.slots()[i]
                == a.sched.slots()[i],
        forall|c: int|
            0 <= c < MAX_CPUS ==> #[trigger] b.cpus.current(c) == a.cpus.current(c),
    ensures
        orderly(b),
        forall|c: int| 0 <= c < MAX_CPUS ==> #[trigger] has_idle(b, c),
{
    let s = a.sched.slots();
    let u = b.sched.slots();
    let next = a.sched.next();
    assert(idle_slot_of(1) == 16 && idle_slot_of(2) == 17 && idle_slot_of(3) == 18);
    let s1 = s.update(16, u[16]);
    let s2 = s1.update(17, u[17]);
    let s3 = s2.update(18, u[18]);
    assert(u =~= s3) by {
        assert forall|i: int| 0 <= i < 32 implies u[i] == s3[i] by {
            if other_slot(i) {
                assert(u[i] == s[i]);
            }
        }
    }
    lemma_added(s, next, s1, next, 16);
    lemma_added(s1, next, s2, next, 17);
    lemma_added(s2, next, s3, next, 18);
    assert forall|d: int| 0 <= d < MAX_CPUS && #[trigger] a.cpus.current(d) != 0 implies active(
        u,
        a.cpus.current(d),
    ) by {
        lemma_active_added(s, s1, 16, a.cpus.current(d));
        lemma_active_added(s1, s2, 17, a.cpus.current(d));
        lemma_active_added(s2, s3, 18, a.cpus.current(d));
    }
    assert forall|c: int|
        0 <= c < MAX_CPUS implies 0 <= #[trigger] b.cpus.current(c) < MAX_TASKS && (
    b.cpus.current(c) != 0 ==> active(b.sched.slots(), b.cpus.current(c))) by {
        assert(0 <= a.cpus.current(c) < MAX_TASKS);
    }
    assert forall|c: int, d: int|
        #![trigger b.cpus.current(c), b.cpus.current(d)]
        0 <= c < MAX_CPUS && 0 <= d < MAX_CPUS && c != d && b.cpus.current(c) != 0 implies
        b.cpus.current(c) != b.cpus.current(d) by {
        assert(a.cpus.current(c) == a.cpus.current(c) && a.cpus.current(d) == a.cpus.current(d));
    }
    assert forall|c: int, d: int|
        #![trigger b.cpus.current(c), idle_slot_of(d)]
        0 <= c < MAX_CPUS && 1 <= d < MAX_CPUS && b.cpus.current(c) == idle_slot_of(d) implies c
        == d by {
        assert(a.cpus.current(c) == idle_slot_of(d));
    }
    assert forall|c: int| 0 <= c < MAX_CPUS implies #[trigger] has_idle(b, c) by {
        if c == 0 {
            assert(u[0] == s[0]);
        } else {
            assert(u[idle_slot_of(c)] is Some);
        }
    }
}

} // verus!
