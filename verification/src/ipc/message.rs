//! `send` and `receive` between tasks.
//!
//! A send blocks until the receiver accepts the message.  If the receiver waits
//! for it, it is delivered at once; otherwise the message waits in the
//! receiver's queue, or, where that is full, on the sender.  It is never
//! dropped.

use vstd::prelude::*;
use crate::sched::run::{current_of, is_idle_mask, moved, no_cpus, RunQueue, Switch};
use crate::sched::task::{
    exists_id, first_id, has_id, in_state, pick, with_state, Slots, Task, MAX_PENDING_SENDERS,
    MAX_TASKS,
};
use crate::sched::{Message, PendingSend, StagedSend, TaskId, TaskState, M_ANY};
use crate::smp::{CpuMask, MAX_CPUS};

verus! {

/// A message to be copied to `buf` in the address space `ttbr0`.
#[derive(Debug, Clone, Copy)]
pub struct Delivery {
    /// Root of the receiver's tables (0 is the kernel's).
    pub ttbr0: u64,
    pub buf: u64,
    pub msg: Message,
}

/// Outcome of a send.
#[derive(Debug, Clone, Copy)]
pub enum SendOutcome {
    /// Nothing was sent; the error code.
    Refused(i32),
    /// The receiver was waiting: copy the message, poke the parked CPUs.
    Delivered(Delivery, CpuMask),
    /// The sender blocks until the receiver accepts the message.
    Blocked(Switch),
}

/// Outcome of a receive.
#[derive(Debug, Clone, Copy)]
pub enum ReceiveOutcome {
    /// The message for the caller's buffer and the parked CPUs to poke; the
    /// result is the sender's id.
    Received(Message, CpuMask),
    /// The caller blocks until a sender delivers to its buffer.
    Blocked(Switch),
}

/// The task waits for a message that `src` may send.
pub open spec fn accepts(t: Task, src: u32) -> bool {
    t.recv_blocked && (t.recv_filter == M_ANY || t.recv_filter == src as i32)
}

/// A receive with `filter` takes messages of `src`.
pub open spec fn matching(filter: i32, src: u32) -> bool {
    filter == M_ANY || src == filter as u32
}

/// Entry `k` is the first free one of the task's send queue.
pub open spec fn queue_room(t: Task, k: int) -> bool {
    &&& 0 <= k < MAX_PENDING_SENDERS
    &&& t.pending_senders@[k] is None
    &&& forall|j: int| 0 <= j < k ==> #[trigger] t.pending_senders@[j] is Some
}

/// The task's send queue is full.
pub open spec fn queue_full(t: Task) -> bool {
    forall|j: int| 0 <= j < MAX_PENDING_SENDERS ==> #[trigger] t.pending_senders@[j] is Some
}

/// Entry `k` of the task's send queue holds a message that `filter` takes.
pub open spec fn pending_match(t: Task, filter: i32, k: int) -> bool {
    &&& 0 <= k < MAX_PENDING_SENDERS
    &&& t.pending_senders@[k] is Some
    &&& matching(filter, t.pending_senders@[k]->0.src)
}

/// Entry `k` is the first of these.
pub open spec fn first_pending(t: Task, filter: i32, k: int) -> bool {
    pending_match(t, filter, k) && forall|j: int|
        0 <= j < k ==> !#[trigger] pending_match(t, filter, j)
}

/// The task in slot `i` holds back a message for `dst` that `filter` takes.
pub open spec fn staged_match(s: Slots, dst: u32, filter: i32, i: int) -> bool {
    &&& 1 <= i < s.len()
    &&& s[i] is Some
    &&& s[i]->0.state != TaskState::Zombie
    &&& s[i]->0.send_full_wait is Some
    &&& s[i]->0.send_full_wait->0.dst == dst
    &&& matching(filter, s[i]->0.send_full_wait->0.src)
}

/// Slot `i` is the first of these.
pub open spec fn first_staged(s: Slots, dst: u32, filter: i32, i: int) -> bool {
    staged_match(s, dst, filter, i) && forall|j: int|
        j < i ==> !#[trigger] staged_match(s, dst, filter, j)
}

/// `t` is `before` with entry `k` of its send queue set to `p`.
pub open spec fn queue_set(before: Task, t: Task, k: int, p: Option<PendingSend>) -> bool {
    &&& t == (Task { pending_senders: t.pending_senders, ..before })
    &&& t.pending_senders@ == before.pending_senders@.update(k, p)
}

/// Blocked: the best task takes over from the table `s`.
pub open spec fn blocked(a: RunQueue, b: RunQueue, cpu: int, s: Slots, sw: Switch) -> bool {
    let cur = a.cpus.current(cpu);
    let next = pick(s, cpu, cur);
    &&& sw.from == cur
    &&& sw.to == next
    &&& moved(a, b, cpu, with_state(s, next, TaskState::Running), Some(next))
}

/// What a send of `msg` to `dst` does.
pub open spec fn send_post(
    a: RunQueue,
    b: RunQueue,
    cpu: int,
    dst: u32,
    msg: Message,
    r: SendOutcome,
) -> bool {
    let s = a.sched.slots();
    let cur = a.cpus.current(cpu);
    let me = current_of(s, cur).0;
    match r {
        SendOutcome::Refused(e) => {
            &&& (e == -2 && dst == me) || (e == -3 && dst != me && !exists_id(s, TaskId(dst)))
            &&& b == a
        },
        SendOutcome::Delivered(d, mask) => exists|i: int| #[trigger]
            first_id(s, i, TaskId(dst)) && {
                let t = s[i]->0;
                &&& dst != me
                &&& accepts(t, me)
                &&& d == (Delivery { ttbr0: t.ttbr0, buf: t.recv_buf, msg: msg.stamped(me) })
                &&& moved(
                    a,
                    b,
                    cpu,
                    s.update(
                        i,
                        Some(Task { recv_blocked: false, state: TaskState::Ready, ..t }),
                    ),
                    None,
                )
                &&& b.sched.woken_slot() == Some(i as usize)
                &&& is_idle_mask(b, mask)
            },
        SendOutcome::Blocked(sw) => exists|i: int| #[trigger]
            first_id(s, i, TaskId(dst)) && dst != me && !accepts(s[i]->0, me)
                && b.sched.woken_slot() == a.sched.woken_slot() && {
                ||| exists|k: int, t: Task|
                    #![trigger queue_room(s[i]->0, k), queue_set(s[i]->0, t, k, Some(PendingSend { src: me, msg }))]
                    queue_room(s[i]->0, k) && queue_set(
                        s[i]->0,
                        t,
                        k,
                        Some(PendingSend { src: me, msg }),
                    ) && blocked(
                        a,
                        b,
                        cpu,
                        with_state(s.update(i, Some(t)), cur, TaskState::Blocked),
                        sw,
                    )
                ||| queue_full(s[i]->0) && blocked(
                    a,
                    b,
                    cpu,
                    s.update(
                        cur,
                        Some(
                            Task {
                                send_full_wait: Some(StagedSend { dst, src: me, msg }),
                                state: TaskState::Blocked,
                                ..s[cur]->0
                            },
                        ),
                    ),
                    sw,
                )
            },
    }
}

/// `send(dst, msg)` by the task that `cpu` runs.
pub fn sys_send(q: &mut RunQueue, cpu: usize, dst: u32, msg: Message) -> (r: SendOutcome)
    requires
        old(q).wf(),
        cpu < MAX_CPUS,
        old(q).sched.slots()[old(q).cpus.current(cpu as int)] is Some,
    ensures
        final(q).wf(),
        send_post(*old(q), *final(q), cpu as int, dst, msg, r),
{
    let ghost a = *q;
    let ghost s = q.sched.slots();
    let ghost cur = q.cpus.current(cpu as int);
    proof {
        q.sched.lemma_len();
        assert(q.cpus.current(cpu as int) < 32);
    }
    let my_idx: usize = q.cpus.current_idx(cpu);
    let me: u32 = q.sched.current_id(my_idx).0;
    if dst == me {
        return SendOutcome::Refused(-2);
    }
    let dst_idx: usize = match q.sched.task_idx(TaskId(dst)) {
        Some(i) => i,
        None => {
            return SendOutcome::Refused(-3);
        },
    };
    assert(first_id(s, dst_idx as int, TaskId(dst)));
    let mut t: Task = match q.sched.task_at(dst_idx) {
        Some(t) => *t,
        None => Task::idle(),
    };
    assert(s[dst_idx as int] == Some(t));
    if t.recv_blocked && (t.recv_filter == M_ANY || t.recv_filter == me as i32) {
        let d = Delivery {
            ttbr0: t.ttbr0,
            buf: t.recv_buf,
            msg: Message { src: me, mtype: msg.mtype, data: msg.data },
        };
        if let Some(t) = q.sched.task_at_mut(dst_idx) {
            t.recv_blocked = false;
            t.state = TaskState::Ready;
        }
        q.sched.set_woken(dst_idx);
        let mask = q.poke_idle_secondaries();
        return SendOutcome::Delivered(d, mask);
    }
    let mut k: usize = 0;
    while k < MAX_PENDING_SENDERS && t.pending_senders[k].is_some()
        invariant
            k <= MAX_PENDING_SENDERS,
            forall|j: int| 0 <= j < k ==> #[trigger] t.pending_senders@[j] is Some,
        decreases MAX_PENDING_SENDERS - k,
    {
        k = k + 1;
    }
    if k < MAX_PENDING_SENDERS {
        let ghost before = t;
        assert(queue_room(before, k as int));
        t.pending_senders[k] = Some(PendingSend { src: me, msg });
        assert(queue_set(before, t, k as int, Some(PendingSend { src: me, msg })));
        if let Some(d) = q.sched.task_at_mut(dst_idx) {
            *d = t;
        }
        assert(q.sched.slots() == s.update(dst_idx as int, Some(t)));
        q.sched.set_state(my_idx, TaskState::Blocked);
        let ghost s2 = with_state(s.update(dst_idx as int, Some(t)), cur, TaskState::Blocked);
        let ghost mid = *q;
        let sw = q.switch_away(cpu);
        assert(blocked(a, *q, cpu as int, s2, sw));
        SendOutcome::Blocked(sw)
    } else {
        assert(queue_full(t));
        if let Some(me_task) = q.sched.task_at_mut(my_idx) {
            me_task.send_full_wait = Some(StagedSend { dst, src: me, msg });
            me_task.state = TaskState::Blocked;
        }
        let ghost s2 = q.sched.slots();
        let sw = q.switch_away(cpu);
        assert(blocked(a, *q, cpu as int, s2, sw));
        SendOutcome::Blocked(sw)
    }
}

/// What waking the sender `src` does to the table `s` (a zombie stays one).
pub open spec fn sender_woken(s: Slots, src: u32, t: Slots, woken: Option<int>) -> bool {
    if exists_id(s, TaskId(src)) {
        exists|i: int| #[trigger]
            first_id(s, i, TaskId(src)) && if in_state(s, i, TaskState::Zombie) {
                t == s && woken is None
            } else {
                t == with_state(s, i, TaskState::Ready) && woken == Some(i)
            }
    } else {
        t == s && woken is None
    }
}

/// `b` has the table `t` and, if a task was woken, the record of it; the mask
/// has the parked CPUs then, and none otherwise.
pub open spec fn woke(a: RunQueue, b: RunQueue, cpu: int, t: Slots, woken: Option<int>, mask:
    CpuMask) -> bool {
    &&& moved(a, b, cpu, t, None)
    &&& match woken {
        Some(i) => b.sched.woken_slot() == Some(i as usize) && is_idle_mask(b, mask),
        None => b.sched.woken_slot() == a.sched.woken_slot() && no_cpus(mask),
    }
}

/// Entry `k` of the caller's queue was taken, which left the caller as `t1`, and
/// its sender woken, which left the table as `s2`.
pub open spec fn took_pending(
    a: RunQueue,
    b: RunQueue,
    cpu: int,
    filter: i32,
    m: Message,
    mask: CpuMask,
    k: int,
    t1: Task,
    s2: Slots,
    w: Option<int>,
) -> bool {
    let s = a.sched.slots();
    let cur = a.cpus.current(cpu);
    let t = s[cur]->0;
    let p = t.pending_senders@[k]->0;
    &&& first_pending(t, filter, k)
    &&& m == p.msg.stamped(p.src)
    &&& queue_set(t, t1, k, None)
    &&& sender_woken(s.update(cur, Some(t1)), p.src, s2, w)
    &&& woke(a, b, cpu, s2, w, mask)
}

/// Nothing in the caller's queue matches, and the message that the task in slot
/// `i` held back was taken.
pub open spec fn took_staged(
    a: RunQueue,
    b: RunQueue,
    cpu: int,
    filter: i32,
    m: Message,
    mask: CpuMask,
    i: int,
) -> bool {
    let s = a.sched.slots();
    let t = s[a.cpus.current(cpu)]->0;
    let g = s[i]->0.send_full_wait->0;
    &&& forall|k: int| !#[trigger] pending_match(t, filter, k)
    &&& first_staged(s, t.id.0, filter, i)
    &&& m == g.msg.stamped(g.src)
    &&& woke(
        a,
        b,
        cpu,
        s.update(i, Some(Task { send_full_wait: None, state: TaskState::Ready, ..s[i]->0 })),
        Some(i),
        mask,
    )
}

/// What a receive with `filter` into `out` does: the first matching message of
/// the queue, else the first matching one held back by a sender; else the
/// caller blocks.
pub open spec fn receive_post(
    a: RunQueue,
    b: RunQueue,
    cpu: int,
    filter: i32,
    out: u64,
    r: ReceiveOutcome,
) -> bool {
    let s = a.sched.slots();
    let cur = a.cpus.current(cpu);
    let t = s[cur]->0;
    match r {
        ReceiveOutcome::Received(m, mask) => (exists|
            k: int,
            t1: Task,
            s2: Slots,
            w: Option<int>,
        | #[trigger]
            took_pending(a, b, cpu, filter, m, mask, k, t1, s2, w)) || (exists|i: int| #[trigger]
            took_staged(a, b, cpu, filter, m, mask, i)),
        ReceiveOutcome::Blocked(sw) => {
            &&& forall|k: int| !#[trigger] pending_match(t, filter, k)
            &&& forall|i: int| !#[trigger] staged_match(s, t.id.0, filter, i)
            &&& b.sched.woken_slot() == a.sched.woken_slot()
            &&& blocked(
                a,
                b,
                cpu,
                s.update(
                    cur,
                    Some(
                        Task {
                            recv_blocked: true,
                            recv_filter: filter,
                            recv_buf: out,
                            state: TaskState::Blocked,
                            ..t
                        },
                    ),
                ),
                sw,
            )
        },
    }
}

proof fn lemma_took_pending(
    a: RunQueue,
    b: RunQueue,
    cpu: int,
    filter: i32,
    out: u64,
    r: ReceiveOutcome,
    k: int,
    t1: Task,
    s2: Slots,
    w: Option<int>,
)
    requires
        r matches ReceiveOutcome::Received(m, mask) && took_pending(
            a,
            b,
            cpu,
            filter,
            m,
            mask,
            k,
            t1,
            s2,
            w,
        ),
    ensures
        receive_post(a, b, cpu, filter, out, r),
{
}

proof fn lemma_took_staged(
    a: RunQueue,
    b: RunQueue,
    cpu: int,
    filter: i32,
    out: u64,
    r: ReceiveOutcome,
    i: int,
)
    requires
        r matches ReceiveOutcome::Received(m, mask) && took_staged(
            a,
            b,
            cpu,
            filter,
            m,
            mask,
            i,
        ),
    ensures
        receive_post(a, b, cpu, filter, out, r),
{
}

/// The first matching entry of the task's send queue.
fn find_pending(t: &Task, filter: i32) -> (r: Option<usize>)
    ensures
        match r {
            Some(k) => k < MAX_PENDING_SENDERS && first_pending(*t, filter, k as int),
            None => forall|k: int| !#[trigger] pending_match(*t, filter, k),
        },
{
    let mut k: usize = 0;
    while k < MAX_PENDING_SENDERS
        invariant
            k <= MAX_PENDING_SENDERS,
            forall|j: int| 0 <= j < k ==> !#[trigger] pending_match(*t, filter, j),
        decreases MAX_PENDING_SENDERS - k,
    {
        if let Some(p) = t.pending_senders[k] {
            if filter == M_ANY || p.src == filter as u32 {
                assert(pending_match(*t, filter, k as int));
                return Some(k);
            }
        }
        k = k + 1;
    }
    None
}

/// The first task that holds back a matching message for `dst`.
fn find_staged(q: &RunQueue, dst: u32, filter: i32) -> (r: Option<(usize, StagedSend)>)
    ensures
        match r {
            Some((i, g)) => i < MAX_TASKS && first_staged(q.sched.slots(), dst, filter, i as int)
                && g == q.sched.slots()[i as int]->0.send_full_wait->0,
            None => forall|i: int| !#[trigger] staged_match(q.sched.slots(), dst, filter, i),
        },
{
    proof {
        q.sched.lemma_len();
    }
    let mut i: usize = 1;
    while i < MAX_TASKS
        invariant
            1 <= i <= MAX_TASKS,
            q.sched.slots().len() == 32,
            forall|j: int| j < i ==> !#[trigger] staged_match(q.sched.slots(), dst, filter, j),
        decreases MAX_TASKS - i,
    {
        if let Some(t) = q.sched.task_at(i) {
            if let Some(g) = t.send_full_wait {
                if g.dst == dst && (filter == M_ANY || g.src == filter as u32) && t.state
                    != TaskState::Zombie {
                    assert(staged_match(q.sched.slots(), dst, filter, i as int));
                    return Some((i, g));
                }
            }
        }
        i = i + 1;
    }
    None
}

/// `receive(filter, out)` by the task that `cpu` runs.
pub fn sys_receive(q: &mut RunQueue, cpu: usize, filter: i32, out: u64) -> (r: ReceiveOutcome)
    requires
        old(q).wf(),
        cpu < MAX_CPUS,
        old(q).sched.slots()[old(q).cpus.current(cpu as int)] is Some,
    ensures
        final(q).wf(),
        receive_post(*old(q), *final(q), cpu as int, filter, out, r),
{
    let ghost a = *q;
    let ghost s = q.sched.slots();
    let ghost cur = q.cpus.current(cpu as int);
    proof {
        q.sched.lemma_len();
        assert(q.cpus.current(cpu as int) < 32);
    }
    let my_idx: usize = q.cpus.current_idx(cpu);
    let mut t: Task = match q.sched.task_at(my_idx) {
        Some(t) => *t,
        None => Task::idle(),
    };
    assert(s[cur] == Some(t));
    let ghost before = t;
    match find_pending(&t, filter) {
        Some(k) => {
            let p: PendingSend = match t.pending_senders[k] {
                Some(p) => p,
                None => PendingSend { src: 0, msg: Message::new(0) },
            };
            let m = Message { src: p.src, mtype: p.msg.mtype, data: p.msg.data };
            t.pending_senders[k] = None;
            assert(queue_set(before, t, k as int, None));
            if let Some(me) = q.sched.task_at_mut(my_idx) {
                *me = t;
            }
            let ghost s1 = q.sched.slots();
            assert(s1 == s.update(cur, Some(t)));
            let ghost mut s2 = s1;
            let ghost mut w: Option<int> = None;
            let mut mask: CpuMask = [false;4];
            if let Some(i) = q.sched.task_idx(TaskId(p.src)) {
                assert(first_id(s1, i as int, TaskId(p.src)));
                let zombie: bool = match q.sched.task_at(i) {
                    Some(x) => x.state == TaskState::Zombie,
                    None => true,
                };
                if !zombie {
                    q.sched.set_state(i, TaskState::Ready);
                    q.sched.set_woken(i);
                    mask = q.poke_idle_secondaries();
                    proof {
                        s2 = q.sched.slots();
                        w = Some(i as int);
                    }
                }
            }
            proof {
                assert(took_pending(a, *q, cpu as int, filter, m, mask, k as int, t, s2, w));
                lemma_took_pending(
                    a,
                    *q,
                    cpu as int,
                    filter,
                    out,
                    ReceiveOutcome::Received(m, mask),
                    k as int,
                    t,
                    s2,
                    w,
                );
            }
            ReceiveOutcome::Received(m, mask)
        },
        None => {
            match find_staged(q, t.id.0, filter) {
                Some((i, g)) => {
                    assert(first_staged(s, t.id.0, filter, i as int));
                    let m = Message { src: g.src, mtype: g.msg.mtype, data: g.msg.data };
                    if let Some(x) = q.sched.task_at_mut(i) {
                        x.send_full_wait = None;
                        x.state = TaskState::Ready;
                    }
                    q.sched.set_woken(i);
                    let mask = q.poke_idle_secondaries();
                    assert(took_staged(a, *q, cpu as int, filter, m, mask, i as int));
                    let r = ReceiveOutcome::Received(m, mask);
                    proof {
                        lemma_took_staged(a, *q, cpu as int, filter, out, r, i as int);
                    }
                    r
                },
                None => {
                    if let Some(me) = q.sched.task_at_mut(my_idx) {
                        me.recv_blocked = true;
                        me.recv_filter = filter;
                        me.recv_buf = out;
                        me.state = TaskState::Blocked;
                    }
                    let ghost s2 = q.sched.slots();
                    let sw = q.switch_away(cpu);
                    assert(blocked(a, *q, cpu as int, s2, sw));
                    ReceiveOutcome::Blocked(sw)
                },
            }
        },
    }
}

/// A message from `src` to the task `dst` waits in its queue, or `src` holds it
/// back.
pub open spec fn in_flight(s: Slots, dst: u32, src: u32, msg: Message) -> bool {
    ||| exists|i: int, k: int|
        #![trigger has_id(s, i, TaskId(dst)), s[i]->0.pending_senders@[k]]
        has_id(s, i, TaskId(dst)) && 0 <= k < MAX_PENDING_SENDERS && s[i]->0.pending_senders@[k]
            == Some(PendingSend { src, msg })
    ||| exists|i: int|
        0 <= i < s.len() && (#[trigger] s[i]) is Some && s[i]->0.send_full_wait == Some(
            StagedSend { dst, src, msg },
        )
}

/// A send that is not refused loses nothing: the message has been handed to the
/// receiver, stamped with the sender's id, or it is in flight.
pub proof fn law_send_never_drops(
    a: RunQueue,
    b: RunQueue,
    cpu: int,
    dst: u32,
    msg: Message,
    r: SendOutcome,
)
    requires
        a.wf(),
        0 <= cpu < MAX_CPUS,
        a.sched.slots()[a.cpus.current(cpu)] is Some,
        send_post(a, b, cpu, dst, msg, r),
    ensures
        ({
            let me = current_of(a.sched.slots(), a.cpus.current(cpu)).0;
            match r {
                SendOutcome::Refused(e) => true,
                SendOutcome::Delivered(d, mask) => d.msg == msg.stamped(me),
                SendOutcome::Blocked(sw) => in_flight(b.sched.slots(), dst, me, msg),
            }
        }),
{
    let s = a.sched.slots();
    let cur = a.cpus.current(cpu);
    let me = current_of(s, cur).0;
    a.sched.lemma_len();
    b.sched.lemma_len();
    assert(0 <= cur < 32);
    if r is Blocked {
        let i = choose|i: int| #[trigger]
            first_id(s, i, TaskId(dst)) && dst != me && !accepts(s[i]->0, me)
                && b.sched.woken_slot() == a.sched.woken_slot() && {
                ||| exists|k: int, t: Task|
                    #![trigger queue_room(s[i]->0, k), queue_set(s[i]->0, t, k, Some(PendingSend { src: me, msg }))]
                    queue_room(s[i]->0, k) && queue_set(
                        s[i]->0,
                        t,
                        k,
                        Some(PendingSend { src: me, msg }),
                    ) && blocked(
                        a,
                        b,
                        cpu,
                        with_state(s.update(i, Some(t)), cur, TaskState::Blocked),
                        r->Blocked_0,
                    )
                ||| queue_full(s[i]->0) && blocked(
                    a,
                    b,
                    cpu,
                    s.update(
                        cur,
                        Some(
                            Task {
                                send_full_wait: Some(StagedSend { dst, src: me, msg }),
                                state: TaskState::Blocked,
                                ..s[cur]->0
                            },
                        ),
                    ),
                    r->Blocked_0,
                )
            };
        let f = b.sched.slots();
        if exists|k: int, t: Task|
            #![trigger queue_room(s[i]->0, k), queue_set(s[i]->0, t, k, Some(PendingSend { src: me, msg }))]
            queue_room(s[i]->0, k) && queue_set(
                s[i]->0,
                t,
                k,
                Some(PendingSend { src: me, msg }),
            ) && blocked(
                a,
                b,
                cpu,
                with_state(s.update(i, Some(t)), cur, TaskState::Blocked),
                r->Blocked_0,
            ) {
            let (k, t) = choose|k: int, t: Task|
                #![trigger queue_room(s[i]->0, k), queue_set(s[i]->0, t, k, Some(PendingSend { src: me, msg }))]
                queue_room(s[i]->0, k) && queue_set(
                    s[i]->0,
                    t,
                    k,
                    Some(PendingSend { src: me, msg }),
                ) && blocked(
                    a,
                    b,
                    cpu,
                    with_state(s.update(i, Some(t)), cur, TaskState::Blocked),
                    r->Blocked_0,
                );
            assert(has_id(f, i, TaskId(dst)));
            assert(f[i]->0.pending_senders@[k] == Some(PendingSend { src: me, msg }));
        } else {
            assert(f[cur] is Some);
            assert(f[cur]->0.send_full_wait == Some(StagedSend { dst, src: me, msg }));
        }
    }
}

/// A receive hands out only messages that were in flight for the caller, with
/// the sender's id stamped, and takes only those that match its filter.
pub proof fn law_receive_takes_in_flight(
    a: RunQueue,
    b: RunQueue,
    cpu: int,
    filter: i32,
    out: u64,
    m: Message,
    mask: CpuMask,
)
    requires
        a.wf(),
        0 <= cpu < MAX_CPUS,
        a.sched.slots()[a.cpus.current(cpu)] is Some,
        receive_post(a, b, cpu, filter, out, ReceiveOutcome::Received(m, mask)),
    ensures
        matching(filter, m.src),
        exists|msg: Message| #[trigger]
            in_flight(
                a.sched.slots(),
                current_of(a.sched.slots(), a.cpus.current(cpu)).0,
                m.src,
                msg,
            ) && m == msg.stamped(m.src),
{
    let s = a.sched.slots();
    let cur = a.cpus.current(cpu);
    let t = s[cur]->0;
    let me = current_of(s, cur).0;
    a.sched.lemma_len();
    assert(0 <= cur < 32);
    if exists|k: int, t1: Task, s2: Slots, w: Option<int>| #[trigger]
        took_pending(a, b, cpu, filter, m, mask, k, t1, s2, w) {
        let (k, t1, s2, w) = choose|k: int, t1: Task, s2: Slots, w: Option<int>| #[trigger]
            took_pending(a, b, cpu, filter, m, mask, k, t1, s2, w);
        let p = t.pending_senders@[k]->0;
        assert(has_id(s, cur, TaskId(me)));
        assert(s[cur]->0.pending_senders@[k] == Some(PendingSend { src: p.src, msg: p.msg }));
        assert(in_flight(s, me, p.src, p.msg));
    } else {
        let i = choose|i: int| #[trigger] took_staged(a, b, cpu, filter, m, mask, i);
        let g = s[i]->0.send_full_wait->0;
        assert(s[i] is Some && s[i]->0.send_full_wait == Some(
            StagedSend { dst: me, src: g.src, msg: g.msg },
        ));
        assert(in_flight(s, me, g.src, g.msg));
    }
}

/// A receiver blocks only if no live sender has a matching message in flight
/// for it.
pub proof fn law_receive_blocks_on_nothing(
    a: RunQueue,
    b: RunQueue,
    cpu: int,
    filter: i32,
    out: u64,
    sw: Switch,
    src: u32,
    msg: Message,
    k: int,
)
    requires
        a.wf(),
        0 <= cpu < MAX_CPUS,
        a.sched.slots()[a.cpus.current(cpu)] is Some,
        receive_post(a, b, cpu, filter, out, ReceiveOutcome::Blocked(sw)),
        matching(filter, src),
        0 <= k < MAX_PENDING_SENDERS,
    ensures
        a.sched.slots()[a.cpus.current(cpu)]->0.pending_senders@[k] != Some(
            PendingSend { src, msg },
        ),
        forall|i: int|
            1 <= i < 32 && (#[trigger] a.sched.slots()[i]) is Some && !in_state(
                a.sched.slots(),
                i,
                TaskState::Zombie,
            ) ==> a.sched.slots()[i]->0.send_full_wait != Some(
                StagedSend {
                    dst: current_of(a.sched.slots(), a.cpus.current(cpu)).0,
                    src,
                    msg,
                },
            ),
{
    let s = a.sched.slots();
    let cur = a.cpus.current(cpu);
    let t = s[cur]->0;
    a.sched.lemma_len();
    assert(!pending_match(t, filter, k));
    assert forall|i: int|
        1 <= i < 32 && (#[trigger] s[i]) is Some && !in_state(s, i, TaskState::Zombie) implies
        s[i]->0.send_full_wait != Some(StagedSend { dst: current_of(s, cur).0, src, msg }) by {
        assert(!staged_match(s, t.id.0, filter, i));
    }
}

} // verus!
