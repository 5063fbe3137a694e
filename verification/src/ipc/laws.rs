//! What a send and a receive promise, told by the fields of the tasks they concern.

use vstd::prelude::*;
use crate::ipc::message::{
    accepts, blocked, first_pending, first_staged, matching, pending_match, queue_full, queue_room,
    queue_set, receive_post, send_post, sender_woken, staged_match, took_pending, took_staged,
    ReceiveOutcome, SendOutcome,
};
use crate::sched::run::{RunQueue, Switch};
use crate::sched::task::{exists_id, first_id, has_id, pick, with_state, Slots, Task};
use crate::sched::{Message, PendingSend, StagedSend, TaskId, TaskState};
use crate::smp::CpuMask;

verus! {

/// The caller on `cpu`.
pub open spec fn caller(q: RunQueue, cpu: int) -> Task {
    q.sched.slots()[q.cpus.current(cpu)]->0
}

/// The filter -1 takes any message, every other only those of the task with that id.
pub open spec fn wanted(filter: i32, src: u32) -> bool {
    filter == -1 || src == filter as u32
}

/// A receive from one sender returns a message of that sender, and leaves what others have sent
/// where it is: in the caller's queue, in every other queue, and with senders that hold their
/// message back.
#[verifier::rlimit(50)]
pub proof fn law_receive_respects_filter(
    a: RunQueue,
    b: RunQueue,
    cpu: int,
    filter: i32,
    out: u64,
    m: Message,
    mask: CpuMask,
)
    requires
        a.wf(),
        0 <= cpu < 4,
        a.sched.slots()[a.cpus.current(cpu)] is Some,
        receive_post(a, b, cpu, filter, out, ReceiveOutcome::Received(m, mask)),
    ensures
        filter != -1 ==> m.src == filter as u32,
        forall|i: int, k: int|
            0 <= i < 32 && a.sched.slots()[i] is Some && 0 <= k < 2 && (i != a.cpus.current(cpu)
                || (a.sched.slots()[i]->0.pending_senders@[k] matches Some(p) && p.src != m.src))
                ==> #[trigger] b.sched.slots()[i]->0.pending_senders@[k]
                == a.sched.slots()[i]->0.pending_senders@[k],
        forall|i: int|
            0 <= i < 32 && a.sched.slots()[i] is Some && (a.sched.slots()[i]->0.send_full_wait matches
                Some(g) && g.src != m.src) ==> (#[trigger] b.sched.slots()[i])->0.send_full_wait
                == a.sched.slots()[i]->0.send_full_wait,
{
    let s = a.sched.slots();
    let cur = a.cpus.current(cpu);
    a.sched.lemma_len();
    b.sched.lemma_len();
    assert(0 <= cur < 32);
    if exists|k: int, t1: Task, s2: Slots, w: Option<int>| #[trigger]
        took_pending(a, b, cpu, filter, m, mask, k, t1, s2, w) {
        let (k, t1, s2, w) = choose|k: int, t1: Task, s2: Slots, w: Option<int>| #[trigger]
            took_pending(a, b, cpu, filter, m, mask, k, t1, s2, w);
        assert(pending_match(s[cur]->0, filter, k));
        lemma_woken(s.update(cur, Some(t1)), m.src, s2, w);
    } else {
        let i = choose|i: int| #[trigger] took_staged(a, b, cpu, filter, m, mask, i);
        assert(staged_match(s, s[cur]->0.id.0, filter, i));
    }
}

/// Waking a sender changes states only.
proof fn lemma_woken(s: Slots, src: u32, t: Slots, w: Option<int>)
    requires
        sender_woken(s, src, t, w),
        s.len() == 32,
    ensures
        t.len() == 32,
        forall|i: int| 0 <= i < 32 ==> ((#[trigger] t[i]) is Some <==> s[i] is Some),
        forall|i: int|
            0 <= i < 32 && s[i] is Some ==> (#[trigger] t[i])->0 == (Task {
                state: t[i]->0.state,
                ..s[i]->0
            }),
        forall|i: int|
            0 <= i < 32 && Some(i) != w ==> #[trigger] t[i] == s[i],
        match w {
            Some(i) => {
                &&& has_id(s, i, TaskId(src))
                &&& forall|j: int| 0 <= j < i ==> !#[trigger] has_id(s, j, TaskId(src))
                &&& s[i]->0.state != TaskState::Zombie
                &&& t[i]->0.state == TaskState::Ready
            },
            None => t == s,
        },
        w is None ==> forall|i: int|
            has_id(s, i, TaskId(src)) && (forall|j: int|
                0 <= j < i ==> !#[trigger] has_id(s, j, TaskId(src)))
                ==> #[trigger] s[i]->0.state == TaskState::Zombie,
{
    if exists_id(s, TaskId(src)) {
        let i = choose|i: int| #[trigger]
            first_id(s, i, TaskId(src)) && if crate::sched::task::in_state(
                s,
                i,
                TaskState::Zombie,
            ) {
                t == s && w is None
            } else {
                t == with_state(s, i, TaskState::Ready) && w == Some(i)
            };
        assert(has_id(s, i, TaskId(src)));
        assert forall|j: int|
            has_id(s, j, TaskId(src)) && (forall|l: int|
                0 <= l < j ==> !#[trigger] has_id(s, l, TaskId(src))) implies j == i by {
            if j < i {
                assert(!has_id(s, j, TaskId(src)));
            }
            if i < j {
                assert(!has_id(s, i, TaskId(src)));
            }
        }
    }
}

#[verifier::rlimit(50)]
proof fn lemma_first_queued(
    a: RunQueue,
    b: RunQueue,
    cpu: int,
    filter: i32,
    out: u64,
    r: ReceiveOutcome,
    k: int,
    p: PendingSend,
) -> (w: (Task, Slots, Option<int>))
    requires
        0 <= k < 2,
        caller(a, cpu).pending_senders@[k] == Some(p),
        wanted(filter, p.src),
        forall|j: int|
            0 <= j < k ==> ((#[trigger] caller(a, cpu).pending_senders@[j]) matches Some(x)
                ==> !wanted(filter, x.src)),
        receive_post(a, b, cpu, filter, out, r),
    ensures
        r matches ReceiveOutcome::Received(m, mask) && took_pending(
            a,
            b,
            cpu,
            filter,
            m,
            mask,
            k,
            w.0,
            w.1,
            w.2,
        ),
{
    let t = caller(a, cpu);
    assert(matching(filter, p.src));
    assert(pending_match(t, filter, k));
    assert(r is Received);
    let (m, mask) = (r->Received_0, r->Received_1);
    assert(exists|k: int, t1: Task, s2: Slots, w: Option<int>| #[trigger]
        took_pending(a, b, cpu, filter, m, mask, k, t1, s2, w));
    let (q, t1, s2, w) = choose|k: int, t1: Task, s2: Slots, w: Option<int>| #[trigger]
        took_pending(a, b, cpu, filter, m, mask, k, t1, s2, w);
    assert(first_pending(t, filter, q));
    assert(q == k) by {
        if k < q {
            assert(!pending_match(t, filter, k));
        }
        if q < k {
            assert(pending_match(t, filter, q));
            assert(caller(a, cpu).pending_senders@[q] is Some);
        }
    }
    (t1, s2, w)
}

/// A receive that finds wanted messages in the caller's queue takes the first of them: the
/// sender's id is stamped on it, its entry is free again, and the other entries and what
/// senders hold back stay.
#[verifier::rlimit(50)]
pub proof fn law_receive_takes_first_queued(
    a: RunQueue,
    b: RunQueue,
    cpu: int,
    filter: i32,
    out: u64,
    r: ReceiveOutcome,
    k: int,
    p: PendingSend,
)
    requires
        a.wf(),
        0 <= cpu < 4,
        a.sched.slots()[a.cpus.current(cpu)] is Some,
        0 <= k < 2,
        caller(a, cpu).pending_senders@[k] == Some(p),
        wanted(filter, p.src),
        forall|j: int|
            0 <= j < k ==> ((#[trigger] caller(a, cpu).pending_senders@[j]) matches Some(x)
                ==> !wanted(filter, x.src)),
        receive_post(a, b, cpu, filter, out, r),
    ensures
        r matches ReceiveOutcome::Received(m, mask) && m.src == p.src && m.mtype == p.msg.mtype
            && m.data == p.msg.data,
        caller(b, cpu).pending_senders@ == caller(a, cpu).pending_senders@.update(k, None),
        forall|i: int|
            0 <= i < 32 && a.sched.slots()[i] is Some ==> (#[trigger] b.sched.slots()[i]) is Some
                && b.sched.slots()[i]->0.send_full_wait == a.sched.slots()[i]->0.send_full_wait,
        b.cpus.current(cpu) == a.cpus.current(cpu),
{
    let s = a.sched.slots();
    let cur = a.cpus.current(cpu);
    a.sched.lemma_len();
    assert(0 <= cur < 32);
    let (t1, s2, w) = lemma_first_queued(a, b, cpu, filter, out, r, k, p);
    lemma_woken(s.update(cur, Some(t1)), p.src, s2, w);
    assert(b.cpus.current(cpu) == cur);
    assert(b.sched.slots() == s2);
}

/// The sender whose queued message was taken is Ready and recorded as woken, unless it is a
/// zombie; no other task changes its state.
#[verifier::rlimit(50)]
pub proof fn law_receive_wakes_sender(
    a: RunQueue,
    b: RunQueue,
    cpu: int,
    filter: i32,
    out: u64,
    r: ReceiveOutcome,
    k: int,
    p: PendingSend,
    i: int,
)
    requires
        a.wf(),
        0 <= cpu < 4,
        a.sched.slots()[a.cpus.current(cpu)] is Some,
        0 <= k < 2,
        caller(a, cpu).pending_senders@[k] == Some(p),
        wanted(filter, p.src),
        forall|j: int|
            0 <= j < k ==> ((#[trigger] caller(a, cpu).pending_senders@[j]) matches Some(x)
                ==> !wanted(filter, x.src)),
        receive_post(a, b, cpu, filter, out, r),
        0 <= i < 32,
        a.sched.slots()[i] is Some,
    ensures
        found_at(a.sched.slots(), i, p.src) && a.sched.slots()[i]->0.state != TaskState::Zombie
            ==> b.sched.slots()[i]->0.state == TaskState::Ready && b.sched.woken_slot() == Some(
            i as usize,
        ),
        !found_at(a.sched.slots(), i, p.src) || a.sched.slots()[i]->0.state == TaskState::Zombie
            ==> b.sched.slots()[i]->0.state == a.sched.slots()[i]->0.state,
{
    let s = a.sched.slots();
    let cur = a.cpus.current(cpu);
    a.sched.lemma_len();
    assert(0 <= cur < 32);
    let (t1, s2, w) = lemma_first_queued(a, b, cpu, filter, out, r, k, p);
    let s1 = s.update(cur, Some(t1));
    lemma_woken(s1, p.src, s2, w);
    assert(b.sched.slots() == s2);
    assert forall|j: int| 0 <= j < 32 implies has_id(s1, j, TaskId(p.src)) == (
    #[trigger] s[j] is Some && s[j]->0.id == TaskId(p.src)) by {}
    if found_at(s, i, p.src) && s[i]->0.state != TaskState::Zombie {
        assert(has_id(s1, i, TaskId(p.src)));
        assert forall|j: int| 0 <= j < i implies !#[trigger] has_id(s1, j, TaskId(p.src)) by {
            assert(!(s[j] is Some && s[j]->0.id == TaskId(p.src)));
        }
        if w is Some {
            let x = w->0;
            if x < i {
                assert(!has_id(s1, x, TaskId(p.src)));
            }
            if i < x {
                assert(!has_id(s1, i, TaskId(p.src)));
            }
        } else {
            assert(s1[i]->0.state == TaskState::Zombie);
        }
    } else if w == Some(i) {
        assert(has_id(s1, i, TaskId(p.src)));
        assert(s[i] is Some && s[i]->0.id == TaskId(p.src));
        assert forall|j: int| 0 <= j < i implies !(#[trigger] s[j] is Some && s[j]->0.id == TaskId(
            p.src,
        )) by {
            assert(!has_id(s1, j, TaskId(p.src)));
        }
        assert(found_at(s, i, p.src));
    }
}

/// Where the caller's queue holds no wanted message, a receive takes the wanted one that the
/// first live sender holds back for the caller; that sender is Ready, holds nothing back any
/// more and is recorded as woken, and all else stays.
#[verifier::rlimit(50)]
pub proof fn law_receive_takes_first_held_back(
    a: RunQueue,
    b: RunQueue,
    cpu: int,
    filter: i32,
    out: u64,
    r: ReceiveOutcome,
    i: int,
    g: StagedSend,
)
    requires
        a.wf(),
        0 <= cpu < 4,
        a.sched.slots()[a.cpus.current(cpu)] is Some,
        forall|j: int|
            0 <= j < 2 ==> ((#[trigger] caller(a, cpu).pending_senders@[j]) matches Some(x)
                ==> !wanted(filter, x.src)),
        1 <= i < 32,
        a.sched.slots()[i] matches Some(t) && t.state != TaskState::Zombie && t.send_full_wait
            == Some(g) && g.dst == caller(a, cpu).id.0 && wanted(filter, g.src),
        forall|j: int|
            1 <= j < i ==> ((#[trigger] a.sched.slots()[j]) matches Some(t) ==> t.state
                == TaskState::Zombie || (t.send_full_wait matches Some(x) ==> x.dst != caller(
                a,
                cpu,
            ).id.0 || !wanted(filter, x.src))),
        receive_post(a, b, cpu, filter, out, r),
    ensures
        r matches ReceiveOutcome::Received(m, mask) && m.src == g.src && m.mtype == g.msg.mtype
            && m.data == g.msg.data,
        b.sched.slots() == a.sched.slots().update(
            i,
            Some(
                Task {
                    send_full_wait: None,
                    state: TaskState::Ready,
                    ..a.sched.slots()[i]->0
                },
            ),
        ),
        b.sched.woken_slot() == Some(i as usize),
        b.cpus.current(cpu) == a.cpus.current(cpu),
{
    let s = a.sched.slots();
    let cur = a.cpus.current(cpu);
    a.sched.lemma_len();
    assert(0 <= cur < 32);
    let t = s[cur]->0;
    assert(staged_match(s, t.id.0, filter, i));
    assert forall|k: int| !#[trigger] pending_match(t, filter, k) by {
        if pending_match(t, filter, k) {
            assert(caller(a, cpu).pending_senders@[k] is Some);
        }
    }
    assert(r is Received);
    let (m, mask) = (r->Received_0, r->Received_1);
    assert(!exists|k: int, t1: Task, s2: Slots, w: Option<int>| #[trigger]
        took_pending(a, b, cpu, filter, m, mask, k, t1, s2, w));
    let x = choose|x: int| #[trigger] took_staged(a, b, cpu, filter, m, mask, x);
    assert(first_staged(s, t.id.0, filter, x));
    assert(x == i) by {
        assert(staged_match(s, t.id.0, filter, x));
        if x < i {
            assert(s[x] is Some);
        }
        if i < x {
            assert(!staged_match(s, t.id.0, filter, i));
        }
    }
}

/// A receive blocks exactly where no wanted message is there, in the caller's queue or with a
/// live sender.  The caller then waits with its filter and buffer, and gives up the CPU;
/// nothing that was sent is touched.
#[verifier::rlimit(50)]
pub proof fn law_receive_blocks_without_message(
    a: RunQueue,
    b: RunQueue,
    cpu: int,
    filter: i32,
    out: u64,
    r: ReceiveOutcome,
)
    requires
        a.wf(),
        0 <= cpu < 4,
        a.sched.slots()[a.cpus.current(cpu)] is Some,
        receive_post(a, b, cpu, filter, out, r),
    ensures
        r is Blocked <==> {
            &&& forall|j: int|
                0 <= j < 2 ==> ((#[trigger] caller(a, cpu).pending_senders@[j]) matches Some(x)
                    ==> filter != -1 && x.src != filter as u32)
            &&& forall|j: int|
                1 <= j < 32 ==> ((#[trigger] a.sched.slots()[j]) matches Some(t) ==> t.state
                    == TaskState::Zombie || (t.send_full_wait matches Some(x) ==> x.dst != caller(
                    a,
                    cpu,
                ).id.0 || (filter != -1 && x.src != filter as u32)))
        },
        r matches ReceiveOutcome::Blocked(sw) ==> {
            let s = a.sched.slots();
            let cur = a.cpus.current(cpu);
            let f = b.sched.slots();
            &&& sw.from == cur
            &&& b.cpus.current(cpu) == sw.to
            &&& f[cur] is Some
            &&& f[cur]->0.recv_blocked
            &&& f[cur]->0.recv_filter == filter
            &&& f[cur]->0.recv_buf == out
            &&& sw.to != cur ==> f[cur]->0.state == TaskState::Blocked
            &&& forall|i: int|
                0 <= i < 32 && s[i] is Some ==> (#[trigger] f[i]) is Some
                    && f[i]->0.pending_senders == s[i]->0.pending_senders
                    && f[i]->0.send_full_wait == s[i]->0.send_full_wait
            &&& b.sched.woken_slot() == a.sched.woken_slot()
        },
{
    let s = a.sched.slots();
    let cur = a.cpus.current(cpu);
    a.sched.lemma_len();
    b.sched.lemma_len();
    assert(0 <= cur < 32);
    let t = s[cur]->0;
    match r {
        ReceiveOutcome::Blocked(sw) => {
            assert forall|j: int|
                0 <= j < 2 implies ((#[trigger] caller(a, cpu).pending_senders@[j]) matches Some(x)
                ==> filter != -1 && x.src != filter as u32) by {
                assert(!pending_match(t, filter, j));
            }
            assert forall|j: int|
                1 <= j < 32 implies ((#[trigger] s[j]) matches Some(t) ==> t.state
                == TaskState::Zombie || (t.send_full_wait matches Some(x) ==> x.dst != caller(
                a,
                cpu,
            ).id.0 || (filter != -1 && x.src != filter as u32))) by {
                assert(!staged_match(s, t.id.0, filter, j));
            }
        },
        ReceiveOutcome::Received(m, mask) => {
            if exists|k: int, t1: Task, s2: Slots, w: Option<int>| #[trigger]
                took_pending(a, b, cpu, filter, m, mask, k, t1, s2, w) {
                let (k, t1, s2, w) = choose|k: int, t1: Task, s2: Slots, w: Option<int>|
                    #[trigger] took_pending(a, b, cpu, filter, m, mask, k, t1, s2, w);
                assert(pending_match(t, filter, k));
                assert(caller(a, cpu).pending_senders@[k] is Some);
            } else {
                let i = choose|i: int| #[trigger] took_staged(a, b, cpu, filter, m, mask, i);
                assert(staged_match(s, t.id.0, filter, i));
                assert(s[i] is Some);
            }
        },
    }
}

/// A send is refused with -2 exactly where it goes to the caller itself, and with -3 exactly
/// where no task has the id; a refused send changes nothing.
pub proof fn law_send_refusals(
    a: RunQueue,
    b: RunQueue,
    cpu: int,
    dst: u32,
    msg: Message,
    r: SendOutcome,
)
    requires
        a.wf(),
        0 <= cpu < 4,
        a.sched.slots()[a.cpus.current(cpu)] is Some,
        send_post(a, b, cpu, dst, msg, r),
    ensures
        (r matches SendOutcome::Refused(e) && e == -2) <==> dst == caller(a, cpu).id.0,
        (r matches SendOutcome::Refused(e) && e == -3) <==> forall|i: int|
            0 <= i < 32 ==> ((#[trigger] a.sched.slots()[i]) matches Some(t) ==> t.id.0 != dst),
        r matches SendOutcome::Refused(e) ==> (e == -2 || e == -3) && b == a,
{
    let s = a.sched.slots();
    let cur = a.cpus.current(cpu);
    a.sched.lemma_len();
    assert(0 <= cur < 32);
    if dst == caller(a, cpu).id.0 {
        assert(s[cur] is Some);
        assert(has_id(s, cur, TaskId(dst)));
    }
    if exists_id(s, TaskId(dst)) {
        let i = choose|i: int| #[trigger] has_id(s, i, TaskId(dst));
        assert(s[i] is Some && s[i]->0.id == TaskId(dst));
    } else {
        assert forall|i: int| 0 <= i < 32 implies ((#[trigger] s[i]) matches Some(t) ==> t.id.0
            != dst) by {
            assert(!has_id(s, i, TaskId(dst)));
        }
        match r {
            SendOutcome::Refused(e) => {},
            SendOutcome::Delivered(d, mask) => {
                let i = choose|i: int| #[trigger]
                    first_id(s, i, TaskId(dst)) && accepts(s[i]->0, caller(a, cpu).id.0);
                assert(has_id(s, i, TaskId(dst)));
            },
            SendOutcome::Blocked(sw) => {
                let i = choose|i: int| #[trigger]
                    first_id(s, i, TaskId(dst)) && !accepts(s[i]->0, caller(a, cpu).id.0);
                assert(has_id(s, i, TaskId(dst)));
            },
        }
    }
}

/// `i` is the first slot with a task of the id.
pub open spec fn found_at(s: Slots, i: int, id: u32) -> bool {
    &&& 0 <= i < 32
    &&& s[i] matches Some(t) && t.id == TaskId(id)
    &&& forall|j: int| 0 <= j < i ==> !(#[trigger] s[j] is Some && s[j]->0.id == TaskId(id))
}

proof fn lemma_found(s: Slots, i: int, id: u32, j: int)
    requires
        s.len() == 32,
        found_at(s, i, id),
        first_id(s, j, TaskId(id)),
    ensures
        i == j,
{
    assert(has_id(s, j, TaskId(id)));
    assert(s[j] is Some && s[j]->0.id == TaskId(id));
    if i < j {
        assert(!has_id(s, i, TaskId(id)));
    }
}

/// A send is delivered at once exactly where the receiver waits for any message or for one of
/// the caller's.  The message goes to the receiver's buffer with the caller's id stamped; the
/// receiver no longer waits, is Ready and recorded as woken, and nothing else changes.
#[verifier::rlimit(50)]
pub proof fn law_send_meets_waiting_receiver(
    a: RunQueue,
    b: RunQueue,
    cpu: int,
    dst: u32,
    msg: Message,
    r: SendOutcome,
    i: int,
)
    requires
        a.wf(),
        0 <= cpu < 4,
        a.sched.slots()[a.cpus.current(cpu)] is Some,
        dst != caller(a, cpu).id.0,
        found_at(a.sched.slots(), i, dst),
        send_post(a, b, cpu, dst, msg, r),
    ensures
        ({
            let t = a.sched.slots()[i]->0;
            let me = caller(a, cpu).id.0;
            &&& r is Delivered <==> t.recv_blocked && (t.recv_filter == -1 || t.recv_filter
                == me as i32)
            &&& r matches SendOutcome::Delivered(d, mask) ==> {
                &&& d.msg.src == me
                &&& d.msg.mtype == msg.mtype
                &&& d.msg.data == msg.data
                &&& d.buf == t.recv_buf
                &&& d.ttbr0 == t.ttbr0
                &&& b.sched.slots() == a.sched.slots().update(
                    i,
                    Some(Task { recv_blocked: false, state: TaskState::Ready, ..t }),
                )
                &&& b.sched.woken_slot() == Some(i as usize)
                &&& b.cpus.current(cpu) == a.cpus.current(cpu)
            }
        }),
{
    let s = a.sched.slots();
    let cur = a.cpus.current(cpu);
    let me = caller(a, cpu).id.0;
    a.sched.lemma_len();
    assert(0 <= cur < 32);
    assert(has_id(s, i, TaskId(dst)));
    match r {
        SendOutcome::Refused(e) => {},
        SendOutcome::Delivered(d, mask) => {
            let j = choose|j: int| #[trigger]
                first_id(s, j, TaskId(dst)) && accepts(s[j]->0, me) && d
                    == (crate::ipc::message::Delivery {
                    ttbr0: s[j]->0.ttbr0,
                    buf: s[j]->0.recv_buf,
                    msg: msg.stamped(me),
                }) && b.sched.woken_slot() == Some(j as usize) && crate::sched::run::moved(
                    a,
                    b,
                    cpu,
                    s.update(
                        j,
                        Some(Task { recv_blocked: false, state: TaskState::Ready, ..s[j]->0 }),
                    ),
                    None,
                );
            lemma_found(s, i, dst, j);
        },
        SendOutcome::Blocked(sw) => {
            let j = choose|j: int| #[trigger]
                first_id(s, j, TaskId(dst)) && !accepts(s[j]->0, me);
            lemma_found(s, i, dst, j);
        },
    }
}

/// Where the receiver does not wait for it, the message waits: in the first free entry of the
/// receiver's queue, or, where both are taken, with the sender.  The sender blocks and gives up
/// the CPU; no other queue or message that is held back changes.
#[verifier::rlimit(50)]
pub proof fn law_send_waits_otherwise(
    a: RunQueue,
    b: RunQueue,
    cpu: int,
    dst: u32,
    msg: Message,
    sw: Switch,
    i: int,
)
    requires
        a.wf(),
        0 <= cpu < 4,
        a.sched.slots()[a.cpus.current(cpu)] is Some,
        found_at(a.sched.slots(), i, dst),
        send_post(a, b, cpu, dst, msg, SendOutcome::Blocked(sw)),
    ensures
        ({
            let s = a.sched.slots();
            let f = b.sched.slots();
            let cur = a.cpus.current(cpu);
            let me = caller(a, cpu).id.0;
            let q = s[i]->0.pending_senders@;
            &&& sw.from == cur
            &&& b.cpus.current(cpu) == sw.to
            &&& sw.to != cur ==> f[cur]->0.state == TaskState::Blocked
            &&& b.sched.woken_slot() == a.sched.woken_slot()
            &&& q[0] is None ==> f[i]->0.pending_senders@[0] == Some(PendingSend { src: me, msg })
                && f[i]->0.pending_senders@[1] == q[1]
            &&& q[0] is Some && q[1] is None ==> f[i]->0.pending_senders@[1] == Some(
                PendingSend { src: me, msg },
            ) && f[i]->0.pending_senders@[0] == q[0]
            &&& q[0] is Some && q[1] is Some ==> f[i]->0.pending_senders == s[i]->0.pending_senders
                && f[cur]->0.send_full_wait == Some(StagedSend { dst, src: me, msg })
            &&& forall|j: int|
                0 <= j < 32 && j != i && s[j] is Some ==> (#[trigger] f[j]) is Some
                    && f[j]->0.pending_senders == s[j]->0.pending_senders
            &&& forall|j: int|
                0 <= j < 32 && (j != cur || q[0] is None || q[1] is None) && s[j] is Some ==> (
                #[trigger] f[j]) is Some && f[j]->0.send_full_wait == s[j]->0.send_full_wait
        }),
{
    let s = a.sched.slots();
    let cur = a.cpus.current(cpu);
    let me = caller(a, cpu).id.0;
    let f = b.sched.slots();
    a.sched.lemma_len();
    b.sched.lemma_len();
    assert(0 <= cur < 32);
    assert(b.cpus.current(cpu) == b.cpus.current(cpu));
    let full = s.update(
        cur,
        Some(
            Task {
                send_full_wait: Some(StagedSend { dst, src: me, msg }),
                state: TaskState::Blocked,
                ..s[cur]->0
            },
        ),
    );
    let j = choose|j: int| #[trigger]
        first_id(s, j, TaskId(dst)) && {
            ||| exists|k: int, t: Task|
                #![trigger queue_room(s[j]->0, k), queue_set(s[j]->0, t, k, Some(PendingSend { src: me, msg }))]
                queue_room(s[j]->0, k) && queue_set(
                    s[j]->0,
                    t,
                    k,
                    Some(PendingSend { src: me, msg }),
                ) && blocked(
                    a,
                    b,
                    cpu,
                    with_state(s.update(j, Some(t)), cur, TaskState::Blocked),
                    sw,
                )
            ||| queue_full(s[j]->0) && blocked(a, b, cpu, full, sw)
        };
    lemma_found(s, i, dst, j);
    if exists|k: int, t: Task|
        #![trigger queue_room(s[i]->0, k), queue_set(s[i]->0, t, k, Some(PendingSend { src: me, msg }))]
        queue_room(s[i]->0, k) && queue_set(s[i]->0, t, k, Some(PendingSend { src: me, msg }))
            && blocked(
            a,
            b,
            cpu,
            with_state(s.update(i, Some(t)), cur, TaskState::Blocked),
            sw,
        ) {
        let (k, t) = choose|k: int, t: Task|
            #![trigger queue_room(s[i]->0, k), queue_set(s[i]->0, t, k, Some(PendingSend { src: me, msg }))]
            queue_room(s[i]->0, k) && queue_set(s[i]->0, t, k, Some(PendingSend { src: me, msg }))
                && blocked(
                a,
                b,
                cpu,
                with_state(s.update(i, Some(t)), cur, TaskState::Blocked),
                sw,
            );
        assert(k == 0 || k == 1);
        if k == 1 {
            assert(s[i]->0.pending_senders@[0] is Some);
        }
        let s2 = with_state(s.update(i, Some(t)), cur, TaskState::Blocked);
        assert(f == with_state(s2, pick(s2, cpu, cur), TaskState::Running));
    } else {
        assert(queue_full(s[i]->0));
        assert(s[i]->0.pending_senders@[0] is Some);
        assert(s[i]->0.pending_senders@[1] is Some);
        assert(f == with_state(full, pick(full, cpu, cur), TaskState::Running));
    }
}

} // verus!
