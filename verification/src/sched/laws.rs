//! Who runs when, told by the states, priorities and affinities of the tasks.

use vstd::prelude::*;
use crate::ipc::syscall::{exited, rescheduled, yielded};
use crate::sched::run::{
    any_expired, awake, enter_post, expired, faulted, is_idle_mask, kill_task_post,
    law_pick_highest_priority, law_pick_ready, law_round_robin_progress, schedule_post,
    secondary_post, tick_post, Kill, RunQueue, Switch,
};
use crate::sched::task::{
    candidate, first_id, forward, has_id, is_best, is_next, pick, pick_rr, preferred, Slots, Task,
};
use crate::sched::{TaskId, TaskState};
use crate::smp::{idle_slot_of, CpuMask};

verus! {

/// Slot of the boot context for CPU 0; slots 16 to 18 are those of the other CPUs.
pub open spec fn home(cpu: int) -> int {
    if cpu == 0 {
        0
    } else {
        15 + cpu
    }
}

/// A task that `cpu` may take up: Ready, not bound to another CPU, not a CPU's own fallback.
pub open spec fn runnable(s: Slots, cpu: int, j: int) -> bool {
    &&& 1 <= j < 32
    &&& j != home(cpu)
    &&& s[j] matches Some(t) && t.state == TaskState::Ready && (t.cpu_affinity is None
        || t.cpu_affinity == Some(cpu as usize))
}

/// Slots between `cur` and `j`, going upwards and round.
pub open spec fn ahead(cur: int, j: int) -> int {
    if j > cur {
        j - cur - 1
    } else {
        j - cur + 31
    }
}

proof fn lemma_ahead(cur: int, j: int)
    requires
        0 <= cur < 32,
        0 <= j < 32,
    ensures
        forward(cur, j) == ahead(cur, j),
{
}

pub(crate) proof fn lemma_runnable(s: Slots, cpu: int, j: int)
    requires
        s.len() == 32,
        0 <= cpu < 4,
    ensures
        candidate(s, cpu, j) == runnable(s, cpu, j),
        idle_slot_of(cpu) == home(cpu),
{
}

/// The best task is picked: of those that can run one of the highest priority (the smallest
/// number), and of several the nearest ahead.  Only where none can run, the CPU falls back to
/// its own slot.
pub proof fn law_best_task_is_picked(s: Slots, cpu: int, cur: int, j: int)
    requires
        s.len() == 32,
        0 <= cpu < 4,
        0 <= cur < 32,
    ensures
        runnable(s, cpu, j) ==> {
            let next = pick(s, cpu, cur);
            &&& runnable(s, cpu, next)
            &&& s[next]->0.priority <= s[j]->0.priority
            &&& s[next]->0.priority == s[j]->0.priority ==> ahead(cur, next) <= ahead(cur, j)
        },
        runnable(s, cpu, pick(s, cpu, cur)) || pick(s, cpu, cur) == home(cpu),
{
    let next = pick(s, cpu, cur);
    lemma_runnable(s, cpu, j);
    lemma_runnable(s, cpu, next);
    law_pick_ready(s, cpu, cur);
    if runnable(s, cpu, j) {
        law_pick_highest_priority(s, cpu, cur, j);
        assert(is_best(s, cpu, cur, next));
        lemma_ahead(cur, next);
        lemma_ahead(cur, j);
        if j != next {
            assert(preferred(s, cur, next, j));
        }
    }
}

/// In round-robin order the nearest task ahead that can run is next, whatever its priority;
/// the task that is left is not.
pub proof fn law_nearest_task_is_next(s: Slots, cpu: int, cur: int, j: int)
    requires
        s.len() == 32,
        0 <= cpu < 4,
        0 <= cur < 32,
    ensures
        runnable(s, cpu, j) && j != cur ==> {
            let next = pick_rr(s, cpu, cur, cur);
            &&& runnable(s, cpu, next)
            &&& next != cur
            &&& ahead(cur, next) <= ahead(cur, j)
        },
        pick_rr(s, cpu, cur, cur) == home(cpu) || (runnable(s, cpu, pick_rr(s, cpu, cur, cur))
            && pick_rr(s, cpu, cur, cur) != cur),
{
    let next = pick_rr(s, cpu, cur, cur);
    lemma_runnable(s, cpu, j);
    lemma_runnable(s, cpu, next);
    if runnable(s, cpu, j) && j != cur {
        law_round_robin_progress(s, cpu, cur, j);
        crate::sched::run::lemma_next_exists(s, cpu, cur, cur, 32, j);
        assert(is_next(s, cpu, cur, cur, next));
        lemma_ahead(cur, next);
        lemma_ahead(cur, j);
    }
}

/// At the end of a call that woke a task, the CPU goes to that task exactly where its priority
/// is strictly higher than the caller's, that is, its number is smaller: the caller is Ready
/// then, the woken task Running.  Otherwise, and in the CPU's own slot, nothing changes.
#[verifier::rlimit(50)]
pub proof fn law_woken_task_preempts(a: RunQueue, b: RunQueue, cpu: int, r: Option<Switch>, w: usize)
    requires
        a.wf(),
        0 <= cpu < 4,
        w < 32,
        a.sched.woken_slot() == Some(w),
        a.sched.slots()[w as int] is Some,
        a.sched.slots()[a.cpus.current(cpu)] is Some,
        rescheduled(a, b, cpu, r),
    ensures
        ({
            let s = a.sched.slots();
            let cur = a.cpus.current(cpu);
            let better = cur != home(cpu) && s[w as int]->0.priority < s[cur]->0.priority;
            &&& r is Some <==> better
            &&& better ==> {
                &&& r->0.from == cur
                &&& r->0.to == w
                &&& b.cpus.current(cpu) == w
                &&& b.sched.slots()[w as int] == Some(
                    Task { state: TaskState::Running, ..s[w as int]->0 },
                )
                &&& b.sched.slots()[cur] == Some(Task { state: TaskState::Ready, ..s[cur]->0 })
                &&& forall|i: int|
                    0 <= i < 32 && i != cur && i != w ==> #[trigger] b.sched.slots()[i] == s[i]
            }
            &&& !better ==> b.sched.slots() == s && b.cpus.current(cpu) == cur
        }),
        b.sched.woken_slot() is None,
        forall|c: int|
            0 <= c < 4 && c != cpu ==> #[trigger] b.cpus.current(c) == a.cpus.current(c),
{
    a.sched.lemma_len();
    assert(0 <= a.cpus.current(cpu) < 32);
    lemma_runnable(a.sched.slots(), cpu, 0);
    assert(b.cpus.current(cpu) == b.cpus.current(cpu));
}

/// A call that woke nobody does not take the CPU from the caller.
pub proof fn law_no_wake_no_switch(a: RunQueue, b: RunQueue, cpu: int, r: Option<Switch>)
    requires
        0 <= cpu < 4,
        a.sched.woken_slot() is None,
        rescheduled(a, b, cpu, r),
    ensures
        r is None,
        b.sched.slots() == a.sched.slots(),
        b.cpus.current(cpu) == a.cpus.current(cpu),
{
}

/// A yield hands the CPU over exactly where a task of strictly higher priority can run, and
/// then to one of the highest; the caller stays Ready.
pub proof fn law_yield_serves_higher_priority(
    a: RunQueue,
    b: RunQueue,
    cpu: int,
    r: Option<Switch>,
    j: int,
)
    requires
        a.wf(),
        0 <= cpu < 4,
        a.cpus.current(cpu) != 0,
        a.sched.slots()[a.cpus.current(cpu)] matches Some(t) && t.state == TaskState::Running,
        yielded(a, b, cpu, r),
    ensures
        ({
            let s = a.sched.slots();
            let cur = a.cpus.current(cpu);
            &&& runnable(s, cpu, j) && s[j]->0.priority < s[cur]->0.priority ==> r is Some
            &&& r matches Some(sw) ==> {
                &&& sw.from == cur
                &&& runnable(s, cpu, sw.to as int)
                &&& s[sw.to as int]->0.priority < s[cur]->0.priority
                &&& runnable(s, cpu, j) ==> s[sw.to as int]->0.priority <= s[j]->0.priority
                &&& b.cpus.current(cpu) == sw.to
                &&& b.sched.slots()[cur] == Some(Task { state: TaskState::Ready, ..s[cur]->0 })
                &&& b.sched.slots()[sw.to as int] == Some(
                    Task { state: TaskState::Running, ..s[sw.to as int]->0 },
                )
                &&& 0 <= j < 32 && j != cur && j != sw.to ==> b.sched.slots()[j] == s[j]
            }
            &&& r is None ==> b.sched.slots() == s && b.cpus.current(cpu) == cur
        }),
{
    let s = a.sched.slots();
    let cur = a.cpus.current(cpu);
    a.sched.lemma_len();
    assert(0 <= cur < 32);
    lemma_runnable(s, cpu, j);
    law_best_task_is_picked(s, cpu, cur, j);
    assert(b.cpus.current(cpu) == b.cpus.current(cpu));
}

/// Waking the sleepers at a tick makes those Ready whose deadline has come, zombies and the
/// boot context aside, and ends their sleep; no other task changes.
pub proof fn law_sleepers_wake_when_due(s: Slots, now: u64, i: int)
    requires
        s.len() == 32,
        0 <= i < 32,
    ensures
        awake(s, now).len() == 32,
        ({
            let due = i != 0 && s[i] is Some && s[i]->0.state != TaskState::Zombie
                && s[i]->0.sleep_deadline != 0 && s[i]->0.sleep_deadline <= now;
            &&& due ==> awake(s, now)[i] == Some(
                Task { state: TaskState::Ready, sleep_deadline: 0, ..s[i]->0 },
            ) && any_expired(s, now)
            &&& !due ==> awake(s, now)[i] == s[i]
        }),
        any_expired(s, now) <==> exists|k: int|
            1 <= k < 32 && (#[trigger] s[k]) is Some && s[k]->0.state != TaskState::Zombie
                && s[k]->0.sleep_deadline != 0 && s[k]->0.sleep_deadline <= now,
{
    if i != 0 && s[i] is Some && s[i]->0.state != TaskState::Zombie && s[i]->0.sleep_deadline != 0
        && s[i]->0.sleep_deadline <= now {
        assert(expired(s, i, now));
    }
    if any_expired(s, now) {
        let k = choose|k: int| #[trigger] expired(s, k, now);
        assert(s[k] is Some);
    }
    if exists|k: int|
        1 <= k < 32 && (#[trigger] s[k]) is Some && s[k]->0.state != TaskState::Zombie
            && s[k]->0.sleep_deadline != 0 && s[k]->0.sleep_deadline <= now {
        let k = choose|k: int|
            1 <= k < 32 && (#[trigger] s[k]) is Some && s[k]->0.state != TaskState::Zombie
                && s[k]->0.sleep_deadline != 0 && s[k]->0.sleep_deadline <= now;
        assert(expired(s, k, now));
    }
}

/// A tick that interrupts a Running task at EL0 gives the CPU to the next other task that can
/// run, in round-robin order; the interrupted task is Ready.  Without such a task, or when the
/// tick interrupts the kernel, the task runs on.
#[verifier::rlimit(50)]
pub proof fn law_tick_rotates_tasks(
    a: RunQueue,
    b: RunQueue,
    cpu: int,
    now: u64,
    from_el0: bool,
    r: Option<Switch>,
    mask: CpuMask,
    j: int,
)
    requires
        a.wf(),
        0 <= cpu < 4,
        a.cpus.current(cpu) != home(cpu),
        a.cpus.current(cpu) != 0,
        awake(a.sched.slots(), now)[a.cpus.current(cpu)] matches Some(t) && t.state
            == TaskState::Running,
        tick_post(a, b, cpu, now, from_el0, r, mask),
    ensures
        ({
            let s = awake(a.sched.slots(), now);
            let cur = a.cpus.current(cpu);
            &&& from_el0 && runnable(s, cpu, j) && j != cur ==> r is Some && ahead(
                cur,
                r->0.to as int,
            ) <= ahead(cur, j)
            &&& r matches Some(sw) ==> {
                &&& from_el0
                &&& sw.from == cur
                &&& runnable(s, cpu, sw.to as int)
                &&& b.cpus.current(cpu) == sw.to
                &&& b.sched.slots()[cur] == Some(Task { state: TaskState::Ready, ..s[cur]->0 })
                &&& b.sched.slots()[sw.to as int] == Some(
                    Task { state: TaskState::Running, ..s[sw.to as int]->0 },
                )
                &&& 0 <= j < 32 && j != cur && j != sw.to ==> b.sched.slots()[j] == s[j]
            }
            &&& r is None ==> b.sched.slots() == s && b.cpus.current(cpu) == cur
        }),
{
    let s = awake(a.sched.slots(), now);
    let cur = a.cpus.current(cpu);
    a.sched.lemma_len();
    assert(0 <= cur < 32);
    lemma_runnable(s, cpu, j);
    law_nearest_task_is_next(s, cpu, cur, j);
    assert(b.cpus.current(cpu) == b.cpus.current(cpu));
}

/// A tick takes a CPU out of its own slot exactly where it woke a sleeper and a task can run;
/// the best one does then.
pub proof fn law_tick_ends_idling(
    a: RunQueue,
    b: RunQueue,
    cpu: int,
    now: u64,
    from_el0: bool,
    r: Option<Switch>,
    mask: CpuMask,
    j: int,
)
    requires
        a.wf(),
        0 <= cpu < 4,
        a.cpus.current(cpu) == home(cpu),
        awake(a.sched.slots(), now)[home(cpu)] matches Some(t) ==> t.state != TaskState::Zombie,
        tick_post(a, b, cpu, now, from_el0, r, mask),
    ensures
        ({
            let s = awake(a.sched.slots(), now);
            &&& any_expired(a.sched.slots(), now) && runnable(s, cpu, j) ==> r is Some
                && s[r->0.to as int]->0.priority <= s[j]->0.priority
            &&& r matches Some(sw) ==> {
                &&& any_expired(a.sched.slots(), now)
                &&& sw.from == home(cpu)
                &&& runnable(s, cpu, sw.to as int)
                &&& b.cpus.current(cpu) == sw.to
                &&& b.sched.slots()[sw.to as int] == Some(
                    Task { state: TaskState::Running, ..s[sw.to as int]->0 },
                )
                &&& 0 <= j < 32 && j != sw.to ==> b.sched.slots()[j] == s[j]
            }
            &&& r is None ==> b.sched.slots() == s && b.cpus.current(cpu) == home(cpu)
        }),
{
    let s = awake(a.sched.slots(), now);
    let cur = a.cpus.current(cpu);
    a.sched.lemma_len();
    lemma_runnable(s, cpu, j);
    law_best_task_is_picked(s, cpu, cur, j);
    assert(b.cpus.current(cpu) == b.cpus.current(cpu));
}

/// A tick leaves a zombie for the best task that can run, or else for the CPU's own slot; the
/// zombie stays one.
pub proof fn law_tick_leaves_zombie(
    a: RunQueue,
    b: RunQueue,
    cpu: int,
    now: u64,
    from_el0: bool,
    r: Option<Switch>,
    mask: CpuMask,
    j: int,
)
    requires
        a.wf(),
        0 <= cpu < 4,
        a.cpus.current(cpu) != home(cpu),
        a.sched.slots()[a.cpus.current(cpu)] matches Some(t) && t.state == TaskState::Zombie,
        tick_post(a, b, cpu, now, from_el0, r, mask),
    ensures
        ({
            let s = awake(a.sched.slots(), now);
            let cur = a.cpus.current(cpu);
            &&& r matches Some(sw) && sw.from == cur && sw.to != cur && b.cpus.current(cpu) == sw.to
            &&& runnable(s, cpu, j) ==> runnable(s, cpu, r->0.to as int)
                && s[r->0.to as int]->0.priority <= s[j]->0.priority
            &&& b.sched.slots()[cur] == a.sched.slots()[cur]
            &&& runnable(s, cpu, r->0.to as int) || r->0.to == home(cpu)
        }),
{
    let s = awake(a.sched.slots(), now);
    let cur = a.cpus.current(cpu);
    a.sched.lemma_len();
    lemma_runnable(s, cpu, j);
    lemma_runnable(s, cpu, cur);
    law_best_task_is_picked(s, cpu, cur, j);
    assert(b.cpus.current(cpu) == b.cpus.current(cpu));
}

/// The secondaries that a tick pokes are those that are online and idle, and only where a
/// sleeper woke; those that a wake-up pokes are the same.
pub proof fn law_idle_secondaries_are_poked(
    a: RunQueue,
    b: RunQueue,
    cpu: int,
    now: u64,
    from_el0: bool,
    r: Option<Switch>,
    mask: CpuMask,
    q: RunQueue,
    poked: CpuMask,
    c: int,
)
    requires
        tick_post(a, b, cpu, now, from_el0, r, mask),
        is_idle_mask(q, poked),
        1 <= c < 4,
    ensures
        !mask@[0],
        !poked@[0],
        mask@[c] <==> any_expired(a.sched.slots(), now) && a.cpus.online(c) && (awake(
            a.sched.slots(),
            now,
        )[15 + c] matches Some(t) && t.state == TaskState::Running),
        poked@[c] <==> q.cpus.online(c) && (q.sched.slots()[15 + c] matches Some(t) && t.state
            == TaskState::Running),
{
}

/// A task that exits is a zombie, and the CPU goes to the best task that can run, or to the
/// CPU's own slot.
#[verifier::rlimit(50)]
pub proof fn law_exit_leaves_zombie(a: RunQueue, b: RunQueue, cpu: int, sw: Switch, j: int)
    requires
        a.wf(),
        0 <= cpu < 4,
        a.cpus.current(cpu) != home(cpu),
        a.sched.slots()[a.cpus.current(cpu)] is Some,
        exited(a, b, cpu, sw),
    ensures
        ({
            let s = a.sched.slots();
            let cur = a.cpus.current(cpu);
            &&& sw.from == cur
            &&& sw.to != cur
            &&& b.cpus.current(cpu) == sw.to
            &&& b.sched.slots()[cur] == Some(Task { state: TaskState::Zombie, ..s[cur]->0 })
            &&& runnable(s, cpu, j) && j != cur ==> runnable(s, cpu, sw.to as int)
                && s[sw.to as int]->0.priority <= s[j]->0.priority
            &&& runnable(s, cpu, sw.to as int) || sw.to == home(cpu)
            &&& s[sw.to as int] is Some ==> b.sched.slots()[sw.to as int] == Some(
                Task { state: TaskState::Running, ..s[sw.to as int]->0 },
            )
            &&& 0 <= j < 32 && j != cur && j != sw.to ==> b.sched.slots()[j] == s[j]
        }),
{
    let s = a.sched.slots();
    let cur = a.cpus.current(cpu);
    a.sched.lemma_len();
    assert(0 <= cur < 32);
    let z = crate::sched::task::with_state(s, cur, TaskState::Zombie);
    lemma_runnable(z, cpu, j);
    lemma_runnable(s, cpu, j);
    law_best_task_is_picked(z, cpu, cur, j);
    assert(b.cpus.current(cpu) == b.cpus.current(cpu));
}

/// A task that faults is a zombie and waits for nothing.
pub proof fn law_faulted_task_is_zombie(s: Slots, cur: int, i: int)
    requires
        0 <= cur < s.len(),
        s[cur] is Some,
        0 <= i < s.len(),
    ensures
        faulted(s, cur)[cur] == Some(
            Task { state: TaskState::Zombie, recv_blocked: false, recv_buf: 0, ..s[cur]->0 },
        ),
        i != cur ==> faulted(s, cur)[i] == s[i],
{
}

/// From the boot context the CPU goes to the best task, if one can run.
pub proof fn law_boot_context_makes_way(
    a: RunQueue,
    b: RunQueue,
    cpu: int,
    r: Option<Switch>,
    j: int,
)
    requires
        a.wf(),
        0 <= cpu < 4,
        enter_post(a, b, cpu, r),
    ensures
        ({
            let s = a.sched.slots();
            &&& runnable(s, cpu, j) ==> r is Some && s[r->0.to as int]->0.priority
                <= s[j]->0.priority
            &&& r matches Some(sw) ==> {
                &&& sw.from == home(cpu)
                &&& runnable(s, cpu, sw.to as int)
                &&& b.cpus.current(cpu) == sw.to
                &&& b.sched.slots() == s.update(
                    sw.to as int,
                    Some(Task { state: TaskState::Running, ..s[sw.to as int]->0 }),
                )
            }
            &&& r is None ==> b.sched.slots() == s && b.cpus.current(cpu) == a.cpus.current(cpu)
        }),
{
    let s = a.sched.slots();
    let cur = a.cpus.current(cpu);
    a.sched.lemma_len();
    assert(0 <= cur < 32);
    lemma_runnable(s, cpu, j);
    law_best_task_is_picked(s, cpu, cur, j);
    assert(b.cpus.current(cpu) == b.cpus.current(cpu));
}

/// A secondary in its idle loop takes the best task that can run, and parks only where none
/// can; its own slot is Ready meanwhile.
pub proof fn law_secondary_takes_work(a: RunQueue, b: RunQueue, cpu: int, r: Option<Switch>, j: int)
    requires
        a.wf(),
        1 <= cpu < 4,
        a.sched.slots()[home(cpu)] is Some,
        secondary_post(a, b, cpu, r),
    ensures
        ({
            let s = a.sched.slots();
            &&& runnable(s, cpu, j) ==> r is Some && s[r->0.to as int]->0.priority
                <= s[j]->0.priority
            &&& r matches Some(sw) ==> {
                &&& sw.from == home(cpu)
                &&& runnable(s, cpu, sw.to as int)
                &&& b.cpus.current(cpu) == sw.to
                &&& b.sched.slots()[sw.to as int] == Some(
                    Task { state: TaskState::Running, ..s[sw.to as int]->0 },
                )
                &&& b.sched.slots()[home(cpu)] == Some(
                    Task { state: TaskState::Ready, ..s[home(cpu)]->0 },
                )
                &&& 0 <= j < 32 && j != sw.to && j != home(cpu) ==> b.sched.slots()[j] == s[j]
            }
            &&& r is None ==> b.sched.slots() == s && b.cpus.current(cpu) == a.cpus.current(cpu)
        }),
{
    let s = a.sched.slots();
    let cur = a.cpus.current(cpu);
    a.sched.lemma_len();
    assert(0 <= cur < 32);
    lemma_runnable(s, cpu, j);
    law_best_task_is_picked(s, cpu, cur, j);
    assert(b.cpus.current(cpu) == b.cpus.current(cpu));
}

/// A voluntary switch goes to the best task that can run; a task that ran stays Ready.
pub proof fn law_schedule_takes_best(a: RunQueue, b: RunQueue, cpu: int, r: Option<Switch>, j: int)
    requires
        a.wf(),
        0 <= cpu < 4,
        a.sched.slots()[a.cpus.current(cpu)] is Some,
        schedule_post(a, b, cpu, r),
    ensures
        ({
            let s = a.sched.slots();
            let cur = a.cpus.current(cpu);
            let was = s[cur]->0.state;
            &&& runnable(s, cpu, j) && was != TaskState::Ready ==> r is Some
                && s[r->0.to as int]->0.priority <= s[j]->0.priority
            &&& r matches Some(sw) ==> {
                &&& sw.from == cur
                &&& sw.to != cur
                &&& runnable(s, cpu, sw.to as int) || sw.to == home(cpu)
                &&& b.cpus.current(cpu) == sw.to
                &&& b.sched.slots()[sw.to as int] == Some(
                    Task { state: TaskState::Running, ..s[sw.to as int]->0 },
                )
                &&& b.sched.slots()[cur] == Some(
                    Task {
                        state: if was == TaskState::Running {
                            TaskState::Ready
                        } else {
                            was
                        },
                        ..s[cur]->0
                    },
                )
                &&& 0 <= j < 32 && j != sw.to && j != cur ==> b.sched.slots()[j] == s[j]
            }
            &&& r is None ==> b.sched.slots() == s && b.cpus.current(cpu) == cur
        }),
{
    let s = a.sched.slots();
    let cur = a.cpus.current(cpu);
    a.sched.lemma_len();
    assert(0 <= cur < 32);
    lemma_runnable(s, cpu, j);
    law_best_task_is_picked(s, cpu, cur, j);
    assert(b.cpus.current(cpu) == b.cpus.current(cpu));
}

/// A killed task is a zombie that waits for no message; every other task is as it was.  Its
/// tables are given up exactly where it has some and is not the caller.
pub proof fn law_kill_makes_zombie(
    a: RunQueue,
    b: RunQueue,
    cpu: int,
    id: TaskId,
    r: Kill,
    i: int,
    j: int,
)
    requires
        a.wf(),
        0 <= cpu < 4,
        a.sched.slots()[a.cpus.current(cpu)] is Some,
        0 <= i < 32,
        a.sched.slots()[i] matches Some(t) && t.id == id,
        forall|k: int|
            0 <= k < i ==> ((#[trigger] a.sched.slots()[k]) matches Some(t) ==> t.id != id),
        0 <= j < 32,
        j != i,
        kill_task_post(a, b, cpu, id, r),
    ensures
        ({
            let t = a.sched.slots()[i]->0;
            let gives = t.ttbr0 != 0 && id != a.sched.slots()[a.cpus.current(cpu)]->0.id;
            &&& gives <==> r == Kill::KilledFree(t.ttbr0)
            &&& !gives <==> r == Kill::Killed
            &&& b.sched.slots()[i] == Some(
                Task {
                    state: TaskState::Zombie,
                    recv_blocked: false,
                    ttbr0: if gives {
                        0
                    } else {
                        t.ttbr0
                    },
                    ..t
                },
            )
            &&& b.sched.slots()[j] == a.sched.slots()[j]
        }),
{
    let s = a.sched.slots();
    a.sched.lemma_len();
    assert(0 <= a.cpus.current(cpu) < 32);
    assert(has_id(s, i, id));
    assert forall|k: int| #[trigger] first_id(s, k, id) implies k == i by {
        assert(has_id(s, k, id));
        if k < i {
            assert(s[k] is Some);
        }
        if i < k {
            assert(!has_id(s, i, id));
        }
    }
}

/// There is nobody to kill exactly where no task has the id; nothing changes then.
pub proof fn law_kill_finds_nobody(a: RunQueue, b: RunQueue, cpu: int, id: TaskId, r: Kill)
    requires
        kill_task_post(a, b, cpu, id, r),
    ensures
        r == Kill::NoSuchTask <==> forall|k: int|
            0 <= k < 32 ==> ((#[trigger] a.sched.slots()[k]) matches Some(t) ==> t.id != id),
        r == Kill::NoSuchTask ==> b.sched.slots() == a.sched.slots(),
{
    let s = a.sched.slots();
    a.sched.lemma_len();
    if r == Kill::NoSuchTask {
        assert forall|k: int| 0 <= k < 32 implies ((#[trigger] s[k]) matches Some(t) ==> t.id
            != id) by {
            assert(!has_id(s, k, id));
        }
    } else {
        let i = choose|i: int| #[trigger] first_id(s, i, id);
        assert(has_id(s, i, id));
        assert(s[i] is Some);
    }
}

} // verus!
