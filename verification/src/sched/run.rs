//! Scheduling points: what each of them does to the task states, and which
//! context switch it asks for.
//!
//! A CPU that gets a [`Switch`] saves its registers to the context of `from`
//! and restores those of `to`.

use vstd::prelude::*;
use crate::sched::task::{
    candidate, exists_id, first_id, forward, in_state, is_best, is_boot_task, is_next, pick,
    pick_rr, preferred, prio_of, with_state, Scheduler, Slots, Task, MAX_TASKS,
};
use crate::sched::{TaskId, TaskState};
use crate::smp::{idle_slot, idle_slot_of, CpuMask, Cpus, MAX_CPUS};

verus! {

/// A context switch on one CPU, between two slots of the task table.
#[derive(Debug, Clone, Copy, PartialEq, Eq, Structural)]
pub struct Switch {
    pub from: usize,
    pub to: usize,
}

/// The run queue: task table and what each CPU runs.
pub struct RunQueue {
    pub sched: Scheduler,
    pub cpus: Cpus,
}

/// Outcome of a kill.
#[derive(Debug, Clone, Copy, PartialEq, Eq, Structural)]
pub enum Kill {
    /// No task has the id.
    NoSuchTask,
    /// The task is a zombie now; it keeps its tables.
    Killed,
    /// The task is a zombie now; its tables under this root are to be freed.
    KilledFree(u64),
}

/// The task's sleep is over at tick `now`.
pub open spec fn expired(s: Slots, i: int, now: u64) -> bool {
    &&& 1 <= i < s.len()
    &&& s[i] is Some
    &&& s[i]->0.state != TaskState::Zombie
    &&& s[i]->0.sleep_deadline != 0
    &&& s[i]->0.sleep_deadline <= now
}

/// The table once every expired sleeper has been woken.
pub open spec fn awake(s: Slots, now: u64) -> Slots {
    Seq::new(
        s.len(),
        |i: int|
            if expired(s, i, now) {
                Some(Task { state: TaskState::Ready, sleep_deadline: 0, ..s[i]->0 })
            } else {
                s[i]
            },
    )
}

/// Some sleeper has expired.
pub open spec fn any_expired(s: Slots, now: u64) -> bool {
    exists|i: int| #[trigger] expired(s, i, now)
}

/// Slot that a preempting CPU switches to when it leaves `cur`, if any.
///
/// With `strict` only a task of strictly higher priority takes over; otherwise
/// the next Ready task in round-robin order does.  Nobody is preempted for the
/// idle slot.
pub open spec fn preempt_target(s: Slots, cpu: int, cur: int, strict: bool) -> Option<int> {
    let next = if strict {
        pick(s, cpu, cur)
    } else {
        pick_rr(s, cpu, cur, cur)
    };
    if cur == 0 || !in_state(s, cur, TaskState::Running) {
        None
    } else if next == cur || next == idle_slot_of(cpu) {
        None
    } else if strict && prio_of(s, next) >= prio_of(s, cur) {
        None
    } else {
        Some(next)
    }
}

/// Slot that the end of a system call switches to, if any: the task that the
/// call woke, if it has strictly higher priority than the caller.
pub open spec fn wake_target(s: Slots, cpu: int, cur: int, woken: Option<usize>) -> Option<int> {
    match woken {
        Some(w) => if cur != idle_slot_of(cpu) && prio_of(s, w as int) < prio_of(s, cur) {
            Some(w as int)
        } else {
            None
        },
        None => None,
    }
}

/// Slot that a timer tick switches to, if any; `s` is the table with the
/// expired sleepers awake, `woke` whether there were any.
pub open spec fn tick_target(
    s: Slots,
    cpu: int,
    cur: int,
    from_el0: bool,
    woke: bool,
) -> Option<int> {
    let next = pick(s, cpu, cur);
    let idle = idle_slot_of(cpu);
    if in_state(s, cur, TaskState::Zombie) {
        if next != cur {
            Some(next)
        } else {
            None
        }
    } else if cur == idle {
        if woke && next != idle {
            Some(next)
        } else {
            None
        }
    } else if from_el0 {
        preempt_target(s, cpu, cur, false)
    } else {
        None
    }
}

/// The table after a tick: a zombie and an idle slot are left as they are, a
/// preempted task becomes Ready.
pub open spec fn tick_slots(s: Slots, cpu: int, cur: int, from_el0: bool, woke: bool) -> Slots {
    match tick_target(s, cpu, cur, from_el0, woke) {
        Some(next) => if in_state(s, cur, TaskState::Zombie) || cur == idle_slot_of(cpu) {
            with_state(s, next, TaskState::Running)
        } else {
            handover(s, cur, next)
        },
        None => s,
    }
}

/// The task in `cur` becomes Ready, the one in `next` Running.
pub open spec fn handover(s: Slots, cur: int, next: int) -> Slots {
    with_state(with_state(s, cur, TaskState::Ready), next, TaskState::Running)
}

/// `r` is the switch from `from` to the target, if there is one.
pub open spec fn is_switch(r: Option<Switch>, from: int, target: Option<int>) -> bool {
    match (r, target) {
        (Some(sw), Some(to)) => sw.from == from && sw.to == to,
        (None, None) => true,
        _ => false,
    }
}

/// The CPUs that are parked in their idle slot.
pub open spec fn is_idle_mask(q: RunQueue, mask: CpuMask) -> bool {
    forall|c: int|
        0 <= c < MAX_CPUS ==> #[trigger] mask@[c] == (c >= 1 && q.cpus.online(c) && in_state(
            q.sched.slots(),
            idle_slot_of(c),
            TaskState::Running,
        ))
}

/// No CPU.
pub open spec fn no_cpus(mask: CpuMask) -> bool {
    forall|c: int| 0 <= c < MAX_CPUS ==> !#[trigger] mask@[c]
}

/// `b` has the table `slots`, and `cpu` runs `to` (or what it ran before);
/// everything else is as in `a`.
pub open spec fn moved(a: RunQueue, b: RunQueue, cpu: int, slots: Slots, to: Option<int>) -> bool {
    &&& b.sched.slots() == slots
    &&& b.sched.next() == a.sched.next()
    &&& forall|c: int|
        0 <= c < MAX_CPUS ==> #[trigger] b.cpus.current(c) == match to {
            Some(t) => if c == cpu {
                t
            } else {
                a.cpus.current(c)
            },
            None => a.cpus.current(c),
        }
    &&& forall|c: int| 0 <= c < MAX_CPUS ==> #[trigger] b.cpus.online(c) == a.cpus.online(c)
}

/// The boot context of CPU 0, as it is at first.
pub open spec fn is_boot_context(slot: Option<Task>) -> bool {
    slot matches Some(t) && is_boot_task(t)
}

/// What a timer tick does.
pub open spec fn tick_post(
    a: RunQueue,
    b: RunQueue,
    cpu: int,
    now: u64,
    from_el0: bool,
    r: Option<Switch>,
    mask: CpuMask,
) -> bool {
    let s = awake(a.sched.slots(), now);
    let woke = any_expired(a.sched.slots(), now);
    let cur = a.cpus.current(cpu);
    let target = tick_target(s, cpu, cur, from_el0, woke);
    &&& is_switch(r, cur, target)
    &&& moved(a, b, cpu, tick_slots(s, cpu, cur, from_el0, woke), target)
    &&& forall|c: int|
        0 <= c < MAX_CPUS ==> #[trigger] mask@[c] == (woke && c >= 1 && a.cpus.online(c)
            && in_state(s, idle_slot_of(c), TaskState::Running))
}

/// What entering the scheduler from the boot context does.
pub open spec fn enter_post(a: RunQueue, b: RunQueue, cpu: int, r: Option<Switch>) -> bool {
    let s = a.sched.slots();
    let next = pick(s, cpu, a.cpus.current(cpu));
    let target = if next == idle_slot_of(cpu) {
        None
    } else {
        Some(next)
    };
    &&& is_switch(r, idle_slot_of(cpu), target)
    &&& moved(
        a,
        b,
        cpu,
        match target {
            Some(t) => with_state(s, t, TaskState::Running),
            None => s,
        },
        target,
    )
}

/// What a voluntary switch does.
pub open spec fn schedule_post(a: RunQueue, b: RunQueue, cpu: int, r: Option<Switch>) -> bool {
    let s = a.sched.slots();
    let cur = a.cpus.current(cpu);
    let next = pick(s, cpu, cur);
    let target = if next == cur || s[cur] is None || s[next] is None {
        None
    } else {
        Some(next)
    };
    &&& is_switch(r, cur, target)
    &&& moved(
        a,
        b,
        cpu,
        match target {
            Some(t) => if in_state(s, cur, TaskState::Running) {
                handover(s, cur, t)
            } else {
                with_state(s, t, TaskState::Running)
            },
            None => s,
        },
        target,
    )
}

/// What a round of a secondary's idle loop does.
pub open spec fn secondary_post(a: RunQueue, b: RunQueue, cpu: int, r: Option<Switch>) -> bool {
    let s = a.sched.slots();
    let idle = idle_slot_of(cpu);
    let next = pick(s, cpu, a.cpus.current(cpu));
    let target = if next == idle {
        None
    } else {
        Some(next)
    };
    &&& is_switch(r, idle, target)
    &&& moved(
        a,
        b,
        cpu,
        match target {
            Some(t) => handover(s, idle, t),
            None => s,
        },
        target,
    )
}

/// What killing the task with the id does to the table.
pub open spec fn kill_task_post(a: RunQueue, b: RunQueue, cpu: int, id: TaskId, r: Kill) -> bool {
    let s = a.sched.slots();
    let own = id == current_of(s, a.cpus.current(cpu));
    match r {
        Kill::NoSuchTask => !exists_id(s, id) && b.sched.slots() == s,
        Kill::Killed => exists|i: int| #[trigger]
            first_id(s, i, id) && (s[i]->0.ttbr0 == 0 || own) && b.sched.slots() == s.update(
                i,
                Some(killed(s[i]->0, false)),
            ),
        Kill::KilledFree(root) => exists|i: int| #[trigger]
            first_id(s, i, id) && root == s[i]->0.ttbr0 && root != 0 && !own && b.sched.slots()
                == s.update(i, Some(killed(s[i]->0, true))),
    }
}

impl RunQueue {
    /// Every CPU runs a slot of the table.
    pub open spec fn wf(self) -> bool {
        self.cpus.wf()
    }

    /// The boot context on every CPU, all CPUs offline.
    pub fn new() -> (q: Self)
        ensures
            q.wf(),
            q.sched.slots().len() == 32,
            forall|i: int| 1 <= i < 32 ==> #[trigger] q.sched.slots()[i] is None,
            is_boot_context(q.sched.slots()[0]),
            q.sched.next() == 1,
            q.sched.woken_slot() is None,
            forall|c: int| 0 <= c < MAX_CPUS ==> #[trigger] q.cpus.current(c) == 0,
            forall|c: int| 0 <= c < MAX_CPUS ==> !#[trigger] q.cpus.online(c),
    {
        RunQueue { sched: Scheduler::new(), cpus: Cpus::new() }
    }

    /// Set the task in `next` Running on `cpu`.
    fn switch_to(&mut self, cpu: usize, next: usize) -> (r: Switch)
        requires
            old(self).wf(),
            cpu < MAX_CPUS,
            next < MAX_TASKS,
        ensures
            final(self).wf(),
            final(self).sched.woken_slot() == old(self).sched.woken_slot(),
            moved(
                *old(self),
                *final(self),
                cpu as int,
                with_state(old(self).sched.slots(), next as int, TaskState::Running),
                Some(next as int),
            ),
            r.from == old(self).cpus.current(cpu as int),
            r.to == next,
    {
        let from: usize = self.cpus.current_idx(cpu);
        self.sched.set_state(next, TaskState::Running);
        self.cpus.set_current(cpu, next);
        Switch { from, to: next }
    }

    /// Give up the CPU: the task that `cpu` runs is no longer runnable, and the
    /// best task takes over.
    pub fn switch_away(&mut self, cpu: usize) -> (r: Switch)
        requires
            old(self).wf(),
            cpu < MAX_CPUS,
        ensures
            final(self).wf(),
            final(self).sched.woken_slot() == old(self).sched.woken_slot(),
            ({
                let s = old(self).sched.slots();
                let cur = old(self).cpus.current(cpu as int);
                let next = pick(s, cpu as int, cur);
                &&& r.from == cur
                &&& r.to == next
                &&& moved(
                    *old(self),
                    *final(self),
                    cpu as int,
                    with_state(s, next, TaskState::Running),
                    Some(next),
                )
            }),
    {
        assert(self.cpus.current(cpu as int) < 32);
        let cur: usize = self.cpus.current_idx(cpu);
        let next: usize = self.sched.pick_next(cpu, cur);
        self.switch_to(cpu, next)
    }

    /// Core of every preemption: if the task that `cpu` runs is Running and
    /// there is a task to switch to, switch.
    pub fn switch_best(&mut self, cpu: usize, strict: bool) -> (r: Option<Switch>)
        requires
            old(self).wf(),
            cpu < MAX_CPUS,
        ensures
            final(self).wf(),
            final(self).sched.woken_slot() == old(self).sched.woken_slot(),
            ({
                let s = old(self).sched.slots();
                let cur = old(self).cpus.current(cpu as int);
                let target = preempt_target(s, cpu as int, cur, strict);
                &&& is_switch(r, cur, target)
                &&& moved(
                    *old(self),
                    *final(self),
                    cpu as int,
                    match target {
                        Some(next) => handover(s, cur, next),
                        None => s,
                    },
                    target,
                )
            }),
    {
        assert(self.cpus.current(cpu as int) < 32);
        let cur: usize = self.cpus.current_idx(cpu);
        if cur == 0 {
            return None;
        }
        let running: bool = match self.sched.task_at(cur) {
            Some(t) => t.state == TaskState::Running,
            None => false,
        };
        if !running {
            return None;
        }
        let next: usize = if strict {
            self.sched.pick_next(cpu, cur)
        } else {
            self.sched.pick_next_rr(cpu, cur, cur)
        };
        if next == cur || next == idle_slot(cpu) {
            return None;
        }
        let cur_prio: u8 = self.priority(cur);
        let next_prio: u8 = self.priority(next);
        if strict && next_prio >= cur_prio {
            return None;
        }
        self.sched.set_state(cur, TaskState::Ready);
        Some(self.switch_to(cpu, next))
    }

    fn priority(&self, idx: usize) -> (p: u8)
        requires
            idx < MAX_TASKS,
        ensures
            p == prio_of(self.sched.slots(), idx as int),
    {
        match self.sched.task_at(idx) {
            Some(t) => t.priority,
            None => 255,
        }
    }

    /// Wake every task whose sleep is over at tick `now`.  Returns whether there
    /// was any.
    pub fn wake_sleepers(&mut self, now: u64) -> (woke: bool)
        ensures
            final(self).cpus == old(self).cpus,
            final(self).sched.next() == old(self).sched.next(),
            final(self).sched.woken_slot() == old(self).sched.woken_slot(),
            final(self).sched.slots() == awake(old(self).sched.slots(), now),
            woke == any_expired(old(self).sched.slots(), now),
    {
        let ghost s = self.sched.slots();
        proof {
            self.sched.lemma_len();
        }
        let mut woke: bool = false;
        let mut idx: usize = 1;
        while idx < MAX_TASKS
            invariant
                1 <= idx <= MAX_TASKS,
                s == old(self).sched.slots(),
                s.len() == 32,
                self.sched.slots().len() == 32,
                self.cpus == old(self).cpus,
                self.sched.next() == old(self).sched.next(),
                self.sched.woken_slot() == old(self).sched.woken_slot(),
                forall|i: int|
                    0 <= i < 32 ==> #[trigger] self.sched.slots()[i] == if i < idx {
                        awake(s, now)[i]
                    } else {
                        s[i]
                    },
                woke == exists|i: int| i < idx && #[trigger] expired(s, i, now),
            decreases MAX_TASKS - idx,
        {
            let mut hit: bool = false;
            let ghost mid = self.sched.slots();
            if let Some(t) = self.sched.task_at_mut(idx) {
                if t.state != TaskState::Zombie && t.sleep_deadline != 0 && t.sleep_deadline
                    <= now {
                    t.sleep_deadline = 0;
                    t.state = TaskState::Ready;
                    hit = true;
                }
            }
            proof {
                assert(mid[idx as int] == s[idx as int]);
                assert(hit == expired(s, idx as int, now));
                assert(self.sched.slots()[idx as int] == awake(s, now)[idx as int]);
            }
            if hit {
                woke = true;
            }
            idx = idx + 1;
        }
        assert(self.sched.slots() =~= awake(s, now));
        woke
    }

    /// Timer tick on `cpu` at tick `now`: wake expired sleepers, then switch
    /// away from a zombie, from an idle slot if a sleeper woke, or from an
    /// interrupted EL0 task.
    ///
    /// Returns the switch to make and the parked CPUs to poke.
    pub fn tick_preempt(&mut self, cpu: usize, now: u64, from_el0: bool) -> (r: (
        Option<Switch>,
        CpuMask,
    ))
        requires
            old(self).wf(),
            cpu < MAX_CPUS,
        ensures
            final(self).wf(),
            final(self).sched.woken_slot() == old(self).sched.woken_slot(),
            tick_post(*old(self), *final(self), cpu as int, now, from_el0, r.0, r.1),
    {
        assert(self.cpus.current(cpu as int) < 32);
        let cur: usize = self.cpus.current_idx(cpu);
        let idle: usize = idle_slot(cpu);
        let woke: bool = self.wake_sleepers(now);
        let mut mask: CpuMask = [false;4];
        if woke {
            mask = self.poke_idle_secondaries();
        }
        let zombie: bool = match self.sched.task_at(cur) {
            Some(t) => t.state == TaskState::Zombie,
            None => false,
        };
        if zombie {
            let next: usize = self.sched.pick_next(cpu, cur);
            if next != cur {
                return (Some(self.switch_to(cpu, next)), mask);
            }
            return (None, mask);
        }
        if cur == idle {
            if woke {
                let next: usize = self.sched.pick_next(cpu, cur);
                if next != idle {
                    return (Some(self.switch_to(cpu, next)), mask);
                }
            }
            return (None, mask);
        }
        if !from_el0 {
            return (None, mask);
        }
        (self.switch_best(cpu, false), mask)
    }

    /// Cooperative yield: hand `cpu` to a task of strictly higher priority, if
    /// one is runnable.
    pub fn yield_cpu(&mut self, cpu: usize) -> (r: Option<Switch>)
        requires
            old(self).wf(),
            cpu < MAX_CPUS,
        ensures
            final(self).wf(),
            final(self).sched.woken_slot() == old(self).sched.woken_slot(),
            ({
                let s = old(self).sched.slots();
                let cur = old(self).cpus.current(cpu as int);
                let target = preempt_target(s, cpu as int, cur, true);
                &&& is_switch(r, cur, target)
                &&& moved(
                    *old(self),
                    *final(self),
                    cpu as int,
                    match target {
                        Some(next) => handover(s, cur, next),
                        None => s,
                    },
                    target,
                )
            }),
    {
        self.switch_best(cpu, true)
    }

    /// End of a system call: if it woke a task of strictly higher priority than
    /// the caller, switch to it.  The record of the woken task is consumed.
    pub fn reschedule(&mut self, cpu: usize) -> (r: Option<Switch>)
        requires
            old(self).wf(),
            cpu < MAX_CPUS,
            old(self).sched.woken_slot() matches Some(w) ==> w < MAX_TASKS,
        ensures
            final(self).wf(),
            final(self).sched.woken_slot() is None,
            ({
                let s = old(self).sched.slots();
                let cur = old(self).cpus.current(cpu as int);
                let target = wake_target(s, cpu as int, cur, old(self).sched.woken_slot());
                &&& is_switch(r, cur, target)
                &&& moved(
                    *old(self),
                    *final(self),
                    cpu as int,
                    match target {
                        Some(next) => handover(s, cur, next),
                        None => s,
                    },
                    target,
                )
            }),
    {
        assert(self.cpus.current(cpu as int) < 32);
        let wslot: usize = match self.sched.take_woken() {
            Some(w) => w,
            None => {
                return None;
            },
        };
        let cur: usize = self.cpus.current_idx(cpu);
        if cur == idle_slot(cpu) {
            return None;
        }
        let cur_prio: u8 = self.priority(cur);
        let w_prio: u8 = self.priority(wslot);
        if w_prio >= cur_prio {
            return None;
        }
        self.sched.set_state(cur, TaskState::Ready);
        Some(self.switch_to(cpu, wslot))
    }

    /// Terminate the task that `cpu` runs and switch away from it.
    pub fn exit_current(&mut self, cpu: usize) -> (r: Switch)
        requires
            old(self).wf(),
            cpu < MAX_CPUS,
        ensures
            final(self).wf(),
            final(self).sched.woken_slot() == old(self).sched.woken_slot(),
            ({
                let cur = old(self).cpus.current(cpu as int);
                let s = with_state(old(self).sched.slots(), cur, TaskState::Zombie);
                let next = pick(s, cpu as int, cur);
                &&& r.from == cur
                &&& r.to == next
                &&& moved(
                    *old(self),
                    *final(self),
                    cpu as int,
                    with_state(s, next, TaskState::Running),
                    Some(next),
                )
            }),
    {
        assert(self.cpus.current(cpu as int) < 32);
        let cur: usize = self.cpus.current_idx(cpu);
        self.sched.set_state(cur, TaskState::Zombie);
        self.switch_away(cpu)
    }

    /// Terminate the task that `cpu` runs after a fault: it no longer waits for
    /// a message, and the best task takes over.
    pub fn kill_faulting_task(&mut self, cpu: usize) -> (r: Switch)
        requires
            old(self).wf(),
            cpu < MAX_CPUS,
        ensures
            final(self).wf(),
            final(self).sched.woken_slot() == old(self).sched.woken_slot(),
            ({
                let cur = old(self).cpus.current(cpu as int);
                let s = faulted(old(self).sched.slots(), cur);
                let next = pick(s, cpu as int, cur);
                &&& r.from == cur
                &&& r.to == next
                &&& moved(
                    *old(self),
                    *final(self),
                    cpu as int,
                    with_state(s, next, TaskState::Running),
                    Some(next),
                )
            }),
    {
        assert(self.cpus.current(cpu as int) < 32);
        let cur: usize = self.cpus.current_idx(cpu);
        if let Some(t) = self.sched.task_at_mut(cur) {
            t.state = TaskState::Zombie;
            t.recv_blocked = false;
            t.recv_buf = 0;
        }
        self.switch_away(cpu)
    }

    /// Enter the scheduler from the boot context of `cpu`; nothing happens where
    /// nothing is runnable.
    pub fn enter(&mut self, cpu: usize) -> (r: Option<Switch>)
        requires
            old(self).wf(),
            cpu < MAX_CPUS,
        ensures
            final(self).wf(),
            final(self).sched.woken_slot() == old(self).sched.woken_slot(),
            enter_post(*old(self), *final(self), cpu as int, r),
    {
        assert(self.cpus.current(cpu as int) < 32);
        let cur: usize = self.cpus.current_idx(cpu);
        let idle: usize = idle_slot(cpu);
        let next: usize = self.sched.pick_next(cpu, cur);
        if next == idle {
            return None;
        }
        let sw = self.switch_to(cpu, next);
        Some(Switch { from: idle, to: sw.to })
    }

    /// Switch to the best task, unless `cpu` runs it already or one of the two
    /// slots is empty.
    pub fn schedule(&mut self, cpu: usize) -> (r: Option<Switch>)
        requires
            old(self).wf(),
            cpu < MAX_CPUS,
        ensures
            final(self).wf(),
            final(self).sched.woken_slot() == old(self).sched.woken_slot(),
            schedule_post(*old(self), *final(self), cpu as int, r),
    {
        assert(self.cpus.current(cpu as int) < 32);
        let cur: usize = self.cpus.current_idx(cpu);
        let next: usize = self.sched.pick_next(cpu, cur);
        if cur == next {
            return None;
        }
        if self.sched.ctx_ptr(cur).is_none() || self.sched.ctx_ptr(next).is_none() {
            return None;
        }
        let running: bool = match self.sched.task_at(cur) {
            Some(t) => t.state == TaskState::Running,
            None => false,
        };
        if running {
            self.sched.set_state(cur, TaskState::Ready);
        }
        Some(self.switch_to(cpu, next))
    }

    /// One round of a secondary's idle loop: switch from the idle slot to the
    /// best task, or park (`None`).
    pub fn secondary_enter(&mut self, cpu: usize) -> (r: Option<Switch>)
        requires
            old(self).wf(),
            cpu < MAX_CPUS,
        ensures
            final(self).wf(),
            final(self).sched.woken_slot() == old(self).sched.woken_slot(),
            secondary_post(*old(self), *final(self), cpu as int, r),
    {
        assert(self.cpus.current(cpu as int) < 32);
        let cur: usize = self.cpus.current_idx(cpu);
        let idle: usize = idle_slot(cpu);
        let next: usize = self.sched.pick_next(cpu, cur);
        if next == idle {
            return None;
        }
        self.sched.set_state(idle, TaskState::Ready);
        let sw = self.switch_to(cpu, next);
        Some(Switch { from: idle, to: sw.to })
    }

    /// Mark the task with the given id as zombie.  Its tables are to be freed,
    /// unless it has none of its own or is the task that `cpu` runs.
    pub fn kill_task(&mut self, cpu: usize, id: TaskId) -> (r: Kill)
        requires
            old(self).wf(),
            cpu < MAX_CPUS,
        ensures
            final(self).wf(),
            final(self).cpus == old(self).cpus,
            final(self).sched.next() == old(self).sched.next(),
            final(self).sched.woken_slot() == old(self).sched.woken_slot(),
            kill_task_post(*old(self), *final(self), cpu as int, id, r),
    {
        assert(self.cpus.current(cpu as int) < 32);
        let cur: usize = self.cpus.current_idx(cpu);
        let current = self.sched.current_id(cur);
        match self.sched.task_by_id_mut(id) {
            Some(t) => {
                let root: u64 = t.ttbr0;
                t.state = TaskState::Zombie;
                t.recv_blocked = false;
                if root != 0 && id != current {
                    t.ttbr0 = 0;
                    Kill::KilledFree(root)
                } else {
                    Kill::Killed
                }
            },
            None => Kill::NoSuchTask,
        }
    }

    /// The online secondaries that are parked in their idle slot.
    pub fn poke_idle_secondaries(&self) -> (mask: CpuMask)
        ensures
            is_idle_mask(*self, mask),
    {
        let mut mask: CpuMask = [false;4];
        let mut cpu: usize = 1;
        while cpu < MAX_CPUS
            invariant
                1 <= cpu <= MAX_CPUS,
                mask@.len() == 4,
                forall|c: int|
                    0 <= c < MAX_CPUS ==> #[trigger] mask@[c] == (1 <= c < cpu && self.cpus.online(
                        c,
                    ) && in_state(self.sched.slots(), idle_slot_of(c), TaskState::Running)),
            decreases MAX_CPUS - cpu,
        {
            let running: bool = match self.sched.task_at(idle_slot(cpu)) {
                Some(t) => t.state == TaskState::Running,
                None => false,
            };
            if self.cpus.is_online(cpu) && running {
                mask[cpu] = true;
            }
            cpu = cpu + 1;
        }
        mask
    }

    /// The online CPUs other than `me`.
    pub fn poke_other_cpus(&self, me: usize) -> (mask: CpuMask)
        ensures
            forall|c: int|
                0 <= c < MAX_CPUS ==> #[trigger] mask@[c] == (c != me && self.cpus.online(c)),
    {
        let mut mask: CpuMask = [false;4];
        let mut cpu: usize = 0;
        while cpu < MAX_CPUS
            invariant
                cpu <= MAX_CPUS,
                mask@.len() == 4,
                forall|c: int|
                    0 <= c < MAX_CPUS ==> #[trigger] mask@[c] == (c < cpu && c != me
                        && self.cpus.online(c)),
            decreases MAX_CPUS - cpu,
        {
            if cpu != me && self.cpus.is_online(cpu) {
                mask[cpu] = true;
            }
            cpu = cpu + 1;
        }
        mask
    }
}

/// Id of the task in slot `cur`; 0 for an empty slot.
pub open spec fn current_of(s: Slots, cur: int) -> TaskId {
    match s[cur] {
        Some(t) => t.id,
        None => TaskId(0),
    }
}

/// The task after a kill, its tables given up or not.
pub open spec fn killed(t: Task, give_up: bool) -> Task {
    Task {
        state: TaskState::Zombie,
        recv_blocked: false,
        ttbr0: if give_up {
            0
        } else {
            t.ttbr0
        },
        ..t
    }
}

/// The table once the task in `cur` has faulted.
pub open spec fn faulted(s: Slots, cur: int) -> Slots {
    match s[cur] {
        Some(t) => s.update(
            cur,
            Some(Task { state: TaskState::Zombie, recv_blocked: false, recv_buf: 0, ..t }),
        ),
        None => s,
    }
}

/// What is picked has the highest priority of all candidates.
pub proof fn law_pick_highest_priority(s: Slots, cpu: int, cur: int, j: int)
    requires
        s.len() == 32,
        candidate(s, cpu, j),
    ensures
        candidate(s, cpu, pick(s, cpu, cur)),
        prio_of(s, pick(s, cpu, cur)) <= prio_of(s, j),
{
    lemma_best_exists(s, cpu, cur, 32, j);
}

/// A zombie is never picked, nor a blocked task, nor one that a CPU runs: what
/// is picked is Ready, or it is the idle slot and nothing is Ready.
pub proof fn law_pick_ready(s: Slots, cpu: int, cur: int)
    requires
        s.len() == 32,
    ensures
        candidate(s, cpu, pick(s, cpu, cur)) || (pick(s, cpu, cur) == idle_slot_of(cpu)
            && forall|j: int| !#[trigger] candidate(s, cpu, j)),
{
    if exists|j: int| #[trigger] candidate(s, cpu, j) {
        let j = choose|j: int| #[trigger] candidate(s, cpu, j);
        lemma_best_exists(s, cpu, cur, 32, j);
    }
}

/// A preempted task makes way for another that is Ready, never for the idle slot.
pub proof fn law_preemption_never_idles(s: Slots, cpu: int, cur: int, strict: bool)
    requires
        s.len() == 32,
    ensures
        preempt_target(s, cpu, cur, strict) matches Some(next) ==> candidate(s, cpu, next) && next
            != cur,
{
}

/// A task is not picked twice in a row while another of the same or higher
/// priority is runnable.
pub proof fn law_pick_rotates(s: Slots, cpu: int, cur: int, j: int)
    requires
        s.len() == 32,
        0 <= cur < 32,
        candidate(s, cpu, j),
        j != cur,
        prio_of(s, j) <= prio_of(s, cur),
    ensures
        pick(s, cpu, cur) != cur,
{
    lemma_best_exists(s, cpu, cur, 32, j);
    let r = pick(s, cpu, cur);
    if r == cur {
        assert(preferred(s, cur, r, j));
        assert(forward(cur, cur) == 31);
        assert(forward(cur, j) <= 31);
    }
}

/// With each round-robin switch every other waiting task comes closer to its
/// turn, so that none starves.
pub proof fn law_round_robin_progress(s: Slots, cpu: int, cur: int, j: int)
    requires
        s.len() == 32,
        0 <= cur < 32,
        candidate(s, cpu, j),
        j != cur,
    ensures
        ({
            let r = pick_rr(s, cpu, cur, cur);
            r == j || forward(r, j) < forward(cur, j)
        }),
{
    lemma_next_exists(s, cpu, cur, cur, 32, j);
    let r = pick_rr(s, cpu, cur, cur);
    if r != j {
        assert(forward(cur, r) < forward(cur, j));
    }
}

/// Among the first `n` slots that hold a candidate there is a best one.
proof fn lemma_best_below(s: Slots, cpu: int, cur: int, n: int) -> (r: int)
    requires
        s.len() == 32,
        0 <= n <= 32,
        exists|j: int| #[trigger] candidate(s, cpu, j) && j < n,
    ensures
        candidate(s, cpu, r),
        r < n,
        forall|j: int|
            #[trigger] candidate(s, cpu, j) && j < n && j != r ==> preferred(s, cur, r, j),
    decreases n,
{
    if exists|j: int| #[trigger] candidate(s, cpu, j) && j < n - 1 {
        let r = lemma_best_below(s, cpu, cur, n - 1);
        if candidate(s, cpu, n - 1) && !preferred(s, cur, r, n - 1) {
            assert(forward(cur, r) != forward(cur, n - 1));
            assert(preferred(s, cur, n - 1, r));
            n - 1
        } else {
            r
        }
    } else {
        let j = choose|j: int| #[trigger] candidate(s, cpu, j) && j < n;
        assert(j == n - 1);
        j
    }
}

proof fn lemma_best_exists(s: Slots, cpu: int, cur: int, n: int, j: int)
    requires
        s.len() == 32,
        n == 32,
        candidate(s, cpu, j),
    ensures
        is_best(s, cpu, cur, pick(s, cpu, cur)),
{
    let r = lemma_best_below(s, cpu, cur, n);
    assert(is_best(s, cpu, cur, r));
}

proof fn lemma_next_below(s: Slots, cpu: int, cur: int, exclude: int, n: int) -> (r: int)
    requires
        s.len() == 32,
        0 <= n <= 32,
        exists|j: int| #[trigger] candidate(s, cpu, j) && j < n && j != exclude,
    ensures
        candidate(s, cpu, r),
        r < n,
        r != exclude,
        forall|j: int|
            #[trigger] candidate(s, cpu, j) && j < n && j != r && j != exclude ==> forward(cur, r)
                < forward(cur, j),
    decreases n,
{
    if exists|j: int| #[trigger] candidate(s, cpu, j) && j < n - 1 && j != exclude {
        let r = lemma_next_below(s, cpu, cur, exclude, n - 1);
        if candidate(s, cpu, n - 1) && n - 1 != exclude && !(forward(cur, r) < forward(
            cur,
            n - 1,
        )) {
            assert(forward(cur, r) != forward(cur, n - 1));
            n - 1
        } else {
            r
        }
    } else {
        let j = choose|j: int| #[trigger] candidate(s, cpu, j) && j < n && j != exclude;
        assert(j == n - 1);
        j
    }
}

pub(crate) proof fn lemma_next_exists(s: Slots, cpu: int, cur: int, exclude: int, n: int, j: int)
    requires
        s.len() == 32,
        n == 32,
        candidate(s, cpu, j),
        j != exclude,
    ensures
        is_next(s, cpu, cur, exclude, pick_rr(s, cpu, cur, exclude)),
{
    let r = lemma_next_below(s, cpu, cur, exclude, n);
    assert(is_next(s, cpu, cur, exclude, r));
}

/// A task that was killed while a CPU runs it is left at that CPU's next tick, if need be for
/// the idle slot.
pub proof fn law_killed_task_is_left(s: Slots, cpu: int, cur: int, from_el0: bool, woke: bool)
    requires
        s.len() == 32,
        in_state(s, cur, TaskState::Zombie),
        cur != idle_slot_of(cpu),
    ensures
        tick_target(s, cpu, cur, from_el0, woke) matches Some(next) && next != cur,
{
    law_pick_ready(s, cpu, cur);
}

/// Waking sleepers revives no zombie and touches no task that does not sleep.
pub proof fn law_wake_spares_zombies(s: Slots, now: u64, i: int)
    requires
        0 <= i < s.len(),
        in_state(s, i, TaskState::Zombie) || (s[i] is Some && s[i]->0.sleep_deadline == 0),
    ensures
        awake(s, now)[i] == s[i],
{
}

} // verus!
