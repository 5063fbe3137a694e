//! Per-CPU state.

use vstd::prelude::*;
use crate::arch::aarch64::psci::{cpu_on, cpu_on_status, FN64_CPU_ON};
use crate::sched::run::RunQueue;
use crate::sched::task::{is_idle_task, IDLE_SLOT_BASE, MAX_TASKS};

verus! {

/// Maximum number of CPUs.
pub const MAX_CPUS: usize = 4;

/// Stack size per secondary CPU.
pub const SECONDARY_STACK_SIZE: usize = 0x1_0000;

/// Per-CPU runtime state.
#[derive(Debug, Clone, Copy)]
pub struct PerCpu {
    /// Scheduler slot this CPU executes (0 is the boot context).
    pub current: usize,
    /// Brought up.
    pub online: bool,
}

/// One flag per CPU.
pub type CpuMask = [bool; MAX_CPUS];

/// State of all CPUs.
#[derive(Debug, Clone, Copy)]
pub struct Cpus {
    cpus: [PerCpu; MAX_CPUS],
}

impl Cpus {
    /// Slot that `cpu` executes.
    pub closed spec fn current(self, cpu: int) -> int {
        self.cpus@[cpu].current as int
    }

    /// `cpu` has been brought up.
    pub closed spec fn online(self, cpu: int) -> bool {
        self.cpus@[cpu].online
    }

    /// Every CPU executes a slot of the task table.
    pub open spec fn wf(self) -> bool {
        forall|c: int| 0 <= c < MAX_CPUS ==> 0 <= #[trigger] self.current(c) < 32
    }

    /// All CPUs offline, in the boot context.
    pub fn new() -> (s: Self)
        ensures
            s.wf(),
            forall|c: int| 0 <= c < MAX_CPUS ==> #[trigger] s.current(c) == 0,
            forall|c: int| 0 <= c < MAX_CPUS ==> !#[trigger] s.online(c),
    {
        Cpus { cpus: [PerCpu { current: 0, online: false };4] }
    }

    /// Scheduler slot that `cpu` is running.
    pub fn current_idx(&self, cpu: usize) -> (idx: usize)
        requires
            cpu < MAX_CPUS,
        ensures
            idx == self.current(cpu as int),
    {
        self.cpus[cpu].current
    }

    /// Record the slot that `cpu` runs from now on.
    pub fn set_current(&mut self, cpu: usize, idx: usize)
        requires
            cpu < MAX_CPUS,
        ensures
            forall|c: int|
                0 <= c < MAX_CPUS ==> #[trigger] final(self).current(c) == if c == cpu {
                    idx as int
                } else {
                    old(self).current(c)
                },
            forall|c: int|
                0 <= c < MAX_CPUS ==> #[trigger] final(self).online(c) == old(self).online(c),
    {
        let online: bool = self.cpus[cpu].online;
        self.cpus[cpu] = PerCpu { current: idx, online };
    }

    /// Record that `cpu` has been brought up.
    pub fn set_online(&mut self, cpu: usize)
        requires
            cpu < MAX_CPUS,
        ensures
            forall|c: int|
                0 <= c < MAX_CPUS ==> #[trigger] final(self).online(c) == (c == cpu || old(
                    self).online(c)),
            forall|c: int|
                0 <= c < MAX_CPUS ==> #[trigger] final(self).current(c) == old(self).current(c),
    {
        let current: usize = self.cpus[cpu].current;
        self.cpus[cpu] = PerCpu { current, online: true };
    }

    /// True if `cpu` has been brought up.
    pub fn is_online(&self, cpu: usize) -> (r: bool)
        requires
            cpu < MAX_CPUS,
        ensures
            r == self.online(cpu as int),
    {
        self.cpus[cpu].online
    }

    /// State of `cpu`.
    pub fn current_cpu(&self, cpu: usize) -> (p: PerCpu)
        requires
            cpu < MAX_CPUS,
        ensures
            p.current == self.current(cpu as int),
            p.online == self.online(cpu as int),
    {
        self.cpus[cpu]
    }
}

/// Index of the CPU with the given MPIDR value (Aff0).
pub fn cpu_index(mpidr: u64) -> (cpu: usize)
    ensures
        cpu == mpidr % 256,
{
    proof {
        crate::bits::lemma_low_bits(mpidr);
    }
    (mpidr & 0xFF) as usize
}

/// Slot that serves as the idle fallback of `cpu`: the boot context for CPU 0,
/// a slot of its own for each other.
pub open spec fn idle_slot_of(cpu: int) -> int {
    if cpu == 0 {
        0
    } else {
        IDLE_SLOT_BASE + cpu - 1
    }
}

/// Slot that serves as the idle fallback of `cpu`.
pub fn idle_slot(cpu: usize) -> (slot: usize)
    requires
        cpu < MAX_CPUS,
    ensures
        slot == idle_slot_of(cpu as int),
{
    if cpu == 0 {
        0
    } else {
        IDLE_SLOT_BASE + cpu - 1
    }
}

/// MPIDR value that addresses `cpu`.
pub fn mpidr_for(cpu: usize) -> (m: u64)
    ensures
        m == cpu,
{
    cpu as u64
}

/// A CPU is found again by the MPIDR value that addresses it.
pub proof fn law_mpidr_round_trip(cpu: usize)
    requires
        cpu < MAX_CPUS,
    ensures
        (cpu as u64) % 256 == cpu,
{
}

/// Slot `i` is not the idle slot of a secondary.
pub open spec fn other_slot(i: int) -> bool {
    i < IDLE_SLOT_BASE || i >= IDLE_SLOT_BASE + MAX_CPUS - 1
}

/// Bring up the secondary CPUs: CPU 0 is online, every secondary has its idle task before it
/// can run, and each is then released by a call of the firmware, with which it starts at
/// `entry`.  Returns the arguments of those calls, in the order of the CPUs.
pub fn bring_up(q: &mut RunQueue, entry: u64) -> (calls: Vec<[u64; 4]>)
    requires
        old(q).wf(),
        forall|c: int|
            1 <= c < MAX_CPUS ==> old(q).sched.slots()[#[trigger] idle_slot_of(c)] is None,
    ensures
        final(q).wf(),
        calls@.len() == MAX_CPUS - 1,
        forall|i: int|
            0 <= i < MAX_CPUS - 1 ==> (#[trigger] calls@[i])@ == seq![
                FN64_CPU_ON,
                (i + 1) as u64,
                entry,
                0,
            ],
        final(q).sched.next() == old(q).sched.next(),
        final(q).sched.woken_slot() == old(q).sched.woken_slot(),
        forall|c: int|
            1 <= c < MAX_CPUS ==> (final(q).sched.slots()[#[trigger] idle_slot_of(c)] matches Some(t)
                && is_idle_task(t, c)),
        forall|i: int|
            0 <= i < MAX_TASKS && other_slot(i) ==> #[trigger] final(q).sched.slots()[i] == old(
                q,
            ).sched.slots()[i],
        forall|c: int|
            0 <= c < MAX_CPUS ==> #[trigger] final(q).cpus.online(c) == (c == 0 || old(
                q,
            ).cpus.online(c)),
        forall|c: int|
            0 <= c < MAX_CPUS ==> #[trigger] final(q).cpus.current(c) == old(q).cpus.current(c),
{
    q.cpus.set_online(0);
    let mut calls: Vec<[u64; 4]> = Vec::new();
    let mut cpu: usize = 1;
    while cpu < MAX_CPUS
        invariant
            1 <= cpu <= MAX_CPUS,
            q.wf(),
            calls@.len() == cpu - 1,
            forall|i: int|
                0 <= i < cpu - 1 ==> (#[trigger] calls@[i])@ == seq![
                    FN64_CPU_ON,
                    (i + 1) as u64,
                    entry,
                    0,
                ],
            q.sched.next() == old(q).sched.next(),
            q.sched.woken_slot() == old(q).sched.woken_slot(),
            forall|c: int|
                1 <= c < cpu ==> (q.sched.slots()[#[trigger] idle_slot_of(c)] matches Some(t)
                    && is_idle_task(t, c)),
            forall|c: int|
                cpu <= c < MAX_CPUS ==> q.sched.slots()[#[trigger] idle_slot_of(c)] is None,
            forall|i: int|
                0 <= i < MAX_TASKS && other_slot(i) ==> #[trigger] q.sched.slots()[i] == old(
                    q,
                ).sched.slots()[i],
            forall|c: int|
                0 <= c < MAX_CPUS ==> #[trigger] q.cpus.online(c) == (c == 0 || old(
                    q,
                ).cpus.online(c)),
            forall|c: int|
                0 <= c < MAX_CPUS ==> #[trigger] q.cpus.current(c) == old(q).cpus.current(c),
        decreases MAX_CPUS - cpu,
    {
        proof {
            q.sched.lemma_len();
        }
        q.sched.add_idle(cpu);
        calls.push(cpu_on(mpidr_for(cpu), entry, 0));
        cpu = cpu + 1;
    }
    calls
}

/// A CPU is online once the call that releases it succeeded, with `x0` what the call returned.
pub fn released(cpus: &mut Cpus, cpu: usize, x0: u64) -> (status: i32)
    requires
        cpu < MAX_CPUS,
    ensures
        status == x0 as i32,
        (status == 0) == (x0 % 0x1_0000_0000 == 0),
        forall|c: int|
            0 <= c < MAX_CPUS ==> #[trigger] final(cpus).online(c) == (old(cpus).online(c) || (c
                == cpu && status == 0)),
        forall|c: int|
            0 <= c < MAX_CPUS ==> #[trigger] final(cpus).current(c) == old(cpus).current(c),
{
    let status: i32 = cpu_on_status(x0);
    if status == 0 {
        cpus.set_online(cpu);
    }
    status
}

/// CPU 0 falls back on slot 0, the others on slots 16 to 18, which are nobody else's.
pub proof fn law_fallback_slots(cpu: int, i: int)
    requires
        0 <= cpu < 4,
        0 <= i < 32,
    ensures
        cpu == 0 ==> idle_slot_of(cpu) == 0,
        cpu > 0 ==> idle_slot_of(cpu) == 15 + cpu && !other_slot(15 + cpu),
        i < 16 || i > 18 ==> other_slot(i),
        MAX_CPUS == 4,
{
}

} // verus!
