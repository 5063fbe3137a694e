//! Task control block and task table.
//!
//! Each task has a saved register context, a state, a priority (0 is highest,
//! 255 lowest), an identity, IPC state, an IRQ-wait state and a sleep deadline.
//! The run queue is the task table, scanned for the highest-priority Ready
//! task with round-robin rotation among equal priorities.

use vstd::prelude::*;
use crate::sched::{
    BootInfo, PendingSend, StagedSend, TaskId, TaskState, M_ANY, PRIO_IDLE, PRIO_NORMAL,
};
use crate::smp::{idle_slot, idle_slot_of, MAX_CPUS};
use crate::text::{name_field, name_text, name_to_str, padded, str_eq};
use vstd::utf8::encode_utf8;

verus! {

/// SPSR_EL1 of kernel contexts: EL1h, all exceptions masked.
pub const SPSR_KERNEL: u64 = 0x3C5;

/// SPSR_EL1 of EL0 tasks: EL0t with IRQs unmasked.
pub const SPSR_USER: u64 = 0x0;

/// Saved register context.
#[derive(Debug, Clone, Copy)]
pub struct Context {
    /// x19 to x28, the callee-saved registers.
    pub x19_to_x28: [u64; 10],
    /// Frame pointer (x29).
    pub fp: u64,
    /// Link register (x30): the resume PC.
    pub lr: u64,
    /// Kernel stack pointer (SP_EL1).
    pub sp: u64,
    /// User stack pointer (SP_EL0).
    pub sp_el0: u64,
    /// SPSR_EL1 to restore.
    pub spsr: u64,
    /// TTBR0_EL1: the root table.
    pub ttbr0: u64,
}

/// The callee-saved registers with x19 set and the others zero.
pub open spec fn only_x19(v: u64) -> Seq<u64> {
    Seq::new(
        10,
        |i: int|
            if i == 0 {
                v
            } else {
                0u64
            },
    )
}

/// Every register of `c` is zero.
pub open spec fn is_zero_context(c: Context) -> bool {
    &&& c.x19_to_x28@ == only_x19(0)
    &&& c.fp == 0
    &&& c.lr == 0
    &&& c.sp == 0
    &&& c.sp_el0 == 0
    &&& c.spsr == 0
    &&& c.ttbr0 == 0
}

/// `c` starts `entry` at EL1h on the stack `stack_top` in the address space `root`,
/// with `x19` in x19.
pub open spec fn is_kernel_context(
    c: Context,
    entry: u64,
    stack_top: u64,
    root: u64,
    x19: u64,
) -> bool {
    &&& c.x19_to_x28@ == only_x19(x19)
    &&& c.fp == 0
    &&& c.lr == entry
    &&& c.sp == stack_top
    &&& c.sp_el0 == 0
    &&& c.spsr == SPSR_KERNEL
    &&& c.ttbr0 == root
}

/// `c` starts `entry` at EL0t on the user stack `sp_el0` in the address space `root`,
/// with the kernel stack `stack_top` and `x19` in x19.
pub open spec fn is_user_context(
    c: Context,
    entry: u64,
    sp_el0: u64,
    root: u64,
    stack_top: u64,
    x19: u64,
) -> bool {
    &&& c.x19_to_x28@ == only_x19(x19)
    &&& c.fp == 0
    &&& c.lr == entry
    &&& c.sp == stack_top
    &&& c.sp_el0 == sp_el0
    &&& c.spsr == SPSR_USER
    &&& c.ttbr0 == root
}

impl Context {
    /// All registers zero.
    pub fn zeroed() -> (c: Self)
        ensures
            is_zero_context(c),
    {
        let c = Self {
            x19_to_x28: [0u64;10],
            fp: 0,
            lr: 0,
            sp: 0,
            sp_el0: 0,
            spsr: 0,
            ttbr0: 0,
        };
        assert(c.x19_to_x28@ =~= only_x19(0));
        c
    }

    /// A context that starts `entry_fn` at EL1h on the stack `stack_top` in the
    /// kernel's address space, whose root is `kernel_l0`.
    pub fn new(entry_fn: u64, stack_top: u64, kernel_l0: u64) -> (c: Self)
        ensures
            is_kernel_context(c, entry_fn, stack_top, kernel_l0, 0),
    {
        let mut c = Self::zeroed();
        c.lr = entry_fn;
        c.sp = stack_top;
        c.spsr = SPSR_KERNEL;
        c.ttbr0 = kernel_l0;
        c
    }

    /// Like `new`, with x19 holding the address of the boot info.
    pub fn with_boot(entry_fn: u64, stack_top: u64, kernel_l0: u64, boot_info: u64) -> (c: Self)
        ensures
            is_kernel_context(c, entry_fn, stack_top, kernel_l0, boot_info),
    {
        let mut c = Self::new(entry_fn, stack_top, kernel_l0);
        c.x19_to_x28[0] = boot_info;
        assert(c.x19_to_x28@ =~= only_x19(boot_info));
        c
    }

    /// An EL0 context: enters `entry_fn` at EL0t on the user stack `sp_el0` in
    /// the address space `ttbr0`, with the kernel stack `kernel_stack_top` and
    /// the address of the boot info in x19.
    pub fn new_user(
        entry_fn: u64,
        sp_el0: u64,
        ttbr0: u64,
        kernel_stack_top: u64,
        boot_info: u64,
    ) -> (c: Self)
        ensures
            is_user_context(c, entry_fn, sp_el0, ttbr0, kernel_stack_top, boot_info),
    {
        let mut c = Self::zeroed();
        c.lr = entry_fn;
        c.sp = kernel_stack_top;
        c.sp_el0 = sp_el0;
        c.spsr = SPSR_USER;
        c.ttbr0 = ttbr0;
        c.x19_to_x28[0] = boot_info;
        assert(c.x19_to_x28@ =~= only_x19(boot_info));
        c
    }
}

/// Maximum name length.
pub const TASK_NAME_LEN: usize = 16;

/// Maximum number of senders queued on one task.
pub const MAX_PENDING_SENDERS: usize = 2;

/// Maximum number of regions per task that faults are resolved in.
pub const MAX_REGIONS: usize = 4;

/// A window of a task's address space that page faults fill.
#[derive(Debug, Clone, Copy)]
pub struct Region {
    pub kind: RegionKind,
    /// First byte of the window.
    pub base: u64,
    /// Size in pages.
    pub pages: u64,
}

/// How a fault in a region is resolved.
#[derive(Debug, Clone, Copy, PartialEq, Eq, Structural)]
pub enum RegionKind {
    /// A stack that grows page by page.
    Stack,
    /// Memory that reads as zero until it is written.
    Demand,
}

/// Task control block.
#[derive(Debug, Clone, Copy)]
pub struct Task {
    pub id: TaskId,
    pub state: TaskState,
    pub ctx: Context,
    pub name: [u8; TASK_NAME_LEN],
    /// Root of the task's own tables (0 is the kernel's).
    pub ttbr0: u64,
    /// Scheduling priority, 0 highest.
    pub priority: u8,
    /// The only CPU that may run the task, or any.
    pub cpu_affinity: Option<usize>,
    /// Blocked in `receive`.
    pub recv_blocked: bool,
    /// Sender filter of the pending `receive`.
    pub recv_filter: i32,
    /// Buffer of the pending `receive`, in the task's address space.
    pub recv_buf: u64,
    /// Senders whose message waits for the task.
    pub pending_senders: [Option<PendingSend>; MAX_PENDING_SENDERS],
    /// Message held back because the receiver's queue was full.
    pub send_full_wait: Option<StagedSend>,
    /// Boot info handed to the task.
    pub boot: BootInfo,
    /// IRQ the task waits for.
    pub irq_wait: Option<u32>,
    /// Tick deadline of `sleep`; 0 is not sleeping.
    pub sleep_deadline: u64,
    /// Windows that page faults fill.
    pub regions: [Option<Region>; MAX_REGIONS],
}

/// A task that has just been made: no IPC, IRQ, sleep or region state.
pub open spec fn fresh(t: Task) -> bool {
    &&& !t.recv_blocked
    &&& t.recv_filter == M_ANY
    &&& t.recv_buf == 0
    &&& t.pending_senders@ == seq![None::<PendingSend>, None::<PendingSend>]
    &&& t.send_full_wait is None
    &&& t.irq_wait is None
    &&& t.sleep_deadline == 0
    &&& forall|i: int| 0 <= i < MAX_REGIONS ==> #[trigger] t.regions@[i] is None
}

/// "idle", NUL-padded.
pub open spec fn idle_name() -> Seq<u8> {
    seq![0x69u8, 0x64, 0x6C, 0x65, 0, 0, 0, 0, 0, 0, 0, 0, 0, 0, 0, 0]
}

/// `t` is the boot context of CPU 0.
pub open spec fn is_boot_task(t: Task) -> bool {
    &&& t.id == TaskId(0)
    &&& t.state == TaskState::Running
    &&& t.name@ == idle_name()
    &&& t.ttbr0 == 0
    &&& t.priority == PRIO_IDLE
    &&& t.cpu_affinity == Some(0usize)
    &&& is_zero_context(t.ctx)
    &&& t.boot.task_id == 0
    &&& t.boot.machine == 0
    &&& fresh(t)
}

impl Task {
    /// The boot context of CPU 0.
    pub fn idle() -> (t: Self)
        ensures
            is_boot_task(t),
    {
        let t = Self {
            id: TaskId(0),
            state: TaskState::Running,
            ctx: Context::zeroed(),
            name: [0x69, 0x64, 0x6C, 0x65, 0, 0, 0, 0, 0, 0, 0, 0, 0, 0, 0, 0],
            ttbr0: 0,
            priority: PRIO_IDLE,
            cpu_affinity: Some(0),
            recv_blocked: false,
            recv_filter: M_ANY,
            recv_buf: 0,
            pending_senders: [None, None],
            send_full_wait: None,
            boot: BootInfo { task_id: 0, machine: 0 },
            irq_wait: None,
            sleep_deadline: 0,
            regions: [None, None, None, None],
        };
        assert(t.name@ =~= idle_name());
        assert(t.pending_senders@ =~= seq![None::<PendingSend>, None::<PendingSend>]);
        t
    }

    /// A Ready kernel-side task of normal priority.
    pub fn new(id: TaskId, name: &str, entry: u64, stack_top: u64, kernel_l0: u64) -> (t: Self)
        ensures
            t.id == id,
            t.state == TaskState::Ready,
            t.name@ == padded(encode_utf8(name@), 16, 16),
            t.ttbr0 == 0,
            t.priority == PRIO_NORMAL,
            t.cpu_affinity is None,
            is_kernel_context(t.ctx, entry, stack_top, kernel_l0, 0),
            t.boot.task_id == 0,
            t.boot.machine == 0,
            fresh(t),
    {
        let t = Self {
            id,
            state: TaskState::Ready,
            ctx: Context::new(entry, stack_top, kernel_l0),
            name: name_field(name, TASK_NAME_LEN),
            ttbr0: 0,
            priority: PRIO_NORMAL,
            cpu_affinity: None,
            recv_blocked: false,
            recv_filter: M_ANY,
            recv_buf: 0,
            pending_senders: [None, None],
            send_full_wait: None,
            boot: BootInfo { task_id: 0, machine: 0 },
            irq_wait: None,
            sleep_deadline: 0,
            regions: [None, None, None, None],
        };
        assert(t.pending_senders@ =~= seq![None::<PendingSend>, None::<PendingSend>]);
        t
    }

    /// The task's name.
    pub fn name_str(&self) -> (s: &str)
        ensures
            s@ == name_text(self.name@),
    {
        name_to_str(self.name.as_slice())
    }
}

/// Maximum number of tasks, idle slots included.
pub const MAX_TASKS: usize = 32;

/// First slot reserved for the idle tasks of secondary CPUs.
pub const IDLE_SLOT_BASE: usize = 16;

/// The idle task of CPU n has the id n above this one; the ids below are given out in turn.
pub const IDLE_ID: u32 = 0x4000_0000;

/// Slots of the task table.
pub type Slots = Seq<Option<Task>>;

/// The task in slot `i` has the id `id`.
pub open spec fn has_id(s: Slots, i: int, id: TaskId) -> bool {
    0 <= i < s.len() && s[i] is Some && s[i]->0.id == id
}

/// Slot `i` is the first that holds a task with the id `id`.
pub open spec fn first_id(s: Slots, i: int, id: TaskId) -> bool {
    has_id(s, i, id) && forall|k: int| 0 <= k < i ==> !#[trigger] has_id(s, k, id)
}

/// Some task has the id `id`.
pub open spec fn exists_id(s: Slots, id: TaskId) -> bool {
    exists|i: int| #[trigger] has_id(s, i, id)
}

/// Slot `i` is kept for the boot context or for the idle task of a CPU.
pub open spec fn reserved(i: int) -> bool {
    i == 0 || IDLE_SLOT_BASE <= i < IDLE_SLOT_BASE + MAX_CPUS - 1
}

/// Slot `i` is the first free one that is not reserved.
pub open spec fn first_free(s: Slots, i: int) -> bool {
    &&& 1 <= i < s.len()
    &&& !reserved(i)
    &&& s[i] is None
    &&& forall|k: int| 1 <= k < i ==> (#[trigger] s[k] is Some || reserved(k))
}

/// Every slot that is not reserved is taken.
pub open spec fn full(s: Slots) -> bool {
    forall|k: int| 1 <= k < s.len() ==> (#[trigger] s[k] is Some || reserved(k))
}

/// The table with the state of the task in slot `i` set.
pub open spec fn with_state(s: Slots, i: int, state: TaskState) -> Slots {
    match s[i] {
        Some(t) => s.update(i, Some(Task { state, ..t })),
        None => s,
    }
}

/// Priority of the task in slot `i`; lowest for an empty slot.
pub open spec fn prio_of(s: Slots, i: int) -> u8 {
    match s[i] {
        Some(t) => t.priority,
        None => 255,
    }
}

/// The task in slot `i` is in state `state`.
pub open spec fn in_state(s: Slots, i: int, state: TaskState) -> bool {
    s[i] is Some && s[i]->0.state == state
}

/// Slot `i` holds a Ready task that `cpu` may run, its own idle task aside.
pub open spec fn candidate(s: Slots, cpu: int, i: int) -> bool {
    &&& 1 <= i < s.len()
    &&& i != idle_slot_of(cpu)
    &&& in_state(s, i, TaskState::Ready)
    &&& s[i]->0.cpu_affinity matches Some(a) ==> a == cpu
}

/// Forward distance from slot `cur` to slot `i`, 0 for the slot behind it.
pub open spec fn forward(cur: int, i: int) -> int {
    (i + 32 - cur - 1) % 32
}

/// Candidate `i` is preferred to `j`: higher priority, then nearer ahead.
pub open spec fn preferred(s: Slots, cur: int, i: int, j: int) -> bool {
    prio_of(s, i) < prio_of(s, j) || (prio_of(s, i) == prio_of(s, j) && forward(cur, i) < forward(
        cur,
        j,
    ))
}

/// Slot `r` is the best candidate.
pub open spec fn is_best(s: Slots, cpu: int, cur: int, r: int) -> bool {
    candidate(s, cpu, r) && forall|j: int|
        #[trigger] candidate(s, cpu, j) && j != r ==> preferred(s, cur, r, j)
}

/// The slot that `cpu` runs next when it leaves slot `cur`: the best candidate,
/// or the CPU's idle slot.
pub open spec fn pick(s: Slots, cpu: int, cur: int) -> int {
    if exists|r: int| #[trigger] is_best(s, cpu, cur, r) {
        choose|r: int| #[trigger] is_best(s, cpu, cur, r)
    } else {
        idle_slot_of(cpu)
    }
}

/// Slot `r` is the candidate nearest ahead of `cur`, `exclude` aside.
pub open spec fn is_next(s: Slots, cpu: int, cur: int, exclude: int, r: int) -> bool {
    &&& candidate(s, cpu, r)
    &&& r != exclude
    &&& forall|j: int|
        #[trigger] candidate(s, cpu, j) && j != exclude && j != r ==> forward(cur, r) < forward(
            cur,
            j,
        )
}

/// The slot that `cpu` runs next in round-robin order.
pub open spec fn pick_rr(s: Slots, cpu: int, cur: int, exclude: int) -> int {
    if exists|r: int| #[trigger] is_next(s, cpu, cur, exclude, r) {
        choose|r: int| #[trigger] is_next(s, cpu, cur, exclude, r)
    } else {
        idle_slot_of(cpu)
    }
}

/// There is one best candidate at most.
pub proof fn lemma_pick(s: Slots, cpu: int, cur: int, r: int)
    requires
        is_best(s, cpu, cur, r),
    ensures
        pick(s, cpu, cur) == r,
{
    let q = pick(s, cpu, cur);
    assert(is_best(s, cpu, cur, q));
    if q != r {
        assert(preferred(s, cur, q, r));
        assert(preferred(s, cur, r, q));
    }
}

pub proof fn lemma_pick_rr(s: Slots, cpu: int, cur: int, exclude: int, r: int)
    requires
        is_next(s, cpu, cur, exclude, r),
    ensures
        pick_rr(s, cpu, cur, exclude) == r,
{
    let q = pick_rr(s, cpu, cur, exclude);
    assert(is_next(s, cpu, cur, exclude, q));
    if q != r {
        assert(forward(cur, q) < forward(cur, r));
        assert(forward(cur, r) < forward(cur, q));
    }
}

/// Task table.
pub struct Scheduler {
    tasks: [Option<Task>; MAX_TASKS],
    next_id: u32,
    woken: Option<usize>,
}

impl Scheduler {
    /// The slots.
    pub closed spec fn slots(self) -> Slots {
        self.tasks@
    }

    /// Id of the next task to be spawned.
    pub closed spec fn next(self) -> int {
        self.next_id as int
    }

    /// Slot of the task that the current system call has woken last.
    pub closed spec fn woken_slot(self) -> Option<usize> {
        self.woken
    }

    /// A table has 32 slots.
    pub proof fn lemma_len(&self)
        ensures
            self.slots().len() == 32,
    {
    }

    /// A table with the boot context in slot 0.
    pub fn new() -> (s: Self)
        ensures
            s.slots().len() == 32,
            s.slots()[0] is Some,
            is_boot_task(s.slots()[0]->0),
            forall|i: int| 1 <= i < 32 ==> #[trigger] s.slots()[i] is None,
            s.next() == 1,
            s.woken_slot() is None,
    {
        let mut tasks: [Option<Task>; MAX_TASKS] = [None;32];
        tasks[0] = Some(Task::idle());
        Self { tasks, next_id: 1, woken: None }
    }

    /// Record that the current system call has woken the task in `slot`.
    pub fn set_woken(&mut self, slot: usize)
        ensures
            final(self).slots() == old(self).slots(),
            final(self).next() == old(self).next(),
            final(self).woken_slot() == Some(slot),
    {
        self.woken = Some(slot);
    }

    /// Take the record of the woken task.
    pub fn take_woken(&mut self) -> (r: Option<usize>)
        ensures
            r == old(self).woken_slot(),
            final(self).slots() == old(self).slots(),
            final(self).next() == old(self).next(),
            final(self).woken_slot() is None,
    {
        let r = self.woken;
        self.woken = None;
        r
    }

    /// True if another task id can be given out.
    pub fn has_id_left(&self) -> (r: bool)
        ensures
            r == (self.next() < IDLE_ID),
    {
        self.next_id < IDLE_ID
    }

    /// First free slot that is not reserved.
    fn free_slot(&self) -> (r: Option<usize>)
        ensures
            match r {
                Some(i) => first_free(self.slots(), i as int),
                None => full(self.slots()),
            },
    {
        let mut i: usize = 1;
        while i < MAX_TASKS
            invariant
                1 <= i <= MAX_TASKS,
                forall|k: int| 1 <= k < i ==> (#[trigger] self.slots()[k] is Some || reserved(k)),
            decreases MAX_TASKS - i,
        {
            let idle: bool = IDLE_SLOT_BASE <= i && i < IDLE_SLOT_BASE + MAX_CPUS - 1;
            if !idle && self.tasks[i].is_none() {
                return Some(i);
            }
            i = i + 1;
        }
        None
    }

    /// Task in slot `idx`.
    pub fn task_at(&self, idx: usize) -> (r: Option<&Task>)
        requires
            idx < MAX_TASKS,
        ensures
            match r {
                Some(t) => self.slots()[idx as int] == Some(*t),
                None => self.slots()[idx as int] is None,
            },
    {
        self.tasks[idx].as_ref()
    }

    /// Task in slot `idx`, to be changed.
    pub fn task_at_mut(&mut self, idx: usize) -> (r: Option<&mut Task>)
        requires
            idx < MAX_TASKS,
        ensures
            final(self).next() == old(self).next(),
            final(self).woken_slot() == old(self).woken_slot(),
            match r {
                Some(t) => old(self).slots()[idx as int] == Some(*t) && final(self).slots() == old(
                    self).slots().update(idx as int, Some(*final(t))),
                None => old(self).slots()[idx as int] is None && final(self).slots() == old(
                    self).slots(),
            },
    {
        match &mut self.tasks[idx] {
            Some(t) => Some(t),
            None => None,
        }
    }

    /// Put a task into slot `idx`.
    fn put(&mut self, idx: usize, t: Task)
        requires
            idx < MAX_TASKS,
        ensures
            final(self).slots() == old(self).slots().update(idx as int, Some(t)),
            final(self).next() == old(self).next(),
            final(self).woken_slot() == old(self).woken_slot(),
    {
        self.tasks[idx] = Some(t);
    }

    /// Spawn a kernel-side task.  Returns its id, or `None` if the table is full.
    pub fn spawn(&mut self, name: &str, entry: u64, stack_top: u64, kernel_l0: u64) -> (r: Option<
        TaskId,
    >)
        requires
            old(self).next() < u32::MAX,
        ensures
            final(self).woken_slot() == old(self).woken_slot(),
            spawned(*old(self), *final(self), name@, r),
            forall|i: int|
                r is Some && first_free(old(self).slots(), i) ==> {
                    let t = (#[trigger] final(self).slots()[i])->0;
                    &&& t.ttbr0 == 0
                    &&& is_kernel_context(t.ctx, entry, stack_top, kernel_l0, 0)
                    &&& t.boot.task_id == 0
                    &&& t.boot.machine == 0
                },
    {
        match self.free_slot() {
            Some(slot) => {
                let id = TaskId(self.next_id);
                self.next_id = self.next_id + 1;
                self.put(slot, Task::new(id, name, entry, stack_top, kernel_l0));
                Some(id)
            },
            None => None,
        }
    }

    /// Spawn a kernel-side task whose x19 holds `boot_info`, the address of its
    /// boot info.
    pub fn spawn_with_boot(
        &mut self,
        name: &str,
        entry: u64,
        stack_top: u64,
        kernel_l0: u64,
        boot: BootInfo,
        boot_info: u64,
    ) -> (r: Option<TaskId>)
        requires
            old(self).next() < u32::MAX,
        ensures
            final(self).woken_slot() == old(self).woken_slot(),
            spawned(*old(self), *final(self), name@, r),
            forall|i: int|
                r is Some && first_free(old(self).slots(), i) ==> {
                    let t = (#[trigger] final(self).slots()[i])->0;
                    &&& t.ttbr0 == 0
                    &&& is_kernel_context(t.ctx, entry, stack_top, kernel_l0, boot_info)
                    &&& t.boot.task_id == old(self).next()
                    &&& t.boot.machine == boot.machine
                },
    {
        match self.free_slot() {
            Some(slot) => {
                let id = TaskId(self.next_id);
                let task_id: u32 = self.next_id;
                self.next_id = self.next_id + 1;
                let mut t = Task::new(id, name, entry, stack_top, kernel_l0);
                t.boot = BootInfo { task_id, machine: boot.machine };
                t.ctx = Context::with_boot(entry, stack_top, kernel_l0, boot_info);
                self.put(slot, t);
                Some(id)
            },
            None => None,
        }
    }

    /// Spawn an EL0 task with its own address space `ttbr0`, and record it as
    /// woken.
    ///
    /// The caller copies the task's boot info to `boot_info`, an address in the
    /// task's region.
    pub fn spawn_user(
        &mut self,
        name: &str,
        entry: u64,
        ttbr0: u64,
        sp_el0: u64,
        kernel_stack_top: u64,
        boot_info: u64,
        boot: BootInfo,
    ) -> (r: Option<TaskId>)
        requires
            old(self).next() < u32::MAX,
        ensures
            spawned(*old(self), *final(self), name@, r),
            r is None ==> final(self).woken_slot() == old(self).woken_slot(),
            r is Some ==> (final(self).woken_slot() matches Some(w) && first_free(
                old(self).slots(),
                w as int,
            )),
            forall|i: int|
                r is Some && first_free(old(self).slots(), i) ==> {
                    let t = (#[trigger] final(self).slots()[i])->0;
                    &&& t.ttbr0 == ttbr0
                    &&& is_user_context(
                        t.ctx,
                        entry,
                        sp_el0,
                        ttbr0,
                        kernel_stack_top,
                        boot_info,
                    )
                    &&& t.boot.task_id == old(self).next()
                    &&& t.boot.machine == boot.machine
                },
    {
        match self.free_slot() {
            Some(slot) => {
                let id = TaskId(self.next_id);
                let task_id: u32 = self.next_id;
                self.next_id = self.next_id + 1;
                let mut t = Task::new(id, name, 0, 0, 0);
                t.boot = BootInfo { task_id, machine: boot.machine };
                t.ttbr0 = ttbr0;
                t.ctx = Context::new_user(entry, sp_el0, ttbr0, kernel_stack_top, boot_info);
                self.put(slot, t);
                self.woken = Some(slot);
                Some(id)
            },
            None => None,
        }
    }

    /// Slot of the task with the given id.
    pub fn task_idx(&self, id: TaskId) -> (r: Option<usize>)
        ensures
            match r {
                Some(i) => i < MAX_TASKS && first_id(self.slots(), i as int, id),
                None => !exists_id(self.slots(), id),
            },
    {
        let mut i: usize = 0;
        while i < MAX_TASKS
            invariant
                i <= MAX_TASKS,
                forall|k: int| 0 <= k < i ==> !#[trigger] has_id(self.slots(), k, id),
            decreases MAX_TASKS - i,
        {
            if let Some(t) = self.task_at(i) {
                if t.id == id {
                    assert(has_id(self.slots(), i as int, id));
                    return Some(i);
                }
            }
            i = i + 1;
        }
        None
    }

    /// Task with the given id.
    pub fn task_by_id(&self, id: TaskId) -> (r: Option<&Task>)
        ensures
            match r {
                Some(t) => exists|i: int| #[trigger]
                    first_id(self.slots(), i, id) && self.slots()[i] == Some(*t),
                None => !exists_id(self.slots(), id),
            },
    {
        match self.task_idx(id) {
            Some(i) => {
                assert(first_id(self.slots(), i as int, id));
                self.task_at(i)
            },
            None => None,
        }
    }

    /// Task with the given id, to be changed.
    pub fn task_by_id_mut(&mut self, id: TaskId) -> (r: Option<&mut Task>)
        ensures
            final(self).next() == old(self).next(),
            final(self).woken_slot() == old(self).woken_slot(),
            match r {
                Some(t) => exists|i: int| #[trigger]
                    first_id(old(self).slots(), i, id) && old(self).slots()[i] == Some(*t) && final(
                        self).slots() == old(self).slots().update(i, Some(*final(t))),
                None => !exists_id(old(self).slots(), id) && final(self).slots() == old(
                    self).slots(),
            },
    {
        match self.task_idx(id) {
            Some(i) => {
                assert(first_id(self.slots(), i as int, id));
                self.task_at_mut(i)
            },
            None => None,
        }
    }

    /// All slots.
    pub fn task_slots(&self) -> (r: &[Option<Task>])
        ensures
            r@ == self.slots(),
    {
        self.tasks.as_slice()
    }

    /// Name of the task in slot `cur`, the one the CPU runs.
    pub fn current_name(&self, cur: usize) -> (s: &str)
        requires
            cur < MAX_TASKS,
        ensures
            s@ == match self.slots()[cur as int] {
                Some(t) => name_text(t.name@),
                None => "?"@,
            },
    {
        match self.task_at(cur) {
            Some(t) => t.name_str(),
            None => "?",
        }
    }

    /// Id of the task in slot `cur`, the one the CPU runs; 0 for an empty slot.
    pub fn current_id(&self, cur: usize) -> (id: TaskId)
        requires
            cur < MAX_TASKS,
        ensures
            id == match self.slots()[cur as int] {
                Some(t) => t.id,
                None => TaskId(0),
            },
    {
        match self.task_at(cur) {
            Some(t) => t.id,
            None => TaskId(0),
        }
    }

    /// Root table of the task in slot `cur`; 0 for an empty slot.
    pub fn current_ttbr0(&self, cur: usize) -> (t: u64)
        requires
            cur < MAX_TASKS,
        ensures
            t == match self.slots()[cur as int] {
                Some(t) => t.ttbr0,
                None => 0,
            },
    {
        match self.task_at(cur) {
            Some(t) => t.ttbr0,
            None => 0,
        }
    }

    /// Put the idle task of the secondary `cpu` into its slot.  Returns the slot.
    pub fn add_idle(&mut self, cpu: usize) -> (idx: usize)
        requires
            1 <= cpu < MAX_CPUS,
            old(self).slots()[idle_slot_of(cpu as int)] is None,
        ensures
            idx == idle_slot_of(cpu as int),
            final(self).next() == old(self).next(),
            final(self).woken_slot() == old(self).woken_slot(),
            final(self).slots()[idx as int] is Some,
            final(self).slots() == old(self).slots().update(
                idx as int,
                final(self).slots()[idx as int],
            ),
            is_idle_task(final(self).slots()[idx as int]->0, cpu as int),
    {
        let idx: usize = idle_slot(cpu);
        let mut t = Task::idle();
        t.id = TaskId(IDLE_ID + cpu as u32);
        t.cpu_affinity = Some(cpu);
        let digit: u8 = 0x30 + cpu as u8;
        t.name = [
            0x69,
            0x64,
            0x6C,
            0x65,
            0x2D,
            0x63,
            0x70,
            0x75,
            digit,
            0,
            0,
            0,
            0,
            0,
            0,
            0,
        ];
        assert(t.name@ =~= idle_cpu_name(cpu as int));
        self.put(idx, t);
        idx
    }

    /// The best Ready task for `cpu`, which leaves slot `cur`: highest priority
    /// first, round-robin among equal priorities; the CPU's idle slot where
    /// nothing is runnable.
    pub fn pick_next(&self, cpu: usize, cur: usize) -> (r: usize)
        requires
            cpu < MAX_CPUS,
            cur < MAX_TASKS,
        ensures
            r == pick(self.slots(), cpu as int, cur as int),
            r < MAX_TASKS,
            is_best(self.slots(), cpu as int, cur as int, r as int) || (r == idle_slot_of(
                cpu as int,
            ) && forall|i: int| !#[trigger] candidate(self.slots(), cpu as int, i)),
    {
        let ghost s = self.slots();
        let idle: usize = idle_slot(cpu);
        let mut best: Option<usize> = None;
        let mut idx: usize = 1;
        while idx < MAX_TASKS
            invariant
                1 <= idx <= MAX_TASKS,
                cur < MAX_TASKS,
                idle == idle_slot_of(cpu as int),
                s == self.slots(),
                s.len() == 32,
                match best {
                    Some(b) => {
                        &&& b < idx
                        &&& candidate(s, cpu as int, b as int)
                        &&& forall|j: int|
                            #[trigger] candidate(s, cpu as int, j) && j < idx && j != b
                                ==> preferred(s, cur as int, b as int, j)
                    },
                    None => forall|j: int| j < idx ==> !#[trigger] candidate(s, cpu as int, j),
                },
            decreases MAX_TASKS - idx,
        {
            if let Some(t) = self.task_at(idx) {
                let allowed: bool = match t.cpu_affinity {
                    Some(a) => a == cpu,
                    None => true,
                };
                if allowed && idx != idle && t.state == TaskState::Ready {
                    assert(candidate(s, cpu as int, idx as int));
                    let ahead: usize = (idx + MAX_TASKS - cur - 1) % MAX_TASKS;
                    match best {
                        None => {
                            best = Some(idx);
                        },
                        Some(b) => {
                            let b_prio: u8 = match self.task_at(b) {
                                Some(bt) => bt.priority,
                                None => 255,
                            };
                            let b_ahead: usize = (b + MAX_TASKS - cur - 1) % MAX_TASKS;
                            if t.priority < b_prio || (t.priority == b_prio && ahead < b_ahead) {
                                best = Some(idx);
                            }
                        },
                    }
                }
            }
            idx = idx + 1;
        }
        match best {
            Some(b) => {
                proof {
                    assert(is_best(s, cpu as int, cur as int, b as int));
                    lemma_pick(s, cpu as int, cur as int, b as int);
                }
                b
            },
            None => {
                assert forall|i: int| !#[trigger] candidate(s, cpu as int, i) by {}
                assert(!exists|r: int| #[trigger] is_best(s, cpu as int, cur as int, r));
                idle
            },
        }
    }

    /// The Ready task nearest ahead of slot `cur` that `cpu` may run, whatever
    /// its priority, `exclude` aside; the CPU's idle slot where there is none.
    pub fn pick_next_rr(&self, cpu: usize, cur: usize, exclude: usize) -> (r: usize)
        requires
            cpu < MAX_CPUS,
            cur < MAX_TASKS,
        ensures
            r == pick_rr(self.slots(), cpu as int, cur as int, exclude as int),
            r < MAX_TASKS,
            is_next(self.slots(), cpu as int, cur as int, exclude as int, r as int) || (r
                == idle_slot_of(cpu as int) && forall|i: int|
                #[trigger] candidate(self.slots(), cpu as int, i) ==> i == exclude),
    {
        let ghost s = self.slots();
        let idle: usize = idle_slot(cpu);
        let mut best: Option<usize> = None;
        let mut idx: usize = 1;
        while idx < MAX_TASKS
            invariant
                1 <= idx <= MAX_TASKS,
                cur < MAX_TASKS,
                idle == idle_slot_of(cpu as int),
                s == self.slots(),
                s.len() == 32,
                match best {
                    Some(b) => {
                        &&& b < idx
                        &&& b != exclude
                        &&& candidate(s, cpu as int, b as int)
                        &&& forall|j: int|
                            #[trigger] candidate(s, cpu as int, j) && j < idx && j != b && j
                                != exclude ==> forward(cur as int, b as int) < forward(
                                cur as int,
                                j,
                            )
                    },
                    None => forall|j: int|
                        j < idx && #[trigger] candidate(s, cpu as int, j) ==> j == exclude,
                },
            decreases MAX_TASKS - idx,
        {
            if idx != exclude {
                if let Some(t) = self.task_at(idx) {
                    let allowed: bool = match t.cpu_affinity {
                        Some(a) => a == cpu,
                        None => true,
                    };
                    if allowed && idx != idle && t.state == TaskState::Ready {
                        assert(candidate(s, cpu as int, idx as int));
                        let ahead: usize = (idx + MAX_TASKS - cur - 1) % MAX_TASKS;
                        match best {
                            None => {
                                best = Some(idx);
                            },
                            Some(b) => {
                                let b_ahead: usize = (b + MAX_TASKS - cur - 1) % MAX_TASKS;
                                if ahead < b_ahead {
                                    best = Some(idx);
                                }
                            },
                        }
                    }
                }
            }
            idx = idx + 1;
        }
        match best {
            Some(b) => {
                proof {
                    assert(is_next(s, cpu as int, cur as int, exclude as int, b as int));
                    lemma_pick_rr(s, cpu as int, cur as int, exclude as int, b as int);
                }
                b
            },
            None => {
                assert(!exists|r: int| #[trigger]
                    is_next(s, cpu as int, cur as int, exclude as int, r));
                idle
            },
        }
    }

    /// Saved context of the task in slot `idx`.
    pub fn ctx_ptr(&self, idx: usize) -> (r: Option<&Context>)
        requires
            idx < MAX_TASKS,
        ensures
            match r {
                Some(c) => self.slots()[idx as int] is Some && self.slots()[idx as int]->0.ctx == *c,
                None => self.slots()[idx as int] is None,
            },
    {
        match self.task_at(idx) {
            Some(t) => Some(&t.ctx),
            None => None,
        }
    }

    /// Set the state of the task in slot `idx`, if there is one.
    pub fn set_state(&mut self, idx: usize, state: TaskState)
        requires
            idx < MAX_TASKS,
        ensures
            final(self).slots() == with_state(old(self).slots(), idx as int, state),
            final(self).next() == old(self).next(),
            final(self).woken_slot() == old(self).woken_slot(),
    {
        if let Some(t) = self.task_at_mut(idx) {
            t.state = state;
        }
    }

    /// Change the priority of the task with the given id, if there is one.
    pub fn set_priority(&mut self, id: TaskId, priority: u8)
        ensures
            final(self).next() == old(self).next(),
            final(self).woken_slot() == old(self).woken_slot(),
            !exists_id(old(self).slots(), id) ==> final(self).slots() == old(self).slots(),
            exists_id(old(self).slots(), id) ==> exists|i: int| #[trigger]
                first_id(old(self).slots(), i, id) && final(self).slots() == old(
                    self).slots().update(
                    i,
                    Some(Task { priority, ..old(self).slots()[i]->0 }),
                ),
    {
        if let Some(t) = self.task_by_id_mut(id) {
            t.priority = priority;
        }
    }

    /// Priority and name of the task in slot `idx`.
    pub fn priority_and_name(&self, idx: usize) -> (r: Option<(u8, &str)>)
        requires
            idx < MAX_TASKS,
        ensures
            match r {
                Some((p, n)) => self.slots()[idx as int] is Some && p == self.slots()[idx as int]->0.priority
                    && n@ == name_text(self.slots()[idx as int]->0.name@),
                None => self.slots()[idx as int] is None,
            },
    {
        match self.task_at(idx) {
            Some(t) => Some((t.priority, t.name_str())),
            None => None,
        }
    }

    /// Name of the task with the given id.
    pub fn task_name(&self, id: TaskId) -> (r: Option<&str>)
        ensures
            match r {
                Some(n) => exists|i: int| #[trigger]
                    first_id(self.slots(), i, id) && n@ == name_text(self.slots()[i]->0.name@),
                None => !exists_id(self.slots(), id),
            },
    {
        match self.task_by_id(id) {
            Some(t) => Some(t.name_str()),
            None => None,
        }
    }

    /// Slot and id of the first task that is not a zombie and bears `name`.
    pub fn live_by_name(&self, name: &str) -> (r: Option<(usize, TaskId)>)
        ensures
            match r {
                Some((i, id)) => i < MAX_TASKS && first_named(self.slots(), i as int, name@) && id
                    == self.slots()[i as int]->0.id,
                None => forall|k: int| !#[trigger] named(self.slots(), k, name@),
            },
    {
        let mut i: usize = 0;
        while i < MAX_TASKS
            invariant
                i <= MAX_TASKS,
                self.slots().len() == 32,
                forall|k: int| 0 <= k < i ==> !#[trigger] named(self.slots(), k, name@),
            decreases MAX_TASKS - i,
        {
            if let Some(t) = self.task_at(i) {
                if t.state != TaskState::Zombie && str_eq(t.name_str(), name) {
                    assert(named(self.slots(), i as int, name@));
                    return Some((i, t.id));
                }
            }
            i = i + 1;
        }
        None
    }

    /// Give the task with the given id a window that page faults fill.  Returns
    /// `false` if there is no such task or it has no room for one more.
    pub fn push_region_for(&mut self, id: TaskId, kind: RegionKind, base: u64, pages: u64) -> (r:
        bool)
        ensures
            final(self).next() == old(self).next(),
            final(self).woken_slot() == old(self).woken_slot(),
            r <==> exists|i: int| #[trigger]
                first_id(old(self).slots(), i, id) && has_room(old(self).slots()[i]->0.regions@),
            !r ==> final(self).slots() == old(self).slots(),
            r ==> exists|i: int| #[trigger]
                first_id(old(self).slots(), i, id) && final(self).slots()[i] is Some && final(
                    self).slots() == old(self).slots().update(i, final(self).slots()[i])
                    && region_pushed(
                    old(self).slots()[i]->0,
                    final(self).slots()[i]->0,
                    Region { kind, base, pages },
                ),
    {
        let ghost s = self.slots();
        let slot = self.task_idx(id);
        match slot {
            None => {
                assert forall|i: int| !#[trigger] first_id(s, i, id) by {
                    if first_id(s, i, id) {
                        assert(has_id(s, i, id));
                    }
                }
                false
            },
            Some(i) => {
                assert(first_id(s, i as int, id));
                assert forall|j: int| #[trigger] first_id(s, j, id) implies j == i by {
                    if j < i {
                        assert(!has_id(s, j, id));
                    } else if i < j {
                        assert(!has_id(s, i as int, id));
                    }
                }
                let mut t: Task = match self.task_at(i) {
                    Some(t) => *t,
                    None => Task::idle(),
                };
                assert(s[i as int] == Some(t));
                let mut k: usize = 0;
                while k < MAX_REGIONS && t.regions[k].is_some()
                    invariant
                        k <= MAX_REGIONS,
                        forall|m: int| 0 <= m < k ==> #[trigger] t.regions@[m] is Some,
                    decreases MAX_REGIONS - k,
                {
                    k = k + 1;
                }
                if k == MAX_REGIONS {
                    return false;
                }
                let ghost before = t;
                assert(before.regions@[k as int] is None);
                t.regions[k] = Some(Region { kind, base, pages });
                assert(region_pushed(before, t, Region { kind, base, pages })) by {
                    assert(first_room(before.regions@, k as int));
                }
                self.put(i, t);
                true
            },
        }
    }
}

/// A region table has a free entry.
pub open spec fn has_room(r: Seq<Option<Region>>) -> bool {
    exists|k: int| 0 <= k < r.len() && #[trigger] r[k] is None
}

/// Entry `k` is the first free one.
pub open spec fn first_room(r: Seq<Option<Region>>, k: int) -> bool {
    0 <= k < r.len() && r[k] is None && forall|m: int| 0 <= m < k ==> #[trigger] r[m] is Some
}

/// `t` is `before` with `region` in its first free entry.
pub open spec fn region_pushed(before: Task, t: Task, region: Region) -> bool {
    &&& t == (Task { regions: t.regions, ..before })
    &&& exists|k: int| #[trigger]
        first_room(before.regions@, k) && t.regions@ == before.regions@.update(k, Some(region))
}

/// The task that a secondary CPU runs when nothing else is runnable.
pub open spec fn is_idle_task(t: Task, cpu: int) -> bool {
    &&& t.id == TaskId((IDLE_ID + cpu) as u32)
    &&& t.state == TaskState::Running
    &&& t.priority == PRIO_IDLE
    &&& t.cpu_affinity == Some(cpu as usize)
    &&& t.ttbr0 == 0
    &&& is_zero_context(t.ctx)
    &&& t.boot.task_id == 0
    &&& t.boot.machine == 0
    &&& t.name@ == idle_cpu_name(cpu)
    &&& fresh(t)
}

/// "idle-cpu" and the CPU's digit, NUL-padded.
pub open spec fn idle_cpu_name(cpu: int) -> Seq<u8> {
    seq![0x69u8, 0x64, 0x6C, 0x65, 0x2D, 0x63, 0x70, 0x75, (0x30 + cpu) as u8, 0, 0, 0, 0, 0, 0, 0]
}

/// Slot `i` holds a task that is not a zombie and bears `name`.
pub open spec fn named(s: Slots, i: int, name: Seq<char>) -> bool {
    &&& 0 <= i < s.len()
    &&& s[i] is Some
    &&& s[i]->0.state != TaskState::Zombie
    &&& name_text(s[i]->0.name@) == name
}

/// Slot `i` is the first with such a task.
pub open spec fn first_named(s: Slots, i: int, name: Seq<char>) -> bool {
    named(s, i, name) && forall|k: int| 0 <= k < i ==> !#[trigger] named(s, k, name)
}

/// What every spawn does to the table: a fresh Ready task of normal priority in
/// the first free slot, under the next id; or nothing, if the table is full.
pub open spec fn spawned(
    before: Scheduler,
    after: Scheduler,
    name: Seq<char>,
    r: Option<TaskId>,
) -> bool {
    match r {
        Some(id) => {
            &&& id == TaskId(before.next() as u32)
            &&& after.next() == before.next() + 1
            &&& !full(before.slots())
            &&& exists|i: int| #[trigger]
                first_free(before.slots(), i) && {
                    let t = after.slots()[i]->0;
                    &&& after.slots() == before.slots().update(i, Some(t))
                    &&& t.id == id
                    &&& t.state == TaskState::Ready
                    &&& t.priority == PRIO_NORMAL
                    &&& t.cpu_affinity is None
                    &&& t.name@ == padded(encode_utf8(name), 16, 16)
                    &&& fresh(t)
                }
        },
        None => {
            &&& full(before.slots())
            &&& after.slots() == before.slots()
            &&& after.next() == before.next()
        },
    }
}

/// A task starts with everything but its entry, stack, table and argument at 0: at EL1 with
/// interrupts masked, or at EL0 with its own stack beside the kernel's.
pub proof fn law_first_context(
    c: Context,
    entry: u64,
    sp: u64,
    root: u64,
    stack_top: u64,
    arg: u64,
    k: int,
)
    requires
        1 <= k < 10,
    ensures
        is_kernel_context(c, entry, stack_top, root, arg) ==> c.lr == entry && c.sp == stack_top
            && c.ttbr0 == root && c.spsr == 0x3C5 && c.x19_to_x28@[0] == arg && c.x19_to_x28@[k]
            == 0 && c.fp == 0 && c.sp_el0 == 0,
        is_user_context(c, entry, sp, root, stack_top, arg) ==> c.lr == entry && c.sp == stack_top
            && c.ttbr0 == root && c.spsr == 0 && c.x19_to_x28@[0] == arg && c.x19_to_x28@[k] == 0
            && c.fp == 0 && c.sp_el0 == sp,
{
}

/// A task starts Ready with the next number, priority 128 and no bond to a CPU, in the first
/// slot from 1 on that is free and not a CPU's own; it waits for nothing and nobody waits for
/// it.  Without such a slot nothing changes.
#[verifier::rlimit(50)]
pub proof fn law_spawned_task(
    a: Scheduler,
    b: Scheduler,
    name: Seq<char>,
    r: Option<TaskId>,
    i: int,
    j: int,
    k: int,
)
    requires
        a.slots().len() == 32,
        0 <= a.next() < u32::MAX,
        spawned(a, b, name, r),
        1 <= i <= 32,
        i < 32 ==> a.slots()[i] is None && !(16 <= i <= 18),
        forall|x: int| 1 <= x < i ==> #[trigger] a.slots()[x] is Some || 16 <= x <= 18,
        0 <= j < 32,
        0 <= k < 16,
    ensures
        i == 32 ==> r is None && b.slots() == a.slots() && b.next() == a.next(),
        i < 32 ==> {
            let t = b.slots()[i]->0;
            let bytes = encode_utf8(name);
            &&& r matches Some(id) && id.0 == a.next()
            &&& b.next() == a.next() + 1
            &&& b.slots()[i] is Some
            &&& t.id.0 == a.next()
            &&& t.state == TaskState::Ready
            &&& t.priority == 128
            &&& t.cpu_affinity is None
            &&& t.name@[k] == if k < bytes.len() {
                bytes[k]
            } else {
                0
            }
            &&& !t.recv_blocked && t.recv_filter == -1 && t.recv_buf == 0
            &&& t.pending_senders@[0] is None && t.pending_senders@[1] is None
            &&& t.send_full_wait is None && t.irq_wait is None && t.sleep_deadline == 0
            &&& t.regions@[k % 4] is None
            &&& j != i ==> b.slots()[j] == a.slots()[j]
        },
{
    if r is Some {
        let f = choose|f: int| #[trigger]
            first_free(a.slots(), f) && {
                let t = b.slots()[f]->0;
                &&& b.slots() == a.slots().update(f, Some(t))
                &&& t.id == r->0
                &&& t.state == TaskState::Ready
                &&& t.priority == PRIO_NORMAL
                &&& t.cpu_affinity is None
                &&& t.name@ == padded(encode_utf8(name), 16, 16)
                &&& fresh(t)
            };
        assert(f == i) by {
            if f < i {
                assert(a.slots()[f] is Some || 16 <= f <= 18);
            }
            if i < f {
                assert(a.slots()[i] is Some || reserved(i));
            }
        }
        assert(b.slots()[i]->0.regions@[k % 4] is None);
    } else if i < 32 {
        assert(a.slots()[i] is Some || reserved(i));
    }
}

/// A region goes into the first of a task's places that is free.
pub proof fn law_region_takes_first_place(a: Task, b: Task, region: Region, i: int, j: int)
    requires
        region_pushed(a, b, region),
        0 <= i < 4,
        a.regions@[i] is None,
        forall|x: int| 0 <= x < i ==> (#[trigger] a.regions@[x]) is Some,
        0 <= j < 4,
    ensures
        b.regions@[i] == Some(region),
        j != i ==> b.regions@[j] == a.regions@[j],
        b.id == a.id && b.state == a.state && b.ctx == a.ctx && b.ttbr0 == a.ttbr0,
        has_room(a.regions@),
{
    let f = choose|f: int| #[trigger]
        first_room(a.regions@, f) && b.regions@ == a.regions@.update(f, Some(region));
    assert(f == i) by {
        if f < i {
            assert(a.regions@[f] is Some);
        }
        if i < f {
            assert(a.regions@[i] is Some);
        }
    }
}

/// A CPU's own task runs on that CPU alone, with the lowest priority, and is numbered behind
/// every task that is spawned.
pub proof fn law_idle_tasks(t: Task, cpu: int, b: Task)
    requires
        1 <= cpu < 4,
        is_idle_task(t, cpu),
        is_boot_task(b),
    ensures
        t.id.0 == 0x4000_0000 + cpu,
        t.state == TaskState::Running,
        t.priority == 255,
        t.cpu_affinity == Some(cpu as usize),
        t.ttbr0 == 0,
        t.name@ == seq![105u8, 100, 108, 101, 45, 99, 112, 117] + seq![
            (48 + cpu) as u8,
            0,
            0,
            0,
            0,
            0,
            0,
            0,
        ],
        b.name@ == seq![105u8, 100, 108, 101, 0, 0, 0, 0] + seq![0u8, 0, 0, 0, 0, 0, 0, 0],
        is_zero_context(t.ctx) ==> t.ctx.lr == 0 && t.ctx.sp == 0 && t.ctx.sp_el0 == 0 && t.ctx.spsr
            == 0 && t.ctx.ttbr0 == 0 && t.ctx.fp == 0,
        b.id.0 == 0,
        b.state == TaskState::Running,
        b.priority == 255,
        b.cpu_affinity == Some(0usize),
        b.ttbr0 == 0,
{
}

/// The task of a name is the first one that is called so and not a zombie.
pub proof fn law_named_task_lives(s: Slots, i: int, name: Seq<char>, k: int)
    requires
        first_named(s, i, name),
        0 <= k < i,
    ensures
        s[i] is Some,
        s[i]->0.state != TaskState::Zombie,
        name_text(s[i]->0.name@) == name,
        s[k] is None || s[k]->0.state == TaskState::Zombie || name_text(s[k]->0.name@) != name,
{
    assert(!named(s, k, name));
}

} // verus!
