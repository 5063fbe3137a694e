//! The system calls: numbers, arguments and what becomes of the caller.
//!
//! A call returns a value at once, or blocks the caller and returns when it runs again.  At
//! the end of every call that did not block, a task that the call woke takes the CPU if it
//! has a higher priority than the caller.

use vstd::prelude::*;
use vstd::utf8::{decode_utf8, encode_utf8, valid_utf8};
use crate::arch::aarch64::gic::{
    bank_addr, enable_irq, irq_bit, GICD_IGROUPR, GICD_ISENABLER, GICR_IGROUPR0, GICR_ISENABLER0,
};
use crate::arch::aarch64::uart::LogLevel;
use crate::arch::aarch64::RegWrite;
use crate::bytes::append;
use crate::ipc::frames::{
    alloc_frames_post, free_frames_post, freeable, map_device_post, name_of, share_post, shareable,
    sys_alloc_frames, sys_free_frames, sys_map_device, sys_share_frames, sys_unshare_frames,
    E_NO_SUCH_TASK,
};
use crate::ipc::message::{
    blocked, queue_room, queue_set, receive_post, send_post, staged_match, sys_receive, sys_send,
    took_pending, took_staged, Delivery, ReceiveOutcome, SendOutcome,
};
use crate::ipc::process::{
    exec_post, kill_post, name_arg, sys_exec, sys_exit_task, sys_spawn, sys_spawn_post, sys_who,
    who, E_NOT_FOUND,
};
use crate::numbers::{decimal, push_decimal};
use crate::irq::{clear_pending, marked, pending, take_pending, PendingIrqs};
use crate::mem::page_table::{FLAGS_KERNEL_RWX, FLAGS_USER_RWX};
use crate::sched::run::{
    awake, current_of, handover, is_switch, moved, preempt_target, wake_target, RunQueue, Switch,
};
use crate::sched::task::{exists_id, first_id, has_id, in_state, with_state, Slots, Task, MAX_TASKS};
use crate::sched::{Message, PendingSend, StagedSend, TaskId, TaskState};
use crate::server::{
    lemma_blocked, lemma_same_tasks, lemma_same_trans, lemma_with_state, same_tasks, Host,
    ServerImage,
};
use crate::smp::{CpuMask, MAX_CPUS};
use crate::text::{nul_position, until_nul, utf8_text};

verus! {

pub const SYS_SEND: u64 = 0;

pub const SYS_RECEIVE: u64 = 1;

pub const SYS_SPAWN: u64 = 2;

pub const SYS_WHO: u64 = 3;

pub const SYS_EXIT_TASK: u64 = 4;

pub const SYS_EXIT: u64 = 5;

pub const SYS_ALLOC_FRAMES: u64 = 6;

pub const SYS_FREE_FRAMES: u64 = 7;

pub const SYS_LOG: u64 = 8;

pub const SYS_WAIT_IRQ: u64 = 9;

pub const SYS_YIELD: u64 = 10;

pub const SYS_SHARE_FRAMES: u64 = 11;

pub const SYS_UNSHARE_FRAMES: u64 = 12;

pub const SYS_SLEEP: u64 = 13;

pub const SYS_EXEC: u64 = 14;

pub const SYS_MAP_DEVICE: u64 = 15;

pub const SYS_IRQ_PENDING: u64 = 16;

/// A system call with its arguments.  Pointers are addresses in the caller's memory.
#[derive(Debug, Clone, Copy, PartialEq, Eq, Structural)]
pub enum Call {
    Send { dst: u32, msg: u64 },
    Receive { filter: i32, out: u64 },
    Spawn { name: u64 },
    Who { name: u64 },
    ExitTask { pid: u32 },
    Exit,
    AllocFrames { pages: u32 },
    FreeFrames { base: u64, pages: u32 },
    Log { level: u32, msg: u64 },
    WaitIrq { irq: u32 },
    Yield,
    ShareFrames { base: u64, pages: u32, task: u32 },
    UnshareFrames { base: u64, pages: u32, task: u32 },
    Sleep { ms: u32 },
    Exec { name: u64 },
    MapDevice { phys: u64, count: u64 },
    IrqPending { irq: u32 },
    Unknown { nr: u64 },
}

/// The call that the number `nr` and the arguments stand for.
pub open spec fn call_of(nr: u64, a0: u64, a1: u64, a2: u64) -> Call {
    if nr == SYS_SEND {
        Call::Send { dst: a0 as u32, msg: a1 }
    } else if nr == SYS_RECEIVE {
        Call::Receive { filter: a0 as i32, out: a1 }
    } else if nr == SYS_SPAWN {
        Call::Spawn { name: a0 }
    } else if nr == SYS_WHO {
        Call::Who { name: a0 }
    } else if nr == SYS_EXIT_TASK {
        Call::ExitTask { pid: a0 as u32 }
    } else if nr == SYS_EXIT {
        Call::Exit
    } else if nr == SYS_ALLOC_FRAMES {
        Call::AllocFrames { pages: a0 as u32 }
    } else if nr == SYS_FREE_FRAMES {
        Call::FreeFrames { base: a0, pages: a1 as u32 }
    } else if nr == SYS_LOG {
        Call::Log { level: a0 as u32, msg: a1 }
    } else if nr == SYS_WAIT_IRQ {
        Call::WaitIrq { irq: a0 as u32 }
    } else if nr == SYS_YIELD {
        Call::Yield
    } else if nr == SYS_SHARE_FRAMES {
        Call::ShareFrames { base: a0, pages: a1 as u32, task: a2 as u32 }
    } else if nr == SYS_UNSHARE_FRAMES {
        Call::UnshareFrames { base: a0, pages: a1 as u32, task: a2 as u32 }
    } else if nr == SYS_SLEEP {
        Call::Sleep { ms: a0 as u32 }
    } else if nr == SYS_EXEC {
        Call::Exec { name: a0 }
    } else if nr == SYS_MAP_DEVICE {
        Call::MapDevice { phys: a0, count: a1 }
    } else if nr == SYS_IRQ_PENDING {
        Call::IrqPending { irq: a0 as u32 }
    } else {
        Call::Unknown { nr }
    }
}

/// Decode the registers of a system call; the low half of a register is a narrow argument.
pub fn decode(nr: u64, a0: u64, a1: u64, a2: u64) -> (c: Call)
    ensures
        c == call_of(nr, a0, a1, a2),
{
    match nr {
        SYS_SEND => Call::Send { dst: a0 as u32, msg: a1 },
        SYS_RECEIVE => Call::Receive { filter: a0 as i32, out: a1 },
        SYS_SPAWN => Call::Spawn { name: a0 },
        SYS_WHO => Call::Who { name: a0 },
        SYS_EXIT_TASK => Call::ExitTask { pid: a0 as u32 },
        SYS_EXIT => Call::Exit,
        SYS_ALLOC_FRAMES => Call::AllocFrames { pages: a0 as u32 },
        SYS_FREE_FRAMES => Call::FreeFrames { base: a0, pages: a1 as u32 },
        SYS_LOG => Call::Log { level: a0 as u32, msg: a1 },
        SYS_WAIT_IRQ => Call::WaitIrq { irq: a0 as u32 },
        SYS_YIELD => Call::Yield,
        SYS_SHARE_FRAMES => Call::ShareFrames { base: a0, pages: a1 as u32, task: a2 as u32 },
        SYS_UNSHARE_FRAMES => Call::UnshareFrames { base: a0, pages: a1 as u32, task: a2 as u32 },
        SYS_SLEEP => Call::Sleep { ms: a0 as u32 },
        SYS_EXEC => Call::Exec { name: a0 },
        SYS_MAP_DEVICE => Call::MapDevice { phys: a0, count: a1 },
        SYS_IRQ_PENDING => Call::IrqPending { irq: a0 as u32 },
        _ => Call::Unknown { nr },
    }
}

/// The register value that stands for a result: errors are negative numbers in two's
/// complement.
pub open spec fn register(r: i32) -> int {
    if r >= 0 {
        r as int
    } else {
        r + 0x1_0000_0000_0000_0000
    }
}

fn to_register(r: i32) -> (v: u64)
    ensures
        v == register(r),
{
    if r >= 0 {
        r as u64
    } else {
        u64::MAX - (-(r as i64 + 1)) as u64
    }
}

/// Not an interrupt that a device can raise.
pub const E_BAD_IRQ: i32 = -10;

/// Outcome of waiting for an interrupt.
pub enum IrqWait {
    /// No such interrupt.
    Refused,
    /// It had been delivered; write the registers and return.
    Delivered(Vec<RegWrite>),
    /// Write the registers and sleep until [`irq_arrived`].
    Sleep(Vec<RegWrite>),
}

/// An interrupt that tasks can wait for.
pub open spec fn can_wait(irq: u32) -> bool {
    16 <= irq <= 1019
}

/// The caller with the interrupt that it waits for.
pub open spec fn with_irq_wait(s: Slots, cur: int, irq: Option<u32>) -> Slots {
    s.update(cur, Some(Task { irq_wait: irq, ..s[cur]->0 }))
}

/// `wait_irq(irq)`: block the task that `cpu` runs until the interrupt has been delivered.
/// `igroup` is what the interrupt's group register holds.
pub fn sys_wait_irq(q: &mut RunQueue, irqs: &mut PendingIrqs, cpu: usize, irq: u32, igroup: u32) -> (r:
    IrqWait)
    requires
        old(q).wf(),
        cpu < MAX_CPUS,
        old(q).sched.slots()[old(q).cpus.current(cpu as int)] is Some,
    ensures
        final(q).wf(),
        final(q).cpus == old(q).cpus,
        final(q).sched.next() == old(q).sched.next(),
        final(q).sched.woken_slot() == old(q).sched.woken_slot(),
        ({
            let s = old(q).sched.slots();
            match r {
                IrqWait::Refused => {
                    &&& !can_wait(irq)
                    &&& final(q).sched.slots() == s
                    &&& *final(irqs) == *old(irqs)
                },
                IrqWait::Delivered(w) => {
                    &&& can_wait(irq)
                    &&& old(irqs).has(irq as int)
                    &&& is_enable(cpu as int, irq, igroup, w@)
                    &&& final(q).sched.slots() == s
                    &&& marked(*old(irqs), *final(irqs), irq, false)
                },
                IrqWait::Sleep(w) => {
                    &&& can_wait(irq)
                    &&& !old(irqs).has(irq as int)
                    &&& is_enable(cpu as int, irq, igroup, w@)
                    &&& final(q).sched.slots() == with_irq_wait(
                        s,
                        old(q).cpus.current(cpu as int),
                        Some(irq),
                    )
                    &&& marked(*old(irqs), *final(irqs), irq, false)
                },
            }
        }),
{
    if irq < 16 || irq > 1019 {
        return IrqWait::Refused;
    }
    assert(q.cpus.current(cpu as int) < 32);
    let writes = enable_irq(cpu, irq, igroup);
    if take_pending(irqs, irq) {
        return IrqWait::Delivered(writes);
    }
    let cur: usize = q.cpus.current_idx(cpu);
    if let Some(t) = q.sched.task_at_mut(cur) {
        t.irq_wait = Some(irq);
    }
    IrqWait::Sleep(writes)
}

/// End the wait for an interrupt if it has been delivered; returns whether it has.
pub fn irq_arrived(q: &mut RunQueue, irqs: &mut PendingIrqs, cpu: usize, irq: u32) -> (r: bool)
    requires
        old(q).wf(),
        cpu < MAX_CPUS,
        old(q).sched.slots()[old(q).cpus.current(cpu as int)] is Some,
    ensures
        final(q).wf(),
        final(q).cpus == old(q).cpus,
        final(q).sched.next() == old(q).sched.next(),
        final(q).sched.woken_slot() == old(q).sched.woken_slot(),
        r == old(irqs).has(irq as int),
        ({
            let s = old(q).sched.slots();
            if r {
                &&& final(q).sched.slots() == with_irq_wait(
                    s,
                    old(q).cpus.current(cpu as int),
                    None,
                )
                &&& marked(*old(irqs), *final(irqs), irq, false)
            } else {
                final(q).sched.slots() == s && *final(irqs) == *old(irqs)
            }
        }),
{
    assert(q.cpus.current(cpu as int) < 32);
    if !pending(irqs, irq) {
        return false;
    }
    let cur: usize = q.cpus.current_idx(cpu);
    if let Some(t) = q.sched.task_at_mut(cur) {
        t.irq_wait = None;
    }
    clear_pending(irqs, irq);
    true
}

/// The register writes that enable an interrupt on a CPU.
pub open spec fn is_enable(cpu: int, irq: u32, igroup: u32, w: Seq<RegWrite>) -> bool {
    &&& w.len() == 2
    &&& w[0].addr == bank_addr(cpu, irq, GICR_IGROUPR0, GICD_IGROUPR)
    &&& w[0].val == igroup | irq_bit(irq)
    &&& w[1].addr == bank_addr(cpu, irq, GICR_ISENABLER0, GICD_ISENABLER)
    &&& w[1].val == irq_bit(irq)
}

/// `irq_pending(irq)`: enable the interrupt and consume its delivery, without blocking: 1 if
/// it was delivered, else 0.
pub fn sys_irq_pending(irqs: &mut PendingIrqs, cpu: usize, irq: u32, igroup: u32) -> (r: (
    i32,
    Vec<RegWrite>,
))
    requires
        cpu < MAX_CPUS,
    ensures
        if can_wait(irq) {
            &&& r.0 == if old(irqs).has(irq as int) {
                1i32
            } else {
                0i32
            }
            &&& is_enable(cpu as int, irq, igroup, r.1@)
            &&& marked(*old(irqs), *final(irqs), irq, false)
        } else {
            &&& r.0 == E_BAD_IRQ
            &&& r.1@.len() == 0
            &&& *final(irqs) == *old(irqs)
        },
{
    if irq < 16 || irq > 1019 {
        return (E_BAD_IRQ, Vec::new());
    }
    let writes = enable_irq(cpu, irq, igroup);
    if take_pending(irqs, irq) {
        (1, writes)
    } else {
        (0, writes)
    }
}

/// Longest sleep in ticks; the shortest is one.
pub const MAX_SLEEP_MS: u32 = 60_000;

/// Tick at which a sleep of `ms` that begins at `now` ends.
pub open spec fn deadline(now: u64, ms: u32) -> int {
    let d = now + if ms < 1 {
        1int
    } else if ms > MAX_SLEEP_MS {
        MAX_SLEEP_MS as int
    } else {
        ms as int
    };
    if d > u64::MAX {
        u64::MAX as int
    } else {
        d
    }
}

/// What a sleep does: the caller blocks with its deadline, and the best task takes over.
pub open spec fn sleep_post(a: RunQueue, b: RunQueue, cpu: int, ms: u32, now: u64, sw: Switch) -> bool {
    let s = a.sched.slots();
    let cur = a.cpus.current(cpu);
    &&& b.sched.woken_slot() == a.sched.woken_slot()
    &&& blocked(
        a,
        b,
        cpu,
        s.update(
            cur,
            Some(
                Task {
                    sleep_deadline: deadline(now, ms) as u64,
                    state: TaskState::Blocked,
                    ..s[cur]->0
                },
            ),
        ),
        sw,
    )
}

/// `sleep(ms)`: block the task that `cpu` runs until `ms` ticks after `now` have passed.
pub fn sys_sleep(q: &mut RunQueue, cpu: usize, ms: u32, now: u64) -> (sw: Switch)
    requires
        old(q).wf(),
        cpu < MAX_CPUS,
        old(q).sched.slots()[old(q).cpus.current(cpu as int)] is Some,
    ensures
        final(q).wf(),
        sleep_post(*old(q), *final(q), cpu as int, ms, now, sw),
{
    let ghost a = *q;
    assert(q.cpus.current(cpu as int) < 32);
    let ticks: u32 = if ms < 1 {
        1
    } else if ms > MAX_SLEEP_MS {
        MAX_SLEEP_MS
    } else {
        ms
    };
    let cur: usize = q.cpus.current_idx(cpu);
    if let Some(t) = q.sched.task_at_mut(cur) {
        t.sleep_deadline = now.saturating_add(ticks as u64);
        t.state = TaskState::Blocked;
    }
    q.switch_away(cpu)
}

/// End a sleep: the task that `cpu` runs has been resumed.
pub fn sleep_done(q: &mut RunQueue, cpu: usize)
    requires
        old(q).wf(),
        cpu < MAX_CPUS,
        old(q).sched.slots()[old(q).cpus.current(cpu as int)] is Some,
    ensures
        final(q).wf(),
        final(q).cpus == old(q).cpus,
        final(q).sched.next() == old(q).sched.next(),
        final(q).sched.woken_slot() == old(q).sched.woken_slot(),
        ({
            let s = old(q).sched.slots();
            let cur = old(q).cpus.current(cpu as int);
            final(q).sched.slots() == s.update(cur, Some(Task { sleep_deadline: 0, ..s[cur]->0 }))
        }),
{
    assert(q.cpus.current(cpu as int) < 32);
    let cur: usize = q.cpus.current_idx(cpu);
    if let Some(t) = q.sched.task_at_mut(cur) {
        t.sleep_deadline = 0;
    }
}

/// Most bytes of a log text.
pub const MAX_LOG: usize = 256;

/// The text at a pointer: what is in front of the first NUL byte, at most 256 bytes; `"?"`
/// where that is not UTF-8.
pub open spec fn log_arg(mem: Seq<u8>) -> Seq<char> {
    let head = until_nul(
        if mem.len() > MAX_LOG {
            mem.take(MAX_LOG as int)
        } else {
            mem
        },
    );
    if valid_utf8(head) {
        decode_utf8(head)
    } else {
        "?"@
    }
}

/// Level of a task's log message.
pub open spec fn level_of(level: u32) -> LogLevel {
    if level == 0 {
        LogLevel::Info
    } else if level == 1 {
        LogLevel::Warn
    } else {
        LogLevel::Error
    }
}

/// The bytes of a log text: `[name] text`.
pub open spec fn log_text(name: Seq<char>, text: Seq<char>) -> Seq<u8> {
    encode_utf8("["@) + encode_utf8(name) + encode_utf8("] "@) + encode_utf8(text)
}

/// `log(level, text)` by the task that `cpu` runs; the text begins at the start of `mem`.
pub fn sys_log(q: &RunQueue, cpu: usize, level: u32, mem: &[u8]) -> (r: (LogLevel, Vec<u8>))
    requires
        q.wf(),
        cpu < MAX_CPUS,
    ensures
        r.0 == level_of(level),
        r.1@ == log_text(name_of(q.sched.slots(), q.cpus.current(cpu as int)), log_arg(mem@)),
{
    assert(q.cpus.current(cpu as int) < 32);
    let name = q.sched.current_name(q.cpus.current_idx(cpu));
    let len: usize = mem.len();
    let window = if len > MAX_LOG {
        vstd::slice::slice_subrange(mem, 0, MAX_LOG)
    } else {
        mem
    };
    assert(window@ =~= if mem@.len() > MAX_LOG {
        mem@.take(MAX_LOG as int)
    } else {
        mem@
    });
    let n: usize = nul_position(window);
    let head = vstd::slice::slice_subrange(window, 0, n);
    assert(head@ =~= until_nul(window@));
    let text = match utf8_text(head) {
        Some(s) => {
            proof {
                vstd::utf8::encode_utf8_decode_utf8(s@);
            }
            s
        },
        None => "?",
    };
    let mut out: Vec<u8> = Vec::new();
    append(&mut out, "[".as_bytes());
    append(&mut out, name.as_bytes());
    append(&mut out, "] ".as_bytes());
    append(&mut out, text.as_bytes());
    assert(out@ =~= log_text(name@, text@));
    let level = if level == 0 {
        LogLevel::Info
    } else if level == 1 {
        LogLevel::Warn
    } else {
        LogLevel::Error
    };
    (level, out)
}

/// The bytes of the log text for a call that does not exist.
pub open spec fn unknown_text(name: Seq<char>, nr: u64) -> Seq<u8> {
    encode_utf8("syscall: task '"@) + encode_utf8(name) + encode_utf8(
        "' invoked unknown syscall "@,
    ) + decimal(nr as nat)
}

/// What is logged when the task that `cpu` runs makes the call `nr`, which does not exist.
pub fn unknown_call(q: &RunQueue, cpu: usize, nr: u64) -> (r: (LogLevel, Vec<u8>))
    requires
        q.wf(),
        cpu < MAX_CPUS,
    ensures
        r.0 == LogLevel::Error,
        r.1@ == unknown_text(name_of(q.sched.slots(), q.cpus.current(cpu as int)), nr),
{
    assert(q.cpus.current(cpu as int) < 32);
    let name = q.sched.current_name(q.cpus.current_idx(cpu));
    let mut out: Vec<u8> = Vec::new();
    append(&mut out, "syscall: task '".as_bytes());
    append(&mut out, name.as_bytes());
    append(&mut out, "' invoked unknown syscall ".as_bytes());
    push_decimal(&mut out, nr);
    assert(out@ =~= unknown_text(name@, nr));
    (LogLevel::Error, out)
}

/// What system calls work on.
pub struct Kernel {
    pub host: Host,
    pub irqs: PendingIrqs,
}

/// What a call reads from outside: the message and the bytes that its pointers lead to in the
/// caller's memory, the tick count, and the group register of the interrupt it names.
#[derive(Clone, Copy)]
pub struct Inputs<'a> {
    pub msg: Message,
    pub mem: &'a [u8],
    pub now: u64,
    pub igroup: u32,
}

/// What the caller gets.
#[derive(Debug, Clone, Copy, PartialEq, Eq, Structural)]
pub enum Reply {
    /// A register value, at once or when the caller runs again.
    Value(u64),
    /// When the caller runs again: the sender of the message in the buffer.
    SenderOf(u64),
    /// 0 once [`sleep_done`] has ended the sleep.
    WhenAwake,
    /// 0 once [`irq_arrived`].
    OnIrq(u32),
    /// The caller is gone.
    Never,
}

/// What is left to be done outside.
pub enum Effect {
    Nothing,
    /// Copy a message to its receiver and poke CPUs.
    Deliver(Delivery, CpuMask),
    /// Write a message to the caller's buffer and poke CPUs.
    Store(u64, Message, CpuMask),
    /// The tables may have changed: drop the cached translations.
    FlushTlb,
    /// Write registers of the interrupt controller.
    Registers(Vec<RegWrite>),
    /// Log a text.
    Log(LogLevel, Vec<u8>),
}

/// Outcome of a system call.
pub struct Outcome {
    pub reply: Reply,
    pub effect: Effect,
    /// The CPU is handed over.
    pub switch: Option<Switch>,
}

impl Kernel {
    /// The caller that `cpu` runs is a task.
    pub open spec fn has_caller(self, cpu: int) -> bool {
        &&& 0 <= cpu < MAX_CPUS
        &&& self.host.q.sched.slots()[self.host.q.cpus.current(cpu)] is Some
    }
}

/// The arguments are such that the call can be served: a server that is to be started can be,
/// and frames are those of a run.
pub open spec fn call_ok(
    k: Kernel,
    cpu: int,
    bins: Seq<ServerImage>,
    call: Call,
    inp: Inputs,
) -> bool {
    match call {
        Call::Spawn { name } => name_arg(inp.mem@) matches Some(n) ==> k.host.can_spawn(bins, n),
        Call::Exec { name } => name_arg(inp.mem@) matches Some(n) ==> k.host.can_spawn(bins, n),
        Call::FreeFrames { base, pages } => freeable(k.host, cpu, base, pages as int),
        Call::ShareFrames { base, pages, task } => shareable(k.host, base, pages, TaskId(task)),
        Call::UnshareFrames { base, pages, task } => shareable(k.host, base, pages, TaskId(task)),
        _ => true,
    }
}

/// Only the run queue changed.
pub open spec fn only_queue(pre: Kernel, post: Kernel) -> bool {
    post == (Kernel { host: Host { q: post.host.q, ..pre.host }, irqs: pre.irqs })
}

/// Only the host changed.
pub open spec fn only_host(pre: Kernel, post: Kernel) -> bool {
    post.irqs == pre.irqs
}

/// The reply is the register value of `r`.
pub open spec fn replies(o: Outcome, r: i32) -> bool {
    o.reply == Reply::Value(register(r) as u64) && o.switch is None
}

/// What serving a call does, before a woken task gets its chance; `o.switch` is the switch of
/// a call that blocks.
pub open spec fn served(
    pre: Kernel,
    mid: Kernel,
    cpu: int,
    bins: Seq<ServerImage>,
    call: Call,
    inp: Inputs,
    o: Outcome,
) -> bool {
    let q = pre.host.q;
    match call {
        Call::Send { dst, msg } => only_queue(pre, mid) && exists|r: SendOutcome| #[trigger]
            send_post(q, mid.host.q, cpu, dst, inp.msg, r) && match r {
                SendOutcome::Refused(e) => replies(o, e) && o.effect == Effect::Nothing,
                SendOutcome::Delivered(d, mask) => replies(o, 0) && o.effect == Effect::Deliver(
                    d,
                    mask,
                ),
                SendOutcome::Blocked(sw) => o.reply == Reply::Value(0) && o.switch == Some(sw)
                    && o.effect == Effect::Nothing,
            },
        Call::Receive { filter, out } => only_queue(pre, mid) && exists|r: ReceiveOutcome|
            #[trigger]
            receive_post(q, mid.host.q, cpu, filter, out, r) && match r {
                ReceiveOutcome::Received(m, mask) => replies(o, m.src as i32) && o.effect
                    == Effect::Store(out, m, mask),
                ReceiveOutcome::Blocked(sw) => o.reply == Reply::SenderOf(out) && o.switch == Some(
                    sw,
                ) && o.effect == Effect::Nothing,
            },
        Call::Spawn { name } => only_host(pre, mid) && exists|r: i32| #[trigger]
            sys_spawn_post(pre.host, bins, inp.mem@, mid.host, r) && replies(o, r) && o.effect
                == Effect::Nothing,
        Call::Exec { name } => only_host(pre, mid) && exists|r: i32| #[trigger]
            exec_post(pre.host, cpu, bins, inp.mem@, mid.host, r) && replies(o, r) && o.effect
                == Effect::Nothing,
        Call::Who { name } => mid == pre && o.effect == Effect::Nothing && match name_arg(
            inp.mem@,
        ) {
            Some(n) => exists|r: i32| #[trigger] who(q.sched.slots(), n, r) && replies(o, r),
            None => replies(o, E_NOT_FOUND),
        },
        Call::ExitTask { pid } => {
            &&& only_host(pre, mid)
            &&& o.effect == Effect::Nothing
            &&& replies(o, 0) || replies(o, E_NO_SUCH_TASK)
            &&& kill_post(pre.host, mid.host, cpu, TaskId(pid), o.reply == Reply::Value(0))
        },
        Call::Exit => {
            &&& only_queue(pre, mid)
            &&& o.reply == Reply::Never
            &&& o.effect == Effect::Nothing
            &&& o.switch matches Some(sw) && exited(q, mid.host.q, cpu, sw)
        },
        Call::AllocFrames { pages } => {
            &&& only_host(pre, mid)
            &&& o.effect == Effect::FlushTlb
            &&& o.switch is None
            &&& o.reply matches Reply::Value(v) && alloc_frames_post(
                pre.host,
                mid.host,
                cpu,
                pages,
                v,
            )
        },
        Call::FreeFrames { base, pages } => only_host(pre, mid) && exists|r: i32| #[trigger]
            free_frames_post(pre.host, mid.host, cpu, base, pages, r) && replies(o, r) && o.effect
                == Effect::FlushTlb,
        Call::ShareFrames { base, pages, task } => only_host(pre, mid) && exists|r: i32| #[trigger]
            share_post(pre.host, mid.host, base, pages, TaskId(task), FLAGS_USER_RWX, r)
                && replies(o, r) && o.effect == Effect::FlushTlb,
        Call::UnshareFrames { base, pages, task } => only_host(pre, mid) && exists|r: i32|
            #[trigger]
            share_post(pre.host, mid.host, base, pages, TaskId(task), FLAGS_KERNEL_RWX, r)
                && replies(o, r) && o.effect == Effect::FlushTlb,
        Call::MapDevice { phys, count } => only_host(pre, mid) && exists|r: i32| #[trigger]
            map_device_post(pre.host, mid.host, cpu, phys, count, r) && replies(o, r) && o.effect
                == Effect::FlushTlb,
        Call::Sleep { ms } => {
            &&& only_queue(pre, mid)
            &&& o.reply == Reply::WhenAwake
            &&& o.effect == Effect::Nothing
            &&& o.switch matches Some(sw) && sleep_post(q, mid.host.q, cpu, ms, inp.now, sw)
        },
        Call::IrqPending { irq } => mid.host == pre.host && if can_wait(irq) {
            &&& marked(pre.irqs, mid.irqs, irq, false)
            &&& replies(
                o,
                if pre.irqs.has(irq as int) {
                    1
                } else {
                    0
                },
            )
            &&& o.effect matches Effect::Registers(w) && is_enable(cpu, irq, inp.igroup, w@)
        } else {
            &&& mid.irqs == pre.irqs
            &&& replies(o, E_BAD_IRQ)
            &&& o.effect matches Effect::Registers(w) && w@.len() == 0
        },
        Call::WaitIrq { irq } => {
            &&& o.switch is None
            &&& waited(pre, mid, cpu, irq, inp.igroup, o)
        },
        Call::Log { level, msg } => {
            &&& mid == pre
            &&& replies(o, 0)
            &&& o.effect matches Effect::Log(l, text) && l == level_of(level) && text@ == log_text(
                name_of(q.sched.slots(), q.cpus.current(cpu)),
                log_arg(inp.mem@),
            )
        },
        Call::Yield => {
            &&& only_queue(pre, mid)
            &&& o.reply == Reply::Value(0)
            &&& o.effect == Effect::Nothing
            &&& yielded(q, mid.host.q, cpu, o.switch)
        },
        Call::Unknown { nr } => {
            &&& mid == pre
            &&& replies(o, 0)
            &&& o.effect matches Effect::Log(l, text) && l == LogLevel::Error && text@
                == unknown_text(name_of(q.sched.slots(), q.cpus.current(cpu)), nr)
        },
    }
}

/// What waiting for an interrupt does.
pub open spec fn waited(
    pre: Kernel,
    mid: Kernel,
    cpu: int,
    irq: u32,
    igroup: u32,
    o: Outcome,
) -> bool {
    let s = pre.host.q.sched.slots();
    let cur = pre.host.q.cpus.current(cpu);
    &&& only_queue(pre, Kernel { irqs: pre.irqs, ..mid })
    &&& mid.host.q.cpus == pre.host.q.cpus
    &&& mid.host.q.sched.next() == pre.host.q.sched.next()
    &&& mid.host.q.sched.woken_slot() == pre.host.q.sched.woken_slot()
    &&& if !can_wait(irq) {
        &&& o.reply == Reply::Value(register(E_BAD_IRQ) as u64)
        &&& o.effect == Effect::Nothing
        &&& mid.host.q.sched.slots() == s
        &&& mid.irqs == pre.irqs
    } else {
        &&& o.effect matches Effect::Registers(w) && is_enable(cpu, irq, igroup, w@)
        &&& marked(pre.irqs, mid.irqs, irq, false)
        &&& if pre.irqs.has(irq as int) {
            o.reply == Reply::Value(0) && mid.host.q.sched.slots() == s
        } else {
            o.reply == Reply::OnIrq(irq) && mid.host.q.sched.slots() == with_irq_wait(
                s,
                cur,
                Some(irq),
            )
        }
    }
}

/// The caller is a zombie, and the best task takes over.
pub open spec fn exited(a: RunQueue, b: RunQueue, cpu: int, sw: Switch) -> bool {
    let cur = a.cpus.current(cpu);
    &&& b.sched.woken_slot() == a.sched.woken_slot()
    &&& blocked(a, b, cpu, with_state(a.sched.slots(), cur, TaskState::Zombie), sw)
}

/// The CPU went to `target`, if there is one.
pub open spec fn handed(
    a: RunQueue,
    b: RunQueue,
    cpu: int,
    target: Option<int>,
    sw: Option<Switch>,
) -> bool {
    let s = a.sched.slots();
    let cur = a.cpus.current(cpu);
    &&& is_switch(sw, cur, target)
    &&& moved(
        a,
        b,
        cpu,
        match target {
            Some(next) => handover(s, cur, next),
            None => s,
        },
        target,
    )
}

/// A task of strictly higher priority took the CPU, if one is runnable.
pub open spec fn yielded(a: RunQueue, b: RunQueue, cpu: int, sw: Option<Switch>) -> bool {
    let target = preempt_target(a.sched.slots(), cpu, a.cpus.current(cpu), true);
    b.sched.woken_slot() == a.sched.woken_slot() && handed(a, b, cpu, target, sw)
}

/// The task that the call woke took the CPU, if it has a strictly higher priority.
pub open spec fn rescheduled(a: RunQueue, b: RunQueue, cpu: int, sw: Option<Switch>) -> bool {
    let target = wake_target(a.sched.slots(), cpu, a.cpus.current(cpu), a.sched.woken_slot());
    b.sched.woken_slot() is None && handed(a, b, cpu, target, sw)
}

/// The end of a call: a woken task gets its chance, unless the call gave up the CPU itself or
/// took no part in scheduling.
pub open spec fn ended(
    mid: Kernel,
    post: Kernel,
    cpu: int,
    call: Call,
    blocked_by: Option<Switch>,
    sw: Option<Switch>,
) -> bool {
    if blocked_by is Some || call is WaitIrq || call is Yield {
        post == mid && sw == blocked_by
    } else {
        only_queue(mid, post) && rescheduled(mid.host.q, post.host.q, cpu, sw)
    }
}

/// What a system call does.
pub open spec fn syscall_post(
    pre: Kernel,
    post: Kernel,
    cpu: int,
    bins: Seq<ServerImage>,
    call: Call,
    inp: Inputs,
    o: Outcome,
) -> bool {
    exists|mid: Kernel, sw: Option<Switch>|
        {
            &&& #[trigger] served(
                pre,
                mid,
                cpu,
                bins,
                call,
                inp,
                Outcome { switch: sw, ..o },
            )
            &&& #[trigger] ended(mid, post, cpu, call, sw, o.switch)
        }
}

impl Kernel {
    fn serve_send(&mut self, cpu: usize, bins: &[ServerImage], call: Call, inp: Inputs) -> (o:
        Outcome)
        requires
            old(self).host.wf(),
            old(self).has_caller(cpu as int),
            call is Send,
        ensures
            final(self).host.wf(),
            served(*old(self), *final(self), cpu as int, bins@, call, inp, o),
    {
        let dst: u32 = match call {
            Call::Send { dst, .. } => dst,
            _ => 0,
        };
        let msg = inp.msg;
        let ghost pre = *self;
        let r = sys_send(&mut self.host.q, cpu, dst, msg);
        assert(send_post(pre.host.q, self.host.q, cpu as int, dst, msg, r));
        proof {
            pre.host.q.sched.lemma_len();
            lemma_send_keeps(pre.host.q, self.host.q, cpu as int, dst, msg, r);
            lemma_same_tasks(pre.host, self.host);
        }
        match r {
            SendOutcome::Refused(e) => Outcome {
                reply: Reply::Value(to_register(e)),
                effect: Effect::Nothing,
                switch: None,
            },
            SendOutcome::Delivered(d, mask) => Outcome {
                reply: Reply::Value(to_register(0)),
                effect: Effect::Deliver(d, mask),
                switch: None,
            },
            SendOutcome::Blocked(sw) => Outcome {
                reply: Reply::Value(0),
                effect: Effect::Nothing,
                switch: Some(sw),
            },
        }
    }
}

proof fn lemma_send_keeps(
    a: RunQueue,
    b: RunQueue,
    cpu: int,
    dst: u32,
    msg: Message,
    r: SendOutcome,
)
    requires
        a.wf(),
        b.wf(),
        0 <= cpu < MAX_CPUS,
        a.sched.slots()[a.cpus.current(cpu)] is Some,
        a.sched.slots().len() == MAX_TASKS,
        a.sched.woken_slot() matches Some(w) ==> w < MAX_TASKS,
        send_post(a, b, cpu, dst, msg, r),
    ensures
        same_tasks(a.sched.slots(), b.sched.slots()),
        b.sched.next() == a.sched.next(),
        b.sched.woken_slot() matches Some(w) ==> w < MAX_TASKS,
{
    let s = a.sched.slots();
    let cur = a.cpus.current(cpu);
    let me = current_of(s, cur).0;
    assert(cur < 32);
    match r {
        SendOutcome::Refused(_) => {},
        SendOutcome::Delivered(d, mask) => {
            let i = choose|i: int| #[trigger]
                first_id(s, i, TaskId(dst)) && b.sched.woken_slot() == Some(i as usize) && moved(
                    a,
                    b,
                    cpu,
                    s.update(
                        i,
                        Some(Task { recv_blocked: false, state: TaskState::Ready, ..s[i]->0 }),
                    ),
                    None,
                );
            assert(has_id(s, i, TaskId(dst)));
        },
        SendOutcome::Blocked(sw) => {
            let full = s.update(
                cur,
                Some(
                    Task {
                        send_full_wait: Some(StagedSend { dst, src: me, msg }),
                        state: TaskState::Blocked,
                        ..s[cur]->0
                    },
                ),
            );
            if blocked(a, b, cpu, full, sw) {
                lemma_blocked(a, b, cpu, full, sw);
            } else {
                let i = choose|i: int| #[trigger]
                    first_id(s, i, TaskId(dst)) && (exists|k: int, t: Task|
                        #![trigger queue_room(s[i]->0, k), queue_set(s[i]->0, t, k, Some(PendingSend { src: me, msg }))]
                        queue_room(s[i]->0, k) && queue_set(
                            s[i]->0,
                            t,
                            k,
                            Some(PendingSend { src: me, msg }),
                        ) && blocked(
                            a,
                            b,
                            cpu,
                            with_state(s.update(i, Some(t)), cur, TaskState::Blocked),
                            sw,
                        ));
                assert(has_id(s, i, TaskId(dst)));
                let (k, t) = choose|k: int, t: Task|
                    #![trigger queue_room(s[i]->0, k), queue_set(s[i]->0, t, k, Some(PendingSend { src: me, msg }))]
                    queue_room(s[i]->0, k) && queue_set(
                        s[i]->0,
                        t,
                        k,
                        Some(PendingSend { src: me, msg }),
                    ) && blocked(
                        a,
                        b,
                        cpu,
                        with_state(s.update(i, Some(t)), cur, TaskState::Blocked),
                        sw,
                    );
                let s1 = s.update(i, Some(t));
                assert(same_tasks(s, s1));
                lemma_with_state(s1, cur, TaskState::Blocked);
                lemma_same_trans(s, s1, with_state(s1, cur, TaskState::Blocked));
                lemma_blocked(a, b, cpu, with_state(s1, cur, TaskState::Blocked), sw);
            }
        },
    }
}

proof fn lemma_receive_keeps(
    a: RunQueue,
    b: RunQueue,
    cpu: int,
    filter: i32,
    out: u64,
    r: ReceiveOutcome,
)
    requires
        a.wf(),
        b.wf(),
        0 <= cpu < MAX_CPUS,
        a.sched.slots()[a.cpus.current(cpu)] is Some,
        a.sched.slots().len() == MAX_TASKS,
        a.sched.woken_slot() matches Some(w) ==> w < MAX_TASKS,
        receive_post(a, b, cpu, filter, out, r),
    ensures
        same_tasks(a.sched.slots(), b.sched.slots()),
        b.sched.next() == a.sched.next(),
        b.sched.woken_slot() matches Some(w) ==> w < MAX_TASKS,
{
    let s = a.sched.slots();
    let cur = a.cpus.current(cpu);
    assert(cur < 32);
    match r {
        ReceiveOutcome::Received(m, mask) => {
            if exists|i: int| #[trigger] took_staged(a, b, cpu, filter, m, mask, i) {
                let i = choose|i: int| #[trigger] took_staged(a, b, cpu, filter, m, mask, i);
                assert(staged_match(s, s[cur]->0.id.0, filter, i));
            } else {
                let (k, t1, s2, w) = choose|k: int, t1: Task, s2: Slots, w: Option<int>| #[trigger]
                    took_pending(a, b, cpu, filter, m, mask, k, t1, s2, w);
                let s1 = s.update(cur, Some(t1));
                assert(same_tasks(s, s1));
                let src = TaskId(s[cur]->0.pending_senders@[k]->0.src);
                if exists_id(s1, src) {
                    let i = choose|i: int| #[trigger]
                        first_id(s1, i, src) && if in_state(s1, i, TaskState::Zombie) {
                            s2 == s1 && w is None
                        } else {
                            s2 == with_state(s1, i, TaskState::Ready) && w == Some(i)
                        };
                    assert(has_id(s1, i, src));
                    lemma_with_state(s1, i, TaskState::Ready);
                }
                lemma_same_trans(s, s1, s2);
            }
        },
        ReceiveOutcome::Blocked(sw) => {
            let t = s.update(
                cur,
                Some(
                    Task {
                        recv_blocked: true,
                        recv_filter: filter,
                        recv_buf: out,
                        state: TaskState::Blocked,
                        ..s[cur]->0
                    },
                ),
            );
            lemma_blocked(a, b, cpu, t, sw);
        },
    }
}

proof fn lemma_handed(
    a: RunQueue,
    b: RunQueue,
    cpu: int,
    target: Option<int>,
    sw: Option<Switch>,
)
    requires
        a.wf(),
        b.wf(),
        0 <= cpu < MAX_CPUS,
        a.sched.slots().len() == MAX_TASKS,
        handed(a, b, cpu, target, sw),
    ensures
        same_tasks(a.sched.slots(), b.sched.slots()),
        b.sched.next() == a.sched.next(),
{
    let s = a.sched.slots();
    let cur = a.cpus.current(cpu);
    assert(0 <= cur < 32);
    if let Some(next) = target {
        assert(b.cpus.current(cpu) == next);
        let s1 = with_state(s, cur, TaskState::Ready);
        lemma_with_state(s, cur, TaskState::Ready);
        lemma_with_state(s1, next, TaskState::Running);
        lemma_same_trans(s, s1, with_state(s1, next, TaskState::Running));
    }
}

/// A call that is answered at once.
fn answer(r: i32, effect: Effect) -> (o: Outcome)
    ensures
        replies(o, r),
        o.effect == effect,
{
    Outcome { reply: Reply::Value(to_register(r)), effect, switch: None }
}

impl Kernel {
    fn serve_receive(&mut self, cpu: usize, bins: &[ServerImage], call: Call, inp: Inputs) -> (o:
        Outcome)
        requires
            old(self).host.wf(),
            old(self).has_caller(cpu as int),
            call is Receive,
        ensures
            final(self).host.wf(),
            served(*old(self), *final(self), cpu as int, bins@, call, inp, o),
    {
        let ghost pre = *self;
        let (filter, out): (i32, u64) = match call {
            Call::Receive { filter, out } => (filter, out),
            _ => (0, 0),
        };
        let r = sys_receive(&mut self.host.q, cpu, filter, out);
        assert(receive_post(pre.host.q, self.host.q, cpu as int, filter, out, r));
        proof {
            pre.host.q.sched.lemma_len();
            lemma_receive_keeps(pre.host.q, self.host.q, cpu as int, filter, out, r);
            lemma_same_tasks(pre.host, self.host);
        }
        match r {
            ReceiveOutcome::Received(m, mask) => answer(m.src as i32, Effect::Store(out, m, mask)),
            ReceiveOutcome::Blocked(sw) => Outcome {
                reply: Reply::SenderOf(out),
                effect: Effect::Nothing,
                switch: Some(sw),
            },
        }
    }

    fn serve_task(&mut self, cpu: usize, bins: &[ServerImage], call: Call, inp: Inputs) -> (o:
        Outcome)
        requires
            old(self).host.wf(),
            old(self).has_caller(cpu as int),
            call_ok(*old(self), cpu as int, bins@, call, inp),
            call is Spawn || call is Exec || call is Who || call is ExitTask,
        ensures
            final(self).host.wf(),
            served(*old(self), *final(self), cpu as int, bins@, call, inp, o),
    {
        let ghost pre = *self;
        let r: i32 = match call {
            Call::Spawn { .. } => sys_spawn(&mut self.host, bins, inp.mem),
            Call::Exec { .. } => sys_exec(&mut self.host, cpu, bins, inp.mem),
            Call::ExitTask { pid } => sys_exit_task(&mut self.host, cpu, pid),
            _ => sys_who(&self.host, inp.mem),
        };
        assert(call is Spawn ==> sys_spawn_post(pre.host, bins@, inp.mem@, self.host, r));
        assert(call is Exec ==> exec_post(pre.host, cpu as int, bins@, inp.mem@, self.host, r));
        answer(r, Effect::Nothing)
    }

    fn serve_memory(&mut self, cpu: usize, bins: &[ServerImage], call: Call, inp: Inputs) -> (o:
        Outcome)
        requires
            old(self).host.wf(),
            old(self).has_caller(cpu as int),
            call_ok(*old(self), cpu as int, bins@, call, inp),
            call is AllocFrames || call is FreeFrames || call is ShareFrames || call is UnshareFrames
                || call is MapDevice,
        ensures
            final(self).host.wf(),
            served(*old(self), *final(self), cpu as int, bins@, call, inp, o),
    {
        let ghost pre = *self;
        match call {
            Call::AllocFrames { pages } => {
                let base: u64 = sys_alloc_frames(&mut self.host, cpu, pages);
                Outcome { reply: Reply::Value(base), effect: Effect::FlushTlb, switch: None }
            },
            Call::FreeFrames { base, pages } => {
                let r: i32 = sys_free_frames(&mut self.host, cpu, base, pages);
                assert(free_frames_post(pre.host, self.host, cpu as int, base, pages, r));
                answer(r, Effect::FlushTlb)
            },
            Call::ShareFrames { base, pages, task } => {
                let r: i32 = sys_share_frames(&mut self.host, base, pages, task);
                assert(share_post(
                    pre.host,
                    self.host,
                    base,
                    pages,
                    TaskId(task),
                    FLAGS_USER_RWX,
                    r,
                ));
                answer(r, Effect::FlushTlb)
            },
            Call::UnshareFrames { base, pages, task } => {
                let r: i32 = sys_unshare_frames(&mut self.host, base, pages, task);
                assert(share_post(
                    pre.host,
                    self.host,
                    base,
                    pages,
                    TaskId(task),
                    FLAGS_KERNEL_RWX,
                    r,
                ));
                answer(r, Effect::FlushTlb)
            },
            Call::MapDevice { phys, count } => {
                let r: i32 = sys_map_device(&mut self.host, cpu, phys, count);
                assert(map_device_post(pre.host, self.host, cpu as int, phys, count, r));
                answer(r, Effect::FlushTlb)
            },
            _ => answer(0, Effect::Nothing),
        }
    }

    fn serve_irq(&mut self, cpu: usize, bins: &[ServerImage], call: Call, inp: Inputs) -> (o:
        Outcome)
        requires
            old(self).host.wf(),
            old(self).has_caller(cpu as int),
            call is WaitIrq || call is IrqPending,
        ensures
            final(self).host.wf(),
            served(*old(self), *final(self), cpu as int, bins@, call, inp, o),
    {
        let ghost pre = *self;
        match call {
            Call::IrqPending { irq } => {
                let (r, w) = sys_irq_pending(&mut self.irqs, cpu, irq, inp.igroup);
                answer(r, Effect::Registers(w))
            },
            Call::WaitIrq { irq } => {
                let out = sys_wait_irq(&mut self.host.q, &mut self.irqs, cpu, irq, inp.igroup);
                proof {
                    pre.host.q.sched.lemma_len();
                    assert(pre.host.q.cpus.current(cpu as int) < 32);
                    lemma_same_tasks(pre.host, self.host);
                }
                match out {
                    IrqWait::Refused => answer(E_BAD_IRQ, Effect::Nothing),
                    IrqWait::Delivered(w) => answer(0, Effect::Registers(w)),
                    IrqWait::Sleep(w) => Outcome {
                        reply: Reply::OnIrq(irq),
                        effect: Effect::Registers(w),
                        switch: None,
                    },
                }
            },
            _ => answer(0, Effect::Nothing),
        }
    }

    fn serve_other(&mut self, cpu: usize, bins: &[ServerImage], call: Call, inp: Inputs) -> (o:
        Outcome)
        requires
            old(self).host.wf(),
            old(self).has_caller(cpu as int),
            call is Exit || call is Sleep || call is Log || call is Yield || call is Unknown,
        ensures
            final(self).host.wf(),
            served(*old(self), *final(self), cpu as int, bins@, call, inp, o),
    {
        let ghost pre = *self;
        proof {
            pre.host.q.sched.lemma_len();
            assert(0 <= pre.host.q.cpus.current(cpu as int) < 32);
        }
        match call {
            Call::Exit => {
                let sw = self.host.q.exit_current(cpu);
                proof {
                    let s = pre.host.q.sched.slots();
                    let cur = pre.host.q.cpus.current(cpu as int);
                    lemma_with_state(s, cur, TaskState::Zombie);
                    lemma_blocked(
                        pre.host.q,
                        self.host.q,
                        cpu as int,
                        with_state(s, cur, TaskState::Zombie),
                        sw,
                    );
                    lemma_same_tasks(pre.host, self.host);
                }
                Outcome { reply: Reply::Never, effect: Effect::Nothing, switch: Some(sw) }
            },
            Call::Sleep { ms } => {
                let sw = sys_sleep(&mut self.host.q, cpu, ms, inp.now);
                proof {
                    let s = pre.host.q.sched.slots();
                    let cur = pre.host.q.cpus.current(cpu as int);
                    let t = s.update(
                        cur,
                        Some(
                            Task {
                                sleep_deadline: deadline(inp.now, ms) as u64,
                                state: TaskState::Blocked,
                                ..s[cur]->0
                            },
                        ),
                    );
                    lemma_blocked(pre.host.q, self.host.q, cpu as int, t, sw);
                    lemma_same_tasks(pre.host, self.host);
                }
                Outcome { reply: Reply::WhenAwake, effect: Effect::Nothing, switch: Some(sw) }
            },
            Call::Log { level, .. } => {
                let (l, text) = sys_log(&self.host.q, cpu, level, inp.mem);
                answer(0, Effect::Log(l, text))
            },
            Call::Yield => {
                let sw = self.host.q.yield_cpu(cpu);
                proof {
                    let s = pre.host.q.sched.slots();
                    let cur = pre.host.q.cpus.current(cpu as int);
                    let target = preempt_target(s, cpu as int, cur, true);
                    lemma_handed(pre.host.q, self.host.q, cpu as int, target, sw);
                    lemma_same_tasks(pre.host, self.host);
                }
                Outcome { reply: Reply::Value(0), effect: Effect::Nothing, switch: sw }
            },
            Call::Unknown { nr } => {
                let (level, text) = unknown_call(&self.host.q, cpu, nr);
                answer(0, Effect::Log(level, text))
            },
            _ => answer(0, Effect::Nothing),
        }
    }

    fn serve(&mut self, cpu: usize, bins: &[ServerImage], call: Call, inp: Inputs) -> (o: Outcome)
        requires
            old(self).host.wf(),
            old(self).has_caller(cpu as int),
            call_ok(*old(self), cpu as int, bins@, call, inp),
        ensures
            final(self).host.wf(),
            served(*old(self), *final(self), cpu as int, bins@, call, inp, o),
    {
        match call {
            Call::Send { .. } => self.serve_send(cpu, bins, call, inp),
            Call::Receive { .. } => self.serve_receive(cpu, bins, call, inp),
            Call::Spawn { .. } | Call::Exec { .. } | Call::Who { .. } | Call::ExitTask { .. } => {
                self.serve_task(cpu, bins, call, inp)
            },
            Call::AllocFrames { .. }
            | Call::FreeFrames { .. }
            | Call::ShareFrames { .. }
            | Call::UnshareFrames { .. }
            | Call::MapDevice { .. } => self.serve_memory(cpu, bins, call, inp),
            Call::WaitIrq { .. } | Call::IrqPending { .. } => self.serve_irq(cpu, bins, call, inp),
            _ => self.serve_other(cpu, bins, call, inp),
        }
    }

    /// Serve the system call `nr` of the task that `cpu` runs.
    pub fn tanix_syscall(
        &mut self,
        cpu: usize,
        bins: &[ServerImage],
        nr: u64,
        a0: u64,
        a1: u64,
        a2: u64,
        inp: Inputs,
    ) -> (o: Outcome)
        requires
            old(self).host.wf(),
            old(self).has_caller(cpu as int),
            call_ok(*old(self), cpu as int, bins@, call_of(nr, a0, a1, a2), inp),
        ensures
            final(self).host.wf(),
            syscall_post(
                *old(self),
                *final(self),
                cpu as int,
                bins@,
                call_of(nr, a0, a1, a2),
                inp,
                o,
            ),
    {
        let ghost pre = *self;
        let call = decode(nr, a0, a1, a2);
        let mut o = self.serve(cpu, bins, call, inp);
        let ghost mid = *self;
        let ghost sw = o.switch;
        assert(served(pre, mid, cpu as int, bins@, call, inp, o));
        let no_tail: bool = match call {
            Call::WaitIrq { .. } | Call::Yield => true,
            _ => o.switch.is_some(),
        };
        if !no_tail {
            o.switch = self.host.q.reschedule(cpu);
            proof {
                mid.host.q.sched.lemma_len();
                let s = mid.host.q.sched.slots();
                let cur = mid.host.q.cpus.current(cpu as int);
                let target = wake_target(s, cpu as int, cur, mid.host.q.sched.woken_slot());
                lemma_handed(mid.host.q, self.host.q, cpu as int, target, o.switch);
                lemma_same_tasks(mid.host, self.host);
            }
        }
        assert(ended(mid, *self, cpu as int, call, sw, o.switch));
        assert(served(pre, mid, cpu as int, bins@, call, inp, (Outcome { switch: sw, ..o })));
        o
    }
}

/// A sleeping task (the boot task in slot 0 never is one) stays blocked until its deadline and
/// is woken by the first tick from then on.
pub proof fn law_sleep_ends_at_deadline(
    a: RunQueue,
    b: RunQueue,
    cpu: int,
    ms: u32,
    now: u64,
    sw: Switch,
    tick: u64,
)
    requires
        a.wf(),
        0 <= cpu < MAX_CPUS,
        a.sched.slots()[a.cpus.current(cpu)] is Some,
        sleep_post(a, b, cpu, ms, now, sw),
        sw.to != sw.from,
        sw.from != 0,
    ensures
        in_state(
            awake(b.sched.slots(), tick),
            sw.from as int,
            if tick >= deadline(now, ms) {
                TaskState::Ready
            } else {
                TaskState::Blocked
            },
        ),
{
    a.sched.lemma_len();
    b.sched.lemma_len();
    assert(0 <= a.cpus.current(cpu) < 32);
}

} // verus!
