//! What system calls promise their callers, told by numbers, registers and task fields.

use vstd::prelude::*;
use vstd::utf8::{decode_utf8, encode_utf8, valid_utf8};
use crate::arch::aarch64::uart::LogLevel;
use crate::arch::aarch64::RegWrite;
use crate::ipc::laws::{caller, found_at, law_send_meets_waiting_receiver};
use crate::ipc::message::{receive_post, send_post, ReceiveOutcome, SendOutcome};
use crate::ipc::process::{
    exec_post, kill_post, name_arg, replaced, spawn_number, sys_spawn_post, who,
};
use crate::ipc::syscall::{
    call_of, ended, exited, is_enable, replies, rescheduled, served, sleep_post, syscall_post,
    waited, yielded, Call, Effect, Inputs, Kernel, Outcome, Reply,
};
use crate::irq::{marked, PendingIrqs};
use crate::numbers::decimal;
use crate::sched::laws::{home, law_woken_task_preempts};
use crate::sched::run::{awake, RunQueue, Switch};
use crate::sched::task::{exists_id, first_id, first_named, has_id, named, Slots};
use crate::sched::{TaskId, TaskState};
use crate::server::{Host, ServerImage};
use crate::text::{lemma_until_nul, name_text, nul_at};

verus! {

/// A task that sleeps for `ms` ticks, at least one and at most 60000, is Blocked at every tick
/// before that many have passed, and Ready at the first one from then on (the boot task in slot
/// 0 never sleeps).
#[verifier::rlimit(50)]
pub proof fn law_sleep_lasts(
    a: RunQueue,
    b: RunQueue,
    cpu: int,
    ms: u32,
    now: u64,
    sw: Switch,
    tick: u64,
)
    requires
        a.wf(),
        0 <= cpu < 4,
        a.sched.slots()[a.cpus.current(cpu)] is Some,
        sleep_post(a, b, cpu, ms, now, sw),
        sw.to != sw.from,
        sw.from != 0,
        now + ms <= u64::MAX,
        now + 60000 <= u64::MAX,
    ensures
        sw.from == a.cpus.current(cpu),
        b.cpus.current(cpu) == sw.to,
        ({
            let t = awake(b.sched.slots(), tick)[sw.from as int];
            &&& t is Some
            &&& 1 <= ms <= 60000 ==> t->0.state == if tick < now + ms {
                TaskState::Blocked
            } else {
                TaskState::Ready
            }
            &&& ms == 0 ==> t->0.state == if tick < now + 1 {
                TaskState::Blocked
            } else {
                TaskState::Ready
            }
            &&& ms > 60000 ==> t->0.state == if tick < now + 60000 {
                TaskState::Blocked
            } else {
                TaskState::Ready
            }
        }),
{
    a.sched.lemma_len();
    b.sched.lemma_len();
    assert(0 <= a.cpus.current(cpu) < 32);
    assert(b.cpus.current(cpu) == sw.to);
}

/// Of two sleeps that begin at the same tick the longer one does not end earlier.
pub proof fn law_longer_sleep_ends_later(
    a: RunQueue,
    b: RunQueue,
    c: RunQueue,
    cpu: int,
    ms: u32,
    longer: u32,
    now: u64,
    sw: Switch,
    sx: Switch,
)
    requires
        a.wf(),
        0 <= cpu < 4,
        a.sched.slots()[a.cpus.current(cpu)] is Some,
        sleep_post(a, b, cpu, ms, now, sw),
        sleep_post(a, c, cpu, longer, now, sx),
        ms <= longer,
    ensures
        b.sched.slots()[sw.from as int]->0.sleep_deadline
            <= c.sched.slots()[sx.from as int]->0.sleep_deadline,
        b.sched.slots()[sw.from as int]->0.sleep_deadline > now || now == u64::MAX,
        ms < longer <= 60000 && now + longer <= u64::MAX && 0 < ms
            ==> c.sched.slots()[sx.from as int]->0.sleep_deadline
            - b.sched.slots()[sw.from as int]->0.sleep_deadline == longer - ms,
{
    a.sched.lemma_len();
    assert(0 <= a.cpus.current(cpu) < 32);
}

/// The numbers of the calls, and which register holds which argument; narrow arguments are the
/// low half of their register.  From 17 on there is no call.
pub proof fn law_call_numbers(nr: u64, x: u64, y: u64, z: u64)
    ensures
        ({
            let c = call_of(nr, x, y, z);
            &&& nr == 0 ==> c == (Call::Send { dst: x as u32, msg: y })
            &&& nr == 1 ==> c == (Call::Receive { filter: x as i32, out: y })
            &&& nr == 2 ==> c == (Call::Spawn { name: x })
            &&& nr == 3 ==> c == (Call::Who { name: x })
            &&& nr == 4 ==> c == (Call::ExitTask { pid: x as u32 })
            &&& nr == 5 ==> c == Call::Exit
            &&& nr == 6 ==> c == (Call::AllocFrames { pages: x as u32 })
            &&& nr == 7 ==> c == (Call::FreeFrames { base: x, pages: y as u32 })
            &&& nr == 8 ==> c == (Call::Log { level: x as u32, msg: y })
            &&& nr == 9 ==> c == (Call::WaitIrq { irq: x as u32 })
            &&& nr == 10 ==> c == Call::Yield
            &&& nr == 11 ==> c == (Call::ShareFrames { base: x, pages: y as u32, task: z as u32 })
            &&& nr == 12 ==> c == (Call::UnshareFrames { base: x, pages: y as u32, task: z as u32 })
            &&& nr == 13 ==> c == (Call::Sleep { ms: x as u32 })
            &&& nr == 14 ==> c == (Call::Exec { name: x })
            &&& nr == 15 ==> c == (Call::MapDevice { phys: x, count: y })
            &&& nr == 16 ==> c == (Call::IrqPending { irq: x as u32 })
            &&& nr > 16 ==> c == (Call::Unknown { nr })
        }),
{
}

/// A result is returned as it is where it is not negative, and in two's complement otherwise.
pub proof fn law_results_fill_the_register(o: Outcome, r: i32)
    requires
        replies(o, r),
    ensures
        o.reply matches Reply::Value(v) && v == if r >= 0 {
            r as int
        } else {
            0x1_0000_0000_0000_0000 + r
        },
        o.switch is None,
{
}

/// A call that did not block, be it what it may but a wait or a yield, ends with a chance for
/// the task that it woke; one that blocked, a wait and a yield end as they are.
pub proof fn law_calls_end_with_reschedule(
    pre: Kernel,
    post: Kernel,
    cpu: int,
    bins: Seq<ServerImage>,
    call: Call,
    inp: Inputs,
    o: Outcome,
)
    requires
        syscall_post(pre, post, cpu, bins, call, inp, o),
    ensures
        exists|mid: Kernel, sw: Option<Switch>|
            {
                &&& #[trigger] served(pre, mid, cpu, bins, call, inp, Outcome { switch: sw, ..o })
                &&& sw is Some || call is WaitIrq || call is Yield ==> post == mid && o.switch == sw
                &&& sw is None && call !is WaitIrq && call !is Yield ==> rescheduled(
                    mid.host.q,
                    post.host.q,
                    cpu,
                    o.switch,
                ) && post.irqs == mid.irqs && post.host == (Host { q: post.host.q, ..mid.host })
            },
{
    let (mid, sw) = choose|mid: Kernel, sw: Option<Switch>|
        {
            &&& #[trigger] served(pre, mid, cpu, bins, call, inp, Outcome { switch: sw, ..o })
            &&& #[trigger] ended(mid, post, cpu, call, sw, o.switch)
        };
    assert(served(pre, mid, cpu, bins, call, inp, Outcome { switch: sw, ..o }));
}

/// A send to a task that waits for it and has a higher priority hands the message and the CPU
/// over: the caller gets 0 once it runs again.
#[verifier::rlimit(50)]
pub proof fn law_send_hands_over(
    pre: Kernel,
    post: Kernel,
    cpu: int,
    bins: Seq<ServerImage>,
    dst: u32,
    msg: u64,
    inp: Inputs,
    o: Outcome,
    i: int,
)
    requires
        pre.host.q.wf(),
        0 <= cpu < 4,
        pre.host.q.sched.slots()[pre.host.q.cpus.current(cpu)] is Some,
        pre.host.q.cpus.current(cpu) != home(cpu),
        dst != caller(pre.host.q, cpu).id.0,
        found_at(pre.host.q.sched.slots(), i, dst),
        i != pre.host.q.cpus.current(cpu),
        pre.host.q.sched.slots()[i]->0.recv_blocked,
        pre.host.q.sched.slots()[i]->0.recv_filter == -1,
        pre.host.q.sched.slots()[i]->0.priority < caller(pre.host.q, cpu).priority,
        syscall_post(pre, post, cpu, bins, Call::Send { dst, msg }, inp, o),
    ensures
        o.reply == Reply::Value(0),
        o.switch matches Some(sw) && sw.from == pre.host.q.cpus.current(cpu) && sw.to == i,
        o.effect matches Effect::Deliver(d, mask) && d.msg.src == caller(pre.host.q, cpu).id.0
            && d.msg.mtype == inp.msg.mtype && d.msg.data == inp.msg.data && d.buf
            == pre.host.q.sched.slots()[i]->0.recv_buf,
        post.host.q.cpus.current(cpu) == i,
        post.host.q.sched.slots()[i]->0.state == TaskState::Running,
        caller(pre.host.q, cpu).id == post.host.q.sched.slots()[pre.host.q.cpus.current(
            cpu,
        )]->0.id,
        post.host.q.sched.slots()[pre.host.q.cpus.current(cpu)]->0.state == TaskState::Ready,
{
    let q = pre.host.q;
    let call = Call::Send { dst, msg };
    q.sched.lemma_len();
    assert(0 <= q.cpus.current(cpu) < 32);
    let (mid, sw) = choose|mid: Kernel, sw: Option<Switch>|
        {
            &&& #[trigger] served(pre, mid, cpu, bins, call, inp, Outcome { switch: sw, ..o })
            &&& #[trigger] ended(mid, post, cpu, call, sw, o.switch)
        };
    let r = choose|r: SendOutcome| #[trigger]
        send_post(q, mid.host.q, cpu, dst, inp.msg, r) && match r {
            SendOutcome::Refused(e) => replies(Outcome { switch: sw, ..o }, e) && o.effect
                == Effect::Nothing,
            SendOutcome::Delivered(d, mask) => replies(Outcome { switch: sw, ..o }, 0) && o.effect
                == Effect::Deliver(d, mask),
            SendOutcome::Blocked(s) => o.reply == Reply::Value(0) && sw == Some(s) && o.effect
                == Effect::Nothing,
        };
    law_send_meets_waiting_receiver(q, mid.host.q, cpu, dst, inp.msg, r, i);
    assert(r is Delivered);
    assert(mid.host.q.wf()) by {
        assert forall|c: int| 0 <= c < 4 implies 0 <= #[trigger] mid.host.q.cpus.current(c)
            < 32 by {}
    }
    law_woken_task_preempts(mid.host.q, post.host.q, cpu, o.switch, i as usize);
}

/// A receive that found its message returns the sender's id and stores the message in the
/// caller's buffer; one that blocked returns the sender of what is delivered later.
pub proof fn law_receive_returns_sender(
    pre: Kernel,
    post: Kernel,
    cpu: int,
    bins: Seq<ServerImage>,
    filter: i32,
    out: u64,
    inp: Inputs,
    o: Outcome,
)
    requires
        syscall_post(pre, post, cpu, bins, Call::Receive { filter, out }, inp, o),
    ensures
        exists|mid: RunQueue, r: ReceiveOutcome| #[trigger]
            receive_post(pre.host.q, mid, cpu, filter, out, r) && match r {
                ReceiveOutcome::Received(m, mask) => {
                    &&& o.effect == Effect::Store(out, m, mask)
                    &&& m.src < 0x8000_0000 ==> o.reply == Reply::Value(m.src as u64)
                },
                ReceiveOutcome::Blocked(sw) => o.reply == Reply::SenderOf(out) && o.switch == Some(
                    sw,
                ) && o.effect == Effect::Nothing && post.host.q == mid,
            },
{
    let q = pre.host.q;
    let call = Call::Receive { filter, out };
    let (mid, sw) = choose|mid: Kernel, sw: Option<Switch>|
        {
            &&& #[trigger] served(pre, mid, cpu, bins, call, inp, Outcome { switch: sw, ..o })
            &&& #[trigger] ended(mid, post, cpu, call, sw, o.switch)
        };
    let r = choose|r: ReceiveOutcome| #[trigger]
        receive_post(q, mid.host.q, cpu, filter, out, r) && match r {
            ReceiveOutcome::Received(m, mask) => replies(
                Outcome { switch: sw, ..o },
                m.src as i32,
            ) && o.effect == Effect::Store(out, m, mask),
            ReceiveOutcome::Blocked(s) => o.reply == Reply::SenderOf(out) && sw == Some(s)
                && o.effect == Effect::Nothing,
        };
    assert(receive_post(q, mid.host.q, cpu, filter, out, r));
}

/// Enabling an interrupt on a CPU puts its bit into a group register and writes it to a
/// set-enable register: those of the CPU's redistributor for interrupts below 32, else words of
/// the distributor, one bit per interrupt.
pub proof fn law_enable_writes(cpu: int, irq: u32, igroup: u32, w: Seq<RegWrite>)
    requires
        is_enable(cpu, irq, igroup, w),
    ensures
        w.len() == 2,
        w[1].val == 1u32 << (irq % 32),
        w[0].val == igroup | w[1].val,
        irq < 32 ==> w[0].addr == 0x080A_0000 + 0x2_0000 * cpu + 0x1_0080 && w[1].addr
            == 0x080A_0000 + 0x2_0000 * cpu + 0x1_0100,
        irq >= 32 ==> w[0].addr == 0x0800_0080 + 4 * (irq / 32) && w[1].addr == 0x0800_0100 + 4 * (
        irq / 32),
{
    assert(cpu * 0x2_0000 == 0x2_0000 * cpu) by (nonlinear_arith);
}

/// Waiting for an interrupt that no device has (below 16 or above 1019) is refused with -10.
/// Any other is enabled; if it was recorded, the wait is over and the record gone, else the
/// caller waits for it.
#[verifier::rlimit(50)]
pub proof fn law_wait_for_interrupt(
    pre: Kernel,
    mid: Kernel,
    cpu: int,
    irq: u32,
    igroup: u32,
    o: Outcome,
)
    requires
        pre.host.q.wf(),
        0 <= cpu < 4,
        pre.host.q.sched.slots()[pre.host.q.cpus.current(cpu)] is Some,
        waited(pre, mid, cpu, irq, igroup, o),
    ensures
        ({
            let s = pre.host.q.sched.slots();
            let cur = pre.host.q.cpus.current(cpu);
            let u = mid.host.q.sched.slots();
            &&& irq < 16 || irq > 1019 ==> o.reply == Reply::Value(0xFFFF_FFFF_FFFF_FFF6) && u == s
                && mid.irqs == pre.irqs
            &&& 16 <= irq <= 1019 ==> {
                &&& o.effect matches Effect::Registers(w) && w@.len() == 2 && w@[1].val == 1u32 << (
                irq % 32)
                &&& irq < 96 && pre.irqs.bits@[irq as int] ==> o.reply == Reply::Value(0) && u == s
                &&& irq >= 96 || !pre.irqs.bits@[irq as int] ==> {
                    &&& o.reply == Reply::OnIrq(irq)
                    &&& u[cur]->0.irq_wait == Some(irq)
                    &&& forall|i: int| 0 <= i < 32 && i != cur ==> #[trigger] u[i] == s[i]
                }
                &&& irq < 96 ==> !mid.irqs.bits@[irq as int]
                &&& forall|i: int|
                    0 <= i < 96 && i != irq ==> #[trigger] mid.irqs.bits@[i] == pre.irqs.bits@[i]
            }
        }),
{
    pre.host.q.sched.lemma_len();
    assert(0 <= pre.host.q.cpus.current(cpu) < 32);
    lemma_marked(pre.irqs, mid.irqs, irq);
}

proof fn lemma_marked(a: PendingIrqs, b: PendingIrqs, irq: u32)
    ensures
        marked(a, b, irq, false) ==> (irq < 96 ==> !b.bits@[irq as int]),
        marked(a, b, irq, false) ==> forall|i: int|
            0 <= i < 96 && i != irq ==> #[trigger] b.bits@[i] == a.bits@[i],
{
    if marked(a, b, irq, false) {
        assert(irq < 96 ==> b.has(irq as int) == false);
        assert forall|i: int| 0 <= i < 96 && i != irq implies #[trigger] b.bits@[i] == a.bits@[i] by {
            assert(b.has(i) == a.has(i));
        }
    }
}

/// Recording an interrupt and clearing it concern that interrupt alone, one of the first 96.
pub proof fn law_interrupt_records(a: PendingIrqs, b: PendingIrqs, irq: u32, on: bool, i: int)
    requires
        marked(a, b, irq, on),
        0 <= i < 96,
    ensures
        i == irq ==> b.bits@[i] == on,
        i != irq ==> b.bits@[i] == a.bits@[i],
{
    assert(b.has(i) == if i == irq {
        on
    } else {
        a.has(i)
    });
}

/// Asking for an interrupt without waiting: -10 for one that no device has, else 1 if it was
/// recorded and 0 if not; the record is gone.
pub proof fn law_poll_interrupt(
    pre: Kernel,
    mid: Kernel,
    cpu: int,
    bins: Seq<ServerImage>,
    irq: u32,
    inp: Inputs,
    o: Outcome,
)
    requires
        served(pre, mid, cpu, bins, Call::IrqPending { irq }, inp, o),
    ensures
        irq < 16 || irq > 1019 ==> o.reply == Reply::Value(0xFFFF_FFFF_FFFF_FFF6) && mid.irqs
            == pre.irqs,
        16 <= irq <= 1019 ==> {
            &&& o.reply == Reply::Value(
                if irq < 96 && pre.irqs.bits@[irq as int] {
                    1
                } else {
                    0
                },
            )
            &&& irq < 96 ==> !mid.irqs.bits@[irq as int]
            &&& forall|i: int|
                0 <= i < 96 && i != irq ==> #[trigger] mid.irqs.bits@[i] == pre.irqs.bits@[i]
        },
        mid.host == pre.host,
{
    lemma_marked(pre.irqs, mid.irqs, irq);
}

/// What a task logs: its name in brackets, a blank, and the text up to the first NUL byte, at
/// most 256 bytes, or `?` where that is not UTF-8.  Level 0 is information, 1 a warning, all
/// else an error.
pub proof fn law_log_line(
    pre: Kernel,
    mid: Kernel,
    cpu: int,
    bins: Seq<ServerImage>,
    level: u32,
    msg: u64,
    inp: Inputs,
    o: Outcome,
    n: int,
)
    requires
        served(pre, mid, cpu, bins, Call::Log { level, msg }, inp, o),
        pre.host.q.sched.slots()[pre.host.q.cpus.current(cpu)] is Some,
        0 <= n <= inp.mem@.len(),
        n <= 256,
        forall|k: int| 0 <= k < n ==> #[trigger] inp.mem@[k] != 0,
        n == inp.mem@.len() || n == 256 || inp.mem@[n] == 0,
    ensures
        mid == pre,
        o.reply == Reply::Value(0),
        o.effect matches Effect::Log(l, text) && {
            let name = encode_utf8(name_text(caller(pre.host.q, cpu).name@));
            let head = inp.mem@.take(n);
            &&& level == 0 ==> l == LogLevel::Info
            &&& level == 1 ==> l == LogLevel::Warn
            &&& level > 1 ==> l == LogLevel::Error
            &&& text@ == encode_utf8("["@) + name + encode_utf8("] "@) + encode_utf8(
                if valid_utf8(head) {
                    decode_utf8(head)
                } else {
                    "?"@
                },
            )
        },
{
    let m = inp.mem@;
    let w = if m.len() > 256 {
        m.take(256)
    } else {
        m
    };
    assert(nul_at(w, n));
    lemma_until_nul(w, n);
    assert(w.take(n) =~= m.take(n));
}

/// A call that does not exist returns 0 and is logged as an error, with the task and the
/// number.
pub proof fn law_unknown_call_is_logged(
    pre: Kernel,
    mid: Kernel,
    cpu: int,
    bins: Seq<ServerImage>,
    nr: u64,
    inp: Inputs,
    o: Outcome,
)
    requires
        served(pre, mid, cpu, bins, Call::Unknown { nr }, inp, o),
        pre.host.q.sched.slots()[pre.host.q.cpus.current(cpu)] is Some,
    ensures
        mid == pre,
        o.reply == Reply::Value(0),
        o.effect matches Effect::Log(l, text) && l == LogLevel::Error && text@ == encode_utf8(
            "syscall: task '"@,
        ) + encode_utf8(name_text(caller(pre.host.q, cpu).name@)) + encode_utf8(
            "' invoked unknown syscall "@,
        ) + decimal(nr as nat),
{
}

/// An exit never returns, a yield returns 0, and a sleep returns once it is over.
pub proof fn law_replies_of_calls_that_give_up_the_cpu(
    pre: Kernel,
    post: Kernel,
    cpu: int,
    bins: Seq<ServerImage>,
    call: Call,
    inp: Inputs,
    o: Outcome,
)
    requires
        syscall_post(pre, post, cpu, bins, call, inp, o),
    ensures
        call is Exit ==> o.reply == Reply::Never && o.switch is Some && exited(
            pre.host.q,
            post.host.q,
            cpu,
            o.switch->0,
        ),
        call is Yield ==> o.reply == Reply::Value(0) && yielded(
            pre.host.q,
            post.host.q,
            cpu,
            o.switch,
        ),
        call matches Call::Sleep { ms } ==> o.reply == Reply::WhenAwake && o.switch is Some
            && sleep_post(pre.host.q, post.host.q, cpu, ms, inp.now, o.switch->0),
        call is Exit || call is Yield || call is Sleep ==> o.effect == Effect::Nothing && post.irqs
            == pre.irqs && post.host.ram == pre.host.ram && post.host.frames == pre.host.frames
            && post.host.space == pre.host.space,
{
}

/// A name argument is what stands in front of its NUL byte, which has to come within 16 bytes;
/// it has to be UTF-8.
pub proof fn law_name_argument(mem: Seq<u8>, n: int)
    requires
        0 <= n <= mem.len(),
        forall|k: int| 0 <= k < n ==> #[trigger] mem[k] != 0,
        n == mem.len() || mem[n] == 0,
    ensures
        n < mem.len() && n < 16 && valid_utf8(mem.take(n)) ==> name_arg(mem) == Some(
            decode_utf8(mem.take(n)),
        ),
        n == mem.len() || n >= 16 || !valid_utf8(mem.take(n)) ==> name_arg(mem) is None,
{
    assert(nul_at(mem, n));
    lemma_until_nul(mem, n);
}

/// Asking for a name returns the id of the first task that bears it and is not a zombie, and
/// -1 where there is none.
pub proof fn law_who_finds_the_living(s: Slots, name: Seq<char>, r: i32, i: int)
    requires
        s.len() == 32,
        who(s, name, r),
        0 <= i < 32,
        s[i] is Some,
        name_text(s[i]->0.name@) == name,
        s[i]->0.state != TaskState::Zombie,
        forall|k: int|
            0 <= k < i && (#[trigger] s[k]) is Some && s[k]->0.state != TaskState::Zombie
                ==> name_text(s[k]->0.name@) != name,
    ensures
        r == s[i]->0.id.0 as i32,
{
    assert(named(s, i, name));
    let j = choose|j: int| #[trigger] first_named(s, j, name) && r == s[j]->0.id.0 as i32;
    assert(named(s, j, name));
    if j < i {
        assert(s[j] is Some);
    }
    if i < j {
        assert(!named(s, i, name));
    }
}

/// Where no living task bears the name, the answer is -1.
pub proof fn law_who_finds_nobody(s: Slots, name: Seq<char>, r: i32)
    requires
        s.len() == 32,
        who(s, name, r),
        forall|k: int|
            0 <= k < 32 && (#[trigger] s[k]) is Some && s[k]->0.state != TaskState::Zombie
                ==> name_text(s[k]->0.name@) != name,
    ensures
        r == -1,
{
    if exists|i: int| #[trigger] named(s, i, name) {
        let i = choose|i: int| #[trigger] named(s, i, name);
        assert(s[i] is Some);
    }
}

/// Killing a task by its id succeeds exactly where a task has it; that task is a zombie then,
/// and no other task changes.
#[verifier::rlimit(50)]
pub proof fn law_kill_by_id(pre: Host, post: Host, cpu: int, id: TaskId, r: bool, i: int, j: int)
    requires
        kill_post(pre, post, cpu, id, r),
        0 <= j < 32,
    ensures
        r <==> exists|k: int|
            0 <= k < 32 && (#[trigger] pre.q.sched.slots()[k]) is Some
                && pre.q.sched.slots()[k]->0.id == id,
        found_at(pre.q.sched.slots(), i, id.0) ==> {
            &&& post.q.sched.slots()[i] is Some
            &&& post.q.sched.slots()[i]->0.state == TaskState::Zombie
            &&& post.q.sched.slots()[i]->0.id == id
            &&& !post.q.sched.slots()[i]->0.recv_blocked
            &&& j != i ==> post.q.sched.slots()[j] == pre.q.sched.slots()[j]
        },
        !r ==> post.q.sched.slots() == pre.q.sched.slots(),
        post.ram == pre.ram,
        post.q.cpus == pre.q.cpus,
{
    let s = pre.q.sched.slots();
    pre.q.sched.lemma_len();
    if exists_id(s, id) {
        let k = choose|k: int| #[trigger] has_id(s, k, id);
        assert(s[k] is Some);
    }
    assert forall|k: int| 0 <= k < 32 && (#[trigger] s[k]) is Some && s[k]->0.id == id implies r by {
        assert(has_id(s, k, id));
    }
    if found_at(s, i, id.0) {
        assert(has_id(s, i, id));
        assert forall|k: int| #[trigger] first_id(s, k, id) implies k == i by {
            assert(has_id(s, k, id));
            if k < i {
                assert(!(s[k] is Some && s[k]->0.id == TaskId(id.0)));
            }
            if i < k {
                assert(!has_id(s, i, id));
            }
        }
    }
}

/// A task that kills another gets 0, and -3 where there is none with the id.
pub proof fn law_exit_task_answers(
    pre: Kernel,
    mid: Kernel,
    cpu: int,
    bins: Seq<ServerImage>,
    pid: u32,
    inp: Inputs,
    o: Outcome,
)
    requires
        served(pre, mid, cpu, bins, Call::ExitTask { pid }, inp, o),
    ensures
        ({
            let known = exists|k: int|
                0 <= k < 32 && (#[trigger] pre.host.q.sched.slots()[k]) is Some
                    && pre.host.q.sched.slots()[k]->0.id == TaskId(pid);
            &&& known ==> o.reply == Reply::Value(0)
            &&& !known ==> o.reply == Reply::Value(0xFFFF_FFFF_FFFF_FFFD)
        }),
{
    law_kill_by_id(
        pre.host,
        mid.host,
        cpu,
        TaskId(pid),
        o.reply == Reply::Value(0),
        0,
        0,
    );
}

/// A spawn or an exec with a bad name is answered with -5 and changes nothing; one that
/// succeeds with the id of the new task.
pub proof fn law_spawn_and_exec_answers(
    pre: Host,
    cpu: int,
    bins: Seq<ServerImage>,
    mem: Seq<u8>,
    post: Host,
    r: i32,
)
    ensures
        name_arg(mem) is None && sys_spawn_post(pre, bins, mem, post, r) ==> r == -5 && post == pre,
        name_arg(mem) is None && exec_post(pre, cpu, bins, mem, post, r) ==> r == -5 && post == pre,
        name_arg(mem) is Some && sys_spawn_post(pre, bins, mem, post, r) ==> exists|
            res: Result<TaskId, i32>,
        | #[trigger]
            Host::spawn_post(pre, bins, name_arg(mem)->0, post, res) && match res {
                Ok(id) => r == id.0 as i32,
                Err(e) => r == e,
            },
        name_arg(mem) is Some && exec_post(pre, cpu, bins, mem, post, r) ==> exists|
            mid: Host,
            res: Result<TaskId, i32>,
        | #[trigger]
            replaced(pre, cpu, bins, name_arg(mem)->0, mid, post, res) && match res {
                Ok(id) => r == id.0 as i32,
                Err(e) => r == e,
            },
{
    if name_arg(mem) is Some {
        let name = name_arg(mem)->0;
        if sys_spawn_post(pre, bins, mem, post, r) {
            let res = choose|res: Result<TaskId, i32>| #[trigger]
                Host::spawn_post(pre, bins, name, post, res) && r == spawn_number(res);
            assert(Host::spawn_post(pre, bins, name, post, res));
        }
        if exec_post(pre, cpu, bins, mem, post, r) {
            let (mid, res) = choose|mid: Host, res: Result<TaskId, i32>| #[trigger]
                replaced(pre, cpu, bins, name, mid, post, res) && r == spawn_number(res);
            assert(replaced(pre, cpu, bins, name, mid, post, res));
        }
    }
}

/// Sleeping, exiting and yielding leave it to a later call to serve the task that was woken
/// before; a reschedule forgets it.
pub proof fn law_woken_task_is_remembered(
    a: RunQueue,
    b: RunQueue,
    cpu: int,
    ms: u32,
    now: u64,
    sw: Switch,
    y: Option<Switch>,
)
    ensures
        sleep_post(a, b, cpu, ms, now, sw) ==> b.sched.woken_slot() == a.sched.woken_slot(),
        exited(a, b, cpu, sw) ==> b.sched.woken_slot() == a.sched.woken_slot(),
        yielded(a, b, cpu, y) ==> b.sched.woken_slot() == a.sched.woken_slot(),
        rescheduled(a, b, cpu, y) ==> b.sched.woken_slot() is None,
{
}

} // verus!
