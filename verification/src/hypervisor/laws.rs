//! What guests, queues and doorbells do, told by the records with their handles.

use vstd::prelude::*;
use crate::hypervisor::backend::{
    free_queue, free_vm, hypercall_id, queue_index, vm_index, BareMetalBackend, GuestFrame,
    GuestTick, GunyahBackend, Queues, VmRecord, Vms,
};
use crate::hypervisor::doorbell::{
    bell_index, delivered, free_index, owned_index, service, DoorbellEntry, DoorbellTable, Service,
    ServiceReply, Services,
};
use crate::hypervisor::{
    selected, BackendKind, DoorbellHandle, GuestEnv, GunyahError, HvError, HvcReply, Hypervisor,
    MsgqHandle, ShmemHandle, VcpuEntry, VcpuExit, VmConfig, VmHandle,
};
use crate::sched::task::Context;

verus! {

/// Slot `i` holds the VM with the handle.
pub open spec fn vm_at(b: BareMetalBackend, i: int, h: VmHandle) -> bool {
    0 <= i < 4 && b.vms@[i] is Some && b.vms@[i]->0.handle == h
}

/// Slot `i` holds the queue with the handle.
pub open spec fn queue_at(b: BareMetalBackend, i: int, h: MsgqHandle) -> bool {
    0 <= i < 8 && b.msgqs@[i] is Some && b.msgqs@[i]->0.name() == h
}

/// Slot `i` holds the doorbell with the handle.
pub open spec fn bell_at(t: DoorbellTable, i: int, h: DoorbellHandle) -> bool {
    0 <= i < 8 && t.slots()[i] is Some && t.slots()[i]->0.handle == h
}

proof fn lemma_vm_index(vms: Vms, h: VmHandle, from: int, i: int)
    requires
        0 <= from <= i <= vms.len(),
        i < vms.len() ==> vms[i] is Some && vms[i]->0.handle == h,
        forall|k: int|
            from <= k < i ==> !(#[trigger] vms[k] is Some && vms[k]->0.handle == h),
    ensures
        vm_index(vms, h, from) == i,
    decreases i - from,
{
    if from < i {
        assert(!(vms[from] is Some && vms[from]->0.handle == h));
        lemma_vm_index(vms, h, from + 1, i);
    }
}

proof fn lemma_vm(b: BareMetalBackend, i: int, h: VmHandle)
    requires
        b.wf(),
        vm_at(b, i, h),
    ensures
        vm_index(b.vms@, h, 0) == i,
        b.has_vm(h),
        b.vm(h) == b.vms@[i]->0,
{
    assert forall|k: int| 0 <= k < i implies !(#[trigger] b.vms@[k] is Some && b.vms@[k]->0.handle
        == h) by {}
    lemma_vm_index(b.vms@, h, 0, i);
}

proof fn lemma_no_vm(b: BareMetalBackend, h: VmHandle)
    requires
        forall|k: int| !#[trigger] vm_at(b, k, h),
    ensures
        !b.has_vm(h),
{
    assert forall|k: int| 0 <= k < 4 implies !(#[trigger] b.vms@[k] is Some && b.vms@[k]->0.handle
        == h) by {
        assert(!vm_at(b, k, h));
    }
    lemma_vm_index(b.vms@, h, 0, 4);
}

proof fn lemma_queue_index(qs: Queues, h: MsgqHandle, from: int, i: int)
    requires
        0 <= from <= i <= qs.len(),
        i < qs.len() ==> qs[i] is Some && qs[i]->0.name() == h,
        forall|k: int| from <= k < i ==> !(#[trigger] qs[k] is Some && qs[k]->0.name() == h),
    ensures
        queue_index(qs, h, from) == i,
    decreases i - from,
{
    if from < i {
        assert(!(qs[from] is Some && qs[from]->0.name() == h));
        lemma_queue_index(qs, h, from + 1, i);
    }
}

proof fn lemma_queue(b: BareMetalBackend, i: int, h: MsgqHandle)
    requires
        b.wf(),
        queue_at(b, i, h),
    ensures
        queue_index(b.msgqs@, h, 0) == i,
        b.has_queue(h),
        b.queue(h) == b.msgqs@[i]->0,
{
    assert forall|k: int| 0 <= k < i implies !(#[trigger] b.msgqs@[k] is Some
        && b.msgqs@[k]->0.name() == h) by {}
    lemma_queue_index(b.msgqs@, h, 0, i);
}

proof fn lemma_bell_index(es: Seq<Option<DoorbellEntry>>, h: DoorbellHandle, from: int, i: int)
    requires
        0 <= from <= i <= es.len(),
        i < es.len() ==> es[i] is Some && es[i]->0.handle == h,
        forall|k: int| from <= k < i ==> !(#[trigger] es[k] is Some && es[k]->0.handle == h),
    ensures
        bell_index(es, h, from) == i,
    decreases i - from,
{
    if from < i {
        assert(!(es[from] is Some && es[from]->0.handle == h));
        lemma_bell_index(es, h, from + 1, i);
    }
}

proof fn lemma_bell(t: DoorbellTable, i: int, h: DoorbellHandle)
    requires
        t.wf(),
        bell_at(t, i, h),
    ensures
        bell_index(t.slots(), h, 0) == i,
        t.has(h),
        t.bell(h) == t.slots()[i]->0,
{
    assert forall|k: int| 0 <= k < i implies !(#[trigger] t.slots()[k] is Some
        && t.slots()[k]->0.handle == h) by {}
    lemma_bell_index(t.slots(), h, 0, i);
}

proof fn lemma_free_vm(vms: Vms, from: int, i: int)
    requires
        0 <= from <= i <= vms.len(),
        i < vms.len() ==> vms[i] is None,
        forall|k: int| from <= k < i ==> (#[trigger] vms[k]) is Some,
    ensures
        free_vm(vms, from) == i,
    decreases i - from,
{
    if from < i {
        assert(vms[from] is Some);
        lemma_free_vm(vms, from + 1, i);
    }
}

proof fn lemma_free_queue(qs: Queues, from: int, i: int)
    requires
        0 <= from <= i <= qs.len(),
        i < qs.len() ==> qs[i] is None,
        forall|k: int| from <= k < i ==> (#[trigger] qs[k]) is Some,
    ensures
        free_queue(qs, from) == i,
    decreases i - from,
{
    if from < i {
        assert(qs[from] is Some);
        lemma_free_queue(qs, from + 1, i);
    }
}

/// A message of at most 96 bytes goes to the end of its queue while that has room; the answer
/// says whether there is room for another.  A longer one is refused as bad, one to a full queue
/// as full; nothing changes then.  No other queue and no VM is touched.
pub proof fn law_queue_takes_message(
    pre: BareMetalBackend,
    mq: MsgqHandle,
    msg: Seq<u8>,
    reply: HvcReply,
    post: BareMetalBackend,
    r: Result<bool, HvError>,
    i: int,
    j: int,
)
    requires
        pre.wf(),
        queue_at(pre, i, mq),
        BareMetalBackend::msgq_sent(pre, mq, msg, reply, post, r),
        0 <= j < 8,
    ensures
        ({
            let q = pre.msgqs@[i]->0;
            &&& msg.len() > 96 <==> r == Err::<bool, HvError>(HvError::BadMessage)
            &&& msg.len() <= 96 && q@.len() >= q.capacity() <==> r == Err::<bool, HvError>(
                HvError::Full,
            )
            &&& r is Err ==> post.msgqs@ == pre.msgqs@
            &&& msg.len() <= 96 && q@.len() < q.capacity() ==> {
                &&& r == Ok::<bool, HvError>(q@.len() + 1 < q.capacity())
                &&& post.msgqs@[i] is Some
                &&& post.msgqs@[i]->0@ == q@ + seq![msg]
                &&& post.msgqs@[i]->0.name() == mq
                &&& post.msgqs@[i]->0.capacity() == q.capacity()
                &&& post.msgqs@[i]->0.vm() == q.vm()
            }
            &&& j != i ==> post.msgqs@[j] == pre.msgqs@[j]
            &&& post.vms == pre.vms
            &&& post.next_handle == pre.next_handle
        }),
{
    lemma_queue(pre, i, mq);
    let q = pre.msgqs@[i]->0;
    assert(q@.push(msg) =~= q@ + seq![msg]);
}

/// A receive takes the oldest message and copies as much of it as the buffer holds; the rest of
/// the buffer stays.  The answer is the number of bytes, and whether more messages wait.  An
/// empty queue is answered as such.
#[verifier::rlimit(50)]
pub proof fn law_queue_gives_oldest(
    pre: BareMetalBackend,
    mq: MsgqHandle,
    buf: Seq<u8>,
    reply: HvcReply,
    post: BareMetalBackend,
    after: Seq<u8>,
    r: Result<(u64, bool), HvError>,
    i: int,
    j: int,
    k: int,
)
    requires
        pre.wf(),
        queue_at(pre, i, mq),
        BareMetalBackend::msgq_received(pre, mq, buf, reply, post, after, r),
        0 <= j < 8,
        0 <= k < buf.len(),
        buf.len() <= u64::MAX,
    ensures
        ({
            let q = pre.msgqs@[i]->0;
            &&& q@.len() == 0 <==> r == Err::<(u64, bool), HvError>(HvError::Empty)
            &&& q@.len() == 0 ==> post.msgqs@ == pre.msgqs@ && after == buf
            &&& q@.len() > 0 ==> {
                let m = q@[0];
                let n = if m.len() < buf.len() {
                    m.len()
                } else {
                    buf.len()
                };
                &&& r matches Ok((got, more)) && got == n && more == (q@.len() > 1)
                &&& after.len() == buf.len()
                &&& after[k] == if k < n {
                    m[k]
                } else {
                    buf[k]
                }
                &&& post.msgqs@[i] is Some
                &&& post.msgqs@[i]->0@ == q@.subrange(1, q@.len() as int)
                &&& post.msgqs@[i]->0.name() == mq
                &&& post.msgqs@[i]->0.capacity() == q.capacity()
            }
            &&& j != i ==> post.msgqs@[j] == pre.msgqs@[j]
            &&& post.vms == pre.vms
        }),
{
    lemma_queue(pre, i, mq);
    let q = pre.msgqs@[i]->0;
    if q@.len() > 0 {
        assert(q@.drop_first() =~= q@.subrange(1, q@.len() as int));
    }
}

/// A message that was sent to an empty queue is what the next receive returns.
pub proof fn law_queue_round_trip(
    s0: BareMetalBackend,
    mq: MsgqHandle,
    msg: Seq<u8>,
    reply: HvcReply,
    s1: BareMetalBackend,
    sent: Result<bool, HvError>,
    buf: Seq<u8>,
    s2: BareMetalBackend,
    after: Seq<u8>,
    got: Result<(u64, bool), HvError>,
    i: int,
)
    requires
        s0.wf(),
        s1.wf(),
        queue_at(s0, i, mq),
        s0.msgqs@[i]->0@.len() == 0,
        s0.msgqs@[i]->0.capacity() > 0,
        msg.len() <= 96,
        buf.len() == msg.len(),
        BareMetalBackend::msgq_sent(s0, mq, msg, reply, s1, sent),
        BareMetalBackend::msgq_received(s1, mq, buf, reply, s2, after, got),
    ensures
        sent is Ok,
        after == msg,
        got matches Ok((n, more)) && n == msg.len() && !more,
{
    law_queue_takes_message(s0, mq, msg, reply, s1, sent, i, i);
    assert(queue_at(s1, i, mq));
    lemma_queue(s1, i, mq);
    assert(s1.msgqs@[i]->0@[0] == msg);
    assert(after =~= msg);
}

/// A handle that no queue has is answered as invalid, and nothing changes.
pub proof fn law_unknown_queue_is_refused(
    pre: BareMetalBackend,
    mq: MsgqHandle,
    msg: Seq<u8>,
    buf: Seq<u8>,
    reply: HvcReply,
    post: BareMetalBackend,
    after: Seq<u8>,
    sent: Result<bool, HvError>,
    got: Result<(u64, bool), HvError>,
)
    requires
        forall|k: int| !#[trigger] queue_at(pre, k, mq),
    ensures
        BareMetalBackend::msgq_sent(pre, mq, msg, reply, post, sent) ==> sent == Err::<
            bool,
            HvError,
        >(HvError::InvalidHandle) && post == pre,
        BareMetalBackend::msgq_received(pre, mq, buf, reply, post, after, got) ==> got == Err::<
            (u64, bool),
            HvError,
        >(HvError::InvalidHandle) && post == pre && after == buf,
{
    assert forall|k: int| 0 <= k < 8 implies !(#[trigger] pre.msgqs@[k] is Some
        && pre.msgqs@[k]->0.name() == mq) by {
        assert(!queue_at(pre, k, mq));
    }
    lemma_queue_index(pre.msgqs@, mq, 0, 8);
}

/// A new queue takes the first of eight slots that is free, is empty, and holds as many
/// messages as asked for, at least one and at most 16.  Without its VM the handle is invalid,
/// without a free slot there is no memory.
pub proof fn law_new_queue(
    pre: BareMetalBackend,
    vm: VmHandle,
    depth: u32,
    post: BareMetalBackend,
    r: Result<MsgqHandle, HvError>,
    v: int,
    i: int,
    j: int,
)
    requires
        pre.wf(),
        BareMetalBackend::msgq_created(pre, vm, depth, post, r),
        0 <= i <= 8,
        i < 8 ==> pre.msgqs@[i] is None,
        forall|k: int| 0 <= k < i ==> (#[trigger] pre.msgqs@[k]) is Some,
        0 <= j < 8,
    ensures
        (forall|k: int| !#[trigger] vm_at(pre, k, vm)) ==> r == Err::<MsgqHandle, HvError>(
            HvError::InvalidHandle,
        ) && post == pre,
        vm_at(pre, v, vm) && i == 8 ==> r == Err::<MsgqHandle, HvError>(HvError::NoMemory) && post
            == pre,
        vm_at(pre, v, vm) && i < 8 ==> {
            &&& r matches Ok(h) && h.0 == pre.next_handle
            &&& post.next_handle == pre.next_handle + 1
            &&& post.msgqs@[i] matches Some(q) && q.name().0 == pre.next_handle && q.vm() == vm
                && q@.len() == 0 && q.capacity() == if depth == 0 {
                1
            } else if depth <= 16 {
                depth as nat
            } else {
                16
            }
            &&& j != i ==> post.msgqs@[j] == pre.msgqs@[j]
            &&& post.vms == pre.vms
        },
{
    lemma_free_queue(pre.msgqs@, 0, i);
    if forall|k: int| !#[trigger] vm_at(pre, k, vm) {
        lemma_no_vm(pre, vm);
    }
    if vm_at(pre, v, vm) {
        lemma_vm(pre, v, vm);
    }
}

/// A new VM takes the first of four slots that is free, with what it was created from, and has
/// not run; without a free slot there is no memory.  Every attempt uses up a handle.
pub proof fn law_new_vm(
    pre: BareMetalBackend,
    config: VmConfig,
    post: BareMetalBackend,
    r: Result<VmHandle, HvError>,
    i: int,
    j: int,
)
    requires
        BareMetalBackend::vm_created(pre, config, post, r),
        0 <= i <= 4,
        i < 4 ==> pre.vms@[i] is None,
        forall|k: int| 0 <= k < i ==> (#[trigger] pre.vms@[k]) is Some,
        0 <= j < 4,
    ensures
        post.next_handle == pre.next_handle + 1,
        i == 4 ==> r == Err::<VmHandle, HvError>(HvError::NoMemory) && post.vms == pre.vms,
        i < 4 ==> {
            &&& r matches Ok(h) && h.0 == pre.next_handle
            &&& post.vms@[i] matches Some(v) && v.handle.0 == pre.next_handle && v.ram_base
                == config.ram_base && v.ram_size == config.ram_size && v.entry == config.entry
                && v.boot == config.boot && !v.started && !v.running && !v.in_guest && !v.preempted
            &&& j != i ==> post.vms@[j] == pre.vms@[j]
        },
        post.msgqs == pre.msgqs,
        post.active == pre.active,
{
    lemma_free_vm(pre.vms@, 0, i);
}

/// Entering a vCPU: only vCPU 0 is supported, only of a VM that is there, and only while it is
/// not running.  A first run begins at the entry, with the stack at the end of the VM's RAM in
/// the kernel's tables; a later one with the saved context.  The guest runs with interrupts
/// unmasked, unless it resumes through the stub, has a full slice, and is the active one.
#[verifier::rlimit(50)]
pub proof fn law_guest_is_entered(
    pre: BareMetalBackend,
    vm: VmHandle,
    vcpu: u32,
    env: GuestEnv,
    post: BareMetalBackend,
    r: Result<VcpuEntry, HvError>,
    i: int,
    j: int,
)
    requires
        pre.wf(),
        vm_at(pre, i, vm),
        0 <= j < 4,
        BareMetalBackend::vcpu_entered(pre, vm, vcpu, env, post, r),
    ensures
        ({
            let v = pre.vms@[i]->0;
            let u = post.vms@[i]->0;
            &&& vcpu != 0 <==> r == Err::<VcpuEntry, HvError>(HvError::NotSupported)
            &&& vcpu == 0 && v.running <==> r == Err::<VcpuEntry, HvError>(HvError::BadState)
            &&& r is Err ==> post == pre
            &&& vcpu == 0 && !v.running ==> {
                &&& r matches Ok(e) && e.boot == v.boot && e.uart == env.uart && {
                    let c = e.context;
                    &&& !v.started ==> c.lr == v.entry && c.sp == v.ram_base + v.ram_size && c.ttbr0
                        == env.kernel_table && c.fp == 0 && c.sp_el0 == 0
                    &&& v.started ==> c.lr == v.guest_ctx.lr && c.sp == v.guest_ctx.sp && c.fp
                        == v.guest_ctx.fp && c.x19_to_x28 == v.guest_ctx.x19_to_x28 && c.sp_el0
                        == v.guest_ctx.sp_el0 && c.ttbr0 == v.guest_ctx.ttbr0
                    &&& c.lr != env.restore_stub ==> c.spsr == 0x345
                    &&& v.started && c.lr == env.restore_stub ==> c.spsr == v.guest_ctx.spsr
                }
                &&& u.started && u.running && u.in_guest
                &&& u.budget_ticks == pre.quantum_ticks
                &&& u.handle == vm
                &&& u.ram_base == v.ram_base && u.ram_size == v.ram_size && u.entry == v.entry
                &&& post.active == Some(vm)
                &&& post.active_cpu == env.cpu
                &&& j != i ==> post.vms@[j] == pre.vms@[j]
            }
        }),
{
    lemma_vm(pre, i, vm);
}

/// The end of a run: a guest that the tick took the CPU from keeps what the tick saved, one
/// that gave it up keeps the context that it left; neither runs any more and nobody is active.
pub proof fn law_guest_run_ends(
    pre: BareMetalBackend,
    vm: VmHandle,
    saved: Context,
    post: BareMetalBackend,
    r: Result<VcpuExit, HvError>,
    i: int,
    j: int,
)
    requires
        pre.wf(),
        vm_at(pre, i, vm),
        0 <= j < 4,
        BareMetalBackend::vcpu_exited(pre, vm, saved, post, r),
    ensures
        ({
            let v = pre.vms@[i]->0;
            let u = post.vms@[i]->0;
            &&& !v.running <==> r == Err::<VcpuExit, HvError>(HvError::BadState)
            &&& !v.running ==> post == pre
            &&& v.running ==> {
                &&& v.preempted ==> r == Ok::<VcpuExit, HvError>(VcpuExit::Preempted)
                    && u.guest_ctx == v.guest_ctx
                &&& !v.preempted ==> r == Ok::<VcpuExit, HvError>(VcpuExit::Yielded)
                    && u.guest_ctx == saved
                &&& post.vms@[i] is Some
                &&& !u.running && !u.in_guest && !u.preempted
                &&& u.started == v.started
                &&& u.handle == vm
                &&& post.active is None
                &&& j != i ==> post.vms@[j] == pre.vms@[j]
            }
        }),
{
    lemma_vm(pre, i, vm);
}

/// A tick in the active guest on its CPU, with preemption on, takes one tick of the slice while
/// there is one, and else saves the guest's frame, to be resumed through the stub.  Every other
/// tick changes nothing.
#[verifier::rlimit(50)]
pub proof fn law_guest_tick(
    pre: BareMetalBackend,
    env: GuestEnv,
    frame: GuestFrame,
    post: BareMetalBackend,
    r: GuestTick,
    i: int,
    j: int,
)
    requires
        pre.wf(),
        pre.active matches Some(h) && vm_at(pre, i, h),
        0 <= j < 4,
        BareMetalBackend::ticked(pre, env, frame, post, r),
    ensures
        ({
            let v = pre.vms@[i]->0;
            let u = post.vms@[i]->0;
            let mine = pre.preempt_enabled && env.cpu == pre.active_cpu && v.in_guest;
            &&& !mine ==> r == GuestTick::Stale && post == pre
            &&& mine && v.budget_ticks > 0 ==> r == GuestTick::Continue && u.budget_ticks
                == v.budget_ticks - 1 && u.guest_ctx == v.guest_ctx && !(u.preempted
                && !v.preempted)
            &&& mine && v.budget_ticks == 0 ==> r == GuestTick::Preempt && u.preempted
                && u.guest_ctx.lr == env.restore_stub && u.guest_ctx.sp == frame.base
                && u.guest_ctx.fp == frame.fp && u.guest_ctx.x19_to_x28 == frame.x19_to_x28
                && u.guest_ctx.spsr == 0x3C5 && u.guest_ctx.ttbr0 == env.kernel_table
            &&& mine ==> u.running == v.running && u.in_guest && u.started == v.started
            &&& j != i ==> post.vms@[j] == pre.vms@[j]
            &&& post.active == pre.active
        }),
{
    lemma_vm(pre, i, pre.active->0);
}

/// Without an active guest a tick changes nothing.
pub proof fn law_tick_without_guest(
    pre: BareMetalBackend,
    env: GuestEnv,
    frame: GuestFrame,
    post: BareMetalBackend,
    r: GuestTick,
)
    requires
        BareMetalBackend::ticked(pre, env, frame, post, r),
        pre.active is None || !pre.preempt_enabled || env.cpu != pre.active_cpu,
    ensures
        r == GuestTick::Stale,
        post == pre,
{
}

/// Stopping a vCPU that does not run makes its next run a first one; a running one is left, as
/// is destroying it; a VM that is destroyed is gone, and no other is touched.
pub proof fn law_stop_and_destroy(
    pre: BareMetalBackend,
    vm: VmHandle,
    stopped: BareMetalBackend,
    rs: Result<(), HvError>,
    gone: BareMetalBackend,
    rd: Result<(), HvError>,
    i: int,
    j: int,
)
    requires
        pre.wf(),
        vm_at(pre, i, vm),
        0 <= j < 4,
        BareMetalBackend::vcpu_stopped(pre, vm, stopped, rs),
        BareMetalBackend::vm_destroyed(pre, vm, gone, rd),
    ensures
        ({
            let v = pre.vms@[i]->0;
            &&& v.running ==> rs == Err::<(), HvError>(HvError::BadState) && stopped == pre && rd
                == Err::<(), HvError>(HvError::BadState) && gone == pre
            &&& !v.running ==> {
                &&& rs is Ok
                &&& stopped.vms@[i] == Some(VmRecord { started: false, ..v })
                &&& rd is Ok
                &&& gone.vms@[i] is None
                &&& j != i ==> stopped.vms@[j] == pre.vms@[j] && gone.vms@[j] == pre.vms@[j]
                &&& stopped.msgqs == pre.msgqs && gone.msgqs == pre.msgqs
            }
        }),
{
    lemma_vm(pre, i, vm);
}

/// Whatever is asked of a VM that is not there is answered as an invalid handle, and changes
/// nothing.
pub proof fn law_unknown_vm_is_refused(
    pre: BareMetalBackend,
    vm: VmHandle,
    env: GuestEnv,
    saved: Context,
    post: BareMetalBackend,
    rd: Result<(), HvError>,
    re: Result<VcpuEntry, HvError>,
    rx: Result<VcpuExit, HvError>,
)
    requires
        forall|k: int| !#[trigger] vm_at(pre, k, vm),
    ensures
        BareMetalBackend::vm_destroyed(pre, vm, post, rd) ==> rd == Err::<(), HvError>(
            HvError::InvalidHandle,
        ) && post == pre,
        BareMetalBackend::vcpu_stopped(pre, vm, post, rd) ==> rd == Err::<(), HvError>(
            HvError::InvalidHandle,
        ) && post == pre,
        BareMetalBackend::vcpu_entered(pre, vm, 0, env, post, re) ==> re == Err::<
            VcpuEntry,
            HvError,
        >(HvError::InvalidHandle) && post == pre,
        BareMetalBackend::vcpu_exited(pre, vm, saved, post, rx) ==> rx == Err::<VcpuExit, HvError>(
            HvError::InvalidHandle,
        ) && post == pre,
{
    lemma_no_vm(pre, vm);
}

/// Ringing a doorbell counts the ring and raises its interrupt; setting its masks sets them and
/// nothing else.  No other doorbell changes.
pub proof fn law_doorbell_is_rung(
    pre: DoorbellTable,
    bell: DoorbellHandle,
    reply: HvcReply,
    post: DoorbellTable,
    r: Result<Option<u32>, HvError>,
    enable: u64,
    ack: u64,
    set: DoorbellTable,
    rm: Result<(), HvError>,
    i: int,
    j: int,
)
    requires
        pre.wf(),
        bell_at(pre, i, bell),
        0 <= j < 8,
        BareMetalBackend::doorbell_rung(pre, bell, reply, post, r),
        BareMetalBackend::doorbell_masked(pre, bell, enable, ack, reply, set, rm),
    ensures
        ({
            let e = pre.slots()[i]->0;
            &&& r == Ok::<Option<u32>, HvError>(Some(e.irq))
            &&& post.slots()[i] matches Some(x) && x.handle == bell && x.irq == e.irq && x.owner_vm
                == e.owner_vm && x.deliveries == e.deliveries && x.rings == if e.rings < u64::MAX {
                (e.rings + 1) as u64
            } else {
                u64::MAX
            }
            &&& rm is Ok
            &&& set.slots()[i] == Some(DoorbellEntry { enable_mask: enable, ack_mask: ack, ..e })
            &&& j != i ==> post.slots()[j] == pre.slots()[j] && set.slots()[j] == pre.slots()[j]
        }),
{
    lemma_bell(pre, i, bell);
}

/// A doorbell that is not there cannot be rung or masked.
pub proof fn law_unknown_doorbell_is_refused(
    pre: DoorbellTable,
    bell: DoorbellHandle,
    reply: HvcReply,
    post: DoorbellTable,
    r: Result<Option<u32>, HvError>,
    enable: u64,
    ack: u64,
    rm: Result<(), HvError>,
)
    requires
        pre.wf(),
        forall|k: int| !#[trigger] bell_at(pre, k, bell),
    ensures
        BareMetalBackend::doorbell_rung(pre, bell, reply, post, r) ==> r == Err::<
            Option<u32>,
            HvError,
        >(HvError::InvalidHandle) && post == pre,
        BareMetalBackend::doorbell_masked(pre, bell, enable, ack, reply, post, rm) ==> rm == Err::<
            (),
            HvError,
        >(HvError::InvalidHandle) && post == pre,
{
    assert forall|k: int| 0 <= k < 8 implies !(#[trigger] pre.slots()[k] is Some
        && pre.slots()[k]->0.handle == bell) by {
        assert(!bell_at(pre, k, bell));
    }
    lemma_bell_index(pre.slots(), bell, 0, 8);
}

/// An interrupt that is taken is counted by the doorbells that it delivers, and by no others.
pub proof fn law_delivery_is_counted(s: Option<DoorbellEntry>, intid: u32)
    ensures
        s is None ==> delivered(s, intid) is None,
        s matches Some(e) ==> delivered(s, intid) == Some(
            if e.irq == intid && e.deliveries < u64::MAX {
                DoorbellEntry { deliveries: (e.deliveries + 1) as u64, ..e }
            } else {
                e
            },
        ),
{
}

/// A new doorbell takes the first of eight slots that is free, with the next handle, the VM and
/// the interrupt, never rung.
pub proof fn law_new_doorbell(
    hv: BareMetalBackend,
    pre: DoorbellTable,
    vm: VmHandle,
    irq: u32,
    post: DoorbellTable,
    r: Result<DoorbellHandle, HvError>,
    v: int,
    i: int,
    j: int,
)
    requires
        hv.wf(),
        pre.wf(),
        BareMetalBackend::doorbell_created(hv, pre, vm, irq, post, r),
        0 <= i <= 8,
        i < 8 ==> pre.slots()[i] is None,
        forall|k: int| 0 <= k < i ==> (#[trigger] pre.slots()[k]) is Some,
        0 <= j < 8,
    ensures
        (forall|k: int| !#[trigger] vm_at(hv, k, vm)) ==> r == Err::<DoorbellHandle, HvError>(
            HvError::InvalidHandle,
        ) && post == pre,
        vm_at(hv, v, vm) && i == 8 ==> r == Err::<DoorbellHandle, HvError>(HvError::NoMemory) && post
            == pre,
        vm_at(hv, v, vm) && i < 8 ==> {
            &&& r matches Ok(h) && h.0 == pre.next()
            &&& post.slots()[i] matches Some(e) && e.handle.0 == pre.next() && e.owner_vm == vm.0
                && e.irq == irq && e.rings == 0 && e.deliveries == 0
            &&& post.next() == pre.next() + 1
            &&& j != i ==> post.slots()[j] == pre.slots()[j]
        },
{
    lemma_free_bell(pre.slots(), 0, i);
    if forall|k: int| !#[trigger] vm_at(hv, k, vm) {
        lemma_no_vm(hv, vm);
    }
    if vm_at(hv, v, vm) {
        lemma_vm(hv, v, vm);
    }
}

proof fn lemma_free_bell(es: Seq<Option<DoorbellEntry>>, from: int, i: int)
    requires
        0 <= from <= i <= es.len(),
        i < es.len() ==> es[i] is None,
        forall|k: int| from <= k < i ==> (#[trigger] es[k]) is Some,
    ensures
        free_index(es, from) == i,
    decreases i - from,
{
    if from < i {
        assert(es[from] is Some);
        lemma_free_bell(es, from + 1, i);
    }
}

proof fn lemma_owned(es: Seq<Option<DoorbellEntry>>, vm: u32, from: int, i: int)
    requires
        0 <= from <= i <= es.len(),
        i < es.len() ==> es[i] is Some && es[i]->0.owner_vm == vm,
        forall|k: int| from <= k < i ==> !(#[trigger] es[k] is Some && es[k]->0.owner_vm == vm),
    ensures
        owned_index(es, vm, from) == i,
    decreases i - from,
{
    if from < i {
        assert(!(es[from] is Some && es[from]->0.owner_vm == vm));
        lemma_owned(es, vm, from + 1, i);
    }
}

/// The services of guests by number: 0x86000001 rings the doorbell in x1, 0x86000002 asks for
/// that of the VM in x1, 0x86000003 sends on and 0x86000004 receives from the queue in x1, with
/// the buffer in x2 and its size, at most 96, in x3; there are no others.
pub proof fn law_service_numbers(args: Seq<u64>)
    requires
        args.len() == 4,
    ensures
        ({
            let n = if args[3] < 96 {
                args[3]
            } else {
                96
            };
            let s = service(args);
            &&& args[0] == 0x8600_0001 ==> s == Service::Ring(DoorbellHandle(args[1] as u32))
            &&& args[0] == 0x8600_0002 ==> s == Service::Query(args[1] as u32)
            &&& args[0] == 0x8600_0003 ==> s == (Service::Send {
                mq: MsgqHandle(args[1] as u32),
                addr: args[2],
                size: n,
            })
            &&& args[0] == 0x8600_0004 ==> s == (Service::Receive {
                mq: MsgqHandle(args[1] as u32),
                addr: args[2],
                cap: n,
            })
            &&& args[0] < 0x8600_0001 || args[0] > 0x8600_0004 ==> s == Service::Unknown
        }),
{
}

/// Asking for a VM's doorbell returns the handle of the first one that it owns, and all ones
/// where it owns none.
pub proof fn law_query_finds_doorbell<H: Hypervisor>(
    pre: Services<H>,
    vm: u32,
    reply: HvcReply,
    post: Services<H>,
    r: ServiceReply,
    i: int,
)
    requires
        pre.wf(),
        Services::<H>::served(pre, Service::Query(vm), reply, post, r),
        0 <= i <= 8,
        i < 8 ==> pre.bells.slots()[i] is Some && pre.bells.slots()[i]->0.owner_vm == vm,
        forall|k: int|
            0 <= k < i ==> !(#[trigger] pre.bells.slots()[k] is Some
                && pre.bells.slots()[k]->0.owner_vm == vm),
    ensures
        post == pre,
        r.sgi is None,
        i < 8 ==> r.x0 == pre.bells.slots()[i]->0.handle.0,
        i == 8 ==> r.x0 == 0xFFFF_FFFF_FFFF_FFFF,
{
    lemma_owned(pre.bells.slots(), vm, 0, i);
}

/// A service call to ring, on bare metal: 0 and the doorbell's interrupt for CPU 0, and all ones
/// where there is no such doorbell.
pub proof fn law_ring_service(
    pre: Services<BareMetalBackend>,
    h: DoorbellHandle,
    reply: HvcReply,
    post: Services<BareMetalBackend>,
    r: ServiceReply,
    i: int,
)
    requires
        pre.wf(),
        Services::<BareMetalBackend>::served(pre, Service::Ring(h), reply, post, r),
    ensures
        bell_at(pre.bells, i, h) ==> r.x0 == 0 && r.sgi == Some(pre.bells.slots()[i]->0.irq),
        (forall|k: int| !#[trigger] bell_at(pre.bells, k, h)) ==> r.x0 == 0xFFFF_FFFF_FFFF_FFFF
            && r.sgi is None && post.bells == pre.bells,
        post.hv == pre.hv,
        post.ram == pre.ram,
{
    if bell_at(pre.bells, i, h) {
        lemma_bell(pre.bells, i, h);
    }
    if forall|k: int| !#[trigger] bell_at(pre.bells, k, h) {
        assert forall|k: int| 0 <= k < 8 implies !(#[trigger] pre.bells.slots()[k] is Some
            && pre.bells.slots()[k]->0.handle == h) by {
            assert(!bell_at(pre.bells, k, h));
        }
        lemma_bell_index(pre.bells.slots(), h, 0, 8);
    }
}

/// A guest's send, on bare metal: the bytes of its buffer go to the end of the queue, and the
/// answer is 0; it is all ones, and nothing changed, where the buffer is not in memory, the
/// queue is not there or is full.
#[verifier::rlimit(50)]
pub proof fn law_send_service(
    pre: Services<BareMetalBackend>,
    mq: MsgqHandle,
    addr: u64,
    size: u64,
    reply: HvcReply,
    post: Services<BareMetalBackend>,
    r: ServiceReply,
    i: int,
)
    requires
        pre.wf(),
        queue_at(pre.hv, i, mq),
        0 < size <= 96,
        Services::<BareMetalBackend>::served(
            pre,
            Service::Send { mq, addr, size },
            reply,
            post,
            r,
        ),
    ensures
        ({
            let at = addr - pre.ram.start();
            let there = 0 <= at && at + size <= pre.ram@.len();
            let q = pre.hv.msgqs@[i]->0;
            let ok = there && q@.len() < q.capacity();
            &&& ok ==> r.x0 == 0 && post.hv.msgqs@[i] is Some && post.hv.msgqs@[i]->0@ == q@
                + seq![pre.ram@.subrange(at, at + size)]
            &&& !ok ==> r.x0 == 0xFFFF_FFFF_FFFF_FFFF && post.hv.msgqs@ == pre.hv.msgqs@
        }),
        r.sgi is None,
        post.ram == pre.ram,
        post.bells == pre.bells,
{
    let at = addr - pre.ram.start();
    if pre.ram.has(addr as int, size as int) {
        let msg = pre.ram.range(addr as int, size as int);
        assert(msg == pre.ram@.subrange(at, at + size));
        let sent = choose|sent: Result<bool, HvError>|
            {
                &&& #[trigger] BareMetalBackend::msgq_sent(pre.hv, mq, msg, reply, post.hv, sent)
                &&& r.x0 == if sent is Ok {
                    0u64
                } else {
                    0xFFFF_FFFF_FFFF_FFFFu64
                }
            };
        law_queue_takes_message(pre.hv, mq, msg, reply, post.hv, sent, i, i);
    }
}

/// A guest's receive, on bare metal: the oldest message is in its buffer, cut to its size, and
/// the answer is the number of bytes; it is all ones, and memory is as it was, where the buffer
/// is not in memory or the queue is empty.
#[verifier::rlimit(50)]
pub proof fn law_receive_service(
    pre: Services<BareMetalBackend>,
    mq: MsgqHandle,
    addr: u64,
    cap: u64,
    reply: HvcReply,
    post: Services<BareMetalBackend>,
    r: ServiceReply,
    i: int,
    k: int,
)
    requires
        pre.wf(),
        queue_at(pre.hv, i, mq),
        0 < cap <= 96,
        Services::<BareMetalBackend>::served(
            pre,
            Service::Receive { mq, addr, cap },
            reply,
            post,
            r,
        ),
        0 <= k < pre.ram@.len(),
    ensures
        ({
            let at = addr - pre.ram.start();
            let there = 0 <= at && at + cap <= pre.ram@.len();
            let q = pre.hv.msgqs@[i]->0;
            let ok = there && q@.len() > 0;
            &&& ok ==> {
                let n = if q@[0].len() < cap {
                    q@[0].len() as int
                } else {
                    cap as int
                };
                &&& r.x0 == n
                &&& post.ram@[k] == if at <= k < at + n {
                    q@[0][k - at]
                } else {
                    pre.ram@[k]
                }
                &&& post.hv.msgqs@[i] is Some
                &&& post.hv.msgqs@[i]->0@ == q@.subrange(1, q@.len() as int)
            }
            &&& !ok ==> r.x0 == 0xFFFF_FFFF_FFFF_FFFF && post.ram@ == pre.ram@
        }),
        r.sgi is None,
        post.bells == pre.bells,
{
    let at = addr - pre.ram.start();
    if pre.ram.has(addr as int, cap as int) {
        let buf = pre.ram.range(addr as int, cap as int);
        assert(buf == pre.ram@.subrange(at, at + cap));
        let (after, got) = choose|after: Seq<u8>, got: Result<(u64, bool), HvError>|
            {
                &&& #[trigger] BareMetalBackend::msgq_received(
                    pre.hv,
                    mq,
                    buf,
                    reply,
                    post.hv,
                    after,
                    got,
                )
                &&& match got {
                    Ok((n, _)) => r.x0 == n && post.ram@ == pre.ram.with(addr as int, after),
                    Err(_) => r.x0 == 0xFFFF_FFFF_FFFF_FFFF && post.ram@ == pre.ram@,
                }
            };
        let x = if at <= k < at + cap {
            k - at
        } else {
            0
        };
        law_queue_gives_oldest(pre.hv, mq, buf, reply, post.hv, after, got, i, i, x);
    }
}

/// An unknown service is answered with all ones, and nothing changes.
pub proof fn law_unknown_service_is_refused<H: Hypervisor>(
    pre: Services<H>,
    reply: HvcReply,
    post: Services<H>,
    r: ServiceReply,
)
    requires
        Services::<H>::served(pre, Service::Unknown, reply, post, r),
    ensures
        post == pre,
        r.x0 == 0xFFFF_FFFF_FFFF_FFFF,
        r.sgi is None,
{
}

/// Hypercalls of the Gunyah backend: function ids, and which register holds what.
pub proof fn law_gunyah_calls(
    mq: MsgqHandle,
    bell: DoorbellHandle,
    len: u64,
    addr: u64,
    x: u64,
    y: u64,
    donated: HvcReply,
)
    ensures
        len <= 96 ==> GunyahBackend::send_call(mq, len, addr) == Some(
            seq![0xC600_801Bu64, mq.0 as u64, len, addr, 1, 0],
        ),
        len > 96 ==> GunyahBackend::send_call(mq, len, addr) is None,
        GunyahBackend::recv_call(mq, addr, len) == Some(
            seq![0xC600_801Cu64, mq.0 as u64, addr, len, 0, 0],
        ),
        GunyahBackend::ring_call(bell) == Some(seq![0xC600_8012u64, bell.0 as u64, 0, 0, 0, 0]),
        GunyahBackend::mask_call(bell, x, y) == Some(
            seq![0xC600_8015u64, bell.0 as u64, x, y, 0, 0],
        ),
        GunyahBackend::donate_call(addr, len) == Some(seq![0xC600_8061u64, 0, 0, 0, addr, len]),
        donated.r0 == 0 ==> GunyahBackend::map_call(addr, donated) == Some(
            seq![0xC600_802Bu64, 0, donated.r1, addr, 6, 0],
        ),
        donated.r0 != 0 ==> GunyahBackend::map_call(addr, donated) is None,
        x < 0x4000 ==> hypercall_id(x) == 0xC600_8000 + x,
        x >= 0x8000 && x < 0xC000 ==> hypercall_id(x) == 0xC600_8000 + (x - 0x8000),
{
}

/// What the Gunyah backend makes of a reply: 0 in the first register is success, anything else
/// a failure with that code; its tables never change.
pub proof fn law_gunyah_replies(
    g: GunyahBackend,
    post: GunyahBackend,
    mq: MsgqHandle,
    msg: Seq<u8>,
    reply: HvcReply,
    mapped: HvcReply,
    phys: u64,
    size: u64,
    sent: Result<bool, HvError>,
    after: Seq<u8>,
    got: Result<(u64, bool), HvError>,
)
    ensures
        GunyahBackend::msgq_sent(g, mq, msg, reply, post, sent) ==> post == g && (msg.len() > 96
            ==> sent == Err::<bool, HvError>(HvError::BadMessage)) && (msg.len() <= 96 && reply.r0
            == 0 ==> sent == Ok::<bool, HvError>(reply.r1 != 0)) && (msg.len() <= 96 && reply.r0
            != 0 ==> sent == Err::<bool, HvError>(HvError::HypercallFailed(reply.r0))),
        GunyahBackend::msgq_received(g, mq, msg, reply, post, after, got) ==> post == g && after
            == msg && (reply.r0 == 0 ==> got == Ok::<(u64, bool), HvError>(
            (reply.r1, reply.r2 != 0),
        )) && (reply.r0 != 0 ==> got == Err::<(u64, bool), HvError>(
            HvError::HypercallFailed(reply.r0),
        )),
        reply.r0 == 0 && mapped.r0 == 0 ==> GunyahBackend::mem_shared(phys, size, reply, mapped)
            == Ok::<ShmemHandle, HvError>(ShmemHandle(reply.r1 as u32)),
        reply.r0 != 0 ==> GunyahBackend::mem_shared(phys, size, reply, mapped) == Err::<
            ShmemHandle,
            HvError,
        >(HvError::HypercallFailed(reply.r0)),
        reply.r0 == 0 && mapped.r0 != 0 ==> GunyahBackend::mem_shared(phys, size, reply, mapped)
            == Err::<ShmemHandle, HvError>(HvError::HypercallFailed(mapped.r0)),
{
}

/// The backend is Gunyah's exactly where the probe was made and answered with its signature.
pub proof fn law_backend_by_signature(identify: Option<HvcReply>)
    ensures
        selected(identify) == BackendKind::Gunyah <==> (identify matches Some(r) && r.r0 == 0
            && r.r1 == 0x4755_5919 && r.r2 == 0 && r.r3 == 0),
        selected(identify) == BackendKind::Gunyah || selected(identify) == BackendKind::BareMetal,
{
}

/// Error codes of hypercalls are numbered from 0 on, each with its own.
pub proof fn law_error_codes_are_distinct(a: GunyahError, b: GunyahError)
    ensures
        a.number() == b.number() <==> a == b,
        a.number() <= 10,
        a == GunyahError::Success <==> a.number() == 0,
{
}

} // verus!
