//! Hypervisor backends.
//!
//! [`BareMetalBackend`] runs guests as cooperative vCPUs in one address space: running
//! a vCPU is a context switch, which comes back when the guest yields or when the tick
//! has used up its time slice.  [`GunyahBackend`] issues hypercalls; what its resource
//! manager would have to create is not supported.

use vstd::prelude::*;
use crate::hypervisor::doorbell::{bell_index, free_index, DoorbellEntry, DoorbellTable};
use crate::hypervisor::msgq::{copied, received, MsgqRecord};
use crate::hypervisor::{
    DoorbellHandle, GuestEnv, HvError, HvcReply, Hypervisor, MsgqHandle, ShmemHandle, VcpuEntry,
    VcpuExit, VmConfig, VmHandle, MSGQ_MAX_MSG_SIZE,
};
use crate::mem::PhysAddr;
use crate::sched::task::{is_zero_context, only_x19, Context, SPSR_KERNEL};

verus! {

/// Most guest VMs.
pub const MAX_VMS: usize = 4;

/// Most message queues.
pub const MAX_MSGQ: usize = 8;

/// PSTATE that guests run with: EL1h with interrupts unmasked.
pub const SPSR_GUEST: u64 = 0x345;

/// A VM of the bare-metal backend.
#[derive(Clone, Copy)]
pub struct VmRecord {
    pub handle: VmHandle,
    /// Base of the VM's RAM.
    pub ram_base: PhysAddr,
    pub ram_size: u64,
    /// Guest entry point.
    pub entry: PhysAddr,
    /// Boot arguments: x4 and x5.
    pub boot: [u64; 2],
    /// The vCPU has run and its context is live.
    pub started: bool,
    /// The vCPU is inside the context switch.
    pub running: bool,
    /// The CPU executes the guest.
    pub in_guest: bool,
    /// The tick preempted the guest.
    pub preempted: bool,
    /// Ticks left of the time slice.
    pub budget_ticks: u32,
    /// The vCPU's saved context.
    pub guest_ctx: Context,
}

/// The bare-metal backend.
pub struct BareMetalBackend {
    pub vms: [Option<VmRecord>; MAX_VMS],
    pub msgqs: [Option<MsgqRecord>; MAX_MSGQ],
    pub next_handle: u32,
    /// The VM whose vCPU is executing.
    pub active: Option<VmHandle>,
    /// The CPU that executes it.
    pub active_cpu: usize,
    /// A tick inside a guest may preempt it.
    pub preempt_enabled: bool,
    /// Time slice in ticks.
    pub quantum_ticks: u32,
}

pub type Vms = Seq<Option<VmRecord>>;

pub type Queues = Seq<Option<MsgqRecord>>;

/// First index from `i` on of the VM with the handle; past the end if there is none.
pub open spec fn vm_index(vms: Vms, h: VmHandle, i: int) -> int
    decreases vms.len() - i,
{
    if i >= vms.len() {
        vms.len() as int
    } else if vms[i] is Some && vms[i]->0.handle == h {
        i
    } else {
        vm_index(vms, h, i + 1)
    }
}

/// First free VM slot from `i` on; past the end if there is none.
pub open spec fn free_vm(vms: Vms, i: int) -> int
    decreases vms.len() - i,
{
    if i >= vms.len() {
        vms.len() as int
    } else if vms[i] is None {
        i
    } else {
        free_vm(vms, i + 1)
    }
}

/// First index from `i` on of the queue with the handle; past the end if there is
/// none.
pub open spec fn queue_index(qs: Queues, h: MsgqHandle, i: int) -> int
    decreases qs.len() - i,
{
    if i >= qs.len() {
        qs.len() as int
    } else if qs[i] is Some && qs[i]->0.name() == h {
        i
    } else {
        queue_index(qs, h, i + 1)
    }
}

/// First free queue slot from `i` on; past the end if there is none.
pub open spec fn free_queue(qs: Queues, i: int) -> int
    decreases qs.len() - i,
{
    if i >= qs.len() {
        qs.len() as int
    } else if qs[i] is None {
        i
    } else {
        free_queue(qs, i + 1)
    }
}

/// `c` is the context in which a vCPU is entered: a first run starts at the entry with
/// the stack at the top of its RAM, and the guest runs with interrupts unmasked unless it
/// resumes through the restore stub.
pub open spec fn entry_context(rec: VmRecord, env: GuestEnv, c: Context) -> bool {
    if rec.started {
        c == if rec.guest_ctx.lr == env.restore_stub {
            rec.guest_ctx
        } else {
            Context { spsr: SPSR_GUEST, ..rec.guest_ctx }
        }
    } else {
        &&& c.x19_to_x28@ == only_x19(0)
        &&& c.fp == 0
        &&& c.lr == rec.entry
        &&& c.sp == rec.ram_base + rec.ram_size
        &&& c.sp_el0 == 0
        &&& c.spsr == if rec.entry == env.restore_stub {
            SPSR_KERNEL
        } else {
            SPSR_GUEST
        }
        &&& c.ttbr0 == env.kernel_table
    }
}

/// The registers of a guest in its interrupt frame.
#[derive(Clone, Copy)]
pub struct GuestFrame {
    /// Address of the frame, on the guest's stack.
    pub base: u64,
    pub x19_to_x28: [u64; 10],
    /// x29.
    pub fp: u64,
}

/// What a tick that interrupted a guest does.
#[derive(Debug, Clone, Copy, PartialEq, Eq, Structural)]
pub enum GuestTick {
    /// No guest is to be preempted here.
    Stale,
    /// The guest keeps running.
    Continue,
    /// The guest is captured: resume the kernel where it entered the guest.
    Preempt,
}

impl BareMetalBackend {
    /// The VM with the handle exists.
    pub open spec fn has_vm(self, h: VmHandle) -> bool {
        vm_index(self.vms@, h, 0) < MAX_VMS
    }

    /// The VM with the handle.
    pub open spec fn vm(self, h: VmHandle) -> VmRecord {
        self.vms@[vm_index(self.vms@, h, 0)]->0
    }

    /// `self` is `pre` but for the record of the VM.
    pub open spec fn vm_set(self, pre: Self, h: VmHandle, rec: Option<VmRecord>) -> bool {
        self.vms@ == pre.vms@.update(vm_index(pre.vms@, h, 0), rec)
    }

    /// Everything but the VMs is as in `pre`.
    pub open spec fn same_rest(self, pre: Self) -> bool {
        &&& self.msgqs == pre.msgqs
        &&& self.next_handle == pre.next_handle
        &&& self.same_run(pre)
    }

    /// What says who runs is as in `pre`.
    pub open spec fn same_run(self, pre: Self) -> bool {
        &&& self.active == pre.active
        &&& self.active_cpu == pre.active_cpu
        &&& self.same_slice(pre)
    }

    /// What rules time slices is as in `pre`.
    pub open spec fn same_slice(self, pre: Self) -> bool {
        &&& self.preempt_enabled == pre.preempt_enabled
        &&& self.quantum_ticks == pre.quantum_ticks
    }

    /// The queue with the handle exists.
    pub open spec fn has_queue(self, h: MsgqHandle) -> bool {
        queue_index(self.msgqs@, h, 0) < MAX_MSGQ
    }

    /// The queue with the handle.
    pub open spec fn queue(self, h: MsgqHandle) -> MsgqRecord {
        self.msgqs@[queue_index(self.msgqs@, h, 0)]->0
    }

    /// Handles are below the next one and belong to one object each, RAM ends inside the
    /// address space, and the queues are well-formed.
    pub open spec fn consistent(self) -> bool {
        &&& forall|i: int|
            0 <= i < MAX_VMS && (#[trigger] self.vms@[i]) is Some ==> {
                &&& self.vms@[i]->0.handle.0 < self.next_handle
                &&& self.vms@[i]->0.ram_base + self.vms@[i]->0.ram_size <= u64::MAX
            }
        &&& forall|i: int, j: int|
            0 <= i < j < MAX_VMS && (#[trigger] self.vms@[i]) is Some && (
            #[trigger] self.vms@[j]) is Some ==> self.vms@[i]->0.handle != self.vms@[j]->0.handle
        &&& forall|i: int|
            0 <= i < MAX_MSGQ && (#[trigger] self.msgqs@[i]) is Some ==> {
                &&& self.msgqs@[i]->0.name().0 < self.next_handle
                &&& self.msgqs@[i]->0.wf()
            }
        &&& forall|i: int, j: int|
            0 <= i < j < MAX_MSGQ && (#[trigger] self.msgqs@[i]) is Some && (
            #[trigger] self.msgqs@[j]) is Some ==> self.msgqs@[i]->0.name()
                != self.msgqs@[j]->0.name()
    }

    /// No VMs, no queues, no time slicing; the first handle is 1.
    pub fn new() -> (b: Self)
        ensures
            b.wf(),
            b.next_handle == 1,
            forall|i: int| 0 <= i < MAX_VMS ==> #[trigger] b.vms@[i] is None,
            forall|i: int| 0 <= i < MAX_MSGQ ==> #[trigger] b.msgqs@[i] is None,
            b.active is None,
            b.active_cpu == 0,
            !b.preempt_enabled,
            b.quantum_ticks == 0,
    {
        BareMetalBackend {
            vms: [None;MAX_VMS],
            msgqs: [None;MAX_MSGQ],
            next_handle: 1,
            active: None,
            active_cpu: 0,
            preempt_enabled: false,
            quantum_ticks: 0,
        }
    }

    fn find_vm(&self, h: VmHandle) -> (i: usize)
        ensures
            i == vm_index(self.vms@, h, 0),
            i <= MAX_VMS,
            i < MAX_VMS ==> self.vms@[i as int] is Some && self.vms@[i as int]->0.handle == h,
    {
        let mut i: usize = 0;
        while i < MAX_VMS
            invariant
                i <= MAX_VMS,
                vm_index(self.vms@, h, 0) == vm_index(self.vms@, h, i as int),
            decreases MAX_VMS - i,
        {
            if let Some(v) = self.vms[i] {
                if v.handle.0 == h.0 {
                    return i;
                }
            }
            i = i + 1;
        }
        i
    }

    fn find_msgq(&self, h: MsgqHandle) -> (i: usize)
        ensures
            i == queue_index(self.msgqs@, h, 0),
            i <= MAX_MSGQ,
            i < MAX_MSGQ ==> self.msgqs@[i as int] is Some && self.msgqs@[i as int]->0.name() == h,
    {
        let mut i: usize = 0;
        while i < MAX_MSGQ
            invariant
                i <= MAX_MSGQ,
                queue_index(self.msgqs@, h, 0) == queue_index(self.msgqs@, h, i as int),
            decreases MAX_MSGQ - i,
        {
            if let Some(q) = self.msgqs[i] {
                if q.handle().0 == h.0 {
                    return i;
                }
            }
            i = i + 1;
        }
        i
    }

    fn free_vm_slot(&self) -> (i: usize)
        ensures
            i == free_vm(self.vms@, 0),
            i <= MAX_VMS,
            i < MAX_VMS ==> self.vms@[i as int] is None,
    {
        let mut i: usize = 0;
        while i < MAX_VMS && self.vms[i].is_some()
            invariant
                i <= MAX_VMS,
                free_vm(self.vms@, 0) == free_vm(self.vms@, i as int),
            decreases MAX_VMS - i,
        {
            i = i + 1;
        }
        i
    }

    fn free_queue_slot(&self) -> (i: usize)
        ensures
            i == free_queue(self.msgqs@, 0),
            i <= MAX_MSGQ,
            i < MAX_MSGQ ==> self.msgqs@[i as int] is None,
    {
        let mut i: usize = 0;
        while i < MAX_MSGQ && self.msgqs[i].is_some()
            invariant
                i <= MAX_MSGQ,
                free_queue(self.msgqs@, 0) == free_queue(self.msgqs@, i as int),
            decreases MAX_MSGQ - i,
        {
            i = i + 1;
        }
        i
    }

    /// Let ticks preempt guests after `quantum_ticks` ticks.
    pub fn enable_guest_preemption(&mut self, quantum_ticks: u32)
        ensures
            *final(self) == (BareMetalBackend {
                preempt_enabled: true,
                quantum_ticks,
                ..*old(self)
            }),
    {
        self.preempt_enabled = true;
        self.quantum_ticks = quantum_ticks;
    }

    /// Let guests run until they yield.
    pub fn disable_guest_preemption(&mut self)
        ensures
            *final(self) == (BareMetalBackend {
                preempt_enabled: false,
                quantum_ticks: 0,
                ..*old(self)
            }),
    {
        self.preempt_enabled = false;
        self.quantum_ticks = 0;
    }

    /// True if a tick on `cpu` belongs to a guest.
    pub fn guest_tick_active(&self, cpu: usize) -> (r: bool)
        ensures
            r == (self.preempt_enabled && self.active is Some && cpu == self.active_cpu),
    {
        self.preempt_enabled && self.active.is_some() && cpu == self.active_cpu
    }

    /// What a tick on `cpu` does: it takes one tick of the running guest's time slice;
    /// with none left the guest is preempted.
    pub open spec fn tick_result(self, cpu: usize) -> GuestTick {
        if !self.preempt_enabled || cpu != self.active_cpu || self.active is None || !self.has_vm(
            self.active->0,
        ) || !self.vm(self.active->0).in_guest {
            GuestTick::Stale
        } else if self.vm(self.active->0).budget_ticks > 0 {
            GuestTick::Continue
        } else {
            GuestTick::Preempt
        }
    }

    /// What a tick that interrupted a guest does.
    pub open spec fn ticked(
        pre: Self,
        env: GuestEnv,
        frame: GuestFrame,
        post: Self,
        r: GuestTick,
    ) -> bool {
        &&& r == pre.tick_result(env.cpu)
        &&& post.same_rest(pre)
        &&& match r {
            GuestTick::Stale => post == pre,
            GuestTick::Continue => {
                let rec = pre.vm(pre.active->0);
                post.vm_set(
                    pre,
                    pre.active->0,
                    Some(VmRecord { budget_ticks: (rec.budget_ticks - 1) as u32, ..rec }),
                )
            },
            GuestTick::Preempt => {
                let rec = pre.vm(pre.active->0);
                post.vm_set(
                    pre,
                    pre.active->0,
                    Some(
                        VmRecord {
                            preempted: true,
                            guest_ctx: Context {
                                x19_to_x28: frame.x19_to_x28,
                                fp: frame.fp,
                                lr: env.restore_stub,
                                sp: frame.base,
                                sp_el0: rec.guest_ctx.sp_el0,
                                spsr: SPSR_KERNEL,
                                ttbr0: env.kernel_table,
                            },
                            ..rec
                        },
                    ),
                )
            },
        }
    }

    /// A tick interrupted a guest, whose registers are in `frame`.  A preempted guest is
    /// captured: it resumes through the restore stub, which finds the frame on its stack.
    pub fn tick_guest(&mut self, env: GuestEnv, frame: GuestFrame) -> (r: GuestTick)
        requires
            old(self).wf(),
        ensures
            final(self).wf(),
            Self::ticked(*old(self), env, frame, *final(self), r),
    {
        if !self.preempt_enabled || env.cpu != self.active_cpu {
            return GuestTick::Stale;
        }
        let h: VmHandle = match self.active {
            Some(h) => h,
            None => {
                return GuestTick::Stale;
            },
        };
        let i: usize = self.find_vm(h);
        if i >= MAX_VMS {
            return GuestTick::Stale;
        }
        let mut rec: VmRecord = match self.vms[i] {
            Some(v) => v,
            None => {
                return GuestTick::Stale;
            },
        };
        if !rec.in_guest {
            return GuestTick::Stale;
        }
        if rec.budget_ticks > 0 {
            rec.budget_ticks = rec.budget_ticks - 1;
            self.vms[i] = Some(rec);
            return GuestTick::Continue;
        }
        rec.guest_ctx.x19_to_x28 = frame.x19_to_x28;
        rec.guest_ctx.fp = frame.fp;
        rec.guest_ctx.sp = frame.base;
        rec.guest_ctx.lr = env.restore_stub;
        rec.guest_ctx.spsr = SPSR_KERNEL;
        rec.guest_ctx.ttbr0 = env.kernel_table;
        rec.preempted = true;
        self.vms[i] = Some(rec);
        GuestTick::Preempt
    }

    /// Shared memory of the guest that is executing, where its state is to be set to
    /// parked.
    pub fn park_active_tenant(&self) -> (r: Option<u64>)
        ensures
            match r {
                Some(a) => self.active is Some && self.has_vm(self.active->0) && self.vm(
                    self.active->0,
                ).in_guest && a == self.vm(self.active->0).boot[0],
                None => self.active is None || !self.has_vm(self.active->0) || !self.vm(
                    self.active->0,
                ).in_guest,
            },
    {
        match self.active {
            Some(h) => {
                let i: usize = self.find_vm(h);
                if i < MAX_VMS {
                    if let Some(rec) = self.vms[i] {
                        if rec.in_guest {
                            return Some(rec.boot[0]);
                        }
                    }
                }
                None
            },
            None => None,
        }
    }
}

impl Hypervisor for BareMetalBackend {
    open spec fn wf(self) -> bool {
        self.consistent()
    }

    open spec fn can_name(self) -> bool {
        self.next_handle < u32::MAX
    }

    open spec fn vm_created(
        pre: Self,
        config: VmConfig,
        post: Self,
        r: Result<VmHandle, HvError>,
    ) -> bool {
        let h = VmHandle(pre.next_handle);
        let i = free_vm(pre.vms@, 0);
        &&& post.next_handle == pre.next_handle + 1
        &&& post.msgqs == pre.msgqs
        &&& post.same_run(pre)
        &&& if i < MAX_VMS {
            &&& r == Ok::<VmHandle, HvError>(h)
            &&& !pre.has_vm(h)
            &&& post.vms@[i] is Some
            &&& post.vms@ == pre.vms@.update(i, post.vms@[i])
            &&& ({
                let rec = post.vms@[i]->0;
                &&& rec.handle == h
                &&& rec.ram_base == config.ram_base
                &&& rec.ram_size == config.ram_size
                &&& rec.entry == config.entry
                &&& rec.boot == config.boot
                &&& !rec.started
                &&& !rec.running
                &&& !rec.in_guest
                &&& !rec.preempted
                &&& rec.budget_ticks == 0
                &&& is_zero_context(rec.guest_ctx)
            })
        } else {
            r == Err::<VmHandle, HvError>(HvError::NoMemory) && post.vms == pre.vms
        }
    }

    fn vm_create(&mut self, config: VmConfig) -> (r: Result<VmHandle, HvError>) {
        let ghost pre = *self;
        let handle = VmHandle(self.next_handle);
        self.next_handle = self.next_handle + 1;
        let i: usize = self.free_vm_slot();
        if i >= MAX_VMS {
            return Err(HvError::NoMemory);
        }
        self.vms[i] = Some(
            VmRecord {
                handle,
                ram_base: config.ram_base,
                ram_size: config.ram_size,
                entry: config.entry,
                boot: config.boot,
                started: false,
                running: false,
                in_guest: false,
                preempted: false,
                budget_ticks: 0,
                guest_ctx: Context::zeroed(),
            },
        );
        proof {
            lemma_vm_found(pre.vms@, handle, 0);
        }
        Ok(handle)
    }

    open spec fn vm_destroyed(
        pre: Self,
        vm: VmHandle,
        post: Self,
        r: Result<(), HvError>,
    ) -> bool {
        if !pre.has_vm(vm) {
            r == Err::<(), HvError>(HvError::InvalidHandle) && post == pre
        } else if pre.vm(vm).running {
            r == Err::<(), HvError>(HvError::BadState) && post == pre
        } else {
            r is Ok && post.vm_set(pre, vm, None) && post.same_rest(pre)
        }
    }

    fn vm_destroy(&mut self, vm: VmHandle) -> (r: Result<(), HvError>) {
        let i: usize = self.find_vm(vm);
        if i >= MAX_VMS {
            return Err(HvError::InvalidHandle);
        }
        if let Some(rec) = self.vms[i] {
            if rec.running {
                return Err(HvError::BadState);
            }
        }
        self.vms[i] = None;
        Ok(())
    }

    open spec fn vcpu_entered(
        pre: Self,
        vm: VmHandle,
        vcpu: u32,
        env: GuestEnv,
        post: Self,
        r: Result<VcpuEntry, HvError>,
    ) -> bool {
        if vcpu != 0 {
            r == Err::<VcpuEntry, HvError>(HvError::NotSupported) && post == pre
        } else if !pre.has_vm(vm) {
            r == Err::<VcpuEntry, HvError>(HvError::InvalidHandle) && post == pre
        } else if pre.vm(vm).running {
            r == Err::<VcpuEntry, HvError>(HvError::BadState) && post == pre
        } else {
            let rec = pre.vm(vm);
            &&& r is Ok
            &&& entry_context(rec, env, r->Ok_0.context)
            &&& r->Ok_0.boot == rec.boot
            &&& r->Ok_0.uart == env.uart
            &&& post.vm_set(
                pre,
                vm,
                Some(
                    VmRecord {
                        started: true,
                        running: true,
                        in_guest: true,
                        budget_ticks: pre.quantum_ticks,
                        guest_ctx: r->Ok_0.context,
                        ..rec
                    },
                ),
            )
            &&& post.active == Some(vm)
            &&& post.active_cpu == env.cpu
            &&& post.msgqs == pre.msgqs
            &&& post.next_handle == pre.next_handle
            &&& post.same_slice(pre)
        }
    }

    fn vcpu_enter(&mut self, vm: VmHandle, vcpu: u32, env: GuestEnv) -> (r: Result<
        VcpuEntry,
        HvError,
    >) {
        if vcpu != 0 {
            return Err(HvError::NotSupported);
        }
        let i: usize = self.find_vm(vm);
        if i >= MAX_VMS {
            return Err(HvError::InvalidHandle);
        }
        let mut rec: VmRecord = match self.vms[i] {
            Some(v) => v,
            None => {
                return Err(HvError::InvalidHandle);
            },
        };
        if rec.running {
            return Err(HvError::BadState);
        }
        if !rec.started {
            rec.guest_ctx = Context::new(rec.entry, rec.ram_base + rec.ram_size, env.kernel_table);
            rec.started = true;
        }
        if rec.guest_ctx.lr != env.restore_stub {
            rec.guest_ctx.spsr = SPSR_GUEST;
        }
        rec.budget_ticks = self.quantum_ticks;
        rec.running = true;
        rec.in_guest = true;
        self.vms[i] = Some(rec);
        self.active = Some(vm);
        self.active_cpu = env.cpu;
        Ok(VcpuEntry { context: rec.guest_ctx, boot: rec.boot, uart: env.uart })
    }

    open spec fn vcpu_exited(
        pre: Self,
        vm: VmHandle,
        saved: Context,
        post: Self,
        r: Result<VcpuExit, HvError>,
    ) -> bool {
        if !pre.has_vm(vm) {
            r == Err::<VcpuExit, HvError>(HvError::InvalidHandle) && post == pre
        } else if !pre.vm(vm).running {
            r == Err::<VcpuExit, HvError>(HvError::BadState) && post == pre
        } else {
            let rec = pre.vm(vm);
            &&& r == Ok::<VcpuExit, HvError>(
                if rec.preempted {
                    VcpuExit::Preempted
                } else {
                    VcpuExit::Yielded
                },
            )
            &&& post.vm_set(
                pre,
                vm,
                Some(
                    VmRecord {
                        running: false,
                        in_guest: false,
                        preempted: false,
                        guest_ctx: if rec.preempted {
                            rec.guest_ctx
                        } else {
                            saved
                        },
                        ..rec
                    },
                ),
            )
            &&& post.active is None
            &&& post.active_cpu == pre.active_cpu
            &&& post.msgqs == pre.msgqs
            &&& post.next_handle == pre.next_handle
            &&& post.same_slice(pre)
        }
    }

    fn vcpu_exit(&mut self, vm: VmHandle, saved: Context) -> (r: Result<VcpuExit, HvError>) {
        let i: usize = self.find_vm(vm);
        if i >= MAX_VMS {
            return Err(HvError::InvalidHandle);
        }
        let mut rec: VmRecord = match self.vms[i] {
            Some(v) => v,
            None => {
                return Err(HvError::InvalidHandle);
            },
        };
        if !rec.running {
            return Err(HvError::BadState);
        }
        let preempted: bool = rec.preempted;
        rec.running = false;
        rec.in_guest = false;
        rec.preempted = false;
        if !preempted {
            rec.guest_ctx = saved;
        }
        self.vms[i] = Some(rec);
        self.active = None;
        if preempted {
            Ok(VcpuExit::Preempted)
        } else {
            Ok(VcpuExit::Yielded)
        }
    }

    open spec fn vcpu_stopped(
        pre: Self,
        vm: VmHandle,
        post: Self,
        r: Result<(), HvError>,
    ) -> bool {
        if !pre.has_vm(vm) {
            r == Err::<(), HvError>(HvError::InvalidHandle) && post == pre
        } else if pre.vm(vm).running {
            r == Err::<(), HvError>(HvError::BadState) && post == pre
        } else {
            &&& r is Ok
            &&& post.vm_set(pre, vm, Some(VmRecord { started: false, ..pre.vm(vm) }))
            &&& post.same_rest(pre)
        }
    }

    fn vcpu_stop(&mut self, vm: VmHandle, vcpu: u32) -> (r: Result<(), HvError>) {
        let i: usize = self.find_vm(vm);
        if i >= MAX_VMS {
            return Err(HvError::InvalidHandle);
        }
        if let Some(mut rec) = self.vms[i] {
            if rec.running {
                return Err(HvError::BadState);
            }
            rec.started = false;
            self.vms[i] = Some(rec);
        }
        Ok(())
    }

    open spec fn msgq_created(
        pre: Self,
        vm: VmHandle,
        depth: u32,
        post: Self,
        r: Result<MsgqHandle, HvError>,
    ) -> bool {
        let h = MsgqHandle(pre.next_handle);
        let i = free_queue(pre.msgqs@, 0);
        if !pre.has_vm(vm) {
            r == Err::<MsgqHandle, HvError>(HvError::InvalidHandle) && post == pre
        } else if i >= MAX_MSGQ {
            r == Err::<MsgqHandle, HvError>(HvError::NoMemory) && post == pre
        } else {
            &&& r == Ok::<MsgqHandle, HvError>(h)
            &&& !pre.has_queue(h)
            &&& post.next_handle == pre.next_handle + 1
            &&& post.vms == pre.vms
            &&& post.same_run(pre)
            &&& post.msgqs@[i] is Some
            &&& post.msgqs@ == pre.msgqs@.update(i, post.msgqs@[i])
            &&& ({
                let q = post.msgqs@[i]->0;
                &&& q.name() == h
                &&& q.vm() == vm
                &&& q@ == Seq::<Seq<u8>>::empty()
                &&& q.capacity() == if depth < 1 {
                    1
                } else if depth > 16 {
                    16
                } else {
                    depth as nat
                }
            })
        }
    }

    fn msgq_create(&mut self, vm: VmHandle, depth: u32) -> (r: Result<MsgqHandle, HvError>) {
        let ghost pre = *self;
        if self.find_vm(vm) >= MAX_VMS {
            return Err(HvError::InvalidHandle);
        }
        let i: usize = self.free_queue_slot();
        if i >= MAX_MSGQ {
            return Err(HvError::NoMemory);
        }
        let handle = MsgqHandle(self.next_handle);
        self.next_handle = self.next_handle + 1;
        self.msgqs[i] = Some(MsgqRecord::new(handle, vm, depth));
        proof {
            lemma_queue_found(pre.msgqs@, handle, 0);
        }
        Ok(handle)
    }

    open spec fn send_call(mq: MsgqHandle, len: u64, addr: u64) -> Option<Seq<u64>> {
        None
    }

    fn msgq_send_call(&self, mq: MsgqHandle, len: u64, addr: u64) -> (r: Option<[u64; 6]>) {
        None
    }

    open spec fn msgq_sent(
        pre: Self,
        mq: MsgqHandle,
        msg: Seq<u8>,
        reply: HvcReply,
        post: Self,
        r: Result<bool, HvError>,
    ) -> bool {
        if !pre.has_queue(mq) {
            r == Err::<bool, HvError>(HvError::InvalidHandle) && post == pre
        } else if msg.len() > MSGQ_MAX_MSG_SIZE {
            r == Err::<bool, HvError>(HvError::BadMessage) && post.msgqs@ == pre.msgqs@
                && post.same_but_queues(pre)
        } else if pre.queue(mq)@.len() >= pre.queue(mq).capacity() {
            r == Err::<bool, HvError>(HvError::Full) && post.msgqs@ == pre.msgqs@
                && post.same_but_queues(pre)
        } else {
            &&& post.same_but_queues(pre)
            &&& post.queue_set(pre, mq, pre.queue(mq)@.push(msg))
            &&& r == Ok::<bool, HvError>(pre.queue(mq)@.len() + 1 < pre.queue(mq).capacity())
        }
    }

    fn msgq_send(&mut self, mq: MsgqHandle, msg: &[u8], reply: HvcReply) -> (r: Result<
        bool,
        HvError,
    >) {
        let i: usize = self.find_msgq(mq);
        if i >= MAX_MSGQ {
            return Err(HvError::InvalidHandle);
        }
        let ghost pre = *self;
        if let Some(mut q) = self.msgqs[i] {
            let r = q.enqueue(msg);
            self.msgqs[i] = Some(q);
            proof {
                assert(self.msgqs@ =~= pre.msgqs@.update(i as int, Some(q)));
                if r is Err {
                    assert(self.msgqs@ =~= pre.msgqs@);
                }
            }
            r
        } else {
            Err(HvError::InvalidHandle)
        }
    }

    open spec fn recv_call(mq: MsgqHandle, addr: u64, len: u64) -> Option<Seq<u64>> {
        None
    }

    fn msgq_recv_call(&self, mq: MsgqHandle, addr: u64, len: u64) -> (r: Option<[u64; 6]>) {
        None
    }

    open spec fn msgq_received(
        pre: Self,
        mq: MsgqHandle,
        buf: Seq<u8>,
        reply: HvcReply,
        post: Self,
        buf_after: Seq<u8>,
        r: Result<(u64, bool), HvError>,
    ) -> bool {
        if !pre.has_queue(mq) {
            r == Err::<(u64, bool), HvError>(HvError::InvalidHandle) && post == pre && buf_after
                == buf
        } else if pre.queue(mq)@.len() == 0 {
            r == Err::<(u64, bool), HvError>(HvError::Empty) && post.msgqs@ == pre.msgqs@
                && post.same_but_queues(pre) && buf_after == buf
        } else {
            let q = pre.queue(mq)@;
            &&& post.same_but_queues(pre)
            &&& post.queue_set(pre, mq, q.drop_first())
            &&& buf_after == received(q[0], buf)
            &&& r == Ok::<(u64, bool), HvError>(
                (copied(q[0].len(), buf.len()) as u64, q.len() > 1),
            )
        }
    }

    fn msgq_recv(&mut self, mq: MsgqHandle, buf: &mut [u8], reply: HvcReply) -> (r: Result<
        (u64, bool),
        HvError,
    >) {
        let i: usize = self.find_msgq(mq);
        if i >= MAX_MSGQ {
            return Err(HvError::InvalidHandle);
        }
        let ghost pre = *self;
        if let Some(mut q) = self.msgqs[i] {
            let r = q.dequeue(buf);
            self.msgqs[i] = Some(q);
            proof {
                assert(self.msgqs@ =~= pre.msgqs@.update(i as int, Some(q)));
                if r is Err {
                    assert(self.msgqs@ =~= pre.msgqs@);
                }
            }
            match r {
                Ok((n, more)) => Ok((n as u64, more)),
                Err(e) => Err(e),
            }
        } else {
            Err(HvError::InvalidHandle)
        }
    }

    open spec fn doorbell_created(
        hv: Self,
        pre: DoorbellTable,
        vm: VmHandle,
        irq: u32,
        post: DoorbellTable,
        r: Result<DoorbellHandle, HvError>,
    ) -> bool {
        let i = free_index(pre.slots(), 0);
        if !hv.has_vm(vm) {
            r == Err::<DoorbellHandle, HvError>(HvError::InvalidHandle) && post == pre
        } else if i >= pre.slots().len() {
            r == Err::<DoorbellHandle, HvError>(HvError::NoMemory) && post == pre
        } else {
            let h = DoorbellHandle(pre.next());
            &&& r == Ok::<DoorbellHandle, HvError>(h)
            &&& post.next() == pre.next() + 1
            &&& post.slots() == pre.slots().update(
                i,
                Some(
                    DoorbellEntry {
                        handle: h,
                        owner_vm: vm.0,
                        irq,
                        enable_mask: 0,
                        ack_mask: 0,
                        rings: 0,
                        deliveries: 0,
                    },
                ),
            )
        }
    }

    fn doorbell_create(&self, bells: &mut DoorbellTable, vm: VmHandle, irq: u32) -> (r: Result<
        DoorbellHandle,
        HvError,
    >) {
        if self.find_vm(vm) >= MAX_VMS {
            return Err(HvError::InvalidHandle);
        }
        match bells.register(vm.0, irq) {
            Some(h) => Ok(h),
            None => Err(HvError::NoMemory),
        }
    }

    open spec fn ring_call(bell: DoorbellHandle) -> Option<Seq<u64>> {
        None
    }

    fn doorbell_send_call(&self, bell: DoorbellHandle) -> (r: Option<[u64; 6]>) {
        None
    }

    open spec fn doorbell_rung(
        pre: DoorbellTable,
        bell: DoorbellHandle,
        reply: HvcReply,
        post: DoorbellTable,
        r: Result<Option<u32>, HvError>,
    ) -> bool {
        if pre.has(bell) {
            let e = pre.bell(bell);
            &&& r == Ok::<Option<u32>, HvError>(Some(e.irq))
            &&& post.next() == pre.next()
            &&& post.slots() == pre.slots().update(
                bell_index(pre.slots(), bell, 0),
                Some(DoorbellEntry { rings: crate::hypervisor::doorbell::counted(e.rings), ..e }),
            )
        } else {
            r == Err::<Option<u32>, HvError>(HvError::InvalidHandle) && post == pre
        }
    }

    fn doorbell_send(&self, bells: &mut DoorbellTable, bell: DoorbellHandle, reply: HvcReply) -> (r:
        Result<Option<u32>, HvError>) {
        match bells.ring_sgi(bell) {
            Ok(irq) => Ok(Some(irq)),
            Err(e) => Err(e),
        }
    }

    open spec fn mask_call(bell: DoorbellHandle, enable: u64, ack: u64) -> Option<Seq<u64>> {
        None
    }

    fn doorbell_set_mask_call(&self, bell: DoorbellHandle, enable: u64, ack: u64) -> (r: Option<
        [u64; 6],
    >) {
        None
    }

    open spec fn doorbell_masked(
        pre: DoorbellTable,
        bell: DoorbellHandle,
        enable: u64,
        ack: u64,
        reply: HvcReply,
        post: DoorbellTable,
        r: Result<(), HvError>,
    ) -> bool {
        if pre.has(bell) {
            &&& r is Ok
            &&& post.next() == pre.next()
            &&& post.slots() == pre.slots().update(
                bell_index(pre.slots(), bell, 0),
                Some(
                    DoorbellEntry { enable_mask: enable, ack_mask: ack, ..pre.bell(bell) },
                ),
            )
        } else {
            r == Err::<(), HvError>(HvError::InvalidHandle) && post == pre
        }
    }

    fn doorbell_set_mask(
        &self,
        bells: &mut DoorbellTable,
        bell: DoorbellHandle,
        enable: u64,
        ack: u64,
        reply: HvcReply,
    ) -> (r: Result<(), HvError>) {
        bells.set_mask(bell, enable, ack)
    }

    open spec fn donate_call(phys: PhysAddr, size: u64) -> Option<Seq<u64>> {
        None
    }

    fn mem_share_donate_call(&self, phys: PhysAddr, size: u64) -> (r: Option<[u64; 6]>) {
        None
    }

    open spec fn map_call(phys: PhysAddr, donated: HvcReply) -> Option<Seq<u64>> {
        None
    }

    fn mem_share_map_call(&self, phys: PhysAddr, donated: HvcReply) -> (r: Option<[u64; 6]>) {
        None
    }

    open spec fn mem_shared(
        phys: PhysAddr,
        size: u64,
        donated: HvcReply,
        mapped: HvcReply,
    ) -> Result<ShmemHandle, HvError> {
        Ok(ShmemHandle(phys as u32 ^ size as u32))
    }

    fn mem_share(&self, phys: PhysAddr, size: u64, donated: HvcReply, mapped: HvcReply) -> (r:
        Result<ShmemHandle, HvError>) {
        Ok(ShmemHandle(phys as u32 ^ size as u32))
    }
}

impl BareMetalBackend {
    /// Everything but the queues is as in `pre`.
    pub open spec fn same_but_queues(self, pre: Self) -> bool {
        &&& self.vms == pre.vms
        &&& self.next_handle == pre.next_handle
        &&& self.same_run(pre)
    }

    /// The queues are as in `pre`, but for the messages of one.
    pub open spec fn queue_set(self, pre: Self, h: MsgqHandle, messages: Seq<Seq<u8>>) -> bool {
        let i = queue_index(pre.msgqs@, h, 0);
        &&& self.msgqs@[i] is Some
        &&& self.msgqs@ == pre.msgqs@.update(i, self.msgqs@[i])
        &&& self.msgqs@[i]->0.name() == h
        &&& self.msgqs@[i]->0.vm() == pre.queue(h).vm()
        &&& self.msgqs@[i]->0.capacity() == pre.queue(h).capacity()
        &&& self.msgqs@[i]->0@ == messages
    }
}

proof fn lemma_vm_found(vms: Vms, h: VmHandle, i: int)
    requires
        0 <= i,
    ensures
        ({
            let k = vm_index(vms, h, i);
            k < vms.len() ==> i <= k && vms[k] is Some && vms[k]->0.handle == h
        }),
    decreases vms.len() - i,
{
    if i < vms.len() && !(vms[i] is Some && vms[i]->0.handle == h) {
        lemma_vm_found(vms, h, i + 1);
    }
}

proof fn lemma_queue_found(qs: Queues, h: MsgqHandle, i: int)
    requires
        0 <= i,
    ensures
        ({
            let k = queue_index(qs, h, i);
            k < qs.len() ==> i <= k && qs[k] is Some && qs[k]->0.name() == h
        }),
    decreases qs.len() - i,
{
    if i < qs.len() && !(qs[i] is Some && qs[i]->0.name() == h) {
        lemma_queue_found(qs, h, i + 1);
    }
}

proof fn lemma_vm_updated(vms: Vms, h: VmHandle, rec: VmRecord, i: int)
    requires
        0 <= i,
        rec.handle == h,
        vm_index(vms, h, i) < vms.len(),
    ensures
        vm_index(vms.update(vm_index(vms, h, i), Some(rec)), h, i) == vm_index(vms, h, i),
    decreases vms.len() - i,
{
    lemma_vm_found(vms, h, i);
    if !(vms[i] is Some && vms[i]->0.handle == h) {
        lemma_vm_found(vms, h, i + 1);
        lemma_vm_updated(vms, h, rec, i + 1);
    }
}

/// A preempted guest resumes where it was interrupted: the tick captures its frame, the
/// run ends as preempted, and the next run restores that frame with a full time slice.
pub proof fn law_preempted_guest_resumes(
    s0: BareMetalBackend,
    env: GuestEnv,
    frame: GuestFrame,
    s1: BareMetalBackend,
    saved: Context,
    s2: BareMetalBackend,
    exit: Result<VcpuExit, HvError>,
    s3: BareMetalBackend,
    entry: Result<VcpuEntry, HvError>,
)
    requires
        s0.tick_result(env.cpu) == GuestTick::Preempt,
        s0.vm(s0.active->0).running,
        s0.vm(s0.active->0).started,
        BareMetalBackend::ticked(s0, env, frame, s1, GuestTick::Preempt),
        BareMetalBackend::vcpu_exited(s1, s0.active->0, saved, s2, exit),
        BareMetalBackend::vcpu_entered(s2, s0.active->0, 0, env, s3, entry),
    ensures
        exit == Ok::<VcpuExit, HvError>(VcpuExit::Preempted),
        entry is Ok,
        entry->Ok_0.context.lr == env.restore_stub,
        entry->Ok_0.context.sp == frame.base,
        entry->Ok_0.context.fp == frame.fp,
        entry->Ok_0.context.x19_to_x28 == frame.x19_to_x28,
        entry->Ok_0.context.spsr == SPSR_KERNEL,
        s3.vm(s0.active->0).budget_ticks == s0.quantum_ticks,
{
    let h = s0.active->0;
    lemma_vm_found(s0.vms@, h, 0);
    let i = vm_index(s0.vms@, h, 0);
    lemma_vm_updated(s0.vms@, h, s1.vms@[i]->0, 0);
    lemma_vm_updated(s1.vms@, h, s2.vms@[i]->0, 0);
    lemma_vm_updated(s2.vms@, h, s3.vms@[i]->0, 0);
}

/// A guest that yields resumes with the context that it left, but for interrupts being
/// unmasked.
pub proof fn law_yielded_guest_resumes(
    s0: BareMetalBackend,
    vm: VmHandle,
    saved: Context,
    s1: BareMetalBackend,
    exit: Result<VcpuExit, HvError>,
    env: GuestEnv,
    s2: BareMetalBackend,
    entry: Result<VcpuEntry, HvError>,
)
    requires
        s0.has_vm(vm),
        s0.vm(vm).running,
        s0.vm(vm).started,
        !s0.vm(vm).preempted,
        saved.lr != env.restore_stub,
        BareMetalBackend::vcpu_exited(s0, vm, saved, s1, exit),
        BareMetalBackend::vcpu_entered(s1, vm, 0, env, s2, entry),
    ensures
        exit == Ok::<VcpuExit, HvError>(VcpuExit::Yielded),
        entry is Ok,
        entry->Ok_0.context == (Context { spsr: SPSR_GUEST, ..saved }),
{
    lemma_vm_found(s0.vms@, vm, 0);
    let i = vm_index(s0.vms@, vm, 0);
    lemma_vm_updated(s0.vms@, vm, s1.vms@[i]->0, 0);
    lemma_vm_updated(s1.vms@, vm, s2.vms@[i]->0, 0);
}

/// Ticks inside a guest use up its time slice one by one, and it is preempted only when
/// none is left.
pub proof fn law_slice_is_used_up(
    s0: BareMetalBackend,
    env: GuestEnv,
    frame: GuestFrame,
    s1: BareMetalBackend,
    r: GuestTick,
)
    requires
        s0.tick_result(env.cpu) != GuestTick::Stale,
        BareMetalBackend::ticked(s0, env, frame, s1, r),
    ensures
        s0.vm(s0.active->0).budget_ticks == 0 ==> r == GuestTick::Preempt,
        s0.vm(s0.active->0).budget_ticks > 0 ==> r == GuestTick::Continue && s1.vm(
            s0.active->0,
        ).budget_ticks == s0.vm(s0.active->0).budget_ticks - 1,
{
    let h = s0.active->0;
    lemma_vm_found(s0.vms@, h, 0);
    let i = vm_index(s0.vms@, h, 0);
    lemma_vm_updated(s0.vms@, h, s1.vms@[i]->0, 0);
}

/// A destroyed VM is gone and no other is touched.
pub proof fn law_destroyed_is_gone(
    s0: BareMetalBackend,
    vm: VmHandle,
    s1: BareMetalBackend,
    r: Result<(), HvError>,
)
    requires
        s0.wf(),
        BareMetalBackend::vm_destroyed(s0, vm, s1, r),
        r is Ok,
    ensures
        !s1.has_vm(vm),
        forall|i: int|
            0 <= i < MAX_VMS && (#[trigger] s0.vms@[i]) is Some && s0.vms@[i]->0.handle != vm
                ==> s1.vms@[i] == s0.vms@[i],
{
    lemma_vm_found(s0.vms@, vm, 0);
    lemma_vm_found(s1.vms@, vm, 0);
}

/// Function number of the identify hypercall.
pub const HYP_IDENTIFY: u64 = 0x8000;

/// Ring a doorbell.
pub const BELL_SEND: u64 = 0x8012;

/// Set a doorbell's masks.
pub const BELL_SET_MASK: u64 = 0x8015;

/// Send a message.
pub const MSGQ_SEND: u64 = 0x801B;

/// Receive a message.
pub const MSGQ_RECV: u64 = 0x801C;

/// Map memory into an address space.
pub const ADDRSPACE_MAP: u64 = 0x802B;

/// Unmap memory from an address space.
pub const ADDRSPACE_UNMAP: u64 = 0x802C;

/// Donate memory to a memory extent.
pub const MEMEXTENT_DONATE: u64 = 0x8061;

/// Donate CPU time to a vCPU.
pub const VCPU_RUN: u64 = 0x8065;

/// Raise the receive interrupt at once.
pub const MSGQ_TX_FLAGS_PUSH: u64 = 1;

/// The caller's own address space.
pub const ADDRSPACE_SELF_CAP: u64 = 0;

/// Function id of a hypercall: 64-bit fast call of the vendor hypervisor service, with
/// the low 14 bits of the function number.
pub open spec fn hypercall_id(fn_num: u64) -> u64 {
    (0xC600_8000 + fn_num % 0x4000) as u64
}

/// Function id of a hypercall.
pub fn hypercall(fn_num: u64) -> (id: u64)
    ensures
        id == hypercall_id(fn_num),
{
    assert(fn_num & 0x3FFF == fn_num % 0x4000) by (bit_vector);
    0xC600_8000 + (fn_num & 0x3FFF)
}

/// The Gunyah backend.
pub struct GunyahBackend {
    pub next_handle: u32,
}

impl GunyahBackend {
    /// The first handle is 1.
    pub fn new() -> (b: Self)
        ensures
            b.next_handle == 1,
    {
        GunyahBackend { next_handle: 1 }
    }

    /// The reply to the identify hypercall is Gunyah's.
    pub open spec fn identified(reply: HvcReply) -> bool {
        reply.r0 == 0 && reply.r1 == 0x4755_5919 && reply.r2 == 0 && reply.r3 == 0
    }

    /// Arguments of the identify hypercall.
    pub fn detect_call() -> (a: [u64; 6])
        ensures
            a@ == seq![hypercall_id(HYP_IDENTIFY), 0, 0, 0, 0, 0],
    {
        let a: [u64; 6] = [hypercall(HYP_IDENTIFY), 0, 0, 0, 0, 0];
        assert(a@ =~= seq![hypercall_id(HYP_IDENTIFY), 0, 0, 0, 0, 0]);
        a
    }

    /// True if the reply to the identify hypercall is Gunyah's.
    pub fn detect(reply: HvcReply) -> (r: bool)
        ensures
            r == Self::identified(reply),
    {
        reply.r0 == 0 && reply.r1 == 0x4755_5919 && reply.r2 == 0 && reply.r3 == 0
    }
}

impl Hypervisor for GunyahBackend {
    open spec fn wf(self) -> bool {
        true
    }

    open spec fn can_name(self) -> bool {
        true
    }

    open spec fn vm_created(
        pre: Self,
        config: VmConfig,
        post: Self,
        r: Result<VmHandle, HvError>,
    ) -> bool {
        r == Err::<VmHandle, HvError>(HvError::NotSupported) && post == pre
    }

    fn vm_create(&mut self, config: VmConfig) -> (r: Result<VmHandle, HvError>) {
        Err(HvError::NotSupported)
    }

    open spec fn vm_destroyed(
        pre: Self,
        vm: VmHandle,
        post: Self,
        r: Result<(), HvError>,
    ) -> bool {
        r == Err::<(), HvError>(HvError::NotSupported) && post == pre
    }

    fn vm_destroy(&mut self, vm: VmHandle) -> (r: Result<(), HvError>) {
        Err(HvError::NotSupported)
    }

    open spec fn vcpu_entered(
        pre: Self,
        vm: VmHandle,
        vcpu: u32,
        env: GuestEnv,
        post: Self,
        r: Result<VcpuEntry, HvError>,
    ) -> bool {
        r == Err::<VcpuEntry, HvError>(HvError::NotSupported) && post == pre
    }

    fn vcpu_enter(&mut self, vm: VmHandle, vcpu: u32, env: GuestEnv) -> (r: Result<
        VcpuEntry,
        HvError,
    >) {
        Err(HvError::NotSupported)
    }

    open spec fn vcpu_exited(
        pre: Self,
        vm: VmHandle,
        saved: Context,
        post: Self,
        r: Result<VcpuExit, HvError>,
    ) -> bool {
        r == Err::<VcpuExit, HvError>(HvError::NotSupported) && post == pre
    }

    fn vcpu_exit(&mut self, vm: VmHandle, saved: Context) -> (r: Result<VcpuExit, HvError>) {
        Err(HvError::NotSupported)
    }

    open spec fn vcpu_stopped(
        pre: Self,
        vm: VmHandle,
        post: Self,
        r: Result<(), HvError>,
    ) -> bool {
        r == Err::<(), HvError>(HvError::NotSupported) && post == pre
    }

    fn vcpu_stop(&mut self, vm: VmHandle, vcpu: u32) -> (r: Result<(), HvError>) {
        Err(HvError::NotSupported)
    }

    open spec fn msgq_created(
        pre: Self,
        vm: VmHandle,
        depth: u32,
        post: Self,
        r: Result<MsgqHandle, HvError>,
    ) -> bool {
        r == Err::<MsgqHandle, HvError>(HvError::NotSupported) && post == pre
    }

    fn msgq_create(&mut self, vm: VmHandle, depth: u32) -> (r: Result<MsgqHandle, HvError>) {
        Err(HvError::NotSupported)
    }

    open spec fn send_call(mq: MsgqHandle, len: u64, addr: u64) -> Option<Seq<u64>> {
        if len > MSGQ_MAX_MSG_SIZE {
            None
        } else {
            Some(
                seq![hypercall_id(MSGQ_SEND), mq.0 as u64, len, addr, MSGQ_TX_FLAGS_PUSH, 0],
            )
        }
    }

    fn msgq_send_call(&self, mq: MsgqHandle, len: u64, addr: u64) -> (r: Option<[u64; 6]>) {
        if len > MSGQ_MAX_MSG_SIZE as u64 {
            return None;
        }
        let a: [u64; 6] = [hypercall(MSGQ_SEND), mq.0 as u64, len, addr, MSGQ_TX_FLAGS_PUSH, 0];
        assert(a@ =~= seq![hypercall_id(MSGQ_SEND), mq.0 as u64, len, addr, MSGQ_TX_FLAGS_PUSH, 0]);
        Some(a)
    }

    open spec fn msgq_sent(
        pre: Self,
        mq: MsgqHandle,
        msg: Seq<u8>,
        reply: HvcReply,
        post: Self,
        r: Result<bool, HvError>,
    ) -> bool {
        &&& post == pre
        &&& r == if msg.len() > MSGQ_MAX_MSG_SIZE {
            Err::<bool, HvError>(HvError::BadMessage)
        } else if reply.r0 == 0 {
            Ok(reply.r1 != 0)
        } else {
            Err(HvError::HypercallFailed(reply.r0))
        }
    }

    fn msgq_send(&mut self, mq: MsgqHandle, msg: &[u8], reply: HvcReply) -> (r: Result<
        bool,
        HvError,
    >) {
        if msg.len() > MSGQ_MAX_MSG_SIZE {
            Err(HvError::BadMessage)
        } else if reply.r0 == 0 {
            Ok(reply.r1 != 0)
        } else {
            Err(HvError::HypercallFailed(reply.r0))
        }
    }

    open spec fn recv_call(mq: MsgqHandle, addr: u64, len: u64) -> Option<Seq<u64>> {
        Some(seq![hypercall_id(MSGQ_RECV), mq.0 as u64, addr, len, 0, 0])
    }

    fn msgq_recv_call(&self, mq: MsgqHandle, addr: u64, len: u64) -> (r: Option<[u64; 6]>) {
        let a: [u64; 6] = [hypercall(MSGQ_RECV), mq.0 as u64, addr, len, 0, 0];
        assert(a@ =~= seq![hypercall_id(MSGQ_RECV), mq.0 as u64, addr, len, 0, 0]);
        Some(a)
    }

    open spec fn msgq_received(
        pre: Self,
        mq: MsgqHandle,
        buf: Seq<u8>,
        reply: HvcReply,
        post: Self,
        buf_after: Seq<u8>,
        r: Result<(u64, bool), HvError>,
    ) -> bool {
        &&& post == pre
        &&& buf_after == buf
        &&& r == if reply.r0 == 0 {
            Ok::<(u64, bool), HvError>((reply.r1, reply.r2 != 0))
        } else {
            Err(HvError::HypercallFailed(reply.r0))
        }
    }

    fn msgq_recv(&mut self, mq: MsgqHandle, buf: &mut [u8], reply: HvcReply) -> (r: Result<
        (u64, bool),
        HvError,
    >) {
        if reply.r0 == 0 {
            Ok((reply.r1, reply.r2 != 0))
        } else {
            Err(HvError::HypercallFailed(reply.r0))
        }
    }

    open spec fn doorbell_created(
        hv: Self,
        pre: DoorbellTable,
        vm: VmHandle,
        irq: u32,
        post: DoorbellTable,
        r: Result<DoorbellHandle, HvError>,
    ) -> bool {
        r == Err::<DoorbellHandle, HvError>(HvError::NotSupported) && post == pre
    }

    fn doorbell_create(&self, bells: &mut DoorbellTable, vm: VmHandle, irq: u32) -> (r: Result<
        DoorbellHandle,
        HvError,
    >) {
        Err(HvError::NotSupported)
    }

    open spec fn ring_call(bell: DoorbellHandle) -> Option<Seq<u64>> {
        Some(seq![hypercall_id(BELL_SEND), bell.0 as u64, 0, 0, 0, 0])
    }

    fn doorbell_send_call(&self, bell: DoorbellHandle) -> (r: Option<[u64; 6]>) {
        let a: [u64; 6] = [hypercall(BELL_SEND), bell.0 as u64, 0, 0, 0, 0];
        assert(a@ =~= seq![hypercall_id(BELL_SEND), bell.0 as u64, 0, 0, 0, 0]);
        Some(a)
    }

    open spec fn doorbell_rung(
        pre: DoorbellTable,
        bell: DoorbellHandle,
        reply: HvcReply,
        post: DoorbellTable,
        r: Result<Option<u32>, HvError>,
    ) -> bool {
        &&& post == pre
        &&& r == if reply.r0 == 0 {
            Ok::<Option<u32>, HvError>(None)
        } else {
            Err(HvError::HypercallFailed(reply.r0))
        }
    }

    fn doorbell_send(&self, bells: &mut DoorbellTable, bell: DoorbellHandle, reply: HvcReply) -> (r:
        Result<Option<u32>, HvError>) {
        if reply.r0 == 0 {
            Ok(None)
        } else {
            Err(HvError::HypercallFailed(reply.r0))
        }
    }

    open spec fn mask_call(bell: DoorbellHandle, enable: u64, ack: u64) -> Option<Seq<u64>> {
        Some(seq![hypercall_id(BELL_SET_MASK), bell.0 as u64, enable, ack, 0, 0])
    }

    fn doorbell_set_mask_call(&self, bell: DoorbellHandle, enable: u64, ack: u64) -> (r: Option<
        [u64; 6],
    >) {
        let a: [u64; 6] = [hypercall(BELL_SET_MASK), bell.0 as u64, enable, ack, 0, 0];
        assert(a@ =~= seq![hypercall_id(BELL_SET_MASK), bell.0 as u64, enable, ack, 0, 0]);
        Some(a)
    }

    open spec fn doorbell_masked(
        pre: DoorbellTable,
        bell: DoorbellHandle,
        enable: u64,
        ack: u64,
        reply: HvcReply,
        post: DoorbellTable,
        r: Result<(), HvError>,
    ) -> bool {
        &&& post == pre
        &&& r == if reply.r0 == 0 {
            Ok::<(), HvError>(())
        } else {
            Err(HvError::HypercallFailed(reply.r0))
        }
    }

    fn doorbell_set_mask(
        &self,
        bells: &mut DoorbellTable,
        bell: DoorbellHandle,
        enable: u64,
        ack: u64,
        reply: HvcReply,
    ) -> (r: Result<(), HvError>) {
        if reply.r0 == 0 {
            Ok(())
        } else {
            Err(HvError::HypercallFailed(reply.r0))
        }
    }

    open spec fn donate_call(phys: PhysAddr, size: u64) -> Option<Seq<u64>> {
        Some(seq![hypercall_id(MEMEXTENT_DONATE), 0, ADDRSPACE_SELF_CAP, 0, phys, size])
    }

    fn mem_share_donate_call(&self, phys: PhysAddr, size: u64) -> (r: Option<[u64; 6]>) {
        let a: [u64; 6] = [hypercall(MEMEXTENT_DONATE), 0, ADDRSPACE_SELF_CAP, 0, phys, size];
        assert(a@ =~= seq![hypercall_id(MEMEXTENT_DONATE), 0, ADDRSPACE_SELF_CAP, 0, phys, size]);
        Some(a)
    }

    open spec fn map_call(phys: PhysAddr, donated: HvcReply) -> Option<Seq<u64>> {
        if donated.r0 == 0 {
            Some(
                seq![hypercall_id(ADDRSPACE_MAP), ADDRSPACE_SELF_CAP, donated.r1, phys, 6, 0],
            )
        } else {
            None
        }
    }

    fn mem_share_map_call(&self, phys: PhysAddr, donated: HvcReply) -> (r: Option<[u64; 6]>) {
        if donated.r0 != 0 {
            return None;
        }
        let a: [u64; 6] = [hypercall(ADDRSPACE_MAP), ADDRSPACE_SELF_CAP, donated.r1, phys, 6, 0];
        assert(a@ =~= seq![
            hypercall_id(ADDRSPACE_MAP),
            ADDRSPACE_SELF_CAP,
            donated.r1,
            phys,
            6,
            0,
        ]);
        Some(a)
    }

    open spec fn mem_shared(
        phys: PhysAddr,
        size: u64,
        donated: HvcReply,
        mapped: HvcReply,
    ) -> Result<ShmemHandle, HvError> {
        if donated.r0 != 0 {
            Err(HvError::HypercallFailed(donated.r0))
        } else if mapped.r0 != 0 {
            Err(HvError::HypercallFailed(mapped.r0))
        } else {
            Ok(ShmemHandle(donated.r1 as u32))
        }
    }

    fn mem_share(&self, phys: PhysAddr, size: u64, donated: HvcReply, mapped: HvcReply) -> (r:
        Result<ShmemHandle, HvError>) {
        if donated.r0 != 0 {
            Err(HvError::HypercallFailed(donated.r0))
        } else if mapped.r0 != 0 {
            Err(HvError::HypercallFailed(mapped.r0))
        } else {
            Ok(ShmemHandle(donated.r1 as u32))
        }
    }
}

} // verus!
