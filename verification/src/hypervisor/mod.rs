//! Hypervisor abstraction: VMs, vCPUs, message queues, doorbells and shared memory.

use vstd::prelude::*;
use crate::hypervisor::backend::GunyahBackend;
use crate::hypervisor::doorbell::DoorbellTable;
use crate::mem::PhysAddr;
use crate::sched::task::Context;

pub mod backend;
pub mod doorbell;
pub mod laws;
pub mod msgq;

verus! {

/// What can go wrong.
#[derive(Debug, Clone, Copy, PartialEq, Eq, Structural)]
pub enum HvError {
    /// The backend does not support the operation.
    NotSupported,
    /// Out of memory, or no free slot.
    NoMemory,
    /// No object has the handle.
    InvalidHandle,
    /// The object is in the wrong state.
    BadState,
    /// Receive on an empty message queue.
    Empty,
    /// Send to a full message queue.
    Full,
    /// The message does not fit a queue slot.
    BadMessage,
    /// A hypercall failed with the given code.
    HypercallFailed(u64),
}

/// Handle of a guest VM.
#[derive(Debug, Clone, Copy, PartialEq, Eq, Structural)]
pub struct VmHandle(pub u32);

/// Handle of a doorbell.
#[derive(Debug, Clone, Copy, PartialEq, Eq, Structural)]
pub struct DoorbellHandle(pub u32);

/// Handle of a shared memory region.
#[derive(Debug, Clone, Copy, PartialEq, Eq, Structural)]
pub struct ShmemHandle(pub u32);

/// Handle of a message queue.
#[derive(Debug, Clone, Copy, PartialEq, Eq, Structural)]
pub struct MsgqHandle(pub u32);

/// Most bytes of one message-queue message.
pub const MSGQ_MAX_MSG_SIZE: usize = 96;

/// Depth of a message queue created without an explicit one.
pub const MSGQ_DEFAULT_DEPTH: u32 = 16;

/// Error codes of hypercalls.
#[derive(Debug, Clone, Copy, PartialEq, Eq, Structural)]
pub enum GunyahError {
    Success,
    Fail,
    NoMem,
    BadParam,
    NoSuchCap,
    Denied,
    Busy,
    NotReady,
    MsgqEmpty,
    MsgqFull,
    MsgqBadMsg,
}

impl GunyahError {
    /// Number of the code.
    pub open spec fn number(self) -> u64 {
        match self {
            GunyahError::Success => 0,
            GunyahError::Fail => 1,
            GunyahError::NoMem => 2,
            GunyahError::BadParam => 3,
            GunyahError::NoSuchCap => 4,
            GunyahError::Denied => 5,
            GunyahError::Busy => 6,
            GunyahError::NotReady => 7,
            GunyahError::MsgqEmpty => 8,
            GunyahError::MsgqFull => 9,
            GunyahError::MsgqBadMsg => 10,
        }
    }

    /// Number of the code.
    pub fn code(self) -> (n: u64)
        ensures
            n == self.number(),
    {
        match self {
            GunyahError::Success => 0,
            GunyahError::Fail => 1,
            GunyahError::NoMem => 2,
            GunyahError::BadParam => 3,
            GunyahError::NoSuchCap => 4,
            GunyahError::Denied => 5,
            GunyahError::Busy => 6,
            GunyahError::NotReady => 7,
            GunyahError::MsgqEmpty => 8,
            GunyahError::MsgqFull => 9,
            GunyahError::MsgqBadMsg => 10,
        }
    }
}

/// Why a vCPU stopped running.
#[derive(Debug, Clone, Copy, PartialEq, Eq, Structural)]
pub enum VcpuExit {
    /// An interrupt needs servicing.
    Irq,
    /// The guest made a call; the arguments are its x0 to x3.
    TrappedCall { func: u64, arg1: u64, arg2: u64, arg3: u64 },
    /// The guest asked for power-off.
    PowerOff,
    /// The guest called the yield function.
    Yielded,
    /// The tick cut the guest's time slice short.
    Preempted,
}

/// What a VM is created from.
#[derive(Debug, Clone, Copy)]
pub struct VmConfig {
    /// Base of the VM's RAM.
    pub ram_base: PhysAddr,
    /// Size of the VM's RAM in bytes.
    pub ram_size: u64,
    /// Guest entry point.
    pub entry: PhysAddr,
    /// Boot arguments: x4 and x5 of the first vCPU.
    pub boot: [u64; 2],
}

/// The surroundings in which a vCPU is entered.
#[derive(Debug, Clone, Copy)]
pub struct GuestEnv {
    /// The CPU that runs it.
    pub cpu: usize,
    /// Root of the kernel's page tables.
    pub kernel_table: u64,
    /// Address of the stub that resumes a preempted guest.
    pub restore_stub: u64,
    /// Console UART, x7 of the guest.
    pub uart: u64,
}

/// What to load when a vCPU is entered.
#[derive(Debug, Clone, Copy)]
pub struct VcpuEntry {
    pub context: Context,
    pub boot: [u64; 2],
    pub uart: u64,
}

/// Registers x0 to x3 that a hypercall returned.
#[derive(Debug, Clone, Copy, PartialEq, Eq, Structural)]
pub struct HvcReply {
    pub r0: u64,
    pub r1: u64,
    pub r2: u64,
    pub r3: u64,
}

/// A hypervisor backend.
///
/// Where a backend needs a hypercall for an operation, the method whose name ends in
/// `_call` gives its arguments x0 to x5, and the operation takes the registers that it
/// returned.  A backend that needs none gives `None` and ignores the registers.
pub trait Hypervisor: Sized {
    /// The backend's records are consistent.
    spec fn wf(self) -> bool;

    /// Another handle can be given out.
    spec fn can_name(self) -> bool;

    /// What creating a VM does.
    spec fn vm_created(
        pre: Self,
        config: VmConfig,
        post: Self,
        r: Result<VmHandle, HvError>,
    ) -> bool;

    /// Create a VM.
    fn vm_create(&mut self, config: VmConfig) -> (r: Result<VmHandle, HvError>)
        requires
            old(self).wf(),
            old(self).can_name(),
            config.ram_base + config.ram_size <= u64::MAX,
        ensures
            final(self).wf(),
            Self::vm_created(*old(self), config, *final(self), r),
    ;

    /// What destroying a VM does.
    spec fn vm_destroyed(pre: Self, vm: VmHandle, post: Self, r: Result<(), HvError>) -> bool;

    /// Destroy a VM whose vCPU is not running.
    fn vm_destroy(&mut self, vm: VmHandle) -> (r: Result<(), HvError>)
        requires
            old(self).wf(),
        ensures
            final(self).wf(),
            Self::vm_destroyed(*old(self), vm, *final(self), r),
    ;

    /// What entering a vCPU does.
    spec fn vcpu_entered(
        pre: Self,
        vm: VmHandle,
        vcpu: u32,
        env: GuestEnv,
        post: Self,
        r: Result<VcpuEntry, HvError>,
    ) -> bool;

    /// Prepare a vCPU to run; the caller then switches to it.
    fn vcpu_enter(&mut self, vm: VmHandle, vcpu: u32, env: GuestEnv) -> (r: Result<
        VcpuEntry,
        HvError,
    >)
        requires
            old(self).wf(),
        ensures
            final(self).wf(),
            Self::vcpu_entered(*old(self), vm, vcpu, env, *final(self), r),
    ;

    /// What the end of a vCPU's run does.
    spec fn vcpu_exited(
        pre: Self,
        vm: VmHandle,
        saved: Context,
        post: Self,
        r: Result<VcpuExit, HvError>,
    ) -> bool;

    /// The switch to the vCPU came back; `saved` is the context that the guest left.
    fn vcpu_exit(&mut self, vm: VmHandle, saved: Context) -> (r: Result<VcpuExit, HvError>)
        requires
            old(self).wf(),
        ensures
            final(self).wf(),
            Self::vcpu_exited(*old(self), vm, saved, *final(self), r),
    ;

    /// What stopping a vCPU does.
    spec fn vcpu_stopped(pre: Self, vm: VmHandle, post: Self, r: Result<(), HvError>) -> bool;

    /// Stop a vCPU that is not running: its next run starts afresh.
    fn vcpu_stop(&mut self, vm: VmHandle, vcpu: u32) -> (r: Result<(), HvError>)
        requires
            old(self).wf(),
        ensures
            final(self).wf(),
            Self::vcpu_stopped(*old(self), vm, *final(self), r),
    ;

    /// What creating a message queue does.
    spec fn msgq_created(
        pre: Self,
        vm: VmHandle,
        depth: u32,
        post: Self,
        r: Result<MsgqHandle, HvError>,
    ) -> bool;

    /// Create a message queue of a VM.
    fn msgq_create(&mut self, vm: VmHandle, depth: u32) -> (r: Result<MsgqHandle, HvError>)
        requires
            old(self).wf(),
            old(self).can_name(),
        ensures
            final(self).wf(),
            Self::msgq_created(*old(self), vm, depth, *final(self), r),
    ;

    /// The hypercall of a send.
    spec fn send_call(mq: MsgqHandle, len: u64, addr: u64) -> Option<Seq<u64>>;

    /// The hypercall to make before `msgq_send`; the message is `len` bytes at `addr`.
    fn msgq_send_call(&self, mq: MsgqHandle, len: u64, addr: u64) -> (r: Option<[u64; 6]>)
        ensures
            match r {
                Some(a) => Self::send_call(mq, len, addr) == Some(a@),
                None => Self::send_call(mq, len, addr) is None,
            },
    ;

    /// What sending a message does.
    spec fn msgq_sent(
        pre: Self,
        mq: MsgqHandle,
        msg: Seq<u8>,
        reply: HvcReply,
        post: Self,
        r: Result<bool, HvError>,
    ) -> bool;

    /// Send a message.  `Ok(true)` says that the queue has room for another.
    fn msgq_send(&mut self, mq: MsgqHandle, msg: &[u8], reply: HvcReply) -> (r: Result<
        bool,
        HvError,
    >)
        requires
            old(self).wf(),
        ensures
            final(self).wf(),
            Self::msgq_sent(*old(self), mq, msg@, reply, *final(self), r),
    ;

    /// The hypercall of a receive.
    spec fn recv_call(mq: MsgqHandle, addr: u64, len: u64) -> Option<Seq<u64>>;

    /// The hypercall to make before `msgq_recv`; the buffer is `len` bytes at `addr`.
    fn msgq_recv_call(&self, mq: MsgqHandle, addr: u64, len: u64) -> (r: Option<[u64; 6]>)
        ensures
            match r {
                Some(a) => Self::recv_call(mq, addr, len) == Some(a@),
                None => Self::recv_call(mq, addr, len) is None,
            },
    ;

    /// What receiving a message does.
    spec fn msgq_received(
        pre: Self,
        mq: MsgqHandle,
        buf: Seq<u8>,
        reply: HvcReply,
        post: Self,
        buf_after: Seq<u8>,
        r: Result<(u64, bool), HvError>,
    ) -> bool;

    /// Receive a message.  Returns its size in the buffer and whether more are queued.
    fn msgq_recv(&mut self, mq: MsgqHandle, buf: &mut [u8], reply: HvcReply) -> (r: Result<
        (u64, bool),
        HvError,
    >)
        requires
            old(self).wf(),
        ensures
            final(self).wf(),
            final(buf)@.len() == old(buf)@.len(),
            Self::msgq_received(*old(self), mq, old(buf)@, reply, *final(self), final(buf)@, r),
    ;

    /// What registering a doorbell does.
    spec fn doorbell_created(
        hv: Self,
        pre: DoorbellTable,
        vm: VmHandle,
        irq: u32,
        post: DoorbellTable,
        r: Result<DoorbellHandle, HvError>,
    ) -> bool;

    /// Register a doorbell of a VM that `irq` delivers.
    fn doorbell_create(&self, bells: &mut DoorbellTable, vm: VmHandle, irq: u32) -> (r: Result<
        DoorbellHandle,
        HvError,
    >)
        requires
            self.wf(),
            old(bells).wf(),
            old(bells).next() < u32::MAX,
        ensures
            final(bells).wf(),
            Self::doorbell_created(*self, *old(bells), vm, irq, *final(bells), r),
    ;

    /// The hypercall of a ring.
    spec fn ring_call(bell: DoorbellHandle) -> Option<Seq<u64>>;

    /// The hypercall to make before `doorbell_send`.
    fn doorbell_send_call(&self, bell: DoorbellHandle) -> (r: Option<[u64; 6]>)
        ensures
            match r {
                Some(a) => Self::ring_call(bell) == Some(a@),
                None => Self::ring_call(bell) is None,
            },
    ;

    /// What ringing a doorbell does.
    spec fn doorbell_rung(
        pre: DoorbellTable,
        bell: DoorbellHandle,
        reply: HvcReply,
        post: DoorbellTable,
        r: Result<Option<u32>, HvError>,
    ) -> bool;

    /// Ring a doorbell.  Returns the software interrupt to raise on CPU 0, if the
    /// backend delivers doorbells so.
    fn doorbell_send(&self, bells: &mut DoorbellTable, bell: DoorbellHandle, reply: HvcReply) -> (r:
        Result<Option<u32>, HvError>)
        requires
            old(bells).wf(),
        ensures
            final(bells).wf(),
            Self::doorbell_rung(*old(bells), bell, reply, *final(bells), r),
    ;

    /// The hypercall that sets a doorbell's masks.
    spec fn mask_call(bell: DoorbellHandle, enable: u64, ack: u64) -> Option<Seq<u64>>;

    /// The hypercall to make before `doorbell_set_mask`.
    fn doorbell_set_mask_call(&self, bell: DoorbellHandle, enable: u64, ack: u64) -> (r: Option<
        [u64; 6],
    >)
        ensures
            match r {
                Some(a) => Self::mask_call(bell, enable, ack) == Some(a@),
                None => Self::mask_call(bell, enable, ack) is None,
            },
    ;

    /// What setting a doorbell's masks does.
    spec fn doorbell_masked(
        pre: DoorbellTable,
        bell: DoorbellHandle,
        enable: u64,
        ack: u64,
        reply: HvcReply,
        post: DoorbellTable,
        r: Result<(), HvError>,
    ) -> bool;

    /// Configure which doorbell flags are enabled and acknowledged.
    fn doorbell_set_mask(
        &self,
        bells: &mut DoorbellTable,
        bell: DoorbellHandle,
        enable: u64,
        ack: u64,
        reply: HvcReply,
    ) -> (r: Result<(), HvError>)
        requires
            old(bells).wf(),
        ensures
            final(bells).wf(),
            Self::doorbell_masked(*old(bells), bell, enable, ack, reply, *final(bells), r),
    ;

    /// The hypercall that donates memory.
    spec fn donate_call(phys: PhysAddr, size: u64) -> Option<Seq<u64>>;

    /// The first hypercall to make before `mem_share`.
    fn mem_share_donate_call(&self, phys: PhysAddr, size: u64) -> (r: Option<[u64; 6]>)
        ensures
            match r {
                Some(a) => Self::donate_call(phys, size) == Some(a@),
                None => Self::donate_call(phys, size) is None,
            },
    ;

    /// The hypercall that maps donated memory.
    spec fn map_call(phys: PhysAddr, donated: HvcReply) -> Option<Seq<u64>>;

    /// The second hypercall to make before `mem_share`, if the first one returned
    /// success.
    fn mem_share_map_call(&self, phys: PhysAddr, donated: HvcReply) -> (r: Option<[u64; 6]>)
        ensures
            match r {
                Some(a) => Self::map_call(phys, donated) == Some(a@),
                None => Self::map_call(phys, donated) is None,
            },
    ;

    /// What sharing memory returns.
    spec fn mem_shared(
        phys: PhysAddr,
        size: u64,
        donated: HvcReply,
        mapped: HvcReply,
    ) -> Result<ShmemHandle, HvError>;

    /// Share memory with a VM.
    fn mem_share(&self, phys: PhysAddr, size: u64, donated: HvcReply, mapped: HvcReply) -> (r:
        Result<ShmemHandle, HvError>)
        ensures
            r == Self::mem_shared(phys, size, donated, mapped),
    ;
}

/// The backends.
#[derive(Debug, Clone, Copy, PartialEq, Eq, Structural)]
pub enum BackendKind {
    BareMetal,
    Gunyah,
}

/// Which backend was detected.
#[derive(Debug, Clone, Copy)]
pub struct Selection {
    pub kind: Option<BackendKind>,
}

/// The backend to use: Gunyah where the probe was made and its reply says so, the
/// bare-metal one otherwise.
pub open spec fn selected(identify: Option<HvcReply>) -> BackendKind {
    match identify {
        Some(reply) => if GunyahBackend::identified(reply) {
            BackendKind::Gunyah
        } else {
            BackendKind::BareMetal
        },
        None => BackendKind::BareMetal,
    }
}

/// Decide which backend is present.  `identify` is the reply to the probe, or `None`
/// where it must not be made.
fn select_backend(identify: Option<HvcReply>) -> (k: BackendKind)
    ensures
        k == selected(identify),
{
    match identify {
        Some(reply) => {
            if GunyahBackend::detect(reply) {
                BackendKind::Gunyah
            } else {
                BackendKind::BareMetal
            }
        },
        None => BackendKind::BareMetal,
    }
}

/// Detect the backend once; later calls return the same one.
pub fn detect_backend(s: &mut Selection, identify: Option<HvcReply>) -> (k: BackendKind)
    ensures
        final(s).kind == Some(k),
        k == match old(s).kind {
            Some(k0) => k0,
            None => selected(identify),
        },
{
    match s.kind {
        Some(k) => k,
        None => {
            let k = select_backend(identify);
            s.kind = Some(k);
            k
        },
    }
}

/// The detected backend; detects it if that has not happened yet.
pub fn get_backend(s: &mut Selection, identify: Option<HvcReply>) -> (k: BackendKind)
    ensures
        final(s).kind == Some(k),
        k == match old(s).kind {
            Some(k0) => k0,
            None => selected(identify),
        },
{
    detect_backend(s, identify)
}

} // verus!
