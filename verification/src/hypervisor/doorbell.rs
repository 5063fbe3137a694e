//! Doorbells and the service calls of guests.
//!
//! A doorbell has no payload: ringing it wakes its owner.  Guests ring doorbells and
//! use message queues through service calls, whose function id and arguments are the
//! guest's x0 to x3.

use vstd::prelude::*;
use crate::hypervisor::{DoorbellHandle, HvError, HvcReply, Hypervisor, MsgqHandle};
use crate::mem::ram::Ram;

verus! {

/// Most doorbells.
pub const MAX_DOORBELLS: usize = 8;

/// One registered doorbell.
#[derive(Debug, Clone, Copy, PartialEq, Eq, Structural)]
pub struct DoorbellEntry {
    pub handle: DoorbellHandle,
    /// Handle of the VM that the doorbell wakes.
    pub owner_vm: u32,
    /// Interrupt that delivers it.
    pub irq: u32,
    /// Flags enabled and acknowledged; delivery by interrupt ignores them.
    pub enable_mask: u64,
    pub ack_mask: u64,
    /// Times it was rung.
    pub rings: u64,
    /// Times its interrupt was taken; rings in between coalesce.
    pub deliveries: u64,
}

/// The registered doorbells.
pub struct DoorbellTable {
    entries: [Option<DoorbellEntry>; MAX_DOORBELLS],
    next_handle: u32,
}

/// First index from `i` on of the doorbell with the handle; past the end if there is
/// none.
pub open spec fn bell_index(es: Seq<Option<DoorbellEntry>>, h: DoorbellHandle, i: int) -> int
    decreases es.len() - i,
{
    if i >= es.len() {
        es.len() as int
    } else if es[i] is Some && es[i]->0.handle == h {
        i
    } else {
        bell_index(es, h, i + 1)
    }
}

/// First free index from `i` on; past the end if there is none.
pub open spec fn free_index(es: Seq<Option<DoorbellEntry>>, i: int) -> int
    decreases es.len() - i,
{
    if i >= es.len() {
        es.len() as int
    } else if es[i] is None {
        i
    } else {
        free_index(es, i + 1)
    }
}

/// First index from `i` on of a doorbell of the VM; past the end if there is none.
pub open spec fn owned_index(es: Seq<Option<DoorbellEntry>>, vm: u32, i: int) -> int
    decreases es.len() - i,
{
    if i >= es.len() {
        es.len() as int
    } else if es[i] is Some && es[i]->0.owner_vm == vm {
        i
    } else {
        owned_index(es, vm, i + 1)
    }
}

impl DoorbellTable {
    /// The slots.
    pub closed spec fn slots(self) -> Seq<Option<DoorbellEntry>> {
        self.entries@
    }

    /// The handle that the next doorbell gets.
    pub closed spec fn next(self) -> u32 {
        self.next_handle
    }

    /// Handles are below the next one and belong to one doorbell each.
    pub open spec fn wf(self) -> bool {
        &&& self.slots().len() == MAX_DOORBELLS
        &&& forall|i: int|
            0 <= i < MAX_DOORBELLS && (#[trigger] self.slots()[i]) is Some ==> self.slots()[i]->0.handle.0
                < self.next()
        &&& forall|i: int, j: int|
            0 <= i < j < MAX_DOORBELLS && (#[trigger] self.slots()[i]) is Some && (
            #[trigger] self.slots()[j]) is Some ==> self.slots()[i]->0.handle
                != self.slots()[j]->0.handle
    }

    /// The table has the doorbell.
    pub open spec fn has(self, h: DoorbellHandle) -> bool {
        bell_index(self.slots(), h, 0) < MAX_DOORBELLS
    }

    /// The doorbell with the handle.
    pub open spec fn bell(self, h: DoorbellHandle) -> DoorbellEntry {
        self.slots()[bell_index(self.slots(), h, 0)]->0
    }

    /// No doorbells; the first handle is 1.
    pub fn new() -> (t: Self)
        ensures
            t.wf(),
            t.next() == 1,
            forall|i: int| 0 <= i < MAX_DOORBELLS ==> #[trigger] t.slots()[i] is None,
    {
        DoorbellTable { entries: [None;MAX_DOORBELLS], next_handle: 1 }
    }

    fn index_of(&self, h: DoorbellHandle) -> (i: usize)
        ensures
            i == bell_index(self.slots(), h, 0),
            i <= MAX_DOORBELLS,
            i < MAX_DOORBELLS ==> self.entries@[i as int] is Some
                && self.entries@[i as int]->0.handle == h,
    {
        let mut i: usize = 0;
        while i < MAX_DOORBELLS
            invariant
                i <= MAX_DOORBELLS,
                bell_index(self.entries@, h, 0) == bell_index(self.entries@, h, i as int),
            decreases MAX_DOORBELLS - i,
        {
            if let Some(e) = self.entries[i] {
                if e.handle.0 == h.0 {
                    return i;
                }
            }
            i = i + 1;
        }
        i
    }

    /// Register a doorbell of `owner_vm` that `irq` delivers, in the first free slot.
    /// `None` if there is no free slot.
    pub fn register(&mut self, owner_vm: u32, irq: u32) -> (r: Option<DoorbellHandle>)
        requires
            old(self).wf(),
            old(self).next() < u32::MAX,
        ensures
            final(self).wf(),
            ({
                let i = free_index(old(self).slots(), 0);
                if i < MAX_DOORBELLS {
                    let h = DoorbellHandle(old(self).next());
                    &&& r == Some(h)
                    &&& !old(self).has(h)
                    &&& final(self).next() == old(self).next() + 1
                    &&& final(self).slots() == old(self).slots().update(
                        i,
                        Some(
                            DoorbellEntry {
                                handle: h,
                                owner_vm,
                                irq,
                                enable_mask: 0,
                                ack_mask: 0,
                                rings: 0,
                                deliveries: 0,
                            },
                        ),
                    )
                } else {
                    r is None && *final(self) == *old(self)
                }
            }),
    {
        let ghost pre = *self;
        let mut i: usize = 0;
        while i < MAX_DOORBELLS
            invariant
                i <= MAX_DOORBELLS,
                *self == pre,
                pre == *old(self),
                pre.wf(),
                pre.next() < u32::MAX,
                free_index(pre.slots(), 0) == free_index(pre.slots(), i as int),
            decreases MAX_DOORBELLS - i,
        {
            if self.entries[i].is_none() {
                let handle = DoorbellHandle(self.next_handle);
                self.next_handle = self.next_handle + 1;
                self.entries[i] = Some(
                    DoorbellEntry {
                        handle,
                        owner_vm,
                        irq,
                        enable_mask: 0,
                        ack_mask: 0,
                        rings: 0,
                        deliveries: 0,
                    },
                );
                proof {
                    lemma_found(pre.slots(), handle, 0);
                    assert(!pre.has(handle)) by {
                        let k = bell_index(pre.slots(), handle, 0);
                        assert(k < MAX_DOORBELLS ==> pre.slots()[k] is Some);
                    }
                    assert(self.slots() =~= pre.slots().update(i as int, self.entries@[i as int]));
                }
                return Some(handle);
            }
            i = i + 1;
        }
        None
    }

    /// Configure the flag masks of a doorbell.
    pub fn set_mask(
        &mut self,
        handle: DoorbellHandle,
        enable_mask: u64,
        ack_mask: u64,
    ) -> (r: Result<(), HvError>)
        requires
            old(self).wf(),
        ensures
            final(self).wf(),
            final(self).next() == old(self).next(),
            if old(self).has(handle) {
                &&& r is Ok
                &&& final(self).slots() == old(self).slots().update(
                    bell_index(old(self).slots(), handle, 0),
                    Some(DoorbellEntry { enable_mask, ack_mask, ..old(self).bell(handle) }),
                )
            } else {
                r == Err::<(), HvError>(HvError::InvalidHandle) && *final(self) == *old(self)
            },
    {
        let ghost pre = *self;
        let i: usize = self.index_of(handle);
        if i < MAX_DOORBELLS {
            if let Some(mut e) = self.entries[i] {
                e.enable_mask = enable_mask;
                e.ack_mask = ack_mask;
                self.entries[i] = Some(e);
                return Ok(());
            }
        }
        Err(HvError::InvalidHandle)
    }

    /// The doorbell with the handle.
    pub fn find(&self, handle: DoorbellHandle) -> (r: Option<&DoorbellEntry>)
        requires
            self.wf(),
        ensures
            match r {
                Some(e) => self.has(handle) && *e == self.bell(handle),
                None => !self.has(handle),
            },
    {
        let i: usize = self.index_of(handle);
        if i < MAX_DOORBELLS {
            self.entries[i].as_ref()
        } else {
            None
        }
    }

    /// The handle of the first doorbell of the VM.
    pub fn query(&self, vm: u32) -> (r: Option<DoorbellHandle>)
        requires
            self.wf(),
        ensures
            ({
                let i = owned_index(self.slots(), vm, 0);
                match r {
                    Some(h) => i < MAX_DOORBELLS && h == self.slots()[i]->0.handle,
                    None => i >= MAX_DOORBELLS,
                }
            }),
    {
        let mut i: usize = 0;
        while i < MAX_DOORBELLS
            invariant
                i <= MAX_DOORBELLS,
                owned_index(self.entries@, vm, 0) == owned_index(self.entries@, vm, i as int),
            decreases MAX_DOORBELLS - i,
        {
            if let Some(e) = self.entries[i] {
                if e.owner_vm == vm {
                    return Some(e.handle);
                }
            }
            i = i + 1;
        }
        None
    }

    /// Count a ring.  Returns the interrupt that delivers it.
    pub fn ring_sgi(&mut self, handle: DoorbellHandle) -> (r: Result<u32, HvError>)
        requires
            old(self).wf(),
        ensures
            final(self).wf(),
            final(self).next() == old(self).next(),
            if old(self).has(handle) {
                let e = old(self).bell(handle);
                &&& r == Ok::<u32, HvError>(e.irq)
                &&& final(self).slots() == old(self).slots().update(
                    bell_index(old(self).slots(), handle, 0),
                    Some(DoorbellEntry { rings: counted(e.rings), ..e }),
                )
            } else {
                r == Err::<u32, HvError>(HvError::InvalidHandle) && *final(self) == *old(self)
            },
    {
        let i: usize = self.index_of(handle);
        if i < MAX_DOORBELLS {
            if let Some(mut e) = self.entries[i] {
                e.rings = count(e.rings);
                self.entries[i] = Some(e);
                return Ok(e.irq);
            }
        }
        Err(HvError::InvalidHandle)
    }

    /// Count a taken interrupt for the doorbells that it delivers.
    pub fn note_delivery(&mut self, intid: u32)
        requires
            old(self).wf(),
        ensures
            final(self).wf(),
            final(self).next() == old(self).next(),
            forall|i: int|
                0 <= i < MAX_DOORBELLS ==> #[trigger] final(self).slots()[i] == delivered(
                    old(self).slots()[i],
                    intid,
                ),
    {
        let ghost pre = *self;
        let mut i: usize = 0;
        while i < MAX_DOORBELLS
            invariant
                i <= MAX_DOORBELLS,
                self.next() == pre.next(),
                pre.wf(),
                self.entries@.len() == MAX_DOORBELLS,
                forall|k: int|
                    0 <= k < MAX_DOORBELLS ==> #[trigger] self.slots()[k] == if k < i {
                        delivered(pre.slots()[k], intid)
                    } else {
                        pre.slots()[k]
                    },
            decreases MAX_DOORBELLS - i,
        {
            let ghost cur = *self;
            assert(cur.slots()[i as int] == pre.slots()[i as int]);
            if let Some(mut e) = self.entries[i] {
                if e.irq == intid {
                    e.deliveries = count(e.deliveries);
                    self.entries[i] = Some(e);
                }
            }
            assert(self.slots()[i as int] == delivered(pre.slots()[i as int], intid));
            assert(forall|k: int|
                0 <= k < MAX_DOORBELLS && k != i ==> #[trigger] self.slots()[k] == cur.slots()[k]);
            i = i + 1;
        }
    }

    /// How often a doorbell was rung and delivered.
    pub fn stats(&self, handle: DoorbellHandle) -> (r: Option<(u64, u64)>)
        requires
            self.wf(),
        ensures
            match r {
                Some(s) => self.has(handle) && s == (
                    self.bell(handle).rings,
                    self.bell(handle).deliveries,
                ),
                None => !self.has(handle),
            },
    {
        match self.find(handle) {
            Some(e) => Some((e.rings, e.deliveries)),
            None => None,
        }
    }
}

/// A counter one further; it stops at its largest value.
pub open spec fn counted(n: u64) -> u64 {
    if n == u64::MAX {
        n
    } else {
        (n + 1) as u64
    }
}

/// A slot after interrupt `intid` was taken.
pub open spec fn delivered(s: Option<DoorbellEntry>, intid: u32) -> Option<DoorbellEntry> {
    match s {
        Some(e) => if e.irq == intid {
            Some(DoorbellEntry { deliveries: counted(e.deliveries), ..e })
        } else {
            s
        },
        None => s,
    }
}

fn count(n: u64) -> (r: u64)
    ensures
        r == counted(n),
{
    if n == u64::MAX {
        n
    } else {
        n + 1
    }
}

/// Service: ring a doorbell, x1.
pub const DOORBELL_SEND: u64 = 0x8600_0001;

/// Service: handle of the doorbell of VM x1.
pub const DOORBELL_QUERY: u64 = 0x8600_0002;

/// Service: send x3 bytes at x2 on message queue x1.
pub const MSGQ_SEND: u64 = 0x8600_0003;

/// Service: receive at most x3 bytes from message queue x1 into the buffer x2; returns
/// the size.
pub const MSGQ_RECV: u64 = 0x8600_0004;

/// Return value of success.
pub const OK: u64 = 0;

/// Return value of failure.
pub const ERR: u64 = 0xFFFF_FFFF_FFFF_FFFF;

/// A guest's service call.
#[derive(Debug, Clone, Copy, PartialEq, Eq, Structural)]
pub enum Service {
    Ring(DoorbellHandle),
    Query(u32),
    Send { mq: MsgqHandle, addr: u64, size: u64 },
    Receive { mq: MsgqHandle, addr: u64, cap: u64 },
    Unknown,
}

/// Bytes that a call moves: what the guest asks for, at most a whole message.
pub open spec fn moved(n: u64) -> u64 {
    if n > 96 {
        96
    } else {
        n
    }
}

/// The service that x0 to x3 ask for.
pub open spec fn service(args: Seq<u64>) -> Service {
    if args[0] == DOORBELL_SEND {
        Service::Ring(DoorbellHandle(args[1] as u32))
    } else if args[0] == DOORBELL_QUERY {
        Service::Query(args[1] as u32)
    } else if args[0] == MSGQ_SEND {
        Service::Send { mq: MsgqHandle(args[1] as u32), addr: args[2], size: moved(args[3]) }
    } else if args[0] == MSGQ_RECV {
        Service::Receive { mq: MsgqHandle(args[1] as u32), addr: args[2], cap: moved(args[3]) }
    } else {
        Service::Unknown
    }
}

/// The service that x0 to x3 ask for.
pub fn decode(args: [u64; 4]) -> (s: Service)
    ensures
        s == service(args@),
{
    let n: u64 = if args[3] > 96 {
        96
    } else {
        args[3]
    };
    if args[0] == DOORBELL_SEND {
        Service::Ring(DoorbellHandle(args[1] as u32))
    } else if args[0] == DOORBELL_QUERY {
        Service::Query(args[1] as u32)
    } else if args[0] == MSGQ_SEND {
        Service::Send { mq: MsgqHandle(args[1] as u32), addr: args[2], size: n }
    } else if args[0] == MSGQ_RECV {
        Service::Receive { mq: MsgqHandle(args[1] as u32), addr: args[2], cap: n }
    } else {
        Service::Unknown
    }
}

/// Ring a doorbell of the table through the backend.
pub fn send<H: Hypervisor>(
    bells: &mut DoorbellTable,
    handle: DoorbellHandle,
    hv: &H,
    reply: HvcReply,
) -> (r: Result<Option<u32>, HvError>)
    requires
        old(bells).wf(),
    ensures
        final(bells).wf(),
        if old(bells).has(handle) {
            H::doorbell_rung(*old(bells), handle, reply, *final(bells), r)
        } else {
            r == Err::<Option<u32>, HvError>(HvError::InvalidHandle) && *final(bells) == *old(
                bells,
            )
        },
{
    if bells.find(handle).is_none() {
        return Err(HvError::InvalidHandle);
    }
    hv.doorbell_send(bells, handle, reply)
}

/// What x0 is after a service call, and the software interrupt to raise on CPU 0.
#[derive(Debug, Clone, Copy, PartialEq, Eq, Structural)]
pub struct ServiceReply {
    pub x0: u64,
    pub sgi: Option<u32>,
}

/// The state that a service call works on.
pub struct Services<H> {
    pub hv: H,
    pub bells: DoorbellTable,
    pub ram: Ram,
}

impl<H: Hypervisor> Services<H> {
    pub open spec fn wf(self) -> bool {
        self.hv.wf() && self.bells.wf() && self.ram.wf()
    }

    /// What a service call does.
    pub open spec fn served(
        pre: Self,
        call: Service,
        reply: HvcReply,
        post: Self,
        r: ServiceReply,
    ) -> bool {
        match call {
            Service::Ring(h) => {
                &&& post.hv == pre.hv
                &&& post.ram == pre.ram
                &&& if pre.bells.has(h) {
                    exists|rung: Result<Option<u32>, HvError>|
                        {
                            &&& #[trigger] H::doorbell_rung(pre.bells, h, reply, post.bells, rung)
                            &&& r == match rung {
                                Ok(sgi) => ServiceReply { x0: OK, sgi },
                                Err(_) => ServiceReply { x0: ERR, sgi: None },
                            }
                        }
                } else {
                    post.bells == pre.bells && r == (ServiceReply { x0: ERR, sgi: None })
                }
            },
            Service::Query(vm) => {
                let i = owned_index(pre.bells.slots(), vm, 0);
                &&& post == pre
                &&& r.sgi is None
                &&& r.x0 == if i < MAX_DOORBELLS {
                    pre.bells.slots()[i]->0.handle.0 as u64
                } else {
                    ERR
                }
            },
            Service::Send { mq, addr, size } => {
                &&& post.bells == pre.bells
                &&& post.ram == pre.ram
                &&& r.sgi is None
                &&& if pre.ram.has(addr as int, size as int) {
                    exists|sent: Result<bool, HvError>|
                        {
                            &&& #[trigger] H::msgq_sent(
                                pre.hv,
                                mq,
                                pre.ram.range(addr as int, size as int),
                                reply,
                                post.hv,
                                sent,
                            )
                            &&& r.x0 == if sent is Ok {
                                OK
                            } else {
                                ERR
                            }
                        }
                } else {
                    r.x0 == ERR && post.hv == pre.hv
                }
            },
            Service::Receive { mq, addr, cap } => {
                &&& post.bells == pre.bells
                &&& post.ram.start() == pre.ram.start()
                &&& r.sgi is None
                &&& if pre.ram.has(addr as int, cap as int) {
                    exists|after: Seq<u8>, got: Result<(u64, bool), HvError>|
                        {
                            &&& #[trigger] H::msgq_received(
                                pre.hv,
                                mq,
                                pre.ram.range(addr as int, cap as int),
                                reply,
                                post.hv,
                                after,
                                got,
                            )
                            &&& match got {
                                Ok((n, _)) => r.x0 == n && post.ram@ == pre.ram.with(
                                    addr as int,
                                    after,
                                ),
                                Err(_) => r.x0 == ERR && post.ram@ == pre.ram@,
                            }
                        }
                } else {
                    r.x0 == ERR && post.hv == pre.hv && post.ram@ == pre.ram@
                }
            },
            Service::Unknown => post == pre && r == (ServiceReply { x0: ERR, sgi: None }),
        }
    }

    /// Serve a guest's call: `args` are its x0 to x3.  A buffer outside the memory that is
    /// not empty, and an unknown function, are answered with [`ERR`].
    pub fn handle_hvc(&mut self, args: [u64; 4], reply: HvcReply) -> (r: ServiceReply)
        requires
            old(self).wf(),
        ensures
            final(self).wf(),
            Self::served(*old(self), service(args@), reply, *final(self), r),
    {
        let ghost pre = *self;
        match decode(args) {
            Service::Ring(h) => {
                let rung = send(&mut self.bells, h, &self.hv, reply);
                match rung {
                    Ok(sgi) => ServiceReply { x0: OK, sgi },
                    Err(_) => ServiceReply { x0: ERR, sgi: None },
                }
            },
            Service::Query(vm) => {
                match self.bells.query(vm) {
                    Some(h) => ServiceReply { x0: h.0 as u64, sgi: None },
                    None => ServiceReply { x0: ERR, sgi: None },
                }
            },
            Service::Send { mq, addr, size } => {
                if !self.ram.contains(addr, size) {
                    return ServiceReply { x0: ERR, sgi: None };
                }
                let sent = self.hv.msgq_send(mq, self.ram.slice(addr, size), reply);
                ServiceReply {
                    x0: if sent.is_ok() {
                        OK
                    } else {
                        ERR
                    },
                    sgi: None,
                }
            },
            Service::Receive { mq, addr, cap } => {
                if !self.ram.contains(addr, cap) {
                    return ServiceReply { x0: ERR, sgi: None };
                }
                let mut buf: Vec<u8> = vstd::slice::slice_to_vec(self.ram.slice(addr, cap));
                let got = self.hv.msgq_recv(mq, buf.as_mut_slice(), reply);
                match got {
                    Ok((n, _)) => {
                        self.ram.write(addr, buf.as_slice());
                        ServiceReply { x0: n, sgi: None }
                    },
                    Err(_) => ServiceReply { x0: ERR, sgi: None },
                }
            },
            Service::Unknown => ServiceReply { x0: ERR, sgi: None },
        }
    }
}

/// An index that was found names a doorbell with the handle.
proof fn lemma_found(es: Seq<Option<DoorbellEntry>>, h: DoorbellHandle, i: int)
    requires
        0 <= i,
    ensures
        ({
            let k = bell_index(es, h, i);
            k < es.len() ==> i <= k && es[k] is Some && es[k]->0.handle == h
        }),
    decreases es.len() - i,
{
    if i < es.len() && !(es[i] is Some && es[i]->0.handle == h) {
        lemma_found(es, h, i + 1);
    }
}

} // verus!
