//! Message queue: a bounded ring of fixed-size messages with non-blocking send and
//! receive.

use vstd::prelude::*;
use crate::hypervisor::{HvError, MsgqHandle, VmHandle, MSGQ_MAX_MSG_SIZE};

verus! {

/// Most messages that a queue holds.
pub const MSGQ_SLOTS: usize = 16;

/// One slot of the ring.
#[derive(Clone, Copy)]
struct MsgqSlot {
    data: [u8; MSGQ_MAX_MSG_SIZE],
    len: usize,
}

/// A message queue.
#[derive(Clone, Copy)]
pub struct MsgqRecord {
    handle: MsgqHandle,
    owner: VmHandle,
    head: usize,
    count: usize,
    depth: usize,
    slots: [Option<MsgqSlot>; MSGQ_SLOTS],
}

impl MsgqRecord {
    /// Handle of the queue.
    pub closed spec fn name(self) -> MsgqHandle {
        self.handle
    }

    /// VM that the queue was created for.
    pub closed spec fn vm(self) -> VmHandle {
        self.owner
    }

    /// Number of messages that it holds at most.
    pub closed spec fn capacity(self) -> nat {
        self.depth as nat
    }

    /// The queued messages, oldest first.
    pub closed spec fn view(&self) -> Seq<Seq<u8>> {
        Seq::new(self.count as nat, |k: int| self.message(k))
    }

    spec fn message(self, k: int) -> Seq<u8> {
        match self.slots@[(self.head + k) % 16] {
            Some(s) => s.data@.take(s.len as int),
            None => Seq::empty(),
        }
    }

    /// Ring indices and slots are consistent.
    pub closed spec fn wf(self) -> bool {
        &&& self.head < 16
        &&& self.count <= self.depth
        &&& 1 <= self.depth <= 16
        &&& forall|i: int|
            0 <= i < 16 ==> {
                match #[trigger] self.slots@[i] {
                    Some(s) => s.len <= MSGQ_MAX_MSG_SIZE,
                    None => true,
                }
            }
        &&& forall|k: int| 0 <= k < self.count ==> #[trigger] self.filled(k)
    }

    spec fn filled(self, k: int) -> bool {
        self.slots@[(self.head + k) % 16] is Some
    }

    /// An empty queue; the depth is clamped to 1 to [`MSGQ_SLOTS`].
    pub fn new(handle: MsgqHandle, owner: VmHandle, depth: u32) -> (q: Self)
        ensures
            q.wf(),
            q.name() == handle,
            q.vm() == owner,
            q.capacity() == if depth < 1 {
                1
            } else if depth > MSGQ_SLOTS {
                MSGQ_SLOTS as nat
            } else {
                depth as nat
            },
            q@ == Seq::<Seq<u8>>::empty(),
    {
        let d: usize = if depth < 1 {
            1
        } else if depth as usize > MSGQ_SLOTS {
            MSGQ_SLOTS
        } else {
            depth as usize
        };
        let slots: [Option<MsgqSlot>; MSGQ_SLOTS] = [
            None, None, None, None, None, None, None, None, None, None, None, None, None, None,
            None, None,
        ];
        assert(forall|i: int| 0 <= i < 16 ==> #[trigger] slots@[i] is None);
        let q = MsgqRecord { handle, owner, head: 0, count: 0, depth: d, slots };
        proof {
            assert(q@ =~= Seq::<Seq<u8>>::empty());
        }
        q
    }

    /// Handle of the queue.
    pub fn handle(&self) -> (h: MsgqHandle)
        ensures
            h == self.name(),
    {
        self.handle
    }

    /// Append a message.  `Ok(true)` says that there is room for another.
    pub fn enqueue(&mut self, msg: &[u8]) -> (r: Result<bool, HvError>)
        requires
            old(self).wf(),
        ensures
            final(self).wf(),
            final(self).name() == old(self).name(),
            final(self).vm() == old(self).vm(),
            final(self).capacity() == old(self).capacity(),
            if msg@.len() > MSGQ_MAX_MSG_SIZE {
                r == Err::<bool, HvError>(HvError::BadMessage) && *final(self) == *old(self)
            } else if old(self)@.len() >= old(self).capacity() {
                r == Err::<bool, HvError>(HvError::Full) && *final(self) == *old(self)
            } else {
                &&& final(self)@ == old(self)@.push(msg@)
                &&& r == Ok::<bool, HvError>(final(self)@.len() < old(self).capacity())
            },
    {
        if msg.len() > MSGQ_MAX_MSG_SIZE {
            return Err(HvError::BadMessage);
        }
        if self.count >= self.depth {
            return Err(HvError::Full);
        }
        let ghost pre = *self;
        let idx: usize = (self.head + self.count) % MSGQ_SLOTS;
        let mut data: [u8; MSGQ_MAX_MSG_SIZE] = [0u8;MSGQ_MAX_MSG_SIZE];
        let mut i: usize = 0;
        while i < msg.len()
            invariant
                i <= msg@.len() <= MSGQ_MAX_MSG_SIZE,
                data@.len() == MSGQ_MAX_MSG_SIZE,
                forall|k: int| 0 <= k < i ==> #[trigger] data@[k] == msg@[k],
            decreases msg.len() - i,
        {
            data[i] = msg[i];
            i = i + 1;
        }
        self.slots[idx] = Some(MsgqSlot { data, len: msg.len() });
        self.count = self.count + 1;
        proof {
            assert(data@.take(msg@.len() as int) =~= msg@);
            assert forall|k: int| 0 <= k < pre.count implies (#[trigger] pre.filled(k)
                && self.message(k) == pre.message(k) && self.filled(k)) by {
                assert(pre.filled(k));
                assert((pre.head + k) % 16 != idx);
                assert(self.slots@[(pre.head + k) % 16] == pre.slots@[(pre.head + k) % 16]);
            }
            assert forall|k: int| 0 <= k < self.count implies #[trigger] self.filled(k) by {
                if k < pre.count {
                    assert(pre.filled(k));
                }
            }
            assert(self@ =~= pre@.push(msg@)) by {
                assert forall|k: int| 0 <= k < pre.count implies self@[k] == pre@[k] by {
                    assert(pre.filled(k));
                }
            }
        }
        Ok(self.count < self.depth)
    }

    /// Take the oldest message into `buf`, cut to the size of `buf`.  Returns the number
    /// of bytes copied and whether more messages are queued.
    pub fn dequeue(&mut self, buf: &mut [u8]) -> (r: Result<(usize, bool), HvError>)
        requires
            old(self).wf(),
        ensures
            final(self).wf(),
            final(self).name() == old(self).name(),
            final(self).vm() == old(self).vm(),
            final(self).capacity() == old(self).capacity(),
            if old(self)@.len() == 0 {
                &&& r == Err::<(usize, bool), HvError>(HvError::Empty)
                &&& *final(self) == *old(self)
                &&& final(buf)@ == old(buf)@
            } else {
                &&& final(self)@ == old(self)@.drop_first()
                &&& final(buf)@ == received(old(self)@[0], old(buf)@)
                &&& match r {
                    Ok((n, more)) => n == copied(old(self)@[0].len(), old(buf)@.len()) && more == (
                    old(self)@.len() > 1),
                    Err(_) => false,
                }
            },
    {
        if self.count == 0 {
            return Err(HvError::Empty);
        }
        let ghost pre = *self;
        let ghost buf0 = buf@;
        assert(pre.filled(0));
        let slot: MsgqSlot = match self.slots[self.head] {
            Some(s) => s,
            None => {
                assert(false);
                return Err(HvError::Empty);
            },
        };
        let n: usize = slot.len;
        let copy: usize = if n < buf.len() {
            n
        } else {
            buf.len()
        };
        let mut i: usize = 0;
        while i < copy
            invariant
                i <= copy <= MSGQ_MAX_MSG_SIZE,
                copy <= buf@.len(),
                buf@.len() == buf0.len(),
                slot.data@.len() == MSGQ_MAX_MSG_SIZE,
                forall|k: int|
                    0 <= k < buf0.len() ==> #[trigger] buf@[k] == if k < i {
                        slot.data@[k]
                    } else {
                        buf0[k]
                    },
            decreases copy - i,
        {
            buf[i] = slot.data[i];
            i = i + 1;
        }
        self.slots[self.head] = None;
        self.head = (self.head + 1) % MSGQ_SLOTS;
        self.count = self.count - 1;
        proof {
            assert(pre@[0] == slot.data@.take(n as int));
            assert(buf@ =~= received(pre@[0], buf0));
            assert forall|k: int| 0 <= k < self.count implies (#[trigger] self.filled(k)
                && self.message(k) == pre.message(k + 1)) by {
                assert(pre.filled(k + 1));
                assert((self.head + k) % 16 == (pre.head + k + 1) % 16);
            }
            assert(self@ =~= pre@.drop_first()) by {
                assert forall|k: int| 0 <= k < self.count implies self@[k] == pre@.drop_first()[k] by {
                    assert(self.filled(k));
                }
            }
        }
        Ok((copy, self.count > 0))
    }
}

/// Bytes of a message of `n` bytes that a buffer of `cap` bytes takes.
pub open spec fn copied(n: nat, cap: nat) -> nat {
    if n < cap {
        n
    } else {
        cap
    }
}

/// A buffer after the message was copied into it.
pub open spec fn received(msg: Seq<u8>, buf: Seq<u8>) -> Seq<u8> {
    Seq::new(
        buf.len(),
        |k: int|
            if k < msg.len() {
                msg[k]
            } else {
                buf[k]
            },
    )
}

/// A send or a receive on a queue.
pub enum QueueOp {
    Send(Seq<u8>),
    Receive,
}

/// The send goes into the queue.
pub open spec fn accepts(q: Seq<Seq<u8>>, cap: nat, msg: Seq<u8>) -> bool {
    msg.len() <= MSGQ_MAX_MSG_SIZE && q.len() < cap
}

/// The queue after the operations, in order.
pub open spec fn queue_after(q: Seq<Seq<u8>>, cap: nat, ops: Seq<QueueOp>) -> Seq<Seq<u8>>
    decreases ops.len(),
{
    if ops.len() == 0 {
        q
    } else {
        let p = queue_after(q, cap, ops.drop_last());
        match ops.last() {
            QueueOp::Send(m) => if accepts(p, cap, m) {
                p.push(m)
            } else {
                p
            },
            QueueOp::Receive => if p.len() > 0 {
                p.drop_first()
            } else {
                p
            },
        }
    }
}

/// The messages that the sends among the operations put into the queue.
pub open spec fn sent(q: Seq<Seq<u8>>, cap: nat, ops: Seq<QueueOp>) -> Seq<Seq<u8>>
    decreases ops.len(),
{
    if ops.len() == 0 {
        Seq::empty()
    } else {
        let p = queue_after(q, cap, ops.drop_last());
        let s = sent(q, cap, ops.drop_last());
        match ops.last() {
            QueueOp::Send(m) => if accepts(p, cap, m) {
                s.push(m)
            } else {
                s
            },
            QueueOp::Receive => s,
        }
    }
}

/// The messages that the receives among the operations took.
pub open spec fn taken(q: Seq<Seq<u8>>, cap: nat, ops: Seq<QueueOp>) -> Seq<Seq<u8>>
    decreases ops.len(),
{
    if ops.len() == 0 {
        Seq::empty()
    } else {
        let p = queue_after(q, cap, ops.drop_last());
        let t = taken(q, cap, ops.drop_last());
        match ops.last() {
            QueueOp::Send(_) => t,
            QueueOp::Receive => if p.len() > 0 {
                t.push(p[0])
            } else {
                t
            },
        }
    }
}

/// First in, first out: after any sends and receives, the messages taken and then
/// those still queued are the messages that were queued at first and then those that
/// went in.  None is lost, doubled or overtaken.
pub proof fn law_fifo(q: Seq<Seq<u8>>, cap: nat, ops: Seq<QueueOp>)
    ensures
        taken(q, cap, ops) + queue_after(q, cap, ops) == q + sent(q, cap, ops),
    decreases ops.len(),
{
    if ops.len() == 0 {
        assert(taken(q, cap, ops) + queue_after(q, cap, ops) =~= q + sent(q, cap, ops));
    } else {
        let o = ops.drop_last();
        law_fifo(q, cap, o);
        let p = queue_after(q, cap, o);
        match ops.last() {
            QueueOp::Send(m) => {
                if accepts(p, cap, m) {
                    assert(taken(q, cap, o) + p.push(m) =~= (taken(q, cap, o) + p).push(m));
                    assert(q + sent(q, cap, o).push(m) =~= (q + sent(q, cap, o)).push(m));
                }
            },
            QueueOp::Receive => {
                if p.len() > 0 {
                    assert(taken(q, cap, o).push(p[0]) + p.drop_first() =~= taken(q, cap, o) + p);
                }
            },
        }
    }
}

/// A queue never holds more than its capacity.
pub proof fn law_never_over_capacity(q: Seq<Seq<u8>>, cap: nat, ops: Seq<QueueOp>)
    requires
        q.len() <= cap,
    ensures
        queue_after(q, cap, ops).len() <= cap,
    decreases ops.len(),
{
    if ops.len() > 0 {
        law_never_over_capacity(q, cap, ops.drop_last());
    }
}

} // verus!
