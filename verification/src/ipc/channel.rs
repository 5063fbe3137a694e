//! Synchronous copy-based channels.
//!
//! A channel holds one message at most: a sender deposits it, a receiver takes
//! it, and either of them may come first.

use vstd::prelude::*;
use crate::ipc::{EndpointId, Message, MSG_MAX_BYTES};

verus! {

#[derive(Debug, Clone, Copy, PartialEq, Eq, Structural)]
pub enum ChannelState {
    /// No pending operation.
    Idle,
    /// A sender has deposited a message.
    SendPending,
    /// A receiver waits for a sender.
    RecvWaiting,
}

/// A rendezvous channel.
#[derive(Debug, Clone, Copy)]
pub struct Channel {
    pub id: EndpointId,
    pub state: ChannelState,
    /// Staging buffer, filled by `try_send` and consumed by `try_recv`.
    pub msg: Message,
}

/// What [`Channel::try_send`] does.
pub open spec fn sent(before: Channel, after: Channel, msg: Message, r: Result<(), ()>) -> bool {
    match before.state {
        ChannelState::SendPending => r is Err && after == before,
        _ => r is Ok && after == (Channel { state: ChannelState::SendPending, msg, ..before }),
    }
}

/// What [`Channel::try_recv`] does.
pub open spec fn received(
    before: Channel,
    after: Channel,
    receiver: EndpointId,
    r: Option<Message>,
) -> bool {
    match before.state {
        ChannelState::SendPending => r == Some(before.msg) && after == (Channel {
            state: ChannelState::Idle,
            ..before
        }),
        ChannelState::Idle => r is None && after == (Channel {
            state: ChannelState::RecvWaiting,
            msg: Message { sender: receiver, ..before.msg },
            ..before
        }),
        ChannelState::RecvWaiting => r is None && after == before,
    }
}

/// `c` is the channel `id`, idle and with an empty message.
pub open spec fn is_new_channel(c: Channel, id: EndpointId) -> bool {
    &&& c.id == id
    &&& c.state == ChannelState::Idle
    &&& c.msg.sender == EndpointId(0)
    &&& c.msg.opcode == 0
    &&& forall|i: int| 0 <= i < MSG_MAX_BYTES ==> #[trigger] c.msg.data@[i] == 0
}

impl Channel {
    /// An idle channel with an empty message.
    pub fn new(id: EndpointId) -> (c: Self)
        ensures
            is_new_channel(c, id),
    {
        Self {
            id,
            state: ChannelState::Idle,
            msg: Message { sender: EndpointId(0), opcode: 0, data: [0u8;64] },
        }
    }

    /// Deposit `msg` for a receiver, be it waiting already or not, unless a message is pending.
    pub fn try_send(&mut self, msg: Message) -> (r: Result<(), ()>)
        ensures
            sent(*old(self), *final(self), msg, r),
    {
        match self.state {
            ChannelState::SendPending => Err(()),
            _ => {
                self.msg = msg;
                self.state = ChannelState::SendPending;
                Ok(())
            },
        }
    }

    /// Take the pending message, or note that `receiver` waits for one.
    pub fn try_recv(&mut self, receiver: EndpointId) -> (r: Option<Message>)
        ensures
            received(*old(self), *final(self), receiver, r),
    {
        match self.state {
            ChannelState::SendPending => {
                let msg = self.msg;
                self.state = ChannelState::Idle;
                Some(msg)
            },
            ChannelState::Idle => {
                self.msg.sender = receiver;
                self.state = ChannelState::RecvWaiting;
                None
            },
            ChannelState::RecvWaiting => None,
        }
    }
}

/// Maximum number of channels.
pub const MAX_CHANNELS: usize = 16;

/// Table of channels.
pub struct ChannelTable {
    channels: [Option<Channel>; MAX_CHANNELS],
    next_id: u32,
}

/// Slot `i` holds the channel `id`.
pub open spec fn has_channel(s: Seq<Option<Channel>>, i: int, id: EndpointId) -> bool {
    0 <= i < s.len() && s[i] is Some && s[i]->0.id == id
}

/// Slot `i` is the first that holds the channel `id`.
pub open spec fn first_channel(s: Seq<Option<Channel>>, i: int, id: EndpointId) -> bool {
    has_channel(s, i, id) && forall|k: int| 0 <= k < i ==> !#[trigger] has_channel(s, k, id)
}

/// Slot `i` is the first free one.
pub open spec fn free_channel(s: Seq<Option<Channel>>, i: int) -> bool {
    0 <= i < s.len() && s[i] is None && forall|k: int| 0 <= k < i ==> #[trigger] s[k] is Some
}

/// What creating a channel does: an idle channel under the next id in the first
/// free slot; or nothing, where no slot is free.
pub open spec fn created(before: ChannelTable, after: ChannelTable, r: Option<EndpointId>) -> bool {
    match r {
        Some(id) => {
            &&& id == EndpointId(before.next() as u32)
            &&& after.next() == before.next() + 1
            &&& exists|i: int| #[trigger]
                free_channel(before.slots(), i) && after.slots()[i] is Some && {
                    let c = after.slots()[i]->0;
                    &&& after.slots() == before.slots().update(i, Some(c))
                    &&& is_new_channel(c, id)
                }
        },
        None => {
            &&& forall|i: int| 0 <= i < MAX_CHANNELS ==> #[trigger] before.slots()[i] is Some
            &&& after.slots() == before.slots()
            &&& after.next() == before.next()
        },
    }
}

impl ChannelTable {
    /// The slots.
    pub closed spec fn slots(self) -> Seq<Option<Channel>> {
        self.channels@
    }

    /// Id of the next channel to be created.
    pub closed spec fn next(self) -> int {
        self.next_id as int
    }

    /// An empty table.
    pub fn new() -> (t: Self)
        ensures
            t.slots().len() == MAX_CHANNELS,
            forall|i: int| 0 <= i < MAX_CHANNELS ==> #[trigger] t.slots()[i] is None,
            t.next() == 1,
    {
        Self { channels: [None;16], next_id: 1 }
    }

    /// Create a channel in the first free slot, or return `None` if there is no
    /// free slot.
    pub fn create(&mut self) -> (r: Option<EndpointId>)
        requires
            old(self).next() < u32::MAX,
        ensures
            created(*old(self), *final(self), r),
    {
        let mut i: usize = 0;
        while i < MAX_CHANNELS
            invariant
                i <= MAX_CHANNELS,
                *self == *old(self),
                self.next() < u32::MAX,
                forall|k: int| 0 <= k < i ==> #[trigger] self.slots()[k] is Some,
            decreases MAX_CHANNELS - i,
        {
            if self.channels[i].is_none() {
                assert(free_channel(old(self).slots(), i as int));
                let id = EndpointId(self.next_id);
                self.next_id = self.next_id + 1;
                self.channels[i] = Some(Channel::new(id));
                return Some(id);
            }
            i = i + 1;
        }
        None
    }

    fn find(&self, id: EndpointId) -> (r: Option<usize>)
        ensures
            match r {
                Some(i) => i < MAX_CHANNELS && first_channel(self.slots(), i as int, id),
                None => forall|k: int| !#[trigger] has_channel(self.slots(), k, id),
            },
    {
        let mut i: usize = 0;
        while i < MAX_CHANNELS
            invariant
                i <= MAX_CHANNELS,
                forall|k: int| 0 <= k < i ==> !#[trigger] has_channel(self.slots(), k, id),
            decreases MAX_CHANNELS - i,
        {
            if let Some(c) = &self.channels[i] {
                if c.id == id {
                    assert(has_channel(self.slots(), i as int, id));
                    return Some(i);
                }
            }
            i = i + 1;
        }
        None
    }

    /// The channel `id`, to be used.
    pub fn get_mut(&mut self, id: EndpointId) -> (r: Option<&mut Channel>)
        ensures
            final(self).next() == old(self).next(),
            match r {
                Some(c) => exists|i: int| #[trigger]
                    first_channel(old(self).slots(), i, id) && old(self).slots()[i] == Some(*c)
                        && final(self).slots() == old(self).slots().update(i, Some(*final(c))),
                None => (forall|k: int| !#[trigger] has_channel(old(self).slots(), k, id))
                    && final(self).slots() == old(self).slots(),
            },
    {
        match self.find(id) {
            Some(i) => {
                assert(first_channel(self.slots(), i as int, id));
                match &mut self.channels[i] {
                    Some(c) => Some(c),
                    None => None,
                }
            },
            None => None,
        }
    }
}

/// Create a channel.  Returns its endpoint.
pub fn channel_create(table: &mut ChannelTable) -> (r: Option<EndpointId>)
    requires
        old(table).next() < u32::MAX,
    ensures
        created(*old(table), *final(table), r),
{
    table.create()
}

/// Non-blocking send on the channel `id`.
pub fn channel_send(table: &mut ChannelTable, id: EndpointId, msg: Message) -> (r: Result<(), ()>)
    ensures
        final(table).next() == old(table).next(),
        ({
            let s = old(table).slots();
            if exists|i: int| #[trigger] first_channel(s, i, id) {
                exists|i: int| #[trigger]
                    first_channel(s, i, id) && final(table).slots()[i] is Some && final(
                        table).slots() == s.update(i, final(table).slots()[i]) && sent(
                        s[i]->0,
                        final(table).slots()[i]->0,
                        msg,
                        r,
                    )
            } else {
                r is Err && final(table).slots() == s
            }
        }),
{
    match table.get_mut(id) {
        Some(c) => c.try_send(msg),
        None => Err(()),
    }
}

/// Non-blocking receive on the channel `id`.
pub fn channel_recv(table: &mut ChannelTable, id: EndpointId, receiver: EndpointId) -> (r: Option<
    Message,
>)
    ensures
        final(table).next() == old(table).next(),
        ({
            let s = old(table).slots();
            if exists|i: int| #[trigger] first_channel(s, i, id) {
                exists|i: int| #[trigger]
                    first_channel(s, i, id) && final(table).slots()[i] is Some && final(
                        table).slots() == s.update(i, final(table).slots()[i]) && received(
                        s[i]->0,
                        final(table).slots()[i]->0,
                        receiver,
                        r,
                    )
            } else {
                r is None && final(table).slots() == s
            }
        }),
{
    match table.get_mut(id) {
        Some(c) => c.try_recv(receiver),
        None => None,
    }
}

/// A message that was accepted is what the next receive returns, whichever of sender and
/// receiver came first, and the channel is idle again.
pub proof fn law_recv_returns_sent(
    a: Channel,
    b: Channel,
    c: Channel,
    msg: Message,
    receiver: EndpointId,
    s: Result<(), ()>,
    r: Option<Message>,
)
    requires
        sent(a, b, msg, s),
        s is Ok,
        received(b, c, receiver, r),
    ensures
        r == Some(msg),
        c.state == ChannelState::Idle,
{
}

/// A receive that finds no message waits; the next send completes the rendezvous: it is
/// accepted, and its message is what the receiver gets.
pub proof fn law_waiting_receiver_is_served(
    a: Channel,
    b: Channel,
    c: Channel,
    msg: Message,
    receiver: EndpointId,
    r: Option<Message>,
    s: Result<(), ()>,
)
    requires
        received(a, b, receiver, r),
        r is None,
        sent(b, c, msg, s),
    ensures
        b.state == ChannelState::RecvWaiting,
        s is Ok,
        c.state == ChannelState::SendPending,
        forall|d: Channel, who: EndpointId, q: Option<Message>| #[trigger]
            received(c, d, who, q) ==> q == Some(msg),
{
}

/// While a message is pending, further sends are refused and do not change it.
pub proof fn law_pending_message_kept(
    a: Channel,
    b: Channel,
    c: Channel,
    first: Message,
    second: Message,
    r: Result<(), ()>,
    s: Result<(), ()>,
)
    requires
        sent(a, b, first, r),
        r is Ok,
        sent(b, c, second, s),
    ensures
        s is Err,
        c.msg == first,
{
}

/// A new channel takes the first of 16 places that is free, with the next number, idle and with
/// an empty message; without a free place there is none, and no number is used up.
pub proof fn law_new_channel(
    a: ChannelTable,
    b: ChannelTable,
    r: Option<EndpointId>,
    i: int,
    j: int,
    k: int,
)
    requires
        a.slots().len() == 16,
        0 <= a.next() < u32::MAX,
        created(a, b, r),
        0 <= i <= 16,
        i < 16 ==> a.slots()[i] is None,
        forall|x: int| 0 <= x < i ==> (#[trigger] a.slots()[x]) is Some,
        0 <= j < 16,
        0 <= k < MSG_MAX_BYTES,
    ensures
        i == 16 ==> r is None && b.slots() == a.slots() && b.next() == a.next(),
        i < 16 ==> {
            &&& r matches Some(id) && id.0 == a.next()
            &&& b.next() == a.next() + 1
            &&& b.slots()[i] is Some
            &&& b.slots()[i]->0.id.0 == a.next()
            &&& b.slots()[i]->0.state == ChannelState::Idle
            &&& b.slots()[i]->0.msg.data@[k] == 0
            &&& j != i ==> b.slots()[j] == a.slots()[j]
        },
{
    if r is Some {
        let f = choose|f: int| #[trigger]
            free_channel(a.slots(), f) && b.slots()[f] is Some && {
                let c = b.slots()[f]->0;
                &&& b.slots() == a.slots().update(f, Some(c))
                &&& is_new_channel(c, r->0)
            };
        assert(f == i) by {
            if f < i {
                assert(a.slots()[f] is Some);
            }
            if i < f {
                assert(a.slots()[i] is Some);
            }
        }
    } else if i < 16 {
        assert(a.slots()[i] is Some);
    }
}

/// A message is taken exactly while none is pending, and is then pending; a receive takes it
/// out, and else leaves the receiver waiting, under its own name.
pub proof fn law_channel_holds_one_message(
    a: Channel,
    b: Channel,
    msg: Message,
    s: Result<(), ()>,
    c: Channel,
    who: EndpointId,
    r: Option<Message>,
)
    requires
        sent(a, b, msg, s),
        received(a, c, who, r),
    ensures
        s is Ok <==> a.state != ChannelState::SendPending,
        s is Ok ==> b.state == ChannelState::SendPending && b.msg == msg && b.id == a.id,
        s is Err ==> b == a,
        r is Some <==> a.state == ChannelState::SendPending,
        r is Some ==> r == Some(a.msg) && c.state == ChannelState::Idle && c.id == a.id,
        a.state == ChannelState::Idle ==> c.state == ChannelState::RecvWaiting && c.msg.sender
            == who && c.id == a.id,
        a.state == ChannelState::RecvWaiting ==> c == a,
{
}

/// A number leads to the first channel that has it.
pub proof fn law_channel_by_number(s: Seq<Option<Channel>>, i: int, id: EndpointId, k: int)
    requires
        0 <= k < s.len(),
    ensures
        first_channel(s, i, id) ==> 0 <= i < s.len() && s[i] is Some && s[i]->0.id == id && (k < i
            ==> s[k] is None || s[k]->0.id != id),
        s[k] is Some && s[k]->0.id == id ==> has_channel(s, k, id),
        s[k] is None || s[k]->0.id != id ==> !has_channel(s, k, id),
{
    if first_channel(s, i, id) && k < i {
        assert(!has_channel(s, k, id));
    }
}

} // verus!
