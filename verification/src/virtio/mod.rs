//! Split virtqueue in a shared memory region.
//!
//! The kernel posts buffers in the available ring and the guest returns them in the used
//! ring.  Layout of the region:
//!
//! - 0x0000: [`VirtqueueConfig`]
//! - 0x0040: descriptor table
//! - 0x0140: [`AvailRing`]
//! - 0x1000: [`UsedRing`]
//! - 0x2000: data buffers

use vstd::prelude::*;
use crate::mem::PhysAddr;

pub mod channel;
pub mod transport;

verus! {

/// Number of descriptors.
pub const QUEUE_SIZE: usize = 16;

/// Bytes of a descriptor.
pub const DESC_SIZE: usize = 16;

/// Offset of the configuration block.
pub const OFF_CONFIG: u64 = 0x0000;

/// Offset of the descriptor table.
pub const OFF_DESC: u64 = 0x0040;

/// Offset of the available ring.
pub const OFF_AVAIL: u64 = 0x0140;

/// Offset of the used ring.
pub const OFF_USED: u64 = 0x1000;

/// Offset of the data buffers.
pub const OFF_BUFFERS: u64 = 0x2000;

/// Bytes of a data buffer.
pub const BUF_SIZE: usize = 256;

/// Bytes of the region up to the end of the data buffers.
pub const REGION_SIZE: u64 = 0x3000;

/// Marks an initialised region.
pub const VIRTQ_MAGIC: u32 = 0x5649_5254;

/// The descriptor continues in another.
pub const VIRTQ_DESC_F_NEXT: u16 = 1;

/// The guest may write the buffer.
pub const VIRTQ_DESC_F_WRITE: u16 = 2;

/// Negotiated parameters, at the start of the region.
#[derive(Debug, Clone, Copy, PartialEq, Eq, Structural)]
pub struct VirtqueueConfig {
    /// [`VIRTQ_MAGIC`] once the rings are initialised.
    pub magic: u32,
    /// Number of descriptors.
    pub queue_size: u32,
    /// Address of the descriptor table.
    pub desc_phys: u64,
    /// Address of the available ring.
    pub avail_phys: u64,
    /// Address of the used ring.
    pub used_phys: u64,
    /// Address of the data buffers.
    pub buf_phys: u64,
    /// Bytes of a data buffer.
    pub buf_size: u32,
    /// Buffers that the kernel sends with.
    pub tx_slots: u32,
}

/// A descriptor.
#[derive(Debug, Clone, Copy, PartialEq, Eq, Structural)]
pub struct Descriptor {
    /// Address of the buffer.
    pub addr: u64,
    /// Bytes in the buffer.
    pub len: u32,
    /// VIRTQ_DESC_F_* flags.
    pub flags: u16,
    /// Next descriptor.
    pub next: u16,
}

/// The available ring, from the kernel to the guest.
#[derive(Debug, Clone, Copy)]
pub struct AvailRing {
    pub flags: u16,
    pub idx: u16,
    pub ring: [u16; QUEUE_SIZE],
    pub used_event: u16,
}

/// An element of the used ring.
#[derive(Debug, Clone, Copy, PartialEq, Eq, Structural)]
pub struct UsedElem {
    /// The descriptor.
    pub id: u32,
    /// Bytes written into its buffer.
    pub len: u32,
}

/// The used ring, from the guest to the kernel.
#[derive(Debug, Clone, Copy)]
pub struct UsedRing {
    pub flags: u16,
    pub idx: u16,
    pub ring: [UsedElem; QUEUE_SIZE],
    pub avail_event: u16,
}

/// The shared memory region.
#[derive(Clone, Copy)]
pub struct QueueRegion {
    pub config: VirtqueueConfig,
    pub desc: [Descriptor; QUEUE_SIZE],
    pub avail: AvailRing,
    pub used: UsedRing,
    pub bufs: [[u8; BUF_SIZE]; QUEUE_SIZE],
}

/// Entries from ring index `from` up to `to`; the indices wrap.
pub open spec fn behind(from: u16, to: u16) -> nat {
    if from <= to {
        (to - from) as nat
    } else {
        (to + 0x1_0000 - from) as nat
    }
}

/// An index one further.
pub open spec fn after(i: u16) -> u16 {
    if i == 0xFFFF {
        0
    } else {
        (i + 1) as u16
    }
}

impl QueueRegion {
    /// The descriptors that were posted and that a guest at ring index `from` has not
    /// seen, in order.
    pub open spec fn posted(self, from: u16) -> Seq<u16> {
        Seq::new(behind(from, self.avail.idx), |k: int| self.avail.ring@[(from + k) % 16])
    }

    /// The elements that the guest returned and that a kernel at ring index `from` has not
    /// seen, in order: descriptor and bytes written.
    pub open spec fn returned(self, from: u16) -> Seq<(u16, u32)> {
        Seq::new(
            behind(from, self.used.idx),
            |k: int|
                (self.used.ring@[(from + k) % 16].id as u16, self.used.ring@[(from + k) % 16].len),
        )
    }
}

/// One side's view of the queue.
#[derive(Debug, Clone, Copy, PartialEq, Eq, Structural)]
pub struct Virtqueue {
    /// Address of the data buffers.
    pub bufs: PhysAddr,
    /// Index in the used ring up to which this side is done.
    pub last_used_idx: u16,
    /// Index in the available ring up to which this side is done.
    pub avail_idx: u16,
}

impl Virtqueue {
    /// The data buffers lie inside the address space.
    pub open spec fn wf(self) -> bool {
        self.bufs + 0x1000 <= u64::MAX
    }

    /// A fresh view of the region at `base_phys`.
    pub fn from_phys(base_phys: PhysAddr) -> (q: Self)
        requires
            base_phys + REGION_SIZE <= u64::MAX,
        ensures
            q.wf(),
            q.bufs == base_phys + OFF_BUFFERS,
            q.last_used_idx == 0,
            q.avail_idx == 0,
    {
        Virtqueue { bufs: base_phys + OFF_BUFFERS, last_used_idx: 0, avail_idx: 0 }
    }

    /// Address of data buffer `idx`.
    pub fn buf_ptr(&self, idx: usize) -> (a: u64)
        requires
            self.wf(),
            idx < QUEUE_SIZE,
        ensures
            a == self.bufs + idx * 256,
    {
        self.bufs + idx as u64 * 256
    }

    /// The region after descriptor `desc_idx` was posted with `len` bytes.
    pub open spec fn posts(self, pre: QueueRegion, desc_idx: u16, len: u32, post: QueueRegion) -> bool {
        &&& post.config == pre.config
        &&& post.used == pre.used
        &&& post.bufs == pre.bufs
        &&& post.desc@ == pre.desc@.update(
            desc_idx as int,
            Descriptor {
                addr: (self.bufs + desc_idx * 256) as u64,
                len,
                flags: 0,
                next: 0,
            },
        )
        &&& post.avail.flags == pre.avail.flags
        &&& post.avail.used_event == pre.avail.used_event
        &&& post.avail.idx == after(self.avail_idx)
        &&& post.avail.ring@ == pre.avail.ring@.update(self.avail_idx as int % 16, desc_idx)
    }

    /// Kernel side: post data buffer `desc_idx` with `len` bytes.
    pub fn post_avail(&mut self, region: &mut QueueRegion, desc_idx: u16, len: u32)
        requires
            old(self).wf(),
            desc_idx < QUEUE_SIZE,
        ensures
            old(self).posts(*old(region), desc_idx, len, *final(region)),
            *final(self) == (Virtqueue { avail_idx: after(old(self).avail_idx), ..*old(self) }),
    {
        let addr: u64 = self.buf_ptr(desc_idx as usize);
        region.desc[desc_idx as usize] = Descriptor { addr, len, flags: 0, next: 0 };
        let ai: usize = self.avail_idx as usize % QUEUE_SIZE;
        region.avail.ring[ai] = desc_idx;
        self.avail_idx = self.avail_idx.wrapping_add(1);
        region.avail.idx = self.avail_idx;
    }

    /// Kernel side: take the elements that the guest returned.
    pub fn poll_used(&mut self, region: &QueueRegion) -> (r: Vec<(u16, u32)>)
        ensures
            r@ == region.returned(old(self).last_used_idx),
            *final(self) == (Virtqueue { last_used_idx: region.used.idx, ..*old(self) }),
    {
        let ghost pre = *self;
        let mut r: Vec<(u16, u32)> = Vec::new();
        while self.last_used_idx != region.used.idx
            invariant
                self.bufs == pre.bufs,
                self.avail_idx == pre.avail_idx,
                r@.len() + behind(self.last_used_idx, region.used.idx) == behind(
                    pre.last_used_idx,
                    region.used.idx,
                ),
                self.last_used_idx == (pre.last_used_idx + r@.len()) % 0x1_0000,
                forall|k: int|
                    0 <= k < r@.len() ==> #[trigger] r@[k] == region.returned(
                        pre.last_used_idx,
                    )[k],
            decreases behind(self.last_used_idx, region.used.idx),
        {
            let slot: usize = self.last_used_idx as usize % QUEUE_SIZE;
            let elem: UsedElem = region.used.ring[slot];
            assert(slot == (pre.last_used_idx + r@.len()) % 16);
            r.push((elem.id as u16, elem.len));
            self.last_used_idx = self.last_used_idx.wrapping_add(1);
        }
        assert(r@ =~= region.returned(pre.last_used_idx));
        r
    }

    /// Guest side: take the descriptors that the kernel posted.
    pub fn guest_poll_avail(&mut self, region: &QueueRegion) -> (r: Vec<u16>)
        ensures
            r@ == region.posted(old(self).avail_idx),
            *final(self) == (Virtqueue { avail_idx: region.avail.idx, ..*old(self) }),
    {
        let ghost pre = *self;
        let mut r: Vec<u16> = Vec::new();
        while self.avail_idx != region.avail.idx
            invariant
                self.bufs == pre.bufs,
                self.last_used_idx == pre.last_used_idx,
                r@.len() + behind(self.avail_idx, region.avail.idx) == behind(
                    pre.avail_idx,
                    region.avail.idx,
                ),
                self.avail_idx == (pre.avail_idx + r@.len()) % 0x1_0000,
                forall|k: int|
                    0 <= k < r@.len() ==> #[trigger] r@[k] == region.posted(pre.avail_idx)[k],
            decreases behind(self.avail_idx, region.avail.idx),
        {
            let slot: usize = self.avail_idx as usize % QUEUE_SIZE;
            assert(slot == (pre.avail_idx + r@.len()) % 16);
            r.push(region.avail.ring[slot]);
            self.avail_idx = self.avail_idx.wrapping_add(1);
        }
        assert(r@ =~= region.posted(pre.avail_idx));
        r
    }

    /// The region after the guest returned descriptor `desc_idx`.
    pub open spec fn gives_back(
        self,
        pre: QueueRegion,
        desc_idx: u16,
        written: u32,
        post: QueueRegion,
    ) -> bool {
        &&& post.config == pre.config
        &&& post.desc == pre.desc
        &&& post.avail == pre.avail
        &&& post.bufs == pre.bufs
        &&& post.used.flags == pre.used.flags
        &&& post.used.avail_event == pre.used.avail_event
        &&& post.used.idx == after(self.last_used_idx)
        &&& post.used.ring@ == pre.used.ring@.update(
            self.last_used_idx as int % 16,
            UsedElem { id: desc_idx as u32, len: written },
        )
    }

    /// Guest side: return descriptor `desc_idx` with `written` bytes in its buffer.
    pub fn guest_put_used(&mut self, region: &mut QueueRegion, desc_idx: u16, written: u32)
        ensures
            old(self).gives_back(*old(region), desc_idx, written, *final(region)),
            *final(self) == (Virtqueue {
                last_used_idx: after(old(self).last_used_idx),
                ..*old(self)
            }),
    {
        let ui: usize = self.last_used_idx as usize % QUEUE_SIZE;
        region.used.ring[ui] = UsedElem { id: desc_idx as u32, len: written };
        self.last_used_idx = self.last_used_idx.wrapping_add(1);
        region.used.idx = self.last_used_idx;
    }
}

/// A guest sees what the kernel posts, in the order of posting: posting appends to what
/// the guest has not seen, as long as the ring has room.
pub proof fn law_posts_are_seen_in_order(
    kernel: Virtqueue,
    pre: QueueRegion,
    desc_idx: u16,
    len: u32,
    post: QueueRegion,
    seen: u16,
)
    requires
        kernel.posts(pre, desc_idx, len, post),
        kernel.avail_idx == pre.avail.idx,
        behind(seen, pre.avail.idx) < QUEUE_SIZE,
    ensures
        post.posted(seen) == pre.posted(seen).push(desc_idx),
{
    let n = behind(seen, pre.avail.idx) as int;
    assert((seen + n) % 16 == kernel.avail_idx as int % 16);
    assert forall|k: int| 0 <= k < n implies post.posted(seen)[k] == pre.posted(seen)[k] by {
        assert((seen + k) % 16 != kernel.avail_idx as int % 16);
    }
    assert(post.posted(seen) =~= pre.posted(seen).push(desc_idx));
}

/// The kernel sees what the guest returns, in the order of returning.
pub proof fn law_returns_are_seen_in_order(
    guest: Virtqueue,
    pre: QueueRegion,
    desc_idx: u16,
    written: u32,
    post: QueueRegion,
    seen: u16,
)
    requires
        guest.gives_back(pre, desc_idx, written, post),
        guest.last_used_idx == pre.used.idx,
        behind(seen, pre.used.idx) < QUEUE_SIZE,
    ensures
        post.returned(seen) == pre.returned(seen).push((desc_idx, written)),
{
    let n = behind(seen, pre.used.idx) as int;
    assert((seen + n) % 16 == guest.last_used_idx as int % 16);
    assert forall|k: int| 0 <= k < n implies post.returned(seen)[k] == pre.returned(seen)[k] by {
        assert((seen + k) % 16 != guest.last_used_idx as int % 16);
    }
    assert((desc_idx as u32) as u16 == desc_idx);
    assert(post.returned(seen) =~= pre.returned(seen).push((desc_idx, written)));
}

/// Ring indices run from 0 to 65535 and round; how far one is behind the other is the number of
/// steps that lead to it.
pub proof fn law_indices_run_round(from: u16, to: u16)
    ensures
        after(to) == (to + 1) % 65536,
        behind(from, to) == (to - from) % 65536,
        behind(from, from) == 0,
        behind(from, to) < 65535 ==> behind(from, after(to)) == behind(from, to) + 1,
{
}

/// Posting a descriptor points it at the buffer with its number, 256 bytes each, puts it into
/// the next of the 16 places of the available ring, and moves the index on; nothing else of the
/// region changes.
pub proof fn law_post_fills_one_place(
    q: Virtqueue,
    pre: QueueRegion,
    d: u16,
    len: u32,
    post: QueueRegion,
    i: int,
)
    requires
        q.wf(),
        d < 16,
        q.posts(pre, d, len, post),
        0 <= i < 16,
    ensures
        post.desc@[d as int].addr == q.bufs + 256 * d,
        post.desc@[d as int].len == len,
        post.desc@[d as int].flags == 0 && post.desc@[d as int].next == 0,
        i != d ==> post.desc@[i] == pre.desc@[i],
        post.avail.ring@[q.avail_idx as int % 16] == d,
        i != q.avail_idx as int % 16 ==> post.avail.ring@[i] == pre.avail.ring@[i],
        post.avail.idx == (q.avail_idx + 1) % 65536,
        post.used == pre.used,
        post.bufs == pre.bufs,
        post.config == pre.config,
{
}

/// Giving a descriptor back puts its number and the length into the next place of the used ring,
/// and moves the index on; nothing else of the region changes.
pub proof fn law_return_fills_one_place(
    q: Virtqueue,
    pre: QueueRegion,
    d: u16,
    written: u32,
    post: QueueRegion,
    i: int,
)
    requires
        q.gives_back(pre, d, written, post),
        0 <= i < 16,
    ensures
        post.used.ring@[q.last_used_idx as int % 16].id == d,
        post.used.ring@[q.last_used_idx as int % 16].len == written,
        i != q.last_used_idx as int % 16 ==> post.used.ring@[i] == pre.used.ring@[i],
        post.used.idx == (q.last_used_idx + 1) % 65536,
        post.desc == pre.desc,
        post.avail == pre.avail,
        post.bufs == pre.bufs,
{
}

/// A poll sees what lies between its index and the ring's, from the place of its index on.
pub proof fn law_poll_sees_what_is_new(r: QueueRegion, from: u16, k: int)
    requires
        0 <= k,
    ensures
        r.posted(from).len() == (r.avail.idx - from) % 65536,
        r.returned(from).len() == (r.used.idx - from) % 65536,
        k < r.posted(from).len() ==> r.posted(from)[k] == r.avail.ring@[(from + k) % 16],
        k < r.returned(from).len() ==> r.returned(from)[k].0 == r.used.ring@[(from + k)
            % 16].id as u16 && r.returned(from)[k].1 == r.used.ring@[(from + k) % 16].len,
{
}

} // verus!
