//! Kernel side of the queue: set it up, send messages, collect replies.

use vstd::prelude::*;
use crate::arch::aarch64::timer::counts_for_ms;
use crate::bytes::le32;
use crate::hypervisor::doorbell::DoorbellTable;
use crate::hypervisor::{DoorbellHandle, HvError, HvcReply, Hypervisor};
use crate::mem::PhysAddr;
use crate::virtio::channel::{opcode_of, print_len, printed, Msg, Opcode};
use crate::virtio::{
    QueueRegion, Virtqueue, VirtqueueConfig, BUF_SIZE, OFF_AVAIL, OFF_BUFFERS, OFF_DESC, OFF_USED,
    QUEUE_SIZE, REGION_SIZE, VIRTQ_MAGIC,
};

verus! {

/// A guest's reply.
#[derive(Debug, Clone, Copy, PartialEq, Eq, Structural)]
pub struct Reply {
    /// Descriptor of the buffer.
    pub desc: u16,
    pub op: Opcode,
    /// Bytes printed, for `Echo`; 0 otherwise.
    pub printed: u32,
}

/// The reply in the buffer of a returned descriptor; none where the buffer holds no
/// message or there is no such buffer.
pub open spec fn reply_of(region: QueueRegion, d: u16) -> Option<Reply> {
    if d >= QUEUE_SIZE {
        None
    } else {
        match opcode_of(region.bufs@[d as int]@) {
            Some(op) => Some(
                Reply {
                    desc: d,
                    op,
                    printed: if op == Opcode::Echo {
                        le32(region.bufs@[d as int]@, 4) as u32
                    } else {
                        0
                    },
                },
            ),
            None => None,
        }
    }
}

/// The replies in the first `n` of the returned elements.
pub open spec fn replies(region: QueueRegion, used: Seq<(u16, u32)>, n: int) -> Seq<Reply>
    decreases n,
{
    if n <= 0 {
        Seq::empty()
    } else {
        let r = replies(region, used, n - 1);
        match reply_of(region, used[n - 1].0) {
            Some(x) => r.push(x),
            None => r,
        }
    }
}

/// The kernel's end of a queue.
pub struct VirtioTransport {
    /// Base of the shared region.
    pub shmem_phys: PhysAddr,
    pub vq: Virtqueue,
    /// Descriptor of the next message.
    pub tx_desc: u16,
    /// Rung to notify the guest.
    pub doorbell: DoorbellHandle,
}

impl VirtioTransport {
    pub open spec fn wf(self) -> bool {
        self.tx_desc < QUEUE_SIZE && self.vq.wf()
    }

    /// Write the configuration block of the region at `shmem_phys`; the magic number goes
    /// last.
    pub fn new(region: &mut QueueRegion, shmem_phys: PhysAddr, doorbell: DoorbellHandle) -> (t: Self)
        requires
            shmem_phys + REGION_SIZE <= u64::MAX,
        ensures
            t.wf(),
            t.shmem_phys == shmem_phys,
            t.vq.bufs == shmem_phys + OFF_BUFFERS,
            t.vq.last_used_idx == 0,
            t.vq.avail_idx == 0,
            t.tx_desc == 0,
            t.doorbell == doorbell,
            *final(region) == (QueueRegion {
                config: VirtqueueConfig {
                    magic: VIRTQ_MAGIC,
                    queue_size: 16,
                    desc_phys: (shmem_phys + OFF_DESC) as u64,
                    avail_phys: (shmem_phys + OFF_AVAIL) as u64,
                    used_phys: (shmem_phys + OFF_USED) as u64,
                    buf_phys: (shmem_phys + OFF_BUFFERS) as u64,
                    buf_size: 256,
                    tx_slots: 16,
                },
                ..*old(region)
            }),
    {
        region.config.queue_size = QUEUE_SIZE as u32;
        region.config.desc_phys = shmem_phys + OFF_DESC;
        region.config.avail_phys = shmem_phys + OFF_AVAIL;
        region.config.used_phys = shmem_phys + OFF_USED;
        region.config.buf_phys = shmem_phys + OFF_BUFFERS;
        region.config.buf_size = BUF_SIZE as u32;
        region.config.tx_slots = QUEUE_SIZE as u32;
        region.config.magic = VIRTQ_MAGIC;
        VirtioTransport {
            shmem_phys,
            vq: Virtqueue::from_phys(shmem_phys),
            tx_desc: 0,
            doorbell,
        }
    }

    /// Encode a `Print` message, post it and ring the doorbell.  Returns the descriptor
    /// that the reply will carry, and the software interrupt to raise.  A doorbell that
    /// cannot be rung does not take the message back.
    pub fn send_print<H: Hypervisor>(
        &mut self,
        region: &mut QueueRegion,
        text: &[u8],
        hv: &H,
        bells: &mut DoorbellTable,
        reply: HvcReply,
    ) -> (r: (u16, Option<u32>))
        requires
            old(self).wf(),
            old(bells).wf(),
        ensures
            final(self).wf(),
            final(bells).wf(),
            final(self).shmem_phys == old(self).shmem_phys,
            final(self).doorbell == old(self).doorbell,
            final(self).tx_desc == (old(self).tx_desc + 1) % 16,
            final(self).vq == (Virtqueue {
                avail_idx: crate::virtio::after(old(self).vq.avail_idx),
                ..old(self).vq
            }),
            ({
                let d = old(self).tx_desc;
                let buf = final(region).bufs@[d as int];
                let filled = QueueRegion { bufs: final(region).bufs, ..*old(region) };
                &&& r.0 == d
                &&& final(region).bufs@ == old(region).bufs@.update(d as int, buf)
                &&& buf@ == printed(old(region).bufs@[d as int]@, text@)
                &&& old(self).vq.posts(
                    filled,
                    d,
                    (4 + print_len(text@.len())) as u32,
                    *final(region),
                )
            }),
            exists|rung: Result<Option<u32>, HvError>|
                {
                    &&& #[trigger] H::doorbell_rung(
                        *old(bells),
                        old(self).doorbell,
                        reply,
                        *final(bells),
                        rung,
                    )
                    &&& r.1 == match rung {
                        Ok(sgi) => sgi,
                        Err(_) => None,
                    }
                },
    {
        let d: u16 = self.tx_desc;
        self.tx_desc = (self.tx_desc + 1) % QUEUE_SIZE as u16;
        let ghost pre = *region;
        let mut buf: [u8; BUF_SIZE] = region.bufs[d as usize];
        let len: u32 = Msg::write_print(&mut buf, text);
        region.bufs[d as usize] = buf;
        let ghost filled = *region;
        assert(filled == (QueueRegion { bufs: filled.bufs, ..pre }));
        self.vq.post_avail(region, d, len);
        match hv.doorbell_send(bells, self.doorbell, reply) {
            Ok(sgi) => (d, sgi),
            Err(_) => (d, None),
        }
    }

    /// Take the replies that the guest returned.
    pub fn poll_replies(&mut self, region: &QueueRegion) -> (r: Vec<Reply>)
        requires
            old(self).wf(),
        ensures
            final(self).wf(),
            final(self).shmem_phys == old(self).shmem_phys,
            final(self).doorbell == old(self).doorbell,
            final(self).tx_desc == old(self).tx_desc,
            final(self).vq == (Virtqueue { last_used_idx: region.used.idx, ..old(self).vq }),
            ({
                let used = region.returned(old(self).vq.last_used_idx);
                r@ == replies(*region, used, used.len() as int)
            }),
    {
        let used = self.vq.poll_used(region);
        let mut r: Vec<Reply> = Vec::new();
        let mut i: usize = 0;
        while i < used.len()
            invariant
                i <= used@.len(),
                r@ == replies(*region, used@, i as int),
            decreases used.len() - i,
        {
            let d: u16 = used[i].0;
            if (d as usize) < QUEUE_SIZE {
                let buf: [u8; BUF_SIZE] = region.bufs[d as usize];
                let msg = Msg { buf: &buf };
                if let Some(op) = msg.opcode() {
                    let n: u32 = if op == Opcode::Echo {
                        Msg::read_echo(&buf)
                    } else {
                        0
                    };
                    r.push(Reply { desc: d, op, printed: n });
                }
            }
            i = i + 1;
        }
        r
    }

    /// One poll of a wait for a reply that began at count `start`: `Some(true)` if a reply
    /// arrived, `Some(false)` if the time is over at count `now`, `None` to poll again.
    pub fn wait_reply(
        &mut self,
        region: &QueueRegion,
        freq: u64,
        timeout_ms: u64,
        start: u64,
        now: u64,
    ) -> (r: Option<bool>)
        requires
            old(self).wf(),
            (freq / 1000) * timeout_ms <= u64::MAX,
        ensures
            final(self).wf(),
            final(self).shmem_phys == old(self).shmem_phys,
            final(self).doorbell == old(self).doorbell,
            final(self).tx_desc == old(self).tx_desc,
            final(self).vq == (Virtqueue { last_used_idx: region.used.idx, ..old(self).vq }),
            ({
                let used = region.returned(old(self).vq.last_used_idx);
                r == if replies(*region, used, used.len() as int).len() > 0 {
                    Some(true)
                } else if (now - start) % 0x1_0000_0000_0000_0000 >= (freq / 1000) * timeout_ms {
                    Some(false)
                } else {
                    None
                }
            }),
    {
        let got = self.poll_replies(region);
        let elapsed: u64 = now.wrapping_sub(start);
        assert(elapsed == (now - start) % 0x1_0000_0000_0000_0000);
        if got.len() > 0 {
            Some(true)
        } else if elapsed >= counts_for_ms(freq, timeout_ms) {
            Some(false)
        } else {
            None
        }
    }
}

/// A used descriptor is a reply where its buffer begins with a known opcode; an answer tells how
/// much was printed, in its bytes 4 to 7.
pub proof fn law_reply_by_buffer(region: QueueRegion, d: u16)
    ensures
        ({
            let b = region.bufs@[d as int]@;
            let r = reply_of(region, d);
            &&& d >= 16 ==> r is None
            &&& d < 16 && b[0] != 1 && b[0] != 2 ==> r is None
            &&& d < 16 && b[0] == 1 ==> r == Some(
                Reply { desc: d, op: Opcode::Print, printed: 0 },
            )
            &&& d < 16 && b[0] == 2 ==> (r matches Some(x) && x.desc == d && x.op == Opcode::Echo
                && x.printed == b[4] + 256 * b[5] + 65536 * b[6] + 16777216 * b[7])
        }),
{
}

/// The replies are those of the used descriptors in the order in which they came back; the
/// others are passed over.
pub proof fn law_replies_keep_order(region: QueueRegion, used: Seq<(u16, u32)>, n: int)
    requires
        0 <= n < used.len(),
    ensures
        replies(region, used, 0).len() == 0,
        reply_of(region, used[n].0) is None ==> replies(region, used, n + 1) == replies(
            region,
            used,
            n,
        ),
        reply_of(region, used[n].0) matches Some(x) ==> replies(region, used, n + 1) == replies(
            region,
            used,
            n,
        ) + seq![x],
{
    if let Some(x) = reply_of(region, used[n].0) {
        assert(replies(region, used, n).push(x) =~= replies(region, used, n) + seq![x]);
    }
}

} // verus!
