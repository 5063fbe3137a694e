//! Shared memory regions.

use vstd::prelude::*;
use crate::bytes::{put, zeros};
use crate::hypervisor::{HvError, HvcReply, Hypervisor, ShmemHandle};
use crate::mem::PhysAddr;
use crate::vm::Memory;

verus! {

/// Most regions.
pub const MAX_SHMEM: usize = 8;

/// A shared memory region.
#[derive(Debug, Clone, Copy, PartialEq, Eq, Structural)]
pub struct ShmemRegion {
    pub handle: ShmemHandle,
    pub phys: PhysAddr,
    /// Size in bytes, a multiple of the page size.
    pub size: u64,
}

/// The regions.
pub struct ShmemTable {
    regions: [Option<ShmemRegion>; MAX_SHMEM],
}

/// First index from `i` on of the region with the handle; past the end if there is none.
pub open spec fn region_index(rs: Seq<Option<ShmemRegion>>, h: ShmemHandle, i: int) -> int
    decreases rs.len() - i,
{
    if i >= rs.len() {
        rs.len() as int
    } else if rs[i] is Some && rs[i]->0.handle == h {
        i
    } else {
        region_index(rs, h, i + 1)
    }
}

/// First free index from `i` on; past the end if there is none.
pub open spec fn free_region(rs: Seq<Option<ShmemRegion>>, i: int) -> int
    decreases rs.len() - i,
{
    if i >= rs.len() {
        rs.len() as int
    } else if rs[i] is None {
        i
    } else {
        free_region(rs, i + 1)
    }
}

impl ShmemTable {
    /// The slots.
    pub closed spec fn slots(self) -> Seq<Option<ShmemRegion>> {
        self.regions@
    }

    /// No regions.
    pub fn new() -> (t: Self)
        ensures
            t.slots().len() == MAX_SHMEM,
            forall|i: int| 0 <= i < MAX_SHMEM ==> #[trigger] t.slots()[i] is None,
    {
        ShmemTable { regions: [None, None, None, None, None, None, None, None] }
    }

    /// What recording a region that the backend shared as `shared` does.
    pub open spec fn recorded(
        pre: Self,
        phys: PhysAddr,
        size: u64,
        shared: Result<ShmemHandle, HvError>,
        post: Self,
        r: Result<ShmemHandle, HvError>,
    ) -> bool {
        match shared {
            Err(e) => r == Err::<ShmemHandle, HvError>(e) && post == pre,
            Ok(handle) => {
                let i = free_region(pre.slots(), 0);
                if i < MAX_SHMEM {
                    &&& r == Ok::<ShmemHandle, HvError>(handle)
                    &&& post.slots() == pre.slots().update(
                        i,
                        Some(ShmemRegion { handle, phys, size }),
                    )
                } else {
                    r == Err::<ShmemHandle, HvError>(HvError::NoMemory) && post == pre
                }
            },
        }
    }

    /// Record the region at `phys`, which the backend shared as `shared`.
    pub fn record(&mut self, phys: PhysAddr, size: u64, shared: Result<ShmemHandle, HvError>) -> (r:
        Result<ShmemHandle, HvError>)
        ensures
            Self::recorded(*old(self), phys, size, shared, *final(self), r),
    {
        let ghost pre = *self;
        let handle: ShmemHandle = match shared {
            Ok(h) => h,
            Err(e) => {
                return Err(e);
            },
        };
        let mut i: usize = 0;
        while i < MAX_SHMEM
            invariant
                i <= MAX_SHMEM,
                *self == pre,
                pre == *old(self),
                shared == Ok::<ShmemHandle, HvError>(handle),
                free_region(pre.slots(), 0) == free_region(pre.slots(), i as int),
            decreases MAX_SHMEM - i,
        {
            if self.regions[i].is_none() {
                self.regions[i] = Some(ShmemRegion { handle, phys, size });
                return Ok(handle);
            }
            i = i + 1;
        }
        Err(HvError::NoMemory)
    }

    /// Allocate `pages` frames and zero them, share them through the backend and record
    /// the region.  `donated` and `mapped` are the replies to the backend's hypercalls.
    pub fn alloc_region<H: Hypervisor>(
        &mut self,
        mem: &mut Memory,
        pages: usize,
        hv: &H,
        donated: HvcReply,
        mapped: HvcReply,
    ) -> (r: Result<ShmemHandle, HvError>)
        requires
            old(mem).wf(),
        ensures
            final(mem).wf(),
            final(mem).ram.start() == old(mem).ram.start(),
            exists|phys: Option<PhysAddr>|
                {
                    &&& #[trigger] old(mem).frames.alloc_contiguous_post(
                        pages as int,
                        final(mem).frames,
                        phys,
                    )
                    &&& match phys {
                        None => {
                            &&& r == Err::<ShmemHandle, HvError>(HvError::NoMemory)
                            &&& *final(self) == *old(self)
                            &&& final(mem).ram@ == old(mem).ram@
                        },
                        Some(p) => {
                            let size = (pages * 4096) as u64;
                            &&& final(mem).ram@ == put(
                                old(mem).ram@,
                                p - old(mem).ram.start(),
                                zeros(size as int),
                            )
                            &&& Self::recorded(
                                *old(self),
                                p,
                                size,
                                H::mem_shared(p, size, donated, mapped),
                                *final(self),
                                r,
                            )
                        },
                    }
                },
    {
        let ghost pre = *mem;
        let phys: u64 = match reserve(mem, pages) {
            Some(p) => p,
            None => {
                let ghost none: Option<PhysAddr> = None;
                assert(pre.frames.alloc_contiguous_post(pages as int, mem.frames, none));
                return Err(HvError::NoMemory);
            },
        };
        let size: u64 = pages as u64 * 4096;
        let shared = hv.mem_share(phys, size, donated, mapped);
        self.record(phys, size, shared)
    }

    /// The region with the handle.
    pub fn find(&self, handle: ShmemHandle) -> (r: Option<&ShmemRegion>)
        ensures
            ({
                let i = region_index(self.slots(), handle, 0);
                match r {
                    Some(x) => i < self.slots().len() && self.slots()[i] == Some(*x),
                    None => i >= self.slots().len(),
                }
            }),
    {
        let mut i: usize = 0;
        while i < MAX_SHMEM
            invariant
                i <= MAX_SHMEM,
                region_index(self.regions@, handle, 0) == region_index(
                    self.regions@,
                    handle,
                    i as int,
                ),
            decreases MAX_SHMEM - i,
        {
            if let Some(x) = self.regions[i] {
                if x.handle.0 == handle.0 {
                    return self.regions[i].as_ref();
                }
            }
            i = i + 1;
        }
        None
    }
}

/// Allocate `pages` frames for a region and zero them.
pub fn reserve(mem: &mut Memory, pages: usize) -> (r: Option<PhysAddr>)
    requires
        old(mem).wf(),
    ensures
        final(mem).wf(),
        final(mem).ram.start() == old(mem).ram.start(),
        old(mem).frames.alloc_contiguous_post(pages as int, final(mem).frames, r),
        match r {
            Some(p) => pages * 4096 <= u64::MAX && final(mem).ram@ == put(
                old(mem).ram@,
                p - old(mem).ram.start(),
                zeros(pages * 4096),
            ),
            None => final(mem).ram@ == old(mem).ram@,
        },
{
    proof {
        mem.frames.lemma_window();
    }
    match mem.frames.alloc_contiguous(pages) {
        Some(p) => {
            mem.ram.zero(p, pages as u64 * 4096);
            Some(p)
        },
        None => None,
    }
}

/// Header of a ring in a shared region.
#[derive(Debug, Clone, Copy, PartialEq, Eq, Structural)]
pub struct RingHeader {
    /// Checked by both sides before they touch the ring.
    pub magic: u32,
    /// Number of slots.
    pub capacity: u32,
    /// Where the producer writes next.
    pub write_idx: u32,
    /// Where the consumer reads next.
    pub read_idx: u32,
}

/// Magic number of a ring: `TANX`.
pub const RING_MAGIC: u32 = 0x5441_4E58;

impl RingHeader {
    /// The header of an empty ring.
    pub fn init(capacity: u32) -> (h: Self)
        ensures
            h == (RingHeader { magic: RING_MAGIC, capacity, write_idx: 0, read_idx: 0 }),
    {
        RingHeader { magic: RING_MAGIC, capacity, write_idx: 0, read_idx: 0 }
    }

    /// True if the header was initialised.
    pub fn is_valid(&self) -> (r: bool)
        ensures
            r == (self.magic == RING_MAGIC),
    {
        self.magic == RING_MAGIC
    }
}

/// A region that was shared takes the first free of eight slots, with its place and size; what
/// could not be shared, and what finds no slot, is not recorded.
pub proof fn law_region_is_recorded(
    pre: ShmemTable,
    phys: PhysAddr,
    size: u64,
    shared: Result<ShmemHandle, HvError>,
    post: ShmemTable,
    r: Result<ShmemHandle, HvError>,
    i: int,
    j: int,
)
    requires
        pre.slots().len() == 8,
        ShmemTable::recorded(pre, phys, size, shared, post, r),
        0 <= i <= 8,
        i < 8 ==> pre.slots()[i] is None,
        forall|k: int| 0 <= k < i ==> (#[trigger] pre.slots()[k]) is Some,
        0 <= j < 8,
    ensures
        shared matches Err(e) ==> r == Err::<ShmemHandle, HvError>(e) && post == pre,
        shared is Ok && i == 8 ==> r == Err::<ShmemHandle, HvError>(HvError::NoMemory) && post
            == pre,
        shared is Ok && i < 8 ==> {
            &&& r == shared
            &&& post.slots()[i] == Some(ShmemRegion { handle: shared->Ok_0, phys, size })
            &&& j != i ==> post.slots()[j] == pre.slots()[j]
        },
{
    lemma_free_region(pre.slots(), 0, i);
}

proof fn lemma_free_region(rs: Seq<Option<ShmemRegion>>, from: int, i: int)
    requires
        0 <= from <= i <= rs.len(),
        i < rs.len() ==> rs[i] is None,
        forall|k: int| from <= k < i ==> (#[trigger] rs[k]) is Some,
    ensures
        free_region(rs, from) == i,
    decreases i - from,
{
    if from < i {
        assert(rs[from] is Some);
        lemma_free_region(rs, from + 1, i);
    }
}

/// A handle leads to the first slot that has it.
pub proof fn law_region_by_handle(rs: Seq<Option<ShmemRegion>>, h: ShmemHandle, from: int, i: int)
    requires
        0 <= from <= i <= rs.len(),
        i < rs.len() ==> rs[i] is Some && rs[i]->0.handle == h,
        forall|k: int| from <= k < i ==> !(#[trigger] rs[k] is Some && rs[k]->0.handle == h),
    ensures
        region_index(rs, h, from) == i,
    decreases i - from,
{
    if from < i {
        assert(!(rs[from] is Some && rs[from]->0.handle == h));
        law_region_by_handle(rs, h, from + 1, i);
    }
}

} // verus!
