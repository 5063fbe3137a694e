//! The kernel's identity map: memory as 2 MiB blocks, devices as pages.
//!
//! All of it is mapped before the MMU is switched on, so that no table has to be made for
//! memory that the frame allocator hands out later.

use vstd::prelude::*;
use crate::arch::aarch64::machine::Machine;
use crate::mem::frame::FrameAllocator;
use crate::mem::mapping::{
    block_range_leaf, lemma_grown_refl, map_block, map_range, need, range_leaf, tables_needed,
};
use crate::mem::page_table::{
    block_of, grown, kernel_l0_phys, lemma_grown_trans, lemma_same_page, TableSpace, DESC_TABLE,
    FLAGS_BLOCK_DEVICE, FLAGS_BLOCK_NORMAL, VA_LIMIT,
};
use crate::mem::tables::{mapping, Tables};
use crate::mem::{PhysAddr, PAGE_SIZE};

verus! {

/// Bytes of a block.
pub const MAP_BLOCK: u64 = 0x20_0000;

/// A range to be mapped to itself.
#[derive(Debug, Clone, Copy, PartialEq, Eq, Structural)]
pub struct MapRequest {
    pub base: PhysAddr,
    pub size: u64,
    pub flags: u64,
    /// With blocks, not pages.
    pub blocks: bool,
}

impl MapRequest {
    /// Aligned, inside the address space, and with flags that make a mapping.
    pub open spec fn wf(self) -> bool {
        &&& self.base + self.size <= VA_LIMIT
        &&& if self.blocks {
            self.base % MAP_BLOCK == 0 && self.flags & DESC_TABLE == 0
        } else {
            self.base % 4096 == 0
        }
    }

    /// Tables that mapping the range under `root` takes.
    pub open spec fn need(self, t: Tables, root: int) -> int {
        if self.blocks {
            need(t, root, self.base, 0x20_0000, (self.size + 0x1F_FFFF) / 0x20_0000, 2, false)
        } else {
            need(t, root, self.base, 0x1000, (self.size + 4095) / 4096, 3, true)
        }
    }

    /// How an address that was mapped as `before` is mapped afterwards: pages leave blocks
    /// alone.
    pub open spec fn leaf(self, before: Option<(int, u64)>, vb: u64) -> Option<(int, u64)> {
        if self.blocks {
            block_range_leaf(
                before,
                self.base as int,
                self.base as int,
                (self.size + 0x1F_FFFF) / 0x20_0000 * 0x20_0000,
                self.flags,
                vb,
            )
        } else {
            range_leaf(
                before,
                self.base as int,
                (self.size + 4095) / 4096 * 4096,
                self.flags,
                vb,
            )
        }
    }
}

/// The ranges of a machine: its memory, interrupt controller, UART and, if it has them, its
/// virtio-mmio transports.
pub open spec fn identity_ranges(m: Machine, ram_base: PhysAddr, ram_size: u64) -> Seq<MapRequest> {
    let device = |base: u64, size: u64|
        MapRequest { base, size, flags: FLAGS_BLOCK_DEVICE, blocks: false };
    seq![
        MapRequest { base: ram_base, size: ram_size, flags: FLAGS_BLOCK_NORMAL, blocks: true },
        device(m.gic_dist_base, 0x20_0000),
        device(m.gic_redist_base, 0x20_0000),
        device(m.uart_base, 0x1000),
    ] + if m.virtio_mmio_base != 0 {
        seq![device(m.virtio_mmio_base, 0x20_0000)]
    } else {
        Seq::empty()
    }
}

fn device_range(base: PhysAddr, size: u64) -> (r: MapRequest)
    ensures
        r == (MapRequest { base, size, flags: FLAGS_BLOCK_DEVICE, blocks: false }),
{
    MapRequest { base, size, flags: FLAGS_BLOCK_DEVICE, blocks: false }
}

/// The ranges that the kernel maps at boot.
pub fn identity_map(m: &Machine, ram_base: PhysAddr, ram_size: u64) -> (r: Vec<MapRequest>)
    ensures
        r@ == identity_ranges(*m, ram_base, ram_size),
{
    let mut r: Vec<MapRequest> = Vec::new();
    r.push(MapRequest { base: ram_base, size: ram_size, flags: FLAGS_BLOCK_NORMAL, blocks: true });
    r.push(device_range(m.gic_dist_base, 0x20_0000));
    r.push(device_range(m.gic_redist_base, 0x20_0000));
    r.push(device_range(m.uart_base, 0x1000));
    if m.virtio_mmio_base != 0 {
        r.push(device_range(m.virtio_mmio_base, 0x20_0000));
    }
    assert(r@ =~= identity_ranges(*m, ram_base, ram_size));
    r
}

/// How an address that was mapped as `before` is mapped after the first `n` ranges.
pub open spec fn mapped_leaf(
    before: Option<(int, u64)>,
    rs: Seq<MapRequest>,
    n: int,
    vb: u64,
) -> Option<(int, u64)>
    decreases n,
{
    if n <= 0 {
        before
    } else {
        rs[n - 1].leaf(mapped_leaf(before, rs, n - 1, vb), vb)
    }
}

/// The first `n` ranges are mapped under `root`; no other root changed.
pub open spec fn ranges_mapped(
    t: Tables,
    a: FrameAllocator,
    root: int,
    rs: Seq<MapRequest>,
    n: int,
    u: Tables,
    b: FrameAllocator,
) -> bool {
    &&& grown(t, a, u, b)
    &&& forall|g: int, vb: u64|
        t.live(g) && t.levels[g] == 0 ==> #[trigger] u.leaf_from(g, 0, vb) == if g == t.frame(
            root,
        ) {
            mapped_leaf(t.leaf_from(g, 0, vb), rs, n, vb)
        } else {
            t.leaf_from(g, 0, vb)
        }
}

/// The range `req` was mapped under `root` with as many frames as its tables take.
pub open spec fn range_step(
    t: Tables,
    a: FrameAllocator,
    root: int,
    req: MapRequest,
    u: Tables,
    b: FrameAllocator,
) -> bool {
    &&& ranges_mapped(t, a, root, seq![req], 1, u, b)
    &&& b.free_set().len() + req.need(t, root) == a.free_set().len()
}

/// The first `n` ranges were mapped under `root`, one after the other.
#[verifier::opaque]
pub open spec fn range_steps(
    t: Tables,
    a: FrameAllocator,
    root: int,
    rs: Seq<MapRequest>,
    n: int,
    u: Tables,
    b: FrameAllocator,
) -> bool
    decreases n,
{
    if n <= 0 {
        u == t && b == a
    } else {
        exists|mid: Tables, left: FrameAllocator|
            {
                &&& range_steps(t, a, root, rs, n - 1, mid, left)
                &&& #[trigger] range_step(mid, left, root, rs[n - 1], u, b)
            }
    }
}

proof fn lemma_range_step(
    t: Tables,
    a: FrameAllocator,
    root: int,
    rs: Seq<MapRequest>,
    n: int,
    mid: Tables,
    left: FrameAllocator,
    u: Tables,
    b: FrameAllocator,
)
    requires
        0 <= n,
        range_steps(t, a, root, rs, n, mid, left),
        range_step(mid, left, root, rs[n], u, b),
    ensures
        range_steps(t, a, root, rs, n + 1, u, b),
{
    reveal_with_fuel(range_steps, 1);
    let m = n + 1;
    assert(range_steps(t, a, root, rs, m - 1, mid, left) && range_step(mid, left, root, rs[m - 1], u, b));
}

/// What [`map_ranges`] does: all ranges are mapped, or those in front of one for whose tables
/// there are not enough free frames.
pub open spec fn map_result(
    t: Tables,
    a: FrameAllocator,
    root: int,
    rs: Seq<MapRequest>,
    n: int,
    u: Tables,
    b: FrameAllocator,
    r: bool,
) -> bool {
    &&& 0 <= n <= rs.len()
    &&& r == (n == rs.len())
    &&& ranges_mapped(t, a, root, rs, n, u, b)
    &&& range_steps(t, a, root, rs, n, u, b)
    &&& n < rs.len() ==> rs[n].need(u, root) > b.free_set().len()
}

fn map_one(space: &mut TableSpace, frames: &mut FrameAllocator, req: MapRequest) -> (r: bool)
    requires
        old(space).wf(),
        old(space).backed(*old(frames)),
        req.wf(),
    ensures
        final(space).wf(),
        final(space).backed(*final(frames)),
        final(space).kernel_root() == old(space).kernel_root(),
        r == (req.need(old(space)@, old(space).kernel_root()) <= old(frames).free_set().len()),
        if r {
            &&& grown(old(space)@, *old(frames), final(space)@, *final(frames))
            &&& final(frames).free_set().len() + req.need(old(space)@, old(space).kernel_root())
                == old(frames).free_set().len()
            &&& forall|g: int, vb: u64|
                old(space)@.live(g) && old(space)@.levels[g] == 0 ==> #[trigger] final(
                    space)@.leaf_from(g, 0, vb) == if g == old(space)@.frame(
                    old(space).kernel_root(),
                ) {
                    req.leaf(old(space)@.leaf_from(g, 0, vb), vb)
                } else {
                    old(space)@.leaf_from(g, 0, vb)
                }
        } else {
            *final(space) == *old(space) && *final(frames) == *old(frames)
        },
{
    proof {
        frames.lemma_window();
    }
    let root: PhysAddr = kernel_l0_phys(space);
    let free: u64 = frames.free_frames() as u64;
    if req.blocks {
        let n: u64 = (req.size + (MAP_BLOCK - 1)) / MAP_BLOCK;
        if tables_needed(space, root, req.base, MAP_BLOCK, n, 2, false) > free {
            return false;
        }
        map_block(space, frames, req.base, req.base, req.size, req.flags);
    } else {
        let n: u64 = (req.size + (PAGE_SIZE - 1)) / PAGE_SIZE;
        if tables_needed(space, root, req.base, PAGE_SIZE, n, 3, true) > free {
            return false;
        }
        map_range(space, frames, req.base, req.size, req.flags);
    }
    true
}

/// Map ranges to themselves in the kernel's map, one after the other.  Returns false when the
/// free frames do not suffice for the tables of one.
pub fn map_ranges(space: &mut TableSpace, frames: &mut FrameAllocator, rs: &Vec<MapRequest>) -> (r:
    bool)
    requires
        old(space).wf(),
        old(space).backed(*old(frames)),
        forall|i: int| 0 <= i < rs@.len() ==> (#[trigger] rs@[i]).wf(),
    ensures
        final(space).wf(),
        final(space).backed(*final(frames)),
        final(space).kernel_root() == old(space).kernel_root(),
        exists|n: int| #[trigger]
            map_result(
                old(space)@,
                *old(frames),
                old(space).kernel_root(),
                rs@,
                n,
                final(space)@,
                *final(frames),
                r,
            ),
{
    let ghost t = space@;
    let ghost a = *frames;
    let ghost root = space.kernel_root();
    let mut i: usize = 0;
    proof {
        lemma_grown_refl(t, a);
        reveal_with_fuel(range_steps, 1);
    }
    while i < rs.len()
        invariant
            i <= rs@.len(),
            forall|k: int| 0 <= k < rs@.len() ==> (#[trigger] rs@[k]).wf(),
            t == old(space)@,
            a == *old(frames),
            root == old(space).kernel_root(),
            t.wf(),
            t.is_root(root),
            space.wf(),
            space.backed(*frames),
            space.kernel_root() == root,
            ranges_mapped(t, a, root, rs@, i as int, space@, *frames),
            range_steps(t, a, root, rs@, i as int, space@, *frames),
        decreases rs.len() - i,
    {
        let ghost u = space@;
        let ghost b = *frames;
        if !map_one(space, frames, rs[i]) {
            assert(map_result(t, a, root, rs@, i as int, space@, *frames, false));
            return false;
        }
        proof {
            lemma_grown_trans(t, a, u, b, space@, *frames);
            assert forall|g: int, vb: u64|
                t.live(g) && t.levels[g] == 0 implies #[trigger] space@.leaf_from(g, 0, vb)
                == if g == t.frame(root) {
                mapped_leaf(t.leaf_from(g, 0, vb), rs@, i + 1, vb)
            } else {
                t.leaf_from(g, 0, vb)
            } by {
                assert(u.live(g) && u.levels[g] == 0);
                assert(u.leaf_from(g, 0, vb) == if g == t.frame(root) {
                    mapped_leaf(t.leaf_from(g, 0, vb), rs@, i as int, vb)
                } else {
                    t.leaf_from(g, 0, vb)
                });
            }
            assert(range_step(u, b, root, rs@[i as int], space@, *frames)) by {
                reveal_with_fuel(mapped_leaf, 2);
                assert(seq![rs@[i as int]][0] == rs@[i as int]);
            }
            lemma_range_step(t, a, root, rs@, i as int, u, b, space@, *frames);
        }
        i = i + 1;
    }
    assert(map_result(t, a, root, rs@, rs@.len() as int, space@, *frames, true));
    true
}

/// Ranges of a machine that can be mapped: aligned, and inside the address space.
pub open spec fn machine_ok(m: Machine, ram_base: PhysAddr, ram_size: u64) -> bool {
    &&& ram_base % MAP_BLOCK == 0
    &&& ram_base + ram_size <= VA_LIMIT
    &&& m.gic_dist_base % 4096 == 0 && m.gic_dist_base <= 0x8000_0000_0000
    &&& m.gic_redist_base % 4096 == 0 && m.gic_redist_base <= 0x8000_0000_0000
    &&& m.uart_base % 4096 == 0 && m.uart_base <= 0x8000_0000_0000
    &&& m.virtio_mmio_base % 4096 == 0 && m.virtio_mmio_base <= 0x8000_0000_0000
}

/// Build the kernel's identity map.  Returns false when the free frames do not suffice for its
/// tables.
pub fn enable(
    space: &mut TableSpace,
    frames: &mut FrameAllocator,
    m: &Machine,
    ram_base: PhysAddr,
    ram_size: u64,
) -> (r: bool)
    requires
        old(space).wf(),
        old(space).backed(*old(frames)),
        machine_ok(*m, ram_base, ram_size),
    ensures
        final(space).wf(),
        final(space).backed(*final(frames)),
        final(space).kernel_root() == old(space).kernel_root(),
        exists|n: int| #[trigger]
            map_result(
                old(space)@,
                *old(frames),
                old(space).kernel_root(),
                identity_ranges(*m, ram_base, ram_size),
                n,
                final(space)@,
                *final(frames),
                r,
            ),
{
    let rs = identity_map(m, ram_base, ram_size);
    assert(FLAGS_BLOCK_NORMAL & DESC_TABLE == 0) by (bit_vector);
    map_ranges(space, frames, &rs)
}

/// Once the map is built, all memory is mapped to itself, so whatever the frame allocator hands
/// out can be used at its address.
pub proof fn law_memory_is_identity_mapped(
    t: Tables,
    a: FrameAllocator,
    root: int,
    m: Machine,
    ram_base: PhysAddr,
    ram_size: u64,
    u: Tables,
    b: FrameAllocator,
    va: u64,
)
    requires
        t.is_root(root),
        machine_ok(m, ram_base, ram_size),
        map_result(
            t,
            a,
            root,
            identity_ranges(m, ram_base, ram_size),
            identity_ranges(m, ram_base, ram_size).len() as int,
            u,
            b,
            true,
        ),
        ram_base <= va < ram_base + ram_size,
    ensures
        u.leaf(root, va) == Some((2int, (block_of(va) as u64) | FLAGS_BLOCK_NORMAL)),
{
    let rs = identity_ranges(m, ram_base, ram_size);
    let g = t.frame(root);
    let before = t.leaf_from(g, 0, va);
    let e = (block_of(va) as u64) | FLAGS_BLOCK_NORMAL;
    lemma_same_page(va, va);
    assert(u.leaf_from(g, 0, va) == mapped_leaf(before, rs, rs.len() as int, va));
    assert(e & 1 != 0) by {
        let p = block_of(va) as u64;
        assert((p | FLAGS_BLOCK_NORMAL) & 1 != 0) by (bit_vector);
    }
    assert(mapped_leaf(before, rs, 1, va) == Some((2int, e))) by {
        reveal_with_fuel(mapped_leaf, 2);
        lemma_block_start(va, ram_base as int);
        assert(ram_base <= block_of(va) < ram_base + ram_size);
        assert(rs[0].leaf(before, va) == mapping(2, e));
    }
    lemma_pages_keep_block(before, rs, 1, rs.len() as int, va, e);
}

/// The block of an address is not below an aligned address that is not above it.
proof fn lemma_block_start(va: u64, base: int)
    requires
        0 <= base <= va < VA_LIMIT,
        base % 0x20_0000 == 0,
    ensures
        base <= block_of(va) <= va,
{
    reveal(block_of);
}

/// Mapping pages leaves an address in a block alone.
proof fn lemma_pages_keep_block(
    before: Option<(int, u64)>,
    rs: Seq<MapRequest>,
    i: int,
    n: int,
    va: u64,
    e: u64,
)
    requires
        0 <= i <= n <= rs.len(),
        mapped_leaf(before, rs, i, va) == Some((2int, e)),
        forall|k: int| i <= k < n ==> !(#[trigger] rs[k]).blocks,
    ensures
        mapped_leaf(before, rs, n, va) == Some((2int, e)),
    decreases n - i,
{
    if i < n {
        assert(!rs[i].blocks);
        assert(mapped_leaf(before, rs, i + 1, va) == rs[i].leaf(
            mapped_leaf(before, rs, i, va),
            va,
        ));
        lemma_pages_keep_block(before, rs, i + 1, n, va, e);
    }
}

} // verus!
