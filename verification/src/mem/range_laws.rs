//! What building an address space out of ranges maps, told by addresses and descriptor bits.

use vstd::prelude::*;
use crate::arch::aarch64::machine::Machine;
use crate::mem::frame::FrameAllocator;
use crate::mem::identity::{
    identity_ranges, machine_ok, map_result, mapped_leaf, range_steps, MapRequest,
};
use crate::mem::laws::{
    law_descriptor_bits, law_kernel_blocks, law_kernel_pages, law_opened_pages, lemma_blocks,
    start_of_block, start_of_page,
};
use crate::mem::page_table::{lemma_same_page, page_of};
use crate::mem::tables::Tables;
use crate::mem::windows::{open_result, opened_leaf, window_steps, Window};

verus! {

/// The page of `vb`, or its 2 MiB block where the request is for blocks, begins in the range.
pub open spec fn holds(r: MapRequest, vb: u64) -> bool {
    r.base <= vb && if r.blocks {
        start_of_block(vb) < r.base + r.size
    } else {
        start_of_page(vb) < r.base + r.size
    }
}

/// One range: a page or block that it holds maps to itself with its flags, but pages of a block
/// that is there already stay; all else stays.
pub proof fn law_range_maps_to_itself(r: MapRequest, before: Option<(int, u64)>, vb: u64)
    requires
        r.wf(),
        r.base + r.size + 0x20_0000 <= 0x1_0000_0000_0000,
        r.flags & 1 != 0,
        vb < 0x1_0000_0000_0000,
    ensures
        ({
            let after = r.leaf(before, vb);
            let block = before matches Some((l, e)) && l == 2;
            &&& holds(r, vb) && r.blocks ==> after == Some(
                (2int, start_of_block(vb) as u64 | r.flags),
            )
            &&& holds(r, vb) && !r.blocks && !block ==> after == Some(
                (3int, start_of_page(vb) as u64 | r.flags | 2),
            )
            &&& !holds(r, vb) || (!r.blocks && block) ==> after == before
        }),
{
    if r.blocks {
        let len = (r.size + 0x1F_FFFF) / 0x20_0000 * 0x20_0000;
        law_kernel_blocks(before, r.base, r.base, len, r.flags, vb);
        assert(start_of_block(vb) < r.base + r.size <==> vb < r.base + len);
    } else {
        let len = (r.size + 4095) / 4096 * 4096;
        law_kernel_pages(before, r.base, len, r.flags, vb);
        assert(start_of_page(vb) < r.base + r.size <==> vb < r.base + len);
    }
}

/// An address that none of the ranges holds stays as it was; one that a range holds is left as
/// the last such range leaves it.
pub proof fn law_last_range_decides(
    before: Option<(int, u64)>,
    rs: Seq<MapRequest>,
    k: int,
    n: int,
    vb: u64,
)
    requires
        0 <= k <= n <= rs.len(),
        vb < 0x1_0000_0000_0000,
        forall|i: int|
            0 <= i < n ==> (#[trigger] rs[i]).wf() && rs[i].flags & 1 != 0 && rs[i].base
                + rs[i].size + 0x20_0000 <= 0x1_0000_0000_0000,
        forall|i: int| k <= i < n ==> !holds(#[trigger] rs[i], vb),
    ensures
        k == 0 ==> mapped_leaf(before, rs, n, vb) == before,
        k > 0 ==> mapped_leaf(before, rs, n, vb) == rs[k - 1].leaf(
            mapped_leaf(before, rs, k - 1, vb),
            vb,
        ),
    decreases n - k,
{
    if k < n {
        law_last_range_decides(before, rs, k, n - 1, vb);
        assert(!holds(rs[n - 1], vb));
        law_range_maps_to_itself(rs[n - 1], mapped_leaf(before, rs, n - 1, vb), vb);
    }
}

/// What is mapped for the kernel: first memory, in blocks of 2 MiB, then, as device pages, 2 MiB
/// of the distributor, 2 MiB of the redistributors, the UART's page, and 2 MiB of the virtio
/// window where there is one.
pub proof fn law_kernel_ranges(m: Machine, ram_base: u64, ram_size: u64)
    ensures
        ({
            let rs = identity_ranges(m, ram_base, ram_size);
            let dev = |base: u64, size: u64|
                MapRequest { base, size, flags: 0x60_0000_0000_0405, blocks: false };
            &&& rs.len() == if m.virtio_mmio_base == 0 {
                4int
            } else {
                5
            }
            &&& rs[0] == (MapRequest {
                base: ram_base,
                size: ram_size,
                flags: 0x701,
                blocks: true,
            })
            &&& rs[1] == dev(m.gic_dist_base, 0x20_0000)
            &&& rs[2] == dev(m.gic_redist_base, 0x20_0000)
            &&& rs[3] == dev(m.uart_base, 0x1000)
            &&& m.virtio_mmio_base != 0 ==> rs[4] == dev(m.virtio_mmio_base, 0x20_0000)
        }),
{
    law_descriptor_bits();
}

/// Building the map gives up exactly where the frames do not suffice for the next range, with
/// the ranges before it mapped; without that it maps them all.
pub proof fn law_map_is_built_in_order(
    t: Tables,
    a: FrameAllocator,
    root: int,
    rs: Seq<MapRequest>,
    n: int,
    u: Tables,
    b: FrameAllocator,
    r: bool,
    va: u64,
)
    requires
        t.is_root(root),
        va < 0x1_0000_0000_0000,
        map_result(t, a, root, rs, n, u, b, r),
    ensures
        0 <= n <= rs.len(),
        r <==> n == rs.len(),
        !r ==> rs[n].need(u, root) > b.free_set().len(),
        u.leaf_from(t.frame(root), 0, va) == mapped_leaf(
            t.leaf_from(t.frame(root), 0, va),
            rs,
            n,
            va,
        ),
        n == 0 ==> u == t && b == a,
{
    if n == 0 {
        reveal_with_fuel(range_steps, 2);
    }
}

/// In the kernel's map every device page is mapped to itself as device memory that nobody
/// executes, where neither memory nor a block that was there before is.
#[verifier::rlimit(50)]
pub proof fn law_devices_are_mapped(
    t: Tables,
    a: FrameAllocator,
    root: int,
    m: Machine,
    ram_base: u64,
    ram_size: u64,
    u: Tables,
    b: FrameAllocator,
    va: u64,
)
    requires
        t.is_root(root),
        machine_ok(m, ram_base, ram_size),
        ram_base + ram_size + 0x20_0000 <= 0x1_0000_0000_0000,
        map_result(
            t,
            a,
            root,
            identity_ranges(m, ram_base, ram_size),
            identity_ranges(m, ram_base, ram_size).len() as int,
            u,
            b,
            true,
        ),
        va < 0x1_0000_0000_0000,
        va < ram_base || start_of_block(va) >= ram_base + ram_size,
        t.leaf_from(t.frame(root), 0, va) matches Some((l, e)) ==> l != 2,
    ensures
        ({
            let after = u.leaf_from(t.frame(root), 0, va);
            let device = m.gic_dist_base <= va < m.gic_dist_base + 0x20_0000 || m.gic_redist_base
                <= va < m.gic_redist_base + 0x20_0000 || m.uart_base <= va < m.uart_base + 0x1000
                || (m.virtio_mmio_base != 0 && m.virtio_mmio_base <= va < m.virtio_mmio_base
                + 0x20_0000);
            &&& device ==> after == Some(
                (3int, start_of_page(va) as u64 | 0x60_0000_0000_0405 | 2),
            )
            &&& !device ==> after == t.leaf_from(t.frame(root), 0, va)
        }),
{
    let rs = identity_ranges(m, ram_base, ram_size);
    let before = t.leaf_from(t.frame(root), 0, va);
    law_kernel_ranges(m, ram_base, ram_size);
    law_map_is_built_in_order(t, a, root, rs, rs.len() as int, u, b, true, va);
    assert(0x701u64 & 1 != 0 && 0x60_0000_0000_0405u64 & 1 != 0 && 0x701u64 & 2 == 0)
        by (bit_vector);
    lemma_device_ranges(before, rs, rs.len() as int, va);
    let held = exists|k: int| 0 <= k < rs.len() && holds(#[trigger] rs[k], va);
    if m.gic_dist_base <= va < m.gic_dist_base + 0x20_0000 {
        assert(holds(rs[1], va));
    }
    if m.gic_redist_base <= va < m.gic_redist_base + 0x20_0000 {
        assert(holds(rs[2], va));
    }
    if m.uart_base <= va < m.uart_base + 0x1000 {
        assert(holds(rs[3], va));
    }
    if m.virtio_mmio_base != 0 && m.virtio_mmio_base <= va < m.virtio_mmio_base + 0x20_0000 {
        assert(holds(rs[4], va));
    }
    if held {
        let k = choose|k: int| 0 <= k < rs.len() && holds(#[trigger] rs[k], va);
        assert(k == 0 || k == 1 || k == 2 || k == 3 || k == 4);
    }
}

/// Ranges of device pages after one of blocks that does not hold the address.
proof fn lemma_device_ranges(before: Option<(int, u64)>, rs: Seq<MapRequest>, n: int, va: u64)
    requires
        1 <= n <= rs.len(),
        va < 0x1_0000_0000_0000,
        forall|i: int|
            0 <= i < n ==> (#[trigger] rs[i]).wf() && rs[i].flags & 1 != 0 && rs[i].base
                + rs[i].size + 0x20_0000 <= 0x1_0000_0000_0000,
        forall|i: int|
            1 <= i < n ==> !(#[trigger] rs[i]).blocks && rs[i].flags == 0x60_0000_0000_0405,
        !holds(rs[0], va),
        before matches Some((l, e)) ==> l != 2,
    ensures
        (exists|k: int| 0 <= k < n && holds(#[trigger] rs[k], va)) ==> mapped_leaf(
            before,
            rs,
            n,
            va,
        ) == Some((3int, start_of_page(va) as u64 | 0x60_0000_0000_0405 | 2)),
        !(exists|k: int| 0 <= k < n && holds(#[trigger] rs[k], va)) ==> mapped_leaf(
            before,
            rs,
            n,
            va,
        ) == before,
    decreases n,
{
    let mid = mapped_leaf(before, rs, n - 1, va);
    if n > 1 {
        lemma_device_ranges(before, rs, n - 1, va);
        assert(!rs[n - 1].blocks);
        if exists|k: int| 0 <= k < n && holds(#[trigger] rs[k], va) {
            if !holds(rs[n - 1], va) {
                let k = choose|k: int| 0 <= k < n && holds(#[trigger] rs[k], va);
                assert(0 <= k < n - 1 && holds(rs[k], va));
            }
        }
    }
    assert(rs[n - 1].wf());
    law_range_maps_to_itself(rs[n - 1], mid, va);
    assert(mapped_leaf(before, rs, n, va) == rs[n - 1].leaf(mid, va));
}

/// A page of a window maps to itself with the flags of the last window that holds it.
pub proof fn law_window_pages_are_open(
    before: Option<(int, u64)>,
    ws: Seq<Window>,
    k: int,
    n: int,
    vb: u64,
)
    requires
        0 <= k < n <= ws.len(),
        vb < 0x1_0000_0000_0000,
        forall|i: int| 0 <= i < n ==> (#[trigger] ws[i]).wf() && ws[i].flags & 1 != 0,
        ws[k].va <= vb < ws[k].va + ws[k].size,
        forall|i: int| k < i < n ==> !((#[trigger] ws[i]).va <= vb < ws[i].va + ws[i].size),
    ensures
        opened_leaf(before, ws, n, vb) == Some((3int, start_of_page(vb) as u64 | ws[k].flags)),
    decreases n,
{
    lemma_same_page(vb, vb);
    let page = start_of_page(vb) as u64;
    let f = ws[k].flags;
    assert((page | f) & 1 != 0) by (bit_vector)
        requires
            f & 1 != 0,
    ;
    assert(ws[n - 1].wf());
    if k < n - 1 {
        law_window_pages_are_open(before, ws, k, n - 1, vb);
        law_opened_pages(
            opened_leaf(before, ws, n - 1, vb),
            ws[n - 1].va,
            ws[n - 1].size,
            ws[n - 1].flags,
            vb,
        );
    } else {
        lemma_blocks(vb);
        assert(page == page_of(vb));
        assert(ws[k].va <= page_of(vb) < ws[k].va + ws[k].size);
    }
}

/// A page that no window holds, and that is in no block, stays as it was.
pub proof fn law_windows_spare_other_pages(
    before: Option<(int, u64)>,
    ws: Seq<Window>,
    n: int,
    vb: u64,
)
    requires
        0 <= n <= ws.len(),
        vb < 0x1_0000_0000_0000,
        forall|i: int| 0 <= i < n ==> (#[trigger] ws[i]).wf() && ws[i].flags & 1 != 0,
        forall|i: int| 0 <= i < n ==> !((#[trigger] ws[i]).va <= vb < ws[i].va + ws[i].size),
        before matches Some((l, e)) ==> l != 2 && e & 1 != 0,
    ensures
        opened_leaf(before, ws, n, vb) == before,
    decreases n,
{
    if n > 0 {
        law_windows_spare_other_pages(before, ws, n - 1, vb);
        assert(ws[n - 1].wf());
        law_opened_pages(before, ws[n - 1].va, ws[n - 1].size, ws[n - 1].flags, vb);
    }
}

/// Windows are opened in order as far as the frames suffice, and in the one address space.
pub proof fn law_windows_open_in_order(
    t: Tables,
    a: FrameAllocator,
    root: int,
    ws: Seq<Window>,
    n: int,
    u: Tables,
    b: FrameAllocator,
    r: bool,
    g: int,
    va: u64,
)
    requires
        open_result(t, a, root, ws, n, u, b, r),
        t.live(g),
        t.levels[g] == 0,
    ensures
        0 <= n <= ws.len(),
        r <==> n == ws.len(),
        !r ==> ws[n].need(u, root) > b.free_set().len(),
        g == t.frame(root) ==> u.leaf_from(g, 0, va) == opened_leaf(
            t.leaf_from(g, 0, va),
            ws,
            n,
            va,
        ),
        g != t.frame(root) ==> u.leaf_from(g, 0, va) == t.leaf_from(g, 0, va),
        n == 0 ==> u == t && b == a,
{
    if n == 0 {
        reveal_with_fuel(window_steps, 2);
    }
}

} // verus!
