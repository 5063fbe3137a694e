//! Mapping pages and blocks under a root table.

use vstd::prelude::*;
use crate::bits::lemma_align;
use crate::mem::frame::FrameAllocator;
use crate::mem::page_table::{
    alloc_table, backed, block_of, ensure_table, grown, kernel_l0_phys, l0_idx, l1_idx, l2_idx,
    l3_idx, lemma_desc, lemma_grown_link, lemma_grown_trans, lemma_maps_trans, lemma_prefix,
    lemma_same_page, lemma_step, missing, page_of, span, walk_to_l2, TableSpace, BLOCK_SIZE,
    DESC_PAGE, DESC_TABLE, DESC_VALID, VA_LIMIT,
};
use crate::mem::tables::{
    idx, is_table, mapping, same_block, same_page, same_prefix, valid, Tables, ADDR_MASK,
};
use crate::mem::{PhysAddr, VirtAddr, PAGE_SIZE};

verus! {

/// Descriptor bits that a page keeps from the block it was split from: every
/// attribute in the low twelve bits and the two execute-never bits.
pub const SPLIT_MASK: u64 = 0x60_0000_0000_0FFF;

/// Attributes of the pages that a block with descriptor `e` splits into.
pub open spec fn fill_flags(e: u64) -> u64 {
    (e & SPLIT_MASK) | DESC_PAGE
}

/// The words of the table that the block at `base` with descriptor `e` splits
/// into.
pub open spec fn split_words(base: int, e: u64) -> Seq<u64> {
    Seq::new(512, |i: int| ((base + i * 4096) as u64) | fill_flags(e))
}

/// How `vb` is mapped once the page of `va` under the same root has got the
/// descriptor `desc`: the rest of a split 2 MiB block keeps its attributes.
pub open spec fn page_set_leaf(
    before: Option<(int, u64)>,
    va: u64,
    vb: u64,
    desc: u64,
) -> Option<(int, u64)> {
    if same_page(va, vb) {
        mapping(3, desc)
    } else {
        match before {
            Some((l, e)) => if l == 2 && same_block(va, vb) {
                mapping(3, (page_of(vb) as u64) | fill_flags(e))
            } else {
                before
            },
            None => None,
        }
    }
}

/// Addresses in one block share the walk to level 2.
proof fn lemma_block_leaf(t: Tables, r: int, va: u64, vb: u64)
    requires
        same_block(va, vb),
    ensures
        t.reach_from(r, 0, va, 2) == t.reach_from(r, 0, vb, 2),
        t.reach_from(r, 0, va, 3) == t.reach_from(r, 0, vb, 3),
        idx(va, 2) == idx(vb, 2),
        (t.leaf_from(r, 0, va) matches Some((l, e)) && l == 2) ==> t.leaf_from(r, 0, vb)
            == t.leaf_from(r, 0, va),
{
    assert forall|k: int| 0 <= k < 3 implies #[trigger] idx(va, k) == idx(vb, k) by {}
    t.lemma_reach_prefix(r, 0, va, vb, 2);
    t.lemma_reach_prefix(r, 0, va, vb, 3);
}

/// Writing the level-3 entry of `va` maps its page and nothing else.
proof fn lemma_write_page(t: Tables, a: FrameAllocator, root: int, va: u64, f: int, desc: u64)
    requires
        t.wf(),
        backed(t, a),
        t.is_root(root),
        t.reach(root, va, 3) == Some(f),
    ensures
        t.set(f, idx(va, 3), desc).wf(),
        grown(t, a, t.set(f, idx(va, 3), desc), a),
        forall|g: int, vb: u64|
            t.live(g) && t.levels[g] == 0 ==> #[trigger] t.set(f, idx(va, 3), desc).leaf_from(
                g,
                0,
                vb,
            ) == if g == t.frame(root) && same_page(va, vb) {
                mapping(3, desc)
            } else {
                t.leaf_from(g, 0, vb)
            },
        forall|g: int, vb: u64, k: int|
            t.live(g) && t.levels[g] == 0 && 0 <= k <= 3 ==> #[trigger] t.set(
                f,
                idx(va, 3),
                desc,
            ).reach_from(g, 0, vb, k) == t.reach_from(g, 0, vb, k),
{
    let r = t.frame(root);
    let t1 = t.set(f, idx(va, 3), desc);
    t.lemma_reach_live(r, 0, va, 3);
    t.lemma_set_leaf_wf(f, idx(va, 3), desc);
    assert forall|g: int, vb: u64| t.live(g) && t.levels[g] == 0 implies #[trigger] t1.leaf_from(
        g,
        0,
        vb,
    ) == if g == r && same_page(va, vb) {
        mapping(3, desc)
    } else {
        t.leaf_from(g, 0, vb)
    } by {
        t.lemma_set_leaf(f, idx(va, 3), desc, g, 0, vb);
        t.lemma_through(r, va, 3, f, g, vb);
    }
    assert forall|g: int, vb: u64, k: int|
        t.live(g) && t.levels[g] == 0 && 0 <= k <= 3 implies #[trigger] t1.reach_from(g, 0, vb, k)
        == t.reach_from(g, 0, vb, k) by {
        t.lemma_set_reach(f, idx(va, 3), desc, g, 0, vb, k);
    }
    a.lemma_window();
    assert forall|g: int| #[trigger] t1.live(g) implies !a.free_set().contains(g) by {
        assert(t.live(g));
    }
    assert forall|g: int| 0 <= g < t.n() && !t1.live(g) implies #[trigger] t1.mem[g]
        == t.mem[g] by {
        assert(!t.live(g));
    }
    assert forall|g: int| #[trigger] a.free_set().contains(g) <==> a.free_set().contains(g)
        && !t1.live(g) by {
        assert(t1.live(g) ==> t.live(g));
    }
}

/// The page of `va` under `root` has the descriptor `desc`, with the tables that this takes; a
/// page in a block keeps the block.
pub open spec fn page_added(
    t: Tables,
    a: FrameAllocator,
    u: Tables,
    b: FrameAllocator,
    root: int,
    va: u64,
    desc: u64,
) -> bool {
    &&& grown(t, a, u, b)
    &&& if t.in_block(root, va) {
        u == t && b == a
    } else {
        &&& forall|g: int, vb: u64|
            t.live(g) && t.levels[g] == 0 ==> #[trigger] u.leaf_from(g, 0, vb) == if g == t.frame(
                root,
            ) && same_page(va, vb) {
                mapping(3, desc)
            } else {
                t.leaf_from(g, 0, vb)
            }
        &&& t.reach_grown(u, t.frame(root), va, 3)
        &&& b.free_set().len() + missing(t, root, va, 3) == a.free_set().len()
    }
}

/// Map a single 4 KiB page of the kernel's map: VA `vaddr` to PA `paddr` with
/// `flags`.
///
/// Where a 2 MiB block already covers the page, nothing is done.  The entry
/// gets the page-descriptor type bit whatever `flags` holds.
pub fn map_page(
    space: &mut TableSpace,
    frames: &mut FrameAllocator,
    vaddr: VirtAddr,
    paddr: PhysAddr,
    flags: u64,
)
    requires
        old(space).wf(),
        old(space).backed(*old(frames)),
        vaddr % 4096 == 0,
        paddr % 4096 == 0,
        old(space)@.in_block(old(space).kernel_root(), vaddr) || missing(
            old(space)@,
            old(space).kernel_root(),
            vaddr,
            3,
        ) <= old(frames).free_set().len(),
    ensures
        final(space).wf(),
        final(space).kernel_root() == old(space).kernel_root(),
        page_added(
            old(space)@,
            *old(frames),
            final(space)@,
            *final(frames),
            old(space).kernel_root(),
            vaddr,
            paddr | flags | DESC_PAGE,
        ),
{
    let root: PhysAddr = kernel_l0_phys(space);
    let ghost t0 = space@;
    let ghost a0 = *frames;
    let ghost r = t0.frame(root as int);
    let l2: PhysAddr = walk_to_l2(space, frames, root, vaddr);
    let ghost t1 = space@;
    let ghost a1 = *frames;
    let ghost f2 = t1.frame(l2 as int);
    proof {
        t1.lemma_reach_live(r, 0, vaddr, 2);
        assert(t1.leaf_from(r, 0, vaddr) == t0.leaf_from(r, 0, vaddr));
        assert(t1.reach_from(r, 0, vaddr, 3) is Some <==> is_table(t1.entry(f2, idx(vaddr, 2))));
    }
    let l2e: u64 = space.read(l2, l2_idx(vaddr));
    if l2e & DESC_VALID != 0 && l2e & DESC_TABLE == 0 {
        assert(t1.leaf_from(r, 0, vaddr) == Some((2int, l2e)));
        assert(t0.reach(root as int, vaddr, 2) is Some);
        return ;
    }
    proof {
        assert(!t0.in_block(root as int, vaddr));
        assert(t0.reach(root as int, vaddr, 3) is None <==> t1.reach(root as int, vaddr, 3) is None);
    }
    let l3: PhysAddr = ensure_table(space, frames, l2, l2_idx(vaddr));
    let ghost t2 = space@;
    let ghost a2 = *frames;
    proof {
        lemma_step(t1, a1, t2, a2, root as int, vaddr, 2, f2, l3);
        lemma_grown_trans(t0, a0, t1, a1, t2, a2);
        lemma_maps_trans(t0, t1, t2, r, vaddr, 2);
        lemma_write_page(t2, a2, root as int, vaddr, t2.frame(l3 as int), paddr | flags | DESC_PAGE);
    }
    space.write(l3, l3_idx(vaddr), paddr | flags | DESC_PAGE);
    proof {
        let t3 = space@;
        lemma_grown_trans(t0, a0, t2, a2, t3, a2);
        assert(t0.live(r));
        assert(t3.live(r));
        assert forall|g: int, vb: u64| t0.live(g) && t0.levels[g] == 0 implies #[trigger] t3.leaf_from(
            g,
            0,
            vb,
        ) == if g == r && same_page(vaddr, vb) {
            mapping(3, paddr | flags | DESC_PAGE)
        } else {
            t0.leaf_from(g, 0, vb)
        } by {
            assert(t2.live(g));
            assert(t2.leaf_from(g, 0, vb) == t0.leaf_from(g, 0, vb));
        }
        assert forall|g: int, vb: u64, k: int|
            t0.live(g) && t0.levels[g] == 0 && 0 <= k <= 3 implies match t0.reach_from(
            g,
            0,
            vb,
            k,
        ) {
            Some(h) => #[trigger] t3.reach_from(g, 0, vb, k) == Some(h),
            None => t3.reach_from(g, 0, vb, k) is Some <==> g == r && k <= 3 && same_prefix(
                vaddr,
                vb,
                k,
            ),
        } by {
            assert(t2.live(g));
            assert(t3.reach_from(g, 0, vb, k) == t2.reach_from(g, 0, vb, k));
        }
    }
}

/// Replace the block under entry `l2_idx(va)` of the level-2 table `l2` by a
/// table of pages with the block's attributes.
fn split_block(
    space: &mut TableSpace,
    frames: &mut FrameAllocator,
    l2: PhysAddr,
    va: VirtAddr,
    Ghost(root): Ghost<int>,
)
    requires
        old(space)@.wf(),
        old(space).backed(*old(frames)),
        old(space)@.is_root(root),
        old(space)@.has_frame(l2 as int),
        old(space)@.reach(root, va, 2) == Some(old(space)@.frame(l2 as int)),
        !is_table(old(space)@.entry(old(space)@.frame(l2 as int), idx(va, 2))),
        old(frames).free_set().len() > 0,
        va < VA_LIMIT,
    ensures
        final(space).kernel_root() == old(space).kernel_root(),
        grown(old(space)@, *old(frames), final(space)@, *final(frames)),
        final(frames).free_set().len() + 1 == old(frames).free_set().len(),
        old(space)@.reach_grown(final(space)@, old(space)@.frame(root), va, 3),
        final(space)@.is_root(root),
        final(space)@.reach(root, va, 2) == Some(old(space)@.frame(l2 as int)),
        final(space)@.reach(root, va, 3) is Some,
        ({
            let t0 = old(space)@;
            let e = t0.entry(t0.frame(l2 as int), idx(va, 2));
            forall|g: int, vb: u64|
                t0.live(g) && t0.levels[g] == 0 ==> #[trigger] final(space)@.leaf_from(g, 0, vb)
                    == if g == t0.frame(root) && same_block(va, vb) {
                    mapping(3, (page_of(vb) as u64) | fill_flags(e))
                } else {
                    t0.leaf_from(g, 0, vb)
                }
        }),
{
    let ghost t0 = space@;
    let ghost a0 = *frames;
    let ghost r = t0.frame(root);
    let ghost f2 = t0.frame(l2 as int);
    let i2: usize = l2_idx(va);
    proof {
        t0.lemma_reach_live(r, 0, va, 2);
        lemma_align(va);
        lemma_same_page(va, va);
        a0.lemma_window();
    }
    let e: u64 = space.read(l2, i2);
    let l3: PhysAddr = alloc_table(frames);
    let ghost a1 = *frames;
    let ghost c = t0.frame(l3 as int);
    assert(c == a0.frame_of(l3 as int));
    let block_base: u64 = va & !0x1F_FFFFu64;
    assert(block_base == block_of(va)) by {
        reveal(block_of);
    }
    let fill: u64 = (e & SPLIT_MASK) | DESC_PAGE;
    let ghost words = split_words(block_base as int, e);
    let mut i: usize = 0;
    while i < 512
        invariant
            i <= 512,
            space@.base == t0.base,
            space@.levels == t0.levels,
            space@.n() == t0.n(),
            space@.has_frame(l3 as int),
            space@.frame(l3 as int) == c,
            space.kernel_root() == old(space).kernel_root(),
            0 <= c < t0.n(),
            block_base < VA_LIMIT,
            block_base == block_of(va),
            fill == fill_flags(e),
            words == split_words(block_base as int, e),
            t0.mem[c].len() == 512,
            space@.mem[c].len() == 512,
            space@.mem =~= t0.mem.update(c, space@.mem[c]),
            forall|k: int| 0 <= k < i ==> #[trigger] space@.mem[c][k] == words[k],
        decreases 512 - i,
    {
        space.write(l3, i, (block_base + i as u64 * PAGE_SIZE) | fill);
        i = i + 1;
    }
    assert(space@.mem[c] =~= words);
    space.adopt(l3, 3);
    assert(space@.mem =~= t0.put_table(c, 3, words).mem);
    assert(space@ == t0.put_table(c, 3, words));
    space.write(l2, i2, l3 | DESC_VALID | DESC_TABLE);
    proof {
        assert(t0.addr(c) == l3);
        assert(space@ == t0.linked(f2, idx(va, 2), c, words));
        assert(t0.can_link(r, va, 2, f2, c, words));
        t0.lemma_linked(r, va, 2, f2, c, words);
        lemma_grown_link(t0, a0, a1, r, va, 2, f2, l3, words);
        assert forall|g: int, vb: u64|
            t0.live(g) && t0.levels[g] == 0 implies #[trigger] space@.leaf_from(g, 0, vb) == if g
            == r && same_block(va, vb) {
            mapping(3, (page_of(vb) as u64) | fill_flags(e))
        } else {
            t0.leaf_from(g, 0, vb)
        } by {
            t0.lemma_linked_pages(r, va, f2, c, words, g, vb);
            lemma_same_page(va, vb);
            lemma_same_page(vb, va);
        }
        assert(t0.live(r));
        assert(space@.live(r));
        assert(t0.reach_from(r, 0, va, 2) is Some);
        assert(space@.reach_from(r, 0, va, 2) == Some(f2));
    }
}

/// Give the page of `va` under `root` the descriptor `desc`, splitting a 2 MiB
/// block that covers it.
fn set_user_page(
    space: &mut TableSpace,
    frames: &mut FrameAllocator,
    root: PhysAddr,
    va: VirtAddr,
    desc: u64,
)
    requires
        old(space).wf(),
        old(space).backed(*old(frames)),
        old(space)@.is_root(root as int),
        va < VA_LIMIT,
        missing(old(space)@, root as int, va, 3) <= old(frames).free_set().len(),
    ensures
        final(space).wf(),
        final(space).kernel_root() == old(space).kernel_root(),
        final(space)@.is_root(root as int),
        grown(old(space)@, *old(frames), final(space)@, *final(frames)),
        old(space)@.reach_grown(final(space)@, old(space)@.frame(root as int), va, 3),
        final(frames).free_set().len() + missing(old(space)@, root as int, va, 3) == old(frames).free_set().len(),
        forall|g: int, vb: u64|
            old(space)@.live(g) && old(space)@.levels[g] == 0 ==> #[trigger] final(space)@.leaf_from(g, 0, vb) == if g == old(space)@.frame(root as int) {
                page_set_leaf(old(space)@.leaf_from(g, 0, vb), va, vb, desc)
            } else {
                old(space)@.leaf_from(g, 0, vb)
            },
{
    let ghost t0 = space@;
    let ghost a0 = *frames;
    let ghost r = t0.frame(root as int);
    let l2: PhysAddr = walk_to_l2(space, frames, root, va);
    let ghost t1 = space@;
    let ghost a1 = *frames;
    let ghost f2 = t1.frame(l2 as int);
    proof {
        t1.lemma_reach_live(r, 0, va, 2);
        assert(t1.leaf_from(r, 0, va) == t0.leaf_from(r, 0, va));
        assert(t1.reach_from(r, 0, va, 3) is Some <==> is_table(t1.entry(f2, idx(va, 2))));
        assert(t0.reach(root as int, va, 3) is None <==> t1.reach(root as int, va, 3) is None);
    }
    let l2e: u64 = space.read(l2, l2_idx(va));
    if l2e & DESC_VALID != 0 && l2e & DESC_TABLE == 0 {
        split_block(space, frames, l2, va, Ghost(root as int));
        proof {
            assert(t1.leaf_from(r, 0, va) == Some((2int, l2e)));
        }
    }
    let ghost t2 = space@;
    let ghost a2 = *frames;
    proof {
        if l2e & DESC_VALID != 0 && l2e & DESC_TABLE == 0 {
            lemma_grown_trans(t0, a0, t1, a1, t2, a2);
        }
        t2.lemma_reach_live(r, 0, va, 2);
        assert(t2.reach(root as int, va, 2) == Some(f2));
        assert(t2.live(f2));
        assert(t2.reach_from(r, 0, va, 3) is Some <==> is_table(t2.entry(f2, idx(va, 2))));
    }
    let l3: PhysAddr = ensure_table(space, frames, l2, l2_idx(va));
    let ghost t3 = space@;
    let ghost a3 = *frames;
    proof {
        lemma_step(t2, a2, t3, a3, root as int, va, 2, f2, l3);
        lemma_grown_trans(t0, a0, t2, a2, t3, a3);
        lemma_write_page(t3, a3, root as int, va, t3.frame(l3 as int), desc);
    }
    space.write(l3, l3_idx(va), desc);
    proof {
        let t4 = space@;
        lemma_grown_trans(t0, a0, t3, a3, t4, a3);
        assert(t0.live(r));
        assert(t4.live(r));
        assert(t0.live(t0.frame(space.kernel_root())));
        assert forall|g: int, vb: u64| t0.live(g) && t0.levels[g] == 0 implies #[trigger] t4.leaf_from(
            g,
            0,
            vb,
        ) == if g == r {
            page_set_leaf(t0.leaf_from(g, 0, vb), va, vb, desc)
        } else {
            t0.leaf_from(g, 0, vb)
        } by {
            assert(t1.live(g));
            assert(t2.live(g));
            assert(t3.live(g));
            assert(t1.leaf_from(g, 0, vb) == t0.leaf_from(g, 0, vb));
            assert(t3.leaf_from(g, 0, vb) == t2.leaf_from(g, 0, vb));
            if same_block(va, vb) {
                lemma_block_leaf(t1, r, va, vb);
            }
        }
        assert forall|g: int, vb: u64, k: int|
            t0.live(g) && t0.levels[g] == 0 && 0 <= k <= 3 implies match t0.reach_from(
            g,
            0,
            vb,
            k,
        ) {
            Some(h) => #[trigger] t4.reach_from(g, 0, vb, k) == Some(h),
            None => t4.reach_from(g, 0, vb, k) is Some <==> g == r && k <= 3 && same_prefix(
                va,
                vb,
                k,
            ),
        } by {
            assert(t1.live(g));
            assert(t2.live(g));
            assert(t3.live(g));
            assert(t1.reach_from(g, 0, vb, k) is Some || t1.reach_from(g, 0, vb, k) is None);
            assert(t2.reach_from(g, 0, vb, k) is Some || t2.reach_from(g, 0, vb, k) is None);
            assert(t3.reach_from(g, 0, vb, k) is Some || t3.reach_from(g, 0, vb, k) is None);
            assert(t4.reach_from(g, 0, vb, k) == t3.reach_from(g, 0, vb, k));
        }
    }
}

/// Address of item `i` of a run of items of `step` bytes at `va`.
pub open spec fn item(va: u64, step: int, i: int) -> u64 {
    (va + step * i) as u64
}

/// The level-`k` table of item `i` is missing, and item `i - 1` does not need it.
pub open spec fn first_use(t: Tables, root: int, va: u64, step: int, i: int, k: int) -> bool {
    &&& t.reach(root, item(va, step, i), k) is None
    &&& i == 0 || !same_prefix(item(va, step, i - 1), item(va, step, i), k)
}

/// Tables down to level `d` that item `i` of a run needs and those before it
/// did not.
pub open spec fn new_tables(t: Tables, root: int, va: u64, step: int, i: int, d: int) -> int {
    (if d >= 1 && first_use(t, root, va, step, i, 1) {
        1int
    } else {
        0
    }) + (if d >= 2 && first_use(t, root, va, step, i, 2) {
        1int
    } else {
        0
    }) + (if d >= 3 && first_use(t, root, va, step, i, 3) {
        1int
    } else {
        0
    })
}

/// Item `i` of the run is left alone because a block covers it.
pub open spec fn skipped(t: Tables, root: int, va: u64, step: int, i: int, skip: bool) -> bool {
    skip && t.in_block(root, item(va, step, i))
}

/// Tables down to level `d` that mapping the first `n` items of a run takes;
/// with `skip`, items in blocks are left alone.
pub open spec fn need(
    t: Tables,
    root: int,
    va: u64,
    step: int,
    n: int,
    d: int,
    skip: bool,
) -> int
    decreases n,
{
    if n <= 0 {
        0
    } else {
        need(t, root, va, step, n - 1, d, skip) + if skipped(t, root, va, step, n - 1, skip) {
            0
        } else {
            new_tables(t, root, va, step, n - 1, d)
        }
    }
}

/// A run of `n` items takes at most `d` tables for each.
pub proof fn lemma_need_bound(
    t: Tables,
    root: int,
    va: u64,
    step: int,
    n: int,
    d: int,
    skip: bool,
)
    requires
        0 <= d <= 3,
    ensures
        0 <= need(t, root, va, step, n, d, skip),
        n >= 0 ==> need(t, root, va, step, n, d, skip) <= 3 * n,
    decreases n,
{
    if n > 0 {
        lemma_need_bound(t, root, va, step, n - 1, d, skip);
    }
}

proof fn lemma_need_mono(
    t: Tables,
    root: int,
    va: u64,
    step: int,
    i: int,
    n: int,
    d: int,
    skip: bool,
)
    requires
        i <= n,
    ensures
        need(t, root, va, step, i, d, skip) <= need(t, root, va, step, n, d, skip),
    decreases n - i,
{
    if i < n {
        lemma_need_mono(t, root, va, step, i, n - 1, d, skip);
    }
}

/// `t` has the tables of `t0` and those of the first `i` items of the run.
#[verifier::opaque]
spec fn progress(
    t0: Tables,
    t: Tables,
    root: int,
    va: u64,
    step: int,
    i: int,
    d: int,
    skip: bool,
) -> bool {
    forall|vb: u64, k: int|
        1 <= k <= d ==> (#[trigger] t.reach(root, vb, k) is Some <==> t0.reach(root, vb, k) is Some
            || exists|j: int| 0 <= j < i && !skipped(t0, root, va, step, j, skip) && same_prefix(
            #[trigger] item(va, step, j),
            vb,
            k,
        ))
}

/// Item `i` still lacks its level-`k` table exactly if it is the first to use
/// it.
proof fn lemma_missing_at(
    t0: Tables,
    t: Tables,
    root: int,
    va: u64,
    step: int,
    i: int,
    d: int,
    skip: bool,
    k: int,
)
    requires
        0 <= i,
        0 < step,
        va + step * (i + 1) <= VA_LIMIT,
        1 <= k <= d <= 3,
        progress(t0, t, root, va, step, i, d, skip),
        !skipped(t0, root, va, step, i, skip),
    ensures
        t.reach(root, item(va, step, i), k) is None <==> first_use(t0, root, va, step, i, k),
{
    reveal(progress);
    let cur = item(va, step, i);
    if t0.reach(root, cur, k) is None {
        if i > 0 && same_prefix(item(va, step, i - 1), cur, k) {
            lemma_used_before(t0, root, va, step, i, skip, k);
            let j = i - 1;
            assert(0 <= j < i && !skipped(t0, root, va, step, j, skip) && same_prefix(
                item(va, step, j),
                cur,
                k,
            ));
            assert(t.reach(root, cur, k) is Some);
        }
        if t.reach(root, cur, k) is Some {
            let j = choose|j: int|
                0 <= j < i && !skipped(t0, root, va, step, j, skip) && same_prefix(
                    #[trigger] item(va, step, j),
                    cur,
                    k,
                );
            lemma_prefix_run(va, step, j, i, k);
        }
    }
}

/// If item `i` is not skipped and shares a missing table with item `i - 1`,
/// then that one is not skipped either.
proof fn lemma_used_before(t0: Tables, root: int, va: u64, step: int, i: int, skip: bool, k: int)
    requires
        1 <= k <= 3,
        t0.reach(root, item(va, step, i), k) is None,
        !skipped(t0, root, va, step, i, skip),
        same_prefix(item(va, step, i - 1), item(va, step, i), k),
    ensures
        !skipped(t0, root, va, step, i - 1, skip),
{
    let cur = item(va, step, i);
    let prev = item(va, step, i - 1);
    if skipped(t0, root, va, step, i - 1, skip) {
        assert forall|q: int| 0 <= q < k implies #[trigger] idx(prev, q) == idx(cur, q) by {}
        t0.lemma_reach_prefix(t0.frame(root), 0, prev, cur, k);
        if k == 3 {
            lemma_block_leaf(t0, t0.frame(root), prev, cur);
        } else {
            t0.lemma_reach_upper(t0.frame(root), prev, k, 2);
        }
    }
}

/// In a run, an item that shares a table with an earlier one shares it with
/// the one just before.
proof fn lemma_prefix_run(va: u64, step: int, j: int, i: int, k: int)
    requires
        0 <= j < i,
        0 < step,
        va + step * (i + 1) <= VA_LIMIT,
        1 <= k <= 3,
        same_prefix(item(va, step, j), item(va, step, i), k),
    ensures
        same_prefix(item(va, step, i - 1), item(va, step, i), k),
{
    let cur = item(va, step, i);
    let prev = item(va, step, i - 1);
    assert(0 <= step * j <= step * (i - 1) < step * i < step * (i + 1)) by (nonlinear_arith)
        requires
            0 <= j <= i - 1,
            0 < step,
    ;
    lemma_prefix(item(va, step, j), cur, k);
    lemma_prefix(prev, cur, k);
    lemma_div_between(item(va, step, j) as int, prev as int, cur as int, span(k));
}

/// The tables that item `i` still lacks are those counted as new for it.
proof fn lemma_missing_new(
    t0: Tables,
    t: Tables,
    root: int,
    va: u64,
    step: int,
    i: int,
    d: int,
    skip: bool,
)
    requires
        0 <= i,
        0 < step,
        va + step * (i + 1) <= VA_LIMIT,
        2 <= d <= 3,
        progress(t0, t, root, va, step, i, d, skip),
        !skipped(t0, root, va, step, i, skip),
    ensures
        missing(t, root, item(va, step, i), d) == new_tables(t0, root, va, step, i, d),
{
    lemma_missing_at(t0, t, root, va, step, i, d, skip, 1);
    lemma_missing_at(t0, t, root, va, step, i, d, skip, 2);
    if d == 3 {
        lemma_missing_at(t0, t, root, va, step, i, d, skip, 3);
    }
}

proof fn lemma_div_between(a: int, b: int, c: int, s: int)
    requires
        0 <= a <= b <= c,
        s > 0,
        a / s == c / s,
    ensures
        b / s == c / s,
{
    vstd::arithmetic::div_mod::lemma_div_is_ordered(a, b, s);
    vstd::arithmetic::div_mod::lemma_div_is_ordered(b, c, s);
}

/// Mapping item `i` keeps the count of tables exact.
proof fn lemma_progress_step(
    t0: Tables,
    t: Tables,
    t1: Tables,
    root: int,
    va: u64,
    step: int,
    i: int,
    d: int,
    skip: bool,
)
    requires
        0 <= i,
        2 <= d <= 3,
        t.is_root(root),
        t.base == t1.base,
        progress(t0, t, root, va, step, i, d, skip),
        !skipped(t0, root, va, step, i, skip),
        forall|vb: u64, k: int|
            1 <= k <= d ==> (#[trigger] t1.reach(root, vb, k) is Some <==> t.reach(root, vb, k)
                is Some || same_prefix(item(va, step, i), vb, k)),
    ensures
        progress(t0, t1, root, va, step, i + 1, d, skip),
{
    reveal(progress);
    assert forall|vb: u64, k: int| 1 <= k <= d implies (#[trigger] t1.reach(root, vb, k) is Some
        <==> t0.reach(root, vb, k) is Some || exists|j: int|
        0 <= j < i + 1 && !skipped(t0, root, va, step, j, skip) && same_prefix(
            #[trigger] item(va, step, j),
            vb,
            k,
        )) by {
        assert(t.reach(root, vb, k) is Some || t.reach(root, vb, k) is None);
        if t1.reach(root, vb, k) is Some && t0.reach(root, vb, k) is None {
            if t.reach(root, vb, k) is Some {
                let j = choose|j: int|
                    0 <= j < i && !skipped(t0, root, va, step, j, skip) && same_prefix(
                        #[trigger] item(va, step, j),
                        vb,
                        k,
                    );
                assert(0 <= j < i + 1 && !skipped(t0, root, va, step, j, skip) && same_prefix(
                    item(va, step, j),
                    vb,
                    k,
                ));
            } else {
                assert(same_prefix(item(va, step, i), vb, k));
            }
        }
        if exists|j: int|
            0 <= j < i + 1 && !skipped(t0, root, va, step, j, skip) && same_prefix(
                #[trigger] item(va, step, j),
                vb,
                k,
            ) {
            let j = choose|j: int|
                0 <= j < i + 1 && !skipped(t0, root, va, step, j, skip) && same_prefix(
                    #[trigger] item(va, step, j),
                    vb,
                    k,
                );
            if j < i {
                assert(t.reach(root, vb, k) is Some);
            }
        }
    }
}

/// The first `i` of `n` items of a run are mapped as far as tables and frames go.
#[verifier::opaque]
spec fn run_state(
    t0: Tables,
    a0: FrameAllocator,
    t: Tables,
    a: FrameAllocator,
    root: int,
    va: u64,
    step: int,
    n: int,
    i: int,
    d: int,
    skip: bool,
) -> bool {
    &&& t0.wf()
    &&& t0.is_root(root)
    &&& grown(t0, a0, t, a)
    &&& need(t0, root, va, step, n, d, skip) <= a0.free_set().len()
    &&& a.free_set().len() + need(t0, root, va, step, i, d, skip) == a0.free_set().len()
    &&& progress(t0, t, root, va, step, i, d, skip)
}

proof fn lemma_run_start(
    t0: Tables,
    a0: FrameAllocator,
    root: int,
    va: u64,
    step: int,
    n: int,
    d: int,
    skip: bool,
)
    requires
        t0.wf(),
        backed(t0, a0),
        t0.is_root(root),
        need(t0, root, va, step, n, d, skip) <= a0.free_set().len(),
    ensures
        run_state(t0, a0, t0, a0, root, va, step, n, 0, d, skip),
{
    reveal(run_state);
    reveal(progress);
    lemma_grown_refl(t0, a0);
}

/// There are frames for the tables of the next item.
proof fn lemma_run_before(
    t0: Tables,
    a0: FrameAllocator,
    t: Tables,
    a: FrameAllocator,
    root: int,
    va: u64,
    step: int,
    n: int,
    i: int,
    d: int,
    skip: bool,
)
    requires
        run_state(t0, a0, t, a, root, va, step, n, i, d, skip),
        0 <= i < n,
        0 < step,
        2 <= d <= 3,
        va + step * (i + 1) <= VA_LIMIT,
    ensures
        t.is_root(root),
        !skipped(t0, root, va, step, i, skip) ==> missing(t, root, item(va, step, i), d)
            <= a.free_set().len(),
{
    reveal(run_state);
    assert(t0.live(t0.frame(root)));
    lemma_need_mono(t0, root, va, step, i + 1, n, d, skip);
    if !skipped(t0, root, va, step, i, skip) {
        lemma_missing_new(t0, t, root, va, step, i, d, skip);
    }
}

/// The next item was mapped.
proof fn lemma_run_after(
    t0: Tables,
    a0: FrameAllocator,
    t: Tables,
    a: FrameAllocator,
    t1: Tables,
    a1: FrameAllocator,
    root: int,
    va: u64,
    step: int,
    n: int,
    i: int,
    d: int,
    skip: bool,
)
    requires
        run_state(t0, a0, t, a, root, va, step, n, i, d, skip),
        0 <= i < n,
        0 < step,
        2 <= d <= 3,
        va + step * (i + 1) <= VA_LIMIT,
        grown(t, a, t1, a1),
        if skipped(t0, root, va, step, i, skip) {
            t1 == t && a1 == a
        } else {
            &&& a1.free_set().len() + missing(t, root, item(va, step, i), d) == a.free_set().len()
            &&& forall|vb: u64, k: int|
                1 <= k <= d ==> (#[trigger] t1.reach(root, vb, k) is Some <==> t.reach(root, vb, k)
                    is Some || same_prefix(item(va, step, i), vb, k))
        },
    ensures
        run_state(t0, a0, t1, a1, root, va, step, n, i + 1, d, skip),
{
    reveal(run_state);
    assert(t0.live(t0.frame(root)));
    lemma_grown_trans(t0, a0, t, a, t1, a1);
    if skipped(t0, root, va, step, i, skip) {
        assert(skip);
        lemma_progress_skip(t0, t, root, va, step, i, d);
    } else {
        lemma_missing_new(t0, t, root, va, step, i, d, skip);
        lemma_progress_step(t0, t, t1, root, va, step, i, d, skip);
    }
}

/// The tables that there were are still there.
proof fn lemma_run_keeps(
    t0: Tables,
    a0: FrameAllocator,
    t: Tables,
    a: FrameAllocator,
    root: int,
    va: u64,
    step: int,
    n: int,
    i: int,
    d: int,
    skip: bool,
)
    requires
        run_state(t0, a0, t, a, root, va, step, n, i, d, skip),
    ensures
        t.base == t0.base,
        forall|g: int| #[trigger] t0.live(g) ==> t.live(g) && t.levels[g] == t0.levels[g],
{
    reveal(run_state);
}

proof fn lemma_run_end(
    t0: Tables,
    a0: FrameAllocator,
    t: Tables,
    a: FrameAllocator,
    root: int,
    va: u64,
    step: int,
    n: int,
    d: int,
    skip: bool,
)
    requires
        run_state(t0, a0, t, a, root, va, step, n, n, d, skip),
    ensures
        t.is_root(root),
        grown(t0, a0, t, a),
        a.free_set().len() + need(t0, root, va, step, n, d, skip) == a0.free_set().len(),
{
    reveal(run_state);
    assert(t0.live(t0.frame(root)));
}

/// How reach grows, seen from the root.
proof fn lemma_reach_grown(t: Tables, t1: Tables, root: int, va: u64, d: int)
    requires
        t.is_root(root),
        t1.base == t.base,
        d <= 3,
        t.reach_grown(t1, t.frame(root), va, d),
    ensures
        forall|vb: u64, k: int|
            1 <= k <= d ==> (#[trigger] t1.reach(root, vb, k) is Some <==> t.reach(root, vb, k)
                is Some || same_prefix(va, vb, k)),
{
    let r = t.frame(root);
    assert forall|vb: u64, k: int| 1 <= k <= d implies (#[trigger] t1.reach(root, vb, k) is Some
        <==> t.reach(root, vb, k) is Some || same_prefix(va, vb, k)) by {
        assert(t.reach_from(r, 0, vb, k) is Some || t.reach_from(r, 0, vb, k) is None);
        assert(t1.reach_from(r, 0, vb, k) is Some || t1.reach_from(r, 0, vb, k) is None);
        if t.reach_from(r, 0, vb, k) is Some {
            assert(t1.reach_from(r, 0, vb, k) == Some(t.reach_from(r, 0, vb, k)->0));
        }
    }
}

/// How the kernel maps `vb` once the pages `[base, base + len)` have been
/// identity-mapped with `flags`: pages in blocks keep the block.
pub open spec fn range_leaf(
    before: Option<(int, u64)>,
    base: int,
    len: int,
    flags: u64,
    vb: u64,
) -> Option<(int, u64)> {
    if base <= page_of(vb) < base + len && !(before matches Some((l, e)) && l == 2) {
        mapping(3, (page_of(vb) as u64) | flags | DESC_PAGE)
    } else {
        before
    }
}

/// Page `p` lies in a run of `i + 1` pages if it lies in the first `i` or is the
/// last; block `b` overlaps the run if it overlaps the first `i` pages or holds
/// the last.
proof fn lemma_run(va: int, i: int, p: int, b: int)
    requires
        0 <= va,
        0 <= i,
        va % 4096 == 0,
        p % 4096 == 0,
        b % 0x20_0000 == 0,
    ensures
        va <= p < va + 4096 * (i + 1) <==> va <= p < va + 4096 * i || p == va + 4096 * i,
        b < va + 4096 * (i + 1) && va < b + 0x20_0000 <==> (i > 0 && b < va + 4096 * i && va < b
            + 0x20_0000) || b <= va + 4096 * i < b + 0x20_0000,
{
}

/// `t` maps as `t0` does but for the identity-mapped pages of `[base, base + len)`.
#[verifier::opaque]
spec fn range_mapped(
    t0: Tables,
    t: Tables,
    root: int,
    base: u64,
    len: int,
    flags: u64,
) -> bool {
    forall|g: int, vb: u64|
        t0.live(g) && t0.levels[g] == 0 ==> #[trigger] t.leaf_from(g, 0, vb) == if g == t0.frame(
            root,
        ) {
            range_leaf(t0.leaf_from(g, 0, vb), base as int, len, flags, vb)
        } else {
            t0.leaf_from(g, 0, vb)
        }
}

proof fn lemma_range_step(
    t0: Tables,
    t: Tables,
    t1: Tables,
    root: int,
    base: u64,
    i: int,
    flags: u64,
)
    requires
        0 <= i,
        base % 4096 == 0,
        base + 4096 * i < VA_LIMIT,
        t0.is_root(root),
        t.base == t0.base,
        range_mapped(t0, t, root, base, 4096 * i, flags),
        forall|g: int| #[trigger] t0.live(g) ==> t.live(g) && t.levels[g] == t0.levels[g],
        t.in_block(root, item(base, 0x1000, i)) ==> t1 == t,
        !t.in_block(root, item(base, 0x1000, i)) ==> forall|g: int, vb: u64|
            t.live(g) && t.levels[g] == 0 ==> #[trigger] t1.leaf_from(g, 0, vb) == if g == t.frame(
                root,
            ) && same_page(item(base, 0x1000, i), vb) {
                mapping(3, item(base, 0x1000, i) | flags | DESC_PAGE)
            } else {
                t.leaf_from(g, 0, vb)
            },
    ensures
        range_mapped(t0, t1, root, base, 4096 * (i + 1), flags),
{
    reveal(range_mapped);
    let cur = item(base, 0x1000, i);
    let r = t0.frame(root);
    lemma_same_page(cur, cur);
    assert(t0.live(r));
    assert forall|g: int, vb: u64| t0.live(g) && t0.levels[g] == 0 implies #[trigger] t1.leaf_from(
        g,
        0,
        vb,
    ) == if g == r {
        range_leaf(t0.leaf_from(g, 0, vb), base as int, 4096 * (i + 1), flags, vb)
    } else {
        t0.leaf_from(g, 0, vb)
    } by {
        assert(t.live(g));
        lemma_same_page(cur, vb);
        lemma_same_page(vb, cur);
        lemma_run(base as int, i, page_of(vb), block_of(vb));
        assert(t.leaf_from(g, 0, vb) == if g == r {
            range_leaf(t0.leaf_from(g, 0, vb), base as int, 4096 * i, flags, vb)
        } else {
            t0.leaf_from(g, 0, vb)
        });
        assert(t.leaf_from(r, 0, cur) == range_leaf(
            t0.leaf_from(r, 0, cur),
            base as int,
            4096 * i,
            flags,
            cur,
        ));
        if page_of(vb) == cur && g == r {
            lemma_block_leaf(t0, r, cur, vb);
            lemma_block_leaf(t0, r, vb, cur);
        }
    }
}

proof fn lemma_range_start(t0: Tables, root: int, base: u64, flags: u64)
    ensures
        range_mapped(t0, t0, root, base, 0, flags),
{
    reveal(range_mapped);
}

/// The next page of a run lies in a block exactly if it did at first.
proof fn lemma_range_block(
    t0: Tables,
    a0: FrameAllocator,
    t: Tables,
    a: FrameAllocator,
    root: int,
    base: u64,
    n: int,
    i: int,
    flags: u64,
)
    requires
        run_state(t0, a0, t, a, root, base, 0x1000, n, i, 3, true),
        range_mapped(t0, t, root, base, 4096 * i, flags),
        0 <= i,
        base % 4096 == 0,
        base + 4096 * i < VA_LIMIT,
    ensures
        t.in_block(root, item(base, 0x1000, i)) == skipped(t0, root, base, 0x1000, i, true),
{
    reveal(run_state);
    reveal(range_mapped);
    let cur = item(base, 0x1000, i);
    let r = t0.frame(root);
    lemma_same_page(cur, cur);
    assert(t0.live(r));
    assert(t.leaf_from(r, 0, cur) == range_leaf(
        t0.leaf_from(r, 0, cur),
        base as int,
        4096 * i,
        flags,
        cur,
    ));
}

/// The next page of a run was mapped.
proof fn lemma_range_after(
    t0: Tables,
    a0: FrameAllocator,
    t: Tables,
    a: FrameAllocator,
    t1: Tables,
    a1: FrameAllocator,
    root: int,
    base: u64,
    n: int,
    i: int,
    flags: u64,
)
    requires
        run_state(t0, a0, t, a, root, base, 0x1000, n, i, 3, true),
        range_mapped(t0, t, root, base, 4096 * i, flags),
        0 <= i < n,
        base % 4096 == 0,
        base + 4096 * (i + 1) <= VA_LIMIT,
        page_added(
            t,
            a,
            t1,
            a1,
            root,
            item(base, 0x1000, i),
            item(base, 0x1000, i) | flags | DESC_PAGE,
        ),
    ensures
        run_state(t0, a0, t1, a1, root, base, 0x1000, n, i + 1, 3, true),
        range_mapped(t0, t1, root, base, 4096 * (i + 1), flags),
{
    let cur = item(base, 0x1000, i);
    lemma_range_block(t0, a0, t, a, root, base, n, i, flags);
    lemma_run_before(t0, a0, t, a, root, base, 0x1000, n, i, 3, true);
    if !t.in_block(root, cur) {
        lemma_reach_grown(t, t1, root, cur, 3);
    }
    lemma_run_after(t0, a0, t, a, t1, a1, root, base, 0x1000, n, i, 3, true);
    assert(t0.is_root(root) && t.base == t0.base && forall|g: int| #[trigger]
        t0.live(g) ==> t.live(g) && t.levels[g] == t0.levels[g]) by {
        reveal(run_state);
    }
    lemma_range_step(t0, t, t1, root, base, i, flags);
}

/// Identity-map the physical range `[paddr, paddr + size)` into the kernel's
/// map with `flags`; `size` is rounded up to whole pages.
#[verifier::rlimit(40)]
pub fn map_range(
    space: &mut TableSpace,
    frames: &mut FrameAllocator,
    paddr: PhysAddr,
    size: u64,
    flags: u64,
)
    requires
        old(space).wf(),
        old(space).backed(*old(frames)),
        paddr % 4096 == 0,
        paddr + size <= VA_LIMIT,
        need(
            old(space)@,
            old(space).kernel_root(),
            paddr,
            0x1000,
            (size + 4095) / 4096,
            3,
            true,
        ) <= old(frames).free_set().len(),
    ensures
        final(space).wf(),
        final(space).kernel_root() == old(space).kernel_root(),
        grown(old(space)@, *old(frames), final(space)@, *final(frames)),
        final(frames).free_set().len() + need(
            old(space)@,
            old(space).kernel_root(),
            paddr,
            0x1000,
            (size + 4095) / 4096,
            3,
            true,
        ) == old(frames).free_set().len(),
        forall|g: int, vb: u64|
            old(space)@.live(g) && old(space)@.levels[g] == 0 ==> #[trigger] final(
                space)@.leaf_from(g, 0, vb) == if g == old(space)@.frame(old(space).kernel_root()) {
                range_leaf(
                    old(space)@.leaf_from(g, 0, vb),
                    paddr as int,
                    (size + 4095) / 4096 * 4096,
                    flags,
                    vb,
                )
            } else {
                old(space)@.leaf_from(g, 0, vb)
            },
{
    let pages: u64 = (size + (PAGE_SIZE - 1)) / PAGE_SIZE;
    let ghost t0 = space@;
    let ghost a0 = *frames;
    let ghost root = space.kernel_root();
    let mut i: u64 = 0;
    proof {
        lemma_run_start(t0, a0, root, paddr, 0x1000, pages as int, 3, true);
        lemma_range_start(t0, root, paddr, flags);
    }
    while i < pages
        invariant
            i <= pages,
            pages == (size + 4095) / 4096,
            paddr % 4096 == 0,
            paddr + size <= VA_LIMIT,
            t0.is_root(root),
            space.kernel_root() == root,
            space.wf(),
            space.backed(*frames),
            run_state(t0, a0, space@, *frames, root, paddr, 0x1000, pages as int, i as int, 3, true),
            range_mapped(t0, space@, root, paddr, 4096 * i, flags),
        decreases pages - i,
    {
        let cur: u64 = paddr + i * PAGE_SIZE;
        let ghost t = space@;
        let ghost a = *frames;
        let ghost n = pages as int;
        proof {
            assert(cur == item(paddr, 0x1000, i as int));
            lemma_run_before(t0, a0, t, a, root, paddr, 0x1000, n, i as int, 3, true);
            lemma_range_block(t0, a0, t, a, root, paddr, n, i as int, flags);
        }
        map_page(space, frames, cur, cur, flags);
        proof {
            lemma_range_after(
                t0,
                a0,
                t,
                a,
                space@,
                *frames,
                root,
                paddr,
                n,
                i as int,
                flags,
            );
        }
        i = i + 1;
    }
    proof {
        lemma_run_end(t0, a0, space@, *frames, root, paddr, 0x1000, pages as int, 3, true);
        reveal(range_mapped);
    }
}

pub proof fn lemma_grown_refl(t: Tables, a: FrameAllocator)
    requires
        t.wf(),
        backed(t, a),
    ensures
        grown(t, a, t, a),
{
    assert forall|f: int| #[trigger] a.free_set().contains(f) <==> a.free_set().contains(f)
        && !t.live(f) by {}
}

proof fn lemma_progress_skip(
    t0: Tables,
    t: Tables,
    root: int,
    va: u64,
    step: int,
    i: int,
    d: int,
)
    requires
        0 <= i,
        progress(t0, t, root, va, step, i, d, true),
        skipped(t0, root, va, step, i, true),
    ensures
        progress(t0, t, root, va, step, i + 1, d, true),
{
    reveal(progress);
    assert forall|vb: u64, k: int| 1 <= k <= d implies (#[trigger] t.reach(root, vb, k) is Some
        <==> t0.reach(root, vb, k) is Some || exists|j: int|
        0 <= j < i + 1 && !skipped(t0, root, va, step, j, true) && same_prefix(
            #[trigger] item(va, step, j),
            vb,
            k,
        )) by {
        if exists|j: int|
            0 <= j < i && !skipped(t0, root, va, step, j, true) && same_prefix(
                #[trigger] item(va, step, j),
                vb,
                k,
            ) {
            let j = choose|j: int|
                0 <= j < i && !skipped(t0, root, va, step, j, true) && same_prefix(
                    #[trigger] item(va, step, j),
                    vb,
                    k,
                );
            assert(0 <= j < i + 1 && same_prefix(item(va, step, j), vb, k));
        }
        if exists|j: int|
            0 <= j < i + 1 && !skipped(t0, root, va, step, j, true) && same_prefix(
                #[trigger] item(va, step, j),
                vb,
                k,
            ) {
            let j = choose|j: int|
                0 <= j < i + 1 && !skipped(t0, root, va, step, j, true) && same_prefix(
                    #[trigger] item(va, step, j),
                    vb,
                    k,
                );
            assert(j < i);
        }
    }
}

/// Writing the level-2 entry of `va` as a block maps its 2 MiB and nothing else.
proof fn lemma_write_block(t: Tables, a: FrameAllocator, root: int, va: u64, f: int, desc: u64)
    requires
        t.wf(),
        backed(t, a),
        t.is_root(root),
        t.reach(root, va, 2) == Some(f),
        !is_table(desc),
    ensures
        t.set(f, idx(va, 2), desc).wf(),
        grown(t, a, t.set(f, idx(va, 2), desc), a),
        forall|g: int, vb: u64|
            t.live(g) && t.levels[g] == 0 ==> #[trigger] t.set(f, idx(va, 2), desc).leaf_from(
                g,
                0,
                vb,
            ) == if g == t.frame(root) && same_block(va, vb) {
                mapping(2, desc)
            } else {
                t.leaf_from(g, 0, vb)
            },
        forall|g: int, vb: u64, k: int|
            t.live(g) && t.levels[g] == 0 && 0 <= k <= 2 ==> #[trigger] t.set(
                f,
                idx(va, 2),
                desc,
            ).reach_from(g, 0, vb, k) == t.reach_from(g, 0, vb, k),
{
    let r = t.frame(root);
    let t1 = t.set(f, idx(va, 2), desc);
    t.lemma_reach_live(r, 0, va, 2);
    t.lemma_set_leaf_wf(f, idx(va, 2), desc);
    assert forall|g: int, vb: u64| t.live(g) && t.levels[g] == 0 implies #[trigger] t1.leaf_from(
        g,
        0,
        vb,
    ) == if g == r && same_block(va, vb) {
        mapping(2, desc)
    } else {
        t.leaf_from(g, 0, vb)
    } by {
        t.lemma_set_leaf(f, idx(va, 2), desc, g, 0, vb);
        t.lemma_through(r, va, 2, f, g, vb);
    }
    assert forall|g: int, vb: u64, k: int|
        t.live(g) && t.levels[g] == 0 && 0 <= k <= 2 implies #[trigger] t1.reach_from(g, 0, vb, k)
        == t.reach_from(g, 0, vb, k) by {
        t.lemma_set_reach(f, idx(va, 2), desc, g, 0, vb, k);
    }
    a.lemma_window();
    assert forall|g: int| #[trigger] t1.live(g) implies !a.free_set().contains(g) by {
        assert(t.live(g));
    }
    assert forall|g: int| 0 <= g < t.n() && !t1.live(g) implies #[trigger] t1.mem[g]
        == t.mem[g] by {
        assert(!t.live(g));
    }
    assert forall|g: int| #[trigger] a.free_set().contains(g) <==> a.free_set().contains(g)
        && !t1.live(g) by {
        assert(t1.live(g) ==> t.live(g));
    }
}

/// How the kernel maps `vb` once `len` bytes of 2 MiB blocks at `vaddr` map to
/// `paddr` with `flags`.
pub open spec fn block_range_leaf(
    before: Option<(int, u64)>,
    vaddr: int,
    paddr: int,
    len: int,
    flags: u64,
    vb: u64,
) -> Option<(int, u64)> {
    if vaddr <= block_of(vb) < vaddr + len {
        mapping(2, ((paddr + (block_of(vb) - vaddr)) as u64) | flags)
    } else {
        before
    }
}

#[verifier::opaque]
spec fn blocks_mapped(
    t0: Tables,
    t: Tables,
    root: int,
    vaddr: u64,
    paddr: u64,
    len: int,
    flags: u64,
) -> bool {
    forall|g: int, vb: u64|
        t0.live(g) && t0.levels[g] == 0 ==> #[trigger] t.leaf_from(g, 0, vb) == if g == t0.frame(
            root,
        ) {
            block_range_leaf(
                t0.leaf_from(g, 0, vb),
                vaddr as int,
                paddr as int,
                len,
                flags,
                vb,
            )
        } else {
            t0.leaf_from(g, 0, vb)
        }
}

/// One more block of a run, seen from one address.
proof fn lemma_block_run(
    before: Option<(int, u64)>,
    vaddr: u64,
    paddr: u64,
    i: int,
    flags: u64,
    vb: u64,
)
    requires
        0 <= i,
        vaddr % 0x20_0000 == 0,
        vaddr + 0x20_0000 * i < VA_LIMIT,
    ensures
        block_range_leaf(
            before,
            vaddr as int,
            paddr as int,
            0x20_0000 * (i + 1),
            flags,
            vb,
        ) == if same_block(item(vaddr, 0x20_0000, i), vb) {
            mapping(2, ((paddr + 0x20_0000 * i) as u64) | flags)
        } else {
            block_range_leaf(before, vaddr as int, paddr as int, 0x20_0000 * i, flags, vb)
        },
{
    let cur = item(vaddr, 0x20_0000, i);
    lemma_same_page(cur, vb);
    lemma_same_page(vb, cur);
}

proof fn lemma_block_step(
    t0: Tables,
    t: Tables,
    t1: Tables,
    root: int,
    vaddr: u64,
    paddr: u64,
    i: int,
    flags: u64,
)
    requires
        0 <= i,
        vaddr % 0x20_0000 == 0,
        vaddr + 0x20_0000 * i < VA_LIMIT,
        t.base == t0.base,
        blocks_mapped(t0, t, root, vaddr, paddr, 0x20_0000 * i, flags),
        forall|g: int| #[trigger] t0.live(g) ==> t.live(g) && t.levels[g] == t0.levels[g],
        forall|g: int, vb: u64|
            t.live(g) && t.levels[g] == 0 ==> #[trigger] t1.leaf_from(g, 0, vb) == if g == t.frame(
                root,
            ) && same_block(item(vaddr, 0x20_0000, i), vb) {
                mapping(2, ((paddr + 0x20_0000 * i) as u64) | flags)
            } else {
                t.leaf_from(g, 0, vb)
            },
    ensures
        blocks_mapped(t0, t1, root, vaddr, paddr, 0x20_0000 * (i + 1), flags),
{
    reveal(blocks_mapped);
    assert forall|g: int, vb: u64| t0.live(g) && t0.levels[g] == 0 implies #[trigger] t1.leaf_from(
        g,
        0,
        vb,
    ) == if g == t0.frame(root) {
        block_range_leaf(
            t0.leaf_from(g, 0, vb),
            vaddr as int,
            paddr as int,
            0x20_0000 * (i + 1),
            flags,
            vb,
        )
    } else {
        t0.leaf_from(g, 0, vb)
    } by {
        assert(t.live(g));
        lemma_block_run(t0.leaf_from(g, 0, vb), vaddr, paddr, i, flags, vb);
    }
}

/// Make the level-2 entry of `va` under `root` the block descriptor `desc`.
fn set_block(
    space: &mut TableSpace,
    frames: &mut FrameAllocator,
    root: PhysAddr,
    va: VirtAddr,
    desc: u64,
)
    requires
        old(space).wf(),
        old(space).backed(*old(frames)),
        old(space)@.is_root(root as int),
        !is_table(desc),
        missing(old(space)@, root as int, va, 2) <= old(frames).free_set().len(),
    ensures
        final(space).wf(),
        final(space).kernel_root() == old(space).kernel_root(),
        final(space)@.is_root(root as int),
        grown(old(space)@, *old(frames), final(space)@, *final(frames)),
        final(frames).free_set().len() + missing(old(space)@, root as int, va, 2) == old(
            frames).free_set().len(),
        forall|vb: u64, k: int|
            1 <= k <= 2 ==> (#[trigger] final(space)@.reach(root as int, vb, k) is Some <==> old(
                space)@.reach(root as int, vb, k) is Some || same_prefix(va, vb, k)),
        forall|g: int, vb: u64|
            old(space)@.live(g) && old(space)@.levels[g] == 0 ==> #[trigger] final(
                space)@.leaf_from(g, 0, vb) == if g == old(space)@.frame(root as int) && same_block(
                va,
                vb,
            ) {
                mapping(2, desc)
            } else {
                old(space)@.leaf_from(g, 0, vb)
            },
{
    let ghost t0 = space@;
    let ghost a0 = *frames;
    let ghost r = t0.frame(root as int);
    let l2: PhysAddr = walk_to_l2(space, frames, root, va);
    let ghost t1 = space@;
    let ghost a1 = *frames;
    proof {
        lemma_write_block(t1, a1, root as int, va, t1.frame(l2 as int), desc);
        t1.lemma_reach_live(r, 0, va, 2);
    }
    space.write(l2, l2_idx(va), desc);
    proof {
        let t2 = space@;
        lemma_grown_trans(t0, a0, t1, a1, t2, a1);
        assert(t0.live(r));
        assert(t1.live(r));
        assert(t2.live(r));
        assert forall|vb: u64, k: int| 1 <= k <= 2 implies (#[trigger] t2.reach(root as int, vb, k)
            is Some <==> t0.reach(root as int, vb, k) is Some || same_prefix(va, vb, k)) by {
            assert(t0.reach_from(r, 0, vb, k) is Some || t0.reach_from(r, 0, vb, k) is None);
            assert(t2.reach_from(r, 0, vb, k) == t1.reach_from(r, 0, vb, k));
        }
        assert forall|g: int, vb: u64| t0.live(g) && t0.levels[g] == 0 implies #[trigger] t2.leaf_from(
            g,
            0,
            vb,
        ) == if g == r && same_block(va, vb) {
            mapping(2, desc)
        } else {
            t0.leaf_from(g, 0, vb)
        } by {
            assert(t1.live(g));
            assert(t1.leaf_from(g, 0, vb) == t0.leaf_from(g, 0, vb));
        }
    }
}

/// Block `i` of a run of whole blocks lies below the end of the address space.
proof fn lemma_block_bounds(base: int, size: int, i: int)
    requires
        0 <= base,
        0 <= i < (size + 0x1F_FFFF) / 0x20_0000,
        base % 0x20_0000 == 0,
        base + size <= VA_LIMIT,
    ensures
        base + 0x20_0000 * (i + 1) <= VA_LIMIT,
        (base + 0x20_0000 * i) % 0x20_0000 == 0,
{
}

/// Map a region of the kernel's map as a series of 2 MiB blocks.
///
/// `vaddr` and `paddr` are 2 MiB-aligned, `size` is rounded up to whole
/// blocks, and `flags` leaves the table bit clear.
#[verifier::rlimit(40)]
pub fn map_block(
    space: &mut TableSpace,
    frames: &mut FrameAllocator,
    vaddr: VirtAddr,
    paddr: PhysAddr,
    size: u64,
    flags: u64,
)
    requires
        old(space).wf(),
        old(space).backed(*old(frames)),
        vaddr % 0x20_0000 == 0,
        paddr % 0x20_0000 == 0,
        vaddr + size <= VA_LIMIT,
        paddr + size <= VA_LIMIT,
        flags & DESC_TABLE == 0,
        need(
            old(space)@,
            old(space).kernel_root(),
            vaddr,
            0x20_0000,
            (size + 0x1F_FFFF) / 0x20_0000,
            2,
            false,
        ) <= old(frames).free_set().len(),
    ensures
        final(space).wf(),
        final(space).kernel_root() == old(space).kernel_root(),
        grown(old(space)@, *old(frames), final(space)@, *final(frames)),
        final(frames).free_set().len() + need(
            old(space)@,
            old(space).kernel_root(),
            vaddr,
            0x20_0000,
            (size + 0x1F_FFFF) / 0x20_0000,
            2,
            false,
        ) == old(frames).free_set().len(),
        forall|g: int, vb: u64|
            old(space)@.live(g) && old(space)@.levels[g] == 0 ==> #[trigger] final(
                space)@.leaf_from(g, 0, vb) == if g == old(space)@.frame(old(space).kernel_root()) {
                block_range_leaf(
                    old(space)@.leaf_from(g, 0, vb),
                    vaddr as int,
                    paddr as int,
                    (size + 0x1F_FFFF) / 0x20_0000 * 0x20_0000,
                    flags,
                    vb,
                )
            } else {
                old(space)@.leaf_from(g, 0, vb)
            },
{
    let root: PhysAddr = kernel_l0_phys(space);
    let blocks: u64 = (size + (BLOCK_SIZE - 1)) / BLOCK_SIZE;
    let ghost t0 = space@;
    let ghost a0 = *frames;
    let mut i: u64 = 0;
    proof {
        lemma_run_start(t0, a0, root as int, vaddr, 0x20_0000, blocks as int, 2, false);
        reveal(blocks_mapped);
    }
    while i < blocks
        invariant
            i <= blocks,
            blocks == (size + 0x1F_FFFF) / 0x20_0000,
            vaddr % 0x20_0000 == 0,
            paddr % 0x20_0000 == 0,
            vaddr + size <= VA_LIMIT,
            paddr + size <= VA_LIMIT,
            flags & DESC_TABLE == 0,
            t0.is_root(root as int),
            space.kernel_root() == root,
            space.wf(),
            space.backed(*frames),
            run_state(
                t0,
                a0,
                space@,
                *frames,
                root as int,
                vaddr,
                0x20_0000,
                blocks as int,
                i as int,
                2,
                false,
            ),
            blocks_mapped(t0, space@, root as int, vaddr, paddr, 0x20_0000 * i, flags),
        decreases blocks - i,
    {
        proof {
            lemma_block_bounds(vaddr as int, size as int, i as int);
            lemma_block_bounds(paddr as int, size as int, i as int);
        }
        let offset: u64 = i * BLOCK_SIZE;
        let cur: u64 = vaddr + offset;
        let desc: u64 = (paddr + offset) | flags;
        let ghost t = space@;
        let ghost a = *frames;
        let ghost n = blocks as int;
        let ghost r = root as int;
        proof {
            assert(cur == item(vaddr, 0x20_0000, i as int));
            lemma_run_before(t0, a0, t, a, r, vaddr, 0x20_0000, n, i as int, 2, false);
            lemma_desc((paddr + offset) as u64, (paddr + offset) as u64, flags);
            assert(desc == ((paddr + 0x20_0000 * i) as u64) | flags);
        }
        set_block(space, frames, root, cur, desc);
        proof {
            lemma_run_after(
                t0,
                a0,
                t,
                a,
                space@,
                *frames,
                r,
                vaddr,
                0x20_0000,
                n,
                i as int,
                2,
                false,
            );
            lemma_run_keeps(t0, a0, t, a, r, vaddr, 0x20_0000, n, i as int, 2, false);
            lemma_block_step(t0, t, space@, r, vaddr, paddr, i as int, flags);
        }
        i = i + 1;
    }
    proof {
        lemma_run_end(
            t0,
            a0,
            space@,
            *frames,
            root as int,
            vaddr,
            0x20_0000,
            blocks as int,
            2,
            false,
        );
        reveal(blocks_mapped);
    }
}

/// How a task's root maps `vb` once its pages `[va, va + size)` have been
/// identity-mapped with `flags`: the other pages of a split block keep the
/// block's attributes.
pub open spec fn user_range_leaf(
    before: Option<(int, u64)>,
    va: int,
    size: int,
    flags: u64,
    vb: u64,
) -> Option<(int, u64)> {
    if va <= page_of(vb) < va + size {
        mapping(3, (page_of(vb) as u64) | flags)
    } else {
        match before {
            Some((l, e)) => if l == 2 && size > 0 && block_of(vb) < va + size && va < block_of(vb)
                + 0x20_0000 {
                mapping(3, (page_of(vb) as u64) | fill_flags(e))
            } else {
                before
            },
            None => None,
        }
    }
}

#[verifier::opaque]
spec fn user_mapped(
    t0: Tables,
    t: Tables,
    root: int,
    va: u64,
    size: int,
    flags: u64,
) -> bool {
    forall|g: int, vb: u64|
        t0.live(g) && t0.levels[g] == 0 ==> #[trigger] t.leaf_from(g, 0, vb) == if g == t0.frame(
            root,
        ) {
            user_range_leaf(t0.leaf_from(g, 0, vb), va as int, size, flags, vb)
        } else {
            t0.leaf_from(g, 0, vb)
        }
}

/// One more page of a run, told by which runs hold the page and meet the block.
proof fn lemma_user_cases(
    before: Option<(int, u64)>,
    va: u64,
    i: int,
    cur: u64,
    flags: u64,
    vb: u64,
)
    requires
        0 <= i,
        cur == va + 4096 * i,
        same_page(cur, vb) <==> page_of(vb) == cur,
        same_block(cur, vb) <==> block_of(vb) <= cur < block_of(vb) + 0x20_0000,
        va <= page_of(vb) < va + 4096 * (i + 1) <==> va <= page_of(vb) < va + 4096 * i || page_of(
            vb,
        ) == va + 4096 * i,
        block_of(vb) < va + 4096 * (i + 1) && va < block_of(vb) + 0x20_0000 <==> (i > 0 && block_of(
            vb,
        ) < va + 4096 * i && va < block_of(vb) + 0x20_0000) || block_of(vb) <= va + 4096 * i
            < block_of(vb) + 0x20_0000,
    ensures
        page_set_leaf(
            user_range_leaf(before, va as int, 4096 * i, flags, vb),
            cur,
            vb,
            cur | flags,
        ) == user_range_leaf(before, va as int, 4096 * (i + 1), flags, vb),
{
}

/// One more page of a run, seen from one address.
proof fn lemma_user_leaf(before: Option<(int, u64)>, va: u64, i: int, flags: u64, vb: u64)
    requires
        0 <= i,
        va % 4096 == 0,
        va + 4096 * i < VA_LIMIT,
    ensures
        page_set_leaf(
            user_range_leaf(before, va as int, 4096 * i, flags, vb),
            item(va, 0x1000, i),
            vb,
            item(va, 0x1000, i) | flags,
        ) == user_range_leaf(before, va as int, 4096 * (i + 1), flags, vb),
{
    let cur = item(va, 0x1000, i);
    let (p, b) = (page_of(vb), block_of(vb));
    assert(same_page(cur, vb) <==> p == cur) by {
        lemma_same_page(cur, vb);
    }
    assert(same_block(cur, vb) <==> b <= cur < b + 0x20_0000) by {
        lemma_same_page(cur, vb);
        lemma_same_page(vb, cur);
    }
    assert(p % 4096 == 0 && b % 0x20_0000 == 0) by {
        lemma_same_page(vb, cur);
    }
    lemma_run(va as int, i, p, b);
    lemma_user_cases(before, va, i, cur, flags, vb);
}

proof fn lemma_user_step(
    t0: Tables,
    t: Tables,
    t1: Tables,
    root: int,
    va: u64,
    i: int,
    flags: u64,
)
    requires
        0 <= i,
        va % 4096 == 0,
        va + 4096 * i < VA_LIMIT,
        t.base == t0.base,
        user_mapped(t0, t, root, va, 4096 * i, flags),
        forall|g: int| #[trigger] t0.live(g) ==> t.live(g) && t.levels[g] == t0.levels[g],
        forall|g: int, vb: u64|
            t.live(g) && t.levels[g] == 0 ==> #[trigger] t1.leaf_from(g, 0, vb) == if g == t.frame(
                root,
            ) {
                page_set_leaf(
                    t.leaf_from(g, 0, vb),
                    item(va, 0x1000, i),
                    vb,
                    item(va, 0x1000, i) | flags,
                )
            } else {
                t.leaf_from(g, 0, vb)
            },
    ensures
        user_mapped(t0, t1, root, va, 4096 * (i + 1), flags),
{
    reveal(user_mapped);
    assert forall|g: int, vb: u64| t0.live(g) && t0.levels[g] == 0 implies #[trigger] t1.leaf_from(
        g,
        0,
        vb,
    ) == if g == t0.frame(root) {
        user_range_leaf(t0.leaf_from(g, 0, vb), va as int, 4096 * (i + 1), flags, vb)
    } else {
        t0.leaf_from(g, 0, vb)
    } by {
        assert(t.live(g));
        lemma_user_leaf(t0.leaf_from(g, 0, vb), va, i, flags, vb);
    }
}

/// Identity-map the 4 KiB pages `[va, va + size)` under `root` with `flags`,
/// splitting any covering 2 MiB block; the rest of the block keeps its
/// attributes.
#[verifier::rlimit(40)]
pub fn map_user_pages(
    space: &mut TableSpace,
    frames: &mut FrameAllocator,
    root: PhysAddr,
    va: VirtAddr,
    size: u64,
    flags: u64,
)
    requires
        old(space).wf(),
        old(space).backed(*old(frames)),
        old(space)@.is_root(root as int),
        va % 4096 == 0,
        size % 4096 == 0,
        va + size <= VA_LIMIT,
        need(old(space)@, root as int, va, 0x1000, size as int / 4096, 3, false) <= old(
            frames).free_set().len(),
    ensures
        final(space).wf(),
        final(space).kernel_root() == old(space).kernel_root(),
        final(space)@.is_root(root as int),
        grown(old(space)@, *old(frames), final(space)@, *final(frames)),
        final(frames).free_set().len() + need(
            old(space)@,
            root as int,
            va,
            0x1000,
            size as int / 4096,
            3,
            false,
        ) == old(frames).free_set().len(),
        forall|g: int, vb: u64|
            old(space)@.live(g) && old(space)@.levels[g] == 0 ==> #[trigger] final(
                space)@.leaf_from(g, 0, vb) == if g == old(space)@.frame(root as int) {
                user_range_leaf(
                    old(space)@.leaf_from(g, 0, vb),
                    va as int,
                    size as int,
                    flags,
                    vb,
                )
            } else {
                old(space)@.leaf_from(g, 0, vb)
            },
{
    let pages: u64 = size / PAGE_SIZE;
    let ghost t0 = space@;
    let ghost a0 = *frames;
    let mut i: u64 = 0;
    proof {
        lemma_run_start(t0, a0, root as int, va, 0x1000, pages as int, 3, false);
        reveal(user_mapped);
    }
    while i < pages
        invariant
            i <= pages,
            pages == size / 4096,
            size % 4096 == 0,
            va % 4096 == 0,
            va + size <= VA_LIMIT,
            t0.is_root(root as int),
            space.kernel_root() == old(space).kernel_root(),
            space.wf(),
            space.backed(*frames),
            run_state(
                t0,
                a0,
                space@,
                *frames,
                root as int,
                va,
                0x1000,
                pages as int,
                i as int,
                3,
                false,
            ),
            user_mapped(t0, space@, root as int, va, 4096 * i, flags),
        decreases pages - i,
    {
        let cur: u64 = va + i * PAGE_SIZE;
        let ghost t = space@;
        let ghost a = *frames;
        let ghost n = pages as int;
        let ghost r = root as int;
        proof {
            assert(cur == item(va, 0x1000, i as int));
            lemma_run_before(t0, a0, t, a, r, va, 0x1000, n, i as int, 3, false);
        }
        set_user_page(space, frames, root, cur, cur | flags);
        proof {
            lemma_reach_grown(t, space@, r, cur, 3);
            lemma_run_after(
                t0,
                a0,
                t,
                a,
                space@,
                *frames,
                r,
                va,
                0x1000,
                n,
                i as int,
                3,
                false,
            );
            lemma_run_keeps(t0, a0, t, a, r, va, 0x1000, n, i as int, 3, false);
            lemma_user_step(t0, t, space@, r, va, i as int, flags);
        }
        i = i + 1;
    }
    proof {
        lemma_run_end(t0, a0, space@, *frames, root as int, va, 0x1000, pages as int, 3, false);
        reveal(user_mapped);
    }
}

/// Map the page of `va` under `root` to the frame at `frame` with `flags`,
/// splitting a covering 2 MiB block.
pub fn map_user_frame(
    space: &mut TableSpace,
    frames: &mut FrameAllocator,
    root: PhysAddr,
    va: VirtAddr,
    frame: PhysAddr,
    flags: u64,
)
    requires
        old(space).wf(),
        old(space).backed(*old(frames)),
        old(space)@.is_root(root as int),
        va < VA_LIMIT,
        missing(old(space)@, root as int, va, 3) <= old(frames).free_set().len(),
    ensures
        final(space).wf(),
        final(space).kernel_root() == old(space).kernel_root(),
        final(space)@.is_root(root as int),
        grown(old(space)@, *old(frames), final(space)@, *final(frames)),
        final(frames).free_set().len() + missing(old(space)@, root as int, va, 3) == old(
            frames).free_set().len(),
        forall|g: int, vb: u64|
            old(space)@.live(g) && old(space)@.levels[g] == 0 ==> #[trigger] final(
                space)@.leaf_from(g, 0, vb) == if g == old(space)@.frame(root as int) {
                page_set_leaf(old(space)@.leaf_from(g, 0, vb), va, vb, frame | flags)
            } else {
                old(space)@.leaf_from(g, 0, vb)
            },
{
    set_user_page(space, frames, root, va, frame | flags);
}

/// The level-`d` table on the path of `va` under `root`, if the path gets there.
fn find_table(space: &TableSpace, root: PhysAddr, va: VirtAddr, d: usize) -> (r: Option<PhysAddr>)
    requires
        space.wf(),
        space@.is_root(root as int),
        d <= 3,
    ensures
        match r {
            Some(a) => space@.has_frame(a as int) && space@.reach(root as int, va, d as int)
                == Some(space@.frame(a as int)),
            None => space@.reach(root as int, va, d as int) is None,
        },
{
    let mut table: PhysAddr = root;
    let mut l: usize = 0;
    let ghost t = space@;
    let ghost r = t.frame(root as int);
    while l < d
        invariant
            l <= d <= 3,
            t == space@,
            space.wf(),
            t.is_root(root as int),
            r == t.frame(root as int),
            t.has_frame(table as int),
            t.reach(root as int, va, l as int) == Some(t.frame(table as int)),
        decreases d - l,
    {
        proof {
            t.lemma_reach_live(r, 0, va, l as int);
            assert(0 <= idx(va, l as int) < 512);
        }
        let i: usize = if l == 0 {
            crate::mem::page_table::l0_idx(va)
        } else if l == 1 {
            crate::mem::page_table::l1_idx(va)
        } else {
            l2_idx(va)
        };
        let e: u64 = space.read(table, i);
        if e & DESC_VALID != 0 && e & DESC_TABLE != 0 {
            assert(t.link(t.frame(table as int), i as int));
            assert(t.live(t.target(e)));
            table = e & ADDR_MASK;
            l = l + 1;
        } else {
            proof {
                assert(t.reach_from(r, 0, va, l + 1) is None);
                t.lemma_reach_none(r, va, l + 1, d as int);
            }
            return None;
        }
    }
    Some(table)
}

/// Replace the flags of the 2 MiB block of `va` under `root`, which keeps its
/// output address.
pub fn set_user_block(space: &mut TableSpace, root: PhysAddr, va: VirtAddr, flags: u64)
    requires
        old(space).wf(),
        old(space)@.is_root(root as int),
        va % 0x20_0000 == 0,
        old(space)@.in_block(root as int, va),
        flags & DESC_TABLE == 0,
    ensures
        final(space).wf(),
        final(space).kernel_root() == old(space).kernel_root(),
        final(space)@.levels == old(space)@.levels,
        final(space)@.base == old(space)@.base,
        final(space)@.n() == old(space)@.n(),
        final(space)@.is_root(root as int),
        forall|f: int|
            0 <= f < old(space)@.n() && !old(space)@.live(f) ==> #[trigger] final(space)@.mem[f]
                == old(space)@.mem[f],
        ({
            let t0 = old(space)@;
            &&& t0.leaf(root as int, va) matches Some((l, e)) && forall|g: int, vb: u64|
                t0.live(g) && t0.levels[g] == 0 ==> #[trigger] final(space)@.leaf_from(g, 0, vb)
                    == if g == t0.frame(root as int) && same_block(va, vb) {
                    mapping(2, (e & ADDR_MASK) | flags)
                } else {
                    t0.leaf_from(g, 0, vb)
                }
        }),
{
    let ghost t0 = space@;
    let ghost r = t0.frame(root as int);
    match find_table(space, root, va, 2) {
        Some(l2) => {
            let e: u64 = space.read(l2, l2_idx(va));
            let ghost f = t0.frame(l2 as int);
            let desc: u64 = (e & ADDR_MASK) | flags;
            proof {
                lemma_desc(0, e, flags);
                t0.lemma_reach_live(r, 0, va, 2);
                t0.lemma_set_leaf_wf(f, idx(va, 2), desc);
            }
            space.write(l2, l2_idx(va), desc);
            proof {
                assert forall|g: int, vb: u64|
                    t0.live(g) && t0.levels[g] == 0 implies #[trigger] space@.leaf_from(g, 0, vb)
                    == if g == r && same_block(va, vb) {
                    mapping(2, desc)
                } else {
                    t0.leaf_from(g, 0, vb)
                } by {
                    t0.lemma_set_leaf(f, idx(va, 2), desc, g, 0, vb);
                    t0.lemma_through(r, va, 2, f, g, vb);
                }
            }
        },
        None => {},
    }
}

/// The level-3 descriptor of the page of `va` under `root`, or 0 where the walk
/// does not get to level 3.
pub fn read_user_page(space: &TableSpace, root: PhysAddr, va: VirtAddr) -> (e: u64)
    requires
        space.wf(),
        space@.is_root(root as int),
    ensures
        match space@.reach(root as int, va, 3) {
            Some(f) => e == space@.entry(f, idx(va, 3)),
            None => e == 0,
        },
        valid(e) <==> (space@.leaf(root as int, va) matches Some((l, d)) && l == 3 && d == e),
{
    proof {
        lemma_desc(0, 0, 0);
    }
    match find_table(space, root, va, 3) {
        Some(l3) => space.read(l3, l3_idx(va)),
        None => 0,
    }
}

/// `va` and `vb` share the table indices above level `k`.
fn shares_prefix(va: VirtAddr, vb: VirtAddr, k: usize) -> (r: bool)
    requires
        1 <= k <= 3,
    ensures
        r == same_prefix(va, vb, k as int),
{
    let r: bool = l0_idx(va) == l0_idx(vb) && (k < 2 || l1_idx(va) == l1_idx(vb)) && (k < 3
        || l2_idx(va) == l2_idx(vb));
    proof {
        if r {
            assert forall|j: int| 0 <= j < k implies #[trigger] idx(va, j) == idx(vb, j) by {
                if j == 0 {
                } else if j == 1 {
                } else {
                    assert(j == 2);
                }
            }
        } else {
            if same_prefix(va, vb, k as int) {
                assert(idx(va, 0) == idx(vb, 0));
                assert(k >= 2 ==> idx(va, 1) == idx(vb, 1));
                assert(k >= 3 ==> idx(va, 2) == idx(vb, 2));
            }
        }
    }
    r
}

/// True if a 2 MiB block maps `va` under `root`.
fn is_in_block(space: &TableSpace, root: PhysAddr, va: VirtAddr) -> (r: bool)
    requires
        space.wf(),
        space@.is_root(root as int),
    ensures
        r == space@.in_block(root as int, va),
{
    if find_table(space, root, va, 3).is_some() {
        return false;
    }
    match find_table(space, root, va, 2) {
        Some(l2) => space.read(l2, l2_idx(va)) & DESC_VALID != 0,
        None => false,
    }
}

/// Number of tables down to level `d` that mapping `n` items of `step` bytes at `va` under
/// `root` takes; with `skip`, items in 2 MiB blocks are left alone.
pub fn tables_needed(
    space: &TableSpace,
    root: PhysAddr,
    va: VirtAddr,
    step: u64,
    n: u64,
    d: usize,
    skip: bool,
) -> (r: u64)
    requires
        space.wf(),
        space@.is_root(root as int),
        step == 0x1000 || step == 0x20_0000,
        2 <= d <= 3,
        va + step * n <= VA_LIMIT,
    ensures
        r == need(space@, root as int, va, step as int, n as int, d as int, skip),
{
    let mut r: u64 = 0;
    let mut i: u64 = 0;
    while i < n
        invariant
            space.wf(),
            space@.is_root(root as int),
            step == 0x1000 || step == 0x20_0000,
            2 <= d <= 3,
            va + step * n <= VA_LIMIT,
            i <= n,
            r <= 3 * i,
            r == need(space@, root as int, va, step as int, i as int, d as int, skip),
        decreases n - i,
    {
        assert(step * (i + 1) <= step * n) by (nonlinear_arith)
            requires
                i < n,
        ;
        assert(step * i + step == step * (i + 1)) by (nonlinear_arith);
        let cur: u64 = va + step * i;
        assert(cur == item(va, step as int, i as int));
        if !(skip && is_in_block(space, root, cur)) {
            r = r + new_tables_at(space, root, va, step, i, d);
        }
        i = i + 1;
    }
    r
}

fn new_tables_at(
    space: &TableSpace,
    root: PhysAddr,
    va: VirtAddr,
    step: u64,
    i: u64,
    d: usize,
) -> (n: u64)
    requires
        space.wf(),
        space@.is_root(root as int),
        step == 0x1000 || step == 0x20_0000,
        2 <= d <= 3,
        va + step * i < VA_LIMIT,
    ensures
        n == new_tables(space@, root as int, va, step as int, i as int, d as int),
        n <= 3,
{
    let cur: u64 = va + step * i;
    let before: u64 = if i == 0 {
        cur
    } else {
        assert(step * i == step * (i - 1) + step) by (nonlinear_arith);
        cur - step
    };
    assert(cur == item(va, step as int, i as int));
    assert(i > 0 ==> before == item(va, step as int, i - 1)) by (nonlinear_arith)
        requires
            i > 0 ==> before == va + step * i - step,
            0 <= va + step * i < VA_LIMIT,
            i > 0 ==> 0 <= va + step * i - step < VA_LIMIT,
    ;
    let mut n: u64 = 0;
    let mut k: usize = 1;
    while k <= d
        invariant
            space.wf(),
            space@.is_root(root as int),
            2 <= d <= 3,
            1 <= k <= d + 1,
            n < k,
            cur == item(va, step as int, i as int),
            i > 0 ==> before == item(va, step as int, i - 1),
            n == (if k > 1 && first_use(space@, root as int, va, step as int, i as int, 1) {
                1int
            } else {
                0
            }) + (if k > 2 && first_use(space@, root as int, va, step as int, i as int, 2) {
                1int
            } else {
                0
            }) + (if k > 3 && first_use(space@, root as int, va, step as int, i as int, 3) {
                1int
            } else {
                0
            }),
        decreases d + 1 - k,
    {
        if find_table(space, root, cur, k).is_none() && (i == 0 || !shares_prefix(before, cur, k)) {
            n = n + 1;
        }
        k = k + 1;
    }
    n
}

/// Replace the level-3 descriptor of the page of `va` under `root`.
pub fn write_user_page(space: &mut TableSpace, root: PhysAddr, va: VirtAddr, entry: u64)
    requires
        old(space).wf(),
        old(space)@.is_root(root as int),
        old(space)@.reach(root as int, va, 3) is Some,
    ensures
        final(space).wf(),
        final(space).kernel_root() == old(space).kernel_root(),
        final(space)@.levels == old(space)@.levels,
        final(space)@.base == old(space)@.base,
        final(space)@.n() == old(space)@.n(),
        final(space)@.is_root(root as int),
        forall|f: int|
            0 <= f < old(space)@.n() && !old(space)@.live(f) ==> #[trigger] final(space)@.mem[f]
                == old(space)@.mem[f],
        forall|g: int, vb: u64|
            old(space)@.live(g) && old(space)@.levels[g] == 0 ==> #[trigger] final(
                space)@.leaf_from(g, 0, vb) == if g == old(space)@.frame(root as int) && same_page(
                va,
                vb,
            ) {
                mapping(3, entry)
            } else {
                old(space)@.leaf_from(g, 0, vb)
            },
{
    let ghost t0 = space@;
    let ghost r = t0.frame(root as int);
    match find_table(space, root, va, 3) {
        Some(l3) => {
            let ghost f = t0.frame(l3 as int);
            proof {
                t0.lemma_reach_live(r, 0, va, 3);
                t0.lemma_set_leaf_wf(f, idx(va, 3), entry);
            }
            space.write(l3, l3_idx(va), entry);
            proof {
                assert forall|g: int, vb: u64|
                    t0.live(g) && t0.levels[g] == 0 implies #[trigger] space@.leaf_from(g, 0, vb)
                    == if g == r && same_page(va, vb) {
                    mapping(3, entry)
                } else {
                    t0.leaf_from(g, 0, vb)
                } by {
                    t0.lemma_set_leaf(f, idx(va, 3), entry, g, 0, vb);
                    t0.lemma_through(r, va, 3, f, g, vb);
                }
            }
        },
        None => {},
    }
}

/// The pages that a block is split into lie where they lay in the block, and keep its access
/// rights, memory type and execute-never bits.
pub proof fn law_split_keeps_attributes(base: u64, i: u64, e: u64)
    requires
        base % BLOCK_SIZE == 0,
        base < VA_LIMIT,
        i < 512,
    ensures
        ({
            let page = split_words(base as int, e)[i as int];
            &&& page & ADDR_MASK == base + 4096 * i
            &&& page & SPLIT_MASK == (e & SPLIT_MASK) | DESC_PAGE
        }),
{
    let p = (base + i * 4096) as u64;
    assert(((p | ((e & SPLIT_MASK) | DESC_PAGE)) & ADDR_MASK == p) && ((p | ((e & SPLIT_MASK)
        | DESC_PAGE)) & SPLIT_MASK == (e & SPLIT_MASK) | DESC_PAGE)) by (bit_vector)
        requires
            p % 4096 == 0,
            p < 0x1_0000_0000_0000,
    ;
}

} // verus!
