//! What page faults of user tasks are answered with, told by status codes, regions and
//! descriptor bits.

use vstd::prelude::*;
use crate::mem::frame::FrameAllocator;
use crate::mem::mapping::{block_range_leaf, page_set_leaf, range_leaf, user_range_leaf};
use crate::mem::page_table::{
    block_of, lemma_same_page, page_of, FLAGS_BLOCK_DEVICE, FLAGS_BLOCK_NORMAL, FLAGS_DEVICE,
    FLAGS_KERNEL_RO, FLAGS_KERNEL_RWX, FLAGS_USER_DEVICE, FLAGS_USER_RWX,
};
use crate::mem::tables::{mapping, same_page, Tables};
use crate::mem::vm_fault::{
    covering, covers, fault_action, frame_copied, page_changed, page_entry, region_ok, resolvable,
    resolved, FLAGS_USER_COW,
};
use crate::sched::task::{Region, RegionKind};

verus! {

/// The descriptor bits of every kind of page: 1 valid, 2 page, 4 device memory, 0x40 open to
/// EL0, 0x80 read-only, 0x300 shareable, 0x400 accessed, bits 53 and 54 not executable, bit 55
/// copy-on-write.
pub proof fn law_descriptor_bits()
    by (bit_vector)
    ensures
        FLAGS_KERNEL_RWX == 0x703u64,
        FLAGS_KERNEL_RO == 0x60_0000_0000_0783u64,
        FLAGS_DEVICE == 0x60_0000_0000_0407u64,
        FLAGS_BLOCK_NORMAL == 0x701u64,
        FLAGS_BLOCK_DEVICE == 0x60_0000_0000_0405u64,
        FLAGS_USER_RWX == 0x743u64,
        FLAGS_USER_DEVICE == 0x60_0000_0000_0447u64,
        FLAGS_USER_COW == 0x80_0000_0000_07C3u64,
{
}

proof fn lemma_with_flags(x: u64)
    by (bit_vector)
    ensures
        (x | 0x743) & 1 != 0,
        (x | 0x80_0000_0000_07C3) & 1 != 0,
        x & 1 != 0 ==> (x | 0x400) & 1 != 0,
        0u64 & 1 == 0,
{
}

/// First address of the page that holds `far`.
pub open spec fn start_of_page(far: u64) -> int {
    far as int / 4096 * 4096
}

/// The page that holds `far` lies in the region.
pub open spec fn inside(r: Option<Region>, far: u64) -> bool {
    r matches Some(x) && x.base <= start_of_page(far) && start_of_page(far) < x.base + 4096
        * x.pages
}

/// Both lead to the first region that holds the page.
proof fn lemma_first_region(rs: Seq<Option<Region>>, far: u64, i: int, k: int)
    requires
        0 <= i <= k <= rs.len(),
        k < rs.len() ==> inside(rs[k], far),
        forall|j: int| i <= j < k ==> !#[trigger] inside(rs[j], far),
    ensures
        covering(rs, (far - far % 4096) as u64, i) == k,
    decreases k - i,
{
    let page = (far - far % 4096) as u64;
    assert(page == start_of_page(far));
    if i < rs.len() {
        assert(covers(rs[i], page) == inside(rs[i], far));
        if i < k {
            assert(!inside(rs[i], far));
            lemma_first_region(rs, far, i + 1, k);
        }
    }
}

/// A translation fault, of whichever of the four levels, is repaired in the page that the first
/// region around it tells of: a page of a stack maps to itself, open to the task; a page of a
/// demand region maps to the shared zero page, read-only until it is copied.  Every other page
/// that was mapped as a page or not at all stays so, and no other task's tables change what
/// they map.
#[verifier::rlimit(50)]
pub proof fn law_translation_fault_is_repaired(
    t: Tables,
    a: FrameAllocator,
    root: u64,
    rs: Seq<Option<Region>>,
    k: int,
    zero_page: u64,
    far: u64,
    esr: u64,
    u: Tables,
    b: FrameAllocator,
    r: bool,
)
    requires
        root != 0,
        t.is_root(root as int),
        esr % 64 == 0x04 || esr % 64 == 0x05 || esr % 64 == 0x06 || esr % 64 == 0x07,
        far < 0x1_0000_0000_0000,
        0 <= k < rs.len(),
        inside(rs[k], far),
        forall|j: int| 0 <= j < k ==> !#[trigger] inside(rs[j], far),
        resolved(t, a, root, zero_page, far, fault_action(t, root, rs, far, esr), u, b, r),
    ensures
        r,
        u.leaf(root as int, start_of_page(far) as u64) == Some(
            (
                3int,
                if rs[k]->0.kind == RegionKind::Stack {
                    start_of_page(far) as u64 | 0x743u64
                } else {
                    zero_page | 0x80_0000_0000_07C3u64
                },
            ),
        ),
        forall|vb: u64|
            vb < 0x1_0000_0000_0000 && start_of_page(vb) != start_of_page(far) && !(t.leaf(
                root as int,
                vb,
            ) matches Some((l, e)) && l == 2) ==> #[trigger] u.leaf(root as int, vb) == t.leaf(
                root as int,
                vb,
            ),
        forall|g: int, vb: u64|
            t.live(g) && t.levels[g] == 0 && g != t.frame(root as int)
                ==> #[trigger] u.leaf_from(g, 0, vb) == t.leaf_from(g, 0, vb),
{
    let page = (far - far % 4096) as u64;
    lemma_first_region(rs, far, 0, k);
    law_descriptor_bits();
    lemma_with_flags(page);
    lemma_with_flags(zero_page);
    assert(u.frame(root as int) == t.frame(root as int));
    assert(same_page(page, page));
    let g = t.frame(root as int);
    assert forall|vb: u64|
        vb < 0x1_0000_0000_0000 && start_of_page(vb) != start_of_page(far) && !(t.leaf(
            root as int,
            vb,
        ) matches Some((l, e)) && l == 2) implies #[trigger] u.leaf(root as int, vb) == t.leaf(
        root as int,
        vb,
    ) by {
        lemma_same_page(page, vb);
        lemma_same_page(vb, page);
        lemma_pages(vb);
        assert(!same_page(page, vb));
        assert(u.leaf_from(g, 0, vb) == t.leaf_from(g, 0, vb));
    }
}

proof fn lemma_pages(va: u64)
    requires
        va < 0x1_0000_0000_0000,
    ensures
        page_of(va) == start_of_page(va),
{
    reveal(page_of);
}

/// A translation fault outside of every region is not repaired, and changes nothing.
pub proof fn law_stray_translation_fault_is_declined(
    t: Tables,
    a: FrameAllocator,
    root: u64,
    rs: Seq<Option<Region>>,
    zero_page: u64,
    far: u64,
    esr: u64,
    u: Tables,
    b: FrameAllocator,
    r: bool,
)
    requires
        0x04 <= esr % 64 <= 0x07,
        forall|j: int| 0 <= j < rs.len() ==> !#[trigger] inside(rs[j], far),
        resolved(t, a, root, zero_page, far, fault_action(t, root, rs, far, esr), u, b, r),
    ensures
        !r,
        u == t,
        b == a,
{
    lemma_first_region(rs, far, 0, rs.len() as int);
}

/// A permission or access-flag fault, of whichever level, on a page that is marked
/// copy-on-write gives the task a frame of its own: one that was free and no longer is, with
/// the contents of the shared one, writable.  Without a free frame the fault is not repaired.
#[verifier::rlimit(50)]
pub proof fn law_copy_on_write_fault_splits(
    t: Tables,
    a: FrameAllocator,
    root: u64,
    rs: Seq<Option<Region>>,
    zero_page: u64,
    far: u64,
    esr: u64,
    e: u64,
    u: Tables,
    b: FrameAllocator,
    r: bool,
)
    requires
        root != 0,
        t.is_root(root as int),
        t.leaf(root as int, start_of_page(far) as u64) == Some((3int, e)),
        e & 0x80_0000_0000_0000 != 0,
        0x0C <= esr % 64 <= 0x0F || 0x14 <= esr % 64 <= 0x17,
        a.start() == t.base,
        resolved(t, a, root, zero_page, far, fault_action(t, root, rs, far, esr), u, b, r),
    ensures
        r <==> exists|f: int| #[trigger] a.free_set().contains(f),
        !r ==> u == t && b.free_set() == a.free_set(),
        r ==> exists|f: int|
            {
                &&& #[trigger] a.free_set().contains(f)
                &&& b.free_set() == a.free_set().remove(f)
                &&& u.leaf(root as int, start_of_page(far) as u64) == Some(
                    (3int, ((t.base + 4096 * f) as u64) | 0x743u64),
                )
                &&& u.mem[f] == t.mem[((e & 0x0000_FFFF_FFFF_F000) - t.base) / 4096]
            },
        forall|vb: u64|
            vb < 0x1_0000_0000_0000 && far < 0x1_0000_0000_0000 && start_of_page(vb)
                != start_of_page(far) ==> r ==> #[trigger] u.leaf(root as int, vb) == t.leaf(
                root as int,
                vb,
            ),
{
    let page = (far - far % 4096) as u64;
    assert(page == start_of_page(far));
    lemma_with_flags(0);
    law_descriptor_bits();
    assert(page_entry(t, root as int, page) == e);
    if a.free_set() != Set::<int>::empty() {
        assert(exists|f: int| #[trigger] a.free_set().contains(f)) by {
            if forall|f: int| !#[trigger] a.free_set().contains(f) {
                assert(a.free_set() =~= Set::<int>::empty());
            }
        }
        let fresh = choose|fresh: u64|
            {
                &&& r
                &&& #[trigger] a.alloc_post(b, Some(fresh))
                &&& frame_copied(
                    t,
                    u,
                    t.frame((e & crate::mem::tables::ADDR_MASK) as int),
                    t.frame(fresh as int),
                )
                &&& page_changed(t, u, root as int, page, fresh | FLAGS_USER_RWX)
            };
        let f = a.frame_of(fresh as int);
        assert(a.free_set().contains(f));
        assert(t.base + 4096 * f == fresh);
        assert(same_page(page, page));
        lemma_with_flags(fresh);
        assert(u.frame(root as int) == t.frame(root as int));
        assert forall|vb: u64|
            vb < 0x1_0000_0000_0000 && far < 0x1_0000_0000_0000 && start_of_page(vb)
                != start_of_page(far) && r implies #[trigger] u.leaf(root as int, vb) == t.leaf(
            root as int,
            vb,
        ) by {
            lemma_same_page(page, vb);
            lemma_same_page(vb, page);
            lemma_pages(vb);
            assert(!same_page(page, vb));
        }
    }
}

/// An access-flag fault, of whichever level, on a plain page sets the flag in its descriptor
/// and nothing else; where the flag is set already, the fault is not repaired.
pub proof fn law_access_flag_fault_sets_flag(
    t: Tables,
    a: FrameAllocator,
    root: u64,
    rs: Seq<Option<Region>>,
    zero_page: u64,
    far: u64,
    esr: u64,
    e: u64,
    u: Tables,
    b: FrameAllocator,
    r: bool,
)
    requires
        root != 0,
        t.is_root(root as int),
        t.leaf(root as int, start_of_page(far) as u64) == Some((3int, e)),
        e & 0x80_0000_0000_0000 == 0,
        0x0C <= esr % 64 <= 0x0F,
        resolved(t, a, root, zero_page, far, fault_action(t, root, rs, far, esr), u, b, r),
    ensures
        r <==> e & 0x400 == 0,
        b == a,
        u.leaf(root as int, start_of_page(far) as u64) == Some((3int, e | 0x400)) || !r,
        !r ==> u == t,
        r ==> forall|f: int| 0 <= f < t.n() && !t.live(f) ==> #[trigger] u.mem[f] == t.mem[f],
{
    let page = (far - far % 4096) as u64;
    assert(page == start_of_page(far));
    lemma_with_flags(e);
    assert(page_entry(t, root as int, page) == e);
    if r {
        assert(same_page(page, page));
        assert(u.frame(root as int) == t.frame(root as int));
    }
}

/// Every other fault is not repaired, and changes nothing: a permission fault on a plain page,
/// a permission or access-flag fault where no page is mapped, any status outside of the three
/// classes, and whatever happens in a task without tables of its own.
pub proof fn law_other_faults_are_declined(
    t: Tables,
    a: FrameAllocator,
    root: u64,
    rs: Seq<Option<Region>>,
    zero_page: u64,
    far: u64,
    esr: u64,
    u: Tables,
    b: FrameAllocator,
    r: bool,
)
    requires
        ({
            let d = esr % 64;
            let leaf = t.leaf(root as int, start_of_page(far) as u64);
            ||| root == 0
            ||| d < 0x04
            ||| 0x08 <= d <= 0x0B
            ||| 0x10 <= d <= 0x13
            ||| d >= 0x18
            ||| 0x14 <= d <= 0x17 && (leaf matches Some((l, e)) ==> l == 3 && e
                & 0x80_0000_0000_0000 == 0)
            ||| 0x0C <= d <= 0x0F && !(leaf matches Some((l, e)) && l == 3)
        }),
        resolved(t, a, root, zero_page, far, fault_action(t, root, rs, far, esr), u, b, r),
    ensures
        !r,
        u == t,
        b == a,
{
    let page = (far - far % 4096) as u64;
    assert(page == start_of_page(far));
    lemma_with_flags(0);
}

/// First address of the 2 MiB block that holds `va`.
pub open spec fn start_of_block(va: u64) -> int {
    va as int / 0x20_0000 * 0x20_0000
}

pub(crate) proof fn lemma_blocks(va: u64)
    requires
        va < 0x1_0000_0000_0000,
    ensures
        block_of(va) == start_of_block(va),
        page_of(va) == start_of_page(va),
        start_of_block(va) <= start_of_page(va) <= va,
        va < start_of_page(va) + 4096,
{
    reveal(block_of);
    reveal(page_of);
}

proof fn lemma_fill(p: u64, e: u64)
    by (bit_vector)
    ensures
        e & 1 != 0 ==> (p | ((e & 0x60_0000_0000_0FFF) | 2)) & 1 != 0,
{
}

/// Opening pages to a task: each of them maps to itself with the given flags.  A page outside
/// stays as it was, but where it lies in a 2 MiB block with one of them: the block is split
/// then, and the page maps to its old place with the block's attributes.
pub proof fn law_opened_pages(before: Option<(int, u64)>, va: u64, size: u64, flags: u64, vb: u64)
    requires
        va % 4096 == 0,
        size % 4096 == 0,
        va + size <= 0x1_0000_0000_0000,
        vb < 0x1_0000_0000_0000,
        flags & 1 != 0,
        before matches Some((l, e)) ==> e & 1 != 0,
    ensures
        ({
            let after = user_range_leaf(before, va as int, size as int, flags, vb);
            let page = start_of_page(vb) as u64;
            let block = start_of_block(vb);
            let inside = va <= vb < va + size;
            let meets = size > 0 && block < va + size && va < block + 0x20_0000;
            &&& inside ==> after == Some((3int, page | flags))
            &&& !inside && (before matches Some((l, e)) ==> l != 2) ==> after == before
            &&& !inside && !meets ==> after == before
            &&& before matches Some((l, e)) ==> !inside && meets && l == 2 ==> after == Some(
                (3int, page | ((e & 0x60_0000_0000_0FFF) | 2)),
            )
        }),
{
    lemma_blocks(vb);
    let page = start_of_page(vb) as u64;
    lemma_or_valid(page, flags);
    if let Some((l, e)) = before {
        lemma_fill(page, e);
    }
}

proof fn lemma_or_valid(x: u64, y: u64)
    by (bit_vector)
    ensures
        y & 1 != 0 ==> (x | y) & 1 != 0,
        y & 1 != 0 ==> (x | y | 2) & 1 != 0,
{
}

/// Mapping kernel pages: each page of the range that is not in a 2 MiB block maps to itself
/// with the given flags; all else stays.
pub proof fn law_kernel_pages(before: Option<(int, u64)>, base: u64, len: int, flags: u64, vb: u64)
    requires
        base % 4096 == 0,
        len % 4096 == 0,
        0 <= len,
        base + len <= 0x1_0000_0000_0000,
        vb < 0x1_0000_0000_0000,
        flags & 1 != 0,
    ensures
        ({
            let after = range_leaf(before, base as int, len, flags, vb);
            let block = before matches Some((l, e)) && l == 2;
            &&& base <= vb < base + len && !block ==> after == Some(
                (3int, start_of_page(vb) as u64 | flags | 2),
            )
            &&& !(base <= vb < base + len) || block ==> after == before
        }),
{
    lemma_blocks(vb);
    lemma_or_valid(start_of_page(vb) as u64, flags);
}

/// Mapping blocks: each block of the range maps to the block of the same distance from the
/// physical start with the given flags; all else stays.
pub proof fn law_kernel_blocks(
    before: Option<(int, u64)>,
    vaddr: u64,
    paddr: u64,
    len: int,
    flags: u64,
    vb: u64,
)
    requires
        vaddr % 0x20_0000 == 0,
        len % 0x20_0000 == 0,
        0 <= len,
        vaddr + len <= 0x1_0000_0000_0000,
        vb < 0x1_0000_0000_0000,
        flags & 1 != 0,
    ensures
        ({
            let after = block_range_leaf(before, vaddr as int, paddr as int, len, flags, vb);
            &&& vaddr <= vb < vaddr + len ==> after == Some(
                (2int, (paddr + (start_of_block(vb) - vaddr)) as u64 | flags),
            )
            &&& !(vaddr <= vb < vaddr + len) ==> after == before
        }),
{
    lemma_blocks(vb);
    lemma_or_valid((paddr + (start_of_block(vb) - vaddr)) as u64, flags);
}

/// Mapping one page: it has the given descriptor; another page of a block that it lay in maps
/// to its old place with the block's attributes; all else stays.
pub proof fn law_one_page_mapped(before: Option<(int, u64)>, va: u64, vb: u64, desc: u64)
    requires
        va < 0x1_0000_0000_0000,
        vb < 0x1_0000_0000_0000,
        desc & 1 != 0,
        before matches Some((l, e)) ==> e & 1 != 0,
    ensures
        ({
            let after = page_set_leaf(before, va, vb, desc);
            let same = start_of_page(va) == start_of_page(vb);
            let near = start_of_block(va) == start_of_block(vb);
            &&& same ==> after == Some((3int, desc))
            &&& before matches Some((l, e)) ==> !same && near && l == 2 ==> after == Some(
                (3int, start_of_page(vb) as u64 | ((e & 0x60_0000_0000_0FFF) | 2)),
            )
            &&& !same && (!near || (before matches Some((l, e)) ==> l != 2)) ==> after == before
        }),
{
    lemma_blocks(va);
    lemma_blocks(vb);
    lemma_same_page(va, vb);
    if let Some((l, e)) = before {
        lemma_fill(start_of_page(vb) as u64, e);
    }
}

pub(crate) proof fn lemma_repairable(
    t: Tables,
    a: FrameAllocator,
    root: u64,
    rs: Seq<Option<Region>>,
    far: u64,
    esr: u64,
    k: int,
)
    requires
        0 <= k < rs.len(),
    ensures
        resolvable(t, a, root, rs, far, esr) && rs[k] is Some ==> rs[k]->0.base + 4096
            * rs[k]->0.pages <= 0x1_0000_0000_0000,
        (forall|i: int|
            0 <= i < rs.len() ==> (#[trigger] rs[i] is Some ==> rs[i]->0.base + 4096
                * rs[i]->0.pages <= 0x1_0000_0000_0000)) && a.free_set().len() >= 3 && 4 <= esr
            % 64 <= 7 ==> resolvable(t, a, root, rs, far, esr),
{
    if resolvable(t, a, root, rs, far, esr) {
        assert(region_ok(rs[k]));
    }
}

} // verus!
