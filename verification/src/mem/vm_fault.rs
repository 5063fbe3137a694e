//! Resolution of page faults of user tasks: stacks that grow, memory that is zero until
//! written, and copy-on-write.
//!
//! - A translation fault in a stack region maps the page to itself.
//! - A translation fault in a demand region maps the page to the shared zero page,
//!   read-only and tagged copy-on-write.
//! - A permission or access-flag fault on a tagged page gives the task a private copy.
//! - An access-flag fault on a plain page sets the flag.
//!
//! Any other fault is declined.

use vstd::prelude::*;
use crate::bits::{lemma_align, lemma_low_bits};
use crate::mem::address_space::{keeps, lemma_keeps_leaf};
use crate::mem::frame::FrameAllocator;
use crate::mem::mapping::{
    item, map_user_frame, need, page_set_leaf, read_user_page, tables_needed, write_user_page,
};
use crate::mem::page_table::{
    backed, grown, missing, TableSpace, DESC_AF, DESC_AP_RO_EL1, DESC_VALID, FLAGS_USER_RWX,
    VA_LIMIT,
};
use crate::mem::tables::{idx, is_table, mapping, same_page, valid, Tables, ADDR_MASK};
use crate::mem::{PhysAddr, PAGE_SIZE};
use crate::sched::task::{Region, RegionKind, MAX_REGIONS};

verus! {

/// Software bit that marks a copy-on-write page.
pub const DESC_COW_TAG: u64 = 0x80_0000_0000_0000;

/// A user page that is read-only until it is copied.
pub const FLAGS_USER_COW: u64 = FLAGS_USER_RWX | DESC_AP_RO_EL1 | DESC_COW_TAG;

/// Translation faults, levels 0 to 3.
pub const DFSC_TT_FIRST: u64 = 0x04;

/// Access-flag faults.
pub const DFSC_AF_FIRST: u64 = 0x0C;

/// Permission faults.
pub const DFSC_PERM_FIRST: u64 = 0x14;

/// The fault status is of the class that begins at `first`.
pub open spec fn is_class(dfsc: u64, first: u64) -> bool {
    first <= dfsc <= first + 3
}

fn in_class(dfsc: u64, first: u64) -> (r: bool)
    requires
        first < 64,
    ensures
        r == is_class(dfsc, first),
{
    dfsc >= first && dfsc <= first + 3
}

/// The region covers the page.
pub open spec fn covers(r: Option<Region>, page: u64) -> bool {
    r matches Some(x) && x.base <= page < x.base + x.pages * 4096
}

/// First region from `i` on that covers the page; past the end if there is none.
pub open spec fn covering(rs: Seq<Option<Region>>, page: u64, i: int) -> int
    decreases rs.len() - i,
{
    if i >= rs.len() {
        rs.len() as int
    } else if covers(rs[i], page) {
        i
    } else {
        covering(rs, page, i + 1)
    }
}

/// How a fault is resolved.
#[derive(Debug, Clone, Copy, PartialEq, Eq, Structural)]
pub enum FaultAction {
    /// Not at all.
    Decline,
    /// Map the page to itself.
    GrowStack,
    /// Map the page to the shared zero page.
    MapZero,
    /// Copy the page.
    Split,
    /// Set the access flag of the page.
    SetAccess,
}

/// The descriptor is that of a copy-on-write page.
pub open spec fn is_cow(e: u64) -> bool {
    valid(e) && e & DESC_COW_TAG != 0
}

/// How a fault of status `dfsc` is resolved on a page whose descriptor is `entry`.
pub open spec fn action(rs: Seq<Option<Region>>, page: u64, dfsc: u64, entry: u64) -> FaultAction {
    let i = covering(rs, page, 0);
    if is_class(dfsc, DFSC_TT_FIRST) {
        if i >= rs.len() {
            FaultAction::Decline
        } else if rs[i]->0.kind == RegionKind::Stack {
            FaultAction::GrowStack
        } else {
            FaultAction::MapZero
        }
    } else if is_class(dfsc, DFSC_PERM_FIRST) {
        if is_cow(entry) {
            FaultAction::Split
        } else {
            FaultAction::Decline
        }
    } else if is_class(dfsc, DFSC_AF_FIRST) {
        if is_cow(entry) {
            FaultAction::Split
        } else if valid(entry) && entry & DESC_AF == 0 {
            FaultAction::SetAccess
        } else {
            FaultAction::Decline
        }
    } else {
        FaultAction::Decline
    }
}

/// How a fault of status `dfsc` is resolved on a page whose descriptor is `entry`.
pub fn classify(regions: &[Option<Region>; MAX_REGIONS], page: u64, dfsc: u64, entry: u64) -> (a:
    FaultAction)
    requires
        regions_ok(regions@),
    ensures
        a == action(regions@, page, dfsc, entry),
{
    if in_class(dfsc, DFSC_TT_FIRST) {
        let mut i: usize = 0;
        while i < MAX_REGIONS
            invariant
                i <= MAX_REGIONS,
                regions_ok(regions@),
                is_class(dfsc, DFSC_TT_FIRST),
                covering(regions@, page, 0) == covering(regions@, page, i as int),
            decreases MAX_REGIONS - i,
        {
            if let Some(r) = regions[i] {
                assert(region_ok(regions@[i as int]));
                if page >= r.base && page < r.base + r.pages * PAGE_SIZE {
                    return if r.kind == RegionKind::Stack {
                        FaultAction::GrowStack
                    } else {
                        FaultAction::MapZero
                    };
                }
            }
            i = i + 1;
        }
        FaultAction::Decline
    } else if in_class(dfsc, DFSC_PERM_FIRST) {
        if entry & DESC_VALID != 0 && entry & DESC_COW_TAG != 0 {
            FaultAction::Split
        } else {
            FaultAction::Decline
        }
    } else if in_class(dfsc, DFSC_AF_FIRST) {
        if entry & DESC_VALID != 0 && entry & DESC_COW_TAG != 0 {
            FaultAction::Split
        } else if entry & DESC_VALID != 0 && entry & DESC_AF == 0 {
            FaultAction::SetAccess
        } else {
            FaultAction::Decline
        }
    } else {
        FaultAction::Decline
    }
}

/// The region ends inside the address space.
pub open spec fn region_ok(r: Option<Region>) -> bool {
    r matches Some(x) ==> x.base + x.pages * 4096 <= VA_LIMIT
}

pub open spec fn regions_ok(rs: Seq<Option<Region>>) -> bool {
    forall|i: int| 0 <= i < rs.len() ==> region_ok(#[trigger] rs[i])
}

/// The page that holds `far`.
pub open spec fn fault_page(far: u64) -> u64 {
    (far - far % 4096) as u64
}

/// The descriptor of the page of `va`, 0 where there is none.
pub open spec fn page_entry(t: Tables, root: int, va: u64) -> u64 {
    match t.reach(root, va, 3) {
        Some(f) => t.entry(f, idx(va, 3)),
        None => 0,
    }
}

/// How a fault at `far` with syndrome `esr` is resolved.
pub open spec fn fault_action(
    t: Tables,
    root: u64,
    rs: Seq<Option<Region>>,
    far: u64,
    esr: u64,
) -> FaultAction {
    if root == 0 {
        FaultAction::Decline
    } else {
        action(rs, fault_page(far), esr % 64, page_entry(t, root as int, fault_page(far)))
    }
}

/// Every root maps every address as before, but for the page of `va` under `root`.
pub open spec fn page_changed(t: Tables, u: Tables, root: int, va: u64, e: u64) -> bool {
    forall|g: int, vb: u64|
        t.live(g) && t.levels[g] == 0 ==> #[trigger] u.leaf_from(g, 0, vb) == if g == t.frame(root)
            && same_page(va, vb) {
            mapping(3, e)
        } else {
            t.leaf_from(g, 0, vb)
        }
}

/// The page of `va` was mapped, with the tables that it needed; a block around it was
/// split.
pub open spec fn page_mapped(t: Tables, u: Tables, root: int, va: u64, e: u64) -> bool {
    forall|g: int, vb: u64|
        t.live(g) && t.levels[g] == 0 ==> #[trigger] u.leaf_from(g, 0, vb) == if g == t.frame(
            root,
        ) {
            page_set_leaf(t.leaf_from(g, 0, vb), va, vb, e)
        } else {
            t.leaf_from(g, 0, vb)
        }
}

/// Frame `to` now holds what frame `from` holds; no other frame that is not a table
/// changed.
pub open spec fn frame_copied(t: Tables, u: Tables, from: int, to: int) -> bool {
    &&& u.base == t.base
    &&& u.n() == t.n()
    &&& u.levels == t.levels
    &&& u.mem[to] == t.mem[from]
    &&& forall|f: int| 0 <= f < t.n() && !t.live(f) && f != to ==> #[trigger] u.mem[f] == t.mem[f]
}

/// What resolving a fault does.
pub open spec fn resolved(
    t: Tables,
    a: FrameAllocator,
    root: u64,
    zero_page: u64,
    far: u64,
    act: FaultAction,
    u: Tables,
    b: FrameAllocator,
    r: bool,
) -> bool {
    let page = fault_page(far);
    let entry = page_entry(t, root as int, page);
    match act {
        FaultAction::Decline => !r && u == t && b == a,
        FaultAction::GrowStack => {
            &&& r
            &&& grown(t, a, u, b)
            &&& b.free_set().len() + missing(t, root as int, page, 3) == a.free_set().len()
            &&& page_mapped(t, u, root as int, page, page | FLAGS_USER_RWX)
        },
        FaultAction::MapZero => {
            &&& r
            &&& grown(t, a, u, b)
            &&& b.free_set().len() + missing(t, root as int, page, 3) == a.free_set().len()
            &&& page_mapped(t, u, root as int, page, zero_page | FLAGS_USER_COW)
        },
        FaultAction::Split => {
            if a.free_set() == Set::<int>::empty() {
                !r && u == t && b.free_set() == a.free_set() && b.same_window(a)
            } else {
                exists|fresh: u64|
                    {
                        &&& r
                        &&& #[trigger] a.alloc_post(b, Some(fresh))
                        &&& frame_copied(
                            t,
                            u,
                            t.frame((entry & ADDR_MASK) as int),
                            t.frame(fresh as int),
                        )
                        &&& page_changed(t, u, root as int, page, fresh | FLAGS_USER_RWX)
                    }
            }
        },
        FaultAction::SetAccess => {
            &&& r
            &&& b == a
            &&& u.base == t.base
            &&& u.n() == t.n()
            &&& u.levels == t.levels
            &&& page_changed(t, u, root as int, page, entry | DESC_AF)
            &&& forall|f: int| 0 <= f < t.n() && !t.live(f) ==> #[trigger] u.mem[f] == t.mem[f]
        },
    }
}

/// Copying into a frame that is no table leaves the tables as they were.
proof fn lemma_outside(t: Tables, u: Tables, d: int)
    requires
        t.wf(),
        0 <= d < t.n(),
        !t.live(d),
        u.base == t.base,
        u.levels == t.levels,
        u.mem == t.mem.update(d, u.mem[d]),
        u.mem[d].len() == 512,
    ensures
        u.wf(),
        keeps(t, u),
{
    assert forall|f: int, i: int| #[trigger] u.link(f, i) == t.link(f, i) by {
        if t.live(f) {
            assert(u.mem[f] == t.mem[f]);
        }
    }
    assert forall|f: int, i: int|
        t.live(f) implies #[trigger] u.entry(f, i) == t.entry(f, i) by {
        assert(u.mem[f] == t.mem[f]);
    }
    assert(u.wf_space()) by {
        assert(u.mem.len() == t.mem.len());
        assert forall|f: int| 0 <= f < u.n() implies (#[trigger] u.mem[f]).len() == 512 by {
            if f != d {
                assert(u.mem[f] == t.mem[f]);
            }
        }
        assert forall|f: int| #[trigger] u.live(f) implies 0 <= f < u.n() && 0 <= u.levels[f]
            <= 3 by {
            assert(t.live(f));
        }
    }
    assert(u.wf_links()) by {
        assert forall|f: int, i: int| #[trigger] u.link(f, i) implies {
            let c = u.target(u.entry(f, i));
            &&& u.live(c)
            &&& u.levels[c] == u.levels[f] + 1
            &&& u.addr(c) == u.entry(f, i) & ADDR_MASK
        } by {
            assert(t.link(f, i));
            assert(u.entry(f, i) == t.entry(f, i));
        }
        assert forall|f: int, i: int|
            u.live(f) && u.levels[f] < 2 && 0 <= i < 512 && valid(
                #[trigger] u.entry(f, i),
            ) implies is_table(u.entry(f, i)) by {
            assert(u.entry(f, i) == t.entry(f, i));
        }
    }
    assert(u.wf_unique()) by {
        assert forall|f: int, i: int, g: int, j: int|
            #![trigger u.link(f, i), u.link(g, j)]
            u.link(f, i) && u.link(g, j) && u.target(u.entry(f, i)) == u.target(
                u.entry(g, j),
            ) implies f == g && i == j by {
            assert(t.link(f, i) && t.link(g, j));
            assert(u.entry(f, i) == t.entry(f, i));
            assert(u.entry(g, j) == t.entry(g, j));
        }
    }
}

/// Kept tables keep their paths.
proof fn lemma_keeps_reach(t: Tables, u: Tables, f: int, m: int, va: u64, l: int)
    requires
        t.wf(),
        keeps(t, u),
        t.live(f),
        t.levels[f] == m,
        0 <= m <= l <= 3,
    ensures
        u.reach_from(f, m, va, l) == t.reach_from(f, m, va, l),
        t.reach_from(f, m, va, l) matches Some(g) ==> t.live(g) && t.levels[g] == l,
    decreases l,
{
    if l > m {
        lemma_keeps_reach(t, u, f, m, va, l - 1);
        if let Some(g) = t.reach_from(f, m, va, l - 1) {
            assert(u.mem[g] == t.mem[g]);
            assert(0 <= idx(va, l - 1) < 512);
            if is_table(t.entry(g, idx(va, l - 1))) {
                assert(t.link(g, idx(va, l - 1)));
            }
        }
    }
}

/// Give the page of `va` a private copy of the frame that `entry` names.  Returns false
/// when there is no free frame.
fn cow_split(
    space: &mut TableSpace,
    frames: &mut FrameAllocator,
    root: PhysAddr,
    va: u64,
    entry: u64,
) -> (r: bool)
    requires
        old(space).wf(),
        old(space).backed(*old(frames)),
        old(space)@.is_root(root as int),
        old(space)@.reach(root as int, va, 3) is Some,
        old(space)@.has_frame((entry & ADDR_MASK) as int),
    ensures
        final(space).wf(),
        final(space).backed(*final(frames)),
        final(space)@.is_root(root as int),
        final(space).kernel_root() == old(space).kernel_root(),
        if old(frames).free_set() == Set::<int>::empty() {
            !r && final(space)@ == old(space)@ && final(frames).free_set() == old(
                frames).free_set() && final(frames).same_window(*old(frames))
        } else {
            exists|fresh: u64|
                {
                    &&& r
                    &&& #[trigger] old(frames).alloc_post(*final(frames), Some(fresh))
                    &&& frame_copied(
                        old(space)@,
                        final(space)@,
                        old(space)@.frame((entry & ADDR_MASK) as int),
                        old(space)@.frame(fresh as int),
                    )
                    &&& page_changed(
                        old(space)@,
                        final(space)@,
                        root as int,
                        va,
                        fresh | FLAGS_USER_RWX,
                    )
                }
        },
{
    let ghost t = space@;
    let ghost a = *frames;
    let shared: u64 = entry & ADDR_MASK;
    proof {
        frames.lemma_window();
    }
    let fresh: u64 = match frames.alloc_one() {
        Some(f) => f,
        None => {
            return false;
        },
    };
    let ghost d = t.frame(fresh as int);
    let ghost r = t.frame(root as int);
    space.copy_frame(shared, fresh);
    let ghost mid = space@;
    proof {
        assert(a.free_set().contains(d));
        assert(!t.live(d));
        lemma_outside(t, mid, d);
        lemma_keeps_reach(t, mid, r, 0, va, 3);
        assert forall|g: int, vb: u64|
            t.live(g) && t.levels[g] == 0 implies #[trigger] mid.leaf_from(g, 0, vb)
            == t.leaf_from(g, 0, vb) by {
            lemma_keeps_leaf(t, mid, g, 0, vb);
        }
    }
    write_user_page(space, root, va, fresh | FLAGS_USER_RWX);
    proof {
        assert forall|f: int| #[trigger] space@.live(f) implies !frames.free_set().contains(f) by {
            assert(t.live(f));
        }
        assert(space@.mem[d] == mid.mem[d]);
        assert(frame_copied(t, space@, t.frame(shared as int), d));
        assert(page_changed(t, space@, root as int, va, fresh | FLAGS_USER_RWX)) by {
            assert forall|g: int, vb: u64|
                t.live(g) && t.levels[g] == 0 implies #[trigger] space@.leaf_from(g, 0, vb) == if g
                == t.frame(root as int) && same_page(va, vb) {
                mapping(3, fresh | FLAGS_USER_RWX)
            } else {
                t.leaf_from(g, 0, vb)
            } by {
                assert(mid.live(g));
                assert(mid.leaf_from(g, 0, vb) == t.leaf_from(g, 0, vb));
            }
        }
    }
    true
}

/// Memory permits to resolve the fault: the regions lie in the address space, there are
/// frames for the tables that it takes, and a shared page lies in memory.
pub open spec fn resolvable(
    t: Tables,
    a: FrameAllocator,
    root: u64,
    rs: Seq<Option<Region>>,
    far: u64,
    esr: u64,
) -> bool {
    let act = fault_action(t, root, rs, far, esr);
    let page = fault_page(far);
    &&& regions_ok(rs)
    &&& act == FaultAction::GrowStack || act == FaultAction::MapZero ==> missing(
        t,
        root as int,
        page,
        3,
    ) <= a.free_set().len()
    &&& act == FaultAction::Split ==> t.has_frame(
        (page_entry(t, root as int, page) & ADDR_MASK) as int,
    )
}

/// True if every region lies in the address space.
pub fn regions_valid(regions: &[Option<Region>; MAX_REGIONS]) -> (r: bool)
    ensures
        r == regions_ok(regions@),
{
    let mut i: usize = 0;
    while i < MAX_REGIONS
        invariant
            i <= MAX_REGIONS,
            forall|k: int| 0 <= k < i ==> region_ok(#[trigger] regions@[k]),
        decreases MAX_REGIONS - i,
    {
        if let Some(x) = regions[i] {
            if x.base > VA_LIMIT || x.pages > (VA_LIMIT - x.base) / PAGE_SIZE {
                assert(!region_ok(regions@[i as int]));
                return false;
            }
        }
        i = i + 1;
    }
    true
}

/// True if memory permits to resolve the fault.
pub fn can_resolve(
    space: &TableSpace,
    frames: &FrameAllocator,
    ttbr0: PhysAddr,
    regions: &[Option<Region>; MAX_REGIONS],
    far: u64,
    esr: u64,
) -> (r: bool)
    requires
        space.wf(),
        frames.wf(),
        ttbr0 != 0 ==> space@.is_root(ttbr0 as int),
    ensures
        r == resolvable(space@, *frames, ttbr0, regions@, far, esr),
{
    if !regions_valid(regions) {
        return false;
    }
    if ttbr0 == 0 {
        return true;
    }
    proof {
        lemma_low_bits(esr);
        lemma_align(far);
    }
    let dfsc: u64 = esr & 0x3F;
    let page: u64 = far & !0xFFFu64;
    let entry: u64 = read_user_page(space, ttbr0, page);
    match classify(regions, page, dfsc, entry) {
        FaultAction::GrowStack | FaultAction::MapZero => {
            proof {
                lemma_covered(regions@, page, 0);
                reveal_with_fuel(need, 2);
                assert(item(page, 0x1000, 0) == page);
            }
            tables_needed(space, ttbr0, page, PAGE_SIZE, 1, 3, false) <= frames.free_frames() as u64
        },
        FaultAction::Split => space.contains_frame(entry & ADDR_MASK),
        _ => true,
    }
}

/// Resolve a fault of the task with the root table `ttbr0` at `far`, with syndrome `esr`.
/// Returns true when the faulting instruction may run again; false when the fault cannot
/// be repaired.
pub fn resolve_user_fault(
    space: &mut TableSpace,
    frames: &mut FrameAllocator,
    ttbr0: PhysAddr,
    regions: &[Option<Region>; MAX_REGIONS],
    zero_page: PhysAddr,
    far: u64,
    esr: u64,
) -> (r: bool)
    requires
        old(space).wf(),
        old(space).backed(*old(frames)),
        ttbr0 != 0 ==> old(space)@.is_root(ttbr0 as int),
        resolvable(old(space)@, *old(frames), ttbr0, regions@, far, esr),
    ensures
        final(space).wf(),
        final(space).backed(*final(frames)),
        final(space).kernel_root() == old(space).kernel_root(),
        ttbr0 != 0 ==> final(space)@.is_root(ttbr0 as int),
        resolved(
            old(space)@,
            *old(frames),
            ttbr0,
            zero_page,
            far,
            fault_action(old(space)@, ttbr0, regions@, far, esr),
            final(space)@,
            *final(frames),
            r,
        ),
{
    if ttbr0 == 0 {
        return false;
    }
    proof {
        lemma_low_bits(esr);
        lemma_align(far);
    }
    let dfsc: u64 = esr & 0x3F;
    let page: u64 = far & !0xFFFu64;
    let entry: u64 = read_user_page(space, ttbr0, page);
    proof {
        crate::mem::page_table::lemma_desc(0, 0, 0);
    }
    match classify(regions, page, dfsc, entry) {
        FaultAction::Decline => false,
        FaultAction::GrowStack => {
            proof {
                lemma_covered(regions@, page, 0);
            }
            map_user_frame(space, frames, ttbr0, page, page, FLAGS_USER_RWX);
            true
        },
        FaultAction::MapZero => {
            proof {
                lemma_covered(regions@, page, 0);
            }
            map_user_frame(space, frames, ttbr0, page, zero_page, FLAGS_USER_COW);
            true
        },
        FaultAction::Split => cow_split(space, frames, ttbr0, page, entry),
        FaultAction::SetAccess => {
            let ghost t = space@;
            write_user_page(space, ttbr0, page, entry | DESC_AF);
            proof {
                assert forall|f: int| #[trigger] space@.live(f) implies !frames.free_set().contains(
                    f,
                ) by {
                    assert(t.live(f));
                }
            }
            true
        },
    }
}

/// A covered page lies inside the address space.
proof fn lemma_covered(rs: Seq<Option<Region>>, page: u64, i: int)
    requires
        0 <= i,
        regions_ok(rs),
        covering(rs, page, i) < rs.len(),
    ensures
        page < VA_LIMIT,
    decreases rs.len() - i,
{
    if i < rs.len() {
        if covers(rs[i], page) {
            assert(region_ok(rs[i]));
        } else {
            lemma_covered(rs, page, i + 1);
        }
    }
}

/// A written copy-on-write page is private: after a split, whose shared frame was in use,
/// the page maps a frame of its own with the shared contents, the shared frame keeps its
/// contents, and every other root maps every address as before.
pub proof fn law_split_is_private(
    t: Tables,
    a: FrameAllocator,
    root: u64,
    zero_page: u64,
    far: u64,
    u: Tables,
    b: FrameAllocator,
)
    requires
        t.wf(),
        backed(t, a),
        t.is_root(root as int),
        resolved(t, a, root, zero_page, far, FaultAction::Split, u, b, true),
        ({
            let shared = t.frame((page_entry(t, root as int, fault_page(far)) & ADDR_MASK) as int);
            0 <= shared < t.n() && !t.live(shared) && !a.free_set().contains(shared)
        }),
    ensures
        ({
            let shared = t.frame((page_entry(t, root as int, fault_page(far)) & ADDR_MASK) as int);
            exists|own: u64|
                {
                    &&& #[trigger] a.alloc_post(b, Some(own))
                    &&& t.frame(own as int) != shared
                    &&& u.leaf(root as int, fault_page(far)) == mapping(3, own | FLAGS_USER_RWX)
                    &&& u.mem[t.frame(own as int)] == t.mem[shared]
                    &&& u.mem[shared] == t.mem[shared]
                }
        }),
        forall|g: int, vb: u64|
            t.live(g) && t.levels[g] == 0 && g != t.frame(root as int)
                ==> #[trigger] u.leaf_from(g, 0, vb) == t.leaf_from(g, 0, vb),
{
    let page = fault_page(far);
    let entry = page_entry(t, root as int, page);
    let shared = t.frame((entry & ADDR_MASK) as int);
    let own = choose|own: u64|
        {
            &&& #[trigger] a.alloc_post(b, Some(own))
            &&& frame_copied(t, u, shared, t.frame(own as int))
            &&& page_changed(t, u, root as int, page, own | FLAGS_USER_RWX)
        };
    a.lemma_window();
    assert(a.free_set().contains(t.frame(own as int)));
    assert(same_page(page, page));
    assert(u.frame(root as int) == t.frame(root as int));
}

} // verus!
