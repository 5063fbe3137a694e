//! Address spaces of user tasks: the kernel's map with windows opened to the task.

use vstd::prelude::*;
use crate::mem::frame::FrameAllocator;
use crate::mem::mapping::{
    lemma_grown_refl, lemma_need_bound, map_user_pages, need, tables_needed, user_range_leaf,
};
use crate::mem::page_table::{grown, lemma_grown_trans, TableSpace, VA_LIMIT};
use crate::mem::tables::Tables;
use crate::mem::{PhysAddr, VirtAddr, PAGE_SIZE};

verus! {

/// Pages that are mapped to themselves with the given flags.
#[derive(Debug, Clone, Copy, PartialEq, Eq, Structural)]
pub struct Window {
    pub va: VirtAddr,
    pub size: u64,
    pub flags: u64,
}

impl Window {
    /// Whole pages inside the address space.
    pub open spec fn wf(self) -> bool {
        self.va % 4096 == 0 && self.size % 4096 == 0 && self.va + self.size <= VA_LIMIT
    }

    /// Tables that opening the window under `root` takes.
    pub open spec fn need(self, t: Tables, root: int) -> int {
        need(t, root, self.va, 0x1000, self.size as int / 4096, 3, false)
    }
}

/// How an address that was mapped as `before` is mapped after the first `n` windows were
/// opened.
pub open spec fn opened_leaf(
    before: Option<(int, u64)>,
    ws: Seq<Window>,
    n: int,
    vb: u64,
) -> Option<(int, u64)>
    decreases n,
{
    if n <= 0 {
        before
    } else {
        user_range_leaf(
            opened_leaf(before, ws, n - 1, vb),
            ws[n - 1].va as int,
            ws[n - 1].size as int,
            ws[n - 1].flags,
            vb,
        )
    }
}

/// The first `n` windows were opened under `root`; no other root changed.
pub open spec fn opened(
    t: Tables,
    a: FrameAllocator,
    root: int,
    ws: Seq<Window>,
    n: int,
    u: Tables,
    b: FrameAllocator,
) -> bool {
    &&& grown(t, a, u, b)
    &&& u.is_root(root)
    &&& forall|g: int, vb: u64|
        t.live(g) && t.levels[g] == 0 ==> #[trigger] u.leaf_from(g, 0, vb) == if g == t.frame(
            root,
        ) {
            opened_leaf(t.leaf_from(g, 0, vb), ws, n, vb)
        } else {
            t.leaf_from(g, 0, vb)
        }
}

/// The window `w` was opened under `root` with as many frames as its tables take.
pub open spec fn window_step(
    t: Tables,
    a: FrameAllocator,
    root: int,
    w: Window,
    u: Tables,
    b: FrameAllocator,
) -> bool {
    &&& opened(t, a, root, seq![w], 1, u, b)
    &&& b.free_set().len() + w.need(t, root) == a.free_set().len()
}

/// The first `n` windows were opened under `root`, one after the other.
#[verifier::opaque]
pub open spec fn window_steps(
    t: Tables,
    a: FrameAllocator,
    root: int,
    ws: Seq<Window>,
    n: int,
    u: Tables,
    b: FrameAllocator,
) -> bool
    decreases n,
{
    if n <= 0 {
        u == t && b == a
    } else {
        exists|mid: Tables, left: FrameAllocator|
            {
                &&& window_steps(t, a, root, ws, n - 1, mid, left)
                &&& #[trigger] window_step(mid, left, root, ws[n - 1], u, b)
            }
    }
}

proof fn lemma_window_step(
    t: Tables,
    a: FrameAllocator,
    root: int,
    ws: Seq<Window>,
    n: int,
    mid: Tables,
    left: FrameAllocator,
    u: Tables,
    b: FrameAllocator,
)
    requires
        0 <= n,
        window_steps(t, a, root, ws, n, mid, left),
        window_step(mid, left, root, ws[n], u, b),
    ensures
        window_steps(t, a, root, ws, n + 1, u, b),
{
    reveal_with_fuel(window_steps, 1);
    let m = n + 1;
    assert(window_steps(t, a, root, ws, m - 1, mid, left) && window_step(mid, left, root, ws[m - 1], u, b));
}

/// What [`open_windows`] does: all windows were opened, or those in front of one for
/// which there are not enough free frames.
pub open spec fn open_result(
    t: Tables,
    a: FrameAllocator,
    root: int,
    ws: Seq<Window>,
    n: int,
    u: Tables,
    b: FrameAllocator,
    r: bool,
) -> bool {
    &&& 0 <= n <= ws.len()
    &&& r == (n == ws.len())
    &&& opened(t, a, root, ws, n, u, b)
    &&& window_steps(t, a, root, ws, n, u, b)
    &&& n < ws.len() ==> ws[n].need(u, root) > b.free_set().len()
}

/// Open windows under `root`, one after the other.  Returns false when the free frames
/// do not suffice for the tables of one.
pub fn open_windows(
    space: &mut TableSpace,
    frames: &mut FrameAllocator,
    root: PhysAddr,
    ws: &Vec<Window>,
) -> (r: bool)
    requires
        old(space).wf(),
        old(space).backed(*old(frames)),
        old(space)@.is_root(root as int),
        forall|i: int| 0 <= i < ws@.len() ==> (#[trigger] ws@[i]).wf(),
    ensures
        final(space).wf(),
        final(space).backed(*final(frames)),
        final(space).kernel_root() == old(space).kernel_root(),
        exists|n: int| #[trigger]
            open_result(
                old(space)@,
                *old(frames),
                root as int,
                ws@,
                n,
                final(space)@,
                *final(frames),
                r,
            ),
{
    let ghost t = space@;
    let ghost a = *frames;
    proof {
        a.lemma_window();
        lemma_grown_refl(t, a);
        reveal_with_fuel(window_steps, 1);
    }
    let mut i: usize = 0;
    while i < ws.len()
        invariant
            i <= ws@.len(),
            t == old(space)@,
            a == *old(frames),
            t.wf(),
            t.is_root(root as int),
            space.wf(),
            space.backed(*frames),
            space.kernel_root() == old(space).kernel_root(),
            opened(t, a, root as int, ws@, i as int, space@, *frames),
            window_steps(t, a, root as int, ws@, i as int, space@, *frames),
            forall|k: int| 0 <= k < ws@.len() ==> (#[trigger] ws@[k]).wf(),
        decreases ws.len() - i,
    {
        let w: Window = ws[i];
        assert(w == ws@[i as int] && w.wf());
        let ghost u = space@;
        let ghost b = *frames;
        let needed: u64 = tables_needed(space, root, w.va, PAGE_SIZE, w.size / PAGE_SIZE, 3, false);
        proof {
            frames.lemma_window();
        }
        if needed > frames.free_frames() as u64 {
            proof {
                assert(open_result(t, a, root as int, ws@, i as int, space@, *frames, false));
            }
            return false;
        }
        map_user_pages(space, frames, root, w.va, w.size, w.flags);
        proof {
            lemma_grown_trans(t, a, u, b, space@, *frames);
            assert forall|g: int, vb: u64|
                t.live(g) && t.levels[g] == 0 implies #[trigger] space@.leaf_from(g, 0, vb) == if g
                == t.frame(root as int) {
                opened_leaf(t.leaf_from(g, 0, vb), ws@, i + 1, vb)
            } else {
                t.leaf_from(g, 0, vb)
            } by {
                assert(u.live(g));
                assert(u.leaf_from(g, 0, vb) == if g == t.frame(root as int) {
                    opened_leaf(t.leaf_from(g, 0, vb), ws@, i as int, vb)
                } else {
                    t.leaf_from(g, 0, vb)
                });
            }
            assert(window_step(u, b, root as int, w, space@, *frames)) by {
                reveal_with_fuel(opened_leaf, 2);
                assert(seq![w][0] == w);
            }
            lemma_window_step(t, a, root as int, ws@, i as int, u, b, space@, *frames);
        }
        i = i + 1;
    }
    proof {
        assert(open_result(t, a, root as int, ws@, i as int, space@, *frames, true));
    }
    true
}

/// A window is opened as long as three tables per page are free.
pub proof fn law_windows_open_with_room(w: Window, t: Tables, root: int, free: nat)
    requires
        w.wf(),
        free >= 3 * (w.size / 4096),
    ensures
        w.need(t, root) <= free,
{
    lemma_need_bound(t, root, w.va, 0x1000, w.size as int / 4096, 3, false);
}

} // verus!
