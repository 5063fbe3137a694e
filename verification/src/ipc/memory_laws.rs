//! What the memory calls promise, told by frames, pages and descriptors.

use vstd::prelude::*;
use crate::ipc::frames::{
    all_used, alloc_frames_post, alloc_frames_steps, device_permitted, device_steps,
    free_frames_post, free_frames_steps, freeable, map_device_post, name_of, no_tables, run_tables, share_post,
    shareable, table_of, window_opened,
};
use crate::ipc::laws::found_at;
use crate::ipc::syscall::{served, Call, Inputs, Kernel, Outcome};
use crate::mem::frame::FrameAllocator;
use crate::mem::laws::{law_descriptor_bits, law_kernel_pages, law_opened_pages, start_of_page};
use crate::mem::mapping::{lemma_need_bound, need};
use crate::mem::tables::Tables;
use crate::mem::windows::{opened_leaf, Window};
use crate::mem::PhysAddr;
use crate::sched::task::{exists_id, first_id, has_id};
use crate::sched::TaskId;
use crate::server::{cap_covers, Host, ServerImage};

verus! {

proof fn lemma_flag_bits()
    by (bit_vector)
    ensures
        0x743u64 & 1 != 0,
        0x703u64 & 1 != 0,
        0x60_0000_0000_0447u64 & 1 != 0,
        0x60_0000_0000_0407u64 & 1 != 0,
{
}

/// A leaf that the tables hold is valid.
proof fn lemma_leaf_valid(t: Tables, g: int, vb: u64)
    ensures
        t.leaf_from(g, 0, vb) matches Some((l, e)) ==> e & 1 != 0,
{
}

/// An opened window: its pages map to themselves with its flags; pages outside that were mapped
/// as pages or not at all stay, and so does every other table.
proof fn lemma_window(
    t: Tables,
    a: FrameAllocator,
    root: u64,
    w: Window,
    u: Tables,
    b: FrameAllocator,
    vb: u64,
)
    requires
        window_opened(t, a, root, w, u, b, true),
        root != 0,
        t.is_root(root as int),
        w.va % 4096 == 0,
        w.size % 4096 == 0,
        w.va + w.size <= 0x1_0000_0000_0000,
        w.flags & 1 != 0,
        vb < 0x1_0000_0000_0000,
    ensures
        w.va <= vb < w.va + w.size ==> u.leaf(root as int, vb) == Some(
            (3int, start_of_page(vb) as u64 | w.flags),
        ),
        !(w.va <= vb < w.va + w.size) && !(t.leaf(root as int, vb) matches Some((l, e)) && l == 2)
            ==> u.leaf(root as int, vb) == t.leaf(root as int, vb),
        forall|g: int|
            t.live(g) && t.levels[g] == 0 && g != t.frame(root as int)
                ==> #[trigger] u.leaf_from(g, 0, vb) == t.leaf_from(g, 0, vb),
{
    let g = t.frame(root as int);
    reveal_with_fuel(opened_leaf, 2);
    lemma_leaf_valid(t, g, vb);
    assert(seq![w][0] == w);
    assert(u.leaf_from(g, 0, vb) == opened_leaf(t.leaf_from(g, 0, vb), seq![w], 1, vb));
    law_opened_pages(t.leaf_from(g, 0, vb), w.va, w.size, w.flags, vb);
    assert(u.frame(root as int) == g);
}

/// Frames for a task: what comes back is a run of whole frames that were free and no longer
/// are, each open to the task at its own address, and writable.  0 comes back where nothing was
/// taken and nothing changed; that happens only where there is no free run of that length, or
/// fewer than three frames per page are left for tables.
#[verifier::rlimit(50)]
pub proof fn law_alloc_frames(pre: Host, post: Host, cpu: int, pages: u32, r: u64, va: u64)
    requires
        pre.wf(),
        0 <= cpu < 4,
        pre.frames.start() > 0,
        pre.frames.start() + pre.frames.size() <= 0x1_0000_0000_0000,
        alloc_frames_post(pre, post, cpu, pages, r),
    ensures
        r != 0 ==> {
            &&& pages > 0
            &&& r % 4096 == 0
            &&& pre.frames.start() <= r
            &&& r + 4096 * pages <= pre.frames.start() + pre.frames.size()
        },
        r != 0 && r <= va < r + 4096 * pages ==> {
            let f = (va - pre.frames.start()) / 4096;
            let root = table_of(pre.q.sched.slots(), pre.q.cpus.current(cpu));
            &&& pre.frames.free_set().contains(f)
            &&& !post.frames.free_set().contains(f)
            &&& root != 0 ==> post.space@.leaf(root as int, va) == Some(
                (3int, start_of_page(va) as u64 | 0x743),
            )
        },
        r == 0 ==> post.space@ == pre.space@ && post.frames.free_set() == pre.frames.free_set(),
        pages > 0 && pre.frames.free_set().len() >= 4 * pages && (exists|i: int|
            0 <= i && #[trigger] crate::mem::frame::run_free(
                pre.frames.free_set(),
                i,
                pages as int,
            )) ==> r != 0,
        post.q == pre.q,
        post.ram == pre.ram,
{
    let (mid, run, mapped) = choose|mid: FrameAllocator, run: Option<PhysAddr>, mapped: bool|
        #[trigger] alloc_frames_steps(pre, post, cpu, pages, mid, run, mapped, r);
    pre.frames.lemma_window();
    pre.q.sched.lemma_len();
    law_descriptor_bits();
    lemma_flag_bits();
    assert(pre.q.cpus.current(cpu) < 32);
    let root = table_of(pre.q.sched.slots(), pre.q.cpus.current(cpu));
    if let Some(base) = run {
        let w = Window { va: base, size: (pages * 4096) as u64, flags: 0x743 };
        let i = pre.frames.frame_of(base as int);
        assert(base == pre.frames.start() + 4096 * i);
        assert(i + pages <= pre.frames.total());
        if root != 0 {
            assert(pre.space@.is_root(root as int));
            lemma_need_bound(pre.space@, root as int, base, 0x1000, pages as int, 3, false);
            lemma_run_len(pre.frames, i, pages as int, mid);
        }
        if r != 0 && r <= va < r + 4096 * pages {
            let f = (va - pre.frames.start()) / 4096;
            assert(i <= f < i + pages);
            assert(pre.frames.free_set().contains(f));
            if root != 0 {
                lemma_window(pre.space@, mid, root, w, post.space@, post.frames, va);
            }
        }
    }
}

/// Taking a run out of a set takes as many as it is long.
proof fn lemma_run_len(a: FrameAllocator, i: int, n: int, b: FrameAllocator)
    requires
        a.wf(),
        n >= 0,
        crate::mem::frame::run_free(a.free_set(), i, n),
        b.free_set() == crate::mem::frame::without_run(a.free_set(), i, n),
    ensures
        b.free_set().len() + n == a.free_set().len(),
{
    a.lemma_window();
    lemma_without(a.free_set(), i, n);
}

proof fn lemma_without(s: Set<int>, i: int, n: int)
    requires
        s.finite(),
        n >= 0,
        crate::mem::frame::run_free(s, i, n),
    ensures
        crate::mem::frame::without_run(s, i, n).finite(),
        crate::mem::frame::without_run(s, i, n).len() + n == s.len(),
    decreases n,
{
    if n == 0 {
        assert(crate::mem::frame::without_run(s, i, n) =~= s);
    } else {
        lemma_without(s, i, n - 1);
        let t = crate::mem::frame::without_run(s, i, n - 1);
        assert(t.contains(i + n - 1));
        assert(crate::mem::frame::without_run(s, i, n) =~= t.remove(i + n - 1));
    }
}

/// Giving frames back: 0, the frames are free, and their pages are closed to the task; or -13
/// and nothing changed, where frames for tables are wanting.  Giving back none changes nothing.
pub proof fn law_free_frames(
    pre: Host,
    post: Host,
    cpu: int,
    base: u64,
    pages: u32,
    r: i32,
    va: u64,
    f: int,
)
    requires
        pre.wf(),
        0 <= cpu < 4,
        base % 4096 == 0,
        pre.frames.start() <= base,
        base + 4096 * pages <= pre.frames.start() + pre.frames.size(),
        pre.frames.start() + pre.frames.size() <= 0x1_0000_0000_0000,
        free_frames_post(pre, post, cpu, base, pages, r),
    ensures
        r == 0 || r == -13,
        pages == 0 ==> r == 0 && post == pre,
        r == -13 ==> post.space@ == pre.space@ && post.frames == pre.frames,
        r == 0 && base <= va < base + 4096 * pages ==> {
            let root = table_of(pre.q.sched.slots(), pre.q.cpus.current(cpu));
            &&& post.frames.free_set().contains((va - pre.frames.start()) / 4096)
            &&& root != 0 ==> post.space@.leaf(root as int, va) == Some(
                (3int, start_of_page(va) as u64 | 0x703),
            )
        },
        r == 0 && pre.frames.free_set().contains(f) && !post.frames.free_set().contains(f)
            ==> post.space@.live(f),
        r == 0 && !pre.frames.free_set().contains(f) && post.frames.free_set().contains(f) ==> base
            <= pre.frames.start() + 4096 * f < base + 4096 * pages,
        post.q == pre.q,
        post.ram == pre.ram,
{
    if pages > 0 {
        let mid = choose|mid: FrameAllocator| #[trigger]
            free_frames_steps(pre, post, cpu, base, pages, mid, r);
        pre.frames.lemma_window();
        pre.q.sched.lemma_len();
        law_descriptor_bits();
        lemma_flag_bits();
        assert(pre.q.cpus.current(cpu) < 32);
        let root = table_of(pre.q.sched.slots(), pre.q.cpus.current(cpu));
        let w = Window { va: base, size: (pages * 4096) as u64, flags: 0x703 };
        let first = pre.frames.frame_of(base as int);
        assert(base == pre.frames.start() + 4096 * first);
        if r == 0 && base <= va < base + 4096 * pages {
            let g = (va - pre.frames.start()) / 4096;
            assert(first <= g < first + pages);
            if root != 0 {
                assert(pre.space@.is_root(root as int));
                lemma_window(pre.space@, pre.frames, root, w, post.space@, mid, va);
            }
        }
    }
}

/// Sharing frames with a task and closing them to it again.  A run without address, without
/// pages or of more than 4096 is answered with -11, an unknown task with -3; nothing changes
/// then.  Otherwise the answer is 0, and each page of the run maps to itself in the task's
/// tables, writable for the task or for the kernel only; or -13, and nothing changed.  No other
/// task sees a difference.
#[verifier::rlimit(50)]
pub proof fn law_share_frames(
    pre: Host,
    post: Host,
    base: u64,
    pages: u32,
    id: TaskId,
    flags: u64,
    r: i32,
    i: int,
    va: u64,
    g: int,
)
    requires
        pre.wf(),
        flags == 0x743 || flags == 0x703,
        base % 4096 == 0,
        base + 4096 * pages <= 0x1_0000_0000_0000,
        share_post(pre, post, base, pages, id, flags, r),
        va < 0x1_0000_0000_0000,
    ensures
        base == 0 || pages == 0 || pages > 4096 <==> r == -11,
        r == -11 || r == -3 ==> post == pre,
        base != 0 && 0 < pages <= 4096 ==> (r == -3 <==> forall|k: int|
            0 <= k < 32 ==> ((#[trigger] pre.q.sched.slots()[k]) matches Some(t) ==> t.id != id)),
        r == 0 || r == -3 || r == -11 || r == -13,
        r == -13 ==> post.space@ == pre.space@ && post.frames == pre.frames,
        r == 0 && found_at(pre.q.sched.slots(), i, id.0) && pre.q.sched.slots()[i]->0.ttbr0 != 0
            ==> {
            let root = pre.q.sched.slots()[i]->0.ttbr0;
            &&& base <= va < base + 4096 * pages ==> post.space@.leaf(root as int, va) == Some(
                (3int, start_of_page(va) as u64 | flags),
            )
            &&& pre.space@.live(g) && pre.space@.levels[g] == 0 && g != pre.space@.frame(
                root as int,
            ) ==> post.space@.leaf_from(g, 0, va) == pre.space@.leaf_from(g, 0, va)
        },
        post.q == pre.q,
{
    let s = pre.q.sched.slots();
    pre.q.sched.lemma_len();
    law_descriptor_bits();
    lemma_flag_bits();
    if exists_id(s, id) {
        let k = choose|k: int| #[trigger] has_id(s, k, id);
        assert(s[k] is Some && s[k]->0.id == id);
    } else {
        assert forall|k: int| 0 <= k < 32 implies ((#[trigger] s[k]) matches Some(t) ==> t.id
            != id) by {
            assert(!has_id(s, k, id));
        }
    }
    if r == 0 && found_at(s, i, id.0) && s[i]->0.ttbr0 != 0 {
        let w = Window { va: base, size: (pages * 4096) as u64, flags };
        let j = choose|j: int| #[trigger]
            first_id(s, j, id) && window_opened(
                pre.space@,
                pre.frames,
                s[j]->0.ttbr0,
                w,
                post.space@,
                post.frames,
                true,
            );
        assert(has_id(s, j, id));
        assert(i == j) by {
            if j < i {
                assert(!(s[j] is Some && s[j]->0.id == TaskId(id.0)));
            }
            if i < j {
                assert(!has_id(s, i, id));
            }
        }
        assert(pre.space@.is_root(s[i]->0.ttbr0 as int));
        lemma_window(
            pre.space@,
            pre.frames,
            s[i]->0.ttbr0,
            w,
            post.space@,
            post.frames,
            va,
        );
    }
}

/// Mapping a device window: -12 exactly where it is not whole pages, none, more than 65536, or
/// outside of every window that the caller's server is granted; nothing changes then.
/// Otherwise 0, and each page maps to itself in the caller's tables as device memory; or -13
/// for want of frames for tables.
#[verifier::rlimit(50)]
pub proof fn law_map_device(
    pre: Host,
    post: Host,
    cpu: int,
    phys: u64,
    pages: u64,
    r: i32,
    va: u64,
)
    requires
        pre.wf(),
        0 <= cpu < 4,
        pre.q.sched.slots()[pre.q.cpus.current(cpu)] is Some,
        map_device_post(pre, post, cpu, phys, pages, r),
    ensures
        ({
            let t = pre.q.sched.slots()[pre.q.cpus.current(cpu)]->0;
            let name = crate::text::name_text(t.name@);
            let ok = phys % 4096 == 0 && 0 < pages <= 65536 && exists|i: int| #[trigger]
                cap_covers(pre.machine, name, i, phys, (pages * 4096) as u64);
            &&& ok <==> r != -12
            &&& r == -12 ==> post == pre
            &&& r == 0 || r == -12 || r == -13
            &&& r == 0 && t.ttbr0 != 0 && phys <= va < phys + 4096 * pages ==> post.space@.leaf(
                t.ttbr0 as int,
                va,
            ) == Some((3int, start_of_page(va) as u64 | 0x60_0000_0000_0447))
        }),
        post.q == pre.q,
        post.ram == pre.ram,
{
    pre.q.sched.lemma_len();
    assert(0 <= pre.q.cpus.current(cpu) < 32);
    law_descriptor_bits();
    lemma_flag_bits();
    let t = pre.q.sched.slots()[pre.q.cpus.current(cpu)]->0;
    let name = crate::text::name_text(t.name@);
    assert(name == name_of(pre.q.sched.slots(), pre.q.cpus.current(cpu)));
    if r == 0 && t.ttbr0 != 0 && phys <= va < phys + 4096 * pages {
        let (u, b) = choose|u: Tables, b: FrameAllocator| #[trigger]
            device_steps(pre, post, cpu, phys, pages, u, b, r);
        let w = Window {
            va: phys,
            size: (pages * 4096) as u64,
            flags: 0x60_0000_0000_0447,
        };
        crate::server::lemma_cap_window(pre.machine, name);
        let i = choose|i: int| #[trigger]
            cap_covers(pre.machine, name, i, phys, (pages * 4096) as u64);
        assert(phys + pages * 4096 <= 0x1_0000_0000_0000);
        assert(pre.space@.is_root(t.ttbr0 as int));
        assert(u.is_root(t.ttbr0 as int));
        lemma_window(u, b, t.ttbr0, w, post.space@, post.frames, va);
    }
}

/// Three frames per page are enough for tables: with as many left, sharing, freeing and mapping
/// do not fail for want of them.
pub proof fn law_tables_need_little(
    pre: Host,
    post: Host,
    cpu: int,
    base: u64,
    pages: u32,
    id: TaskId,
    flags: u64,
    r: i32,
)
    requires
        pre.wf(),
        0 <= cpu < 4,
        pages > 0,
        base % 4096 == 0,
        base + 4096 * pages <= 0x1_0000_0000_0000,
        pre.frames.free_set().len() >= 3 * pages,
    ensures
        free_frames_post(pre, post, cpu, base, pages, r) ==> r == 0,
        base > 0 && pages <= 4096 && exists_id(pre.q.sched.slots(), id) && share_post(
            pre,
            post,
            base,
            pages,
            id,
            flags,
            r,
        ) ==> r == 0,
{
    let s = pre.q.sched.slots();
    let w = Window { va: base, size: (pages * 4096) as u64, flags };
    let k = Window { va: base, size: (pages * 4096) as u64, flags: 0x703 };
    law_descriptor_bits();
    assert forall|t: Tables, root: int|
        #[trigger] need(t, root, base, 0x1000, pages as int, 3, false) <= 3 * pages by {
        lemma_need_bound(t, root, base, 0x1000, pages as int, 3, false);
    }
    assert((pages * 4096) as u64 as int / 4096 == pages);
}

/// A device window that may be mapped is in the kernel's map too, as device memory, but where a
/// block of memory is; and six frames per page are enough for tables.
#[verifier::rlimit(50)]
pub proof fn law_device_in_kernel_map(
    pre: Host,
    post: Host,
    cpu: int,
    phys: u64,
    pages: u64,
    r: i32,
)
    requires
        pre.wf(),
        0 <= cpu < 4,
        device_permitted(pre, cpu, phys, pages),
        map_device_post(pre, post, cpu, phys, pages, r),
        pre.frames.free_set().len() >= 6 * pages,
    ensures
        r == 0,
        exists|u: Tables, b: FrameAllocator|
            {
                &&& #[trigger] device_steps(pre, post, cpu, phys, pages, u, b, r)
                &&& maps_device(pre.space@, pre.space.kernel_root(), phys, pages, u)
            },
{
    pre.frames.lemma_window();
    law_descriptor_bits();
    lemma_flag_bits();
    let name = name_of(pre.q.sched.slots(), pre.q.cpus.current(cpu));
    crate::server::lemma_cap_window(pre.machine, name);
    let i = choose|i: int| #[trigger]
        cap_covers(pre.machine, name, i, phys, (pages * 4096) as u64);
    assert(phys + pages * 4096 <= 0x1_0000_0000_0000);
    let kernel = pre.space.kernel_root();
    lemma_need_bound(pre.space@, kernel, phys, 0x1000, pages as int, 3, true);
    let (u, b) = choose|u: Tables, b: FrameAllocator| #[trigger]
        device_steps(pre, post, cpu, phys, pages, u, b, r);
    let root = table_of(pre.q.sched.slots(), pre.q.cpus.current(cpu));
    lemma_need_bound(u, root as int, phys, 0x1000, pages as int, 3, false);
    assert((pages * 4096) as u64 as int / 4096 == pages);
    let g = pre.space@.frame(kernel);
    assert forall|va: u64| va < 0x1_0000_0000_0000 implies {
        let before = pre.space@.leaf_from(g, 0, va);
        let block = before matches Some((l, e)) && l == 2;
        #[trigger] u.leaf_from(g, 0, va) == if phys <= va < phys + 4096 * pages && !block {
            Some((3int, start_of_page(va) as u64 | 0x60_0000_0000_0407 | 2))
        } else {
            before
        }
    } by {
        law_kernel_pages(
            pre.space@.leaf_from(g, 0, va),
            phys,
            (pages * 4096) as int,
            0x60_0000_0000_0407,
            va,
        );
    }
}

/// In the table at `root` every page of the window that was not in a block maps to itself as
/// device memory, and all else stays.
pub open spec fn maps_device(t: Tables, root: int, phys: u64, pages: u64, u: Tables) -> bool {
    let g = t.frame(root);
    forall|va: u64|
        va < 0x1_0000_0000_0000 ==> {
            let before = t.leaf_from(g, 0, va);
            let block = before matches Some((l, e)) && l == 2;
            #[trigger] u.leaf_from(g, 0, va) == if phys <= va < phys + 4096 * pages && !block {
                Some((3int, start_of_page(va) as u64 | 0x60_0000_0000_0407 | 2))
            } else {
                before
            }
        }
}

/// What may be given back: whole frames of the window, none of them a table, and either all of
/// them in use or no table to be made for them.  What may be shared: whole pages of the address
/// space, where it goes to tables at all.
#[verifier::rlimit(50)]
pub proof fn law_what_may_be_given(host: Host, cpu: int, base: u64, pages: u32, id: TaskId, f: int)
    requires
        host.wf(),
        0 <= cpu < 4,
        pages > 0,
    ensures
        freeable(host, cpu, base, 0),
        freeable(host, cpu, base, pages as int) ==> {
            &&& base % 4096 == 0
            &&& host.frames.start() <= base
            &&& base + 4096 * pages <= host.frames.start() + 4096 * host.frames.total()
            &&& base <= host.frames.start() + 4096 * f < base + 4096 * pages ==> !host.space@.live(
                f,
            ) && (run_tables(host, cpu, base, pages as int) > 0
                ==> !host.frames.free_set().contains(f))
        },
        table_of(host.q.sched.slots(), host.q.cpus.current(cpu)) == 0 ==> run_tables(
            host,
            cpu,
            base,
            pages as int,
        ) == 0,
        base % 4096 == 0 && host.frames.start() <= base && base + 4096 * pages
            <= host.frames.start() + 4096 * host.frames.total() && (forall|g: int|
            base <= host.frames.start() + 4096 * g < base + 4096 * pages ==> !#[trigger] host.space@.live(
                g,
            ) && !host.frames.free_set().contains(g)) ==> freeable(host, cpu, base, pages as int),
        base % 4096 == 0 && base + 4096 * pages <= 0x1_0000_0000_0000 ==> shareable(
            host,
            base,
            pages,
            id,
        ),
        base == 0 || pages > 4096 || !exists_id(host.q.sched.slots(), id) ==> shareable(
            host,
            base,
            pages,
            id,
        ),
{
    host.frames.lemma_window();
    let first = host.frames.frame_of(base as int);
    if base % 4096 == 0 && host.frames.start() <= base {
        assert(base == host.frames.start() + 4096 * first);
        if forall|g: int|
            base <= host.frames.start() + 4096 * g < base + 4096 * pages ==> !#[trigger] host.space@.live(
                g,
            ) && !host.frames.free_set().contains(g) {
            assert forall|g: int| first <= g < first + pages implies !#[trigger] host.space@.live(
                g,
            ) by {
                assert(base <= host.frames.start() + 4096 * g < base + 4096 * pages);
            }
            assert forall|g: int| first <= g < first + pages implies !#[trigger] host.frames.free_set().contains(
                g,
            ) by {
                assert(base <= host.frames.start() + 4096 * g < base + 4096 * pages);
                assert(!host.space@.live(g) && !host.frames.free_set().contains(g));
            }
            assert(no_tables(host.space@, first, pages as int));
            assert(all_used(host.frames, first, pages as int));
        }
    }
}

/// The memory calls do what their names say, answer with the number, and flush what the CPU
/// remembers of the tables: sharing opens pages to the task, unsharing leaves them to the
/// kernel.
#[verifier::rlimit(50)]
pub proof fn law_memory_calls(
    pre: Kernel,
    mid: Kernel,
    cpu: int,
    bins: Seq<ServerImage>,
    call: Call,
    inp: Inputs,
    o: Outcome,
)
    requires
        served(pre, mid, cpu, bins, call, inp, o),
        call is AllocFrames || call is FreeFrames || call is ShareFrames || call is UnshareFrames
            || call is MapDevice,
    ensures
        o.effect is FlushTlb,
        o.switch is None,
        o.reply is Value,
        mid.irqs == pre.irqs,
        call matches Call::AllocFrames { pages } ==> alloc_frames_post(
            pre.host,
            mid.host,
            cpu,
            pages,
            o.reply->Value_0,
        ),
        call matches Call::FreeFrames { base, pages } ==> exists|r: i32| #[trigger]
            free_frames_post(pre.host, mid.host, cpu, base, pages, r) && o.reply->Value_0 == if r
                >= 0 {
                r as int
            } else {
                0x1_0000_0000_0000_0000 + r
            },
        call matches Call::ShareFrames { base, pages, task } ==> exists|r: i32| #[trigger]
            share_post(pre.host, mid.host, base, pages, TaskId(task), 0x743, r)
                && o.reply->Value_0 == if r >= 0 {
                r as int
            } else {
                0x1_0000_0000_0000_0000 + r
            },
        call matches Call::UnshareFrames { base, pages, task } ==> exists|r: i32| #[trigger]
            share_post(pre.host, mid.host, base, pages, TaskId(task), 0x703, r)
                && o.reply->Value_0 == if r >= 0 {
                r as int
            } else {
                0x1_0000_0000_0000_0000 + r
            },
        call matches Call::MapDevice { phys, count } ==> exists|r: i32| #[trigger]
            map_device_post(pre.host, mid.host, cpu, phys, count, r) && o.reply->Value_0 == if r
                >= 0 {
                r as int
            } else {
                0x1_0000_0000_0000_0000 + r
            },
{
    law_descriptor_bits();
}

/// Want of frames is the one reason for a window not to be opened, and then nothing changes; a
/// task without tables needs none.
pub proof fn law_window_opens_where_tables_fit(
    t: Tables,
    a: FrameAllocator,
    root: u64,
    w: Window,
    u: Tables,
    b: FrameAllocator,
    r: bool,
)
    requires
        window_opened(t, a, root, w, u, b, r),
    ensures
        root == 0 ==> r && u == t && b == a,
        root != 0 ==> (r <==> need(t, root as int, w.va, 4096, w.size as int / 4096, 3, false)
            <= a.free_set().len()),
        !r ==> u == t && b == a,
        r && root != 0 ==> b.free_set().len() == a.free_set().len() - need(
            t,
            root as int,
            w.va,
            4096,
            w.size as int / 4096,
            3,
            false,
        ),
{
}

/// A device window that may be mapped is mapped as far as the frames suffice: nothing changes
/// only where the kernel's tables would take more than there are.
pub proof fn law_device_maps_where_tables_fit(
    pre: Host,
    post: Host,
    cpu: int,
    base: u64,
    pages: u32,
    r: i32,
)
    requires
        0 <= cpu < 4,
        map_device_post(pre, post, cpu, base, pages as u64, r),
        device_permitted(pre, cpu, base, pages as u64),
    ensures
        ({
            let kernel = pre.space.kernel_root();
            let n = need(pre.space@, kernel, base, 4096, pages as int, 3, true);
            let root = table_of(pre.q.sched.slots(), pre.q.cpus.current(cpu));
            &&& n > pre.frames.free_set().len() ==> r == -13 && post == pre
            &&& n <= pre.frames.free_set().len() ==> exists|t: Tables, a: FrameAllocator|
                {
                    &&& #[trigger] device_steps(pre, post, cpu, base, pages as u64, t, a, r)
                    &&& a.free_set().len() == pre.frames.free_set().len() - n
                }
            &&& root != 0 ==> run_tables(pre, cpu, base, pages as int) == need(
                pre.space@,
                root as int,
                base,
                4096,
                pages as int,
                3,
                false,
            )
        }),
{
    let kernel = pre.space.kernel_root();
    if need(pre.space@, kernel, base, 4096, pages as int, 3, true) <= pre.frames.free_set().len() {
        let (t, a) = choose|t: Tables, a: FrameAllocator| #[trigger]
            device_steps(pre, post, cpu, base, pages as u64, t, a, r);
        assert((pages * 4096) as u64 as int / 4096 == pages);
        assert(device_steps(pre, post, cpu, base, pages as u64, t, a, r));
    }
}

} // verus!
