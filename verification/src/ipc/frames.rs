//! System calls on memory: frames for the caller, frames shared with another task, and
//! device windows.
//!
//! A task sees frames at their physical address.

use vstd::prelude::*;
use crate::mem::frame::FrameAllocator;
use crate::mem::mapping::{map_range, map_user_pages, need, range_leaf, tables_needed};
use crate::mem::page_table::{
    backed, grown, kernel_l0_phys, page_of, TableSpace, FLAGS_DEVICE, FLAGS_KERNEL_RWX, FLAGS_USER_DEVICE,
    FLAGS_USER_RWX, VA_LIMIT,
};
use crate::mem::tables::{mapping, Tables};
use crate::mem::windows::{opened, Window};
use crate::mem::{PhysAddr, PAGE_SIZE};
use crate::sched::task::{exists_id, first_id, has_id, Slots};
use crate::sched::TaskId;
use crate::server::{cap_covers, cap_permits, roots_ok, Host, E_NO_TABLES};
use crate::smp::MAX_CPUS;
use crate::text::name_text;

verus! {

/// No such task.
pub const E_NO_SUCH_TASK: i32 = -3;

/// Not a run of frames that can be shared.
pub const E_BAD_RUN: i32 = -11;

/// Not a device window that the caller may map.
pub const E_BAD_WINDOW: i32 = -12;

/// Most pages that can be shared at once.
pub const MAX_SHARED_PAGES: u32 = 4096;

/// Most pages of a device window.
pub const MAX_DEVICE_PAGES: u64 = 65536;

/// A window under `root` was opened, or there are not enough free frames for its tables and
/// nothing changed.  Without tables of its own (`root` is 0) there is nothing to do.
pub open spec fn window_opened(
    t: Tables,
    a: FrameAllocator,
    root: u64,
    w: Window,
    u: Tables,
    b: FrameAllocator,
    r: bool,
) -> bool {
    if root == 0 {
        r && u == t && b == a
    } else if w.need(t, root as int) > a.free_set().len() {
        !r && u == t && b == a
    } else {
        &&& r
        &&& opened(t, a, root as int, seq![w], 1, u, b)
        &&& b.free_set().len() + w.need(t, root as int) == a.free_set().len()
    }
}

fn open_window(space: &mut TableSpace, frames: &mut FrameAllocator, root: u64, w: Window) -> (r:
    bool)
    requires
        old(space).wf(),
        old(space).backed(*old(frames)),
        root != 0 ==> old(space)@.is_root(root as int),
        w.wf(),
    ensures
        final(space).wf(),
        final(space).backed(*final(frames)),
        final(space).kernel_root() == old(space).kernel_root(),
        window_opened(old(space)@, *old(frames), root, w, final(space)@, *final(frames), r),
        root == 0 || !r ==> *final(space) == *old(space),
{
    if root == 0 {
        return true;
    }
    let ghost t = space@;
    proof {
        frames.lemma_window();
    }
    if tables_needed(space, root, w.va, PAGE_SIZE, w.size / PAGE_SIZE, 3, false) > frames.free_frames() as u64 {
        return false;
    }
    map_user_pages(space, frames, root, w.va, w.size, w.flags);
    proof {
        let u = space@;
        assert forall|g: int, vb: u64|
            t.live(g) && t.levels[g] == 0 implies #[trigger] u.leaf_from(g, 0, vb) == if g
            == t.frame(root as int) {
            crate::mem::windows::opened_leaf(t.leaf_from(g, 0, vb), seq![w], 1, vb)
        } else {
            t.leaf_from(g, 0, vb)
        } by {
            reveal_with_fuel(crate::mem::windows::opened_leaf, 2);
        }
    }
    true
}

/// Table of the task that a CPU runs; 0 is the kernel's.
pub open spec fn table_of(s: Slots, cur: int) -> u64 {
    match s[cur] {
        Some(t) => t.ttbr0,
        None => 0,
    }
}

proof fn lemma_roots_grown(
    s: Slots,
    t: Tables,
    a: FrameAllocator,
    u: Tables,
    b: FrameAllocator,
    kernel: int,
)
    requires
        roots_ok(s, t, kernel),
        grown(t, a, u, b),
    ensures
        roots_ok(s, u, kernel),
{
}

/// Everything but the tables and the frames is as before.
pub open spec fn only_memory(pre: Host, post: Host) -> bool {
    &&& post.machine == pre.machine
    &&& post.ram == pre.ram
    &&& post.q == pre.q
    &&& post.space.kernel_root() == pre.space.kernel_root()
}

/// What allocating `pages` frames for the task of `cpu` does.  The first free run leaves the
/// free frames, and is opened to the task; the result is its address.  It is 0, and nothing
/// is taken, if there is no such run or not enough other frames for the task's tables.
pub open spec fn alloc_frames_post(pre: Host, post: Host, cpu: int, pages: u32, r: u64) -> bool {
    &&& only_memory(pre, post)
    &&& exists|mid: FrameAllocator, run: Option<PhysAddr>, mapped: bool| #[trigger]
        alloc_frames_steps(pre, post, cpu, pages, mid, run, mapped, r)
}

/// The run was `run`, which left the allocator as `mid`; `mapped` says whether it could be
/// opened.
pub open spec fn alloc_frames_steps(
    pre: Host,
    post: Host,
    cpu: int,
    pages: u32,
    mid: FrameAllocator,
    run: Option<PhysAddr>,
    mapped: bool,
    r: u64,
) -> bool {
    let root = table_of(pre.q.sched.slots(), pre.q.cpus.current(cpu));
    &&& pre.frames.alloc_contiguous_post(pages as int, mid, run)
    &&& match run {
        Some(base) => {
            let w = Window { va: base, size: (pages * 4096) as u64, flags: FLAGS_USER_RWX };
            if mapped {
                &&& r == base
                &&& window_opened(pre.space@, mid, root, w, post.space@, post.frames, true)
            } else {
                &&& r == 0
                &&& root != 0
                &&& w.need(pre.space@, root as int) > mid.free_set().len()
                &&& post.space == pre.space
                &&& post.frames.free_set() == pre.frames.free_set()
            }
        },
        None => r == 0 && post.space == pre.space && post.frames == mid,
    }
}

/// Give back the frames of a run.
fn release(frames: &mut FrameAllocator, base: PhysAddr, pages: u64)
    requires
        old(frames).wf(),
        base % 4096 == 0,
        old(frames).start() <= base,
        base + 4096 * pages <= old(frames).start() + 4096 * old(frames).total(),
    ensures
        final(frames).wf(),
        final(frames).same_window(*old(frames)),
        forall|f: int|
            #[trigger] final(frames).free_set().contains(f) <==> old(frames).free_set().contains(f)
                || old(frames).frame_of(base as int) <= f < old(frames).frame_of(base as int)
                + pages,
{
    let ghost a = *frames;
    let ghost first = a.frame_of(base as int);
    proof {
        a.lemma_window();
    }
    let mut i: u64 = 0;
    while i < pages
        invariant
            i <= pages,
            frames.wf(),
            frames.same_window(a),
            a.wf(),
            base % 4096 == 0,
            a.start() % 4096 == 0,
            a.start() <= base,
            a.start() + a.size() <= u64::MAX,
            a.total() == a.size() / 4096,
            base + 4096 * pages <= a.start() + 4096 * a.total(),
            first == a.frame_of(base as int),
            forall|f: int|
                #[trigger] frames.free_set().contains(f) <==> a.free_set().contains(f) || first
                    <= f < first + i,
        decreases pages - i,
    {
        let addr: u64 = base + i * PAGE_SIZE;
        assert(frames.frame_of(addr as int) == first + i);
        frames.free(addr);
        i = i + 1;
    }
}

/// `alloc_frames(pages)`: a run of frames for the task that `cpu` runs, at its physical
/// address; 0 if there is none.
pub fn sys_alloc_frames(host: &mut Host, cpu: usize, pages: u32) -> (r: u64)
    requires
        old(host).wf(),
        cpu < MAX_CPUS,
    ensures
        final(host).wf(),
        alloc_frames_post(*old(host), *final(host), cpu as int, pages, r),
{
    let ghost pre = *host;
    assert(host.q.cpus.current(cpu as int) < 32);
    let cur: usize = host.q.cpus.current_idx(cpu);
    let root: u64 = host.q.sched.current_ttbr0(cur);
    proof {
        host.frames.lemma_window();
        host.q.sched.lemma_len();
    }
    let run = host.frames.alloc_contiguous(pages as usize);
    let ghost mid = host.frames;
    let base: u64 = match run {
        Some(b) => b,
        None => {
            assert(alloc_frames_steps(pre, *host, cpu as int, pages, mid, run, false, 0));
            return 0;
        },
    };
    let w = Window { va: base, size: pages as u64 * PAGE_SIZE, flags: FLAGS_USER_RWX };
    assert(w.wf());
    let mapped: bool = open_window(&mut host.space, &mut host.frames, root, w);
    if mapped {
        assert(alloc_frames_steps(pre, *host, cpu as int, pages, mid, run, true, base));
        return base;
    }
    release(&mut host.frames, base, pages as u64);
    proof {
        assert(host.frames.free_set() =~= pre.frames.free_set());
        assert(alloc_frames_steps(pre, *host, cpu as int, pages, mid, run, false, 0));
    }
    0
}

/// Frames `first` to `first + n` hold no table.
pub open spec fn no_tables(t: Tables, first: int, n: int) -> bool {
    forall|f: int| first <= f < first + n ==> !#[trigger] t.live(f)
}

/// Frames `first` to `first + n` are in use.
pub open spec fn all_used(a: FrameAllocator, first: int, n: int) -> bool {
    forall|f: int| first <= f < first + n ==> !#[trigger] a.free_set().contains(f)
}

/// Tables that closing the pages of a run to the task of `cpu` takes.
pub open spec fn run_tables(host: Host, cpu: int, base: u64, pages: int) -> int {
    let root = table_of(host.q.sched.slots(), host.q.cpus.current(cpu));
    if root == 0 {
        0
    } else {
        need(host.space@, root as int, base, 0x1000, pages, 3, false)
    }
}

/// A run can be given back by the task of `cpu`: its frames lie in the window and hold no
/// table, and no table is put into one of them while its pages are closed, as none of them is
/// free or no table is needed.
pub open spec fn freeable(host: Host, cpu: int, base: u64, pages: int) -> bool {
    let first = host.frames.frame_of(base as int);
    pages > 0 ==> {
        &&& base % 4096 == 0
        &&& host.frames.start() <= base
        &&& base + 4096 * pages <= host.frames.start() + 4096 * host.frames.total()
        &&& no_tables(host.space@, first, pages)
        &&& all_used(host.frames, first, pages) || run_tables(host, cpu, base, pages) == 0
    }
}

/// Whether [`freeable`] holds.
pub fn may_free(host: &Host, cpu: usize, base: u64, pages: u32) -> (r: bool)
    requires
        host.wf(),
        cpu < MAX_CPUS,
    ensures
        r == freeable(*host, cpu as int, base, pages as int),
{
    if pages == 0 {
        return true;
    }
    assert(host.q.cpus.current(cpu as int) < 32);
    let root: u64 = host.q.sched.current_ttbr0(host.q.cpus.current_idx(cpu));
    proof {
        host.frames.lemma_window();
        host.q.sched.lemma_len();
    }
    let (start, _) = host.frames.ram_bounds();
    let total: u64 = host.frames.total_frames() as u64;
    if base % PAGE_SIZE != 0 || base < start || (base - start) / PAGE_SIZE > total || total - (base
        - start) / PAGE_SIZE < pages as u64 {
        return false;
    }
    let first: usize = ((base - start) / PAGE_SIZE) as usize;
    let mut used: bool = true;
    let mut i: usize = 0;
    while i < pages as usize
        invariant
            i <= pages,
            host.frames.wf(),
            first == host.frames.frame_of(base as int),
            first + pages <= host.frames.total() <= usize::MAX,
            no_tables(host.space@, first as int, i as int),
            used == all_used(host.frames, first as int, i as int),
        decreases pages - i,
    {
        if host.space.holds_table(first + i) {
            assert(host.space@.live(first + i));
            return false;
        }
        if host.frames.is_free(first + i) {
            assert(host.frames.free_set().contains(first + i));
            used = false;
        }
        i = i + 1;
    }
    used || root == 0 || tables_needed(
        &host.space,
        root,
        base,
        PAGE_SIZE,
        pages as u64,
        3,
        false,
    ) == 0
}

/// Where no table was needed, none was made.
proof fn lemma_none_made(
    t: Tables,
    a: FrameAllocator,
    root: u64,
    w: Window,
    u: Tables,
    b: FrameAllocator,
)
    requires
        backed(t, a),
        window_opened(t, a, root, w, u, b, true),
        root == 0 || w.need(t, root as int) == 0,
    ensures
        forall|f: int| #[trigger] u.live(f) ==> t.live(f),
{
    if root != 0 {
        a.lemma_window();
        b.lemma_window();
        assert(b.free_set().subset_of(a.free_set()));
        vstd::set_lib::lemma_subset_equality(b.free_set(), a.free_set());
    }
}

/// What giving back a run does: its pages are closed to the task of `cpu`, then its frames
/// join the free ones.
pub open spec fn free_frames_post(
    pre: Host,
    post: Host,
    cpu: int,
    base: u64,
    pages: u32,
    r: i32,
) -> bool {
    if pages == 0 {
        r == 0 && post == pre
    } else {
        &&& only_memory(pre, post)
        &&& exists|mid: FrameAllocator| #[trigger]
            free_frames_steps(pre, post, cpu, base, pages, mid, r)
    }
}

/// Closing the pages left the allocator as `mid`; it fails where there are not enough free
/// frames for the task's tables.
pub open spec fn free_frames_steps(
    pre: Host,
    post: Host,
    cpu: int,
    base: u64,
    pages: u32,
    mid: FrameAllocator,
    r: i32,
) -> bool {
    let root = table_of(pre.q.sched.slots(), pre.q.cpus.current(cpu));
    let w = Window { va: base, size: (pages * 4096) as u64, flags: FLAGS_KERNEL_RWX };
    let first = pre.frames.frame_of(base as int);
    &&& window_opened(pre.space@, pre.frames, root, w, post.space@, mid, r == 0)
    &&& if r == 0 {
        &&& post.frames.same_window(mid)
        &&& forall|f: int|
            #[trigger] post.frames.free_set().contains(f) <==> mid.free_set().contains(f) || first
                <= f < first + pages
    } else {
        r == E_NO_TABLES && post.frames == mid
    }
}

/// `free_frames(base, pages)`: take the frames of a run back from the task that `cpu` runs.
pub fn sys_free_frames(host: &mut Host, cpu: usize, base: u64, pages: u32) -> (r: i32)
    requires
        old(host).wf(),
        cpu < MAX_CPUS,
        freeable(*old(host), cpu as int, base, pages as int),
    ensures
        final(host).wf(),
        free_frames_post(*old(host), *final(host), cpu as int, base, pages, r),
{
    if pages == 0 {
        return 0;
    }
    let ghost pre = *host;
    assert(host.q.cpus.current(cpu as int) < 32);
    let cur: usize = host.q.cpus.current_idx(cpu);
    let root: u64 = host.q.sched.current_ttbr0(cur);
    proof {
        host.frames.lemma_window();
        host.q.sched.lemma_len();
    }
    let w = Window { va: base, size: pages as u64 * PAGE_SIZE, flags: FLAGS_KERNEL_RWX };
    assert(w.wf());
    assert(w == Window { va: base, size: (pages * 4096) as u64, flags: FLAGS_KERNEL_RWX });
    let ok: bool = open_window(&mut host.space, &mut host.frames, root, w);
    let ghost mid = host.frames;
    assert(window_opened(pre.space@, pre.frames, root, w, host.space@, mid, ok));
    if !ok {
        assert(free_frames_steps(pre, *host, cpu as int, base, pages, mid, E_NO_TABLES));
        return E_NO_TABLES;
    }
    release(&mut host.frames, base, pages as u64);
    proof {
        assert forall|f: int| #[trigger] host.space@.live(f) implies !host.frames.free_set().contains(
            f,
        ) by {
            assert(mid.frame_of(base as int) == pre.frames.frame_of(base as int));
            if pre.frames.frame_of(base as int) <= f < pre.frames.frame_of(base as int) + pages {
                assert(!pre.space@.live(f));
                if !all_used(pre.frames, pre.frames.frame_of(base as int), pages as int) {
                    lemma_none_made(pre.space@, pre.frames, root, w, host.space@, mid);
                } else {
                    assert(!pre.frames.free_set().contains(f));
                }
            }
        }
        assert(free_frames_steps(pre, *host, cpu as int, base, pages, mid, 0));
    }
    0
}

/// What mapping a run with `flags` into the table of the task `id` does.
pub open spec fn share_post(
    pre: Host,
    post: Host,
    base: u64,
    pages: u32,
    id: TaskId,
    flags: u64,
    r: i32,
) -> bool {
    let s = pre.q.sched.slots();
    let w = Window { va: base, size: (pages * 4096) as u64, flags };
    if base == 0 || pages == 0 || pages > MAX_SHARED_PAGES {
        r == E_BAD_RUN && post == pre
    } else if !exists_id(s, id) {
        r == E_NO_SUCH_TASK && post == pre
    } else {
        &&& only_memory(pre, post)
        &&& exists|i: int| #[trigger]
            first_id(s, i, id) && window_opened(
                pre.space@,
                pre.frames,
                s[i]->0.ttbr0,
                w,
                post.space@,
                post.frames,
                r == 0,
            )
        &&& r == 0 || r == E_NO_TABLES
    }
}

/// A run that is to be mapped into a table of the task `id` is whole pages of the address
/// space; where nothing is to be mapped there is nothing to ask.
pub open spec fn shareable(host: Host, base: u64, pages: u32, id: TaskId) -> bool {
    let s = host.q.sched.slots();
    base != 0 && 0 < pages <= MAX_SHARED_PAGES && (exists|i: int| #[trigger]
        first_id(s, i, id) && s[i]->0.ttbr0 != 0) ==> base % 4096 == 0 && base + 4096 * pages
        <= VA_LIMIT
}

/// Whether [`shareable`] holds.
pub fn may_share(host: &Host, base: u64, pages: u32, task: u32) -> (r: bool)
    requires
        host.wf(),
    ensures
        r == shareable(*host, base, pages, TaskId(task)),
{
    if base == 0 || pages == 0 || pages > MAX_SHARED_PAGES {
        return true;
    }
    let ghost s = host.q.sched.slots();
    match host.q.sched.task_idx(TaskId(task)) {
        Some(i) => {
            assert(first_id(s, i as int, TaskId(task)));
            if host.q.sched.current_ttbr0(i) == 0 {
                return true;
            }
            base % PAGE_SIZE == 0 && base <= VA_LIMIT - pages as u64 * PAGE_SIZE
        },
        None => true,
    }
}

fn share(host: &mut Host, base: u64, pages: u32, task: u32, flags: u64) -> (r: i32)
    requires
        old(host).wf(),
        shareable(*old(host), base, pages, TaskId(task)),
    ensures
        final(host).wf(),
        share_post(*old(host), *final(host), base, pages, TaskId(task), flags, r),
{
    if base == 0 || pages == 0 || pages > MAX_SHARED_PAGES {
        return E_BAD_RUN;
    }
    let ghost pre = *host;
    let ghost s = pre.q.sched.slots();
    let i: usize = match host.q.sched.task_idx(TaskId(task)) {
        Some(i) => i,
        None => {
            return E_NO_SUCH_TASK;
        },
    };
    assert(first_id(s, i as int, TaskId(task)));
    assert(has_id(s, i as int, TaskId(task)));
    let root: u64 = host.q.sched.current_ttbr0(i);
    if root == 0 {
        return 0;
    }
    let w = Window { va: base, size: pages as u64 * PAGE_SIZE, flags };
    let ok: bool = open_window(&mut host.space, &mut host.frames, root, w);
    if ok {
        0
    } else {
        E_NO_TABLES
    }
}

/// `share_frames(base, pages, task)`: open a run of frames to another task too, so that the
/// two share a buffer.
pub fn sys_share_frames(host: &mut Host, base: u64, pages: u32, task: u32) -> (r: i32)
    requires
        old(host).wf(),
        shareable(*old(host), base, pages, TaskId(task)),
    ensures
        final(host).wf(),
        share_post(*old(host), *final(host), base, pages, TaskId(task), FLAGS_USER_RWX, r),
{
    share(host, base, pages, task, FLAGS_USER_RWX)
}

/// `unshare_frames(base, pages, task)`: close a run of frames to another task; their owner
/// keeps them.
pub fn sys_unshare_frames(host: &mut Host, base: u64, pages: u32, task: u32) -> (r: i32)
    requires
        old(host).wf(),
        shareable(*old(host), base, pages, TaskId(task)),
    ensures
        final(host).wf(),
        share_post(*old(host), *final(host), base, pages, TaskId(task), FLAGS_KERNEL_RWX, r),
{
    share(host, base, pages, task, FLAGS_KERNEL_RWX)
}

/// Name of the task in a slot.
pub open spec fn name_of(s: Slots, cur: int) -> Seq<char> {
    match s[cur] {
        Some(t) => name_text(t.name@),
        None => "?"@,
    }
}

/// The caller may map the device window: whole pages that one of its capabilities covers.
pub open spec fn device_permitted(pre: Host, cpu: int, phys: u64, pages: u64) -> bool {
    &&& phys % 4096 == 0
    &&& 0 < pages <= MAX_DEVICE_PAGES
    &&& exists|i: int| #[trigger]
        cap_covers(
            pre.machine,
            name_of(pre.q.sched.slots(), pre.q.cpus.current(cpu)),
            i,
            phys,
            (pages * 4096) as u64,
        )
}

/// The kernel's map has the device window `[phys, phys + size)` too; pages in blocks keep
/// the block.
pub open spec fn kernel_mapped(
    t: Tables,
    a: FrameAllocator,
    kernel: int,
    phys: u64,
    size: int,
    u: Tables,
    b: FrameAllocator,
) -> bool {
    &&& grown(t, a, u, b)
    &&& b.free_set().len() + need(t, kernel, phys, 0x1000, size / 4096, 3, true)
        == a.free_set().len()
    &&& forall|g: int, vb: u64|
        t.live(g) && t.levels[g] == 0 ==> #[trigger] u.leaf_from(g, 0, vb) == if g == t.frame(
            kernel,
        ) {
            range_leaf(t.leaf_from(g, 0, vb), phys as int, size, FLAGS_DEVICE, vb)
        } else {
            t.leaf_from(g, 0, vb)
        }
}

fn map_kernel_device(host: &mut Host, phys: u64, pages: u64) -> (r: bool)
    requires
        old(host).wf(),
        phys % 4096 == 0,
        pages <= MAX_DEVICE_PAGES,
        phys + 4096 * pages <= VA_LIMIT,
    ensures
        final(host).wf(),
        ({
            let (t, a) = (old(host).space@, old(host).frames);
            let kernel = old(host).space.kernel_root();
            if need(t, kernel, phys, 0x1000, pages as int, 3, true) > a.free_set().len() {
                !r && *final(host) == *old(host)
            } else {
                &&& r
                &&& only_memory(*old(host), *final(host))
                &&& kernel_mapped(
                    t,
                    a,
                    kernel,
                    phys,
                    (pages * 4096) as int,
                    final(host).space@,
                    final(host).frames,
                )
            }
        }),
{
    let ghost pre = *host;
    let kernel: u64 = kernel_l0_phys(&host.space);
    proof {
        host.frames.lemma_window();
    }
    if tables_needed(&host.space, kernel, phys, PAGE_SIZE, pages, 3, true) > host.frames.free_frames() as u64 {
        return false;
    }
    let size: u64 = pages * PAGE_SIZE;
    assert((size + 4095) / 4096 == pages);
    map_range(&mut host.space, &mut host.frames, phys, size, FLAGS_DEVICE);
    proof {
        lemma_roots_grown(
            pre.q.sched.slots(),
            pre.space@,
            pre.frames,
            host.space@,
            host.frames,
            pre.space.kernel_root(),
        );
    }
    true
}

/// What mapping a device window does: first the kernel's map gets it, then the caller's.
pub open spec fn map_device_post(
    pre: Host,
    post: Host,
    cpu: int,
    phys: u64,
    pages: u64,
    r: i32,
) -> bool {
    let kernel = pre.space.kernel_root();
    if !device_permitted(pre, cpu, phys, pages) {
        r == E_BAD_WINDOW && post == pre
    } else if need(pre.space@, kernel, phys, 0x1000, pages as int, 3, true)
        > pre.frames.free_set().len() {
        r == E_NO_TABLES && post == pre
    } else {
        &&& only_memory(pre, post)
        &&& exists|t: Tables, a: FrameAllocator| #[trigger]
            device_steps(pre, post, cpu, phys, pages, t, a, r)
    }
}

/// The kernel's map got the window, which left the tables as `t` and the frames as `a`; then
/// the caller's, unless there are not enough frames for its tables.
pub open spec fn device_steps(
    pre: Host,
    post: Host,
    cpu: int,
    phys: u64,
    pages: u64,
    t: Tables,
    a: FrameAllocator,
    r: i32,
) -> bool {
    let root = table_of(pre.q.sched.slots(), pre.q.cpus.current(cpu));
    let kernel = pre.space.kernel_root();
    let w = Window { va: phys, size: (pages * 4096) as u64, flags: FLAGS_USER_DEVICE };
    &&& kernel_mapped(pre.space@, pre.frames, kernel, phys, w.size as int, t, a)
    &&& window_opened(t, a, root, w, post.space@, post.frames, r == 0)
    &&& r == 0 || r == E_NO_TABLES
}

/// `map_device(phys, pages)`: map a device window into the table of the task that `cpu` runs
/// and into the kernel's map.
pub fn sys_map_device(host: &mut Host, cpu: usize, phys: u64, pages: u64) -> (r: i32)
    requires
        old(host).wf(),
        cpu < MAX_CPUS,
    ensures
        final(host).wf(),
        map_device_post(*old(host), *final(host), cpu as int, phys, pages, r),
{
    let ghost pre = *host;
    if phys % PAGE_SIZE != 0 || pages == 0 || pages > MAX_DEVICE_PAGES {
        return E_BAD_WINDOW;
    }
    assert(host.q.cpus.current(cpu as int) < 32);
    let cur: usize = host.q.cpus.current_idx(cpu);
    let size: u64 = pages * PAGE_SIZE;
    let name = host.q.sched.current_name(cur);
    assert(size == (pages * 4096) as u64);
    assert(name@ == name_of(pre.q.sched.slots(), cur as int));
    if !cap_permits(&host.machine, name, phys, size) {
        return E_BAD_WINDOW;
    }
    assert(device_permitted(pre, cpu as int, phys, pages));
    let root: u64 = host.q.sched.current_ttbr0(cur);
    proof {
        host.q.sched.lemma_len();
        crate::server::lemma_cap_window(pre.machine, name@);
    }
    if !map_kernel_device(host, phys, pages) {
        return E_NO_TABLES;
    }
    assert(kernel_mapped(
        pre.space@,
        pre.frames,
        pre.space.kernel_root(),
        phys,
        size as int,
        host.space@,
        host.frames,
    ));
    let w = Window { va: phys, size, flags: FLAGS_USER_DEVICE };
    assert(w == Window { va: phys, size: (pages * 4096) as u64, flags: FLAGS_USER_DEVICE });
    let ghost t = host.space@;
    let ghost a = host.frames;
    let ok: bool = open_window(&mut host.space, &mut host.frames, root, w);
    let r: i32 = if ok {
        0
    } else {
        E_NO_TABLES
    };
    assert(device_steps(pre, *host, cpu as int, phys, pages, t, a, r));
    r
}

/// An address of an opened window is mapped to itself with the flags of the window.
proof fn lemma_opened_at(
    t: Tables,
    a: FrameAllocator,
    root: int,
    w: Window,
    u: Tables,
    b: FrameAllocator,
    va: u64,
)
    requires
        t.is_root(root),
        opened(t, a, root, seq![w], 1, u, b),
        w.wf(),
        w.va <= va < w.va + w.size,
    ensures
        u.leaf(root, va) == mapping(3, (page_of(va) as u64) | w.flags),
{
    reveal_with_fuel(crate::mem::windows::opened_leaf, 2);
    reveal(page_of);
    let g = t.frame(root);
    assert(t.live(g));
    assert(u.leaf_from(g, 0, va) == crate::mem::windows::opened_leaf(
        t.leaf_from(g, 0, va),
        seq![w],
        1,
        va,
    ));
    assert(w.va <= page_of(va) < w.va + w.size);
}

/// What [`sys_alloc_frames`] hands out is the task's to use at the same address, and no one
/// else gets it: its frames were free and no longer are.
pub proof fn law_allocated_run_is_usable(
    pre: Host,
    post: Host,
    cpu: int,
    pages: u32,
    r: u64,
    va: u64,
)
    requires
        pre.wf(),
        0 <= cpu < MAX_CPUS,
        alloc_frames_post(pre, post, cpu, pages, r),
        r != 0,
        r <= va < r + 4096 * pages,
    ensures
        pre.frames.free_set().contains(pre.frames.frame_of(va as int)),
        !post.frames.free_set().contains(post.frames.frame_of(va as int)),
        ({
            let root = table_of(pre.q.sched.slots(), pre.q.cpus.current(cpu));
            root != 0 ==> post.space@.leaf(root as int, va) == mapping(
                3,
                (page_of(va) as u64) | FLAGS_USER_RWX,
            )
        }),
{
    let (mid, run, mapped) = choose|mid: FrameAllocator, run: Option<PhysAddr>, mapped: bool|
        #[trigger] alloc_frames_steps(pre, post, cpu, pages, mid, run, mapped, r);
    pre.frames.lemma_window();
    pre.q.sched.lemma_len();
    assert(pre.q.cpus.current(cpu) < 32);
    let first = pre.frames.frame_of(r as int);
    let f = pre.frames.frame_of(va as int);
    assert(first <= f < first + pages);
    let root = table_of(pre.q.sched.slots(), pre.q.cpus.current(cpu));
    if root != 0 {
        let w = Window { va: r, size: (pages * 4096) as u64, flags: FLAGS_USER_RWX };
        assert(pre.space@.is_root(root as int));
        lemma_opened_at(pre.space@, mid, root as int, w, post.space@, post.frames, va);
    }
}

} // verus!
