//! System calls on tasks: start, replace, find and kill them by name or id.

use vstd::prelude::*;
use vstd::utf8::{decode_utf8, valid_utf8};
use crate::mem::address_space::{free_task_tables, freed, in_tree, lemma_in_tree_live};
use crate::mem::PhysAddr;
use crate::sched::run::{current_of, killed, Kill};
use crate::sched::task::{
    exists_id, first_free, first_id, first_named, has_id, in_state, named, Slots,
};
use crate::sched::{TaskId, TaskState};
use crate::server::{
    image_index, image_loaded, is_server_task, layout, link_base, Host, ServerImage,
};
use crate::smp::MAX_CPUS;
use crate::text::{law_name_round_trip, nul_position, padded, until_nul, utf8_text};
use crate::vm::loader::LoadedImage;

verus! {

/// Name too long or not UTF-8.
pub const E_BAD_NAME: i32 = -5;

/// No live task has the name.
pub const E_NOT_FOUND: i32 = -1;

/// Bytes of a name argument, its NUL byte counted.
pub const NAME_ARG_LEN: usize = 16;

/// The name that starts at a pointer: what is in front of the first NUL byte, if that is
/// among the first 16 bytes and the name is UTF-8.
pub open spec fn name_arg(mem: Seq<u8>) -> Option<Seq<char>> {
    let head = until_nul(mem);
    if head.len() < mem.len() && head.len() < NAME_ARG_LEN && valid_utf8(head) {
        Some(decode_utf8(head))
    } else {
        None
    }
}

/// Read a NUL-terminated name from the caller's memory `mem`, which begins at the pointer.
pub fn read_cstr(mem: &[u8]) -> (r: Option<&str>)
    ensures
        match r {
            Some(s) => name_arg(mem@) == Some(s@),
            None => name_arg(mem@) is None,
        },
{
    let n: usize = nul_position(mem);
    assert(until_nul(mem@).len() == n);
    if n >= mem.len() || n >= NAME_ARG_LEN {
        return None;
    }
    let head = vstd::slice::slice_subrange(mem, 0, n);
    assert(head@ =~= until_nul(mem@));
    match utf8_text(head) {
        Some(s) => {
            proof {
                vstd::utf8::encode_utf8_decode_utf8(s@);
            }
            Some(s)
        },
        None => None,
    }
}

/// What killing the task `id` from `cpu` does: it is a zombie, and its tables are free
/// frames, unless it has none of its own or is the task that `cpu` runs.
pub open spec fn kill_post(pre: Host, post: Host, cpu: int, id: TaskId, r: bool) -> bool {
    let s = pre.q.sched.slots();
    let own = id == current_of(s, pre.q.cpus.current(cpu));
    &&& r == exists_id(s, id)
    &&& post.machine == pre.machine
    &&& post.ram == pre.ram
    &&& post.q.cpus == pre.q.cpus
    &&& post.q.sched.next() == pre.q.sched.next()
    &&& post.q.sched.woken_slot() == pre.q.sched.woken_slot()
    &&& post.space.kernel_root() == pre.space.kernel_root()
    &&& !r ==> post.q.sched.slots() == s && post.space == pre.space && post.frames == pre.frames
    &&& r ==> exists|i: int| #[trigger]
        first_id(s, i, id) && {
            let root = s[i]->0.ttbr0;
            let gone = root != 0 && !own;
            &&& post.q.sched.slots() == s.update(i, Some(killed(s[i]->0, gone)))
            &&& if gone {
                freed(
                    pre.space@,
                    pre.frames,
                    post.space@,
                    post.frames,
                    pre.space@.frame(root as int),
                    0,
                )
            } else {
                post.space == pre.space && post.frames == pre.frames
            }
        }
}

impl Host {
    /// Kill the task `id`.  Returns false if there is no such task.
    pub fn kill(&mut self, cpu: usize, id: TaskId) -> (r: bool)
        requires
            old(self).wf(),
            cpu < MAX_CPUS,
        ensures
            final(self).wf(),
            kill_post(*old(self), *final(self), cpu as int, id, r),
    {
        let ghost pre = *self;
        let ghost s = pre.q.sched.slots();
        let ghost t = pre.space@;
        let out = self.q.kill_task(cpu, id);
        match out {
            Kill::NoSuchTask => false,
            Kill::Killed => {
                proof {
                    let i = choose|i: int| #[trigger]
                        first_id(s, i, id) && self.q.sched.slots() == s.update(
                            i,
                            Some(killed(s[i]->0, false)),
                        );
                    assert(first_id(s, i, id));
                    assert(has_id(s, i, id));
                }
                true
            },
            Kill::KilledFree(root) => {
                let ghost i = choose|i: int| #[trigger]
                    first_id(s, i, id) && root == s[i]->0.ttbr0 && self.q.sched.slots() == s.update(
                        i,
                        Some(killed(s[i]->0, true)),
                    );
                assert(first_id(s, i, id));
                assert(has_id(s, i, id));
                free_task_tables(&mut self.space, &mut self.frames, root);
                proof {
                    let f = t.frame(root as int);
                    assert forall|g: int| t.live(g) && t.levels[g] == 0 && g != f implies !in_tree(
                        t,
                        f,
                        0,
                        g,
                    ) by {
                        if in_tree(t, f, 0, g) {
                            lemma_in_tree_live(t, f, 0, g);
                        }
                    }
                    let s2 = self.q.sched.slots();
                    assert forall|k: int|
                        0 <= k < s2.len() && (#[trigger] s2[k]) is Some && s2[k]->0.ttbr0
                            != 0 implies self.space@.is_root(s2[k]->0.ttbr0 as int)
                        && s2[k]->0.ttbr0 != self.space.kernel_root() by {
                        assert(k != i);
                        assert(s2[k] == s[k]);
                        assert(s[k]->0.ttbr0 != s[i]->0.ttbr0);
                        let g = t.frame(s[k]->0.ttbr0 as int);
                        assert(t.is_root(s[k]->0.ttbr0 as int));
                        assert(g != f);
                        assert(!in_tree(t, f, 0, g));
                        assert(self.space@.live(g));
                    }
                }
                true
            },
        }
    }
}

/// `exit_task(pid)`: kill another task.
pub fn sys_exit_task(host: &mut Host, cpu: usize, pid: u32) -> (r: i32)
    requires
        old(host).wf(),
        cpu < MAX_CPUS,
    ensures
        final(host).wf(),
        r == 0 || r == crate::ipc::frames::E_NO_SUCH_TASK,
        kill_post(*old(host), *final(host), cpu as int, TaskId(pid), r == 0),
{
    if host.kill(cpu, TaskId(pid)) {
        0
    } else {
        crate::ipc::frames::E_NO_SUCH_TASK
    }
}

/// Id of the first live task with the name, or [`E_NOT_FOUND`].
pub open spec fn who(s: Slots, name: Seq<char>, r: i32) -> bool {
    if exists|i: int| #[trigger] named(s, i, name) {
        exists|i: int| #[trigger] first_named(s, i, name) && r == s[i]->0.id.0 as i32
    } else {
        r == E_NOT_FOUND
    }
}

/// `who(name)`: id of the first live task with the name, or [`E_NOT_FOUND`].
pub fn sys_who(host: &Host, mem: &[u8]) -> (r: i32)
    ensures
        match name_arg(mem@) {
            Some(name) => who(host.q.sched.slots(), name, r),
            None => r == E_NOT_FOUND,
        },
{
    let name = match read_cstr(mem) {
        Some(n) => n,
        None => {
            return E_NOT_FOUND;
        },
    };
    match host.q.sched.live_by_name(name) {
        Some((i, id)) => {
            let r: i32 = id.0 as i32;
            proof {
                let s = host.q.sched.slots();
                assert(first_named(s, i as int, name@) && r == s[i as int]->0.id.0 as i32);
                assert(named(s, i as int, name@));
                assert(who(s, name@, r));
            }
            r
        },
        None => E_NOT_FOUND,
    }
}

/// Number that a spawn hands to its caller: the id, or the error.
pub open spec fn spawn_number(r: Result<TaskId, i32>) -> i32 {
    match r {
        Ok(id) => id.0 as i32,
        Err(e) => e,
    }
}

/// What starting the server whose name is at `mem` does.
pub open spec fn sys_spawn_post(
    pre: Host,
    bins: Seq<ServerImage>,
    mem: Seq<u8>,
    post: Host,
    r: i32,
) -> bool {
    match name_arg(mem) {
        Some(name) => exists|res: Result<TaskId, i32>| #[trigger]
            Host::spawn_post(pre, bins, name, post, res) && r == spawn_number(res),
        None => r == E_BAD_NAME && post == pre,
    }
}

/// `spawn(name)`: start a server; its id, or an error.
pub fn sys_spawn(host: &mut Host, bins: &[ServerImage], mem: &[u8]) -> (r: i32)
    requires
        old(host).wf(),
        name_arg(mem@) matches Some(name) ==> old(host).can_spawn(bins@, name),
    ensures
        final(host).wf(),
        sys_spawn_post(*old(host), bins@, mem@, *final(host), r),
{
    let name = match read_cstr(mem) {
        Some(n) => n,
        None => {
            return E_BAD_NAME;
        },
    };
    match host.spawn_by_name(bins, name) {
        Ok(id) => id.0 as i32,
        Err(e) => e,
    }
}

/// The first live task with the name was killed, if there is one.
pub open spec fn retired(pre: Host, cpu: int, name: Seq<char>, mid: Host) -> bool {
    let s = pre.q.sched.slots();
    if exists|i: int| #[trigger] named(s, i, name) {
        exists|i: int| #[trigger]
            first_named(s, i, name) && kill_post(pre, mid, cpu, s[i]->0.id, true)
    } else {
        mid == pre
    }
}

/// The live task was retired, which left the host as `mid`; then starting the server returned
/// `res`.
pub open spec fn replaced(
    pre: Host,
    cpu: int,
    bins: Seq<ServerImage>,
    name: Seq<char>,
    mid: Host,
    post: Host,
    res: Result<TaskId, i32>,
) -> bool {
    retired(pre, cpu, name, mid) && Host::spawn_post(mid, bins, name, post, res)
}

/// What replacing the server whose name is at `mem` does.
pub open spec fn exec_post(
    pre: Host,
    cpu: int,
    bins: Seq<ServerImage>,
    mem: Seq<u8>,
    post: Host,
    r: i32,
) -> bool {
    match name_arg(mem) {
        Some(name) => exists|mid: Host, res: Result<TaskId, i32>| #[trigger]
            replaced(pre, cpu, bins, name, mid, post, res) && r == spawn_number(res),
        None => r == E_BAD_NAME && post == pre,
    }
}

/// `exec(name)`: start a server in place of the live task with the name, which runs from the
/// same memory; its id, or an error.
pub fn sys_exec(host: &mut Host, cpu: usize, bins: &[ServerImage], mem: &[u8]) -> (r: i32)
    requires
        old(host).wf(),
        cpu < MAX_CPUS,
        name_arg(mem@) matches Some(name) ==> old(host).can_spawn(bins@, name),
    ensures
        final(host).wf(),
        exec_post(*old(host), cpu as int, bins@, mem@, *final(host), r),
{
    let ghost pre = *host;
    let name = match read_cstr(mem) {
        Some(n) => n,
        None => {
            return E_BAD_NAME;
        },
    };
    let live = host.q.sched.live_by_name(name);
    if let Some((i, id)) = live {
        let done: bool = host.kill(cpu, id);
        proof {
            let s = pre.q.sched.slots();
            assert(has_id(s, i as int, id));
            assert(done);
            assert(named(s, i as int, name@));
            assert(first_named(s, i as int, name@));
        }
    }
    let ghost mid = *host;
    assert(retired(pre, cpu as int, name@, mid));
    let res = host.spawn_by_name(bins, name);
    assert(replaced(pre, cpu as int, bins@, name@, mid, *host, res));
    match res {
        Ok(id) => id.0 as i32,
        Err(e) => e,
    }
}

/// A server that was started is found under its name, by the id that starting it returned.
pub proof fn law_who_finds_spawned(
    pre: Host,
    bins: Seq<ServerImage>,
    name: Seq<char>,
    post: Host,
    id: TaskId,
)
    requires
        pre.wf(),
        Host::spawn_post(pre, bins, name, post, Ok(id)),
        forall|i: int| !#[trigger] named(pre.q.sched.slots(), i, name),
        vstd::utf8::encode_utf8(name).len() <= 16,
        forall|k: int|
            0 <= k < vstd::utf8::encode_utf8(name).len() ==> #[trigger] vstd::utf8::encode_utf8(
                name,
            )[k] != 0,
    ensures
        who(post.q.sched.slots(), name, id.0 as i32),
{
    let s = pre.q.sched.slots();
    let u = post.q.sched.slots();
    let i = lemma_spawn_slot(pre, bins, name, post, id);
    law_name_round_trip(name, 16);
    assert(named(u, i, name));
    assert forall|k: int| k != i implies !#[trigger] named(u, k, name) by {
        assert(!named(s, k, name));
    }
    assert(first_named(u, i, name));
}

/// The slot that starting a server filled.
proof fn lemma_spawn_slot(
    pre: Host,
    bins: Seq<ServerImage>,
    name: Seq<char>,
    post: Host,
    id: TaskId,
) -> (i: int)
    requires
        Host::spawn_post(pre, bins, name, post, Ok(id)),
    ensures
        first_free(pre.q.sched.slots(), i),
        post.q.sched.slots()[i] is Some,
        post.q.sched.slots() == pre.q.sched.slots().update(i, post.q.sched.slots()[i]),
        post.q.sched.slots()[i]->0.id == id,
        post.q.sched.slots()[i]->0.state == TaskState::Ready,
        post.q.sched.slots()[i]->0.name@ == padded(vstd::utf8::encode_utf8(name), 16, 16),
{
    let k = image_index(bins, name, 0);
    let base = link_base(pre.machine, name) as u64;
    let r = Ok::<TaskId, i32>(id);
    let (mem, img) = choose|mem: Seq<u8>, img: Result<LoadedImage, i32>|
        {
            &&& #[trigger] image_loaded(pre.ram, bins[k].image@, base, mem, img)
            &&& match img {
                Err(e) => r == Err::<TaskId, i32>(e),
                Ok(i) => Host::placed(pre, name, base, i, mem, post, r),
            }
        };
    let loaded = img->Ok_0;
    let root = choose|root: Result<PhysAddr, i32>| #[trigger]
        Host::placed_in(pre, name, base, loaded, mem, root, post, r);
    let l = layout(base as int, loaded.image_end as int);
    let (a, b) = (pre.q.sched, post.q.sched);
    let i = choose|i: int| #[trigger]
        first_free(a.slots(), i) && b.slots()[i] is Some && b.slots() == a.slots().update(
            i,
            b.slots()[i],
        ) && is_server_task(b.slots()[i]->0, id, name, loaded.entry, root->Ok_0, l, pre.machine.id);
    i
}

/// A task that is replaced no longer runs.
pub proof fn law_exec_retires_previous(
    pre: Host,
    cpu: int,
    bins: Seq<ServerImage>,
    mem: Seq<u8>,
    post: Host,
    r: i32,
    i: int,
)
    requires
        pre.wf(),
        exec_post(pre, cpu, bins, mem, post, r),
        name_arg(mem) is Some,
        first_named(pre.q.sched.slots(), i, name_arg(mem)->0),
        first_id(pre.q.sched.slots(), i, pre.q.sched.slots()[i]->0.id),
    ensures
        in_state(post.q.sched.slots(), i, TaskState::Zombie),
{
    let name = name_arg(mem)->0;
    let s = pre.q.sched.slots();
    let (mid, res) = choose|mid: Host, res: Result<TaskId, i32>| #[trigger]
        replaced(pre, cpu, bins, name, mid, post, res) && r == spawn_number(res);
    assert(named(s, i, name));
    let j = choose|j: int| #[trigger]
        first_named(s, j, name) && kill_post(pre, mid, cpu, s[j]->0.id, true);
    assert(j == i) by {
        if j < i {
            assert(!named(s, j, name));
        } else if i < j {
            assert(!named(s, i, name));
        }
    }
    let k = choose|k: int| #[trigger]
        first_id(s, k, s[i]->0.id) && mid.q.sched.slots() == s.update(
            k,
            Some(killed(s[k]->0, s[k]->0.ttbr0 != 0 && s[i]->0.id != current_of(s, pre.q.cpus.current(cpu)))),
        );
    assert(k == i) by {
        if k < i {
            assert(!has_id(s, k, s[i]->0.id));
        } else if i < k {
            assert(!has_id(s, i, s[i]->0.id));
        }
    }
    lemma_spawn_keeps(mid, bins, name, post, res, i);
}

/// Starting a server leaves every task as it is.
proof fn lemma_spawn_keeps(
    pre: Host,
    bins: Seq<ServerImage>,
    name: Seq<char>,
    post: Host,
    r: Result<TaskId, i32>,
    i: int,
)
    requires
        Host::spawn_post(pre, bins, name, post, r),
        0 <= i < pre.q.sched.slots().len(),
        pre.q.sched.slots()[i] is Some,
    ensures
        post.q.sched.slots()[i] == pre.q.sched.slots()[i],
{
    match r {
        Ok(id) => {
            let k = lemma_spawn_slot(pre, bins, name, post, id);
            assert(k != i);
        },
        Err(_) => {},
    }
}

} // verus!
