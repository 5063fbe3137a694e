//! Time slicing of guests that share a CPU.
//!
//! The guests take turns.  A guest that uses up its time slice is preempted and resumes
//! later where it stopped; one with nothing to do yields.  Before each turn the kernel
//! posts a message, which the guest echoes.  A guest that announces the end of its work
//! leaves the rotation.

use vstd::prelude::*;
use vstd::utf8::encode_utf8;
use crate::bytes::{le32, le32_bytes, put};
use crate::hypervisor::{HvError, VcpuExit, VmHandle};
use crate::numbers::{decimal, push_decimal};
use crate::mem::ram::Ram;
use crate::mem::PhysAddr;
use crate::text::{name_field, name_text, name_to_str, padded};
use crate::virtio::transport::VirtioTransport;

verus! {

/// Most guests in the rotation.
pub const MAX_TENANTS: usize = 4;

/// Offset of the info block in a guest's shared memory.
pub const VMM_INFO_OFF: u64 = 0x3000;

/// Offset of the guest's number in the info block.
pub const TENANT_ID_OFF: u64 = 0x04;

/// Offset of the guest's state in the info block.
pub const GUEST_STATE_OFF: u64 = 0x10;

/// Marks an info block.
pub const VMM_INFO_MAGIC: u32 = 0x564D_4D49;

pub const GUEST_RUNNING: u32 = 0;

pub const GUEST_WAITING: u32 = 1;

pub const GUEST_PARKED: u32 = 2;

/// A guest in the rotation.
pub struct Tenant {
    pub name: [u8; 16],
    pub handle: VmHandle,
    /// Shared memory of the guest.
    pub shmem_phys: PhysAddr,
    pub transport: VirtioTransport,
    /// Turns.
    pub runs: u64,
    /// Turns that the tick cut short.
    pub preempts: u64,
    /// Turns that the guest ended.
    pub yields: u64,
    /// Turns in which the guest echoed the message.
    pub echoes: u64,
    /// The guest has left the rotation.
    pub parked: bool,
}

impl Tenant {
    /// A guest that has not run.
    pub fn new(
        name: &str,
        handle: VmHandle,
        shmem_phys: PhysAddr,
        transport: VirtioTransport,
    ) -> (t: Self)
        ensures
            t.name@ == padded(encode_utf8(name@), 15, 16),
            t.handle == handle,
            t.shmem_phys == shmem_phys,
            t.transport == transport,
            t.runs == 0,
            t.preempts == 0,
            t.yields == 0,
            t.echoes == 0,
            !t.parked,
    {
        Tenant {
            name: name_field(name, 15),
            handle,
            shmem_phys,
            transport,
            runs: 0,
            preempts: 0,
            yields: 0,
            echoes: 0,
            parked: false,
        }
    }

    /// The name as text.
    pub fn name_str(&self) -> (s: &str)
        ensures
            s@ == name_text(self.name@),
    {
        name_to_str(self.name.as_slice())
    }

    /// The counters can count another turn.
    pub open spec fn countable(self) -> bool {
        self.runs < u64::MAX && self.preempts < u64::MAX && self.yields < u64::MAX && self.echoes
            < u64::MAX
    }

    /// The guest after a turn that ended with `exit`, in which the message was echoed or
    /// not, and after which its state word is `state`.
    pub open spec fn after_turn(self, exit: VcpuExit, echoed: bool, state: u32) -> Self {
        Tenant {
            runs: (self.runs + 1) as u64,
            preempts: if exit == VcpuExit::Preempted {
                (self.preempts + 1) as u64
            } else {
                self.preempts
            },
            yields: if exit == VcpuExit::Yielded {
                (self.yields + 1) as u64
            } else {
                self.yields
            },
            echoes: if echoed {
                (self.echoes + 1) as u64
            } else {
                self.echoes
            },
            parked: self.parked || state == GUEST_PARKED,
            ..self
        }
    }
}

/// The info block of the guest lies in memory.
pub open spec fn has_info(ram: Ram, shmem: u64) -> bool {
    ram.has(shmem + VMM_INFO_OFF, 0x14) && shmem + VMM_INFO_OFF + 0x14 <= u64::MAX
}

/// The state word that a guest published.
pub fn tenant_state(ram: &Ram, shmem_phys: PhysAddr) -> (s: u32)
    requires
        ram.wf(),
        has_info(*ram, shmem_phys),
    ensures
        s == le32(ram@, shmem_phys + VMM_INFO_OFF + GUEST_STATE_OFF - ram.start()),
{
    ram.read32(shmem_phys + VMM_INFO_OFF + GUEST_STATE_OFF)
}

/// Set a guest's state word.
pub fn set_tenant_state(ram: &mut Ram, shmem_phys: PhysAddr, state: u32)
    requires
        old(ram).wf(),
        has_info(*old(ram), shmem_phys),
    ensures
        final(ram).wf(),
        final(ram).start() == old(ram).start(),
        final(ram)@ == put(
            old(ram)@,
            shmem_phys + VMM_INFO_OFF + GUEST_STATE_OFF - old(ram).start(),
            le32_bytes(state),
        ),
        le32(final(ram)@, shmem_phys + VMM_INFO_OFF + GUEST_STATE_OFF - old(ram).start()) == state,
{
    ram.write32(shmem_phys + VMM_INFO_OFF + GUEST_STATE_OFF, state);
}

/// Publish a guest's info block: magic, number, running.
pub fn publish(ram: &mut Ram, shmem_phys: PhysAddr, id: u32)
    requires
        old(ram).wf(),
        has_info(*old(ram), shmem_phys),
    ensures
        final(ram).wf(),
        final(ram).start() == old(ram).start(),
        ({
            let at = shmem_phys + VMM_INFO_OFF - old(ram).start();
            final(ram)@ == put(
                put(
                    put(old(ram)@, at, le32_bytes(VMM_INFO_MAGIC)),
                    at + TENANT_ID_OFF,
                    le32_bytes(id),
                ),
                at + GUEST_STATE_OFF,
                le32_bytes(GUEST_RUNNING),
            )
        }),
{
    ram.write32(shmem_phys + VMM_INFO_OFF, VMM_INFO_MAGIC);
    ram.write32(shmem_phys + VMM_INFO_OFF + TENANT_ID_OFF, id);
    ram.write32(shmem_phys + VMM_INFO_OFF + GUEST_STATE_OFF, GUEST_RUNNING);
}

/// The text of a turn: `T<guest> r<pass>`.
pub open spec fn turn_text(id: nat, pass: nat) -> Seq<u8> {
    seq![0x54u8] + decimal(id) + seq![0x20u8, 0x72u8] + decimal(pass)
}

/// The text of a turn.
pub fn round_text(id: u8, pass: u32) -> (t: Vec<u8>)
    requires
        id < 100,
        pass <= 9999,
    ensures
        t@ == turn_text(id as nat, pass as nat),
{
    let mut t: Vec<u8> = Vec::new();
    t.push(0x54);
    assert(t@ =~= seq![0x54u8]);
    push_decimal(&mut t, id as u64);
    t.push(0x20);
    t.push(0x72);
    assert(t@ =~= seq![0x54u8] + decimal(id as nat) + seq![0x20u8, 0x72u8]);
    push_decimal(&mut t, pass as u64);
    t
}

/// Which guests have left the rotation.
pub open spec fn parked_flags(ts: Seq<Tenant>) -> Seq<bool> {
    Seq::new(ts.len(), |i: int| ts[i].parked)
}

/// Number of guests among the first `n` that have left the rotation.
pub open spec fn parked_count(p: Seq<bool>, n: int) -> nat
    decreases n,
{
    if n <= 0 {
        0
    } else {
        parked_count(p, n - 1) + if p[n - 1] {
            1nat
        } else {
            0
        }
    }
}

/// The guest `k` places after the cursor.
pub open spec fn place(cursor: int, k: int, n: int) -> int {
    if cursor + k < n {
        cursor + k
    } else {
        cursor + k - n
    }
}

/// First guest in the rotation from `k` places after the cursor on; past the end if all
/// have left.
pub open spec fn turn_from(p: Seq<bool>, cursor: int, k: int) -> int
    decreases p.len() - k,
{
    if k >= p.len() {
        p.len() as int
    } else if !p[place(cursor, k, p.len() as int)] {
        place(cursor, k, p.len() as int)
    } else {
        turn_from(p, cursor, k + 1)
    }
}

/// The guest whose turn is next; past the end if all have left.
pub open spec fn turn(p: Seq<bool>, cursor: int) -> int {
    turn_from(p, cursor, 0)
}

/// A turn of a guest.
#[derive(Debug, Clone, Copy, PartialEq, Eq, Structural)]
pub struct Turn {
    pub tenant: usize,
    pub pass: u32,
}

/// Where the rotation stands.  A pass has one turn per guest that has not left.
#[derive(Debug, Clone, Copy, PartialEq, Eq, Structural)]
pub struct Rotation {
    /// Guest that is looked at first for the next turn.
    pub cursor: usize,
    /// Passes begun.
    pub pass: u32,
    /// Turns left in this pass.
    pub left: usize,
    /// Guests that have left.
    pub parked: usize,
    /// Passes at most.
    pub max_passes: u32,
}

impl Rotation {
    /// The rotation matches the guests.
    pub open spec fn wf(self, ts: Seq<Tenant>) -> bool {
        &&& ts.len() > 0 ==> self.cursor < ts.len()
        &&& self.left <= ts.len()
        &&& self.parked == parked_count(parked_flags(ts), ts.len() as int)
        &&& self.pass <= self.max_passes
    }

    /// The rotation before the first turn.
    pub fn new(tenants: &Vec<Tenant>, max_passes: u32) -> (r: Self)
        ensures
            r.wf(tenants@),
            r.cursor == 0,
            r.pass == 0,
            r.left == 0,
            r.max_passes == max_passes,
    {
        let mut parked: usize = 0;
        let mut i: usize = 0;
        while i < tenants.len()
            invariant
                i <= tenants@.len(),
                parked <= i,
                parked == parked_count(parked_flags(tenants@), i as int),
            decreases tenants.len() - i,
        {
            if tenants[i].parked {
                parked = parked + 1;
            }
            i = i + 1;
        }
        Rotation { cursor: 0, pass: 0, left: 0, parked, max_passes }
    }

    /// The next turn and where the rotation stands then.  A pass ends after as many turns
    /// as there are guests that have not left when it begins; the rotation ends when all have
    /// left or after the last pass.
    pub open spec fn step(self, p: Seq<bool>) -> (Self, Option<Turn>) {
        let t = turn(p, self.cursor as int);
        if self.left > 0 && t < p.len() {
            (
                Rotation {
                    cursor: place(t, 1, p.len() as int) as usize,
                    left: (self.left - 1) as usize,
                    ..self
                },
                Some(Turn { tenant: t as usize, pass: self.pass }),
            )
        } else if self.pass >= self.max_passes {
            (Rotation { left: 0, ..self }, None)
        } else if self.parked >= p.len() {
            (Rotation { left: 0, pass: (self.pass + 1) as u32, ..self }, None)
        } else {
            (
                Rotation {
                    cursor: place(t, 1, p.len() as int) as usize,
                    left: (p.len() - self.parked - 1) as usize,
                    pass: (self.pass + 1) as u32,
                    ..self
                },
                Some(Turn { tenant: t as usize, pass: (self.pass + 1) as u32 }),
            )
        }
    }

    fn find_turn(&self, tenants: &Vec<Tenant>) -> (t: usize)
        requires
            self.cursor < tenants@.len(),
        ensures
            t == turn(parked_flags(tenants@), self.cursor as int),
            t <= tenants@.len(),
            t < tenants@.len() ==> !tenants@[t as int].parked,
    {
        let n: usize = tenants.len();
        let ghost p = parked_flags(tenants@);
        let mut k: usize = 0;
        let mut i: usize = self.cursor;
        while k < n
            invariant
                n == tenants@.len(),
                p == parked_flags(tenants@),
                self.cursor < n,
                k <= n,
                i < n,
                k < n ==> i == place(self.cursor as int, k as int, n as int),
                turn(p, self.cursor as int) == turn_from(p, self.cursor as int, k as int),
            decreases n - k,
        {
            if !tenants[i].parked {
                return i;
            }
            k = k + 1;
            i = if i + 1 < n {
                i + 1
            } else {
                0
            };
        }
        n
    }

    /// Whose turn is next; `None` when the rotation has ended.
    pub fn next_turn(&mut self, tenants: &Vec<Tenant>) -> (r: Option<Turn>)
        requires
            old(self).wf(tenants@),
        ensures
            final(self).wf(tenants@),
            (*final(self), r) == old(self).step(parked_flags(tenants@)),
            match r {
                Some(t) => t.tenant < tenants@.len() && !tenants@[t.tenant as int].parked && t.pass
                    <= old(self).max_passes,
                None => true,
            },
    {
        let n: usize = tenants.len();
        let ghost p = parked_flags(tenants@);
        if n == 0 {
            self.left = 0;
            if self.pass < self.max_passes {
                self.pass = self.pass + 1;
            }
            return None;
        }
        let t: usize = self.find_turn(tenants);
        let after: usize = if t < n - 1 {
            t + 1
        } else {
            0
        };
        if self.left > 0 && t < n {
            self.left = self.left - 1;
            self.cursor = after;
            return Some(Turn { tenant: t, pass: self.pass });
        }
        if self.pass >= self.max_passes {
            self.left = 0;
            return None;
        }
        self.pass = self.pass + 1;
        if self.parked >= n {
            self.left = 0;
            return None;
        }
        proof {
            lemma_turn_exists(p, self.cursor as int);
        }
        self.left = n - self.parked - 1;
        self.cursor = after;
        Some(Turn { tenant: t, pass: self.pass })
    }

    /// Account for a turn: how the run ended, whether the message was echoed, and the state
    /// word of the guest.  A run that failed ends the rotation with its error.
    pub fn finish_turn(
        &mut self,
        tenants: &mut Vec<Tenant>,
        tenant: usize,
        exit: Result<VcpuExit, HvError>,
        echoed: bool,
        state: u32,
    ) -> (r: Result<(), HvError>)
        requires
            old(self).wf(old(tenants)@),
            tenant < old(tenants)@.len(),
            old(tenants)@[tenant as int].countable(),
        ensures
            final(self).wf(final(tenants)@),
            match exit {
                Ok(e) => {
                    &&& r is Ok
                    &&& final(tenants)@ == old(tenants)@.update(
                        tenant as int,
                        old(tenants)@[tenant as int].after_turn(e, echoed, state),
                    )
                    &&& *final(self) == (Rotation { parked: final(self).parked, ..*old(self) })
                },
                Err(e) => {
                    &&& r == Err::<(), HvError>(e)
                    &&& final(tenants)@ == old(tenants)@
                    &&& *final(self) == *old(self)
                },
            },
    {
        let e: VcpuExit = match exit {
            Ok(e) => e,
            Err(e) => {
                return Err(e);
            },
        };
        let n: usize = tenants.len();
        let ghost pre = tenants@;
        let t = &mut tenants[tenant];
        match e {
            VcpuExit::Preempted => {
                t.preempts = t.preempts + 1;
            },
            VcpuExit::Yielded => {
                t.yields = t.yields + 1;
            },
            _ => {},
        }
        t.runs = t.runs + 1;
        if echoed {
            t.echoes = t.echoes + 1;
        }
        let parks: bool = state == GUEST_PARKED && !t.parked;
        if parks {
            t.parked = true;
        }
        proof {
            lemma_count_bound(parked_flags(pre), pre.len() as int);
            lemma_count_set(parked_flags(pre), tenant as int, pre.len() as int);
            let q = pre[tenant as int].after_turn(e, echoed, state);
            assert(tenants@ =~= pre.update(tenant as int, q));
            assert(parked_flags(tenants@) =~= parked_flags(pre).update(
                tenant as int,
                q.parked,
            ));
            assert(parked_flags(pre).update(tenant as int, parked_flags(pre)[tenant as int])
                =~= parked_flags(pre));
        }
        assert(parks ==> !parked_flags(pre)[tenant as int]);
        if parks {
            self.parked = self.parked + 1;
        }
        Ok(())
    }
}

proof fn lemma_count_bound(p: Seq<bool>, n: int)
    requires
        0 <= n <= p.len(),
    ensures
        parked_count(p, n) <= n,
        parked_count(p, n) < n ==> exists|i: int| 0 <= i < n && !#[trigger] p[i],
        forall|i: int| 0 <= i < n && !#[trigger] p[i] ==> parked_count(p, n) < n,
    decreases n,
{
    if n > 0 {
        lemma_count_bound(p, n - 1);
        if parked_count(p, n) < n && p[n - 1] {
            let i = choose|i: int| 0 <= i < n - 1 && !#[trigger] p[i];
            assert(0 <= i < n && !p[i]);
        }
        if !p[n - 1] {
            assert(0 <= n - 1 < n && !p[n - 1]);
        }
    }
}

proof fn lemma_count_set(p: Seq<bool>, i: int, n: int)
    requires
        0 <= i < p.len(),
        0 <= n <= p.len(),
    ensures
        parked_count(p.update(i, true), n) == parked_count(p, n) + if i < n && !p[i] {
            1int
        } else {
            0
        },
    decreases n,
{
    if n > 0 {
        lemma_count_set(p, i, n - 1);
    }
}

proof fn lemma_turn_from(p: Seq<bool>, cursor: int, k: int, j: int)
    requires
        0 <= cursor < p.len(),
        0 <= k <= j < p.len(),
        !p[place(cursor, j, p.len() as int)],
    ensures
        exists|m: int|
            k <= m <= j && turn_from(p, cursor, k) == #[trigger] place(cursor, m, p.len() as int)
                && !p[place(cursor, m, p.len() as int)],
    decreases j - k,
{
    if !p[place(cursor, k, p.len() as int)] {
    } else {
        lemma_turn_from(p, cursor, k + 1, j);
    }
}

proof fn lemma_turn_exists(p: Seq<bool>, cursor: int)
    requires
        0 <= cursor < p.len(),
        parked_count(p, p.len() as int) < p.len(),
    ensures
        0 <= turn(p, cursor) < p.len(),
        !p[turn(p, cursor)],
{
    lemma_count_bound(p, p.len() as int);
    let i = choose|i: int| 0 <= i < p.len() && !#[trigger] p[i];
    let k = if i >= cursor {
        i - cursor
    } else {
        i + p.len() - cursor
    };
    assert(place(cursor, k, p.len() as int) == i);
    lemma_turn_from(p, cursor, 0, k);
}

/// Distance from the cursor to guest `j`, in turns.
pub open spec fn distance(cursor: int, j: int, n: int) -> int {
    if j >= cursor {
        j - cursor
    } else {
        j + n - cursor
    }
}

/// No guest starves: at each turn a guest in the rotation either has the turn or comes
/// nearer to it.
pub proof fn law_no_tenant_starves(p: Seq<bool>, cursor: int, j: int)
    requires
        0 <= cursor < p.len(),
        0 <= j < p.len(),
        !p[j],
    ensures
        ({
            let t = turn(p, cursor);
            &&& 0 <= t < p.len()
            &&& t == j || distance(place(t, 1, p.len() as int), j, p.len() as int) < distance(
                cursor,
                j,
                p.len() as int,
            )
        }),
{
    let n = p.len() as int;
    let k = distance(cursor, j, n);
    assert(place(cursor, k, n) == j);
    lemma_turn_from(p, cursor, 0, k);
}

/// Only guests in the rotation get a turn.
pub proof fn law_parked_tenants_stay_out(p: Seq<bool>, cursor: int, j: int)
    requires
        0 <= cursor < p.len(),
        0 <= j < p.len(),
        !p[j],
    ensures
        !p[turn(p, cursor)],
{
    let n = p.len() as int;
    let k = distance(cursor, j, n);
    assert(place(cursor, k, n) == j);
    lemma_turn_from(p, cursor, 0, k);
}

/// Number of guests that have not left among those from `s` places after `c` on, once
/// around.
pub open spec fn waiting(p: Seq<bool>, c: int, s: int) -> nat
    decreases p.len() - s,
{
    if s >= p.len() {
        0
    } else {
        waiting(p, c, s + 1) + if p[place(c, s, p.len() as int)] {
            0nat
        } else {
            1
        }
    }
}

/// The pass that began at guest `c` has come `s` places far, and every guest from there on
/// that has not left still has its turn.
pub open spec fn passed(r: Rotation, p: Seq<bool>, c: int, s: int) -> bool {
    &&& 0 <= c < p.len()
    &&& 0 <= s <= p.len()
    &&& r.cursor == place(c, s, p.len() as int)
    &&& r.left == waiting(p, c, s)
}

/// The first guest that still waits.
proof fn lemma_first_waiting(p: Seq<bool>, c: int, s: int) -> (d: int)
    requires
        0 <= s,
        waiting(p, c, s) > 0,
    ensures
        s <= d < p.len(),
        !p[place(c, d, p.len() as int)],
        forall|k: int| s <= k < d ==> p[#[trigger] place(c, k, p.len() as int)],
        waiting(p, c, s) == waiting(p, c, d + 1) + 1,
    decreases p.len() - s,
{
    if !p[place(c, s, p.len() as int)] {
        s
    } else {
        lemma_first_waiting(p, c, s + 1)
    }
}

/// The turn goes to the guest `m` places after the cursor if those before it have left.
proof fn lemma_turn_is(p: Seq<bool>, cursor: int, k: int, m: int)
    requires
        0 <= k <= m < p.len(),
        !p[place(cursor, m, p.len() as int)],
        forall|j: int| k <= j < m ==> p[#[trigger] place(cursor, j, p.len() as int)],
    ensures
        turn_from(p, cursor, k) == place(cursor, m, p.len() as int),
    decreases m - k,
{
    if k < m {
        assert(p[place(cursor, k, p.len() as int)]);
        lemma_turn_is(p, cursor, k + 1, m);
    }
}

/// Where the next turn goes: the same place, counted from `c` or from the cursor.
proof fn lemma_next_waiting(p: Seq<bool>, c: int, s: int) -> (d: int)
    requires
        0 <= c < p.len(),
        0 <= s <= p.len(),
        waiting(p, c, s) > 0,
    ensures
        s <= d < p.len(),
        !p[place(c, d, p.len() as int)],
        forall|k: int| s <= k < d ==> p[#[trigger] place(c, k, p.len() as int)],
        waiting(p, c, s) == waiting(p, c, d + 1) + 1,
        turn(p, place(c, s, p.len() as int)) == place(c, d, p.len() as int),
{
    let n = p.len() as int;
    let d = lemma_first_waiting(p, c, s);
    let cursor = place(c, s, n);
    assert(place(cursor, d - s, n) == place(c, d, n));
    assert forall|j: int| 0 <= j < d - s implies p[#[trigger] place(cursor, j, n)] by {
        assert(place(cursor, j, n) == place(c, s + j, n));
    }
    lemma_turn_is(p, cursor, 0, d - s);
    d
}

/// Guests that have left and guests that wait are all there are.
proof fn lemma_waiting_count(p: Seq<bool>, c: int, s: int)
    requires
        0 <= c < p.len(),
        0 <= s <= p.len(),
    ensures
        s >= p.len() - c ==> waiting(p, c, s) == p.len() - s - parked_count(p, c) + parked_count(
            p,
            c + s - p.len(),
        ),
        s <= p.len() - c ==> waiting(p, c, s) == p.len() - s - parked_count(p, p.len() as int)
            + parked_count(p, c + s) - parked_count(p, c),
    decreases p.len() - s,
{
    let n = p.len() as int;
    assert(parked_count(p, 0) == 0);
    if s < n {
        lemma_waiting_count(p, c, s + 1);
        let i = place(c, s, n);
        assert(parked_count(p, i + 1) == parked_count(p, i) + if p[i] {
            1int
        } else {
            0
        });
        if s == n - c {
            assert(c + s == n);
        } else if s < n - c {
            assert(c + (s + 1) == i + 1);
        }
    } else if s <= n - c {
        assert(c == 0 && c + s == n);
    }
}

/// A pass begins with a turn for every guest that has not left: the first of them takes it,
/// the others wait.
pub proof fn law_pass_begins(r: Rotation, p: Seq<bool>) -> (d: int)
    requires
        r.cursor < p.len() <= usize::MAX,
        r.parked == parked_count(p, p.len() as int),
        r.parked < p.len(),
        r.left == 0,
        r.pass < r.max_passes,
    ensures
        ({
            let n = p.len() as int;
            let (q, t) = r.step(p);
            &&& 0 <= d < n
            &&& t == Some(Turn { tenant: place(r.cursor as int, d, n) as usize, pass: q.pass })
            &&& q.pass == r.pass + 1
            &&& forall|k: int| 0 <= k < d ==> p[#[trigger] place(r.cursor as int, k, n)]
            &&& passed(q, p, r.cursor as int, d + 1)
        }),
{
    let n = p.len() as int;
    let c = r.cursor as int;
    lemma_waiting_count(p, c, 0);
    let d = lemma_next_waiting(p, c, 0);
    assert(place(place(c, d, n), 1, n) == place(c, d + 1, n));
    d
}

/// Each turn of a pass goes to the next guest that has not left, and no guest gets a second
/// one: the pass only moves forward.
pub proof fn law_one_turn_per_pass(r: Rotation, p: Seq<bool>, c: int, s: int) -> (d: int)
    requires
        p.len() <= usize::MAX,
        passed(r, p, c, s),
        r.left > 0,
    ensures
        ({
            let n = p.len() as int;
            let (q, t) = r.step(p);
            &&& s <= d < n
            &&& t == Some(Turn { tenant: place(c, d, n) as usize, pass: r.pass })
            &&& forall|k: int| s <= k < d ==> p[#[trigger] place(c, k, n)]
            &&& q.pass == r.pass
            &&& passed(q, p, c, d + 1)
        }),
{
    let n = p.len() as int;
    let d = lemma_next_waiting(p, c, s);
    assert(place(place(c, d, n), 1, n) == place(c, d + 1, n));
    d
}

/// A pass that has no turn left has served everyone.
pub proof fn law_pass_skips_nobody(r: Rotation, p: Seq<bool>, c: int, s: int, k: int)
    requires
        passed(r, p, c, s),
        r.left == 0,
        s <= k < p.len(),
    ensures
        p[place(c, k, p.len() as int)],
{
    lemma_none_waiting(p, c, s, k);
}

proof fn lemma_none_waiting(p: Seq<bool>, c: int, s: int, k: int)
    requires
        waiting(p, c, s) == 0,
        0 <= s <= k < p.len(),
    ensures
        p[place(c, k, p.len() as int)],
    decreases k - s,
{
    if s < k {
        lemma_none_waiting(p, c, s + 1, k);
    }
}

/// A guest that leaves after its turn takes none from the others.
pub proof fn law_parking_costs_no_turn(p: Seq<bool>, c: int, d: int, s: int)
    requires
        0 <= c < p.len(),
        0 <= d < s,
        d < p.len(),
    ensures
        waiting(p.update(place(c, d, p.len() as int), true), c, s) == waiting(p, c, s),
    decreases p.len() - s,
{
    if s < p.len() {
        law_parking_costs_no_turn(p, c, d, s + 1);
        assert(place(c, s, p.len() as int) != place(c, d, p.len() as int));
    }
}

/// The turn goes to the first guest at or after the cursor, going upwards and round, that has
/// not left; the cursor moves on to the place behind it, and the pass has one turn less.
pub proof fn law_turn_goes_round(r: Rotation, p: Seq<bool>, j: int)
    requires
        r.cursor < p.len() <= usize::MAX,
        r.left > 0,
        0 <= j < p.len(),
        !p[j],
    ensures
        ({
            let n = p.len() as int;
            let (q, t) = r.step(p);
            let steps = |i: int|
                if i >= r.cursor {
                    i - r.cursor
                } else {
                    i + n - r.cursor
                };
            &&& t is Some
            &&& t->0.tenant < n
            &&& !p[t->0.tenant as int]
            &&& steps(t->0.tenant as int) <= steps(j)
            &&& t->0.pass == r.pass
            &&& q.pass == r.pass
            &&& q.left == r.left - 1
            &&& q.cursor == if t->0.tenant + 1 < n {
                t->0.tenant + 1
            } else {
                0
            }
            &&& q.parked == r.parked
            &&& q.max_passes == r.max_passes
        }),
{
    let n = p.len() as int;
    law_no_tenant_starves(p, r.cursor as int, j);
    law_parked_tenants_stay_out(p, r.cursor as int, j);
}

/// Behind the last turn of a pass the next pass begins; behind the last pass, and once all
/// guests have left, there is no turn any more.
pub proof fn law_passes_end(r: Rotation, p: Seq<bool>)
    requires
        r.left == 0,
        r.pass <= r.max_passes,
        p.len() <= usize::MAX,
    ensures
        ({
            let (q, t) = r.step(p);
            &&& r.pass == r.max_passes || r.parked >= p.len() ==> t is None && q.left == 0
            &&& r.pass < r.max_passes ==> q.pass == r.pass + 1
            &&& r.pass == r.max_passes ==> q.pass == r.pass
            &&& r.pass < r.max_passes && r.parked < p.len() ==> t is Some && t->0.pass == r.pass + 1
                && q.left == p.len() - r.parked - 1
        }),
{
}

/// A turn counts as one run, and as one preemption or one yield by how it ended; an answer
/// counts once; a guest that parked itself stays parked.
pub proof fn law_turn_is_counted(t: Tenant, exit: VcpuExit, echoed: bool, state: u32)
    requires
        t.countable(),
    ensures
        ({
            let u = t.after_turn(exit, echoed, state);
            &&& u.runs == t.runs + 1
            &&& exit == VcpuExit::Preempted ==> u.preempts == t.preempts + 1 && u.yields == t.yields
            &&& exit == VcpuExit::Yielded ==> u.yields == t.yields + 1 && u.preempts == t.preempts
            &&& exit != VcpuExit::Preempted && exit != VcpuExit::Yielded ==> u.yields == t.yields
                && u.preempts == t.preempts
            &&& echoed ==> u.echoes == t.echoes + 1
            &&& !echoed ==> u.echoes == t.echoes
            &&& u.parked <==> t.parked || state == 2
            &&& u.handle == t.handle
            &&& u.name == t.name
            &&& u.shmem_phys == t.shmem_phys
            &&& u.transport == t.transport
        }),
{
}

/// The number of guests that have left counts each once.
pub proof fn law_parked_are_counted(p: Seq<bool>, n: int)
    requires
        0 <= n < p.len(),
    ensures
        parked_count(p, 0) == 0,
        p[n] ==> parked_count(p, n + 1) == parked_count(p, n) + 1,
        !p[n] ==> parked_count(p, n + 1) == parked_count(p, n),
{
}

/// The text of a turn is `T`, the guest's number, a space, `r` and the pass.
pub proof fn law_text_of_turn(id: nat, pass: nat)
    requires
        id < 10,
        pass < 10,
    ensures
        turn_text(id, pass).len() == 5,
        turn_text(id, pass)[0] == 84,
        turn_text(id, pass)[1] == 48 + id,
        turn_text(id, pass)[2] == 32,
        turn_text(id, pass)[3] == 114,
        turn_text(id, pass)[4] == 48 + pass,
{
}

/// A guest's block of information is 20 bytes, 12288 bytes into its shared memory.
pub proof fn law_block_of_guest(ram: Ram, shmem: u64)
    requires
        ram.wf(),
    ensures
        has_info(ram, shmem) <==> ram.start() <= shmem + 12288 && shmem + 12308 <= ram.start()
            + ram@.len(),
        VMM_INFO_MAGIC == 0x564D_4D49,
        GUEST_RUNNING == 0 && GUEST_WAITING == 1 && GUEST_PARKED == 2,
{
}

} // verus!
