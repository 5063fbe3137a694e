//! AArch64 4-level page tables (VA[47:0], 4 KiB granule).
//!
//! Table hierarchy:
//!   Level 0 (PGD): VA[47:39], 512 GiB per entry
//!   Level 1 (PUD): VA[38:30],   1 GiB per entry
//!   Level 2 (PMD): VA[29:21],   2 MiB per entry
//!   Level 3 (PTE): VA[20:12],   4 KiB per entry
//!
//! Each table is one 4 KiB frame of 512 entries.  [`TableSpace`] is the DRAM
//! window seen as frames of words; a frame becomes a table when it is linked
//! under a root.  Contracts speak of how a root maps an address
//! ([`Tables::leaf`]), not of the frames in between.

use vstd::prelude::*;
use crate::mem::tables::{
    idx, is_table, same_block, same_page, same_prefix, valid, zero_frame, Tables, ADDR_MASK,
};
use crate::mem::frame::FrameAllocator;
use crate::mem::{PhysAddr, VirtAddr, PAGE_SIZE};

verus! {

/// Bit 0: valid descriptor.
pub const DESC_VALID: u64 = 0x1;

/// Bit 1: table descriptor when set above level 3; block descriptor when clear.
pub const DESC_TABLE: u64 = 0x2;

/// Bit 1: page descriptor at level 3.
pub const DESC_PAGE: u64 = 0x2;

/// Access flag.
pub const DESC_AF: u64 = 0x400;

/// Inner shareable.
pub const DESC_SH_INNER: u64 = 0x300;

/// Read/write at EL1, no access at EL0.
pub const DESC_AP_RW_EL1: u64 = 0x0;

/// Read-only at EL1, no access at EL0.
pub const DESC_AP_RO_EL1: u64 = 0x80;

/// Read/write at EL1 and EL0.
pub const DESC_AP_RW_EL0: u64 = 0x40;

/// Execute-never at EL0.
pub const DESC_UXN: u64 = 0x40_0000_0000_0000;

/// Execute-never at EL1.
pub const DESC_PXN: u64 = 0x20_0000_0000_0000;

/// Memory attribute index 0: Normal WB/WA.
pub const ATTR_NORMAL: u64 = 0x0;

/// Memory attribute index 1: Device-nGnRnE.
pub const ATTR_DEVICE: u64 = 0x4;

/// Normal kernel page.
pub const FLAGS_KERNEL_RWX: u64 = DESC_VALID | DESC_PAGE | DESC_AF | DESC_SH_INNER | DESC_AP_RW_EL1
    | ATTR_NORMAL;

/// Read-only, non-executable kernel page.
pub const FLAGS_KERNEL_RO: u64 = FLAGS_KERNEL_RWX | DESC_AP_RO_EL1 | DESC_PXN | DESC_UXN;

/// Device MMIO page: non-executable, non-cacheable.
pub const FLAGS_DEVICE: u64 = DESC_VALID | DESC_PAGE | DESC_AF | DESC_AP_RW_EL1 | DESC_UXN | DESC_PXN
    | ATTR_DEVICE;

/// Normal (WB/WA cacheable) 2 MiB block, read/write at EL1.
pub const FLAGS_BLOCK_NORMAL: u64 = DESC_VALID | DESC_AF | DESC_SH_INNER | DESC_AP_RW_EL1
    | ATTR_NORMAL;

/// Device-nGnRnE 2 MiB block (non-executable).
pub const FLAGS_BLOCK_DEVICE: u64 = DESC_VALID | DESC_AF | DESC_AP_RW_EL1 | DESC_UXN | DESC_PXN
    | ATTR_DEVICE;

/// Normal 4 KiB page, read/write at EL1 and EL0, executable by EL0.
pub const FLAGS_USER_RWX: u64 = DESC_VALID | DESC_PAGE | DESC_AF | DESC_SH_INNER | DESC_AP_RW_EL0
    | ATTR_NORMAL;

/// Device-nGnRnE 4 KiB page, read/write at EL1 and EL0, non-executable.
pub const FLAGS_USER_DEVICE: u64 = DESC_VALID | DESC_PAGE | DESC_AF | DESC_AP_RW_EL0 | DESC_UXN
    | DESC_PXN | ATTR_DEVICE;

/// Bytes covered by one level-2 block.
pub const BLOCK_SIZE: u64 = 0x20_0000;

/// End of the 48-bit address space.
pub const VA_LIMIT: u64 = 0x1_0000_0000_0000;

/// Bit facts on descriptors.
pub proof fn lemma_desc(p: u64, x: u64, y: u64)
    by (bit_vector)
    ensures
        p % 4096 == 0 && p < 0x1_0000_0000_0000 ==> (p | 1 | 2) & 0x0000_FFFF_FFFF_F000 == p,
        (p | 1 | 2) & 1 != 0,
        (p | 1 | 2) & 2 != 0,
        x & 2 == 0 && y & 2 == 0 ==> (x | y) & 2 == 0,
        p % 0x20_0000 == 0 ==> p & 2 == 0,
        ((x & 0x0000_FFFF_FFFF_F000) | y) & 2 == y & 2,
        0u64 & 1 == 0,
{
}

/// How the table indices divide an address.
pub proof fn lemma_idx(va: u64)
    by (bit_vector)
    ensures
        (va >> 39u64) & 0x1FF == (va / 0x80_0000_0000) % 512,
        (va >> 30u64) & 0x1FF == (va / 0x4000_0000) % 512,
        (va >> 21u64) & 0x1FF == (va / 0x20_0000) % 512,
        (va >> 12u64) & 0x1FF == (va / 0x1000) % 512,
        (va % 0x1_0000_0000_0000) / 0x1000 == ((va / 0x80_0000_0000) % 512) * 0x800_0000 + ((va
            / 0x4000_0000) % 512) * 0x4_0000 + ((va / 0x20_0000) % 512) * 0x200 + ((va / 0x1000)
            % 512),
        (va % 0x1_0000_0000_0000) / 0x20_0000 == ((va / 0x80_0000_0000) % 512) * 0x4_0000 + ((va
            / 0x4000_0000) % 512) * 0x200 + ((va / 0x20_0000) % 512),
        (va % 0x1_0000_0000_0000) / 0x4000_0000 == ((va / 0x80_0000_0000) % 512) * 0x200 + ((va
            / 0x4000_0000) % 512),
        (va % 0x1_0000_0000_0000) / 0x80_0000_0000 == (va / 0x80_0000_0000) % 512,
{
}

/// Start of the page of the 48-bit address space that holds `va`.
#[verifier::opaque]
pub open spec fn page_of(va: u64) -> int {
    (va as int % 0x1_0000_0000_0000) / 0x1000 * 0x1000
}

/// Start of the 2 MiB block of the 48-bit address space that holds `va`.
#[verifier::opaque]
pub open spec fn block_of(va: u64) -> int {
    (va as int % 0x1_0000_0000_0000) / 0x20_0000 * 0x20_0000
}

/// Bytes that one level-`k - 1` entry covers.
pub open spec fn span(k: int) -> int {
    if k == 1 {
        0x80_0000_0000
    } else if k == 2 {
        0x4000_0000
    } else if k == 3 {
        0x20_0000
    } else {
        0x1000
    }
}

/// Sharing the first `k` indices is lying in the same range of `span(k)` bytes.
pub proof fn lemma_prefix(va: u64, vb: u64, k: int)
    requires
        1 <= k <= 4,
    ensures
        same_prefix(va, vb, k) <==> (va as int % 0x1_0000_0000_0000) / span(k) == (vb as int
            % 0x1_0000_0000_0000) / span(k),
{
    lemma_idx(va);
    lemma_idx(vb);
}

pub proof fn lemma_same_page(va: u64, vb: u64)
    ensures
        same_page(va, vb) <==> page_of(va) == page_of(vb),
        same_block(va, vb) <==> block_of(va) == block_of(vb),
        va < VA_LIMIT && va % 4096 == 0 ==> page_of(va) == va,
        va < VA_LIMIT && va % 0x20_0000 == 0 ==> block_of(va) == va,
        page_of(va) == block_of(va) + 0x1000 * idx(va, 3),
        0 <= idx(va, 3) < 512,
        block_of(va) <= page_of(va) < block_of(va) + 0x20_0000,
        page_of(va) % 0x1000 == 0,
        block_of(va) % 0x20_0000 == 0,
        0 <= page_of(va) < VA_LIMIT,
        0 <= block_of(va) < VA_LIMIT,
{
    reveal(page_of);
    reveal(block_of);
    lemma_prefix(va, vb, 4);
    lemma_prefix(va, vb, 3);
    lemma_idx(va);
}

/// A single page-table level: 512 entries of 8 bytes.
pub struct PageTable {
    entries: [u64; 512],
}

impl View for PageTable {
    type V = Seq<u64>;

    closed spec fn view(&self) -> Seq<u64> {
        self.entries@
    }
}

impl PageTable {
    /// A table has 512 entries.
    pub proof fn lemma_len(&self)
        ensures
            self@.len() == 512,
    {
    }

    /// A table of empty entries.
    pub fn empty() -> (t: Self)
        ensures
            t@ == zero_frame(),
    {
        let t = Self { entries: [0u64;512] };
        assert(t@ =~= zero_frame());
        t
    }

    /// Clear every entry.
    pub fn zero(&mut self)
        ensures
            final(self)@ == zero_frame(),
    {
        self.entries = [0u64;512];
        assert(self@ =~= zero_frame());
    }

    /// Entry `idx`.
    pub fn entry(&self, idx: usize) -> (e: u64)
        requires
            idx < 512,
        ensures
            e == self@[idx as int],
    {
        self.entries[idx]
    }

    /// Replace entry `idx`.
    pub fn set_entry(&mut self, idx: usize, val: u64)
        requires
            idx < 512,
        ensures
            final(self)@ == old(self)@.update(idx as int, val),
    {
        self.entries[idx] = val;
    }

    /// Make this table a copy of `other`.
    pub fn copy_from(&mut self, other: &PageTable)
        ensures
            final(self)@ == other@,
    {
        self.entries = other.entries;
    }
}

/// Index into the level-0 table.
pub fn l0_idx(va: VirtAddr) -> (i: usize)
    ensures
        i == idx(va, 0),
        i < 512,
{
    proof {
        lemma_idx(va);
    }
    ((va >> 39) & 0x1FF) as usize
}

/// Index into the level-1 table.
pub fn l1_idx(va: VirtAddr) -> (i: usize)
    ensures
        i == idx(va, 1),
        i < 512,
{
    proof {
        lemma_idx(va);
    }
    ((va >> 30) & 0x1FF) as usize
}

/// Index into the level-2 table.
pub fn l2_idx(va: VirtAddr) -> (i: usize)
    ensures
        i == idx(va, 2),
        i < 512,
{
    proof {
        lemma_idx(va);
    }
    ((va >> 21) & 0x1FF) as usize
}

/// Index into the level-3 table.
pub fn l3_idx(va: VirtAddr) -> (i: usize)
    ensures
        i == idx(va, 3),
        i < 512,
{
    proof {
        lemma_idx(va);
    }
    ((va >> 12) & 0x1FF) as usize
}

/// Mark of a frame that holds no table.
const NO_TABLE: u8 = 4;

/// Levels of the tables by frame, where `marks` holds a level or [`NO_TABLE`] for each of the
/// first frames and the others hold no table.
spec fn levels_of(marks: Seq<u8>) -> Map<int, int> {
    Map::new(|f: int| 0 <= f < marks.len() && marks[f] < NO_TABLE, |f: int| marks[f] as int)
}

/// The frames of the DRAM window, the tables among them and the kernel's root.
pub struct TableSpace {
    base: PhysAddr,
    frames: Vec<PageTable>,
    kernel_l0: PhysAddr,
    marks: Vec<u8>,
}

impl View for TableSpace {
    type V = Tables;

    closed spec fn view(&self) -> Tables {
        Tables {
            base: self.base as int,
            mem: Seq::new(self.frames@.len(), |f: int| self.frames@[f]@),
            levels: levels_of(self.marks@),
        }
    }
}

/// Mark frame `f` as a table of level `l`, or as none.
fn set_mark(marks: &mut Vec<u8>, f: usize, l: u8)
    requires
        f < usize::MAX,
    ensures
        levels_of(final(marks)@) == if l < NO_TABLE {
            levels_of(old(marks)@).insert(f as int, l as int)
        } else {
            levels_of(old(marks)@).remove(f as int)
        },
{
    let ghost m = levels_of(marks@);
    while marks.len() <= f
        invariant
            f < usize::MAX,
            levels_of(marks@) == m,
        decreases f + 1 - marks@.len(),
    {
        marks.push(NO_TABLE);
        assert(levels_of(marks@) =~= m);
    }
    marks.set(f, l);
    assert(levels_of(marks@) =~= if l < NO_TABLE {
        m.insert(f as int, l as int)
    } else {
        m.remove(f as int)
    });
}

impl TableSpace {
    /// Address of the kernel's root table.
    pub closed spec fn kernel_root(self) -> int {
        self.kernel_l0 as int
    }

    /// The tables form disjoint trees, one of them the kernel's.
    pub open spec fn wf(self) -> bool {
        self@.wf() && self@.is_root(self.kernel_root())
    }

    /// `a` manages the same window and has every live table in use.
    pub open spec fn backed(self, a: FrameAllocator) -> bool {
        backed(self@, a)
    }

    /// The window that `frames` make up at `base`, with an empty kernel root.
    pub fn over(base: PhysAddr, frames: Vec<PageTable>, kernel_l0: PhysAddr) -> (s: Self)
        requires
            base % 4096 == 0,
            base + 4096 * frames@.len() <= VA_LIMIT,
            base <= kernel_l0 < base + 4096 * frames@.len(),
            kernel_l0 % 4096 == 0,
        ensures
            s.wf(),
            s.kernel_root() == kernel_l0,
            s@.base == base,
            s@.n() == frames@.len(),
            s@.levels == Map::<int, int>::empty().insert(s@.frame(kernel_l0 as int), 0),
            forall|f: int|
                0 <= f < frames@.len() ==> #[trigger] s@.mem[f] == if f == s@.frame(
                    kernel_l0 as int,
                ) {
                    zero_frame()
                } else {
                    frames@[f]@
                },
            forall|va: u64| #[trigger] s@.leaf(kernel_l0 as int, va) is None,
    {
        let mut frames = frames;
        assert(frames.len() == frames@.len());
        let k: usize = ((kernel_l0 - base) / PAGE_SIZE) as usize;
        frames[k].zero();
        let mut marks: Vec<u8> = Vec::new();
        assert(levels_of(marks@) =~= Map::<int, int>::empty());
        set_mark(&mut marks, k, 0);
        let s = TableSpace { base, frames, kernel_l0, marks };
        proof {
            let t = s@;
            let k = t.frame(kernel_l0 as int);
            lemma_desc(0, 0, 0);
            assert(t.mem[k] == zero_frame());
            assert forall|f: int, j: int| !#[trigger] t.link(f, j) by {
                if t.live(f) && 0 <= j < 512 {
                    assert(f == k);
                    assert(t.entry(f, j) == 0);
                }
            }
            assert forall|f: int, j: int|
                t.live(f) && t.levels[f] < 2 && 0 <= j < 512 && valid(
                    #[trigger] t.entry(f, j),
                ) implies is_table(t.entry(f, j)) by {
                assert(f == k);
                assert(t.entry(f, j) == 0);
            }
            assert forall|va: u64| #[trigger] t.leaf(kernel_l0 as int, va) is None by {
                reveal_with_fuel(Tables::reach_from, 4);
                assert(0 <= idx(va, 0) < 512);
                assert(t.entry(k, idx(va, 0)) == 0);
            }
        }
        s
    }

    /// A window of `n` zeroed frames at `base` with an empty kernel root.
    pub fn new(base: PhysAddr, n: usize, kernel_l0: PhysAddr) -> (s: Self)
        requires
            base % 4096 == 0,
            base + 4096 * n <= VA_LIMIT,
            base <= kernel_l0 < base + 4096 * n,
            kernel_l0 % 4096 == 0,
        ensures
            s.wf(),
            s.kernel_root() == kernel_l0,
            s@.base == base,
            s@.n() == n,
            s@.levels == Map::<int, int>::empty().insert(s@.frame(kernel_l0 as int), 0),
            forall|f: int| 0 <= f < n ==> #[trigger] s@.mem[f] == zero_frame(),
            forall|va: u64| #[trigger] s@.leaf(kernel_l0 as int, va) is None,
    {
        let mut frames: Vec<PageTable> = Vec::new();
        let mut i: usize = 0;
        while i < n
            invariant
                i <= n,
                frames@.len() == i,
                forall|f: int| 0 <= f < i ==> #[trigger] frames@[f]@ == zero_frame(),
            decreases n - i,
        {
            frames.push(PageTable::empty());
            i = i + 1;
        }
        Self::over(base, frames, kernel_l0)
    }

    /// True if `a` is the address of a frame of the window.
    pub fn contains_frame(&self, a: PhysAddr) -> (r: bool)
        ensures
            r == self@.has_frame(a as int),
    {
        let n: usize = self.frames.len();
        assert(n == self@.n());
        a >= self.base && (a - self.base) % PAGE_SIZE == 0 && (a - self.base) / PAGE_SIZE < n as u64
    }

    pub(crate) fn frame_index(&self, a: PhysAddr) -> (f: usize)
        requires
            self@.has_frame(a as int),
        ensures
            f == self@.frame(a as int),
            f < self@.n(),
            f < usize::MAX,
    {
        let n: usize = self.frames.len();
        let f: u64 = (a - self.base) / PAGE_SIZE;
        assert(f < n);
        f as usize
    }

    pub(crate) fn read(&self, table: PhysAddr, i: usize) -> (e: u64)
        requires
            self@.has_frame(table as int),
            i < 512,
        ensures
            e == self@.entry(self@.frame(table as int), i as int),
    {
        let f: usize = self.frame_index(table);
        self.frames[f].entry(i)
    }

    pub(crate) fn write(&mut self, table: PhysAddr, i: usize, e: u64)
        requires
            old(self)@.has_frame(table as int),
            i < 512,
        ensures
            final(self)@ == old(self)@.set(old(self)@.frame(table as int), i as int, e),
            final(self).kernel_root() == old(self).kernel_root(),
    {
        let f: usize = self.frame_index(table);
        let ghost pre = self@;
        self.frames[f].set_entry(i, e);
        assert(self@.mem =~= pre.mem.update(f as int, pre.mem[f as int].update(i as int, e)));
    }

    /// True if frame `f` holds a table.
    pub fn holds_table(&self, f: usize) -> (r: bool)
        ensures
            r == self@.live(f as int),
    {
        f < self.marks.len() && self.marks[f] < NO_TABLE
    }

    /// Level of the table at `table`.
    pub(crate) fn level(&self, table: PhysAddr) -> (l: u8)
        requires
            self@.has_frame(table as int),
            self@.live(self@.frame(table as int)),
        ensures
            l == self@.levels[self@.frame(table as int)],
            l <= 3,
    {
        let f: usize = self.frame_index(table);
        self.marks[f]
    }

    /// Zero a frame and make it a table of level `l`.
    pub(crate) fn adopt_zeroed(&mut self, table: PhysAddr, l: u8)
        requires
            old(self)@.has_frame(table as int),
            l <= 3,
        ensures
            final(self)@ == old(self)@.put_table(
                old(self)@.frame(table as int),
                l as int,
                zero_frame(),
            ),
            final(self).kernel_root() == old(self).kernel_root(),
    {
        let f: usize = self.frame_index(table);
        let ghost pre = self@;
        self.frames[f].zero();
        set_mark(&mut self.marks, f, l);
        assert(self@.mem =~= pre.mem.update(f as int, zero_frame()));
    }

    /// Make a frame a table of level `l` as it is.
    pub(crate) fn adopt(&mut self, table: PhysAddr, l: u8)
        requires
            old(self)@.has_frame(table as int),
            l <= 3,
        ensures
            final(self)@ == old(self)@.put_table(
                old(self)@.frame(table as int),
                l as int,
                old(self)@.mem[old(self)@.frame(table as int)],
            ),
            final(self).kernel_root() == old(self).kernel_root(),
    {
        let f: usize = self.frame_index(table);
        let ghost pre = self@;
        set_mark(&mut self.marks, f, l);
        assert(self@.mem =~= pre.mem.update(f as int, pre.mem[f as int]));
    }

    /// The frame is no longer a table.
    pub(crate) fn drop_table(&mut self, table: PhysAddr)
        requires
            old(self)@.has_frame(table as int),
        ensures
            final(self)@ == (Tables {
                levels: old(self)@.levels.remove(old(self)@.frame(table as int)),
                ..old(self)@
            }),
            final(self).kernel_root() == old(self).kernel_root(),
    {
        let f: usize = self.frame_index(table);
        let ghost pre = self@;
        set_mark(&mut self.marks, f, NO_TABLE);
        assert(self@.mem =~= pre.mem);
    }

    /// Copy the contents of frame `src` to frame `dst`.
    pub fn copy_frame(&mut self, src: PhysAddr, dst: PhysAddr)
        requires
            old(self)@.has_frame(src as int),
            old(self)@.has_frame(dst as int),
        ensures
            final(self)@ == (Tables {
                mem: old(self)@.mem.update(
                    old(self)@.frame(dst as int),
                    old(self)@.mem[old(self)@.frame(src as int)],
                ),
                ..old(self)@
            }),
            final(self).kernel_root() == old(self).kernel_root(),
    {
        let s: usize = self.frame_index(src);
        let d: usize = self.frame_index(dst);
        let ghost pre = self@;
        let mut i: usize = 0;
        while i < 512
            invariant
                i <= 512,
                s < self@.n(),
                d < self@.n(),
                self@.base == pre.base,
                self@.levels == pre.levels,
                self.kernel_l0 == old(self).kernel_l0,
                pre == old(self)@,
                self@.n() == pre.n(),
                forall|f: int| 0 <= f < pre.n() && f != d ==> #[trigger] self@.mem[f] == pre.mem[f],
                self@.mem[d as int].len() == 512,
                pre.mem[s as int].len() == 512,
                forall|k: int|
                    0 <= k < i ==> #[trigger] self@.mem[d as int][k] == pre.mem[s as int][k],
                s == d ==> self@.mem[d as int] == pre.mem[s as int],
            decreases 512 - i,
        {
            let w: u64 = self.frames[s].entry(i);
            let ghost mid = self@;
            assert(w == mid.mem[s as int][i as int]);
            assert(mid.mem[s as int] == pre.mem[s as int]);
            self.frames[d].set_entry(i, w);
            assert(self@.mem =~= mid.mem.update(
                d as int,
                mid.mem[d as int].update(i as int, w),
            ));
            assert(s == d ==> self@.mem[d as int] =~= pre.mem[s as int]);
            i = i + 1;
        }
        assert(self@.mem[d as int] =~= pre.mem[s as int]);
        assert(self@.mem =~= pre.mem.update(d as int, pre.mem[s as int]));
    }
}

/// Physical address of the kernel's level-0 table.
pub fn kernel_l0_phys(space: &TableSpace) -> (a: PhysAddr)
    ensures
        a == space.kernel_root(),
{
    space.kernel_l0
}

/// `a` manages the frames of `t` and has every live table in use.
pub open spec fn backed(t: Tables, a: FrameAllocator) -> bool {
    &&& a.wf()
    &&& a.start() == t.base
    &&& a.total() == t.n()
    &&& forall|f: int| #[trigger] t.live(f) ==> !a.free_set().contains(f)
}

/// From `t0`, `a0` to `t1`, `a1` free frames became tables below existing
/// roots; every other frame kept its role, and the frames that are not tables
/// kept their contents.
pub open spec fn grown(t0: Tables, a0: FrameAllocator, t1: Tables, a1: FrameAllocator) -> bool {
    &&& t1.wf()
    &&& backed(t1, a1)
    &&& t1.base == t0.base
    &&& t1.n() == t0.n()
    &&& a1.same_window(a0)
    &&& forall|f: int| #[trigger] t0.live(f) ==> t1.live(f) && t1.levels[f] == t0.levels[f]
    &&& forall|f: int| #[trigger]
        t1.live(f) && !t0.live(f) ==> t1.levels[f] > 0 && a0.free_set().contains(f)
    &&& forall|f: int| 0 <= f < t0.n() && !t1.live(f) ==> #[trigger] t1.mem[f] == t0.mem[f]
    &&& forall|f: int| #[trigger]
        a1.free_set().contains(f) <==> a0.free_set().contains(f) && !t1.live(f)
}

pub proof fn lemma_grown_trans(
    t0: Tables,
    a0: FrameAllocator,
    t1: Tables,
    a1: FrameAllocator,
    t2: Tables,
    a2: FrameAllocator,
)
    requires
        grown(t0, a0, t1, a1),
        grown(t1, a1, t2, a2),
    ensures
        grown(t0, a0, t2, a2),
{
    assert forall|f: int| #[trigger] t0.live(f) implies t2.live(f) && t2.levels[f]
        == t0.levels[f] by {
        assert(t1.live(f));
    }
    assert forall|f: int| #[trigger] t2.live(f) && !t0.live(f) implies t2.levels[f] > 0
        && a0.free_set().contains(f) by {
        if t1.live(f) {
        } else {
            assert(a1.free_set().contains(f));
        }
    }
    assert forall|f: int| 0 <= f < t0.n() && !t2.live(f) implies #[trigger] t2.mem[f]
        == t0.mem[f] by {
        assert(!t1.live(f));
        assert(t1.mem[f] == t0.mem[f]);
    }
    assert forall|f: int| #[trigger] a2.free_set().contains(f) <==> a0.free_set().contains(f)
        && !t2.live(f) by {
        assert(t1.live(f) ==> t2.live(f));
    }
}

/// Linking a fresh table uses one frame.
pub proof fn lemma_grown_link(
    t0: Tables,
    a0: FrameAllocator,
    a1: FrameAllocator,
    r: int,
    va: u64,
    l: int,
    f: int,
    c: PhysAddr,
    words: Seq<u64>,
)
    requires
        backed(t0, a0),
        a1.wf(),
        a0.alloc_post(a1, Some(c)),
        t0.can_link(r, va, l, f, t0.frame(c as int), words),
    ensures
        grown(t0, a0, t0.linked(f, idx(va, l), t0.frame(c as int), words), a1),
        a1.free_set().len() + 1 == a0.free_set().len(),
{
    let ci = t0.frame(c as int);
    let t1 = t0.linked(f, idx(va, l), ci, words);
    t0.lemma_linked(r, va, l, f, ci, words);
    t0.lemma_reach_live(r, 0, va, l);
    a0.lemma_window();
    a1.lemma_window();
    assert(ci == a0.frame_of(c as int));
    assert forall|g: int| #[trigger] t1.live(g) implies !a1.free_set().contains(g) by {
        if g != ci {
            assert(t0.live(g));
        }
    }
    assert forall|g: int| #[trigger] a1.free_set().contains(g) <==> a0.free_set().contains(g)
        && !t1.live(g) by {
        if a0.free_set().contains(g) && g != ci {
            if t1.live(g) {
                assert(t0.live(g));
            }
        }
    }
    assert forall|g: int| 0 <= g < t0.n() && !t1.live(g) implies #[trigger] t1.mem[g]
        == t0.mem[g] by {
        assert(t0.live(f));
        assert(t1.live(f));
    }
}

/// Take a free frame for a table.
pub(crate) fn alloc_table(frames: &mut FrameAllocator) -> (r: PhysAddr)
    requires
        old(frames).wf(),
        old(frames).free_set().len() > 0,
    ensures
        final(frames).wf(),
        old(frames).alloc_post(*final(frames), Some(r)),
{
    let r = frames.alloc_one();
    match r {
        Some(a) => a,
        None => {
            assert(old(frames).free_set().len() == 0);
            0
        },
    }
}

/// Make entry `i` of `table` point to a next-level table, allocating one if
/// the entry is empty.  Returns the next-level table.
pub(crate) fn ensure_table(
    space: &mut TableSpace,
    frames: &mut FrameAllocator,
    table: PhysAddr,
    i: usize,
) -> (r: PhysAddr)
    requires
        old(space)@.wf(),
        old(space).backed(*old(frames)),
        old(space)@.has_frame(table as int),
        old(space)@.live(old(space)@.frame(table as int)),
        old(space)@.levels[old(space)@.frame(table as int)] < 3,
        i < 512,
        ({
            let e = old(space)@.entry(old(space)@.frame(table as int), i as int);
            is_table(e) || (!valid(e) && old(frames).free_set().len() > 0)
        }),
    ensures
        final(space).kernel_root() == old(space).kernel_root(),
        final(frames).wf(),
        ({
            let t = old(space)@;
            let f = t.frame(table as int);
            let e = t.entry(f, i as int);
            let c = t.frame(r as int);
            &&& t.has_frame(r as int)
            &&& r == t.addr(c)
            &&& is_table(e) ==> final(space)@ == t && *final(frames) == *old(frames) && c
                == t.target(e)
            &&& !is_table(e) ==> {
                &&& !t.live(c)
                &&& final(space)@ == t.linked(f, i as int, c, zero_frame())
                &&& old(frames).alloc_post(*final(frames), Some(r))
            }
        }),
{
    let e: u64 = space.read(table, i);
    let ghost t = space@;
    let ghost f = space@.frame(table as int);
    if e & DESC_VALID != 0 {
        assert(t.link(f, i as int));
        assert(t.live(t.target(e)));
        e & ADDR_MASK
    } else {
        let child: PhysAddr = alloc_table(frames);
        proof {
            old(frames).lemma_window();
            assert(t.frame(child as int) == old(frames).frame_of(child as int));
        }
        let l: u8 = space.level(table);
        space.adopt_zeroed(child, l + 1);
        space.write(table, i, child | DESC_VALID | DESC_TABLE);
        child
    }
}

/// Number of tables that the path of `va` lacks down to level `d`.
pub open spec fn missing(t: Tables, root: int, va: u64, d: int) -> int {
    (if d >= 1 && t.reach(root, va, 1) is None {
        1int
    } else {
        0
    }) + (if d >= 2 && t.reach(root, va, 2) is None {
        1int
    } else {
        0
    }) + (if d >= 3 && t.reach(root, va, 3) is None {
        1int
    } else {
        0
    })
}

/// One [`ensure_table`] step on the path of `va`.
pub proof fn lemma_step(
    t0: Tables,
    a0: FrameAllocator,
    t1: Tables,
    a1: FrameAllocator,
    root: int,
    va: u64,
    l: int,
    f: int,
    c: PhysAddr,
)
    requires
        t0.wf(),
        backed(t0, a0),
        t0.is_root(root),
        0 <= l < 3,
        t0.reach(root, va, l) == Some(f),
        a1.wf(),
        t0.has_frame(c as int),
        is_table(t0.entry(f, idx(va, l))) ==> t1 == t0 && a1 == a0 && t0.frame(c as int)
            == t0.target(t0.entry(f, idx(va, l))),
        !is_table(t0.entry(f, idx(va, l))) ==> {
            &&& !valid(t0.entry(f, idx(va, l)))
            &&& !t0.live(t0.frame(c as int))
            &&& t1 == t0.linked(f, idx(va, l), t0.frame(c as int), zero_frame())
            &&& a0.alloc_post(a1, Some(c))
        },
    ensures
        grown(t0, a0, t1, a1),
        t0.same_maps(t1),
        t0.reach_grown(t1, t0.frame(root), va, l + 1),
        t1.is_root(root),
        t1.reach(root, va, l + 1) == Some(t0.frame(c as int)),
        a1.free_set().len() + (if t0.reach(root, va, l + 1) is None {
            1int
        } else {
            0
        }) == a0.free_set().len(),
{
    let r = t0.frame(root);
    let ci = t0.frame(c as int);
    let words = zero_frame();
    if is_table(t0.entry(f, idx(va, l))) {
        assert(t0.reach(root, va, l + 1) == Some(ci));
        assert forall|g: int, vb: u64, k: int|
            t0.live(g) && t0.levels[g] == 0 && 0 <= k <= 3 implies match t0.reach_from(
            g,
            0,
            vb,
            k,
        ) {
            Some(h) => #[trigger] t1.reach_from(g, 0, vb, k) == Some(h),
            None => t1.reach_from(g, 0, vb, k) is Some <==> g == r && k <= l + 1 && same_prefix(
                va,
                vb,
                k,
            ),
        } by {
            if g == r && k <= l + 1 && same_prefix(va, vb, k) {
                assert forall|q: int| 0 <= q < k implies #[trigger] idx(va, q) == idx(vb, q) by {}
                t0.lemma_reach_prefix(r, 0, va, vb, k);
                t0.lemma_reach_upper(r, va, k, l + 1);
            }
        }
    } else {
        assert(!valid(0u64)) by {
            lemma_desc(0, 0, 0);
        }
        assert(t0.can_link(r, va, l, f, ci, words));
        t0.lemma_linked(r, va, l, f, ci, words);
        t0.lemma_linked_empty(r, va, l, f, ci);
        lemma_grown_link(t0, a0, a1, r, va, l, f, c, words);
        assert(t0.reach(root, va, l + 1) is None);
        assert(t1.live(r));
    }
}

/// Walk the path of `va` to its level-2 table, creating what is missing.
pub(crate) fn walk_to_l2(
    space: &mut TableSpace,
    frames: &mut FrameAllocator,
    root: PhysAddr,
    va: VirtAddr,
) -> (r: PhysAddr)
    requires
        old(space).wf(),
        old(space).backed(*old(frames)),
        old(space)@.is_root(root as int),
        missing(old(space)@, root as int, va, 2) <= old(frames).free_set().len(),
    ensures
        final(space).wf(),
        final(space).kernel_root() == old(space).kernel_root(),
        grown(old(space)@, *old(frames), final(space)@, *final(frames)),
        old(space)@.same_maps(final(space)@),
        old(space)@.reach_grown(final(space)@, old(space)@.frame(root as int), va, 2),
        final(space)@.is_root(root as int),
        final(space)@.has_frame(r as int),
        final(space)@.reach(root as int, va, 2) == Some(final(space)@.frame(r as int)),
        final(frames).free_set().len() + missing(old(space)@, root as int, va, 2) == old(frames).free_set().len(),
        old(space)@.reach(root as int, va, 2) is Some ==> final(space)@ == old(space)@
            && *final(frames) == *old(frames),
{
    let ghost t0 = space@;
    let ghost a0 = *frames;
    let ghost f0 = t0.frame(root as int);
    proof {
        reveal_with_fuel(Tables::reach_from, 4);
        assert(t0.reach(root as int, va, 0) == Some(f0));
        assert(0 <= idx(va, 0) < 512);
        assert(valid(t0.entry(f0, idx(va, 0))) ==> is_table(t0.entry(f0, idx(va, 0))));
    }
    let l1: PhysAddr = ensure_table(space, frames, root, l0_idx(va));
    let ghost t1 = space@;
    let ghost a1 = *frames;
    let ghost f1 = t0.frame(l1 as int);
    proof {
        lemma_step(t0, a0, t1, a1, root as int, va, 0, f0, l1);
        t1.lemma_reach_live(f0, 0, va, 1);
        assert(0 <= idx(va, 1) < 512);
        assert(valid(t1.entry(f1, idx(va, 1))) ==> is_table(t1.entry(f1, idx(va, 1))));
        assert(t1.reach(root as int, va, 1) == Some(f1));
    }
    let l2: PhysAddr = ensure_table(space, frames, l1, l1_idx(va));
    proof {
        let t2 = space@;
        let a2 = *frames;
        lemma_step(t1, a1, t2, a2, root as int, va, 1, f1, l2);
        lemma_grown_trans(t0, a0, t1, a1, t2, a2);
        lemma_maps_trans(t0, t1, t2, f0, va, 1);
        assert(t1.live(t1.frame(space.kernel_root())));
        assert(t2.live(t2.frame(space.kernel_root())));
        assert(t0.reach(root as int, va, 2) is Some ==> t1.reach(root as int, va, 2) is Some);
        assert(t0.reach(root as int, va, 2) is None ==> t1.reach(root as int, va, 2) is None);
    }
    l2
}

/// Composition of two steps on the path of `va`.
pub proof fn lemma_maps_trans(t0: Tables, t1: Tables, t2: Tables, r: int, va: u64, d: int)
    requires
        0 <= d <= 2,
        forall|f: int| #[trigger] t0.live(f) ==> t1.live(f) && t1.levels[f] == t0.levels[f],
        t0.reach_grown(t1, r, va, d),
        t1.reach_grown(t2, r, va, d + 1),
        t0.same_maps(t1),
        t1.same_maps(t2),
    ensures
        t0.reach_grown(t2, r, va, d + 1),
        t0.same_maps(t2),
{
    assert forall|g: int, vb: u64, k: int|
        t0.live(g) && t0.levels[g] == 0 && 0 <= k <= 3 implies match t0.reach_from(g, 0, vb, k) {
        Some(h) => #[trigger] t2.reach_from(g, 0, vb, k) == Some(h),
        None => t2.reach_from(g, 0, vb, k) is Some <==> g == r && k <= d + 1 && same_prefix(
            va,
            vb,
            k,
        ),
    } by {
        assert(t1.live(g));
        assert(t1.reach_from(g, 0, vb, k) is Some || t1.reach_from(g, 0, vb, k) is None);
    }
    assert forall|g: int, vb: u64| t0.live(g) && t0.levels[g] == 0 implies #[trigger] t2.leaf_from(
        g,
        0,
        vb,
    ) == t0.leaf_from(g, 0, vb) by {
        assert(t1.live(g));
        assert(t1.leaf_from(g, 0, vb) == t0.leaf_from(g, 0, vb));
    }
}

} // verus!
