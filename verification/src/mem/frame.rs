//! Physical frame allocator: a bitmap over the machine's DRAM window.
//!
//! The window (base and size) is discovered at boot.  One bit stands for one
//! 4 KiB frame; a set bit means the frame is free.  The bitmap is sized for
//! the largest supported window; smaller windows never touch its tail.

use vstd::prelude::*;
use vstd::set_lib::{lemma_int_range, lemma_len_subset, set_int_range};
use vstd::std_specs::bits::axiom_u64_trailing_zeros;
use crate::bits::{bit, lemma_align, lemma_bits};
use crate::mem::{PhysAddr, PAGE_SIZE};

verus! {

/// Largest DRAM window the bitmap can represent (1 GiB).
pub const MAX_RAM_SIZE: u64 = 0x4000_0000;

/// Frames in the largest window.
pub const MAX_FRAMES: usize = 262144;

/// 64-bit words in the bitmap.
pub const BITMAP_WORDS: usize = 4096;

/// Frame allocator state.
pub struct FrameAllocator {
    ram_start: PhysAddr,
    ram_size: u64,
    total_frames: usize,
    bitmap: [u64; BITMAP_WORDS],
    free_frames: usize,
}

/// The run of frames `r .. r + n` lies in `free`.
pub open spec fn run_free(free: Set<int>, r: int, n: int) -> bool {
    forall|k: int| r <= k < r + n ==> #[trigger] free.contains(k)
}

/// `free` without the frames `r .. r + n`.
pub open spec fn without_run(free: Set<int>, r: int, n: int) -> Set<int> {
    Set::new(|k: int| free.contains(k) && !(r <= k < r + n))
}

/// Page `k` of a window at `base` lies between two addresses exactly when it lies between the
/// next page boundaries inside them, `begin` and `stop`, and that can be read off the indices of
/// those.
proof fn lemma_page_bounds(base: int, k: int, start: int, begin: int, end: int, stop: int)
    requires
        base % 4096 == 0,
        begin % 4096 == 0,
        start <= begin < start + 4096,
        stop % 4096 == 0,
        stop <= end < stop + 4096,
    ensures
        start <= base + k * 4096 <==> begin <= base + k * 4096,
        base + k * 4096 + 4096 <= end <==> base + k * 4096 + 4096 <= stop,
        begin <= base + k * 4096 <==> (begin - base) / 4096 <= k,
        base + k * 4096 + 4096 <= stop <==> k < (stop - base) / 4096,
{
    let b: int = begin / 4096;
    let e: int = stop / 4096;
    let s: int = base / 4096;
    assert(begin == b * 4096 && stop == e * 4096 && base == s * 4096);
    assert((begin - base) / 4096 == b - s);
    assert((stop - base) / 4096 == e - s);
}

impl FrameAllocator {
    /// First address of the managed window.
    pub closed spec fn start(self) -> int {
        self.ram_start as int
    }

    /// Size in bytes of the managed window.
    pub closed spec fn size(self) -> int {
        self.ram_size as int
    }

    /// Number of whole frames in the window.
    pub closed spec fn total(self) -> int {
        self.total_frames as int
    }

    spec fn free_bit(self, i: int) -> bool {
        bit(self.bitmap@[i / 64], (i % 64) as u64)
    }

    /// Indices of the free frames.
    pub closed spec fn free_set(self) -> Set<int> {
        Set::new(|i: int| 0 <= i < self.total_frames && self.free_bit(i))
    }

    /// Address of frame `i`.
    pub open spec fn frame_addr(self, i: int) -> int {
        self.start() + i * 4096
    }

    /// Index of the frame that holds `addr`.
    pub open spec fn frame_of(self, addr: int) -> int {
        (addr - self.start()) / 4096
    }

    /// `addr` is the page-aligned address of a byte range inside the window.
    pub open spec fn is_page(self, addr: int) -> bool {
        addr % 4096 == 0 && self.start() <= addr < self.start() + self.size()
    }

    /// The two allocators manage the same window.
    pub open spec fn same_window(self, other: Self) -> bool {
        self.start() == other.start() && self.size() == other.size() && self.total()
            == other.total()
    }

    /// The window fits the bitmap, the count of free frames is exact, and the
    /// bits behind the last frame stay set.
    pub closed spec fn wf(self) -> bool {
        &&& self.ram_size <= MAX_RAM_SIZE
        &&& self.ram_start as int % 4096 == 0
        &&& self.ram_start + self.ram_size <= u64::MAX
        &&& self.total_frames == self.ram_size / 4096
        &&& self.free_set().len() == self.free_frames
        &&& self.ram_size != 0 ==> forall|i: int|
            self.total_frames <= i < MAX_FRAMES ==> #[trigger] self.free_bit(i)
    }

    /// What a well-formed allocator says of its window.
    pub proof fn lemma_window(self)
        requires
            self.wf(),
        ensures
            0 <= self.start(),
            self.start() % 4096 == 0,
            0 <= self.size() <= MAX_RAM_SIZE,
            self.start() + self.size() <= u64::MAX,
            self.total() == self.size() / 4096,
            self.free_set().finite(),
            self.free_set().len() <= self.total(),
            forall|i: int| #[trigger] self.free_set().contains(i) ==> 0 <= i < self.total(),
    {
        self.lemma_finite();
    }

    proof fn lemma_finite(self)
        ensures
            self.free_set().finite(),
            self.free_set().len() <= self.total_frames,
    {
        lemma_int_range(0, self.total_frames as int);
        assert(self.free_set().subset_of(set_int_range(0, self.total_frames as int)));
        lemma_len_subset(self.free_set(), set_int_range(0, self.total_frames as int));
    }

    /// What [`FrameAllocator::alloc_one`] does: the lowest free frame leaves the
    /// free set, or there is none.
    pub open spec fn alloc_post(self, post: Self, r: Option<PhysAddr>) -> bool {
        &&& post.same_window(self)
        &&& match r {
            Some(a) => {
                let i = self.frame_of(a as int);
                &&& self.free_set().contains(i)
                &&& a == self.frame_addr(i)
                &&& forall|k: int| #[trigger] self.free_set().contains(k) ==> i <= k
                &&& post.free_set() == self.free_set().remove(i)
            },
            None => self.free_set() == Set::<int>::empty() && post.free_set() == self.free_set(),
        }
    }

    /// What [`FrameAllocator::alloc_contiguous`] does: the lowest run of `n`
    /// free frames leaves the free set, or there is none.
    pub open spec fn alloc_contiguous_post(self, n: int, post: Self, r: Option<PhysAddr>) -> bool {
        &&& post.same_window(self)
        &&& match r {
            Some(a) => {
                let i = self.frame_of(a as int);
                &&& n > 0
                &&& 0 <= i
                &&& i + n <= self.total()
                &&& a == self.frame_addr(i)
                &&& run_free(self.free_set(), i, n)
                &&& forall|k: int| 0 <= k < i ==> !#[trigger] run_free(self.free_set(), k, n)
                &&& post.free_set() == without_run(self.free_set(), i, n)
            },
            None => {
                &&& n == 0 || forall|k: int| !#[trigger] run_free(self.free_set(), k, n)
                &&& post.free_set() == self.free_set()
            },
        }
    }

    /// What [`FrameAllocator::free`] does: the frame joins the free set.
    pub open spec fn free_post(self, addr: PhysAddr, post: Self) -> bool {
        &&& post.same_window(self)
        &&& post.free_set() == if self.frame_of(addr as int) < self.total() {
            self.free_set().insert(self.frame_of(addr as int))
        } else {
            self.free_set()
        }
    }

    /// Allocator over an empty window.
    pub fn new_zeroed() -> (a: Self)
        ensures
            a.wf(),
            a.start() == 0,
            a.size() == 0,
            a.total() == 0,
            a.free_set() == Set::<int>::empty(),
    {
        let a = Self {
            ram_start: 0,
            ram_size: 0,
            total_frames: 0,
            bitmap: [0u64;BITMAP_WORDS],
            free_frames: 0,
        };
        assert(a.free_set() =~= Set::<int>::empty());
        a
    }

    /// Manage `[ram_start, ram_start + ram_size)`: every frame is free except
    /// those below `kernel_end`, rounded up to a page.
    pub fn init(&mut self, kernel_end: PhysAddr, ram_start: PhysAddr, ram_size: u64)
        requires
            ram_size <= MAX_RAM_SIZE,
            ram_start % 4096 == 0,
            ram_start + ram_size <= u64::MAX,
            kernel_end + 4095 <= u64::MAX,
        ensures
            final(self).wf(),
            final(self).start() == ram_start,
            final(self).size() == ram_size,
            final(self).total() == ram_size / 4096,
            forall|i: int|
                #[trigger] final(self).free_set().contains(i) <==> 0 <= i < ram_size / 4096
                    && final(self).frame_addr(i) >= kernel_end,
    {
        self.ram_start = ram_start;
        self.ram_size = ram_size;
        self.total_frames = (ram_size / PAGE_SIZE) as usize;
        self.bitmap = [!0u64;BITMAP_WORDS];
        self.free_frames = self.total_frames;
        proof {
            assert forall|i: int| 0 <= i < MAX_FRAMES implies #[trigger] self.free_bit(i) by {
                lemma_bits(0, 0, (i % 64) as u64);
            }
            lemma_int_range(0, self.total_frames as int);
            assert(self.free_set() =~= set_int_range(0, self.total_frames as int));
            lemma_align((kernel_end + 4095) as u64);
        }
        let reserved_end: u64 = (kernel_end + (PAGE_SIZE - 1)) & !0xFFFu64;
        let span: u64 = if reserved_end >= ram_start { reserved_end - ram_start } else { 0 };
        let reserved: u64 = span / PAGE_SIZE;
        let reserved_frames: usize = if reserved < self.total_frames as u64 {
            reserved as usize
        } else {
            self.total_frames
        };
        let mut i: usize = 0;
        while i < reserved_frames
            invariant
                i <= reserved_frames <= self.total_frames,
                self.wf(),
                self.ram_start == ram_start,
                self.ram_size == ram_size,
                forall|k: int|
                    #[trigger] self.free_set().contains(k) <==> i <= k < self.total_frames,
            decreases reserved_frames - i,
        {
            self.set_used(i);
            i = i + 1;
        }
    }

    fn set_used(&mut self, frame_idx: usize)
        requires
            old(self).wf(),
            frame_idx < old(self).total_frames,
        ensures
            final(self).wf(),
            final(self).same_window(*old(self)),
            final(self).ram_start == old(self).ram_start,
            final(self).ram_size == old(self).ram_size,
            final(self).total_frames == old(self).total_frames,
            final(self).free_set() == old(self).free_set().remove(frame_idx as int),
    {
        let word: usize = frame_idx / 64;
        let b: usize = frame_idx % 64;
        let ghost pre = *self;
        proof {
            pre.lemma_finite();
            lemma_bits(self.bitmap@[word as int], b as u64, b as u64);
            assert(pre.free_bit(frame_idx as int) == pre.free_set().contains(frame_idx as int));
        }
        if self.bitmap[word] & (1u64 << b) != 0 {
            self.bitmap[word] = self.bitmap[word] & !(1u64 << b);
            self.free_frames = self.free_frames - 1;
            proof {
                assert forall|i: int| 0 <= i < MAX_FRAMES implies #[trigger] self.free_bit(i) == (
                pre.free_bit(i) && i != frame_idx) by {
                    lemma_bits(pre.bitmap@[word as int], b as u64, (i % 64) as u64);
                }
                assert(self.free_set() =~= pre.free_set().remove(frame_idx as int));
            }
        } else {
            assert(self.free_set() =~= pre.free_set().remove(frame_idx as int));
        }
    }

    fn set_free(&mut self, frame_idx: usize)
        requires
            old(self).wf(),
            old(self).ram_size != 0,
            frame_idx < MAX_FRAMES,
        ensures
            final(self).wf(),
            final(self).same_window(*old(self)),
            final(self).free_set() == if frame_idx < old(self).total() {
                old(self).free_set().insert(frame_idx as int)
            } else {
                old(self).free_set()
            },
    {
        let word: usize = frame_idx / 64;
        let b: usize = frame_idx % 64;
        let ghost pre = *self;
        proof {
            pre.lemma_finite();
            lemma_bits(self.bitmap@[word as int], b as u64, b as u64);
            assert(frame_idx >= self.total_frames ==> pre.free_bit(frame_idx as int));
            assert(frame_idx < self.total_frames ==> pre.free_bit(frame_idx as int)
                == pre.free_set().contains(frame_idx as int));
        }
        if self.bitmap[word] & (1u64 << b) == 0 {
            proof {
                lemma_int_range(0, self.total_frames as int);
                assert(pre.free_set().insert(frame_idx as int).subset_of(
                    set_int_range(0, self.total_frames as int),
                ));
                lemma_len_subset(
                    pre.free_set().insert(frame_idx as int),
                    set_int_range(0, self.total_frames as int),
                );
            }
            self.bitmap[word] = self.bitmap[word] | (1u64 << b);
            self.free_frames = self.free_frames + 1;
            proof {
                assert forall|i: int| 0 <= i < MAX_FRAMES implies #[trigger] self.free_bit(i) == (
                pre.free_bit(i) || i == frame_idx) by {
                    lemma_bits(pre.bitmap@[word as int], b as u64, (i % 64) as u64);
                }
                assert(self.free_set() =~= pre.free_set().insert(frame_idx as int));
            }
        } else {
            assert(frame_idx < self.total_frames ==> self.free_set() =~= pre.free_set().insert(
                frame_idx as int,
            ));
        }
    }

    /// Reserve a range of physical memory so that it is never handed out.
    ///
    /// `start` is rounded up and `start + size` down to page boundaries; the
    /// range is clamped to the managed window.
    pub fn reserve_region(&mut self, start: PhysAddr, size: u64)
        requires
            old(self).wf(),
            start + 4095 <= u64::MAX,
            start + size <= u64::MAX,
        ensures
            final(self).wf(),
            final(self).same_window(*old(self)),
            forall|i: int|
                #[trigger] final(self).free_set().contains(i) <==> old(self).free_set().contains(i)
                    && !(start <= old(self).frame_addr(i) && old(self).frame_addr(i) + 4096 <= start
                    + size),
    {
        proof {
            lemma_align((start + 4095) as u64);
            lemma_align((start + size) as u64);
        }
        let begin: u64 = (start + (PAGE_SIZE - 1)) & !0xFFFu64;
        let end: u64 = (start + size) & !0xFFFu64;
        let ghost pre = *self;
        proof {
            assert forall|k: int| #[trigger] pre.free_set().contains(k) implies (start
                <= pre.frame_addr(k) && pre.frame_addr(k) + 4096 <= start + size) == (begin
                <= pre.frame_addr(k) && pre.frame_addr(k) + 4096 <= end) by {
                lemma_page_bounds(
                    pre.ram_start as int,
                    k,
                    start as int,
                    begin as int,
                    start + size,
                    end as int,
                );
            }
        }
        if end <= begin || end <= self.ram_start {
            return ;
        }
        let first: u64 = if begin <= self.ram_start {
            0
        } else {
            (begin - self.ram_start) / PAGE_SIZE
        };
        let last: u64 = (end - self.ram_start) / PAGE_SIZE;
        let total: u64 = self.total_frames as u64;
        let begin_idx: usize = if first < total { first as usize } else { self.total_frames };
        let end_idx: usize = if last < total { last as usize } else { self.total_frames };
        let mut i: usize = begin_idx;
        while i < end_idx
            invariant
                begin_idx <= i,
                begin_idx <= end_idx ==> i <= end_idx,
                end_idx <= self.total_frames,
                self.wf(),
                self.same_window(pre),
                self.total_frames == pre.total_frames,
                self.ram_start == pre.ram_start,
                forall|k: int|
                    #[trigger] self.free_set().contains(k) <==> pre.free_set().contains(k) && !(
                    begin_idx <= k < i),
            decreases end_idx - i,
        {
            self.set_used(i);
            i = i + 1;
        }
        proof {
            assert forall|k: int| #[trigger] pre.free_set().contains(k) implies (begin_idx <= k
                < end_idx) == (begin <= pre.frame_addr(k) && pre.frame_addr(k) + 4096 <= end) by {
                assert(0 <= k < pre.total_frames);
                lemma_page_bounds(
                    pre.ram_start as int,
                    k,
                    start as int,
                    begin as int,
                    start + size,
                    end as int,
                );
            }
        }
    }

    /// Index of the frame that holds `addr`, if the window does.
    fn phys_to_idx(addr: PhysAddr, ram_start: PhysAddr, ram_size: u64) -> (r: Option<usize>)
        requires
            ram_size <= MAX_RAM_SIZE,
            ram_start + ram_size <= u64::MAX,
        ensures
            r == if ram_start <= addr < ram_start + ram_size {
                Some(((addr - ram_start) / 4096) as usize)
            } else {
                None
            },
            r matches Some(i) ==> i == (addr - ram_start) / 4096 && i < MAX_FRAMES,
    {
        if addr < ram_start || addr >= ram_start + ram_size {
            return None;
        }
        Some(((addr - ram_start) / PAGE_SIZE) as usize)
    }

    /// Allocate the lowest free frame.
    ///
    /// Returns `None` if memory is exhausted.  The frame is not zeroed.
    pub fn alloc_one(&mut self) -> (r: Option<PhysAddr>)
        requires
            old(self).wf(),
        ensures
            final(self).wf(),
            old(self).alloc_post(*final(self), r),
    {
        let ghost pre = *self;
        let mut word_idx: usize = 0;
        while word_idx < BITMAP_WORDS
            invariant
                *self == pre,
                pre == *old(self),
                pre.wf(),
                word_idx <= BITMAP_WORDS,
                forall|k: int| 0 <= k < word_idx * 64 ==> !#[trigger] self.free_bit(k),
            decreases BITMAP_WORDS - word_idx,
        {
            let word: u64 = self.bitmap[word_idx];
            if word != 0 {
                let b: usize = word.trailing_zeros() as usize;
                proof {
                    axiom_u64_trailing_zeros(word);
                    assert(bit(word, b as u64));
                    assert forall|k: int| 0 <= k < word_idx * 64 + b implies !#[trigger] self.free_bit(
                        k,
                    ) by {
                        if k >= word_idx * 64 {
                            assert(k / 64 == word_idx);
                            assert((word >> ((k % 64) as u64)) & 1u64 == 0u64);
                        }
                    }
                }
                let frame_idx: usize = word_idx * 64 + b;
                if frame_idx >= self.total_frames {
                    assert(self.free_set() =~= Set::<int>::empty());
                    return None;
                }
                assert(self.free_bit(frame_idx as int));
                assert(self.free_set().contains(frame_idx as int));
                self.set_used(frame_idx);
                let a: u64 = self.ram_start + frame_idx as u64 * PAGE_SIZE;
                assert(pre.frame_of(a as int) == frame_idx);
                return Some(a);
            }
            assert forall|k: int| 0 <= k < (word_idx + 1) * 64 implies !#[trigger] self.free_bit(
                k,
            ) by {
                if k >= word_idx * 64 {
                    assert(k / 64 == word_idx);
                    lemma_bits(0, 0, (k % 64) as u64);
                }
            }
            word_idx = word_idx + 1;
        }
        assert(self.free_set() =~= Set::<int>::empty());
        None
    }

    /// Allocate the lowest run of `n` contiguous free frames.
    ///
    /// Returns the address of the first frame, or `None` if `n` is zero or no
    /// such run exists.
    pub fn alloc_contiguous(&mut self, n: usize) -> (r: Option<PhysAddr>)
        requires
            old(self).wf(),
        ensures
            final(self).wf(),
            old(self).alloc_contiguous_post(n as int, *final(self), r),
    {
        if n == 0 {
            return None;
        }
        let ghost pre = *self;
        let mut run_start: usize = 0;
        let mut run_len: usize = 0;
        let mut i: usize = 0;
        while i < self.total_frames
            invariant
                *self == pre,
                pre == *old(self),
                pre.wf(),
                n > 0,
                i <= self.total_frames,
                run_len < n,
                run_len <= i,
                run_len > 0 ==> run_start + run_len == i,
                run_len > 0 ==> run_free(pre.free_set(), run_start as int, run_len as int),
                forall|k: int|
                    0 <= k < i - run_len ==> !#[trigger] run_free(pre.free_set(), k, n as int),
                i > run_len ==> !pre.free_set().contains(i - run_len - 1),
            decreases self.total_frames - i,
        {
            let word: usize = i / 64;
            let b: usize = i % 64;
            proof {
                lemma_bits(self.bitmap@[word as int], b as u64, b as u64);
                assert(pre.free_set().contains(i as int) == pre.free_bit(i as int));
            }
            if self.bitmap[word] & (1u64 << b) != 0 {
                if run_len == 0 {
                    run_start = i;
                }
                run_len = run_len + 1;
                if run_len == n {
                    let mut j: usize = run_start;
                    while j < run_start + n
                        invariant
                            run_start <= j <= run_start + n,
                            run_start + n <= self.total_frames,
                            self.total_frames == pre.total_frames,
                            self.ram_start == pre.ram_start,
                            self.same_window(pre),
                            self.wf(),
                            self.free_set() =~= without_run(
                                pre.free_set(),
                                run_start as int,
                                j - run_start,
                            ),
                        decreases run_start + n - j,
                    {
                        self.set_used(j);
                        j = j + 1;
                    }
                    let a: u64 = self.ram_start + run_start as u64 * PAGE_SIZE;
                    assert(pre.frame_of(a as int) == run_start);
                    return Some(a);
                }
            } else {
                proof {
                    assert forall|k: int| 0 <= k < i + 1 implies !#[trigger] run_free(
                        pre.free_set(),
                        k,
                        n as int,
                    ) by {
                        if k >= i - run_len {
                            assert(k <= i < k + n);
                            assert(!pre.free_set().contains(i as int));
                        }
                    }
                }
                run_len = 0;
            }
            i = i + 1;
        }
        proof {
            assert forall|k: int| !#[trigger] run_free(pre.free_set(), k, n as int) by {
                if k < 0 {
                    assert(!pre.free_set().contains(k));
                } else if k >= i - run_len {
                    assert(k + n - 1 >= pre.total_frames);
                    assert(!pre.free_set().contains(k + n - 1));
                }
            }
        }
        None
    }

    /// Free a previously allocated frame.
    pub fn free(&mut self, addr: PhysAddr)
        requires
            old(self).wf(),
            old(self).is_page(addr as int),
        ensures
            final(self).wf(),
            old(self).free_post(addr, *final(self)),
    {
        match Self::phys_to_idx(addr, self.ram_start, self.ram_size) {
            Some(idx) => self.set_free(idx),
            None => {},
        }
    }

    /// Number of free frames.
    pub fn free_frames(&self) -> (n: usize)
        requires
            self.wf(),
        ensures
            n == self.free_set().len(),
    {
        self.free_frames
    }

    /// True if frame `i` is free.
    pub fn is_free(&self, i: usize) -> (r: bool)
        requires
            self.wf(),
        ensures
            r == self.free_set().contains(i as int),
    {
        if i >= self.total_frames {
            return false;
        }
        let word: usize = i / 64;
        let b: usize = i % 64;
        proof {
            lemma_bits(self.bitmap@[word as int], b as u64, b as u64);
            assert(self.free_bit(i as int) == self.free_set().contains(i as int));
        }
        self.bitmap[word] & (1u64 << b) != 0
    }

    /// Number of frames in the window.
    pub fn total_frames(&self) -> (n: usize)
        ensures
            n == self.total(),
    {
        self.total_frames
    }

    /// The managed DRAM window: base address and size in bytes.
    pub fn ram_bounds(&self) -> (r: (PhysAddr, u64))
        ensures
            r.0 == self.start(),
            r.1 == self.size(),
    {
        (self.ram_start, self.ram_size)
    }
}

/// Freeing the frame that an allocation handed out restores the free set.
pub proof fn law_free_undoes_alloc(
    a: FrameAllocator,
    b: FrameAllocator,
    c: FrameAllocator,
    addr: PhysAddr,
)
    requires
        a.wf(),
        a.alloc_post(b, Some(addr)),
        b.free_post(addr, c),
    ensures
        c.free_set() == a.free_set(),
        c.same_window(a),
{
    assert(c.free_set() =~= a.free_set());
}

/// Two allocations with no free between them hand out different frames, the
/// second above the first.
pub proof fn law_allocs_distinct(
    a: FrameAllocator,
    b: FrameAllocator,
    c: FrameAllocator,
    first: PhysAddr,
    second: PhysAddr,
)
    requires
        a.alloc_post(b, Some(first)),
        b.alloc_post(c, Some(second)),
    ensures
        first < second,
{
    let i = a.frame_of(first as int);
    let j = b.frame_of(second as int);
    assert(a.free_set().contains(j));
}

/// An allocation leaves every frame that was in use in use: what is reserved
/// or handed out is never handed out again before it is freed.
pub proof fn law_alloc_skips_used(a: FrameAllocator, b: FrameAllocator, addr: PhysAddr, i: int)
    requires
        a.alloc_post(b, Some(addr)),
        !a.free_set().contains(i),
    ensures
        addr != a.frame_addr(i),
        !b.free_set().contains(i),
{
}

/// An allocation hands out the free frame with the lowest address, and takes no other; only
/// without a free frame is there nothing.
pub proof fn law_alloc_takes_lowest(
    a: FrameAllocator,
    b: FrameAllocator,
    r: Option<PhysAddr>,
    k: int,
)
    requires
        a.alloc_post(b, r),
    ensures
        a.free_set().contains(k) ==> (r matches Some(x) && x <= a.start() + 4096 * k),
        r matches Some(x) ==> {
            &&& exists|i: int| #[trigger] a.free_set().contains(i) && x == a.start() + 4096 * i
            &&& x == a.start() + 4096 * k ==> a.free_set().contains(k) && !b.free_set().contains(k)
            &&& x != a.start() + 4096 * k ==> (b.free_set().contains(k) <==> a.free_set().contains(
                k,
            ))
        },
        r is None ==> b.free_set() == a.free_set(),
        b.start() == a.start(),
        b.size() == a.size(),
        b.total() == a.total(),
{
    if let Some(x) = r {
        let i = a.frame_of(x as int);
        assert(a.free_set().contains(i));
        assert(x == a.start() + 4096 * i);
    }
}

/// A run of frames is free before it is handed out and used after, it is the lowest one of its
/// length, and no frame beside it changes; only without such a run is there nothing.
pub proof fn law_run_is_lowest(
    a: FrameAllocator,
    b: FrameAllocator,
    n: int,
    r: Option<PhysAddr>,
    j: int,
    k: int,
)
    requires
        a.wf(),
        n > 0,
        a.alloc_contiguous_post(n, b, r),
    ensures
        (forall|m: int| j <= m < j + n ==> #[trigger] a.free_set().contains(m)) ==> (r matches Some(
            x,
        ) && x <= a.start() + 4096 * j),
        r matches Some(x) ==> {
            let i = (x - a.start()) / 4096;
            &&& x == a.start() + 4096 * i
            &&& i <= k < i + n ==> a.free_set().contains(k) && !b.free_set().contains(k)
            &&& !(i <= k < i + n) ==> (b.free_set().contains(k) <==> a.free_set().contains(k))
        },
        r is None ==> b.free_set() == a.free_set(),
{
    a.lemma_window();
    if forall|m: int| j <= m < j + n ==> #[trigger] a.free_set().contains(m) {
        assert(run_free(a.free_set(), j, n));
        assert(a.free_set().contains(j));
    }
    if let Some(x) = r {
        let i = a.frame_of(x as int);
        if i <= k < i + n {
            assert(a.free_set().contains(k));
        }
    }
}

/// No run of no frames is handed out.
pub proof fn law_empty_run_is_refused(a: FrameAllocator, b: FrameAllocator, r: Option<PhysAddr>)
    requires
        a.alloc_contiguous_post(0, b, r),
    ensures
        r is None,
        b.free_set() == a.free_set(),
{
}

/// Freeing a frame of the window makes that frame free and changes no other.
pub proof fn law_free_returns_one_frame(a: FrameAllocator, b: FrameAllocator, i: int, k: int)
    requires
        0 <= i < a.total(),
        0 <= a.start() + 4096 * i <= u64::MAX,
        a.free_post((a.start() + 4096 * i) as u64, b),
    ensures
        b.free_set().contains(i),
        k != i ==> (b.free_set().contains(k) <==> a.free_set().contains(k)),
        b.total() == a.total(),
{
}

/// Freeing what is behind the last whole frame changes nothing.
pub proof fn law_free_behind_the_end(a: FrameAllocator, b: FrameAllocator, addr: PhysAddr)
    requires
        (addr - a.start()) / 4096 >= a.total(),
        a.free_post(addr, b),
    ensures
        b.free_set() == a.free_set(),
        b.total() == a.total(),
{
}

} // verus!
