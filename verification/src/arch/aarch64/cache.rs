//! Cache maintenance: the lines to maintain and the order of operations.

use vstd::prelude::*;
use crate::bits::lemma_align;

verus! {

/// Bytes per cache line.
pub const CACHE_LINE: u64 = 64;

/// A barrier or maintenance operation on the whole system.
#[derive(Debug, Clone, Copy, PartialEq, Eq, Structural)]
pub enum CacheOp {
    /// Full system barrier.
    DsbSy,
    /// Inner-shareable barrier.
    DsbIsh,
    /// Outer-shareable barrier.
    DsbOsh,
    /// Instruction synchronization barrier.
    Isb,
    /// Flush the TLB of the stage-1 translation and synchronize.
    TlbFlushAll,
    /// Invalidate the instruction cache.
    InvalidateIcacheAll,
    /// Clean the line that holds an address.
    CleanLine(u64),
    /// Invalidate the line that holds an address.
    InvalidateLine(u64),
}

/// Number of lines that `[va, va + size)` touches.
pub open spec fn line_count(va: u64, size: u64) -> int {
    if size == 0 {
        0
    } else {
        (va + size + 63) / 64 - va / 64
    }
}

/// Address of line `i` of those that a range at `va` touches.
pub open spec fn line(va: u64, i: int) -> u64 {
    ((va / 64 + i) * 64) as u64
}

/// The addresses of the lines that `[va, va + size)` touches, in order.
pub fn lines(va: u64, size: u64) -> (r: Vec<u64>)
    requires
        va + size + 63 <= u64::MAX,
    ensures
        r@.len() == line_count(va, size),
        forall|i: int| 0 <= i < r@.len() ==> #[trigger] r@[i] == line(va, i),
{
    let mut r: Vec<u64> = Vec::new();
    if size == 0 {
        return r;
    }
    proof {
        lemma_align(va);
        lemma_align((va + size + 63) as u64);
    }
    let mut a: u64 = va & !63u64;
    let end: u64 = (va + size + 63) & !63u64;
    while a < end
        invariant
            va + size + 63 <= u64::MAX,
            size > 0,
            end == (va + size + 63) / 64 * 64,
            a == (va as int / 64 + r@.len()) * 64,
            a <= end,
            forall|i: int| 0 <= i < r@.len() ==> #[trigger] r@[i] == line(va, i),
        decreases end - a,
    {
        r.push(a);
        if a > u64::MAX - 64 {
            assert(false);
        }
        a = a + 64;
    }
    r
}

/// Operations that clean `[va, va + size)` so that a device sees every byte.
pub fn clean_dcache_range(va: u64, size: u64) -> (r: Vec<CacheOp>)
    requires
        va + size + 63 <= u64::MAX,
    ensures
        size == 0 ==> r@.len() == 0,
        size > 0 ==> r@.len() == line_count(va, size) + 1 && r@[line_count(va, size)]
            == CacheOp::DsbOsh,
        forall|i: int|
            0 <= i < line_count(va, size) ==> #[trigger] r@[i] == CacheOp::CleanLine(line(va, i)),
{
    let mut r: Vec<CacheOp> = Vec::new();
    if size == 0 {
        return r;
    }
    let l = lines(va, size);
    let mut i: usize = 0;
    while i < l.len()
        invariant
            i <= l@.len(),
            r@.len() == i,
            l@.len() == line_count(va, size),
            forall|k: int| 0 <= k < l@.len() ==> #[trigger] l@[k] == line(va, k),
            forall|k: int| 0 <= k < i ==> #[trigger] r@[k] == CacheOp::CleanLine(line(va, k)),
        decreases l.len() - i,
    {
        r.push(CacheOp::CleanLine(l[i]));
        i = i + 1;
    }
    r.push(CacheOp::DsbOsh);
    r
}

/// Operations that invalidate `[va, va + size)` so that the CPU sees what a
/// device wrote.
pub fn invalidate_dcache_range(va: u64, size: u64) -> (r: Vec<CacheOp>)
    requires
        va + size + 63 <= u64::MAX,
    ensures
        size == 0 ==> r@.len() == 0,
        size > 0 ==> r@.len() == line_count(va, size) + 1 && r@[line_count(va, size)]
            == CacheOp::DsbOsh,
        forall|i: int|
            0 <= i < line_count(va, size) ==> #[trigger] r@[i] == CacheOp::InvalidateLine(
                line(va, i),
            ),
{
    let mut r: Vec<CacheOp> = Vec::new();
    if size == 0 {
        return r;
    }
    let l = lines(va, size);
    let mut i: usize = 0;
    while i < l.len()
        invariant
            i <= l@.len(),
            r@.len() == i,
            l@.len() == line_count(va, size),
            forall|k: int| 0 <= k < l@.len() ==> #[trigger] l@[k] == line(va, k),
            forall|k: int| 0 <= k < i ==> #[trigger] r@[k] == CacheOp::InvalidateLine(line(va, k)),
        decreases l.len() - i,
    {
        r.push(CacheOp::InvalidateLine(l[i]));
        i = i + 1;
    }
    r.push(CacheOp::DsbOsh);
    r
}

/// Operations that clean, then invalidate `[va, va + size)`.
pub fn clean_invalidate_dcache_range(va: u64, size: u64) -> (r: Vec<CacheOp>)
    requires
        va + size + 63 <= u64::MAX,
        2 * (line_count(va, size) + 1) <= usize::MAX,
    ensures
        size == 0 ==> r@.len() == 0,
        size > 0 ==> {
            let n = line_count(va, size);
            &&& r@.len() == 2 * n + 2
            &&& forall|i: int| 0 <= i < n ==> #[trigger] r@[i] == CacheOp::CleanLine(line(va, i))
            &&& r@[n] == CacheOp::DsbOsh
            &&& forall|i: int|
                n + 1 <= i < 2 * n + 1 ==> #[trigger] r@[i] == CacheOp::InvalidateLine(
                    line(va, i - n - 1),
                )
            &&& r@[2 * n + 1] == CacheOp::DsbOsh
        },
{
    let mut r = clean_dcache_range(va, size);
    let mut inv = invalidate_dcache_range(va, size);
    r.append(&mut inv);
    r
}

/// Every byte of a range lies in exactly one of its lines.
pub proof fn law_lines_cover(va: u64, size: u64, b: u64)
    requires
        va + size + 63 <= u64::MAX,
        va <= b < va + size,
    ensures
        ({
            let i = b as int / 64 - va as int / 64;
            &&& 0 <= i < line_count(va, size)
            &&& line(va, i) <= b < line(va, i) + 64
        }),
        forall|j: int|
            0 <= j < line_count(va, size) && #[trigger] line(va, j) <= b < line(va, j) + 64 ==> j
                == b as int / 64 - va as int / 64,
{
}

/// What must run before the MMU is enabled: table writes visible, stale TLB
/// entries and instructions gone.
pub fn before_mmu_enable() -> (r: Vec<CacheOp>)
    ensures
        r@ == seq![CacheOp::DsbIsh, CacheOp::TlbFlushAll, CacheOp::InvalidateIcacheAll],
{
    let r = vec![CacheOp::DsbIsh, CacheOp::TlbFlushAll, CacheOp::InvalidateIcacheAll];
    assert(r@ =~= seq![CacheOp::DsbIsh, CacheOp::TlbFlushAll, CacheOp::InvalidateIcacheAll]);
    r
}

/// What must run after the MMU has been enabled.
pub fn after_mmu_enable() -> (r: Vec<CacheOp>)
    ensures
        r@ == seq![CacheOp::TlbFlushAll, CacheOp::DsbIsh, CacheOp::Isb],
{
    let r = vec![CacheOp::TlbFlushAll, CacheOp::DsbIsh, CacheOp::Isb];
    assert(r@ =~= seq![CacheOp::TlbFlushAll, CacheOp::DsbIsh, CacheOp::Isb]);
    r
}

/// The lines of a range follow each other 64 bytes apart; the first holds the first byte of the
/// range and the last one the last byte, so none is there in vain.
pub proof fn law_lines_are_tight(va: u64, size: u64, i: int)
    requires
        size > 0,
        va + size + 63 <= u64::MAX,
        0 <= i < line_count(va, size),
    ensures
        line_count(va, 0) == 0,
        line(va, 0) % 64 == 0,
        line(va, 0) <= va < line(va, 0) + 64,
        line(va, i) == line(va, 0) + 64 * i,
        ({
            let last = line(va, line_count(va, size) - 1);
            last < va + size <= last + 64
        }),
{
}

} // verus!
