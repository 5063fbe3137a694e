//! Interrupt pending bookkeeping: which device interrupts have been delivered
//! and not yet consumed by a waiter.

use vstd::prelude::*;

verus! {

/// Interrupts that can be recorded: PPIs and the virtio SPI window.
pub const IRQ_MAX: usize = 96;

/// The recorded interrupts.
pub struct PendingIrqs {
    pub bits: [bool; IRQ_MAX],
}

impl PendingIrqs {
    /// Interrupt `i` is recorded.
    pub open spec fn has(self, i: int) -> bool {
        0 <= i < IRQ_MAX && self.bits@[i]
    }

    /// No interrupt recorded.
    pub fn new() -> (p: Self)
        ensures
            forall|i: int| !#[trigger] p.has(i),
    {
        PendingIrqs { bits: [false;IRQ_MAX] }
    }
}

/// `b` is `a` with interrupt `intid` recorded or not; those that cannot be
/// recorded are ignored.
pub open spec fn marked(a: PendingIrqs, b: PendingIrqs, intid: u32, on: bool) -> bool {
    forall|i: int| #[trigger]
        b.has(i) == if i == intid && i < IRQ_MAX {
            on
        } else {
            a.has(i)
        }
}

/// Record a delivered interrupt.
pub fn note_pending(p: &mut PendingIrqs, intid: u32)
    ensures
        marked(*old(p), *final(p), intid, true),
{
    if (intid as usize) < IRQ_MAX {
        p.bits[intid as usize] = true;
    }
}

/// True if `intid` has been delivered and not yet consumed.
pub fn pending(p: &PendingIrqs, intid: u32) -> (r: bool)
    ensures
        r == p.has(intid as int),
{
    if (intid as usize) < IRQ_MAX {
        p.bits[intid as usize]
    } else {
        false
    }
}

/// Consume a recorded interrupt: test and clear.
pub fn take_pending(p: &mut PendingIrqs, intid: u32) -> (r: bool)
    ensures
        r == old(p).has(intid as int),
        marked(*old(p), *final(p), intid, false),
{
    if (intid as usize) < IRQ_MAX {
        let r: bool = p.bits[intid as usize];
        p.bits[intid as usize] = false;
        r
    } else {
        false
    }
}

/// Clear a recorded interrupt.
pub fn clear_pending(p: &mut PendingIrqs, intid: u32)
    ensures
        marked(*old(p), *final(p), intid, false),
{
    if (intid as usize) < IRQ_MAX {
        p.bits[intid as usize] = false;
    }
}

/// An interrupt recorded once is consumed once: the first take sees it, the
/// next does not.
pub proof fn law_consumed_once(
    a: PendingIrqs,
    b: PendingIrqs,
    c: PendingIrqs,
    intid: u32,
)
    requires
        intid < IRQ_MAX,
        marked(a, b, intid, true),
        marked(b, c, intid, false),
    ensures
        b.has(intid as int),
        !c.has(intid as int),
        forall|i: int| i != intid ==> #[trigger] c.has(i) == a.has(i),
{
}

} // verus!
