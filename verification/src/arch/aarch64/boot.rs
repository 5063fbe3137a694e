//! What the boot registers say.

use vstd::prelude::*;
use crate::bits::lemma_low_bits;

verus! {

/// Exception level from a CurrentEL value (bits [3:2]).
pub fn current_el(reg: u64) -> (el: u8)
    ensures
        el == (reg / 4) % 4,
{
    assert((reg >> 2) & 0x3 == (reg / 4) % 4) by (bit_vector);
    ((reg >> 2) & 0x3) as u8
}

/// True if an MPIDR value names the boot CPU (Aff0 and Aff1 are 0).
pub fn is_primary_cpu(mpidr: u64) -> (r: bool)
    ensures
        r == (mpidr % 65536 == 0),
{
    proof {
        lemma_low_bits(mpidr);
    }
    mpidr & 0xFFFF == 0
}

} // verus!
