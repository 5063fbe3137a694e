//! Translation control values.

use vstd::prelude::*;
use crate::bits::lemma_low_bits;

verus! {

/// MAIR_EL1: index 0 is Normal WB/WA, index 1 is Device-nGnRnE.
pub const MAIR: u64 = 0xFF;

/// SCTLR_EL1 bits that turn on the MMU (M), the data cache (C) and the
/// instruction cache (I).
pub const SCTLR_MCI: u64 = 0x1005;

/// TCR_EL1 without the IPS field: 48-bit VAs, 4 KiB granules, inner-shareable
/// write-back walks, top-byte-ignore.
pub const TCR_BASE: u64 = 0x20_B510_3510;

/// True if an SCTLR_EL1 value has the MMU enabled.
pub fn is_enabled(sctlr: u64) -> (r: bool)
    ensures
        r == (sctlr % 2 == 1),
{
    assert((sctlr & 1 != 0) == (sctlr % 2 == 1)) by (bit_vector);
    sctlr & 1 != 0
}

/// The SCTLR_EL1 value that enables the MMU and the caches.
pub fn enable_bits(sctlr: u64) -> (r: u64)
    ensures
        r == sctlr | SCTLR_MCI,
        r & 1 != 0,
        r & 4 != 0,
        r & 0x1000 != 0,
{
    assert((sctlr | 0x1005) & 1 != 0 && (sctlr | 0x1005) & 4 != 0 && (sctlr | 0x1005) & 0x1000
        != 0) by (bit_vector);
    sctlr | SCTLR_MCI
}

/// IPS field of TCR_EL1 from an ID_AA64MMFR0_EL1 value: PARANGE, clamped to 42
/// to 48 bits.
pub open spec fn ips_field(mmfr0: u64) -> u64 {
    let p = mmfr0 % 16;
    if p < 3 {
        3
    } else if p > 5 {
        5
    } else {
        p
    }
}

/// TCR_EL1 for a CPU with the given ID_AA64MMFR0_EL1 value.
pub fn tcr_value(mmfr0: u64) -> (tcr: u64)
    ensures
        tcr == TCR_BASE | (ips_field(mmfr0) << 32u64),
        (tcr / 0x1_0000_0000) % 8 == ips_field(mmfr0),
{
    proof {
        lemma_low_bits(mmfr0);
    }
    let parange: u64 = mmfr0 & 0xF;
    let ips: u64 = if parange < 3 {
        3
    } else if parange > 5 {
        5
    } else {
        parange
    };
    assert(ips < 8 ==> ((0x20_B510_3510u64 | (ips << 32u64)) / 0x1_0000_0000) % 8 == ips)
        by (bit_vector);
    TCR_BASE | (ips << 32u64)
}

/// A step that switches the MMU on.
#[derive(Debug, Clone, Copy, PartialEq, Eq, Structural)]
pub enum MmuStep {
    /// Make the table writes visible.
    DsbIsh,
    /// Write TTBR0_EL1 and synchronize.
    SetTtbr0(u64),
    /// Cache and TLB maintenance with the MMU off.
    Before,
    /// Write SCTLR_EL1 and synchronize.
    SetSctlr(u64),
    /// TLB maintenance with the MMU on.
    After,
}

/// Steps that switch the MMU on with the tables at `ttbr0`, where SCTLR_EL1 reads `sctlr`.
pub fn switch_on(ttbr0: u64, sctlr: u64) -> (r: Vec<MmuStep>)
    ensures
        r@ == seq![
            MmuStep::DsbIsh,
            MmuStep::SetTtbr0(ttbr0),
            MmuStep::Before,
            MmuStep::SetSctlr(sctlr | SCTLR_MCI),
            MmuStep::After,
        ],
{
    let mut r: Vec<MmuStep> = Vec::new();
    r.push(MmuStep::DsbIsh);
    r.push(MmuStep::SetTtbr0(ttbr0));
    r.push(MmuStep::Before);
    r.push(MmuStep::SetSctlr(enable_bits(sctlr)));
    r.push(MmuStep::After);
    assert(r@ =~= seq![
        MmuStep::DsbIsh,
        MmuStep::SetTtbr0(ttbr0),
        MmuStep::Before,
        MmuStep::SetSctlr(sctlr | SCTLR_MCI),
        MmuStep::After,
    ]);
    r
}

/// The size of physical addresses is the machine's, but at least 42 bits (code 3) and at most 48
/// (code 5).
pub proof fn law_address_size_is_bounded(mmfr0: u64)
    ensures
        mmfr0 % 16 <= 3 ==> ips_field(mmfr0) == 3,
        mmfr0 % 16 == 4 ==> ips_field(mmfr0) == 4,
        mmfr0 % 16 >= 5 ==> ips_field(mmfr0) == 5,
{
}

} // verus!
