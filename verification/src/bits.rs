//! Facts about single bits and power-of-two alignment.

use vstd::prelude::*;

verus! {

/// Bit `b` of the word `w`.
pub open spec fn bit(w: u64, b: u64) -> bool {
    (w >> b) & 1 == 1
}

/// How testing, setting and clearing bit `b` of `w` shows in each bit `j`.
pub proof fn lemma_bits(w: u64, b: u64, j: u64)
    by (bit_vector)
    requires
        b < 64,
        j < 64,
    ensures
        (w & (1u64 << b) != 0) == ((w >> b) & 1 == 1),
        (((w | (1u64 << b)) >> j) & 1 == 1) == (j == b || (w >> j) & 1 == 1),
        (((w & !(1u64 << b)) >> j) & 1 == 1) == (j != b && (w >> j) & 1 == 1),
        (!0u64 >> j) & 1 == 1,
        (0u64 >> j) & 1 == 0,
{
}

/// Masking off low bits rounds down; the masked-off part is the remainder.
pub proof fn lemma_align(x: u64)
    by (bit_vector)
    ensures
        x & !0xFFFu64 == x - x % 4096,
        x & 0xFFFu64 == x % 4096,
        x & !0x1F_FFFFu64 == x - x % 0x20_0000,
        x & 0x1F_FFFFu64 == x % 0x20_0000,
        x & !63u64 == x - x % 64,
        x & !3u64 == x - x % 4,
        x & 3u64 == x % 4,
        x & 7u64 == x % 8,
{
}

/// Low fields of a register.
pub proof fn lemma_low_bits(x: u64)
    by (bit_vector)
    ensures
        x & 0xFF == x % 256,
        x & 0xF == x % 16,
        x & 0x3F == x % 64,
        x & 0xFFFF == x % 65536,
        x & 0xFFFF_FFFF == x % 0x1_0000_0000,
        (x as u32) == x % 0x1_0000_0000,
        (x as u16) == x % 65536,
        (x as u8) == x % 256,
{
}

} // verus!
