//! Numbers as text.

use vstd::prelude::*;
use vstd::utf8::encode_utf8;
use crate::bytes::append;

verus! {

/// The decimal digits of `n`.
pub open spec fn decimal(n: nat) -> Seq<u8>
    decreases n,
{
    if n < 10 {
        seq![(0x30 + n) as u8]
    } else {
        decimal(n / 10).push((0x30 + n % 10) as u8)
    }
}

/// Add the decimal digits of `n`.
pub fn push_decimal(out: &mut Vec<u8>, n: u64)
    ensures
        final(out)@ == old(out)@ + decimal(n as nat),
    decreases n,
{
    let ghost pre = out@;
    if n >= 10 {
        push_decimal(out, n / 10);
    }
    out.push(0x30 + (n % 10) as u8);
    assert(out@ =~= pre + decimal(n as nat));
}

/// The hexadecimal digit `d`.
pub open spec fn hex_digit(d: int) -> u8 {
    if d < 10 {
        (0x30 + d) as u8
    } else {
        (0x57 + d) as u8
    }
}

/// The last `n` hexadecimal digits of `v`.
pub open spec fn hex_digits(v: nat, n: nat) -> Seq<u8>
    decreases n,
{
    if n == 0 {
        Seq::empty()
    } else {
        hex_digits(v / 16, (n - 1) as nat).push(hex_digit((v % 16) as int))
    }
}

/// Number of hexadecimal digits of `v`.
pub open spec fn hex_len(v: nat) -> nat
    decreases v,
{
    if v < 16 {
        1
    } else {
        1 + hex_len(v / 16)
    }
}

/// Add the last `n` hexadecimal digits of `v`.
pub fn push_hex_digits(out: &mut Vec<u8>, v: u64, n: u32)
    ensures
        final(out)@ == old(out)@ + hex_digits(v as nat, n as nat),
    decreases n,
{
    let ghost pre = out@;
    if n > 0 {
        push_hex_digits(out, v / 16, n - 1);
        let d: u8 = (v % 16) as u8;
        if d < 10 {
            out.push(0x30 + d);
        } else {
            out.push(0x57 + d);
        }
    }
    assert(out@ =~= pre + hex_digits(v as nat, n as nat));
}

/// `0x` and the hexadecimal digits of `v`, at least `min` of them.
pub open spec fn hex(v: nat, min: nat) -> Seq<u8> {
    encode_utf8("0x"@) + hex_digits(
        v,
        if hex_len(v) < min {
            min
        } else {
            hex_len(v)
        },
    )
}

fn count_hex(v: u64) -> (n: u32)
    ensures
        n == hex_len(v as nat),
        n <= 16,
{
    let mut n: u32 = 1;
    let mut rest: u64 = v;
    let mut top: u64 = u64::MAX;
    while rest >= 16
        invariant
            n + hex_len(rest as nat) == hex_len(v as nat) + 1,
            rest <= top,
            1 <= n <= 16,
            n == 1 ==> top == u64::MAX,
            n == 2 ==> top == 0xFFF_FFFF_FFFF_FFFF,
            n == 3 ==> top == 0xFF_FFFF_FFFF_FFFF,
            n == 4 ==> top == 0xF_FFFF_FFFF_FFFF,
            n == 5 ==> top == 0xFFFF_FFFF_FFFF,
            n == 6 ==> top == 0xFFF_FFFF_FFFF,
            n == 7 ==> top == 0xFF_FFFF_FFFF,
            n == 8 ==> top == 0xF_FFFF_FFFF,
            n == 9 ==> top == 0xFFFF_FFFF,
            n == 10 ==> top == 0xFFF_FFFF,
            n == 11 ==> top == 0xFF_FFFF,
            n == 12 ==> top == 0xF_FFFF,
            n == 13 ==> top == 0xFFFF,
            n == 14 ==> top == 0xFFF,
            n == 15 ==> top == 0xFF,
            n == 16 ==> top == 0xF,
        decreases rest,
    {
        rest = rest / 16;
        top = top / 16;
        n = n + 1;
    }
    n
}

/// Add `0x` and the hexadecimal digits of `v`, at least `min` of them.
pub fn push_hex(out: &mut Vec<u8>, v: u64, min: u32)
    ensures
        final(out)@ == old(out)@ + hex(v as nat, min as nat),
{
    let ghost pre = out@;
    append(out, "0x".as_bytes());
    let n: u32 = count_hex(v);
    push_hex_digits(
        out,
        v,
        if n < min {
            min
        } else {
            n
        },
    );
    assert(out@ =~= pre + hex(v as nat, min as nat));
}

/// The number that hexadecimal digits stand for.
pub open spec fn hex_value(s: Seq<u8>) -> nat
    decreases s.len(),
{
    if s.len() == 0 {
        0
    } else {
        let d = s.last();
        16 * hex_value(s.drop_last()) + if d < 0x57 {
            (d - 0x30) as nat
        } else {
            (d - 0x57) as nat
        }
    }
}

/// The digits of a number stand for it again.
pub proof fn law_hex_round_trip(v: u64)
    ensures
        hex_value(hex_digits(v as nat, 16)) == v,
{
    assert(pow16(16) == 0x1_0000_0000_0000_0000) by {
        reveal_with_fuel(pow16, 17);
    }
    lemma_hex_value(v as nat, 16);
}

/// 16 to the power `n`.
pub open spec fn pow16(n: nat) -> nat
    decreases n,
{
    if n == 0 {
        1
    } else {
        16 * pow16((n - 1) as nat)
    }
}

proof fn lemma_hex_value(v: nat, n: nat)
    requires
        v < pow16(n),
    ensures
        hex_value(hex_digits(v, n)) == v,
    decreases n,
{
    if n > 0 {
        lemma_hex_value(v / 16, (n - 1) as nat);
        let s = hex_digits(v, n);
        assert(s.drop_last() =~= hex_digits(v / 16, (n - 1) as nat));
        assert(s.last() == hex_digit((v % 16) as int));
    }
}

/// The number that decimal digits stand for.
pub open spec fn decimal_value(s: Seq<u8>) -> int
    decreases s.len(),
{
    if s.len() == 0 {
        0
    } else {
        10 * decimal_value(s.drop_last()) + (s.last() - 48)
    }
}

/// The decimal text of a number is made of digits, does not begin with 0 unless it is that, and
/// stands for the number.
pub proof fn law_decimal_round_trip(n: nat, k: int)
    requires
        0 <= k < decimal(n).len(),
    ensures
        decimal_value(decimal(n)) == n,
        48 <= decimal(n)[k] <= 57,
        n > 0 ==> decimal(n)[0] != 48,
    decreases n,
{
    let s = decimal(n);
    if n < 10 {
        reveal_with_fuel(decimal_value, 2);
        assert(s.drop_last() =~= Seq::empty());
    } else {
        let t = decimal(n / 10);
        assert(s.drop_last() =~= t);
        assert(t.len() > 0);
        law_decimal_round_trip(n / 10, if k < t.len() {
            k
        } else {
            0
        });
    }
}

/// Hexadecimal text has as many digits as asked for, each for the bits of its place, with the
/// letters small.
pub proof fn law_hex_digits(v: nat, n: nat, d: int)
    requires
        0 <= d < 16,
    ensures
        hex_digits(v, n).len() == n,
        n > 0 ==> hex_digits(v, n).last() == hex_digit((v % 16) as int) && hex_digits(
            v,
            n,
        ).drop_last() == hex_digits(v / 16, (n - 1) as nat),
        d < 10 ==> hex_digit(d) == 48 + d,
        d >= 10 ==> hex_digit(d) == 97 + (d - 10),
    decreases n,
{
    if n > 0 {
        law_hex_digits(v / 16, (n - 1) as nat, d);
        assert(hex_digits(v, n).drop_last() =~= hex_digits(v / 16, (n - 1) as nat));
    }
}

/// A number is written with as many digits as it needs, and with more where more are asked for,
/// behind `0x`.
pub proof fn law_hex_is_as_long_as_needed(v: nat, min: nat)
    ensures
        v < pow16(hex_len(v)),
        hex_len(v) > 1 ==> pow16((hex_len(v) - 1) as nat) <= v,
        hex_len(v) >= 1,
        min > hex_len(v) ==> hex(v, min) == encode_utf8("0x"@) + hex_digits(v, min),
        min <= hex_len(v) ==> hex(v, min) == encode_utf8("0x"@) + hex_digits(v, hex_len(v)),
    decreases v,
{
    reveal_with_fuel(pow16, 2);
    if v >= 16 {
        law_hex_is_as_long_as_needed(v / 16, min);
        if hex_len(v / 16) > 1 {
            assert(pow16((hex_len(v) - 1) as nat) == 16 * pow16((hex_len(v / 16) - 1) as nat));
        }
    }
}

} // verus!
