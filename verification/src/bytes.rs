//! Integers in byte sequences.

use vstd::prelude::*;

verus! {

/// Big-endian 32-bit integer at `i`.
pub open spec fn be32(s: Seq<u8>, i: int) -> int {
    s[i] * 0x100_0000 + s[i + 1] * 0x1_0000 + s[i + 2] * 0x100 + s[i + 3]
}

/// Little-endian 16-bit integer at `i`.
pub open spec fn le16(s: Seq<u8>, i: int) -> int {
    s[i] + s[i + 1] * 0x100
}

/// Little-endian 32-bit integer at `i`.
pub open spec fn le32(s: Seq<u8>, i: int) -> int {
    le16(s, i) + le16(s, i + 2) * 0x1_0000
}

/// Little-endian 64-bit integer at `i`.
pub open spec fn le64(s: Seq<u8>, i: int) -> int {
    le32(s, i) + le32(s, i + 4) * 0x1_0000_0000
}

/// Read a big-endian 32-bit integer.
pub fn read_be32(s: &[u8], i: usize) -> (v: u32)
    requires
        i + 4 <= s@.len(),
    ensures
        v == be32(s@, i as int),
{
    s[i] as u32 * 0x100_0000 + s[i + 1] as u32 * 0x1_0000 + s[i + 2] as u32 * 0x100 + s[i
        + 3] as u32
}

/// Read a little-endian 16-bit integer.
pub fn read_le16(s: &[u8], i: usize) -> (v: u16)
    requires
        i + 2 <= s@.len(),
    ensures
        v == le16(s@, i as int),
{
    s[i] as u16 + s[i + 1] as u16 * 0x100
}

/// Read a little-endian 32-bit integer.
pub fn read_le32(s: &[u8], i: usize) -> (v: u32)
    requires
        i + 4 <= s@.len(),
    ensures
        v == le32(s@, i as int),
{
    assert(s.len() == s@.len());
    read_le16(s, i) as u32 + read_le16(s, i + 2) as u32 * 0x1_0000
}

/// Read a little-endian 64-bit integer.
pub fn read_le64(s: &[u8], i: usize) -> (v: u64)
    requires
        i + 8 <= s@.len(),
    ensures
        v == le64(s@, i as int),
{
    assert(s.len() == s@.len());
    read_le32(s, i) as u64 + read_le32(s, i + 4) as u64 * 0x1_0000_0000
}

/// The eight bytes of a little-endian 64-bit integer.
#[verifier::opaque]
pub open spec fn le64_bytes(v: u64) -> Seq<u8> {
    Seq::new(8, |k: int| ((v as int / pow256(k)) % 256) as u8)
}

/// The four bytes of a little-endian 32-bit integer.
pub open spec fn le32_bytes(v: u32) -> Seq<u8> {
    seq![
        (v % 0x100) as u8,
        (v / 0x100 % 0x100) as u8,
        (v / 0x1_0000 % 0x100) as u8,
        (v / 0x100_0000) as u8,
    ]
}

/// The bytes of an integer read back as it.
pub proof fn law_le32_round_trip(v: u32)
    ensures
        le32(le32_bytes(v), 0) == v,
{
    assert(v % 0x100 + (v / 0x100 % 0x100) * 0x100 + (v / 0x1_0000 % 0x100) * 0x1_0000 + (v
        / 0x100_0000) * 0x100_0000 == v) by (bit_vector);
}

/// 256 to the power `k`, for `k` below 8.
pub open spec fn pow256(k: int) -> int {
    if k == 0 {
        1
    } else if k == 1 {
        0x100
    } else if k == 2 {
        0x1_0000
    } else if k == 3 {
        0x100_0000
    } else if k == 4 {
        0x1_0000_0000
    } else if k == 5 {
        0x100_0000_0000
    } else if k == 6 {
        0x1_0000_0000_0000
    } else {
        0x100_0000_0000_0000
    }
}

/// The bytes of an integer read back as it.
pub proof fn law_le64_round_trip(v: u64)
    ensures
        le64(le64_bytes(v), 0) == v,
{
    reveal(le64_bytes);
    let b = le64_bytes(v);
    assert(b[0] == v % 0x100);
    assert(b[1] == v / 0x100 % 0x100);
    assert(b[2] == v / 0x1_0000 % 0x100);
    assert(b[3] == v / 0x100_0000 % 0x100);
    assert(b[4] == v / 0x1_0000_0000 % 0x100);
    assert(b[5] == v / 0x100_0000_0000 % 0x100);
    assert(b[6] == v / 0x1_0000_0000_0000 % 0x100);
    assert(b[7] == v / 0x100_0000_0000_0000 % 0x100);
    assert(v % 0x100 + (v / 0x100 % 0x100) * 0x100 + (v / 0x1_0000 % 0x100) * 0x1_0000 + (v
        / 0x100_0000 % 0x100) * 0x100_0000 + (v / 0x1_0000_0000 % 0x100) * 0x1_0000_0000 + (v
        / 0x100_0000_0000 % 0x100) * 0x100_0000_0000 + (v / 0x1_0000_0000_0000 % 0x100)
        * 0x1_0000_0000_0000 + (v / 0x100_0000_0000_0000 % 0x100) * 0x100_0000_0000_0000 == v)
        by (bit_vector);
}

/// The bytes of a little-endian 64-bit integer.
pub fn bytes_of(v: u64) -> (b: [u8; 8])
    ensures
        b@ == le64_bytes(v),
{
    let b: [u8; 8] = [
        (v % 0x100) as u8,
        (v / 0x100 % 0x100) as u8,
        (v / 0x1_0000 % 0x100) as u8,
        (v / 0x100_0000 % 0x100) as u8,
        (v / 0x1_0000_0000 % 0x100) as u8,
        (v / 0x100_0000_0000 % 0x100) as u8,
        (v / 0x1_0000_0000_0000 % 0x100) as u8,
        (v / 0x100_0000_0000_0000 % 0x100) as u8,
    ];
    proof {
        reveal(le64_bytes);
        assert(b@ =~= le64_bytes(v));
    }
    b
}

/// `s` with `data` written at `at`; what falls outside is dropped.
pub open spec fn put(s: Seq<u8>, at: int, data: Seq<u8>) -> Seq<u8> {
    Seq::new(
        s.len(),
        |i: int|
            if at <= i < at + data.len() {
                data[i - at]
            } else {
                s[i]
            },
    )
}

/// `n` zero bytes.
pub open spec fn zeros(n: int) -> Seq<u8> {
    Seq::new(n as nat, |i: int| 0u8)
}

/// `a` is `b` byte for byte.
pub fn same_bytes(a: &[u8], b: &[u8]) -> (r: bool)
    ensures
        r == (a@ == b@),
{
    if a.len() != b.len() {
        return false;
    }
    let mut i: usize = 0;
    while i < a.len()
        invariant
            i <= a@.len(),
            a@.len() == b@.len(),
            forall|k: int| 0 <= k < i ==> #[trigger] a@[k] == b@[k],
        decreases a.len() - i,
    {
        if a[i] != b[i] {
            return false;
        }
        i = i + 1;
    }
    assert(a@ =~= b@);
    true
}

/// `s` begins with `prefix`.
pub open spec fn begins_with(s: Seq<u8>, prefix: Seq<u8>) -> bool {
    s.len() >= prefix.len() && s.take(prefix.len() as int) == prefix
}

/// `s` begins with `prefix`.
pub fn starts_with(s: &[u8], prefix: &[u8]) -> (r: bool)
    ensures
        r == begins_with(s@, prefix@),
{
    if s.len() < prefix.len() {
        return false;
    }
    let mut i: usize = 0;
    while i < prefix.len()
        invariant
            i <= prefix@.len() <= s@.len(),
            forall|k: int| 0 <= k < i ==> #[trigger] s@[k] == prefix@[k],
        decreases prefix.len() - i,
    {
        if s[i] != prefix[i] {
            assert(s@.take(prefix@.len() as int)[i as int] != prefix@[i as int]);
            return false;
        }
        i = i + 1;
    }
    assert(s@.take(prefix@.len() as int) =~= prefix@);
    true
}

/// Add `data` at the end of `out`.
pub fn append(out: &mut Vec<u8>, data: &[u8])
    ensures
        final(out)@ == old(out)@ + data@,
{
    let ghost before = out@;
    let mut i: usize = 0;
    while i < data.len()
        invariant
            i <= data@.len(),
            out@ == before + data@.take(i as int),
        decreases data.len() - i,
    {
        out.push(data[i]);
        assert(out@ =~= before + data@.take(i + 1));
        i = i + 1;
    }
    assert(data@.take(i as int) =~= data@);
}

/// The bytes at an index weigh 1, 256, 65536 and so on from the first, or for a big-endian
/// integer from the last.
pub proof fn law_bytes_weigh(s: Seq<u8>, i: int)
    ensures
        be32(s, i) == s[i + 3] + 256 * s[i + 2] + 65536 * s[i + 1] + 16777216 * s[i],
        le16(s, i) == s[i] + 256 * s[i + 1],
        le32(s, i) == s[i] + 256 * s[i + 1] + 65536 * s[i + 2] + 16777216 * s[i + 3],
        le64(s, i) == s[i] + 256 * s[i + 1] + 65536 * s[i + 2] + 16777216 * s[i + 3] + 0x1_0000_0000
            * (s[i + 4] + 256 * s[i + 5] + 65536 * s[i + 6] + 16777216 * s[i + 7]),
{
}

/// The first byte of a number is what is left over of 256s, the next what is left over of those,
/// and so on.
pub proof fn law_bytes_are_digits(v: u64, w: u32)
    ensures
        le64_bytes(v).len() == 8,
        le64_bytes(v)[0] == v % 256,
        le64_bytes(v)[1] == v / 256 % 256,
        le64_bytes(v)[2] == v / 65536 % 256,
        le64_bytes(v)[3] == v / 16777216 % 256,
        le64_bytes(v)[4] == v / 0x1_0000_0000 % 256,
        le64_bytes(v)[5] == v / 0x100_0000_0000 % 256,
        le64_bytes(v)[6] == v / 0x1_0000_0000_0000 % 256,
        le64_bytes(v)[7] == v / 0x100_0000_0000_0000,
        le32_bytes(w).len() == 4,
        le32_bytes(w)[0] == w % 256,
        le32_bytes(w)[1] == w / 256 % 256,
        le32_bytes(w)[2] == w / 65536 % 256,
        le32_bytes(w)[3] == w / 16777216,
{
    reveal(le64_bytes);
}

/// Writing bytes changes those from the place on and no others; the rest keeps its place.
pub proof fn law_put_changes_only_its_range(s: Seq<u8>, at: int, data: Seq<u8>, k: int, n: int)
    requires
        0 <= k < s.len(),
    ensures
        put(s, at, data).len() == s.len(),
        at <= k && k - at < data.len() ==> put(s, at, data)[k] == data[k - at],
        k < at || k >= at + data.len() ==> put(s, at, data)[k] == s[k],
        0 <= n ==> zeros(n).len() == n,
        0 <= k < n ==> zeros(n)[k] == 0,
{
}

/// A sequence begins with another exactly when it is not shorter and agrees with it in every
/// place that both have.
pub proof fn law_prefix_agrees(s: Seq<u8>, prefix: Seq<u8>)
    ensures
        begins_with(s, prefix) <==> prefix.len() <= s.len() && forall|k: int|
            0 <= k < prefix.len() ==> #[trigger] s[k] == prefix[k],
{
    if begins_with(s, prefix) {
        assert forall|k: int| 0 <= k < prefix.len() implies #[trigger] s[k] == prefix[k] by {
            assert(s.take(prefix.len() as int)[k] == prefix[k]);
        }
    } else if prefix.len() <= s.len() && forall|k: int|
        0 <= k < prefix.len() ==> #[trigger] s[k] == prefix[k] {
        assert(s.take(prefix.len() as int) =~= prefix);
    }
}

} // verus!
