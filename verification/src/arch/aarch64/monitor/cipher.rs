//! Digests, the generator of keys, and the cipher of the keybox.

use vstd::prelude::*;
use crate::bytes::{bytes_of, le32, le32_bytes, le64_bytes, read_le32};

verus! {

/// Start value of an FNV-1a digest.
pub const FNV_OFFSET: u64 = 0xCBF2_9CE4_8422_2325;

/// Multiplier of FNV-1a.
pub const FNV_PRIME: u64 = 0x100_0000_01B3;

/// The digest `h` extended by one byte.
pub open spec fn fnv_step(h: u64, b: u8) -> u64 {
    (h ^ (b as u64)).wrapping_mul(FNV_PRIME)
}

/// The digest `h` extended by the bytes `s`.
pub open spec fn fnv(h: u64, s: Seq<u8>) -> u64
    decreases s.len(),
{
    if s.len() == 0 {
        h
    } else {
        fnv_step(fnv(h, s.drop_last()), s.last())
    }
}

/// Extend the digest `hash` by bytes.
pub fn fnv1a_bytes(hash: u64, s: &[u8]) -> (h: u64)
    ensures
        h == fnv(hash, s@),
{
    let mut h: u64 = hash;
    let mut i: usize = 0;
    assert(s@.take(0) =~= Seq::<u8>::empty());
    while i < s.len()
        invariant
            i <= s@.len(),
            h == fnv(hash, s@.take(i as int)),
        decreases s.len() - i,
    {
        proof {
            let t = s@.take(i + 1);
            assert(t.drop_last() =~= s@.take(i as int));
        }
        h = (h ^ s[i] as u64).wrapping_mul(FNV_PRIME);
        i = i + 1;
    }
    assert(s@.take(i as int) =~= s@);
    h
}

/// FNV-1a digest of a region of memory: what a measurement of it is.
pub fn fnv1a(s: &[u8]) -> (h: u64)
    ensures
        h == fnv(FNV_OFFSET, s@),
{
    fnv1a_bytes(FNV_OFFSET, s)
}

/// Extend a digest by the bytes of a word, lowest first.
pub fn fnv1a_extend(hash: u64, word: u64) -> (h: u64)
    ensures
        h == fnv(hash, le64_bytes(word)),
{
    let b = bytes_of(word);
    fnv1a_bytes(hash, b.as_slice())
}

/// A digest can be taken piece by piece.
pub proof fn law_digest_extends(h: u64, a: Seq<u8>, b: Seq<u8>)
    ensures
        fnv(h, a + b) == fnv(fnv(h, a), b),
    decreases b.len(),
{
    if b.len() == 0 {
        assert(a + b =~= a);
    } else {
        law_digest_extends(h, a, b.drop_last());
        assert((a + b).drop_last() =~= a + b.drop_last());
    }
}

/// Multiplying by the prime can be undone.
proof fn lemma_prime(x: u64)
    ensures
        (x.wrapping_mul(FNV_PRIME) as int * 0xCE96_5057_AFF6_957B) % 0x1_0000_0000_0000_0000 == x,
{
    let m = 0x1_0000_0000_0000_0000int;
    let p = FNV_PRIME as int;
    let inv = 0xCE96_5057_AFF6_957Bint;
    let k = 0xCE_9650_590Fint;
    assert(p * inv == m * k + 1);
    vstd::arithmetic::div_mod::lemma_mul_mod_noop_left(x * p, inv, m);
    assert(x * p * inv == m * (k * x) + x) by (nonlinear_arith)
        requires
            p * inv == m * k + 1,
    ;
    vstd::arithmetic::div_mod::lemma_mod_multiples_vanish(k * x, x as int, m);
}

proof fn lemma_step_injective(g: u64, a: u8, h: u64, b: u8)
    requires
        fnv_step(g, a) == fnv_step(h, b),
    ensures
        a == b ==> g == h,
        g == h ==> a == b,
{
    let (x, y) = (a as u64, b as u64);
    lemma_prime(g ^ x);
    lemma_prime(h ^ y);
    assert(g ^ x == h ^ y);
    assert(g ^ x == h ^ y && x == y ==> g == h) by (bit_vector);
    assert(g ^ x == h ^ y && g == h ==> x == y) by (bit_vector);
}

/// A change of one byte changes the digest.
pub proof fn law_digest_catches_one_byte(h: u64, s: Seq<u8>, i: int, b: u8)
    requires
        0 <= i < s.len(),
        b != s[i],
    ensures
        fnv(h, s.update(i, b)) != fnv(h, s),
    decreases s.len(),
{
    let t = s.update(i, b);
    if i == s.len() - 1 {
        assert(t.drop_last() =~= s.drop_last());
        if fnv(h, t) == fnv(h, s) {
            lemma_step_injective(fnv(h, t.drop_last()), t.last(), fnv(h, s.drop_last()), s.last());
        }
    } else {
        law_digest_catches_one_byte(h, s.drop_last(), i, b);
        assert(t.drop_last() =~= s.drop_last().update(i, b));
        if fnv(h, t) == fnv(h, s) {
            lemma_step_injective(fnv(h, t.drop_last()), t.last(), fnv(h, s.drop_last()), s.last());
        }
    }
}

/// One step of the splitmix64 generator.
pub open spec fn splitmix(x: u64) -> u64 {
    let y = x.wrapping_add(0x9E37_79B9_7F4A_7C15);
    let z = (y ^ (y >> 30)).wrapping_mul(0xBF58_476D_1CE4_E5B9);
    let w = (z ^ (z >> 27)).wrapping_mul(0x94D0_49BB_1331_11EB);
    w ^ (w >> 31)
}

/// One step of the splitmix64 generator.
pub fn splitmix64(x: u64) -> (r: u64)
    ensures
        r == splitmix(x),
{
    let y: u64 = x.wrapping_add(0x9E37_79B9_7F4A_7C15);
    let z: u64 = (y ^ (y >> 30)).wrapping_mul(0xBF58_476D_1CE4_E5B9);
    let w: u64 = (z ^ (z >> 27)).wrapping_mul(0x94D0_49BB_1331_11EB);
    w ^ (w >> 31)
}

/// Step of the XTEA key schedule.
pub const XTEA_DELTA: u32 = 0x9E37_79B9;

/// Cycles of XTEA.
pub const XTEA_CYCLES: u32 = 32;

/// How XTEA mixes half a block.
pub open spec fn xtea_mix(v: u32) -> u32 {
    ((v << 4) ^ (v >> 5)).wrapping_add(v)
}

/// A block of two halves after `n` cycles of XTEA from the schedule sum `sum`.
pub open spec fn xtea_cycles(key: Seq<u32>, v0: u32, v1: u32, sum: u32, n: nat) -> (u32, u32)
    decreases n,
{
    if n == 0 {
        (v0, v1)
    } else {
        let w0 = v0.wrapping_add(xtea_mix(v1) ^ sum.wrapping_add(key[(sum & 3) as int]));
        let next = sum.wrapping_add(XTEA_DELTA);
        let w1 = v1.wrapping_add(
            xtea_mix(w0) ^ next.wrapping_add(key[((next >> 11) & 3) as int]),
        );
        xtea_cycles(key, w0, w1, next, (n - 1) as nat)
    }
}

/// The block of eight bytes encrypted with XTEA.
pub open spec fn xtea(key: Seq<u32>, block: Seq<u8>) -> Seq<u8> {
    let (v0, v1) = xtea_cycles(
        key,
        le32(block, 0) as u32,
        le32(block, 4) as u32,
        0,
        XTEA_CYCLES as nat,
    );
    le32_bytes(v0) + le32_bytes(v1)
}

fn low_bytes(v: u32) -> (b: [u8; 4])
    ensures
        b@ == le32_bytes(v),
{
    let b: [u8; 4] = [
        (v % 0x100) as u8,
        (v / 0x100 % 0x100) as u8,
        (v / 0x1_0000 % 0x100) as u8,
        (v / 0x100_0000) as u8,
    ];
    assert(b@ =~= le32_bytes(v));
    b
}

/// Encrypt one block with XTEA.
pub fn xtea_enc_block(key: &[u32; 4], block: &[u8; 8]) -> (r: [u8; 8])
    ensures
        r@ == xtea(key@, block@),
{
    let mut v0: u32 = read_le32(block.as_slice(), 0);
    let mut v1: u32 = read_le32(block.as_slice(), 4);
    let mut sum: u32 = 0;
    let mut n: u32 = XTEA_CYCLES;
    let ghost done = xtea_cycles(key@, v0, v1, 0, XTEA_CYCLES as nat);
    while n > 0
        invariant
            n <= XTEA_CYCLES,
            xtea_cycles(key@, v0, v1, sum, n as nat) == done,
        decreases n,
    {
        assert(sum & 3 < 4) by (bit_vector);
        v0 = v0.wrapping_add(
            ((v1 << 4) ^ (v1 >> 5)).wrapping_add(v1) ^ sum.wrapping_add(key[(sum & 3) as usize]),
        );
        sum = sum.wrapping_add(XTEA_DELTA);
        assert((sum >> 11) & 3 < 4) by (bit_vector);
        v1 = v1.wrapping_add(
            ((v0 << 4) ^ (v0 >> 5)).wrapping_add(v0) ^ sum.wrapping_add(
                key[((sum >> 11) & 3) as usize],
            ),
        );
        n = n - 1;
    }
    let a = low_bytes(v0);
    let b = low_bytes(v1);
    let r: [u8; 8] = [a[0], a[1], a[2], a[3], b[0], b[1], b[2], b[3]];
    assert(r@ =~= le32_bytes(v0) + le32_bytes(v1));
    r
}

/// The bytes of `s` with those of the key stream block `e` mixed in.
pub open spec fn masked(s: Seq<u8>, e: Seq<u8>) -> Seq<u8> {
    Seq::new(s.len(), |i: int| s[i] ^ e[i])
}

/// `s` encrypted in cipher feedback mode: each block is masked with the encryption of the one
/// before it, the first with that of `iv`.
pub open spec fn cfb_encrypted(key: Seq<u32>, iv: Seq<u8>, s: Seq<u8>) -> Seq<u8>
    decreases s.len(),
{
    if s.len() <= 8 {
        masked(s, xtea(key, iv))
    } else {
        let c = masked(s.take(8), xtea(key, iv));
        c + cfb_encrypted(key, c, s.skip(8))
    }
}

/// `s` decrypted in cipher feedback mode.
pub open spec fn cfb_decrypted(key: Seq<u32>, iv: Seq<u8>, s: Seq<u8>) -> Seq<u8>
    decreases s.len(),
{
    if s.len() <= 8 {
        masked(s, xtea(key, iv))
    } else {
        masked(s.take(8), xtea(key, iv)) + cfb_decrypted(key, s.take(8), s.skip(8))
    }
}

pub(crate) proof fn lemma_decrypted_len(key: Seq<u32>, iv: Seq<u8>, s: Seq<u8>)
    ensures
        cfb_decrypted(key, iv, s).len() == s.len(),
    decreases s.len(),
{
    if s.len() > 8 {
        lemma_decrypted_len(key, s.take(8), s.skip(8));
    }
}

/// Decrypting undoes encrypting with the same key and start value, whatever the length.
pub proof fn law_decrypt_undoes_encrypt(key: Seq<u32>, iv: Seq<u8>, s: Seq<u8>)
    ensures
        cfb_decrypted(key, iv, cfb_encrypted(key, iv, s)) == s,
        cfb_encrypted(key, iv, s).len() == s.len(),
    decreases s.len(),
{
    let e = xtea(key, iv);
    assert forall|a: u8, b: u8| #[trigger] ((a ^ b) ^ b) == a by {
        assert((a ^ b) ^ b == a) by (bit_vector);
    }
    if s.len() <= 8 {
        assert(masked(masked(s, e), e) =~= s);
    } else {
        let c = masked(s.take(8), e);
        let rest = cfb_encrypted(key, c, s.skip(8));
        law_decrypt_undoes_encrypt(key, c, s.skip(8));
        assert((c + rest).take(8) =~= c);
        assert((c + rest).skip(8) =~= rest);
        assert(masked(c, e) =~= s.take(8));
        assert(s.take(8) + s.skip(8) =~= s);
    }
}

/// Encrypt (or decrypt) bytes in place in cipher feedback mode.
pub fn xtea_cfb(key: &[u32; 4], iv: u64, buf: &mut Vec<u8>, encrypt: bool)
    ensures
        final(buf)@ == if encrypt {
            cfb_encrypted(key@, le64_bytes(iv), old(buf)@)
        } else {
            cfb_decrypted(key@, le64_bytes(iv), old(buf)@)
        },
{
    let ghost src = buf@;
    let ghost want = if encrypt {
        cfb_encrypted(key@, le64_bytes(iv), src)
    } else {
        cfb_decrypted(key@, le64_bytes(iv), src)
    };
    let mut state: [u8; 8] = bytes_of(iv);
    let mut off: usize = 0;
    let len: usize = buf.len();
    assert(src.skip(0) =~= src);
    assert(buf@.take(0) + want =~= want);
    while off < len
        invariant
            off <= len,
            len == src.len(),
            buf@.len() == len,
            buf@.skip(off as int) == src.skip(off as int),
            len - off > 0 || off == len,
            want == buf@.take(off as int) + if encrypt {
                cfb_encrypted(key@, state@, src.skip(off as int))
            } else {
                cfb_decrypted(key@, state@, src.skip(off as int))
            },
        decreases len - off,
    {
        let e = xtea_enc_block(key, &state);
        let avail: usize = if len - off < 8 {
            len - off
        } else {
            8
        };
        let ghost rest = src.skip(off as int);
        let ghost before = buf@;
        let mut next: [u8; 8] = state;
        let mut i: usize = 0;
        while i < avail
            invariant
                i <= avail <= 8,
                off + avail <= len,
                len == src.len(),
                buf@.len() == len,
                before.len() == len,
                before.skip(off as int) == src.skip(off as int),
                rest == src.skip(off as int),
                forall|k: int| 0 <= k < len && !(off <= k < off + i) ==> buf@[k] == before[k],
                forall|k: int|
                    off <= k < off + i ==> #[trigger] buf@[k] == rest[k - off] ^ e@[k - off],
                forall|k: int| 0 <= k < i ==> #[trigger] next@[k] == if encrypt {
                    rest[k] ^ e@[k]
                } else {
                    rest[k]
                },
            decreases avail - i,
        {
            let t: u8 = buf[off + i];
            assert(t == rest[i as int]) by {
                assert(before.skip(off as int)[i as int] == before[off + i]);
            }
            let c: u8 = t ^ e[i];
            buf.set(off + i, c);
            next[i] = if encrypt {
                c
            } else {
                t
            };
            i = i + 1;
        }
        proof {
            let mid = off + avail;
            if avail < 8 || rest.len() == 8 {
                assert(rest.len() == avail);
                assert(buf@.take(mid) =~= before.take(off as int) + masked(rest, e@));
                assert(src.skip(mid).len() == 0);
                assert(masked(src.skip(mid), xtea(key@, next@)) =~= Seq::<u8>::empty());
                assert(buf@.take(mid) + Seq::<u8>::empty() =~= buf@.take(mid));
            } else {
                let m = masked(rest.take(8), e@);
                assert(buf@.take(mid) =~= before.take(off as int) + m);
                assert(rest.skip(8) =~= src.skip(mid));
                assert(next@ =~= if encrypt {
                    m
                } else {
                    rest.take(8)
                });
                let tail = if encrypt {
                    cfb_encrypted(key@, next@, src.skip(mid))
                } else {
                    cfb_decrypted(key@, next@, src.skip(mid))
                };
                assert(before.take(off as int) + (m + tail) =~= buf@.take(mid) + tail);
            }
            assert(buf@.skip(mid) =~= src.skip(mid)) by {
                assert forall|k: int| 0 <= k < len - mid implies buf@[mid + k] == #[trigger] src[mid
                    + k] by {
                    assert(before.skip(off as int)[avail + k] == src.skip(off as int)[avail + k]);
                }
            }
        }
        state = next;
        off = off + avail;
    }
    proof {
        assert(src.skip(off as int) =~= Seq::<u8>::empty());
        assert(masked(Seq::<u8>::empty(), xtea(key@, state@)) =~= Seq::<u8>::empty());
        assert(buf@.take(off as int) + Seq::<u8>::empty() =~= buf@);
    }
}

} // verus!
