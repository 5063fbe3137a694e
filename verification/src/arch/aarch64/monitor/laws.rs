//! What the monitor answers, told by call numbers, memory and the records of the secure world.

use vstd::prelude::*;
use vstd::utf8::encode_utf8;
use crate::arch::aarch64::machine::Machine;
use crate::arch::aarch64::monitor::boot::{
    el3_steps, fresh_world, minted, payload_target, tagged, El3Step, ResetState,
};
use crate::arch::aarch64::monitor::cipher::{
    cfb_decrypted, cfb_encrypted, fnv, masked, splitmix, xtea, xtea_cycles, xtea_mix, FNV_OFFSET,
};
use crate::arch::aarch64::monitor::keybox::{made_key, KeySlot, Keybox};
use crate::arch::aarch64::monitor::store::{
    find_from, free_from, lookup, storable, stored, StoreSlot,
};
use crate::arch::aarch64::monitor::{
    smc_ok, smc_post, Monitor, MonitorClock, SecureData, SmcCall, SmcEffect,
};
use crate::bytes::{law_bytes_are_digits, le32, le64_bytes};
use crate::mem::ram::Ram;
use crate::numbers::hex_digits;

verus! {

/// A slot is in use under the name.
pub open spec fn keeps_name(s: StoreSlot, name: u64) -> bool {
    s.magic == 0x5354_4F52 && s.name == name
}

proof fn lemma_find(s: Seq<StoreSlot>, name: u64, from: int, k: int)
    requires
        0 <= from <= k <= s.len(),
        k < s.len() ==> keeps_name(s[k], name),
        forall|i: int| from <= i < k ==> !keeps_name(#[trigger] s[i], name),
    ensures
        find_from(s, name, from) == k,
    decreases k - from,
{
    if from < k {
        assert(!keeps_name(s[from], name));
        lemma_find(s, name, from + 1, k);
    }
}

proof fn lemma_free(s: Seq<StoreSlot>, from: int, k: int)
    requires
        0 <= from <= k <= s.len(),
        k < s.len() ==> s[k].magic != 0x5354_4F52,
        forall|i: int| from <= i < k ==> (#[trigger] s[i]).magic == 0x5354_4F52,
    ensures
        free_from(s, from) == k,
    decreases k - from,
{
    if from < k {
        assert(s[from].magic == 0x5354_4F52);
        lemma_free(s, from + 1, k);
    }
}

/// A name is looked up in the slots from the first on: the first one in use under it tells how
/// many bytes there are and which; without such a slot there is nothing.
pub proof fn law_lookup_by_name(s: Seq<StoreSlot>, name: u64, k: int, j: int)
    requires
        0 <= k <= s.len(),
        k < s.len() ==> keeps_name(s[k], name) && s[k].len <= 232,
        forall|i: int| 0 <= i < k ==> !keeps_name(#[trigger] s[i], name),
    ensures
        k == s.len() ==> lookup(s, name) is None,
        k < s.len() ==> (lookup(s, name) matches Some(b) && b.len() == s[k].len && (0 <= j < b.len()
            ==> b[j] == s[k].data@[j])),
{
    lemma_find(s, name, 0, k);
}

/// Data of at most 232 bytes is stored in the slot that has the name, and else in the first
/// free one; without either, or with more bytes, it is not.  No other slot changes.
pub proof fn law_store_takes_its_slot(
    s: Seq<StoreSlot>,
    name: u64,
    data: Seq<u8>,
    t: Seq<StoreSlot>,
    k: int,
    f: int,
    i: int,
    j: int,
)
    requires
        0 <= k <= s.len(),
        k < s.len() ==> keeps_name(s[k], name),
        forall|x: int| 0 <= x < k ==> !keeps_name(#[trigger] s[x], name),
        0 <= f <= s.len(),
        f < s.len() ==> s[f].magic != 0x5354_4F52,
        forall|x: int| 0 <= x < f ==> (#[trigger] s[x]).magic == 0x5354_4F52,
        0 <= i < s.len(),
        0 <= j < data.len(),
    ensures
        storable(s, name, data.len() as int) <==> data.len() <= 232 && (k < s.len() || f < s.len()),
        storable(s, name, data.len() as int) && stored(s, name, data, t) ==> {
            let at = if k < s.len() {
                k
            } else {
                f
            };
            &&& t.len() == s.len()
            &&& keeps_name(t[at], name)
            &&& t[at].len == data.len()
            &&& t[at].data@[j] == data[j]
            &&& i != at ==> t[i] == s[i]
        },
{
    lemma_find(s, name, 0, k);
    lemma_free(s, 0, f);
}

/// There are keys 0 to 15, of at most 256 bytes at a time; sealing needs a count left, and adds
/// one to it; nothing else of the keys changes.
pub proof fn law_seal_counts(pre: Keybox, id: u64, s: Seq<u8>, post: Keybox, c: Seq<u8>, i: int)
    requires
        pre.wf(),
        0 <= i < 16,
    ensures
        pre.has_key(id) <==> id < 16 && pre.slots@[id as int].valid == 1,
        pre.can_unseal(id, s.len() as int) <==> id < 16 && pre.slots@[id as int].valid == 1
            && s.len() <= 256,
        pre.can_seal(id, s.len() as int) <==> id < 16 && pre.slots@[id as int].valid == 1
            && s.len() <= 256 && pre.slots@[id as int].ctr != 0xFFFF_FFFF_FFFF_FFFF,
        pre.can_seal(id, s.len() as int) && Keybox::sealed(pre, id, s, post, c) ==> {
            let k = pre.slots@[id as int];
            let n = post.slots@[id as int];
            &&& post.slots@.len() == 16
            &&& n.ctr == k.ctr + 1
            &&& n.valid == k.valid && n.key0 == k.key0 && n.key1 == k.key1
            &&& i != id ==> post.slots@[i] == pre.slots@[i]
            &&& n.last_iv() == k.ctr
        },
{
}

/// A key is two words of 64 bits, each its low half first.
pub proof fn law_key_halves(k: KeySlot)
    ensures
        k.words().len() == 4,
        k.words()[0] + 0x1_0000_0000 * k.words()[1] == k.key0,
        k.words()[2] + 0x1_0000_0000 * k.words()[3] == k.key1,
{
}

/// A new key is valid and has sealed nothing; its first half is mixed from the entropy and the
/// secret, its second from the first.
pub proof fn law_new_key(entropy: u64, secret: u64)
    ensures
        ({
            let k = made_key(entropy, secret);
            &&& k.valid == 1
            &&& k.ctr == 0
            &&& k.last_iv() == 0
            &&& k.key0 == splitmix(splitmix(entropy) ^ secret)
            &&& k.key1 == splitmix(k.key0)
        }),
{
}

/// The mixing function: a step of the sequence, two rounds of folding and multiplying, and a
/// last fold, all modulo 2 to the 64.
pub proof fn law_mixing(x: u64, y: u64, z: u64, w: u64)
    requires
        y == (x + 0x9E37_79B9_7F4A_7C15) % 0x1_0000_0000_0000_0000,
        z == ((y ^ (y >> 30)) * 0xBF58_476D_1CE4_E5B9) % 0x1_0000_0000_0000_0000,
        w == ((z ^ (z >> 27)) * 0x94D0_49BB_1331_11EB) % 0x1_0000_0000_0000_0000,
    ensures
        splitmix(x) == w ^ (w >> 31),
{
}

/// The digest of nothing is the start value; a byte more is folded in and multiplied by the
/// prime, modulo 2 to the 64.
pub proof fn law_digest_by_byte(h: u64, s: Seq<u8>, b: u8)
    ensures
        FNV_OFFSET == 14695981039346656037,
        fnv(h, Seq::empty()) == h,
        fnv(h, s + seq![b]) == ((fnv(h, s) ^ (b as u64)) * 1099511628211)
            % 0x1_0000_0000_0000_0000,
{
    let t = s + seq![b];
    assert(t.drop_last() =~= s);
    assert(t.last() == b);
}

/// The block cipher takes a block as two little-endian words through 32 cycles from sum 0.
pub proof fn law_block_cipher(key: Seq<u32>, block: Seq<u8>, a: u32, b: u32)
    requires
        a == le32(block, 0),
        b == le32(block, 4),
    ensures
        ({
            let (v0, v1) = xtea_cycles(key, a, b, 0, 32);
            let r = xtea(key, block);
            &&& r.len() == 8
            &&& r[0] + 256 * r[1] + 65536 * r[2] + 16777216 * r[3] == v0
            &&& r[4] + 256 * r[5] + 65536 * r[6] + 16777216 * r[7] == v1
        }),
{
    let (v0, v1) = xtea_cycles(key, a, b, 0, 32);
    law_bytes_are_digits(0, v0);
    law_bytes_are_digits(0, v1);
}

/// A cycle changes each half by the other half, mixed, and a word of the key that the sum
/// picks, modulo 2 to the 32.
#[verifier::rlimit(50)]
pub proof fn law_cipher_cycle(
    key: Seq<u32>,
    v0: u32,
    v1: u32,
    sum: u32,
    n: nat,
    m1: u32,
    k0: u32,
    w0: u32,
    next: u32,
    m0: u32,
    k1: u32,
    w1: u32,
)
    requires
        m1 == (((v1 << 4) ^ (v1 >> 5)) + v1) % 0x1_0000_0000,
        k0 == (sum + key[(sum & 3) as int]) % 0x1_0000_0000,
        w0 == (v0 + (m1 ^ k0)) % 0x1_0000_0000,
        next == (sum + 0x9E37_79B9) % 0x1_0000_0000,
        m0 == (((w0 << 4) ^ (w0 >> 5)) + w0) % 0x1_0000_0000,
        k1 == (next + key[((next >> 11) & 3) as int]) % 0x1_0000_0000,
        w1 == (v1 + (m0 ^ k1)) % 0x1_0000_0000,
    ensures
        xtea_cycles(key, v0, v1, sum, 0) == (v0, v1),
        xtea_cycles(key, v0, v1, sum, n + 1) == xtea_cycles(key, w0, w1, next, n),
{
    lemma_wraps((v1 << 4) ^ (v1 >> 5), v1);
    assert(xtea_mix(v1) == m1);
    lemma_wraps(sum, key[(sum & 3) as int]);
    lemma_wraps(v0, m1 ^ k0);
    lemma_wraps(sum, 0x9E37_79B9);
    lemma_wraps((w0 << 4) ^ (w0 >> 5), w0);
    assert(xtea_mix(w0) == m0);
    lemma_wraps(next, key[((next >> 11) & 3) as int]);
    lemma_wraps(v1, m0 ^ k1);
}

proof fn lemma_wraps(a: u32, b: u32)
    ensures
        a.wrapping_add(b) == (a + b) % 0x1_0000_0000,
{
}

/// Feedback of the cipher: the first eight bytes are masked with the cipher of the start value,
/// every further eight with the cipher of the eight sealed bytes before them.
#[verifier::rlimit(60)]
pub proof fn law_feedback_masks(key: Seq<u32>, iv: Seq<u8>, s: Seq<u8>, i: int)
    requires
        0 <= i < s.len(),
    ensures
        ({
            let c = cfb_encrypted(key, iv, s);
            &&& c.len() == s.len()
            &&& i < 8 ==> c[i] == s[i] ^ xtea(key, iv)[i]
            &&& i >= 8 ==> c[i] == s[i] ^ xtea(key, c.subrange(i / 8 * 8 - 8, i / 8 * 8))[i % 8]
        }),
    decreases s.len(),
{
    let c = cfb_encrypted(key, iv, s);
    if s.len() > 8 {
        let first = c.take(8);
        let rest = cfb_encrypted(key, first, s.skip(8));
        lemma_cfb_len(key, iv, s);
        lemma_cfb_len(key, first, s.skip(8));
        assert(first =~= masked(s.take(8), xtea(key, iv)));
        assert(c =~= first + rest);
        if i >= 8 {
            law_feedback_masks(key, first, s.skip(8), i - 8);
            if i < 16 {
                assert(c.subrange(i / 8 * 8 - 8, i / 8 * 8) =~= first);
            } else {
                assert(c.subrange(i / 8 * 8 - 8, i / 8 * 8) =~= rest.subrange(
                    (i - 8) / 8 * 8 - 8,
                    (i - 8) / 8 * 8,
                ));
            }
        }
    }
}

proof fn lemma_cfb_len(key: Seq<u32>, iv: Seq<u8>, s: Seq<u8>)
    ensures
        cfb_encrypted(key, iv, s).len() == s.len(),
        cfb_decrypted(key, iv, s).len() == s.len(),
    decreases s.len(),
{
    if s.len() > 8 {
        lemma_cfb_len(
            key,
            masked(s.take(8), xtea(key, iv)),
            s.skip(8),
        );
        lemma_cfb_len(key, s.take(8), s.skip(8));
    }
}

/// Version calls answer 1.1, the query for features 0, and unknown calls that they are not
/// supported; nothing changes.
pub proof fn law_queries(
    pre: Monitor,
    post: Monitor,
    ns: Ram,
    mem: Seq<u8>,
    c: SmcCall,
    clock: MonitorClock,
    x0: u64,
    effect: SmcEffect,
)
    requires
        smc_post(pre, post, ns, mem, c, clock, x0, effect),
        c.id != 0xC400_0003,
        c.id < 0x8300_0001 || c.id > 0x8300_000C || c.id == 0x8300_0004,
    ensures
        x0 == if c.id == 0x8000_0000 || c.id == 0xC400_0000 {
            0x1_0001
        } else if c.id == 0xC400_000A {
            0
        } else {
            0xFFFF_FFFFint
        },
        mem == ns@,
        post.world == pre.world,
        post.cmd@ == pre.cmd@,
        effect == SmcEffect::Nothing,
{
}

/// Starting a CPU, call 0xC4000003: one that is there, other than 0, finds the magic number and
/// its entry in its mailbox, and is woken by interrupt 15; otherwise the parameters are invalid
/// and nothing changes.
pub proof fn law_cpu_is_started(
    pre: Monitor,
    post: Monitor,
    ns: Ram,
    mem: Seq<u8>,
    c: SmcCall,
    clock: MonitorClock,
    x0: u64,
    effect: SmcEffect,
    i: int,
)
    requires
        c.id == 0xC400_0003,
        smc_post(pre, post, ns, mem, c, clock, x0, effect),
        0 <= i < 8,
    ensures
        ({
            let cpu = c.a1 as int % 256;
            let there = 1 <= cpu < 8 && cpu < pre.cpu_count;
            &&& there ==> x0 == 0 && post.cmd@[cpu]@[0] == 0x434D_4454 && post.cmd@[cpu]@[1] == c.a2
                && effect == SmcEffect::Wake((15 * 0x100_0000) as u64 | (1u64 << (cpu as u64)))
            &&& there && i != cpu ==> post.cmd@[i] == pre.cmd@[i]
            &&& !there ==> x0 == 0xFFFF_FFFE && effect == SmcEffect::Nothing && post.cmd@
                == pre.cmd@
            &&& mem == ns@
            &&& post.world == pre.world
            &&& post.cpu_count == pre.cpu_count
        }),
{
}

/// The calls on ticks and the console: 0x83000002 answers the ticks of the secure world,
/// 0x83000003 arms its timer for as many milliseconds as asked for, 0x83000005 prints.
pub proof fn law_tick_calls(
    pre: Monitor,
    post: Monitor,
    ns: Ram,
    mem: Seq<u8>,
    c: SmcCall,
    clock: MonitorClock,
    x0: u64,
    effect: SmcEffect,
)
    requires
        c.id == 0x8300_0002 || c.id == 0x8300_0003 || c.id == 0x8300_0005,
        smc_post(pre, post, ns, mem, c, clock, x0, effect),
    ensures
        c.id == 0x8300_0002 ==> effect == SmcEffect::Nothing && (pre.world matches Some(w) ==> x0
            == w.ticks) && (pre.world is None ==> x0 == 0),
        c.id == 0x8300_0003 && clock.freq * c.a1 <= u64::MAX ==> x0 == 0 && effect
            == SmcEffect::ArmTimer((clock.freq * c.a1 / 1000) as u64),
        c.id == 0x8300_0005 ==> x0 == 0 && effect == SmcEffect::Banner,
        mem == ns@,
        post.world == pre.world,
        post.cmd@ == pre.cmd@,
{
}

/// Measuring, call 0x83000001, answers the digest of the range, and folds it into the secure
/// world's record; nothing else changes.
pub proof fn law_measurement(
    pre: Monitor,
    post: Monitor,
    ns: Ram,
    mem: Seq<u8>,
    c: SmcCall,
    clock: MonitorClock,
    x0: u64,
    effect: SmcEffect,
)
    requires
        c.id == 0x8300_0001,
        c.a2 > 0,
        smc_post(pre, post, ns, mem, c, clock, x0, effect),
    ensures
        ({
            let at = c.a1 - ns.start();
            &&& x0 == fnv(14695981039346656037, ns@.subrange(at, at + c.a2))
            &&& pre.world matches Some(w) ==> post.world == Some(
                SecureData { measure: fnv(w.measure, le64_bytes(x0)), ..w },
            )
            &&& pre.world is None ==> post.world is None
            &&& mem == ns@
            &&& effect == SmcEffect::Nothing
        }),
{
}

/// The monotonic counter, call 0x83000006, goes up by one with each call and is answered.
pub proof fn law_counter_goes_up(
    pre: Monitor,
    post: Monitor,
    ns: Ram,
    mem: Seq<u8>,
    c: SmcCall,
    clock: MonitorClock,
    x0: u64,
    effect: SmcEffect,
)
    requires
        c.id == 0x8300_0006,
        pre.world matches Some(w) && w.counter < u64::MAX,
        smc_post(pre, post, ns, mem, c, clock, x0, effect),
    ensures
        x0 == pre.world->0.counter + 1,
        post.world == Some(SecureData { counter: x0, ..pre.world->0 }),
        mem == ns@,
        effect == SmcEffect::Nothing,
{
}

/// Storing, call 0x83000007, takes the name from x1, the bytes from x2 and their number from x3;
/// loading, call 0x83000008, gives them back where there is room, and their number.
#[verifier::rlimit(50)]
pub proof fn law_storage_calls(
    pre: Monitor,
    post: Monitor,
    ns: Ram,
    mem: Seq<u8>,
    c: SmcCall,
    clock: MonitorClock,
    x0: u64,
    effect: SmcEffect,
    i: int,
)
    requires
        c.id == 0x8300_0007 || c.id == 0x8300_0008,
        smc_post(pre, post, ns, mem, c, clock, x0, effect),
        ns.wf(),
        ns.has(c.a2 as int, c.a3 as int),
        c.a3 > 0,
        0 <= i < ns@.len(),
    ensures
        ({
            let name = ns.word(c.a1 as int) as u64;
            let at = c.a2 - ns.start();
            let put = c.id == 0x8300_0007;
            &&& pre.world is None ==> x0 == u64::MAX && mem == ns@ && post.world is None
            &&& pre.world matches Some(w) ==> {
                let s = w.store.slots@;
                let fits = storable(s, name, c.a3 as int) && c.a3 <= 232;
                let found = lookup(s, name);
                &&& put ==> mem == ns@
                &&& put && fits ==> x0 == 0 && post.world is Some && stored(
                    s,
                    name,
                    ns@.subrange(at, at + c.a3),
                    post.world->0.store.slots@,
                ) && post.world->0 == (SecureData { store: post.world->0.store, ..w })
                &&& put && !fits ==> x0 == u64::MAX && post.world == pre.world
                &&& !put ==> post.world == pre.world
                &&& !put && found is None ==> x0 == u64::MAX && mem == ns@
                &&& !put && found is Some && found->0.len() > c.a3 ==> x0 == u64::MAX - 1 && mem
                    == ns@
                &&& !put && found is Some && found->0.len() <= c.a3 ==> x0 == found->0.len()
                    && mem[i] == if at <= i < at + found->0.len() {
                    found->0[i - at]
                } else {
                    ns@[i]
                }
            }
            &&& effect == SmcEffect::Nothing
        }),
{
}

/// Making a key, call 0x83000009, fills the slot in x1; there are 16.
pub proof fn law_key_is_made(
    pre: Monitor,
    post: Monitor,
    ns: Ram,
    mem: Seq<u8>,
    c: SmcCall,
    clock: MonitorClock,
    x0: u64,
    effect: SmcEffect,
    i: int,
)
    requires
        c.id == 0x8300_0009,
        pre.wf(),
        smc_post(pre, post, ns, mem, c, clock, x0, effect),
        0 <= i < 16,
    ensures
        pre.world is Some && c.a1 < 16 ==> {
            &&& x0 == 0
            &&& post.world is Some
            &&& post.world->0.keybox.slots@[c.a1 as int] == made_key(
                clock.counter,
                pre.world->0.secret,
            )
            &&& i != c.a1 ==> post.world->0.keybox.slots@[i] == pre.world->0.keybox.slots@[i]
            &&& post.world->0 == (SecureData {
                keybox: post.world->0.keybox,
                ..pre.world->0
            })
        },
        pre.world is None || c.a1 >= 16 ==> x0 == u64::MAX && post.world == pre.world,
        mem == ns@,
        effect == SmcEffect::Nothing,
{
}

/// Sealing, call 0x8300000A, and unsealing, call 0x8300000B, work in place on x3 bytes at x2 with
/// the key in x1; no other byte changes.  Where the key or the size does not fit, nothing does.
#[verifier::rlimit(50)]
pub proof fn law_seal_calls(
    pre: Monitor,
    post: Monitor,
    ns: Ram,
    mem: Seq<u8>,
    c: SmcCall,
    clock: MonitorClock,
    x0: u64,
    effect: SmcEffect,
    i: int,
)
    requires
        c.id == 0x8300_000A || c.id == 0x8300_000B,
        pre.wf(),
        smc_post(pre, post, ns, mem, c, clock, x0, effect),
        ns.wf(),
        ns.has(c.a2 as int, c.a3 as int),
        c.a3 > 0,
        0 <= i < ns@.len(),
    ensures
        ({
            let at = c.a2 - ns.start();
            let n = c.a3 as int;
            let seal = c.id == 0x8300_000A;
            let plain = ns@.subrange(at, at + n);
            let able = pre.world is Some && c.a1 < 16 && n <= 256
                && pre.world->0.keybox.slots@[c.a1 as int].valid == 1 && (seal
                ==> pre.world->0.keybox.slots@[c.a1 as int].ctr < u64::MAX);
            let k = pre.world->0.keybox.slots@[c.a1 as int];
            &&& able ==> x0 == 0 && mem.len() == ns@.len()
            &&& !able ==> x0 == u64::MAX && mem == ns@ && post.world == pre.world
            &&& able && !(at <= i < at + n) ==> mem[i] == ns@[i]
            &&& able && seal && at <= i < at + n ==> mem[i] == cfb_encrypted(
                k.words(),
                le64_bytes(k.ctr),
                plain,
            )[i - at]
            &&& able && seal ==> post.world is Some
                && post.world->0.keybox.slots@[c.a1 as int].ctr == k.ctr + 1
            &&& able && !seal && at <= i < at + n ==> mem[i] == cfb_decrypted(
                k.words(),
                le64_bytes(
                    if k.ctr > 0 {
                        (k.ctr - 1) as u64
                    } else {
                        0
                    },
                ),
                plain,
            )[i - at]
            &&& !seal ==> post.world == pre.world
            &&& effect == SmcEffect::Nothing
        }),
{
    if c.id == 0x8300_000B && pre.world is Some {
        let k = pre.world->0.keybox.slots@[c.a1 as int];
        lemma_cfb_len(
            k.words(),
            le64_bytes(k.last_iv()),
            ns@.subrange(c.a2 - ns.start(), c.a2 - ns.start() + c.a3),
        );
    }
    if c.id == 0x8300_000A && pre.world is Some {
        let k = pre.world->0.keybox.slots@[c.a1 as int];
        lemma_cfb_len(
            k.words(),
            le64_bytes(k.ctr),
            ns@.subrange(c.a2 - ns.start(), c.a2 - ns.start() + c.a3),
        );
    }
}

/// A quote, call 0x8300000C, of a region of at most 16 MiB is 16 bytes: its digest, and that of
/// the secret, the nonce and the digest.
#[verifier::rlimit(50)]
pub proof fn law_quote(
    pre: Monitor,
    post: Monitor,
    ns: Ram,
    mem: Seq<u8>,
    c: SmcCall,
    clock: MonitorClock,
    x0: u64,
    effect: SmcEffect,
    i: int,
)
    requires
        c.id == 0x8300_000C,
        smc_post(pre, post, ns, mem, c, clock, x0, effect),
        ns.wf(),
        ns.has(c.a4 as int, 16),
        c.a2 > 0,
        0 <= i < ns@.len(),
    ensures
        ({
            let at = c.a1 - ns.start();
            let out = c.a4 - ns.start();
            let digest = fnv(14695981039346656037, ns@.subrange(at, at + c.a2));
            let secret = if pre.world is Some {
                pre.world->0.secret
            } else {
                0
            };
            let code = fnv(
                14695981039346656037,
                le64_bytes(secret) + le64_bytes(c.a3) + le64_bytes(digest),
            );
            let able = c.a5 >= 16 && c.a2 <= 16 * 1024 * 1024;
            &&& !able ==> x0 == u64::MAX && mem == ns@
            &&& able ==> x0 == 0 && mem.len() == ns@.len() && mem[i] == if out <= i < out + 8 {
                le64_bytes(digest)[i - out]
            } else if out + 8 <= i < out + 16 {
                le64_bytes(code)[i - out - 8]
            } else {
                ns@[i]
            }
            &&& post.world == pre.world
        }),
{
    law_bytes_are_digits(0, 0);
    assert(forall|v: u64| #[trigger] le64_bytes(v).len() == 8) by {
        assert forall|v: u64| #[trigger] le64_bytes(v).len() == 8 by {
            law_bytes_are_digits(v, 0);
        }
    }
}

/// The secure world starts with nothing measured, counted, stored or keyed, in secure memory
/// where the machine has some, on the secure console where it has one.
pub proof fn law_fresh_world(m: Machine, counter: u64, linked: u64, d: SecureData, id: u64, i: int)
    requires
        fresh_world(m, counter, d),
        0 <= i < 32,
    ensures
        d.ticks == 0 && d.counter == 0 && d.measure == 0 && d.iters == 0 && d.round == 0,
        m.secure_uart_base != 0 ==> d.uart == m.secure_uart_base,
        m.secure_uart_base == 0 ==> d.uart == m.uart_base,
        d.secret == minted(counter),
        d.store.slots@[i].magic != 0x5354_4F52,
        !(id < 16 && d.keybox.slots@[id as int].valid == 1),
        m.secure_ram_base != 0 ==> payload_target(m, linked) == m.secure_ram_base,
        m.secure_ram_base == 0 ==> payload_target(m, linked) == linked,
{
    assert(!d.store.slots@[i].occupied());
    assert(!d.keybox.has_key(id));
}

/// Leaving reset: the counter's frequency is set only where firmware left it at 0; the
/// redistributor is woken before it is waited for, and what is its CPU's is opened last.
pub proof fn law_reset_steps(m: Machine, st: ResetState)
    requires
        m.gic_redist_base + st.cpu * m.gic_redist_stride + 0x2_0000 <= u64::MAX,
    ensures
        ({
            let s = el3_steps(m, st);
            let base = m.gic_redist_base + st.cpu * m.gic_redist_stride;
            let n = s.len() as int;
            &&& st.freq == 0 ==> n == 15 && (s[8] matches El3Step::Freq(f) && f == 1_000_000_000)
            &&& st.freq != 0 ==> n == 14
            &&& s[0] is Vectors && s[7] is Isb
            &&& s[1] matches El3Step::Scr(v) && v == 0x501
            &&& s[2] matches El3Step::Cptr(v) && v == 0x33F
            &&& s[3] matches El3Step::Mdcr(v) && v == 0
            &&& s[4] matches El3Step::Sctlr(v) && v == 0
            &&& s[5] matches El3Step::Sre(v) && v == 1
            &&& s[6] matches El3Step::Pmr(v) && v == 0xFF
            &&& s[n - 6] matches El3Step::Write(w) && w.addr == m.gic_dist_base && w.val == 0x1F
            &&& s[n - 5] matches El3Step::Write(w) && w.addr == base + 0x14 && w.val == st.waker
                & !2u32
            &&& s[n - 4] matches El3Step::AwaitAwake(a) && a == base + 0x14
            &&& s[n - 3] matches El3Step::Write(w) && w.addr == base + 0x1_0080 && w.val
                == 0x4000_7FFF
            &&& s[n - 2] matches El3Step::Write(w) && w.addr == base + 0x1_0E00 && w.val
                == 0xFFFF_FFFF
            &&& s[n - 1] matches El3Step::Write(w) && w.addr == base + 0x1_0100 && w.val
                == 0x6000_FFFF
        }),
{
}

proof fn lemma_rotated(x: u64)
    by (bit_vector)
    ensures
        (x << 17) | (x >> 47) == (x % 0x8000_0000_0000) * 0x2_0000 + x / 0x8000_0000_0000,
{
}

/// The secret is mixed from the counter, turned left by 17 bits and moved, modulo 2 to the 64.
pub proof fn law_secret_is_minted(counter: u64, x: u64)
    requires
        x == splitmix(counter ^ 0x9E37_79B9_7F4A_7C15),
    ensures
        minted(counter) == ((x % 0x8000_0000_0000) * 0x2_0000 + x / 0x8000_0000_0000
            + 0x5BEE_6EFE_9408_A19C) % 0x1_0000_0000_0000_0000,
{
    lemma_rotated(x);
}

/// A register is printed behind its tag with 16 digits.
pub proof fn law_registers_in_hex(tag: Seq<char>, v: u64)
    ensures
        tagged(tag, v) == encode_utf8(tag) + (encode_utf8("0x"@) + hex_digits(v as nat, 16)),
{
}

/// What the monitor serves: every call whose ranges lie in the kernel's memory, and those that
/// it would refuse for another reason.
#[verifier::rlimit(50)]
pub proof fn law_what_is_served(m: Monitor, ns: Ram, c: SmcCall)
    requires
        ns.wf(),
        m.wf(),
        c.a2 > 0,
        c.a3 > 0,
    ensures
        ({
            let in_memory = |addr: u64, n: u64|
                ns.start() <= addr && addr + n <= ns.start() + ns@.len();
            let w = m.world->0;
            &&& c.id < 0x8300_0001 || c.id > 0x8300_000C ==> smc_ok(m, ns, c)
            &&& 0x8300_0002 <= c.id <= 0x8300_0006 || c.id == 0x8300_0009 ==> smc_ok(m, ns, c)
            &&& c.id == 0x8300_0001 ==> (smc_ok(m, ns, c) <==> in_memory(c.a1, c.a2))
            &&& c.id == 0x8300_0007 && m.world is Some && c.a3 <= 232 ==> (smc_ok(m, ns, c)
                <==> in_memory(c.a1, 8) && in_memory(c.a2, c.a3))
            &&& c.id == 0x8300_0007 && (m.world is None || c.a3 > 232) ==> smc_ok(m, ns, c)
            &&& c.id == 0x8300_0008 && m.world is None ==> smc_ok(m, ns, c)
            &&& c.id == 0x8300_0008 && m.world is Some && smc_ok(m, ns, c) ==> in_memory(c.a1, 8)
            &&& c.id == 0x8300_0008 && in_memory(c.a1, 8) && in_memory(c.a2, c.a3) ==> smc_ok(
                m,
                ns,
                c,
            )
            &&& c.id == 0x8300_000A && (m.world is None || c.a1 >= 16 || c.a3 > 256
                || w.keybox.slots@[c.a1 as int].valid != 1
                || w.keybox.slots@[c.a1 as int].ctr == u64::MAX) ==> smc_ok(m, ns, c)
            &&& c.id == 0x8300_000B && (m.world is None || c.a1 >= 16 || c.a3 > 256
                || w.keybox.slots@[c.a1 as int].valid != 1) ==> smc_ok(m, ns, c)
            &&& c.id == 0x8300_000A && m.world is Some && c.a1 < 16 && c.a3 <= 256
                && w.keybox.slots@[c.a1 as int].valid == 1 && w.keybox.slots@[c.a1 as int].ctr
                < u64::MAX ==> (smc_ok(m, ns, c) <==> in_memory(c.a2, c.a3))
            &&& c.id == 0x8300_000B && m.world is Some && c.a1 < 16 && c.a3 <= 256
                && w.keybox.slots@[c.a1 as int].valid == 1 ==> (smc_ok(m, ns, c) <==> in_memory(
                c.a2,
                c.a3,
            ))
            &&& c.id == 0x8300_000C && c.a5 >= 16 && c.a2 <= 16 * 1024 * 1024 ==> (smc_ok(m, ns, c)
                <==> in_memory(c.a1, c.a2) && in_memory(c.a4, 16))
            &&& c.id == 0x8300_000C && (c.a5 < 16 || c.a2 > 16 * 1024 * 1024) ==> smc_ok(m, ns, c)
        }),
{
}

} // verus!
