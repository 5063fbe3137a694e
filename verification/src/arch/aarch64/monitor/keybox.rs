//! The keybox: keys that are made, used and kept in the secure world.
//!
//! A key has a counter.  Sealing takes the counter as its start value and advances it, so no
//! two seals with a key share a key stream; unsealing takes the start value of the latest seal.

use vstd::prelude::*;
use crate::arch::aarch64::monitor::cipher::{
    cfb_decrypted, cfb_encrypted, law_decrypt_undoes_encrypt, splitmix, splitmix64, xtea_cfb,
};
use crate::bytes::le64_bytes;

verus! {

/// Slots of the keybox.
pub const KEYBOX_KEYS: usize = 16;

/// Most bytes that are sealed at once.
pub const SEAL_MAX: usize = 256;

/// A slot of 32 bytes.
#[derive(Debug, Clone, Copy, PartialEq, Eq, Structural)]
pub struct KeySlot {
    /// 1 if there is a key.
    pub valid: u64,
    pub key0: u64,
    pub key1: u64,
    /// Seals so far.
    pub ctr: u64,
}

impl KeySlot {
    /// The key as the cipher takes it.
    pub open spec fn words(self) -> Seq<u32> {
        seq![
            (self.key0 % 0x1_0000_0000) as u32,
            (self.key0 / 0x1_0000_0000) as u32,
            (self.key1 % 0x1_0000_0000) as u32,
            (self.key1 / 0x1_0000_0000) as u32,
        ]
    }

    /// Start value of the latest seal; 0 before the first.
    pub open spec fn last_iv(self) -> u64 {
        if self.ctr == 0 {
            0
        } else {
            (self.ctr - 1) as u64
        }
    }
}

/// The key that `entropy` and the monitor's secret make.
pub open spec fn made_key(entropy: u64, secret: u64) -> KeySlot {
    let k0 = splitmix(splitmix(entropy) ^ secret);
    KeySlot { valid: 1, key0: k0, key1: splitmix(k0), ctr: 0 }
}

/// The keybox.
pub struct Keybox {
    pub slots: Vec<KeySlot>,
}

impl Keybox {
    pub open spec fn wf(self) -> bool {
        self.slots@.len() == KEYBOX_KEYS
    }

    /// There is a key in slot `id`.
    pub open spec fn has_key(self, id: u64) -> bool {
        id < KEYBOX_KEYS && self.slots@[id as int].valid == 1
    }

    /// Sealing `len` bytes with key `id` is possible: there is a key, its counter does not
    /// wrap, and the bytes are not too many.
    pub open spec fn can_seal(self, id: u64, len: int) -> bool {
        &&& len <= SEAL_MAX
        &&& self.has_key(id)
        &&& self.slots@[id as int].ctr < u64::MAX
    }

    /// Unsealing `len` bytes with key `id` is possible.
    pub open spec fn can_unseal(self, id: u64, len: int) -> bool {
        len <= SEAL_MAX && self.has_key(id)
    }

    /// What sealing `s` with key `id` does.
    pub open spec fn sealed(pre: Self, id: u64, s: Seq<u8>, post: Self, c: Seq<u8>) -> bool {
        let k = pre.slots@[id as int];
        &&& c == cfb_encrypted(k.words(), le64_bytes(k.ctr), s)
        &&& post.slots@ == pre.slots@.update(
            id as int,
            KeySlot { ctr: (k.ctr + 1) as u64, ..k },
        )
    }

    /// What unsealing `c` with key `id` gives.
    pub open spec fn unsealed(self, id: u64, c: Seq<u8>) -> Seq<u8> {
        let k = self.slots@[id as int];
        cfb_decrypted(k.words(), le64_bytes(k.last_iv()), c)
    }

    /// A keybox without keys.
    pub fn new() -> (b: Self)
        ensures
            b.wf(),
            forall|id: u64| !#[trigger] b.has_key(id),
    {
        let mut slots: Vec<KeySlot> = Vec::new();
        let mut i: usize = 0;
        while i < KEYBOX_KEYS
            invariant
                i <= KEYBOX_KEYS,
                slots@.len() == i,
                forall|k: int| 0 <= k < i ==> (#[trigger] slots@[k]).valid == 0,
            decreases KEYBOX_KEYS - i,
        {
            slots.push(KeySlot { valid: 0, key0: 0, key1: 0, ctr: 0 });
            i = i + 1;
        }
        Keybox { slots }
    }

    /// Make a new key in slot `id`.  Returns false if there is no such slot.
    pub fn generate(&mut self, id: u64, entropy: u64, secret: u64) -> (r: bool)
        requires
            old(self).wf(),
        ensures
            final(self).wf(),
            r == (id < KEYBOX_KEYS),
            if r {
                final(self).slots@ == old(self).slots@.update(
                    id as int,
                    made_key(entropy, secret),
                )
            } else {
                *final(self) == *old(self)
            },
    {
        if id >= KEYBOX_KEYS as u64 {
            return false;
        }
        let k0: u64 = splitmix64(splitmix64(entropy) ^ secret);
        let k1: u64 = splitmix64(k0);
        self.slots.set(id as usize, KeySlot { valid: 1, key0: k0, key1: k1, ctr: 0 });
        true
    }

    fn key_words(k: KeySlot) -> (w: [u32; 4])
        ensures
            w@ == k.words(),
    {
        let w: [u32; 4] = [
            (k.key0 % 0x1_0000_0000) as u32,
            (k.key0 / 0x1_0000_0000) as u32,
            (k.key1 % 0x1_0000_0000) as u32,
            (k.key1 / 0x1_0000_0000) as u32,
        ];
        assert(w@ =~= k.words());
        w
    }

    /// True if [`Keybox::seal`] would seal `len` bytes.
    pub fn would_seal(&self, id: u64, len: u64) -> (r: bool)
        requires
            self.wf(),
        ensures
            r == self.can_seal(id, len as int),
    {
        if len > SEAL_MAX as u64 || id >= KEYBOX_KEYS as u64 {
            return false;
        }
        let k: KeySlot = self.slots[id as usize];
        k.valid == 1 && k.ctr < u64::MAX
    }

    /// True if [`Keybox::unseal`] would unseal `len` bytes.
    pub fn would_unseal(&self, id: u64, len: u64) -> (r: bool)
        requires
            self.wf(),
        ensures
            r == self.can_unseal(id, len as int),
    {
        if len > SEAL_MAX as u64 || id >= KEYBOX_KEYS as u64 {
            return false;
        }
        self.slots[id as usize].valid == 1
    }

    /// Seal bytes in place with key `id`.  Returns false, and changes nothing, if there is no
    /// such key, its counter would wrap, or the bytes are too many.
    pub fn seal(&mut self, id: u64, buf: &mut Vec<u8>) -> (r: bool)
        requires
            old(self).wf(),
        ensures
            final(self).wf(),
            r == old(self).can_seal(id, old(buf)@.len() as int),
            if r {
                Self::sealed(*old(self), id, old(buf)@, *final(self), final(buf)@)
            } else {
                *final(self) == *old(self) && final(buf)@ == old(buf)@
            },
    {
        let len: usize = buf.len();
        if !self.would_seal(id, len as u64) {
            return false;
        }
        let k: KeySlot = self.slots[id as usize];
        let key = Self::key_words(k);
        xtea_cfb(&key, k.ctr, buf, true);
        self.slots.set(id as usize, KeySlot { ctr: k.ctr + 1, ..k });
        true
    }

    /// Unseal bytes in place that the latest seal with key `id` made.  Returns false, and
    /// changes nothing, if there is no such key or the bytes are too many.
    pub fn unseal(&self, id: u64, buf: &mut Vec<u8>) -> (r: bool)
        requires
            self.wf(),
        ensures
            r == self.can_unseal(id, old(buf)@.len() as int),
            final(buf)@ == if r {
                self.unsealed(id, old(buf)@)
            } else {
                old(buf)@
            },
    {
        let len: usize = buf.len();
        if !self.would_unseal(id, len as u64) {
            return false;
        }
        let k: KeySlot = self.slots[id as usize];
        let iv: u64 = if k.ctr == 0 {
            0
        } else {
            k.ctr - 1
        };
        let key = Self::key_words(k);
        xtea_cfb(&key, iv, buf, false);
        true
    }
}

/// What was sealed is unsealed as it was.
pub proof fn law_unseal_undoes_seal(pre: Keybox, id: u64, s: Seq<u8>, post: Keybox, c: Seq<u8>)
    requires
        pre.wf(),
        pre.can_seal(id, s.len() as int),
        Keybox::sealed(pre, id, s, post, c),
    ensures
        post.can_unseal(id, c.len() as int),
        post.unsealed(id, c) == s,
{
    let k = pre.slots@[id as int];
    law_decrypt_undoes_encrypt(k.words(), le64_bytes(k.ctr), s);
    assert(post.slots@[id as int].words() =~= k.words());
}

/// Two seals with a key never start from the same value: the second starts from a greater one.
pub proof fn law_seals_use_fresh_start(
    pre: Keybox,
    id: u64,
    s: Seq<u8>,
    mid: Keybox,
    c: Seq<u8>,
)
    requires
        pre.wf(),
        pre.can_seal(id, s.len() as int),
        Keybox::sealed(pre, id, s, mid, c),
    ensures
        mid.slots@[id as int].ctr > pre.slots@[id as int].ctr,
        forall|j: int| 0 <= j < KEYBOX_KEYS && j != id ==> #[trigger] mid.slots@[j]
            == pre.slots@[j],
{
}

} // verus!
