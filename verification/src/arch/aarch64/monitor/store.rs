//! Secure storage: a table of named blobs in memory that only the secure world sees.

use vstd::prelude::*;
use crate::bytes::put;

verus! {

/// Slots of the table.
pub const STORE_SLOTS: usize = 32;

/// Mark of an occupied slot.
pub const STORE_MAGIC: u64 = 0x5354_4F52;

/// Longest blob in bytes.
pub const STORE_DATA_MAX: usize = 232;

/// A slot of 256 bytes.
#[derive(Debug, Clone, Copy)]
pub struct StoreSlot {
    pub magic: u64,
    pub name: u64,
    pub len: u64,
    pub data: [u8; STORE_DATA_MAX],
}

impl StoreSlot {
    /// The slot holds a blob.
    pub open spec fn occupied(self) -> bool {
        self.magic == STORE_MAGIC
    }

    /// The blob.
    pub open spec fn blob(self) -> Seq<u8> {
        self.data@.take(self.len as int)
    }
}

/// First slot from `from` on that holds a blob with the name; past the end if there is none.
pub open spec fn find_from(s: Seq<StoreSlot>, name: u64, from: int) -> int
    decreases s.len() - from,
{
    if from >= s.len() {
        s.len() as int
    } else if s[from].occupied() && s[from].name == name {
        from
    } else {
        find_from(s, name, from + 1)
    }
}

/// First slot from `from` on that is free; past the end if there is none.
pub open spec fn free_from(s: Seq<StoreSlot>, from: int) -> int
    decreases s.len() - from,
{
    if from >= s.len() {
        s.len() as int
    } else if !s[from].occupied() {
        from
    } else {
        free_from(s, from + 1)
    }
}

/// The blob with the name.
pub open spec fn lookup(s: Seq<StoreSlot>, name: u64) -> Option<Seq<u8>> {
    let k = find_from(s, name, 0);
    if k < s.len() {
        Some(s[k].blob())
    } else {
        None
    }
}

/// The slot that a blob with the name goes to: the one it has, else the first free one.
pub open spec fn slot_for(s: Seq<StoreSlot>, name: u64) -> int {
    if find_from(s, name, 0) < s.len() {
        find_from(s, name, 0)
    } else {
        free_from(s, 0)
    }
}

/// The slot with the blob in it; bytes behind the blob stay.
pub open spec fn filled(slot: StoreSlot, name: u64, data: Seq<u8>, r: StoreSlot) -> bool {
    &&& r.magic == STORE_MAGIC
    &&& r.name == name
    &&& r.len == data.len()
    &&& r.data@ == put(slot.data@, 0, data)
}

/// Storing the blob under the name is possible: it is not too long, and there is a slot.
pub open spec fn storable(s: Seq<StoreSlot>, name: u64, len: int) -> bool {
    len <= STORE_DATA_MAX && slot_for(s, name) < s.len()
}

/// `t` is the table once the blob was stored.
pub open spec fn stored(s: Seq<StoreSlot>, name: u64, data: Seq<u8>, t: Seq<StoreSlot>) -> bool {
    let k = slot_for(s, name);
    &&& t.len() == s.len()
    &&& filled(s[k], name, data, t[k])
    &&& t == s.update(k, t[k])
}

/// The table.
pub struct SecureStore {
    pub slots: Vec<StoreSlot>,
}

impl SecureStore {
    /// The table has its size, and no blob is longer than its slot.
    pub open spec fn wf(self) -> bool {
        &&& self.slots@.len() == STORE_SLOTS
        &&& forall|i: int|
            0 <= i < STORE_SLOTS && (#[trigger] self.slots@[i]).occupied() ==> self.slots@[i].len
                <= STORE_DATA_MAX
    }

    /// An empty table.
    pub fn new() -> (s: Self)
        ensures
            s.wf(),
            forall|i: int| 0 <= i < STORE_SLOTS ==> !(#[trigger] s.slots@[i]).occupied(),
    {
        let mut slots: Vec<StoreSlot> = Vec::new();
        let mut i: usize = 0;
        while i < STORE_SLOTS
            invariant
                i <= STORE_SLOTS,
                slots@.len() == i,
                forall|k: int| 0 <= k < i ==> !(#[trigger] slots@[k]).occupied(),
            decreases STORE_SLOTS - i,
        {
            slots.push(StoreSlot { magic: 0, name: 0, len: 0, data: [0u8;232] });
            i = i + 1;
        }
        SecureStore { slots }
    }

    fn find(&self, name: u64) -> (k: usize)
        requires
            self.wf(),
        ensures
            k == find_from(self.slots@, name, 0),
            k <= STORE_SLOTS,
            k < STORE_SLOTS ==> self.slots@[k as int].occupied(),
    {
        let mut i: usize = 0;
        while i < STORE_SLOTS
            invariant
                i <= STORE_SLOTS,
                self.wf(),
                find_from(self.slots@, name, 0) == find_from(self.slots@, name, i as int),
            decreases STORE_SLOTS - i,
        {
            if self.slots[i].magic == STORE_MAGIC && self.slots[i].name == name {
                return i;
            }
            i = i + 1;
        }
        i
    }

    fn first_free(&self) -> (k: usize)
        requires
            self.wf(),
        ensures
            k == free_from(self.slots@, 0),
            k <= STORE_SLOTS,
    {
        let mut i: usize = 0;
        while i < STORE_SLOTS
            invariant
                i <= STORE_SLOTS,
                self.wf(),
                free_from(self.slots@, 0) == free_from(self.slots@, i as int),
            decreases STORE_SLOTS - i,
        {
            if self.slots[i].magic != STORE_MAGIC {
                return i;
            }
            i = i + 1;
        }
        i
    }

    /// Store a blob under a name, in place of the one that has it.  Returns false if it is
    /// too long or there is no slot left.
    pub fn store(&mut self, name: u64, data: &[u8]) -> (r: bool)
        requires
            old(self).wf(),
        ensures
            final(self).wf(),
            r == storable(old(self).slots@, name, data@.len() as int),
            if r {
                stored(old(self).slots@, name, data@, final(self).slots@)
            } else {
                *final(self) == *old(self)
            },
    {
        let len: usize = data.len();
        if len > STORE_DATA_MAX {
            return false;
        }
        let found: usize = self.find(name);
        let k: usize = if found < STORE_SLOTS {
            found
        } else {
            self.first_free()
        };
        if k >= STORE_SLOTS {
            return false;
        }
        let ghost s = self.slots@;
        let mut slot: StoreSlot = self.slots[k];
        let ghost before = slot.data@;
        slot.magic = STORE_MAGIC;
        slot.name = name;
        slot.len = len as u64;
        let mut i: usize = 0;
        while i < len
            invariant
                i <= len <= STORE_DATA_MAX,
                len == data@.len(),
                slot.magic == STORE_MAGIC,
                slot.name == name,
                slot.len == len,
                before.len() == STORE_DATA_MAX,
                forall|j: int| 0 <= j < STORE_DATA_MAX ==> #[trigger] slot.data@[j] == if j < i {
                    data@[j]
                } else {
                    before[j]
                },
            decreases len - i,
        {
            slot.data[i] = data[i];
            i = i + 1;
        }
        self.slots.set(k, slot);
        proof {
            assert(slot.data@ =~= put(before, 0, data@));
            assert(self.slots@ =~= s.update(k as int, self.slots@[k as int]));
        }
        true
    }

    /// Length of the blob with the name.
    pub fn len_of(&self, name: u64) -> (r: Option<usize>)
        requires
            self.wf(),
        ensures
            match (r, lookup(self.slots@, name)) {
                (Some(n), Some(b)) => n == b.len(),
                (None, None) => true,
                _ => false,
            },
    {
        let k: usize = self.find(name);
        if k >= STORE_SLOTS {
            return None;
        }
        Some(self.slots[k].len as usize)
    }

    /// The blob with the name.
    pub fn load(&self, name: u64) -> (r: Option<Vec<u8>>)
        requires
            self.wf(),
        ensures
            match (r, lookup(self.slots@, name)) {
                (Some(v), Some(b)) => v@ == b,
                (None, None) => true,
                _ => false,
            },
    {
        let k: usize = self.find(name);
        if k >= STORE_SLOTS {
            return None;
        }
        let len: usize = self.slots[k].len as usize;
        let mut out: Vec<u8> = Vec::new();
        let mut i: usize = 0;
        let ghost slot = self.slots@[k as int];
        while i < len
            invariant
                i <= len <= STORE_DATA_MAX,
                k < STORE_SLOTS,
                self.wf(),
                slot == self.slots@[k as int],
                len == slot.len,
                out@ == slot.data@.take(i as int),
            decreases len - i,
        {
            out.push(self.slots[k].data[i]);
            assert(out@ =~= slot.data@.take(i + 1));
            i = i + 1;
        }
        Some(out)
    }
}

/// Where the first slot with a name is.
proof fn lemma_find(s: Seq<StoreSlot>, name: u64, from: int)
    requires
        0 <= from,
    ensures
        ({
            let k = find_from(s, name, from);
            &&& from <= s.len() ==> from <= k <= s.len()
            &&& k < s.len() ==> s[k].occupied() && s[k].name == name
            &&& forall|j: int| from <= j < k && j < s.len() ==> !((#[trigger] s[j]).occupied()
                && s[j].name == name)
        }),
    decreases s.len() - from,
{
    if from < s.len() && !(s[from].occupied() && s[from].name == name) {
        lemma_find(s, name, from + 1);
    }
}

/// A slot that is the first with its name is found.
proof fn lemma_find_is(s: Seq<StoreSlot>, name: u64, from: int, k: int)
    requires
        0 <= from <= k < s.len(),
        s[k].occupied(),
        s[k].name == name,
        forall|j: int| from <= j < k ==> !((#[trigger] s[j]).occupied() && s[j].name == name),
    ensures
        find_from(s, name, from) == k,
    decreases k - from,
{
    if from < k {
        lemma_find_is(s, name, from + 1, k);
    }
}

/// A free slot is the first that is free.
proof fn lemma_free(s: Seq<StoreSlot>, from: int)
    requires
        0 <= from,
    ensures
        ({
            let k = free_from(s, from);
            &&& from <= s.len() ==> from <= k <= s.len()
            &&& k < s.len() ==> !s[k].occupied()
        }),
    decreases s.len() - from,
{
    if from < s.len() && s[from].occupied() {
        lemma_free(s, from + 1);
    }
}

/// A blob that was stored is read back as it was.
pub proof fn law_load_returns_stored(
    s: Seq<StoreSlot>,
    name: u64,
    data: Seq<u8>,
    t: Seq<StoreSlot>,
)
    requires
        storable(s, name, data.len() as int),
        stored(s, name, data, t),
    ensures
        lookup(t, name) == Some(data),
{
    let k = slot_for(s, name);
    lemma_find(s, name, 0);
    lemma_free(s, 0);
    assert forall|j: int| 0 <= j < k implies !((#[trigger] t[j]).occupied() && t[j].name
        == name) by {
        assert(t[j] == s[j]);
    }
    lemma_find_is(t, name, 0, k);
    assert(t[k].blob() =~= data);
}

/// Storing a blob leaves those with other names as they are.
pub proof fn law_store_keeps_others(
    s: Seq<StoreSlot>,
    name: u64,
    data: Seq<u8>,
    t: Seq<StoreSlot>,
    other: u64,
)
    requires
        storable(s, name, data.len() as int),
        stored(s, name, data, t),
        other != name,
    ensures
        lookup(t, other) == lookup(s, other),
{
    let k = slot_for(s, name);
    lemma_find(s, name, 0);
    lemma_free(s, 0);
    lemma_find(s, other, 0);
    lemma_find(t, other, 0);
    let i = find_from(s, other, 0);
    if i < s.len() {
        assert(i != k);
        assert forall|j: int| 0 <= j < i implies !((#[trigger] t[j]).occupied() && t[j].name
            == other) by {
            assert(t[j] == s[j] || j == k);
        }
        lemma_find_is(t, other, 0, i);
    } else {
        let m = find_from(t, other, 0);
        if m < t.len() {
            assert(m != k);
            assert(t[m] == s[m]);
            assert(false);
        }
    }
}

} // verus!
