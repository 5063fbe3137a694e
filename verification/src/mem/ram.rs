//! A window of physical memory as bytes.

use vstd::prelude::*;
use crate::bytes::{
    bytes_of, law_le32_round_trip, law_le64_round_trip, le16, le32, le32_bytes, le64, le64_bytes,
    put, read_le16, read_le32, read_le64, zeros,
};

verus! {

/// Physical memory from `base` on.
pub struct Ram {
    base: u64,
    bytes: Vec<u8>,
}

/// The `n` bytes of `mem` from index `at` on.
pub open spec fn span(mem: Seq<u8>, at: int, n: int) -> Seq<u8> {
    if n == 0 {
        Seq::empty()
    } else {
        mem.subrange(at, at + n)
    }
}

impl Ram {
    /// First address.
    pub closed spec fn start(self) -> int {
        self.base as int
    }

    /// The contents, first address first.
    pub closed spec fn view(&self) -> Seq<u8> {
        self.bytes@
    }

    /// The addresses fit in 64 bits.
    pub open spec fn wf(self) -> bool {
        self.start() + self@.len() <= u64::MAX && 0 <= self.start()
    }

    /// `n` bytes at `addr` lie in the window; no bytes do wherever they are.
    pub open spec fn has(self, addr: int, n: int) -> bool {
        n == 0 || (self.start() <= addr && addr + n <= self.start() + self@.len())
    }

    /// The `n` bytes at `addr`.
    pub open spec fn range(self, addr: int, n: int) -> Seq<u8> {
        span(self@, addr - self.start(), n)
    }

    /// The byte at `addr`.
    pub open spec fn byte(self, addr: int) -> u8 {
        self@[addr - self.start()]
    }

    /// The little-endian 64-bit word at `addr`.
    pub open spec fn word(self, addr: int) -> int {
        le64(self@, addr - self.start())
    }

    /// The contents with `data` written at `addr`.
    pub open spec fn with(self, addr: int, data: Seq<u8>) -> Seq<u8> {
        put(self@, addr - self.start(), data)
    }

    /// Memory at `base` with the given contents.
    pub fn new(base: u64, bytes: Vec<u8>) -> (r: Self)
        requires
            base + bytes@.len() <= u64::MAX,
        ensures
            r.wf(),
            r.start() == base,
            r@ == bytes@,
    {
        Ram { base, bytes }
    }

    /// True if `n` bytes at `addr` lie in the window.
    pub fn contains(&self, addr: u64, n: u64) -> (r: bool)
        requires
            self.wf(),
        ensures
            r == self.has(addr as int, n as int),
    {
        let len: u64 = self.bytes.len() as u64;
        n == 0 || (addr >= self.base && addr - self.base <= len && n <= len - (addr - self.base))
    }

    fn at(&self, addr: u64) -> (i: usize)
        requires
            self.wf(),
            self.start() <= addr <= self.start() + self@.len(),
        ensures
            i == addr - self.start(),
    {
        let len: usize = self.bytes.len();
        (addr - self.base) as usize
    }

    /// The byte at `addr`.
    pub fn read8(&self, addr: u64) -> (v: u8)
        requires
            self.wf(),
            self.has(addr as int, 1),
        ensures
            v == self.byte(addr as int),
    {
        self.bytes[self.at(addr)]
    }

    /// The little-endian 16-bit integer at `addr`.
    pub fn read16(&self, addr: u64) -> (v: u16)
        requires
            self.wf(),
            self.has(addr as int, 2),
        ensures
            v == le16(self@, addr - self.start()),
    {
        read_le16(self.bytes.as_slice(), self.at(addr))
    }

    /// The little-endian 32-bit integer at `addr`.
    pub fn read32(&self, addr: u64) -> (v: u32)
        requires
            self.wf(),
            self.has(addr as int, 4),
        ensures
            v == le32(self@, addr - self.start()),
    {
        read_le32(self.bytes.as_slice(), self.at(addr))
    }

    /// The little-endian 64-bit integer at `addr`.
    pub fn read64(&self, addr: u64) -> (v: u64)
        requires
            self.wf(),
            self.has(addr as int, 8),
        ensures
            v == self.word(addr as int),
    {
        read_le64(self.bytes.as_slice(), self.at(addr))
    }

    /// The `n` bytes at `addr`.
    pub fn slice(&self, addr: u64, n: u64) -> (s: &[u8])
        requires
            self.wf(),
            self.has(addr as int, n as int),
        ensures
            s@ == self.range(addr as int, n as int),
    {
        let i: usize = if n == 0 {
            0
        } else {
            self.at(addr)
        };
        let len: usize = self.bytes.len();
        let s = vstd::slice::slice_subrange(self.bytes.as_slice(), i, i + n as usize);
        assert(s@ =~= self.range(addr as int, n as int));
        s
    }

    /// Write `data` at `addr`.
    pub fn write(&mut self, addr: u64, data: &[u8])
        requires
            old(self).wf(),
            old(self).has(addr as int, data@.len() as int),
        ensures
            final(self).wf(),
            final(self).start() == old(self).start(),
            final(self)@ == old(self).with(addr as int, data@),
    {
        let ghost pre = *self;
        let n: usize = data.len();
        if n == 0 {
            assert(self@ =~= pre.with(addr as int, data@));
            return;
        }
        let at: usize = self.at(addr);
        let len: usize = self.bytes.len();
        let mut i: usize = 0;
        while i < n
            invariant
                i <= n,
                n == data@.len(),
                at == addr - pre.start(),
                at + n <= len,
                len == self.bytes@.len(),
                self.base == pre.base,
                self.bytes@.len() == pre.bytes@.len(),
                forall|k: int|
                    0 <= k < pre.bytes@.len() ==> #[trigger] self.bytes@[k] == if at <= k < at + i {
                        data@[k - at]
                    } else {
                        pre.bytes@[k]
                    },
            decreases n - i,
        {
            self.bytes.set(at + i, data[i]);
            i = i + 1;
        }
        assert(self@ =~= pre.with(addr as int, data@));
    }

    /// Write `n` zero bytes at `addr`.
    pub fn zero(&mut self, addr: u64, n: u64)
        requires
            old(self).wf(),
            old(self).has(addr as int, n as int),
        ensures
            final(self).wf(),
            final(self).start() == old(self).start(),
            final(self)@ == old(self).with(addr as int, zeros(n as int)),
    {
        let ghost pre = *self;
        if n == 0 {
            assert(self@ =~= pre.with(addr as int, zeros(n as int)));
            return;
        }
        let at: usize = self.at(addr);
        let len: usize = self.bytes.len();
        let mut i: usize = 0;
        while i < n as usize
            invariant
                i <= n,
                at == addr - pre.start(),
                at + n <= len,
                len == self.bytes@.len(),
                self.base == pre.base,
                self.bytes@.len() == pre.bytes@.len(),
                forall|k: int|
                    0 <= k < pre.bytes@.len() ==> #[trigger] self.bytes@[k] == if at <= k < at + i {
                        0u8
                    } else {
                        pre.bytes@[k]
                    },
            decreases n - i,
        {
            self.bytes.set(at + i, 0);
            i = i + 1;
        }
        assert(self@ =~= pre.with(addr as int, zeros(n as int)));
    }

    /// Write a little-endian 32-bit integer at `addr`.
    pub fn write32(&mut self, addr: u64, v: u32)
        requires
            old(self).wf(),
            old(self).has(addr as int, 4),
        ensures
            final(self).wf(),
            final(self).start() == old(self).start(),
            final(self)@ == old(self).with(addr as int, le32_bytes(v)),
            le32(final(self)@, addr - final(self).start()) == v,
    {
        let b: [u8; 4] = [
            (v % 0x100) as u8,
            (v / 0x100 % 0x100) as u8,
            (v / 0x1_0000 % 0x100) as u8,
            (v / 0x100_0000) as u8,
        ];
        assert(b@ =~= le32_bytes(v));
        self.write(addr, b.as_slice());
        proof {
            law_le32_round_trip(v);
            let i = addr - self.start();
            assert(forall|k: int| 0 <= k < 4 ==> #[trigger] b@[k] == self@[i + k]);
            assert(le32(self@, i) == le32(b@, 0));
        }
    }

    /// Write a little-endian 64-bit integer at `addr`.
    pub fn write64(&mut self, addr: u64, v: u64)
        requires
            old(self).wf(),
            old(self).has(addr as int, 8),
        ensures
            final(self).wf(),
            final(self).start() == old(self).start(),
            final(self)@ == old(self).with(addr as int, le64_bytes(v)),
            final(self).word(addr as int) == v,
    {
        let ghost pre = *self;
        let b: [u8; 8] = bytes_of(v);
        self.write(addr, b.as_slice());
        proof {
            law_le64_round_trip(v);
            let i = addr - self.start();
            assert(forall|k: int| 0 <= k < 8 ==> #[trigger] b@[k] == self@[i + k]);
            assert(le64(self@, i) == le64(b@, 0));
        }
    }
}

/// What is written at an address is read back from it, byte by byte; every other byte of memory
/// stays.
pub proof fn law_memory_reads_back(a: Ram, b: Ram, addr: int, data: Seq<u8>, at: int)
    requires
        a.wf(),
        b.start() == a.start(),
        b@ == a.with(addr, data),
        data.len() > 0,
        a.has(addr, data.len() as int),
        a.start() <= at < a.start() + a@.len(),
    ensures
        b.byte(at) == if addr <= at < addr + data.len() {
            data[at - addr]
        } else {
            a.byte(at)
        },
        b.range(addr, data.len() as int) == data,
        b@.len() == a@.len(),
{
    assert(b.range(addr, data.len() as int) =~= data);
}

/// Memory holds a range exactly when it holds its first and its last byte; its bytes are those
/// at the addresses from the start on.
pub proof fn law_range_is_by_address(m: Ram, addr: int, n: int, k: int)
    requires
        m.wf(),
        0 < n,
        0 <= k < n,
    ensures
        m.has(addr, n) <==> m.start() <= addr && addr + n - 1 < m.start() + m@.len(),
        m.has(addr, n) ==> m.range(addr, n).len() == n && m.range(addr, n)[k] == m@[addr + k
            - m.start()],
        m.range(addr, 0).len() == 0,
        m.word(addr) == le64(m@, addr - m.start()),
        m.byte(addr) == m@[addr - m.start()],
{
}

} // verus!
