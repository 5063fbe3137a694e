//! ACPI tables: the machine's interrupt controller, console and PCIe window.
//!
//! RSDP v2 leads to the XSDT, which lists the MADT, SPCR and MCFG.  Every pointer is
//! checked (alignment, range, signature, length and 8-bit checksum) before anything
//! is read through it.

use vstd::prelude::*;
use vstd::utf8::encode_utf8;
use crate::bytes::{le16, le32, le64, same_bytes};
use crate::mem::ram::Ram;

verus! {

/// Bytes of the common table header.
pub const HEADER_LEN: u64 = 36;

/// Largest table that is accepted.
pub const MAX_TABLE_LEN: u64 = 0x100_0000;

/// Highest table address that is accepted.
pub const MAX_TABLE_ADDR: u64 = 0x8000_0000_0000;

/// What the tables say about the platform; 0 is not described.
#[derive(Debug, Clone, Copy, PartialEq, Eq, Structural)]
pub struct AcpiInfo {
    /// GICv3 distributor.
    pub gic_dist_base: u64,
    /// First GICv3 redistributor.
    pub gic_redist_base: u64,
    /// Interrupt translation service.
    pub its_base: u64,
    /// Console UART.
    pub uart_base: u64,
    /// PCIe ECAM window of segment 0.
    pub ecam_base: u64,
}

/// Sum of bytes.
pub open spec fn byte_sum(s: Seq<u8>) -> int
    decreases s.len(),
{
    if s.len() == 0 {
        0
    } else {
        byte_sum(s.drop_last()) + s.last()
    }
}

/// The table at `addr`: aligned, in range, with a sane length and all its bytes
/// summing to 0 modulo 256.
pub open spec fn table_at(ram: Ram, addr: int) -> Option<Seq<u8>> {
    let len = le32(ram@, addr - ram.start() + 4);
    if addr % 4 == 0 && addr <= MAX_TABLE_ADDR && ram.has(addr, HEADER_LEN as int) && HEADER_LEN
        <= len <= MAX_TABLE_LEN && ram.has(addr, len) && byte_sum(ram.range(addr, len)) % 256
        == 0 {
        Some(ram.range(addr, len))
    } else {
        None
    }
}

/// The table has the signature.
pub open spec fn signed(t: Seq<u8>, sig: Seq<char>) -> bool {
    t.take(4) == encode_utf8(sig)
}

/// Address of the XSDT that the RSDP at `rsdp` names.
pub open spec fn xsdt_of(ram: Ram, rsdp: int) -> Option<int> {
    if rsdp != 0 && rsdp % 8 == 0 && ram.has(rsdp, 32) && ram.range(rsdp, 8) == encode_utf8(
        "RSD PTR "@,
    ) && ram.byte(rsdp + 15) >= 2 && ram.word(rsdp + 24) != 0 && byte_sum(ram.range(rsdp, 20))
        % 256 == 0 {
        Some(ram.word(rsdp + 24))
    } else {
        None
    }
}

/// The subtables of a MADT from offset `off` on.
pub open spec fn subtables(t: Seq<u8>, off: int) -> Seq<Seq<u8>>
    decreases t.len() - off,
{
    if 0 <= off && off + 2 <= t.len() && t[off + 1] >= 2 && off + t[off + 1] <= t.len() {
        seq![t.subrange(off, off + t[off + 1])] + subtables(t, off + t[off + 1])
    } else {
        Seq::empty()
    }
}

/// What a MADT subtable adds: the last distributor, the first redistributor and the
/// first translation service count.
pub open spec fn with_subtable(info: AcpiInfo, s: Seq<u8>) -> AcpiInfo {
    if s[0] == 0x03 && s.len() >= 24 {
        AcpiInfo { gic_dist_base: le64(s, 8) as u64, ..info }
    } else if s[0] == 0x04 && s.len() >= 16 && info.gic_redist_base == 0 {
        AcpiInfo { gic_redist_base: le64(s, 4) as u64, ..info }
    } else if s[0] == 0x0B && s.len() >= 16 && info.its_base == 0 {
        AcpiInfo { its_base: le64(s, 8) as u64, ..info }
    } else {
        info
    }
}

/// What the first `n` of the subtables add.
pub open spec fn with_subtables(info: AcpiInfo, subs: Seq<Seq<u8>>, n: int) -> AcpiInfo
    decreases n,
{
    if n <= 0 {
        info
    } else {
        with_subtable(with_subtables(info, subs, n - 1), subs[n - 1])
    }
}

/// What a MADT adds.
pub open spec fn with_madt(info: AcpiInfo, t: Seq<u8>) -> AcpiInfo {
    with_subtables(info, subtables(t, 44), subtables(t, 44).len() as int)
}

/// What the SPCR at `addr` adds: a memory-mapped console.
pub open spec fn with_spcr(info: AcpiInfo, ram: Ram, addr: int) -> AcpiInfo {
    if ram.has(addr + 40, 12) && ram.byte(addr + 40) == 0 && ram.word(addr + 44) != 0 {
        AcpiInfo { uart_base: ram.word(addr + 44) as u64, ..info }
    } else {
        info
    }
}

/// Base of the first window of segment 0 among the entries of an MCFG from entry `k` on.
pub open spec fn ecam_from(t: Seq<u8>, k: int) -> Option<u64>
    decreases t.len() - 44 - 16 * k,
{
    if k < 0 || 44 + 16 * k + 16 > t.len() {
        None
    } else if le16(t, 44 + 16 * k + 8) == 0 && le64(t, 44 + 16 * k) != 0 {
        Some(le64(t, 44 + 16 * k) as u64)
    } else {
        ecam_from(t, k + 1)
    }
}

/// What an MCFG adds.
pub open spec fn with_mcfg(info: AcpiInfo, t: Seq<u8>) -> AcpiInfo {
    match ecam_from(t, 0) {
        Some(base) => AcpiInfo { ecam_base: base, ..info },
        None => info,
    }
}

/// What the table at `addr` adds; one that is missing or corrupt, or of another kind,
/// adds nothing.
pub open spec fn with_table(info: AcpiInfo, ram: Ram, addr: int) -> AcpiInfo {
    match table_at(ram, addr) {
        Some(t) => if addr == 0 {
            info
        } else if signed(t, "MADT"@) {
            with_madt(info, t)
        } else if signed(t, "SPCR"@) {
            with_spcr(info, ram, addr)
        } else if signed(t, "MCFG"@) {
            with_mcfg(info, t)
        } else {
            info
        },
        None => info,
    }
}

/// No table described anything.
pub open spec fn nothing() -> AcpiInfo {
    AcpiInfo {
        gic_dist_base: 0,
        gic_redist_base: 0,
        its_base: 0,
        uart_base: 0,
        ecam_base: 0,
    }
}

/// Number of pointers in an XSDT.
pub open spec fn entry_count(x: Seq<u8>) -> int {
    (x.len() - 36) / 8
}

/// What the first `n` tables that an XSDT lists say.
pub open spec fn with_entries(ram: Ram, x: Seq<u8>, n: int) -> AcpiInfo
    decreases n,
{
    if n <= 0 {
        nothing()
    } else {
        with_table(with_entries(ram, x, n - 1), ram, le64(x, 36 + 8 * (n - 1)))
    }
}

/// What the tables behind the XSDT at `xsdt` say.
pub open spec fn described(ram: Ram, xsdt: int) -> AcpiInfo {
    match table_at(ram, xsdt) {
        Some(x) => if signed(x, "XSDT"@) {
            with_entries(ram, x, entry_count(x))
        } else {
            nothing()
        },
        None => nothing(),
    }
}

/// The findings name an interrupt controller and a console.
pub open spec fn complete(info: AcpiInfo) -> bool {
    info.gic_dist_base != 0 && info.uart_base != 0
}

fn sum_is_zero(s: &[u8]) -> (r: bool)
    ensures
        r == (byte_sum(s@) % 256 == 0),
{
    let mut sum: u8 = 0;
    let mut i: usize = 0;
    assert(s@.take(0) =~= Seq::<u8>::empty());
    while i < s.len()
        invariant
            i <= s@.len(),
            sum == byte_sum(s@.take(i as int)) % 256,
        decreases s.len() - i,
    {
        assert(s@.take(i + 1).drop_last() =~= s@.take(i as int));
        sum = sum.wrapping_add(s[i]);
        i = i + 1;
    }
    assert(s@.take(i as int) =~= s@);
    sum == 0
}

fn table<'a>(ram: &'a Ram, addr: u64) -> (r: Option<&'a [u8]>)
    requires
        ram.wf(),
    ensures
        match r {
            Some(t) => table_at(*ram, addr as int) == Some(t@),
            None => table_at(*ram, addr as int) is None,
        },
{
    if addr % 4 != 0 || addr > MAX_TABLE_ADDR || !ram.contains(addr, HEADER_LEN) {
        return None;
    }
    let len: u64 = ram.read32(addr + 4) as u64;
    if len < HEADER_LEN || len > MAX_TABLE_LEN || !ram.contains(addr, len) {
        return None;
    }
    let t = ram.slice(addr, len);
    if sum_is_zero(t) {
        Some(t)
    } else {
        None
    }
}

fn has_signature(t: &[u8], sig: &str) -> (r: bool)
    requires
        t@.len() >= 4,
    ensures
        r == signed(t@, sig@),
{
    let head = vstd::slice::slice_subrange(t, 0, 4);
    assert(head@ =~= t@.take(4));
    same_bytes(head, sig.as_bytes())
}

fn rsdp_xsdt(ram: &Ram, rsdp: u64) -> (r: Option<u64>)
    requires
        ram.wf(),
    ensures
        match r {
            Some(x) => xsdt_of(*ram, rsdp as int) == Some(x as int),
            None => xsdt_of(*ram, rsdp as int) is None,
        },
{
    if rsdp == 0 || rsdp % 8 != 0 || !ram.contains(rsdp, 32) {
        return None;
    }
    if !same_bytes(ram.slice(rsdp, 8), "RSD PTR ".as_bytes()) {
        return None;
    }
    if ram.read8(rsdp + 15) < 2 {
        return None;
    }
    let xsdt: u64 = ram.read64(rsdp + 24);
    if xsdt == 0 {
        return None;
    }
    if sum_is_zero(ram.slice(rsdp, 20)) {
        Some(xsdt)
    } else {
        None
    }
}

fn parse_madt(t: &[u8], info: AcpiInfo) -> (r: AcpiInfo)
    requires
        t@.len() <= MAX_TABLE_LEN,
    ensures
        r == with_madt(info, t@),
{
    let ghost subs = subtables(t@, 44);
    let ghost mut done: Seq<Seq<u8>> = Seq::empty();
    let mut out: AcpiInfo = info;
    let mut off: usize = 44;
    assert(done + subtables(t@, off as int) =~= subs);
    while off + 2 <= t.len() && t[off + 1] >= 2 && t[off + 1] as usize <= t.len() - off
        invariant
            t@.len() <= MAX_TABLE_LEN,
            off <= t@.len() + 44,
            44 <= off,
            subs == subtables(t@, 44),
            done + subtables(t@, off as int) == subs,
            out == with_subtables(info, subs, done.len() as int),
        decreases t.len() + 44 - off,
    {
        let slen: usize = t[off + 1] as usize;
        let s = vstd::slice::slice_subrange(t, off, off + slen);
        proof {
            let rest = subtables(t@, off + slen);
            assert(s@ =~= t@.subrange(off as int, off + t@[off + 1]));
            assert(done + (seq![s@] + rest) =~= done.push(s@) + rest);
            assert(subs[done.len() as int] == s@);
        }
        let kind: u8 = s[0];
        if kind == 0x03 && slen >= 24 {
            out.gic_dist_base = crate::bytes::read_le64(s, 8);
        } else if kind == 0x04 && slen >= 16 {
            if out.gic_redist_base == 0 {
                out.gic_redist_base = crate::bytes::read_le64(s, 4);
            }
        } else if kind == 0x0B && slen >= 16 {
            if out.its_base == 0 {
                out.its_base = crate::bytes::read_le64(s, 8);
            }
        }
        proof {
            done = done.push(s@);
        }
        off = off + slen;
    }
    proof {
        assert(done + Seq::<Seq<u8>>::empty() =~= done);
    }
    out
}

fn parse_spcr(ram: &Ram, addr: u64, info: AcpiInfo) -> (r: AcpiInfo)
    requires
        ram.wf(),
        addr <= MAX_TABLE_ADDR,
    ensures
        r == with_spcr(info, *ram, addr as int),
{
    let mut out: AcpiInfo = info;
    if ram.contains(addr + 40, 12) && ram.read8(addr + 40) == 0 {
        let uart: u64 = ram.read64(addr + 44);
        if uart != 0 {
            out.uart_base = uart;
        }
    }
    out
}

fn parse_mcfg(t: &[u8], info: AcpiInfo) -> (r: AcpiInfo)
    requires
        t@.len() <= MAX_TABLE_LEN,
    ensures
        r == with_mcfg(info, t@),
{
    let mut out: AcpiInfo = info;
    let mut off: usize = 44;
    let ghost mut k: int = 0;
    while off + 16 <= t.len()
        invariant
            t@.len() <= MAX_TABLE_LEN,
            off == 44 + 16 * k,
            0 <= k,
            off <= t@.len() + 44,
            out == info,
            ecam_from(t@, 0) == ecam_from(t@, k),
        decreases t.len() + 44 - off,
    {
        let base: u64 = crate::bytes::read_le64(t, off);
        let seg: u16 = crate::bytes::read_le16(t, off + 8);
        if seg == 0 && base != 0 {
            out.ecam_base = base;
            return out;
        }
        off = off + 16;
        proof {
            k = k + 1;
        }
    }
    out
}

fn parse_entry(ram: &Ram, addr: u64, info: AcpiInfo) -> (r: AcpiInfo)
    requires
        ram.wf(),
    ensures
        r == with_table(info, *ram, addr as int),
{
    if addr == 0 {
        return info;
    }
    match table(ram, addr) {
        Some(t) => {
            if has_signature(t, "MADT") {
                parse_madt(t, info)
            } else if has_signature(t, "SPCR") {
                parse_spcr(ram, addr, info)
            } else if has_signature(t, "MCFG") {
                parse_mcfg(t, info)
            } else {
                info
            }
        },
        None => info,
    }
}

fn parse_xsdt(ram: &Ram, xsdt: u64) -> (r: AcpiInfo)
    requires
        ram.wf(),
    ensures
        r == described(*ram, xsdt as int),
{
    let mut info: AcpiInfo = AcpiInfo {
        gic_dist_base: 0,
        gic_redist_base: 0,
        its_base: 0,
        uart_base: 0,
        ecam_base: 0,
    };
    let x = match table(ram, xsdt) {
        Some(x) => x,
        None => {
            return info;
        },
    };
    if !has_signature(x, "XSDT") {
        return info;
    }
    let n: usize = (x.len() - 36) / 8;
    let mut i: usize = 0;
    while i < n
        invariant
            ram.wf(),
            i <= n,
            n == entry_count(x@),
            36 <= x@.len() <= MAX_TABLE_LEN,
            info == with_entries(*ram, x@, i as int),
        decreases n - i,
    {
        let entry: u64 = crate::bytes::read_le64(x, 36 + 8 * i);
        info = parse_entry(ram, entry, info);
        i = i + 1;
    }
    info
}

/// The platform topology behind the RSDP at `rsdp`.  `None` when there is no valid
/// RSDP, or when the tables describe no distributor or no console.
pub fn probe(ram: &Ram, rsdp: u64) -> (r: Option<AcpiInfo>)
    requires
        ram.wf(),
    ensures
        match (xsdt_of(*ram, rsdp as int), r) {
            (Some(x), Some(info)) => info == described(*ram, x) && complete(info),
            (Some(x), None) => !complete(described(*ram, x)),
            (None, _) => r is None,
        },
{
    let xsdt: u64 = match rsdp_xsdt(ram, rsdp) {
        Some(x) => x,
        None => {
            return None;
        },
    };
    let info: AcpiInfo = parse_xsdt(ram, xsdt);
    if info.gic_dist_base == 0 || info.uart_base == 0 {
        None
    } else {
        Some(info)
    }
}

/// A table that one byte was changed in is not believed.
pub proof fn law_checksum_catches_one_byte(t: Seq<u8>, i: int, b: u8)
    requires
        byte_sum(t) % 256 == 0,
        0 <= i < t.len(),
        b != t[i],
    ensures
        byte_sum(t.update(i, b)) % 256 != 0,
{
    lemma_sum_update(t, i, b);
}

proof fn lemma_sum_update(t: Seq<u8>, i: int, b: u8)
    requires
        0 <= i < t.len(),
    ensures
        byte_sum(t.update(i, b)) == byte_sum(t) - t[i] + b,
    decreases t.len(),
{
    let u = t.update(i, b);
    if i == t.len() - 1 {
        assert(u.drop_last() =~= t.drop_last());
    } else {
        assert(u.drop_last() =~= t.drop_last().update(i, b));
        lemma_sum_update(t.drop_last(), i, b);
    }
}

/// The sum of bytes is that of its parts, and that of one byte is the byte.
pub proof fn law_byte_sum(s: Seq<u8>, b: u8)
    ensures
        byte_sum(Seq::empty()) == 0,
        byte_sum(s + seq![b]) == byte_sum(s) + b,
{
    assert((s + seq![b]).drop_last() =~= s);
}

/// A table is as long as its second word says, at least its header of 36 bytes and at most 16
/// MiB; it lies in memory at a multiple of four, and its bytes sum up to a multiple of 256.
pub proof fn law_table_is_checked(ram: Ram, addr: int, len: int)
    requires
        ram.wf(),
        addr >= 0,
        len == le32(ram@, addr - ram.start() + 4),
    ensures
        table_at(ram, addr) is Some <==> addr % 4 == 0 && addr <= 0x8000_0000_0000 && ram.start()
            <= addr && addr + 36 <= ram.start() + ram@.len() && 36 <= len <= 16 * 1024 * 1024
            && addr + len <= ram.start() + ram@.len() && byte_sum(
            ram@.subrange(addr - ram.start(), addr - ram.start() + len),
        ) % 256 == 0,
        table_at(ram, addr) matches Some(t) ==> t == ram@.subrange(
            addr - ram.start(),
            addr - ram.start() + len,
        ),
{
}

/// The root pointer leads to the list of tables where it has its signature, revision 2 or
/// later, and a sum of its first 20 bytes that is a multiple of 256.
pub proof fn law_root_pointer(ram: Ram, rsdp: int)
    requires
        ram.wf(),
        rsdp > 0,
        rsdp % 8 == 0,
        ram.start() <= rsdp,
        rsdp + 32 <= ram.start() + ram@.len(),
    ensures
        ({
            let at = rsdp - ram.start();
            let good = ram@.subrange(at, at + 8) == encode_utf8("RSD PTR "@) && ram@[at + 15] >= 2
                && byte_sum(ram@.subrange(at, at + 20)) % 256 == 0 && le64(ram@, at + 24) != 0;
            &&& good ==> xsdt_of(ram, rsdp) == Some(le64(ram@, at + 24))
            &&& !good ==> xsdt_of(ram, rsdp) is None
        }),
        xsdt_of(ram, 0) is None,
{
    assert(ram.word(rsdp + 24) == le64(ram@, rsdp - ram.start() + 24));
    assert(ram.byte(rsdp + 15) == ram@[rsdp - ram.start() + 15]);
}

/// The records of the interrupt table follow each other by their lengths, from byte 44 on, as
/// long as they lie in it.
pub proof fn law_records_follow(t: Seq<u8>, off: int)
    requires
        0 <= off,
    ensures
        ({
            let s = subtables(t, off);
            let n = t[off + 1] as int;
            let there = off + 2 <= t.len() && n >= 2 && off + n <= t.len();
            &&& !there ==> s.len() == 0
            &&& there ==> s.len() == subtables(t, off + n).len() + 1 && s[0] == t.subrange(
                off,
                off + n,
            ) && s.skip(1) == subtables(t, off + n)
        }),
{
    let n = t[off + 1] as int;
    if off + 2 <= t.len() && n >= 2 && off + n <= t.len() {
        assert(subtables(t, off).skip(1) =~= subtables(t, off + n));
    }
}

/// A record of type 3 tells the distributor, one of type 4 the redistributors, one of type 11
/// the translation service: the last of the first kind counts, the first of the others.
pub proof fn law_records_by_type(info: AcpiInfo, s: Seq<u8>)
    ensures
        ({
            let r = with_subtable(info, s);
            &&& s[0] == 3 && s.len() >= 24 ==> r == (AcpiInfo {
                gic_dist_base: le64(s, 8) as u64,
                ..info
            })
            &&& s[0] == 4 && s.len() >= 16 && info.gic_redist_base == 0 ==> r == (AcpiInfo {
                gic_redist_base: le64(s, 4) as u64,
                ..info
            })
            &&& s[0] == 4 && info.gic_redist_base != 0 ==> r == info
            &&& s[0] == 11 && s.len() >= 16 && info.its_base == 0 ==> r == (AcpiInfo {
                its_base: le64(s, 8) as u64,
                ..info
            })
            &&& s[0] == 11 && info.its_base != 0 ==> r == info
            &&& s.len() < 16 || (s[0] != 3 && s[0] != 4 && s[0] != 11) ==> r == info
            &&& s[0] == 3 && s.len() < 24 ==> r == info
        }),
{
}

/// All records of the interrupt table are gone through in order.
pub proof fn law_all_records_count(info: AcpiInfo, t: Seq<u8>, n: int)
    requires
        0 <= n < subtables(t, 44).len(),
    ensures
        with_subtables(info, subtables(t, 44), 0) == info,
        with_subtables(info, subtables(t, 44), n + 1) == with_subtable(
            with_subtables(info, subtables(t, 44), n),
            subtables(t, 44)[n],
        ),
        with_madt(info, t) == with_subtables(
            info,
            subtables(t, 44),
            subtables(t, 44).len() as int,
        ),
{
}

/// The console table names the UART where its register is in memory and not at 0.
pub proof fn law_console_table(info: AcpiInfo, ram: Ram, addr: int)
    requires
        ram.wf(),
        ram.start() <= addr,
        addr + 52 <= ram.start() + ram@.len(),
    ensures
        ({
            let at = addr - ram.start();
            let r = with_spcr(info, ram, addr);
            &&& ram@[at + 40] == 0 && le64(ram@, at + 44) != 0 ==> r == (AcpiInfo {
                uart_base: le64(ram@, at + 44) as u64,
                ..info
            })
            &&& ram@[at + 40] != 0 || le64(ram@, at + 44) == 0 ==> r == info
        }),
{
    assert(ram.word(addr + 44) == le64(ram@, addr - ram.start() + 44));
    assert(ram.byte(addr + 40) == ram@[addr - ram.start() + 40]);
}

/// Of the entries of 16 bytes from byte 44 on, the first with segment 0 and a base counts.
pub proof fn law_first_ecam_counts(info: AcpiInfo, t: Seq<u8>, j: int, k: int)
    requires
        0 <= j <= k,
        44 + 16 * k + 16 <= t.len(),
        le16(t, 44 + 16 * k + 8) == 0,
        le64(t, 44 + 16 * k) != 0,
        forall|i: int|
            j <= i < k ==> le16(t, 44 + 16 * i + 8) != 0 || #[trigger] le64(t, 44 + 16 * i) == 0,
    ensures
        ecam_from(t, j) == Some(le64(t, 44 + 16 * k) as u64),
        j == 0 ==> with_mcfg(info, t) == (AcpiInfo {
            ecam_base: le64(t, 44 + 16 * k) as u64,
            ..info
        }),
    decreases k - j,
{
    if j < k {
        assert(le16(t, 44 + 16 * j + 8) != 0 || le64(t, 44 + 16 * j) == 0);
        law_first_ecam_counts(info, t, j + 1, k);
    }
}

/// A table counts by its signature; one that does not pass its check, and one of another kind,
/// changes nothing.
pub proof fn law_tables_by_signature(info: AcpiInfo, ram: Ram, addr: int)
    ensures
        table_at(ram, addr) is None || addr == 0 ==> with_table(info, ram, addr) == info,
        table_at(ram, addr) matches Some(t) ==> addr != 0 ==> {
            let sig = t.take(4);
            let r = with_table(info, ram, addr);
            &&& sig == encode_utf8("MADT"@) ==> r == with_madt(info, t)
            &&& sig == encode_utf8("SPCR"@) && sig != encode_utf8("MADT"@) ==> r == with_spcr(
                info,
                ram,
                addr,
            )
            &&& sig == encode_utf8("MCFG"@) && sig != encode_utf8("MADT"@) && sig != encode_utf8(
                "SPCR"@,
            ) ==> r == with_mcfg(info, t)
            &&& sig != encode_utf8("MADT"@) && sig != encode_utf8("SPCR"@) && sig != encode_utf8(
                "MCFG"@,
            ) ==> r == info
        },
{
}

/// The list of tables holds an address of eight bytes each from byte 36 on; all are gone through
/// in order, from an empty description.  The description is complete with a distributor and a
/// UART.
pub proof fn law_list_of_tables(ram: Ram, xsdt: int, x: Seq<u8>, n: int)
    requires
        table_at(ram, xsdt) == Some(x),
        0 <= n,
    ensures
        x.take(4) == encode_utf8("XSDT"@) ==> described(ram, xsdt) == with_entries(
            ram,
            x,
            (x.len() - 36) / 8,
        ),
        x.take(4) != encode_utf8("XSDT"@) ==> described(ram, xsdt) == with_entries(ram, x, 0),
        with_entries(ram, x, n + 1) == with_table(
            with_entries(ram, x, n),
            ram,
            le64(x, 36 + 8 * n),
        ),
        ({
            let e = with_entries(ram, x, 0);
            e.gic_dist_base == 0 && e.gic_redist_base == 0 && e.its_base == 0 && e.uart_base == 0
                && e.ecam_base == 0
        }),
        complete(described(ram, xsdt)) <==> described(ram, xsdt).gic_dist_base != 0 && described(
            ram,
            xsdt,
        ).uart_base != 0,
{
}

} // verus!
