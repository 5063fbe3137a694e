//! Image loader: flat binaries and ELF64 little-endian AArch64 images.
//!
//! A flat binary is copied to the base of the RAM region and entered at its first byte.
//! Of an ELF image, which links at address 0, the LOAD segments are copied and its
//! absolute pointers are moved by the load base.

use vstd::prelude::*;
use crate::bytes::{le16, le32, le64, le64_bytes, put, read_le16, read_le32, read_le64, zeros};
use crate::hypervisor::HvError;
use crate::mem::ram::Ram;
use crate::mem::PhysAddr;

verus! {

pub const ELFCLASS64: u8 = 2;

pub const ELFDATA2LSB: u8 = 1;

pub const EM_AARCH64: u16 = 183;

pub const PT_LOAD: u32 = 1;

pub const SHT_RELA: u32 = 4;

/// The section is in memory.
pub const SHF_ALLOC: u64 = 0x2;

/// The section is code.
pub const SHF_EXECINSTR: u64 = 0x4;

/// The word holds an absolute link-time address.
pub const R_AARCH64_ABS64: u64 = 257;

/// The word holds a link-time address to be moved by the load base.
pub const R_AARCH64_RELATIVE: u64 = 1027;

/// Bytes of a program header.
pub const PHDR_SIZE: u64 = 56;

/// Bytes of a section header.
pub const SHDR_SIZE: u64 = 64;

/// Bytes of a relocation record.
pub const RELA_SIZE: u64 = 24;

/// A loaded image.
#[derive(Debug, Clone, Copy, PartialEq, Eq, Structural)]
pub struct LoadedImage {
    pub entry: PhysAddr,
    /// End of the image, rounded up to a page: an address for a flat binary, the size of
    /// the LOAD footprint for an ELF image.
    pub image_end: PhysAddr,
}

/// The image has an ELF header.
pub open spec fn is_elf(image: Seq<u8>) -> bool {
    image.len() >= 64 && image[0] == 0x7F && image[1] == 0x45 && image[2] == 0x4C && image[3]
        == 0x46
}

/// The ELF header is that of a 64-bit little-endian AArch64 image.
pub open spec fn is_supported(image: Seq<u8>) -> bool {
    image[4] == ELFCLASS64 && image[5] == ELFDATA2LSB && le16(image, 18) == EM_AARCH64
}

/// Number of program headers.
pub open spec fn phnum(image: Seq<u8>) -> int {
    le16(image, 56)
}

/// Offset of program header `i`.
pub open spec fn phdr(image: Seq<u8>, i: int) -> int {
    le64(image, 32) + i * le16(image, 54)
}

/// Program header `i` lies in the image.
pub open spec fn phdr_ok(image: Seq<u8>, i: int) -> bool {
    phdr(image, i) + le16(image, 54) <= image.len() && phdr(image, i) + PHDR_SIZE <= image.len()
}

/// Program header `i` is a LOAD segment.
pub open spec fn is_load(image: Seq<u8>, i: int) -> bool {
    le32(image, phdr(image, i)) == PT_LOAD
}

pub open spec fn p_offset(image: Seq<u8>, i: int) -> int {
    le64(image, phdr(image, i) + 8)
}

pub open spec fn p_vaddr(image: Seq<u8>, i: int) -> int {
    le64(image, phdr(image, i) + 16)
}

pub open spec fn p_filesz(image: Seq<u8>, i: int) -> int {
    le64(image, phdr(image, i) + 32)
}

pub open spec fn p_memsz(image: Seq<u8>, i: int) -> int {
    le64(image, phdr(image, i) + 40)
}

/// The bytes of LOAD segment `i` lie in the image, and the segment lies in memory.
pub open spec fn segment_ok(image: Seq<u8>, ram: Ram, base: int, i: int) -> bool {
    is_load(image, i) ==> {
        &&& p_filesz(image, i) > 0 ==> p_offset(image, i) + p_filesz(image, i) <= image.len()
        &&& p_filesz(image, i) > 0 ==> ram.has(base + p_vaddr(image, i), p_filesz(image, i))
        &&& p_memsz(image, i) > p_filesz(image, i) ==> ram.has(
            base + p_vaddr(image, i),
            p_memsz(image, i),
        )
    }
}

/// Highest end of a LOAD segment among the first `n` program headers.
pub open spec fn footprint(image: Seq<u8>, n: int) -> int
    decreases n,
{
    if n <= 0 {
        0
    } else {
        let f = footprint(image, n - 1);
        let end = p_vaddr(image, n - 1) + p_memsz(image, n - 1);
        if is_load(image, n - 1) && end > f {
            end
        } else {
            f
        }
    }
}

/// Memory after LOAD segment `i` was copied to `at`: its file bytes, then zeros up to its
/// memory size.
pub open spec fn with_segment(mem: Seq<u8>, at: int, image: Seq<u8>, i: int) -> Seq<u8> {
    if is_load(image, i) {
        let v = at + p_vaddr(image, i);
        let f = p_filesz(image, i);
        let copied = if f > 0 {
            put(mem, v, image.subrange(p_offset(image, i), p_offset(image, i) + f))
        } else {
            mem
        };
        if p_memsz(image, i) > f {
            put(copied, v + f, zeros(p_memsz(image, i) - f))
        } else {
            copied
        }
    } else {
        mem
    }
}

/// Memory after the first `n` segments were copied.
pub open spec fn with_segments(mem: Seq<u8>, at: int, image: Seq<u8>, n: int) -> Seq<u8>
    decreases n,
{
    if n <= 0 {
        mem
    } else {
        with_segment(with_segments(mem, at, image, n - 1), at, image, n - 1)
    }
}

/// Number of section headers that may hold relocations; none where the image has no
/// section names.
pub open spec fn shnum(image: Seq<u8>) -> int {
    let names = shdr(image, le16(image, 62));
    if le64(image, 40) == 0 || le16(image, 62) == 0 || le16(image, 58) < SHDR_SIZE || names
        + SHDR_SIZE > image.len() || le64(image, names + 24) >= image.len() {
        0
    } else {
        le16(image, 60)
    }
}

/// Offset of section header `i`.
pub open spec fn shdr(image: Seq<u8>, i: int) -> int {
    le64(image, 40) + i * le16(image, 58)
}

/// Section `i` is an allocated data section inside the footprint.
pub open spec fn is_data(image: Seq<u8>, i: int, fp: int) -> bool {
    let t = shdr(image, i);
    &&& t + SHDR_SIZE <= image.len()
    &&& le64(image, t + 8) as u64 & SHF_ALLOC != 0
    &&& le64(image, t + 8) as u64 & SHF_EXECINSTR == 0
    &&& le64(image, t + 16) < fp
}

/// Number of relocation records of section `i` that are applied.
pub open spec fn rela_count(image: Seq<u8>, i: int, fp: int) -> int {
    let s = shdr(image, i);
    if s + SHDR_SIZE <= image.len() && le32(image, s + 4) == SHT_RELA && le32(image, s + 44)
        < le16(image, 60) && is_data(image, le32(image, s + 44), fp) && le64(image, s + 56) > 0
        && le64(image, s + 24) + le64(image, s + 32) <= image.len() {
        le64(image, s + 32) / le64(image, s + 56)
    } else {
        0
    }
}

/// Memory after the relocation record at offset `r` was applied: an absolute word in
/// memory is moved by the load base.
pub open spec fn with_rela(mem: Seq<u8>, at: int, base: int, image: Seq<u8>, r: int) -> Seq<u8> {
    let kind = le64(image, r + 8) % 0x1_0000_0000;
    let w = at + le64(image, r);
    if r + RELA_SIZE <= image.len() && (kind == R_AARCH64_ABS64 || kind == R_AARCH64_RELATIVE)
        && 0 <= w && w + 8 <= mem.len() {
        put(mem, w, le64_bytes(((le64(mem, w) + base) % 0x1_0000_0000_0000_0000) as u64))
    } else {
        mem
    }
}

/// Offset of relocation record `k` of section `i`.
pub open spec fn rela(image: Seq<u8>, i: int, k: int) -> int {
    le64(image, shdr(image, i) + 24) + k * le64(image, shdr(image, i) + 56)
}

/// Memory after the first `k` relocation records of section `i`.
pub open spec fn with_relas(
    mem: Seq<u8>,
    at: int,
    base: int,
    image: Seq<u8>,
    i: int,
    k: int,
) -> Seq<u8>
    decreases k,
{
    if k <= 0 {
        mem
    } else {
        with_rela(
            with_relas(mem, at, base, image, i, k - 1),
            at,
            base,
            image,
            rela(image, i, k - 1),
        )
    }
}

/// Memory after the relocations of the first `n` sections.
pub open spec fn relocated(
    mem: Seq<u8>,
    at: int,
    base: int,
    image: Seq<u8>,
    fp: int,
    n: int,
) -> Seq<u8>
    decreases n,
{
    if n <= 0 {
        mem
    } else {
        with_relas(
            relocated(mem, at, base, image, fp, n - 1),
            at,
            base,
            image,
            n - 1,
            rela_count(image, n - 1, fp),
        )
    }
}

/// The program headers lie in the image.
pub open spec fn headers_ok(image: Seq<u8>) -> bool {
    forall|i: int| 0 <= i < phnum(image) ==> #[trigger] phdr_ok(image, i)
}

/// The LOAD segments can be copied.
pub open spec fn segments_ok(image: Seq<u8>, ram: Ram, base: int) -> bool {
    forall|i: int| 0 <= i < phnum(image) ==> #[trigger] segment_ok(image, ram, base, i)
}

/// The image, loaded to `base` in a region of `size` bytes, is refused with the error.
pub open spec fn load_error(image: Seq<u8>, ram: Ram, base: int, size: int) -> Option<HvError> {
    if !is_elf(image) {
        if image.len() > size {
            Some(HvError::NoMemory)
        } else if !ram.has(base, image.len() as int) {
            Some(HvError::NotSupported)
        } else {
            None
        }
    } else if !is_supported(image) {
        Some(HvError::NotSupported)
    } else if !headers_ok(image) {
        Some(HvError::NotSupported)
    } else if footprint(image, phnum(image)) > size {
        Some(HvError::NoMemory)
    } else if !segments_ok(image, ram, base) {
        Some(HvError::NotSupported)
    } else {
        None
    }
}

/// Memory `mem` after the image was loaded to `base`, which is at offset `at`.
pub open spec fn loaded(image: Seq<u8>, mem: Seq<u8>, at: int, base: int) -> Seq<u8> {
    if is_elf(image) {
        relocated(
            with_segments(mem, at, image, phnum(image)),
            at,
            base,
            image,
            footprint(image, phnum(image)),
            shnum(image),
        )
    } else {
        put(mem, at, image)
    }
}

/// The least multiple of 4096 that is not below `n`.
pub open spec fn page_up(n: int) -> int {
    (n + 0xFFF) / 4096 * 4096
}

/// What a load returns.
pub open spec fn loaded_image(image: Seq<u8>, base: int) -> LoadedImage {
    if is_elf(image) {
        LoadedImage {
            entry: ((base + le64(image, 24)) % 0x1_0000_0000_0000_0000) as u64,
            image_end: page_up(footprint(image, phnum(image))) as u64,
        }
    } else {
        LoadedImage { entry: base as u64, image_end: page_up(base + image.len()) as u64 }
    }
}

fn within(image: &[u8], off: u64, n: u64) -> (r: bool)
    ensures
        r == (off + n <= image@.len()),
{
    let len: u64 = image.len() as u64;
    off <= len && n <= len - off
}

fn u16_at(image: &[u8], off: u64) -> (v: u64)
    requires
        off + 2 <= image@.len(),
    ensures
        v == le16(image@, off as int),
{
    assert(image.len() == image@.len());
    read_le16(image, off as usize) as u64
}

fn u32_at(image: &[u8], off: u64) -> (v: u64)
    requires
        off + 4 <= image@.len(),
    ensures
        v == le32(image@, off as int),
        v <= 0xFFFF_FFFF,
{
    assert(image.len() == image@.len());
    read_le32(image, off as usize) as u64
}

fn u64_at(image: &[u8], off: u64) -> (v: u64)
    requires
        off + 8 <= image@.len(),
    ensures
        v == le64(image@, off as int),
{
    assert(image.len() == image@.len());
    read_le64(image, off as usize)
}

/// Offset of entry `i` of a table, if an entry of `n` bytes there lies in the image.
fn entry_at(image: &[u8], start: u64, i: u64, stride: u64, n: u64) -> (r: Option<u64>)
    requires
        i <= 0xFFFF_FFFF,
        stride <= 0xFFFF_FFFF,
    ensures
        match r {
            Some(off) => off == start + i * stride && off + n <= image@.len() && off + n
                <= u64::MAX,
            None => start + i * stride + n > image@.len(),
        },
{
    assert(i * stride <= 0xFFFF_FFFF * 0xFFFF_FFFF) by (nonlinear_arith)
        requires
            0 <= i <= 0xFFFF_FFFF,
            0 <= stride <= 0xFFFF_FFFF,
    ;
    let d: u64 = i * stride;
    let len: u64 = image.len() as u64;
    if start > len || d > len - start || !within(image, start + d, n) {
        None
    } else {
        Some(start + d)
    }
}

/// Check the program headers.  Returns the footprint.
fn check_headers(image: &[u8], size: u64) -> (r: Result<u64, HvError>)
    requires
        is_elf(image@),
    ensures
        match r {
            Ok(fp) => headers_ok(image@) && fp == footprint(image@, phnum(image@)) && fp <= size,
            Err(e) => if !headers_ok(image@) {
                e == HvError::NotSupported
            } else {
                e == HvError::NoMemory && footprint(image@, phnum(image@)) > size
            },
        },
{
    let phoff: u64 = u64_at(image, 32);
    let phentsize: u64 = u16_at(image, 54);
    let n: u64 = u16_at(image, 56);
    let mut fp: u64 = 0;
    // An end beyond the address space does not fit any region.
    let mut over: bool = false;
    let mut i: u64 = 0;
    while i < n
        invariant
            is_elf(image@),
            phoff == le64(image@, 32),
            phentsize == le16(image@, 54),
            n == phnum(image@),
            i <= n <= 0xFFFF,
            phentsize <= 0xFFFF,
            over == (footprint(image@, i as int) > u64::MAX),
            !over ==> fp == footprint(image@, i as int),
            forall|k: int| 0 <= k < i ==> #[trigger] phdr_ok(image@, k),
        decreases n - i,
    {
        let need: u64 = if phentsize > PHDR_SIZE {
            phentsize
        } else {
            PHDR_SIZE
        };
        let off: u64 = match entry_at(image, phoff, i, phentsize, need) {
            Some(off) => off,
            None => {
                assert(!phdr_ok(image@, i as int));
                return Err(HvError::NotSupported);
            },
        };
        assert(off == phdr(image@, i as int));
        assert(phdr_ok(image@, i as int));
        if u32_at(image, off) == PT_LOAD as u64 {
            let vaddr: u64 = u64_at(image, off + 16);
            let memsz: u64 = u64_at(image, off + 40);
            if memsz > u64::MAX - vaddr {
                over = true;
            } else if !over && vaddr + memsz > fp {
                fp = vaddr + memsz;
            }
        }
        i = i + 1;
    }
    if over || fp > size {
        return Err(HvError::NoMemory);
    }
    Ok(fp)
}

/// Check that the LOAD segments can be copied.
fn check_segments(image: &[u8], ram: &Ram, base: u64) -> (r: bool)
    requires
        is_elf(image@),
        headers_ok(image@),
        ram.wf(),
    ensures
        r == segments_ok(image@, *ram, base as int),
{
    let phoff: u64 = u64_at(image, 32);
    let phentsize: u64 = u16_at(image, 54);
    let n: u64 = u16_at(image, 56);
    let mut i: u64 = 0;
    while i < n
        invariant
            is_elf(image@),
            headers_ok(image@),
            ram.wf(),
            phoff == le64(image@, 32),
            phentsize == le16(image@, 54),
            n == phnum(image@),
            i <= n <= 0xFFFF,
            phentsize <= 0xFFFF,
            forall|k: int| 0 <= k < i ==> #[trigger] segment_ok(image@, *ram, base as int, k),
        decreases n - i,
    {
        assert(phdr_ok(image@, i as int));
        let off: u64 = match entry_at(image, phoff, i, phentsize, PHDR_SIZE) {
            Some(off) => off,
            None => {
                assert(false);
                return false;
            },
        };
        assert(off == phdr(image@, i as int));
        if u32_at(image, off) == PT_LOAD as u64 {
            let p_off: u64 = u64_at(image, off + 8);
            let vaddr: u64 = u64_at(image, off + 16);
            let filesz: u64 = u64_at(image, off + 32);
            let memsz: u64 = u64_at(image, off + 40);
            if filesz > 0 && (!within(image, p_off, filesz) || vaddr > u64::MAX - base
                || !ram.contains(base + vaddr, filesz)) {
                assert(!segment_ok(image@, *ram, base as int, i as int));
                return false;
            }
            if memsz > filesz && (vaddr > u64::MAX - base || !ram.contains(base + vaddr, memsz)) {
                assert(!segment_ok(image@, *ram, base as int, i as int));
                return false;
            }
        }
        assert(segment_ok(image@, *ram, base as int, i as int));
        i = i + 1;
    }
    true
}

/// Copy the LOAD segments.
fn copy_segments(image: &[u8], ram: &mut Ram, base: u64)
    requires
        is_elf(image@),
        old(ram).wf(),
        headers_ok(image@),
        segments_ok(image@, *old(ram), base as int),
    ensures
        final(ram).wf(),
        final(ram).start() == old(ram).start(),
        final(ram)@ == with_segments(
            old(ram)@,
            base - old(ram).start(),
            image@,
            phnum(image@),
        ),
        final(ram)@.len() == old(ram)@.len(),
{
    let ghost pre = *ram;
    let phoff: u64 = u64_at(image, 32);
    let phentsize: u64 = u16_at(image, 54);
    let n: u64 = u16_at(image, 56);
    let mut i: u64 = 0;
    while i < n
        invariant
            is_elf(image@),
            pre.wf(),
            ram.wf(),
            ram.start() == pre.start(),
            ram@.len() == pre@.len(),
            headers_ok(image@),
            segments_ok(image@, pre, base as int),
            phoff == le64(image@, 32),
            phentsize == le16(image@, 54),
            n == phnum(image@),
            i <= n <= 0xFFFF,
            phentsize <= 0xFFFF,
            ram@ == with_segments(pre@, base - pre.start(), image@, i as int),
        decreases n - i,
    {
        assert(phdr_ok(image@, i as int) && segment_ok(image@, pre, base as int, i as int));
        let off: u64 = match entry_at(image, phoff, i, phentsize, PHDR_SIZE) {
            Some(off) => off,
            None => {
                assert(false);
                return ;
            },
        };
        assert(off == phdr(image@, i as int));
        if u32_at(image, off) == PT_LOAD as u64 {
            let p_off: u64 = u64_at(image, off + 8);
            let vaddr: u64 = u64_at(image, off + 16);
            let filesz: u64 = u64_at(image, off + 32);
            let memsz: u64 = u64_at(image, off + 40);
            if filesz > 0 {
                assert(image.len() == image@.len());
                let data = vstd::slice::slice_subrange(
                    image,
                    p_off as usize,
                    p_off as usize + filesz as usize,
                );
                ram.write(base + vaddr, data);
            }
            if memsz > filesz {
                ram.zero(base + vaddr + filesz, memsz - filesz);
            }
        }
        i = i + 1;
    }
}

/// Apply the relocation record at offset `r`.
fn apply_record(image: &[u8], ram: &mut Ram, base: u64, r: u64)
    requires
        old(ram).wf(),
    ensures
        final(ram).wf(),
        final(ram).start() == old(ram).start(),
        final(ram)@.len() == old(ram)@.len(),
        final(ram)@ == with_rela(
            old(ram)@,
            base - old(ram).start(),
            base as int,
            image@,
            r as int,
        ),
{
    let len: u64 = image.len() as u64;
    if !within(image, r, RELA_SIZE) {
        return ;
    }
    let target: u64 = u64_at(image, r);
    let kind: u64 = u64_at(image, r + 8) % 0x1_0000_0000;
    if kind != R_AARCH64_ABS64 && kind != R_AARCH64_RELATIVE {
        return ;
    }
    if target > u64::MAX - base || !ram.contains(base + target, 8) {
        return ;
    }
    let val: u64 = ram.read64(base + target);
    let moved: u64 = val.wrapping_add(base);
    assert(moved == (val + base) % 0x1_0000_0000_0000_0000);
    ram.write64(base + target, moved);
}

/// Apply the relocation records of section header `s`.
fn apply_section(image: &[u8], ram: &mut Ram, base: u64, s: u64, i: u64, count: u64)
    requires
        is_elf(image@),
        old(ram).wf(),
        s == shdr(image@, i as int),
        s + SHDR_SIZE <= image@.len(),
        le64(image@, s + 56) > 0,
        le64(image@, s + 24) + le64(image@, s + 32) <= image@.len(),
        count == le64(image@, s + 32) / le64(image@, s + 56),
    ensures
        final(ram).wf(),
        final(ram).start() == old(ram).start(),
        final(ram)@.len() == old(ram)@.len(),
        final(ram)@ == with_relas(
            old(ram)@,
            base - old(ram).start(),
            base as int,
            image@,
            i as int,
            count as int,
        ),
{
    let ghost pre = *ram;
    let len: u64 = image.len() as u64;
    let rel_off: u64 = u64_at(image, s + 24);
    let rel_size: u64 = u64_at(image, s + 32);
    let entsize: u64 = u64_at(image, s + 56);
    let mut r: u64 = rel_off;
    let mut k: u64 = 0;
    while k < count
        invariant
            is_elf(image@),
            pre.wf(),
            ram.wf(),
            ram.start() == pre.start(),
            ram@.len() == pre@.len(),
            s == shdr(image@, i as int),
            s + SHDR_SIZE <= image@.len(),
            len == image@.len(),
            rel_off == le64(image@, s + 24),
            rel_size == le64(image@, s + 32),
            entsize == le64(image@, s + 56),
            entsize > 0,
            rel_off + rel_size <= image@.len(),
            count == rel_size as int / entsize as int,
            k <= count,
            r == rel_off + k * entsize,
            r <= rel_off + rel_size,
            ram@ == with_relas(
                pre@,
                base - pre.start(),
                base as int,
                image@,
                i as int,
                k as int,
            ),
        decreases count - k,
    {
        proof {
            assert((k + 1) * entsize <= rel_size) by (nonlinear_arith)
                requires
                    k + 1 <= rel_size as int / entsize as int,
                    entsize > 0,
            ;
            assert((k + 1) * entsize == k * entsize + entsize) by (nonlinear_arith);
        }
        assert(r == rela(image@, i as int, k as int));
        apply_record(image, ram, base, r);
        r = r + entsize;
        k = k + 1;
    }
}

/// Move the absolute words that the relocation records name by the load base.
fn apply_relocations(image: &[u8], ram: &mut Ram, base: u64, fp: u64)
    requires
        is_elf(image@),
        old(ram).wf(),
    ensures
        final(ram).wf(),
        final(ram).start() == old(ram).start(),
        final(ram)@.len() == old(ram)@.len(),
        final(ram)@ == relocated(
            old(ram)@,
            base - old(ram).start(),
            base as int,
            image@,
            fp as int,
            shnum(image@),
        ),
{
    let ghost pre = *ram;
    let shoff: u64 = u64_at(image, 40);
    let shentsize: u64 = u16_at(image, 58);
    let n: u64 = u16_at(image, 60);
    let names: u64 = u16_at(image, 62);
    if shoff == 0 || names == 0 || shentsize < SHDR_SIZE {
        return ;
    }
    match entry_at(image, shoff, names, shentsize, SHDR_SIZE) {
        Some(s) => {
            if u64_at(image, s + 24) >= image.len() as u64 {
                return ;
            }
        },
        None => {
            return ;
        },
    }
    let mut i: u64 = 0;
    while i < n
        invariant
            is_elf(image@),
            pre.wf(),
            ram.wf(),
            ram.start() == pre.start(),
            ram@.len() == pre@.len(),
            shoff == le64(image@, 40),
            shentsize == le16(image@, 58),
            shentsize <= 0xFFFF,
            n == le16(image@, 60),
            n <= 0xFFFF,
            i <= n,
            ram@ == relocated(
                pre@,
                base - pre.start(),
                base as int,
                image@,
                fp as int,
                i as int,
            ),
        decreases n - i,
    {
        if let Some(s) = entry_at(image, shoff, i, shentsize, SHDR_SIZE) {
            assert(s == shdr(image@, i as int));
            let info: u64 = u32_at(image, s + 44);
            if u32_at(image, s + 4) == SHT_RELA as u64 && info < n {
                if let Some(t) = entry_at(image, shoff, info, shentsize, SHDR_SIZE) {
                    assert(t == shdr(image@, info as int));
                    let flags: u64 = u64_at(image, t + 8);
                    let addr: u64 = u64_at(image, t + 16);
                    let data: bool = flags & SHF_ALLOC != 0 && flags & SHF_EXECINSTR == 0 && addr
                        < fp;
                    assert(data == is_data(image@, info as int, fp as int));
                    let entsize: u64 = u64_at(image, s + 56);
                    if data && entsize > 0 && within(
                        image,
                        u64_at(image, s + 24),
                        u64_at(image, s + 32),
                    ) {
                        let count: u64 = u64_at(image, s + 32) / entsize;
                        assert(count == rela_count(image@, i as int, fp as int));
                        apply_section(image, ram, base, s, i, count);
                    }
                }
            }
        }
        i = i + 1;
    }
}

/// Check that an ELF image can be loaded.  Returns its footprint.
fn check_elf64(image: &[u8], ram: &Ram, ram_base: PhysAddr, ram_size: u64) -> (r: Result<
    u64,
    HvError,
>)
    requires
        is_elf(image@),
        ram.wf(),
    ensures
        match r {
            Ok(fp) => {
                &&& load_error(image@, *ram, ram_base as int, ram_size as int) is None
                &&& fp == footprint(image@, phnum(image@))
                &&& fp <= ram_size
            },
            Err(e) => load_error(image@, *ram, ram_base as int, ram_size as int) == Some(e),
        },
{
    if image[4] != ELFCLASS64 || image[5] != ELFDATA2LSB || u16_at(image, 18) != EM_AARCH64 as u64 {
        return Err(HvError::NotSupported);
    }
    let fp: u64 = match check_headers(image, ram_size) {
        Ok(fp) => fp,
        Err(e) => {
            return Err(e);
        },
    };
    if !check_segments(image, ram, ram_base) {
        return Err(HvError::NotSupported);
    }
    Ok(fp)
}

/// What loading an image would return.
pub fn inspect(image: &[u8], ram: &Ram, ram_base: PhysAddr, ram_size: u64) -> (r: Result<
    LoadedImage,
    HvError,
>)
    requires
        ram.wf(),
        ram_base + ram_size + 0xFFF <= u64::MAX,
    ensures
        match load_error(image@, *ram, ram_base as int, ram_size as int) {
            Some(e) => r == Err::<LoadedImage, HvError>(e),
            None => r == Ok::<LoadedImage, HvError>(loaded_image(image@, ram_base as int)),
        },
{
    if image.len() >= 64 && image[0] == 0x7F && image[1] == 0x45 && image[2] == 0x4C && image[3]
        == 0x46 {
        match check_elf64(image, ram, ram_base, ram_size) {
            Ok(fp) => {
                let entry: u64 = ram_base.wrapping_add(u64_at(image, 24));
                Ok(LoadedImage { entry, image_end: (fp + 0xFFF) / 4096 * 4096 })
            },
            Err(e) => Err(e),
        }
    } else if image.len() as u64 > ram_size {
        Err(HvError::NoMemory)
    } else if !ram.contains(ram_base, image.len() as u64) {
        Err(HvError::NotSupported)
    } else {
        let image_end: u64 = (ram_base + image.len() as u64 + 0xFFF) / 4096 * 4096;
        Ok(LoadedImage { entry: ram_base, image_end })
    }
}

/// Load an ELF image.  Returns its entry and footprint.
fn load_elf64(image: &[u8], ram: &mut Ram, ram_base: PhysAddr, ram_size: u64) -> (r: Result<
    (PhysAddr, u64),
    HvError,
>)
    requires
        is_elf(image@),
        old(ram).wf(),
    ensures
        final(ram).wf(),
        final(ram).start() == old(ram).start(),
        final(ram)@.len() == old(ram)@.len(),
        match r {
            Ok((entry, fp)) => {
                &&& load_error(image@, *old(ram), ram_base as int, ram_size as int) is None
                &&& entry == (ram_base + le64(image@, 24)) % 0x1_0000_0000_0000_0000
                &&& fp == footprint(image@, phnum(image@))
                &&& fp <= ram_size
                &&& final(ram)@ == loaded(
                    image@,
                    old(ram)@,
                    ram_base - old(ram).start(),
                    ram_base as int,
                )
            },
            Err(e) => load_error(image@, *old(ram), ram_base as int, ram_size as int) == Some(e)
                && final(ram)@ == old(ram)@,
        },
{
    let fp: u64 = match check_elf64(image, ram, ram_base, ram_size) {
        Ok(fp) => fp,
        Err(e) => {
            return Err(e);
        },
    };
    let entry: u64 = ram_base.wrapping_add(u64_at(image, 24));
    copy_segments(image, ram, ram_base);
    apply_relocations(image, ram, ram_base, fp);
    Ok((entry, fp))
}

/// Load an image to `ram_base` in a region of `ram_size` bytes and return its entry.
pub fn load_flat(image: &[u8], ram: &mut Ram, ram_base: PhysAddr, ram_size: u64) -> (r: Result<
    PhysAddr,
    HvError,
>)
    requires
        old(ram).wf(),
        ram_base + ram_size + 0xFFF <= u64::MAX,
    ensures
        final(ram).wf(),
        final(ram).start() == old(ram).start(),
        match load_error(image@, *old(ram), ram_base as int, ram_size as int) {
            Some(e) => r == Err::<PhysAddr, HvError>(e) && final(ram)@ == old(ram)@,
            None => r == Ok::<PhysAddr, HvError>(loaded_image(image@, ram_base as int).entry)
                && final(ram)@ == loaded(
                    image@,
                    old(ram)@,
                    ram_base - old(ram).start(),
                    ram_base as int,
                ),
        },
        final(ram)@.len() == old(ram)@.len(),
{
    match load_flat_full(image, ram, ram_base, ram_size) {
        Ok(i) => Ok(i.entry),
        Err(e) => Err(e),
    }
}

/// Like [`load_flat`], and return the end of the image too.
pub fn load_flat_full(image: &[u8], ram: &mut Ram, ram_base: PhysAddr, ram_size: u64) -> (r: Result<
    LoadedImage,
    HvError,
>)
    requires
        old(ram).wf(),
        ram_base + ram_size + 0xFFF <= u64::MAX,
    ensures
        final(ram).wf(),
        final(ram).start() == old(ram).start(),
        match load_error(image@, *old(ram), ram_base as int, ram_size as int) {
            Some(e) => r == Err::<LoadedImage, HvError>(e) && final(ram)@ == old(ram)@,
            None => r == Ok::<LoadedImage, HvError>(loaded_image(image@, ram_base as int))
                && final(ram)@ == loaded(
                    image@,
                    old(ram)@,
                    ram_base - old(ram).start(),
                    ram_base as int,
                ),
        },
        final(ram)@.len() == old(ram)@.len(),
        r matches Ok(i) ==> i.image_end % 4096 == 0,
{
    if image.len() >= 64 && image[0] == 0x7F && image[1] == 0x45 && image[2] == 0x4C && image[3]
        == 0x46 {
        match load_elf64(image, ram, ram_base, ram_size) {
            Ok((entry, fp)) => Ok(LoadedImage { entry, image_end: (fp + 0xFFF) / 4096 * 4096 }),
            Err(e) => Err(e),
        }
    } else {
        if image.len() as u64 > ram_size {
            return Err(HvError::NoMemory);
        }
        if !ram.contains(ram_base, image.len() as u64) {
            return Err(HvError::NotSupported);
        }
        ram.write(ram_base, image);
        Ok(
            LoadedImage {
                entry: ram_base,
                image_end: (ram_base + image.len() as u64 + 0xFFF) / 4096 * 4096,
            },
        )
    }
}

/// Whether an image is refused depends on the bounds of the memory only.
pub(crate) proof fn lemma_same_error(image: Seq<u8>, a: Ram, b: Ram, base: int, size: int)
    requires
        a.start() == b.start(),
        a@.len() == b@.len(),
    ensures
        load_error(image, a, base, size) == load_error(image, b, base, size),
{
    assert forall|i: int| segment_ok(image, a, base, i) == #[trigger] segment_ok(
        image,
        b,
        base,
        i,
    ) by {}
    assert(segments_ok(image, a, base) ==> segments_ok(image, b, base));
    if segments_ok(image, b, base) {
        assert forall|i: int| 0 <= i < phnum(image) implies #[trigger] segment_ok(
            image,
            a,
            base,
            i,
        ) by {
            assert(segment_ok(image, b, base, i));
        }
    }
}

/// The LOAD segments stay inside the footprint: memory outside of it is as it was.
pub proof fn law_segments_stay_in_footprint(mem: Seq<u8>, at: int, image: Seq<u8>, n: int, k: int)
    requires
        0 <= n,
        0 <= k < mem.len(),
        k < at || k >= at + footprint(image, n),
        forall|i: int|
            0 <= i < n && #[trigger] is_load(image, i) ==> p_filesz(image, i) <= p_memsz(image, i)
                && p_offset(image, i) + p_filesz(image, i) <= image.len() && 0 <= p_vaddr(image, i)
                && 0 <= p_filesz(image, i) && 0 <= p_offset(image, i),
    ensures
        with_segments(mem, at, image, n).len() == mem.len(),
        with_segments(mem, at, image, n)[k] == mem[k],
    decreases n,
{
    if n > 0 {
        law_segments_stay_in_footprint(mem, at, image, n - 1, k);
        assert(is_load(image, n - 1) ==> p_vaddr(image, n - 1) + p_memsz(image, n - 1)
            <= footprint(image, n));
    }
}

/// Memory past the file bytes of the last LOAD segment, up to its memory size, is zero.
pub proof fn law_bss_is_zero(mem: Seq<u8>, at: int, image: Seq<u8>, i: int, k: int)
    requires
        0 <= i,
        is_load(image, i),
        0 <= k < mem.len(),
        at + p_vaddr(image, i) + p_filesz(image, i) <= k < at + p_vaddr(image, i) + p_memsz(
            image,
            i,
        ),
    ensures
        with_segment(mem, at, image, i)[k] == 0,
{
}

} // verus!
