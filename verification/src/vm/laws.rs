//! What loading an image puts where, told by the bytes of its headers.

use vstd::prelude::*;
use crate::bytes::{le16, le32, le64, le64_bytes, put};
use crate::hypervisor::HvError;
use crate::mem::ram::Ram;
use crate::vm::loader::{
    footprint, headers_ok, is_data, is_load, load_error, loaded, loaded_image, p_filesz, p_memsz,
    p_offset, p_vaddr, phdr, phdr_ok, phnum, rela, rela_count, relocated, segment_ok, segments_ok,
    shdr, shnum, with_rela, with_relas, with_segment, with_segments,
};

verus! {

/// The image begins with the bytes 7F 'E' 'L' 'F' and a whole header.
pub open spec fn elf_magic(image: Seq<u8>) -> bool {
    image.len() >= 64 && image[0] == 0x7F && image[1] == 0x45 && image[2] == 0x4C && image[3]
        == 0x46
}

/// Offset of program header `i`: the table begins where the word at 32 says, with entries of
/// the size at 54.
pub open spec fn header(image: Seq<u8>, i: int) -> int {
    le64(image, 32) + i * le16(image, 54)
}

/// Header `i` of those that the count at 56 tells of is one of type 1.
pub open spec fn loads(image: Seq<u8>, i: int) -> bool {
    0 <= i < le16(image, 56) && le32(image, header(image, i)) == 1
}

/// Word of program header `i` at `off`: 8 the offset in the file, 16 the address, 32 the size
/// in the file, 40 the size in memory.
pub open spec fn field(image: Seq<u8>, i: int, off: int) -> int {
    le64(image, header(image, i) + off)
}

/// Offset of section header `i`.
pub open spec fn section(image: Seq<u8>, i: int) -> int {
    le64(image, 40) + i * le16(image, 58)
}

/// The image has section headers with names.
pub open spec fn has_sections(image: Seq<u8>) -> bool {
    &&& le64(image, 40) != 0
    &&& le16(image, 62) != 0
    &&& le16(image, 58) >= 64
    &&& section(image, le16(image, 62)) + 64 <= image.len()
    &&& le64(image, section(image, le16(image, 62)) + 24) < image.len()
}

/// Section `x` is in memory (flag 2), is not code (flag 4), and begins below `fp`.
pub open spec fn holds_data(image: Seq<u8>, x: int, fp: int) -> bool {
    &&& 0 <= x < le16(image, 60)
    &&& section(image, x) + 64 <= image.len()
    &&& le64(image, section(image, x) + 8) as u64 & 2 != 0
    &&& le64(image, section(image, x) + 8) as u64 & 4 == 0
    &&& le64(image, section(image, x) + 16) < fp
}

/// Record `r` of section `s` moves the word at address `w`: the section is of type 4 and is
/// for a data section, the record lies in it, and its type is 257 or 1027.
pub open spec fn moves(image: Seq<u8>, fp: int, s: int, r: int, w: int) -> bool {
    let h = section(image, s);
    let rec = le64(image, h + 24) + r * le64(image, h + 56);
    &&& has_sections(image)
    &&& 0 <= s < le16(image, 60)
    &&& h + 64 <= image.len()
    &&& le32(image, h + 4) == 4
    &&& holds_data(image, le32(image, h + 44), fp)
    &&& le64(image, h + 56) > 0
    &&& le64(image, h + 24) + le64(image, h + 32) <= image.len()
    &&& 0 <= r < le64(image, h + 32) / le64(image, h + 56)
    &&& rec + 24 <= image.len()
    &&& le64(image, rec) == w
    &&& (le32(image, rec + 8) == 257 || le32(image, rec + 8) == 1027)
}

/// No relocation record moves the byte at address `p`, but for record `r` of section `s`.
pub open spec fn moved_by_no_other(image: Seq<u8>, fp: int, p: int, s: int, r: int) -> bool {
    forall|x: int, y: int, w: int|
        #[trigger] moves(image, fp, x, y, w) && !(x == s && y == r) ==> p < w || p >= w + 8
}

/// Header `j` puts nothing at address `p`.
pub open spec fn spares(image: Seq<u8>, j: int, p: int) -> bool {
    loads(image, j) ==> p < field(image, j, 16) || (p >= field(image, j, 16) + field(image, j, 32)
        && p >= field(image, j, 16) + field(image, j, 40))
}

proof fn lemma_low_half(image: Seq<u8>, i: int)
    ensures
        le64(image, i) % 0x1_0000_0000 == le32(image, i),
        0 <= le32(image, i) < 0x1_0000_0000,
{
}

proof fn lemma_header(image: Seq<u8>, i: int)
    ensures
        header(image, i) == phdr(image, i),
        phnum(image) == le16(image, 56),
        0 <= i < phnum(image) ==> is_load(image, i) == loads(image, i),
        p_offset(image, i) == field(image, i, 8),
        p_vaddr(image, i) == field(image, i, 16),
        p_filesz(image, i) == field(image, i, 32),
        p_memsz(image, i) == field(image, i, 40),
{
}

/// A record that moves nothing there leaves a byte.
proof fn lemma_record_spares(
    mem: Seq<u8>,
    at: int,
    base: int,
    image: Seq<u8>,
    fp: int,
    s: int,
    k: int,
    p: int,
)
    requires
        0 <= s < shnum(image),
        0 <= k < rela_count(image, s, fp),
        0 <= at + p < mem.len(),
        forall|w: int| #[trigger] moves(image, fp, s, k, w) ==> p < w || p >= w + 8,
    ensures
        with_rela(mem, at, base, image, rela(image, s, k)).len() == mem.len(),
        with_rela(mem, at, base, image, rela(image, s, k))[at + p] == mem[at + p],
{
    let rec = rela(image, s, k);
    lemma_low_half(image, rec + 8);
    let x = le32(image, section(image, s) + 44);
    lemma_low_half(image, section(image, s) + 44);
    assert(is_data(image, x, fp) ==> holds_data(image, x, fp));
    reveal(le64_bytes);
    if with_rela(mem, at, base, image, rec) != mem {
        assert(moves(image, fp, s, k, le64(image, rec)));
    }
}

proof fn lemma_section_spares(
    mem: Seq<u8>,
    at: int,
    base: int,
    image: Seq<u8>,
    fp: int,
    s: int,
    k: int,
    p: int,
)
    requires
        0 <= s < shnum(image),
        0 <= k <= rela_count(image, s, fp),
        0 <= at + p < mem.len(),
        forall|y: int, w: int|
            y < k && #[trigger] moves(image, fp, s, y, w) ==> p < w || p >= w + 8,
    ensures
        with_relas(mem, at, base, image, s, k).len() == mem.len(),
        with_relas(mem, at, base, image, s, k)[at + p] == mem[at + p],
    decreases k,
{
    if k > 0 {
        lemma_section_spares(mem, at, base, image, fp, s, k - 1, p);
        lemma_record_spares(
            with_relas(mem, at, base, image, s, k - 1),
            at,
            base,
            image,
            fp,
            s,
            k - 1,
            p,
        );
    }
}

proof fn lemma_relocation_spares(
    mem: Seq<u8>,
    at: int,
    base: int,
    image: Seq<u8>,
    fp: int,
    n: int,
    p: int,
)
    requires
        0 <= n <= shnum(image),
        0 <= at + p < mem.len(),
        forall|x: int, y: int, w: int|
            x < n && #[trigger] moves(image, fp, x, y, w) ==> p < w || p >= w + 8,
    ensures
        relocated(mem, at, base, image, fp, n).len() == mem.len(),
        relocated(mem, at, base, image, fp, n)[at + p] == mem[at + p],
    decreases n,
{
    if n > 0 {
        lemma_relocation_spares(mem, at, base, image, fp, n - 1, p);
        let c = rela_count(image, n - 1, fp);
        let mid = relocated(mem, at, base, image, fp, n - 1);
        if c > 0 {
            lemma_section_spares(mid, at, base, image, fp, n - 1, c, p);
        } else {
            assert(with_relas(mid, at, base, image, n - 1, c) == mid);
        }
    }
}

/// Copying the segments leaves what no later one covers.
proof fn lemma_segments(mem: Seq<u8>, at: int, image: Seq<u8>, i: int, n: int, p: int)
    requires
        0 <= i <= n <= phnum(image),
        0 <= at + p < mem.len(),
        forall|j: int| i <= j < n ==> #[trigger] spares(image, j, p),
        forall|j: int|
            0 <= j < n && #[trigger] is_load(image, j) ==> p_offset(image, j) + p_filesz(image, j)
                <= image.len() || p_filesz(image, j) <= 0,
    ensures
        with_segments(mem, at, image, i).len() == mem.len(),
        with_segments(mem, at, image, n).len() == mem.len(),
        with_segments(mem, at, image, n)[at + p] == with_segments(mem, at, image, i)[at + p],
    decreases n,
{
    if n > i {
        lemma_segments(mem, at, image, i, n - 1, p);
        lemma_header(image, n - 1);
        assert(spares(image, n - 1, p));
        assert(0 <= p_offset(image, n - 1) && 0 <= p_filesz(image, n - 1));
        assert(with_segment(with_segments(mem, at, image, n - 1), at, image, n - 1).len()
            == mem.len());
    } else if i > 0 {
        lemma_segments(mem, at, image, i - 1, i - 1, p);
    }
}

/// What a load that succeeds leaves in memory: each byte of the file part of a LOAD segment
/// that no later segment and no relocation covers is the image's, and each byte of the rest of
/// the segment is zero.
#[verifier::rlimit(50)]
pub proof fn law_segments_are_loaded(image: Seq<u8>, ram: Ram, base: int, size: int, i: int, k: int)
    requires
        elf_magic(image),
        load_error(image, ram, base, size) is None,
        loads(image, i),
        0 <= k,
        k < field(image, i, 32) || k < field(image, i, 40),
        forall|j: int|
            i < j < le16(image, 56) ==> #[trigger] spares(image, j, field(image, i, 16) + k),
        moved_by_no_other(
            image,
            footprint(image, phnum(image)),
            field(image, i, 16) + k,
            -1,
            0,
        ),
    ensures
        ({
            let after = loaded(image, ram@, base - ram.start(), base);
            after[base - ram.start() + field(image, i, 16) + k] == if k < field(image, i, 32) {
                image[field(image, i, 8) + k]
            } else {
                0
            }
        }),
{
    let at = base - ram.start();
    let p = field(image, i, 16) + k;
    let n = phnum(image);
    let fp = footprint(image, n);
    let mem = ram@;
    lemma_header(image, i);
    assert(segment_ok(image, ram, base, i));
    assert(0 <= at + p < mem.len());
    assert forall|j: int| 0 <= j < n && #[trigger] is_load(image, j) implies p_offset(image, j)
        + p_filesz(image, j) <= image.len() || p_filesz(image, j) <= 0 by {
        assert(segment_ok(image, ram, base, j));
    }
    lemma_segments(mem, at, image, i, i, p);
    assert forall|j: int| i + 1 <= j < n implies #[trigger] spares(image, j, p) by {}
    lemma_segments(mem, at, image, i + 1, n, p);
    let before = with_segments(mem, at, image, i);
    assert(with_segments(mem, at, image, i + 1) == with_segment(before, at, image, i));
    let all = with_segments(mem, at, image, n);
    assert forall|x: int, y: int, w: int|
        x < shnum(image) && #[trigger] moves(image, fp, x, y, w) implies p < w || p >= w + 8 by {}
    lemma_shnum(image);
    lemma_relocation_spares(all, at, base, image, fp, shnum(image), p);
}

proof fn lemma_shnum(image: Seq<u8>)
    ensures
        0 <= shnum(image),
        has_sections(image) ==> shnum(image) == le16(image, 60),
        !has_sections(image) ==> shnum(image) == 0,
        forall|i: int| #[trigger] shdr(image, i) == section(image, i),
{
}

/// Memory that no segment and no relocation covers is as it was.
#[verifier::rlimit(50)]
pub proof fn law_load_spares_the_rest(image: Seq<u8>, ram: Ram, base: int, size: int, p: int)
    requires
        elf_magic(image),
        load_error(image, ram, base, size) is None,
        0 <= base - ram.start() + p < ram@.len(),
        forall|j: int| 0 <= j < le16(image, 56) ==> #[trigger] spares(image, j, p),
        moved_by_no_other(image, footprint(image, phnum(image)), p, -1, 0),
    ensures
        loaded(image, ram@, base - ram.start(), base)[base - ram.start() + p] == ram@[base
            - ram.start() + p],
{
    let at = base - ram.start();
    let n = phnum(image);
    let fp = footprint(image, n);
    let mem = ram@;
    assert forall|j: int| 0 <= j < n && #[trigger] is_load(image, j) implies p_offset(image, j)
        + p_filesz(image, j) <= image.len() || p_filesz(image, j) <= 0 by {
        assert(segment_ok(image, ram, base, j));
    }
    lemma_segments(mem, at, image, 0, n, p);
    assert(with_segments(mem, at, image, 0) == mem);
    lemma_shnum(image);
    lemma_relocation_spares(with_segments(mem, at, image, n), at, base, image, fp, shnum(image), p);
}

/// Eight equal bytes make the same word.
proof fn lemma_same_word(a: Seq<u8>, i: int, b: Seq<u8>, j: int)
    requires
        forall|k: int| 0 <= k < 8 ==> #[trigger] a[i + k] == b[j + k],
    ensures
        le64(a, i) == le64(b, j),
{
    assert(a[i + 0] == b[j + 0]);
    assert(a[i + 1] == b[j + 1]);
    assert(a[i + 2] == b[j + 2]);
    assert(a[i + 3] == b[j + 3]);
    assert(a[i + 4] == b[j + 4]);
    assert(a[i + 5] == b[j + 5]);
    assert(a[i + 6] == b[j + 6]);
    assert(a[i + 7] == b[j + 7]);
}

/// The relocations up to record `r` of section `s`, and what a later one leaves.
proof fn lemma_relocated_word(
    mem: Seq<u8>,
    at: int,
    base: int,
    image: Seq<u8>,
    fp: int,
    n: int,
    s: int,
    r: int,
    w: int,
)
    requires
        0 <= s < n <= shnum(image),
        moves(image, fp, s, r, w),
        0 <= at + w,
        at + w + 8 <= mem.len(),
        0 <= w,
        0 <= base < 0x1_0000_0000_0000_0000,
        forall|k: int| 0 <= k < 8 ==> #[trigger] moved_by_no_other(image, fp, w + k, s, r),
    ensures
        le64(relocated(mem, at, base, image, fp, n), at + w) == (le64(mem, at + w) + base)
            % 0x1_0000_0000_0000_0000,
    decreases n,
{
    let before = relocated(mem, at, base, image, fp, s);
    lemma_shnum(image);
    let c = rela_count(image, s, fp);
    let x = le32(image, section(image, s) + 44);
    lemma_low_half(image, section(image, s) + 44);
    assert(holds_data(image, x, fp) ==> is_data(image, x, fp));
    assert(r < c);
    if n > s + 1 {
        lemma_relocated_word(mem, at, base, image, fp, n - 1, s, r, w);
        let mid = relocated(mem, at, base, image, fp, n - 1);
        let d = rela_count(image, n - 1, fp);
        let after = relocated(mem, at, base, image, fp, n);
        lemma_relocated_len(mem, at, base, image, fp, n - 1);
        assert forall|k: int| 0 <= k < 8 implies #[trigger] after[at + w + k] == mid[at + w
            + k] by {
            assert(moved_by_no_other(image, fp, w + k, s, r));
            if d > 0 {
                lemma_section_spares(mid, at, base, image, fp, n - 1, d, w + k);
            }
            assert(at + (w + k) == at + w + k);
        }
        lemma_same_word(after, at + w, mid, at + w);
    } else {
        lemma_relocated_len(mem, at, base, image, fp, s);
        assert forall|k: int| 0 <= k < 8 implies #[trigger] before[at + w + k] == mem[at + w
            + k] by {
            assert(moved_by_no_other(image, fp, w + k, s, r));
            lemma_relocation_spares(mem, at, base, image, fp, s, w + k);
            assert(at + (w + k) == at + w + k);
        }
        lemma_same_word(before, at + w, mem, at + w);
        lemma_section_word(before, at, base, image, fp, s, c, r, w);
    }
}

proof fn lemma_relocated_len(mem: Seq<u8>, at: int, base: int, image: Seq<u8>, fp: int, n: int)
    ensures
        relocated(mem, at, base, image, fp, n).len() == mem.len(),
    decreases n,
{
    if n > 0 {
        lemma_relocated_len(mem, at, base, image, fp, n - 1);
        lemma_relas_len(
            relocated(mem, at, base, image, fp, n - 1),
            at,
            base,
            image,
            n - 1,
            rela_count(image, n - 1, fp),
        );
    }
}

proof fn lemma_relas_len(mem: Seq<u8>, at: int, base: int, image: Seq<u8>, s: int, k: int)
    ensures
        with_relas(mem, at, base, image, s, k).len() == mem.len(),
    decreases k,
{
    if k > 0 {
        lemma_relas_len(mem, at, base, image, s, k - 1);
    }
}

proof fn lemma_section_word(
    mem: Seq<u8>,
    at: int,
    base: int,
    image: Seq<u8>,
    fp: int,
    s: int,
    c: int,
    r: int,
    w: int,
)
    requires
        0 <= s < shnum(image),
        0 <= r < c <= rela_count(image, s, fp),
        moves(image, fp, s, r, w),
        0 <= at + w,
        at + w + 8 <= mem.len(),
        0 <= base < 0x1_0000_0000_0000_0000,
        forall|k: int| 0 <= k < 8 ==> #[trigger] moved_by_no_other(image, fp, w + k, s, r),
    ensures
        le64(with_relas(mem, at, base, image, s, c), at + w) == (le64(mem, at + w) + base)
            % 0x1_0000_0000_0000_0000,
    decreases c,
{
    let mid = with_relas(mem, at, base, image, s, c - 1);
    let after = with_relas(mem, at, base, image, s, c);
    lemma_relas_len(mem, at, base, image, s, c - 1);
    if c > r + 1 {
        lemma_section_word(mem, at, base, image, fp, s, c - 1, r, w);
        assert forall|k: int| 0 <= k < 8 implies #[trigger] after[at + w + k] == mid[at + w
            + k] by {
            assert(moved_by_no_other(image, fp, w + k, s, r));
            lemma_record_spares(mid, at, base, image, fp, s, c - 1, w + k);
            assert(at + (w + k) == at + w + k);
        }
        lemma_same_word(after, at + w, mid, at + w);
    } else {
        assert forall|k: int| 0 <= k < 8 implies #[trigger] mid[at + w + k] == mem[at + w + k] by {
            assert(moved_by_no_other(image, fp, w + k, s, r));
            lemma_section_spares(mem, at, base, image, fp, s, r, w + k);
            assert(at + (w + k) == at + w + k);
        }
        lemma_same_word(mid, at + w, mem, at + w);
        let rec = rela(image, s, r);
        lemma_shnum(image);
        lemma_low_half(image, rec + 8);
        let v = ((le64(mid, at + w) + base) % 0x1_0000_0000_0000_0000) as u64;
        assert(after == put(mid, at + w, le64_bytes(v)));
        crate::bytes::law_le64_round_trip(v);
        assert(le64_bytes(v).len() == 8) by {
            reveal(le64_bytes);
        }
        assert forall|k: int| 0 <= k < 8 implies #[trigger] after[at + w + k] == le64_bytes(v)[0
            + k] by {}
        lemma_same_word(after, at + w, le64_bytes(v), 0);
    }
}

/// A word of a segment that one relocation record is for holds the image's word moved by the
/// load base.
#[verifier::rlimit(50)]
pub proof fn law_pointers_are_relocated(
    image: Seq<u8>,
    ram: Ram,
    base: u64,
    size: int,
    i: int,
    s: int,
    r: int,
    w: int,
)
    requires
        elf_magic(image),
        load_error(image, ram, base as int, size) is None,
        loads(image, i),
        field(image, i, 16) <= w,
        w + 8 <= field(image, i, 16) + field(image, i, 32),
        forall|j: int, p: int|
            i < j < le16(image, 56) && w <= p < w + 8 ==> #[trigger] spares(image, j, p),
        moves(image, footprint(image, phnum(image)), s, r, w),
        forall|k: int|
            0 <= k < 8 ==> #[trigger] moved_by_no_other(
                image,
                footprint(image, phnum(image)),
                w + k,
                s,
                r,
            ),
    ensures
        le64(loaded(image, ram@, base - ram.start(), base as int), base - ram.start() + w) == (le64(
            image,
            field(image, i, 8) + w - field(image, i, 16),
        ) + base) % 0x1_0000_0000_0000_0000,
{
    let at = base - ram.start();
    let n = phnum(image);
    let fp = footprint(image, n);
    let mem = ram@;
    let all = with_segments(mem, at, image, n);
    let off = field(image, i, 8) + w - field(image, i, 16);
    lemma_header(image, i);
    assert(segment_ok(image, ram, base as int, i));
    assert forall|j: int| 0 <= j < n && #[trigger] is_load(image, j) implies p_offset(image, j)
        + p_filesz(image, j) <= image.len() || p_filesz(image, j) <= 0 by {
        assert(segment_ok(image, ram, base as int, j));
    }
    assert forall|k: int| 0 <= k < 8 implies #[trigger] all[at + w + k] == image[off + k] by {
        lemma_segments(mem, at, image, i, i, w + k);
        assert forall|j: int| i + 1 <= j < n implies #[trigger] spares(image, j, w + k) by {}
        lemma_segments(mem, at, image, i + 1, n, w + k);
        let before = with_segments(mem, at, image, i);
        assert(with_segments(mem, at, image, i + 1) == with_segment(before, at, image, i));
        assert(at + (w + k) == at + w + k);
    }
    lemma_segments(mem, at, image, n, n, w);
    lemma_same_word(all, at + w, image, off);
    lemma_shnum(image);
    assert(0 <= field(image, i, 16));
    lemma_relocated_word(all, at, base as int, image, fp, shnum(image), s, r, w);
}

/// The footprint of an image is the highest end of its LOAD segments.
pub proof fn law_footprint_is_highest_end(image: Seq<u8>, i: int)
    ensures
        loads(image, i) ==> field(image, i, 16) + field(image, i, 40) <= footprint(
            image,
            phnum(image),
        ),
        footprint(image, phnum(image)) == 0 || exists|j: int| #[trigger]
            loads(image, j) && field(image, j, 16) + field(image, j, 40) == footprint(
                image,
                phnum(image),
            ),
{
    lemma_footprint(image, phnum(image), i);
}

proof fn lemma_footprint(image: Seq<u8>, n: int, i: int)
    requires
        n <= phnum(image),
    ensures
        0 <= footprint(image, n),
        loads(image, i) && i < n ==> field(image, i, 16) + field(image, i, 40) <= footprint(
            image,
            n,
        ),
        footprint(image, n) == 0 || exists|j: int| #[trigger]
            loads(image, j) && field(image, j, 16) + field(image, j, 40) == footprint(image, n),
    decreases n,
{
    if n > 0 {
        lemma_footprint(image, n - 1, i);
        lemma_header(image, n - 1);
        lemma_header(image, i);
        assert(0 <= field(image, n - 1, 16) && 0 <= field(image, n - 1, 40));
    }
}

/// An ELF image is loaded exactly where it is one of 64-bit little-endian code for AArch64
/// (bytes 2 and 1, machine 183), its program headers lie in it, its LOAD segments fit the
/// region, their bytes lie in the image and their place in memory.  What does not fit the
/// region is refused for want of memory, everything else as not supported.
#[verifier::rlimit(50)]
pub proof fn law_elf_is_accepted(image: Seq<u8>, ram: Ram, base: int, size: int)
    requires
        elf_magic(image),
    ensures
        ({
            let machine = image[4] == 2 && image[5] == 1 && le16(image, 18) == 183;
            let headers = forall|i: int|
                0 <= i < le16(image, 56) ==> (#[trigger] header(image, i)) + le16(image, 54)
                    <= image.len() && header(image, i) + 56 <= image.len();
            let fits = forall|i: int| #[trigger]
                loads(image, i) ==> field(image, i, 16) + field(image, i, 40) <= size;
            let places = forall|i: int| #[trigger]
                loads(image, i) ==> {
                    let v = base + field(image, i, 16);
                    let f = field(image, i, 32);
                    let m = field(image, i, 40);
                    &&& f > 0 ==> field(image, i, 8) + f <= image.len() && ram.start() <= v && v + f
                        <= ram.start() + ram@.len()
                    &&& m > f ==> ram.start() <= v && v + m <= ram.start() + ram@.len()
                };
            let e = load_error(image, ram, base, size);
            &&& 0 <= size && machine && headers && fits && places ==> e is None
            &&& e is None ==> machine && headers && fits && places
            &&& !machine ==> e == Some(HvError::NotSupported)
            &&& machine && !headers ==> e == Some(HvError::NotSupported)
            &&& machine && headers && !fits ==> e == Some(HvError::NoMemory)
            &&& 0 <= size && machine && headers && fits && !places ==> e == Some(
                HvError::NotSupported,
            )
        }),
{
    let n = phnum(image);
    assert forall|i: int| #[trigger] header(image, i) == phdr(image, i) by {}
    let headers = forall|i: int|
        0 <= i < le16(image, 56) ==> (#[trigger] header(image, i)) + le16(image, 54) <= image.len()
            && header(image, i) + 56 <= image.len();
    assert(headers == headers_ok(image)) by {
        if headers {
            assert forall|i: int| 0 <= i < n implies #[trigger] phdr_ok(image, i) by {
                assert(header(image, i) == phdr(image, i));
            }
        }
        if headers_ok(image) {
            assert forall|i: int| 0 <= i < le16(image, 56) implies (#[trigger] header(image, i))
                + le16(image, 54) <= image.len() && header(image, i) + 56 <= image.len() by {
                assert(phdr_ok(image, i));
            }
        }
    }
    let places = forall|i: int| #[trigger]
        loads(image, i) ==> {
            let v = base + field(image, i, 16);
            let f = field(image, i, 32);
            let m = field(image, i, 40);
            &&& f > 0 ==> field(image, i, 8) + f <= image.len() && ram.start() <= v && v + f
                <= ram.start() + ram@.len()
            &&& m > f ==> ram.start() <= v && v + m <= ram.start() + ram@.len()
        };
    assert(places == segments_ok(image, ram, base)) by {
        if places {
            assert forall|i: int| 0 <= i < n implies #[trigger] segment_ok(image, ram, base, i) by {
                lemma_header(image, i);
                assert(0 <= field(image, i, 32));
                assert(loads(image, i) == is_load(image, i));
            }
        }
        if segments_ok(image, ram, base) {
            assert forall|i: int| #[trigger] loads(image, i) implies {
                let v = base + field(image, i, 16);
                let f = field(image, i, 32);
                let m = field(image, i, 40);
                &&& f > 0 ==> field(image, i, 8) + f <= image.len() && ram.start() <= v && v + f
                    <= ram.start() + ram@.len()
                &&& m > f ==> ram.start() <= v && v + m <= ram.start() + ram@.len()
            } by {
                lemma_header(image, i);
                assert(segment_ok(image, ram, base, i));
                assert(0 <= field(image, i, 32));
            }
        }
    }
    let fp = footprint(image, n);
    assert forall|i: int| #[trigger] loads(image, i) implies field(image, i, 16) + field(
        image,
        i,
        40,
    ) <= fp by {
        law_footprint_is_highest_end(image, i);
    }
    law_footprint_is_highest_end(image, 0);
    if fp > size && 0 <= size {
        let j = choose|j: int| #[trigger]
            loads(image, j) && field(image, j, 16) + field(image, j, 40) == fp;
        assert(loads(image, j));
    }
}

/// A flat image is copied to the base as it is, entered at its first byte, and refused only
/// where it is larger than the region or its place is not in memory.
pub proof fn law_flat_image_is_copied(image: Seq<u8>, ram: Ram, base: u64, size: int, p: int)
    requires
        !elf_magic(image),
        0 <= p < ram@.len(),
        base + image.len() + 0xFFF <= u64::MAX,
    ensures
        ({
            let at = base - ram.start();
            let e = load_error(image, ram, base as int, size);
            let after = loaded(image, ram@, at, base as int);
            &&& image.len() > size <==> e == Some(HvError::NoMemory)
            &&& e is None <==> image.len() <= size && (image.len() == 0 || 0 <= at && at
                + image.len() <= ram@.len())
            &&& after.len() == ram@.len()
            &&& at <= p < at + image.len() ==> after[p] == image[p - at]
            &&& p < at || at + image.len() <= p ==> after[p] == ram@[p]
            &&& loaded_image(image, base as int).entry == base
            &&& loaded_image(image, base as int).image_end >= base + image.len()
            &&& loaded_image(image, base as int).image_end < base + image.len() + 4096
            &&& loaded_image(image, base as int).image_end % 4096 == 0
        }),
{
}

/// A loaded ELF image is entered where its header says, moved by the load base; its end is its
/// footprint, rounded up to a page.
pub proof fn law_elf_entry_and_end(image: Seq<u8>, base: u64)
    requires
        elf_magic(image),
        footprint(image, phnum(image)) + 0xFFF <= u64::MAX,
        0 <= footprint(image, phnum(image)),
    ensures
        ({
            let r = loaded_image(image, base as int);
            &&& r.entry == (base + le64(image, 24)) % 0x1_0000_0000_0000_0000
            &&& r.image_end % 4096 == 0
            &&& r.image_end >= footprint(image, phnum(image))
            &&& r.image_end < footprint(image, phnum(image)) + 4096
        }),
{
}

} // verus!
