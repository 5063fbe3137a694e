//! What the UEFI firmware hands over through its system table.

use vstd::prelude::*;
use crate::bytes::{le16, le32, le64, same_bytes};
use crate::mem::ram::Ram;

verus! {

/// What the kernel needs to know about a firmware boot.
#[derive(Debug, Clone, Copy, PartialEq, Eq, Structural)]
pub struct EfiHandoff {
    /// The firmware started the kernel.
    pub booted_from_efi: bool,
    /// System table (0 when not booted by firmware).
    pub systab: u64,
    /// RSDP of the ACPI tables (0 is none).
    pub rsdp: u64,
    /// Flattened device tree (0 is none).
    pub dtb: u64,
}

/// Signature of the system table: the first 8 bytes of `IBI SYSTEM`.
pub const ST_SIG: u64 = 0x5453_5953_2049_4249;

/// Most configuration tables that are believed.
pub const MAX_TABLES: u64 = 64;

/// ACPI 2.0 table: 8868E871-E4F1-11D3-BC22-0080C73C8881.
pub open spec fn guid_acpi20() -> Seq<u8> {
    seq![
        0x71u8, 0xE8, 0x68, 0x88, 0xF1, 0xE4, 0xD3, 0x11,
        0xBC, 0x22, 0x00, 0x80, 0xC7, 0x3C, 0x88, 0x81,
    ]
}

/// ACPI 1.0 table: EB9D2D30-2D88-11D3-9A16-0090273FC14D.
pub open spec fn guid_acpi10() -> Seq<u8> {
    seq![
        0x30u8, 0x2D, 0x9D, 0xEB, 0x88, 0x2D, 0xD3, 0x11,
        0x9A, 0x16, 0x00, 0x90, 0x27, 0x3F, 0xC1, 0x4D,
    ]
}

/// Flattened device tree: B1B621D5-F19C-41A5-830B-D9152C69AAEA.
pub open spec fn guid_fdt() -> Seq<u8> {
    seq![
        0xD5u8, 0x21, 0xB6, 0xB1, 0x9C, 0xF1, 0xA5, 0x41,
        0x83, 0x0B, 0xD9, 0x15, 0x2C, 0x69, 0xAA, 0xEA,
    ]
}

/// There is a system table with its signature at `systab`.
pub open spec fn is_systab(ram: Ram, systab: int) -> bool {
    systab != 0 && ram.has(systab, 120) && ram.word(systab) == ST_SIG
}

/// Number of configuration tables.
pub open spec fn table_count(ram: Ram, systab: int) -> int {
    le32(ram@, systab + 112 - ram.start())
}

/// Configuration table `i` has the GUID and points somewhere.
pub open spec fn is_table(ram: Ram, systab: int, i: int, guid: Seq<u8>) -> bool {
    let e = systab + 120 + 24 * i;
    ram.has(e, 24) && ram.range(e, 16) == guid && ram.word(e + 16) != 0
}

/// Pointer of the first of `n` configuration tables that has the GUID; 0 is none.
pub open spec fn first_table(ram: Ram, systab: int, guid: Seq<u8>, n: int) -> int
    decreases n,
{
    if n <= 0 {
        0
    } else {
        let p = first_table(ram, systab, guid, n - 1);
        if p == 0 && is_table(ram, systab, n - 1, guid) {
            ram.word(systab + 120 + 24 * (n - 1) + 16)
        } else {
            p
        }
    }
}

fn acpi20() -> (g: [u8; 16])
    ensures
        g@ == guid_acpi20(),
{
    let g: [u8; 16] = [
        0x71, 0xE8, 0x68, 0x88, 0xF1, 0xE4, 0xD3, 0x11, 0xBC, 0x22, 0x00, 0x80, 0xC7, 0x3C, 0x88,
        0x81,
    ];
    assert(g@ =~= guid_acpi20());
    g
}

fn acpi10() -> (g: [u8; 16])
    ensures
        g@ == guid_acpi10(),
{
    let g: [u8; 16] = [
        0x30, 0x2D, 0x9D, 0xEB, 0x88, 0x2D, 0xD3, 0x11, 0x9A, 0x16, 0x00, 0x90, 0x27, 0x3F, 0xC1,
        0x4D,
    ];
    assert(g@ =~= guid_acpi10());
    g
}

fn fdt_guid() -> (g: [u8; 16])
    ensures
        g@ == guid_fdt(),
{
    let g: [u8; 16] = [
        0xD5, 0x21, 0xB6, 0xB1, 0x9C, 0xF1, 0xA5, 0x41, 0x83, 0x0B, 0xD9, 0x15, 0x2C, 0x69, 0xAA,
        0xEA,
    ];
    assert(g@ =~= guid_fdt());
    g
}

fn find_table(ram: &Ram, systab: u64, guid: &[u8], n: u64) -> (p: u64)
    requires
        ram.wf(),
        ram.has(systab as int, 120),
        n <= MAX_TABLES,
    ensures
        p == first_table(*ram, systab as int, guid@, n as int),
{
    let mut p: u64 = 0;
    let mut i: u64 = 0;
    while i < n
        invariant
            ram.wf(),
            ram.has(systab as int, 120),
            i <= n <= MAX_TABLES,
            p == first_table(*ram, systab as int, guid@, i as int),
        decreases n - i,
    {
        if p == 0 && systab + 120 <= u64::MAX - 24 * i {
            let e: u64 = systab + 120 + 24 * i;
            if ram.contains(e, 24) && same_bytes(ram.slice(e, 16), guid) {
                p = ram.read64(e + 16);
            }
        }
        i = i + 1;
    }
    p
}

/// What the firmware left at `systab`.  Without a system table there the kernel was
/// started directly.  Of the ACPI tables the 2.0 one is preferred, 1.0 is the fallback.
pub fn handoff(ram: &Ram, systab: u64) -> (r: EfiHandoff)
    requires
        ram.wf(),
    ensures
        !is_systab(*ram, systab as int) ==> r == (EfiHandoff {
            booted_from_efi: false,
            systab: 0,
            rsdp: 0,
            dtb: 0,
        }),
        is_systab(*ram, systab as int) ==> {
            let n = table_count(*ram, systab as int);
            let v2 = first_table(*ram, systab as int, guid_acpi20(), n);
            let v1 = first_table(*ram, systab as int, guid_acpi10(), n);
            &&& r.booted_from_efi
            &&& r.systab == systab
            &&& n > MAX_TABLES ==> r.rsdp == 0 && r.dtb == 0
            &&& n <= MAX_TABLES ==> r.rsdp == if v2 != 0 {
                v2
            } else {
                v1
            }
            &&& n <= MAX_TABLES ==> r.dtb == first_table(*ram, systab as int, guid_fdt(), n)
        },
{
    if systab == 0 || !ram.contains(systab, 120) || ram.read64(systab) != ST_SIG {
        return EfiHandoff { booted_from_efi: false, systab: 0, rsdp: 0, dtb: 0 };
    }
    let n: u64 = ram.read32(systab + 112) as u64;
    if n > MAX_TABLES {
        return EfiHandoff { booted_from_efi: true, systab, rsdp: 0, dtb: 0 };
    }
    let v2: u64 = find_table(ram, systab, acpi20().as_slice(), n);
    let rsdp: u64 = if v2 != 0 {
        v2
    } else {
        find_table(ram, systab, acpi10().as_slice(), n)
    };
    let dtb: u64 = find_table(ram, systab, fdt_guid().as_slice(), n);
    EfiHandoff { booted_from_efi: true, systab, rsdp, dtb }
}

/// A system table is known by its signature, `IBI SYST`; the number of its tables is at byte
/// 112, the tables follow from byte 120 on, 24 bytes each.
pub proof fn law_system_table(ram: Ram, systab: int)
    requires
        ram.wf(),
        systab > 0,
    ensures
        is_systab(ram, systab) <==> ram.start() <= systab && systab + 120 <= ram.start()
            + ram@.len() && le64(ram@, systab - ram.start()) == 0x5453_5953_2049_4249,
        !is_systab(ram, 0),
        table_count(ram, systab) == le32(ram@, systab - ram.start() + 112),
{
    assert(ram.word(systab) == le64(ram@, systab - ram.start()));
}

/// The table of a kind is the first one with that identifier and a pointer that is not 0.
pub proof fn law_first_table_of_kind(ram: Ram, systab: int, guid: Seq<u8>, k: int, n: int)
    requires
        -1 <= k < n,
        k >= 0 ==> points(ram, systab, k, guid),
        forall|i: int| 0 <= i < n && (k < 0 || i < k) ==> !#[trigger] points(ram, systab, i, guid),
    ensures
        k < 0 ==> first_table(ram, systab, guid, n) == 0,
        k >= 0 ==> first_table(ram, systab, guid, n) == le64(
            ram@,
            systab - ram.start() + 120 + 24 * k + 16,
        ),
    decreases n,
{
    let e = systab + 120 + 24 * (n - 1);
    assert(ram.word(e + 16) == le64(ram@, e + 16 - ram.start()));
    assert(is_table(ram, systab, n - 1, guid) == points(ram, systab, n - 1, guid));
    if k < n - 1 && n > 1 {
        law_first_table_of_kind(ram, systab, guid, k, n - 1);
        if k >= 0 {
            let f = systab + 120 + 24 * k;
            assert(points(ram, systab, k, guid));
            assert(ram.word(f + 16) == le64(ram@, f + 16 - ram.start()));
        }
    } else if n > 1 {
        law_first_table_of_kind(ram, systab, guid, -1, n - 1);
    }
    assert(first_table(ram, systab, guid, 0) == 0);
}

/// Entry `i` lies in memory, has the identifier, and points to something.
pub open spec fn points(ram: Ram, systab: int, i: int, guid: Seq<u8>) -> bool {
    let at = systab - ram.start() + 120 + 24 * i;
    &&& 0 <= at
    &&& at + 24 <= ram@.len()
    &&& ram@.subrange(at, at + 16) == guid
    &&& le64(ram@, at + 16) != 0
}

/// The identifiers that are looked for: 8868e871-e4f1-11d3-bc22-0080c73c8881 and
/// eb9d2d30-2d88-11d3-9a16-0090273fc14d of ACPI 2.0 and 1.0, b1b621d5-f19c-41a5-830b-d9152c69aaea
/// of the device tree; their first three fields have the low byte first.
pub proof fn law_identifiers()
    ensures
        ({
            let g = guid_acpi20();
            &&& g.len() == 16 && le32(g, 0) == 0x8868_E871 && le16(g, 4) == 0xE4F1 && le16(g, 6)
                == 0x11D3
            &&& g.skip(8) == seq![0xBCu8, 0x22, 0x00, 0x80, 0xC7, 0x3C, 0x88, 0x81]
        }),
        ({
            let g = guid_acpi10();
            &&& g.len() == 16 && le32(g, 0) == 0xEB9D_2D30 && le16(g, 4) == 0x2D88 && le16(g, 6)
                == 0x11D3
            &&& g.skip(8) == seq![0x9Au8, 0x16, 0x00, 0x90, 0x27, 0x3F, 0xC1, 0x4D]
        }),
        ({
            let g = guid_fdt();
            &&& g.len() == 16 && le32(g, 0) == 0xB1B6_21D5 && le16(g, 4) == 0xF19C && le16(g, 6)
                == 0x41A5
            &&& g.skip(8) == seq![0x83u8, 0x0B, 0xD9, 0x15, 0x2C, 0x69, 0xAA, 0xEA]
        }),
{
}

} // verus!
