use tanix::arch::aarch64::acpi::probe;
use tanix::arch::aarch64::efi::handoff;
use tanix::arch::aarch64::fdt::{cpu_count, dram_region};
use tanix::mem::ram::Ram;

/// Builds a device tree: the structure block, then the names of properties.
struct Tree {
    tokens: Vec<u8>,
    strings: Vec<u8>,
}

impl Tree {
    fn new() -> Tree {
        Tree { tokens: Vec::new(), strings: Vec::new() }
    }

    fn word(&mut self, v: u32) {
        self.tokens.extend_from_slice(&v.to_be_bytes());
    }

    fn begin(&mut self, name: &str) {
        self.word(1);
        self.tokens.extend_from_slice(name.as_bytes());
        self.tokens.push(0);
        while self.tokens.len() % 4 != 0 {
            self.tokens.push(0);
        }
    }

    fn end(&mut self) {
        self.word(2);
    }

    fn prop(&mut self, name: &str, value: &[u32]) {
        let at = self.strings.len() as u32;
        self.strings.extend_from_slice(name.as_bytes());
        self.strings.push(0);
        self.word(3);
        self.word(4 * value.len() as u32);
        self.word(at);
        for v in value {
            self.word(*v);
        }
    }

    fn blob(mut self) -> Vec<u8> {
        self.word(9);
        let mut out = Vec::new();
        for v in [0xD00D_FEEDu32, 0, 40, 40 + self.tokens.len() as u32, 0, 17, 16, 0, 0, 0] {
            out.extend_from_slice(&v.to_be_bytes());
        }
        out.extend_from_slice(&self.tokens);
        out.extend_from_slice(&self.strings);
        out
    }
}

fn board() -> Vec<u8> {
    let mut t = Tree::new();
    t.begin("");
    t.prop("#address-cells", &[2]);
    t.prop("#size-cells", &[2]);
    t.begin("chosen");
    t.prop("reg", &[9, 9, 9, 9]);
    t.end();
    t.begin("cpus");
    for i in 0..4 {
        t.begin(&format!("cpu@{}", i));
        t.end();
    }
    t.begin("cpu-map");
    t.end();
    t.end();
    t.word(4);
    t.begin("memory@10000000000");
    t.prop("device_type", &[1]);
    t.prop("reg", &[0x100, 0, 0, 0x4000_0000]);
    t.end();
    t.end();
    t.blob()
}

#[test]
fn memory_is_found_in_the_device_tree() {
    let r = dram_region(&board()).unwrap();
    assert_eq!((r.base, r.size), (0x100_0000_0000, 0x4000_0000));
}

#[test]
fn every_cpu_node_is_counted() {
    assert_eq!(cpu_count(&board()), 4);
    let mut t = Tree::new();
    t.begin("");
    t.end();
    assert_eq!(cpu_count(&t.blob()), 1);
    let mut t = Tree::new();
    t.begin("");
    t.begin("cpus");
    for i in 0..12 {
        t.begin(&format!("cpu@{}", i));
        t.end();
    }
    t.end();
    t.end();
    assert_eq!(cpu_count(&t.blob()), 8);
}

#[test]
fn the_root_says_how_wide_addresses_are() {
    let mut t = Tree::new();
    t.begin("");
    t.prop("#address-cells", &[1]);
    t.prop("#size-cells", &[1]);
    t.begin("memory");
    t.prop("reg", &[0x4000_0000, 0x1000_0000]);
    t.end();
    t.end();
    let r = dram_region(&t.blob()).unwrap();
    assert_eq!((r.base, r.size), (0x4000_0000, 0x1000_0000));
}

#[test]
fn an_empty_memory_node_is_passed_over() {
    let mut t = Tree::new();
    t.begin("");
    t.begin("memory@0");
    t.prop("reg", &[0, 0, 0, 0]);
    t.end();
    t.begin("memory@1");
    t.prop("reg", &[0, 1]);
    t.prop("reg", &[0, 0x8000_0000, 0, 0x2000]);
    t.end();
    t.end();
    let r = dram_region(&t.blob()).unwrap();
    assert_eq!((r.base, r.size), (0x8000_0000, 0x2000));
}

#[test]
fn what_is_no_device_tree_describes_nothing() {
    assert!(dram_region(&[0; 64]).is_none());
    assert!(dram_region(&[]).is_none());
    assert_eq!(cpu_count(&[0; 64]), 1);
    let mut cut = board();
    cut.truncate(60);
    assert!(dram_region(&cut).is_none());
    let mut t = Tree::new();
    t.begin("");
    t.begin("memoryless");
    t.prop("reg", &[0, 0, 0, 1]);
    t.end();
    t.end();
    assert!(dram_region(&t.blob()).is_none());
}

const BASE: u64 = 0x1000;

fn put(mem: &mut [u8], at: u64, bytes: &[u8]) {
    let i = (at - BASE) as usize;
    mem[i..i + bytes.len()].copy_from_slice(bytes);
}

/// Set the byte at `fix` so that the `len` bytes at `at` sum to 0.
fn seal(mem: &mut [u8], at: u64, len: u64, fix: u64) {
    let i = (at - BASE) as usize;
    let sum = mem[i..i + len as usize].iter().fold(0u8, |a, b| a.wrapping_add(*b));
    mem[(fix - BASE) as usize] = 0u8.wrapping_sub(sum);
}

fn table(mem: &mut [u8], at: u64, sig: &[u8; 4], body: &[u8]) {
    let len = 36 + body.len() as u64;
    put(mem, at, sig);
    put(mem, at + 4, &(len as u32).to_le_bytes());
    put(mem, at + 36, body);
    seal(mem, at, len, at + 9);
}

/// Tables that describe a GIC, a console and PCIe.
fn tables() -> Vec<u8> {
    let mut mem = vec![0u8; 0x1000];
    put(&mut mem, 0x1000, b"RSD PTR ");
    mem[15] = 2;
    put(&mut mem, 0x1018, &0x1100u64.to_le_bytes());
    seal(&mut mem, 0x1000, 20, 0x1008);
    let mut list = Vec::new();
    for a in [0u64, 0x1200, 0x1300, 0x1400, 0x1500] {
        list.extend_from_slice(&a.to_le_bytes());
    }
    table(&mut mem, 0x1100, b"XSDT", &list);
    let mut madt = vec![0u8; 8];
    madt.extend_from_slice(&[0x0C, 4, 0, 0]);
    madt.extend_from_slice(&[0x03, 24, 0, 0, 0, 0, 0, 0]);
    madt.extend_from_slice(&0x4006_0000u64.to_le_bytes());
    madt.extend_from_slice(&[0; 8]);
    madt.extend_from_slice(&[0x04, 16, 0, 0]);
    madt.extend_from_slice(&0x4008_0000u64.to_le_bytes());
    madt.extend_from_slice(&[0; 4]);
    madt.extend_from_slice(&[0x04, 16, 0, 0]);
    madt.extend_from_slice(&0x5555_0000u64.to_le_bytes());
    madt.extend_from_slice(&[0; 4]);
    madt.extend_from_slice(&[0x0B, 16, 0, 0, 0, 0, 0, 0]);
    madt.extend_from_slice(&0x4408_1000u64.to_le_bytes());
    table(&mut mem, 0x1200, b"MADT", &madt);
    let mut spcr = vec![0u8; 8];
    spcr.extend_from_slice(&0x6000_0000u64.to_le_bytes());
    table(&mut mem, 0x1300, b"SPCR", &spcr);
    let mut mcfg = vec![0u8; 8];
    mcfg.extend_from_slice(&0x1111_0000u64.to_le_bytes());
    mcfg.extend_from_slice(&[1, 0, 0, 0, 0, 0, 0, 0]);
    mcfg.extend_from_slice(&0xF000_0000u64.to_le_bytes());
    mcfg.extend_from_slice(&[0; 8]);
    table(&mut mem, 0x1400, b"MCFG", &mcfg);
    table(&mut mem, 0x1500, b"FACP", &[7; 20]);
    mem
}

#[test]
fn the_topology_is_read_from_the_tables() {
    let info = probe(&Ram::new(BASE, tables()), 0x1000).unwrap();
    assert_eq!((info.gic_dist_base, info.gic_redist_base), (0x4006_0000, 0x4008_0000));
    assert_eq!(info.its_base, 0x4408_1000);
    assert_eq!((info.uart_base, info.ecam_base), (0x6000_0000, 0xF000_0000));
}

#[test]
fn a_corrupt_table_adds_nothing() {
    let mut mem = tables();
    mem[0x420] ^= 1;
    let info = probe(&Ram::new(BASE, mem), 0x1000).unwrap();
    assert_eq!(info.ecam_base, 0);
    for at in [0x009, 0x10B, 0x20B, 0x30B] {
        let mut mem = tables();
        mem[at] ^= 0x40;
        assert!(probe(&Ram::new(BASE, mem), 0x1000).is_none());
    }
}

#[test]
fn an_old_or_missing_root_pointer_is_refused() {
    let ram = Ram::new(BASE, tables());
    assert!(probe(&ram, 0).is_none());
    assert!(probe(&ram, 0x1004).is_none());
    assert!(probe(&ram, 0x1100).is_none());
    assert!(probe(&ram, 0x9000_0000).is_none());
    let mut mem = tables();
    mem[15] = 0;
    seal(&mut mem, 0x1000, 20, 0x1008);
    assert!(probe(&Ram::new(BASE, mem), 0x1000).is_none());
}

const ACPI20: [u8; 16] = [
    0x71, 0xE8, 0x68, 0x88, 0xF1, 0xE4, 0xD3, 0x11, 0xBC, 0x22, 0x00, 0x80, 0xC7, 0x3C, 0x88, 0x81,
];
const ACPI10: [u8; 16] = [
    0x30, 0x2D, 0x9D, 0xEB, 0x88, 0x2D, 0xD3, 0x11, 0x9A, 0x16, 0x00, 0x90, 0x27, 0x3F, 0xC1, 0x4D,
];
const FDT: [u8; 16] = [
    0xD5, 0x21, 0xB6, 0xB1, 0x9C, 0xF1, 0xA5, 0x41, 0x83, 0x0B, 0xD9, 0x15, 0x2C, 0x69, 0xAA, 0xEA,
];

fn systab(entries: &[([u8; 16], u64)], count: u32) -> Ram {
    let mut mem = vec![0u8; 0x800];
    put(&mut mem, 0x1000, b"IBI SYST");
    put(&mut mem, 0x1000 + 112, &count.to_le_bytes());
    for (i, (guid, ptr)) in entries.iter().enumerate() {
        put(&mut mem, 0x1000 + 120 + 24 * i as u64, guid);
        put(&mut mem, 0x1000 + 136 + 24 * i as u64, &ptr.to_le_bytes());
    }
    Ram::new(BASE, mem)
}

#[test]
fn the_firmware_hands_over_its_tables() {
    let h = handoff(&systab(&[(FDT, 0), (ACPI10, 0x111), (FDT, 0x333), (ACPI20, 0x222)], 4), 0x1000);
    assert!(h.booted_from_efi);
    assert_eq!((h.systab, h.rsdp, h.dtb), (0x1000, 0x222, 0x333));
    let h = handoff(&systab(&[(ACPI10, 0x111)], 1), 0x1000);
    assert_eq!((h.rsdp, h.dtb), (0x111, 0));
}

#[test]
fn an_untrusted_table_list_is_ignored() {
    let h = handoff(&systab(&[(ACPI20, 0x222)], 65), 0x1000);
    assert!(h.booted_from_efi);
    assert_eq!((h.rsdp, h.dtb), (0, 0));
}

#[test]
fn a_direct_boot_has_no_firmware() {
    let ram = systab(&[(ACPI20, 0x222)], 1);
    assert!(!handoff(&ram, 0).booted_from_efi);
    let h = handoff(&ram, 0x1008);
    assert!(!h.booted_from_efi);
    assert_eq!((h.systab, h.rsdp), (0, 0));
}
