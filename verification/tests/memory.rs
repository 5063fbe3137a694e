use tanix::arch::aarch64::machine::machine;
use tanix::mem::address_space::{clone_kernel_table, free_task_tables, kernel_table_count};
use tanix::mem::frame::FrameAllocator;
use tanix::mem::identity::{enable, identity_map};
use tanix::mem::mapping::{
    map_block, map_page, map_range, map_user_frame, map_user_pages, read_user_page,
    set_user_block, tables_needed, write_user_page,
};
use tanix::mem::page_table::{
    kernel_l0_phys, l0_idx, l1_idx, l2_idx, l3_idx, PageTable, TableSpace, DESC_AF,
    DESC_AP_RO_EL1, DESC_VALID, FLAGS_BLOCK_DEVICE, FLAGS_BLOCK_NORMAL, FLAGS_KERNEL_RO,
    FLAGS_KERNEL_RWX, FLAGS_USER_DEVICE, FLAGS_USER_RWX,
};
use tanix::mem::ram::Ram;
use tanix::mem::vm_fault::{classify, resolve_user_fault, FaultAction, DESC_COW_TAG, FLAGS_USER_COW};
use tanix::mem::windows::{open_windows, Window};
use tanix::sched::task::{Region, RegionKind};

const BASE: u64 = 0x4000_0000;

/// A window of `n` frames whose first one is the kernel's root table.
fn window(n: usize) -> (TableSpace, FrameAllocator) {
    let mut frames = FrameAllocator::new_zeroed();
    frames.init(BASE + 0x1000, BASE, 4096 * n as u64);
    (TableSpace::new(BASE, n, BASE), frames)
}

#[test]
fn frames_below_the_kernel_end_are_not_handed_out() {
    let mut a = FrameAllocator::new_zeroed();
    a.init(BASE + 0x2001, BASE, 0x1_0000);
    assert_eq!(a.total_frames(), 16);
    assert_eq!(a.free_frames(), 13);
    assert_eq!(a.ram_bounds(), (BASE, 0x1_0000));
    assert_eq!(a.alloc_one(), Some(BASE + 0x3000));
    assert_eq!(a.alloc_one(), Some(BASE + 0x4000));
    assert_eq!(a.free_frames(), 11);
}

#[test]
fn a_kernel_beyond_the_window_leaves_no_frame() {
    let mut a = FrameAllocator::new_zeroed();
    a.init(BASE + 0x10_0000, BASE, 0x4000);
    assert_eq!(a.free_frames(), 0);
    assert_eq!(a.alloc_one(), None);
    a.init(BASE - 0x1000, BASE, 0x4000);
    assert_eq!(a.free_frames(), 4);
}

#[test]
fn a_freed_frame_is_handed_out_again() {
    let mut a = FrameAllocator::new_zeroed();
    a.init(BASE, BASE, 0x3000);
    let f = a.alloc_one().unwrap();
    let g = a.alloc_one().unwrap();
    assert_ne!(f, g);
    let free = a.free_frames();
    a.free(f);
    assert_eq!(a.free_frames(), free + 1);
    a.free(f);
    assert_eq!(a.free_frames(), free + 1);
    assert_eq!(a.alloc_one(), Some(f));
}

#[test]
fn frames_run_out() {
    let mut a = FrameAllocator::new_zeroed();
    a.init(BASE, BASE, 0x3000);
    for i in 0..3 {
        assert_eq!(a.alloc_one(), Some(BASE + 0x1000 * i));
    }
    assert_eq!(a.alloc_one(), None);
    assert_eq!(a.alloc_contiguous(1), None);
}

#[test]
fn a_run_is_found_behind_the_frames_in_use() {
    let mut a = FrameAllocator::new_zeroed();
    a.init(BASE, BASE, 0x8_0000);
    a.reserve_region(BASE + 0x3000, 0x1000);
    assert_eq!(a.alloc_contiguous(0), None);
    assert_eq!(a.alloc_contiguous(4), Some(BASE + 0x4000));
    assert_eq!(a.alloc_contiguous(3), Some(BASE));
    assert_eq!(a.free_frames(), 128 - 8);
    assert_eq!(a.alloc_contiguous(121), None);
    assert_eq!(a.alloc_contiguous(120), Some(BASE + 0x8000));
    assert_eq!(a.free_frames(), 0);
}

#[test]
fn a_reservation_covers_whole_pages_inside_the_window() {
    let mut a = FrameAllocator::new_zeroed();
    a.init(BASE, BASE, 0x8000);
    a.reserve_region(BASE + 0x800, 0x2000);
    assert_eq!(a.free_frames(), 7);
    assert_eq!(a.alloc_one(), Some(BASE));
    assert_eq!(a.alloc_one(), Some(BASE + 0x2000));
    a.reserve_region(BASE + 0x6000, 0x10_0000);
    assert_eq!(a.free_frames(), 3);
    a.reserve_region(BASE - 0x4000, 0x2000);
    a.reserve_region(BASE + 0x9000, 0x4000);
    a.reserve_region(BASE + 0x3000, 0xFFF);
    assert_eq!(a.free_frames(), 3);
}

#[test]
fn an_address_names_one_entry_per_level() {
    let va = (3u64 << 39) | (5 << 30) | (7 << 21) | (9 << 12) | 0xABC;
    assert_eq!((l0_idx(va), l1_idx(va), l2_idx(va), l3_idx(va)), (3, 5, 7, 9));
    assert_eq!(l0_idx(u64::MAX), 511);
}

#[test]
fn a_table_holds_what_was_set() {
    let mut t = PageTable::empty();
    t.set_entry(511, 0x123);
    assert_eq!(t.entry(511), 0x123);
    assert_eq!(t.entry(0), 0);
    let mut u = PageTable::empty();
    u.copy_from(&t);
    t.zero();
    assert_eq!(t.entry(511), 0);
    assert_eq!(u.entry(511), 0x123);
}

#[test]
fn descriptor_flags_have_their_architectural_bits() {
    assert_eq!(FLAGS_KERNEL_RWX, 0x703);
    assert_eq!(FLAGS_USER_RWX, 0x743);
    assert_eq!(FLAGS_BLOCK_NORMAL, 0x701);
    assert_eq!(FLAGS_BLOCK_DEVICE, 0x60_0000_0000_0405);
    assert_eq!(FLAGS_USER_DEVICE, 0x60_0000_0000_0447);
    assert_eq!(FLAGS_KERNEL_RO, 0x60_0000_0000_0783);
    assert_eq!(FLAGS_KERNEL_RO & DESC_AP_RO_EL1, DESC_AP_RO_EL1);
}

#[test]
fn a_mapped_page_is_found() {
    let (mut s, mut f) = window(16);
    assert_eq!(kernel_l0_phys(&s), BASE);
    assert_eq!(tables_needed(&s, BASE, 0x900_0000, 0x1000, 1, 3, true), 3);
    map_page(&mut s, &mut f, 0x900_0000, 0x900_0000, FLAGS_BLOCK_DEVICE);
    assert_eq!(f.free_frames(), 12);
    assert_eq!(read_user_page(&s, BASE, 0x900_0000), 0x900_0000 | FLAGS_BLOCK_DEVICE | 2);
    assert_eq!(read_user_page(&s, BASE, 0x900_1000), 0);
    assert_eq!(tables_needed(&s, BASE, 0x900_1000, 0x1000, 1, 3, true), 0);
}

#[test]
fn a_range_is_rounded_up_to_pages() {
    let (mut s, mut f) = window(16);
    map_range(&mut s, &mut f, 0x1F_F000, 0x1001, FLAGS_KERNEL_RWX);
    assert_eq!(read_user_page(&s, BASE, 0x1F_F000), 0x1F_F000 | FLAGS_KERNEL_RWX);
    assert_eq!(read_user_page(&s, BASE, 0x20_0000), 0x20_0000 | FLAGS_KERNEL_RWX);
    assert_eq!(read_user_page(&s, BASE, 0x20_1000), 0);
    assert_eq!(f.free_frames(), 11);
}

#[test]
fn a_page_inside_a_block_is_left_alone() {
    let (mut s, mut f) = window(16);
    map_block(&mut s, &mut f, 0x4000_0000, 0x4000_0000, 0x40_0000, FLAGS_BLOCK_NORMAL);
    let free = f.free_frames();
    map_page(&mut s, &mut f, 0x4000_3000, 0x900_0000, FLAGS_BLOCK_DEVICE);
    assert_eq!(f.free_frames(), free);
    let root = clone_kernel_table(&mut s, &mut f);
    map_user_pages(&mut s, &mut f, root, 0x4000_4000, 0x1000, FLAGS_USER_RWX);
    assert_eq!(read_user_page(&s, root, 0x4000_3000), 0x4000_3000 | FLAGS_KERNEL_RWX);
}

#[test]
fn blocks_cross_a_gigabyte() {
    let (mut s, mut f) = window(32);
    map_block(&mut s, &mut f, 0x3FE0_0000, 0x3FE0_0000, 0x40_0000, FLAGS_BLOCK_NORMAL);
    let root = clone_kernel_table(&mut s, &mut f);
    map_user_pages(&mut s, &mut f, root, 0x3FFF_F000, 0x2000, FLAGS_USER_RWX);
    assert_eq!(read_user_page(&s, root, 0x3FFF_F000), 0x3FFF_F000 | FLAGS_USER_RWX);
    assert_eq!(read_user_page(&s, root, 0x4000_0000), 0x4000_0000 | FLAGS_USER_RWX);
    assert_eq!(read_user_page(&s, root, 0x4000_1000), 0x4000_1000 | FLAGS_KERNEL_RWX);
}

#[test]
fn a_split_block_keeps_the_attributes_of_its_other_pages() {
    let (mut s, mut f) = window(32);
    map_block(&mut s, &mut f, 0x20_0000, 0x20_0000, 0x20_0000, FLAGS_BLOCK_DEVICE);
    let root = clone_kernel_table(&mut s, &mut f);
    map_user_pages(&mut s, &mut f, root, 0x20_5000, 0x1000, FLAGS_USER_DEVICE);
    for page in 0..512u64 {
        let va = 0x20_0000 + 0x1000 * page;
        let flags = if page == 5 { FLAGS_USER_DEVICE } else { FLAGS_BLOCK_DEVICE | 2 };
        assert_eq!(read_user_page(&s, root, va), va | flags);
    }
}

#[test]
fn a_cloned_table_is_given_back_whole() {
    let (mut s, mut f) = window(64);
    map_block(&mut s, &mut f, 0x4000_0000, 0x4000_0000, 0x20_0000, FLAGS_BLOCK_NORMAL);
    map_page(&mut s, &mut f, 0x900_0000, 0x900_0000, FLAGS_BLOCK_DEVICE);
    assert_eq!(kernel_table_count(&s), 5);
    let free = f.free_frames();
    let root = clone_kernel_table(&mut s, &mut f);
    assert_ne!(root, BASE);
    assert_eq!(f.free_frames(), free - 5);
    assert_eq!(read_user_page(&s, root, 0x900_0000), read_user_page(&s, BASE, 0x900_0000));
    map_user_pages(&mut s, &mut f, root, 0x4000_0000, 0x2000, FLAGS_USER_RWX);
    assert_eq!(f.free_frames(), free - 6);
    free_task_tables(&mut s, &mut f, root);
    assert_eq!(f.free_frames(), free);
    assert_eq!(read_user_page(&s, BASE, 0x900_0000), 0x900_0000 | FLAGS_BLOCK_DEVICE | 2);
}

#[test]
fn a_block_is_patched_in_place() {
    let (mut s, mut f) = window(32);
    map_block(&mut s, &mut f, 0x20_0000, 0x20_0000, 0x20_0000, FLAGS_BLOCK_DEVICE);
    let root = clone_kernel_table(&mut s, &mut f);
    set_user_block(&mut s, root, 0x20_0000, FLAGS_BLOCK_DEVICE | 0x40);
    map_user_pages(&mut s, &mut f, root, 0x20_0000, 0x1000, FLAGS_USER_RWX);
    assert_eq!(read_user_page(&s, root, 0x20_1000), 0x20_1000 | FLAGS_BLOCK_DEVICE | 0x42);
}

#[test]
fn a_frame_is_mapped_anywhere() {
    let (mut s, mut f) = window(32);
    let root = clone_kernel_table(&mut s, &mut f);
    map_user_frame(&mut s, &mut f, root, 0x7000_0000, BASE + 0x8000, FLAGS_USER_RWX);
    assert_eq!(read_user_page(&s, root, 0x7000_0000), (BASE + 0x8000) | FLAGS_USER_RWX);
    write_user_page(&mut s, root, 0x7000_0000, 0);
    assert_eq!(read_user_page(&s, root, 0x7000_0000), 0);
}

#[test]
fn windows_open_only_with_room() {
    let (mut s, mut f) = window(10);
    let root = clone_kernel_table(&mut s, &mut f);
    let ws = vec![
        Window { va: 0x900_0000, size: 0x1000, flags: FLAGS_USER_DEVICE },
        Window { va: 0xA00_0000, size: 0x2000, flags: FLAGS_USER_RWX },
    ];
    assert!(open_windows(&mut s, &mut f, root, &ws));
    assert_eq!(read_user_page(&s, root, 0x900_0000), 0x900_0000 | FLAGS_USER_DEVICE);
    assert_eq!(read_user_page(&s, root, 0xA00_1000), 0xA00_1000 | FLAGS_USER_RWX);
    while f.free_frames() > 1 {
        f.alloc_one();
    }
    let far = vec![Window { va: 0x80_0000_0000, size: 0x1000, flags: FLAGS_USER_RWX }];
    assert!(!open_windows(&mut s, &mut f, root, &far));
    assert_eq!(read_user_page(&s, root, 0x80_0000_0000), 0);
}

#[test]
fn the_identity_map_covers_memory_and_devices() {
    let m = machine(false);
    let requests = identity_map(&m, 0x4000_0000, 0x1000_0000);
    let ranges: Vec<(u64, u64, u64, bool)> =
        requests.iter().map(|r| (r.base, r.size, r.flags, r.blocks)).collect();
    assert_eq!(
        ranges,
        vec![
            (0x4000_0000, 0x1000_0000, FLAGS_BLOCK_NORMAL, true),
            (0x800_0000, 0x20_0000, FLAGS_BLOCK_DEVICE, false),
            (0x80A_0000, 0x20_0000, FLAGS_BLOCK_DEVICE, false),
            (0x900_0000, 0x1000, FLAGS_BLOCK_DEVICE, false),
            (0xA00_0000, 0x20_0000, FLAGS_BLOCK_DEVICE, false),
        ]
    );
    assert_eq!(identity_map(&machine(true), 0x100_0000_0000, 0x4000_0000).len(), 4);
}

#[test]
fn memory_is_identity_mapped() {
    let (mut s, mut f) = window(64);
    assert!(enable(&mut s, &mut f, &machine(false), 0x4000_0000, 0x1000_0000));
    assert_eq!(read_user_page(&s, BASE, 0x900_0000), 0x900_0000 | FLAGS_BLOCK_DEVICE | 2);
    assert_eq!(read_user_page(&s, BASE, 0x80A_0000), 0x80A_0000 | FLAGS_BLOCK_DEVICE | 2);
    let root = clone_kernel_table(&mut s, &mut f);
    map_user_pages(&mut s, &mut f, root, 0x4FFF_F000, 0x1000, FLAGS_USER_RWX);
    assert_eq!(read_user_page(&s, root, 0x4FFF_E000), 0x4FFF_E000 | FLAGS_KERNEL_RWX);
}

#[test]
fn memory_is_read_and_written_in_place() {
    let mut r = Ram::new(0x1000, vec![0xEE; 32]);
    assert!(r.contains(0x1000, 32));
    assert!(!r.contains(0x1001, 32));
    assert!(!r.contains(0xFFF, 1));
    r.write(0x1002, &[1, 2, 3, 4]);
    assert_eq!(r.read8(0x1002), 1);
    assert_eq!(r.read16(0x1003), 0x0302);
    assert_eq!(r.read32(0x1001), 0x0302_01EE);
    r.write64(0x1008, 0x1122_3344_5566_7788);
    assert_eq!(r.read64(0x1008), 0x1122_3344_5566_7788);
    r.write32(0x1008, 0xDEAD_BEEF);
    assert_eq!(r.read64(0x1008), 0x1122_3344_DEAD_BEEF);
    r.zero(0x1009, 2);
    assert_eq!(r.slice(0x1008, 4), &[0xEF, 0, 0, 0xDE]);
}

const NONE: [Option<Region>; 4] = [None; 4];

fn regions() -> [Option<Region>; 4] {
    [
        Some(Region { kind: RegionKind::Stack, base: 0x4000_8000, pages: 2 }),
        Some(Region { kind: RegionKind::Demand, base: 0x7000_0000, pages: 4 }),
        None,
        None,
    ]
}

#[test]
fn faults_are_classified() {
    let rs = regions();
    let cow = 0x4000_0000 | FLAGS_USER_COW;
    let stale = (0x4000_0000 | FLAGS_USER_RWX) & !DESC_AF;
    assert!(classify(&rs, 0x4000_8000, 0x07, 0) == FaultAction::GrowStack);
    assert!(classify(&rs, 0x4000_9000, 0x04, 0) == FaultAction::GrowStack);
    assert!(classify(&rs, 0x4000_A000, 0x07, 0) == FaultAction::Decline);
    assert!(classify(&rs, 0x7000_3000, 0x07, 0) == FaultAction::MapZero);
    assert!(classify(&NONE, 0x7000_3000, 0x07, 0) == FaultAction::Decline);
    assert!(classify(&rs, 0x7000_0000, 0x0F, cow) == FaultAction::Split);
    assert!(classify(&rs, 0x7000_0000, 0x17, cow) == FaultAction::Split);
    assert!(classify(&rs, 0x7000_0000, 0x17, cow & !DESC_VALID) == FaultAction::Decline);
    assert!(classify(&rs, 0x7000_0000, 0x17, stale) == FaultAction::Decline);
    assert!(classify(&rs, 0x7000_0000, 0x0C, stale) == FaultAction::SetAccess);
    assert!(classify(&rs, 0x7000_0000, 0x0C, stale | DESC_AF) == FaultAction::Decline);
    assert!(classify(&rs, 0x7000_0000, 0x00, cow) == FaultAction::Decline);
    assert!(classify(&rs, 0x7000_0000, 0x18, cow) == FaultAction::Decline);
}

#[test]
fn demand_pages_share_the_zero_page_until_written() {
    let (mut s, mut f) = window(32);
    let root = clone_kernel_table(&mut s, &mut f);
    let zero = f.alloc_one().unwrap();
    let rs = regions();
    assert!(resolve_user_fault(&mut s, &mut f, root, &rs, zero, 0x7000_1234, 0x9200_0007));
    assert_eq!(read_user_page(&s, root, 0x7000_1000), zero | FLAGS_USER_COW);
    let free = f.free_frames();
    assert!(resolve_user_fault(&mut s, &mut f, root, &rs, zero, 0x7000_1238, 0x9200_004F));
    let entry = read_user_page(&s, root, 0x7000_1000);
    assert_eq!(f.free_frames(), free - 1);
    assert_eq!(entry & DESC_COW_TAG, 0);
    assert_eq!(entry & 0xFFF, FLAGS_USER_RWX);
    assert_ne!(entry & 0xFFFF_FFFF_F000, zero);
}

#[test]
fn a_stack_grows_page_by_page() {
    let (mut s, mut f) = window(32);
    let root = clone_kernel_table(&mut s, &mut f);
    let rs = regions();
    assert!(resolve_user_fault(&mut s, &mut f, root, &rs, BASE, 0x4000_9FF8, 0x07));
    assert_eq!(read_user_page(&s, root, 0x4000_9000), 0x4000_9000 | FLAGS_USER_RWX);
    assert_eq!(read_user_page(&s, root, 0x4000_8000), 0);
    assert!(!resolve_user_fault(&mut s, &mut f, root, &rs, BASE, 0x4000_7FF8, 0x07));
}

#[test]
fn a_write_to_a_shared_page_needs_a_frame() {
    let (mut s, mut f) = window(8);
    let root = clone_kernel_table(&mut s, &mut f);
    let zero = f.alloc_one().unwrap();
    let rs = regions();
    assert!(resolve_user_fault(&mut s, &mut f, root, &rs, zero, 0x7000_0000, 0x07));
    while f.alloc_one().is_some() {}
    assert!(!resolve_user_fault(&mut s, &mut f, root, &rs, zero, 0x7000_0000, 0x0F));
    assert_eq!(read_user_page(&s, root, 0x7000_0000), zero | FLAGS_USER_COW);
}

#[test]
fn kernel_faults_are_not_repaired() {
    let (mut s, mut f) = window(8);
    assert!(!resolve_user_fault(&mut s, &mut f, 0, &regions(), BASE, 0x7000_0000, 0x07));
    let root = clone_kernel_table(&mut s, &mut f);
    assert!(!resolve_user_fault(&mut s, &mut f, root, &NONE, BASE, 0x7000_0000, 0x07));
}

#[test]
fn a_stale_page_gets_its_access_flag() {
    let (mut s, mut f) = window(16);
    let root = clone_kernel_table(&mut s, &mut f);
    map_user_frame(&mut s, &mut f, root, 0x5000_0000, 0x5000_0000, FLAGS_USER_RWX & !DESC_AF);
    assert!(resolve_user_fault(&mut s, &mut f, root, &NONE, BASE, 0x5000_0008, 0x0B + 4));
    assert_eq!(read_user_page(&s, root, 0x5000_0000), 0x5000_0000 | FLAGS_USER_RWX);
}
