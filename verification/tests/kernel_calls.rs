use tanix::arch::aarch64::machine::machine;
use tanix::arch::aarch64::uart::LogLevel;
use tanix::ipc::frames::{
    may_free, may_share, sys_alloc_frames, sys_free_frames, sys_map_device, sys_share_frames,
    sys_unshare_frames,
};
use tanix::ipc::process::{read_cstr, sys_exec, sys_exit_task, sys_spawn, sys_who};
use tanix::ipc::syscall::{
    decode, irq_arrived, sleep_done, sys_irq_pending, sys_log, sys_sleep, sys_wait_irq, Call,
    Effect, Inputs, IrqWait, Kernel, Reply, SYS_ALLOC_FRAMES, SYS_EXEC, SYS_EXIT, SYS_EXIT_TASK,
    SYS_FREE_FRAMES, SYS_IRQ_PENDING, SYS_LOG, SYS_MAP_DEVICE, SYS_RECEIVE, SYS_SEND,
    SYS_SHARE_FRAMES, SYS_SLEEP, SYS_SPAWN, SYS_UNSHARE_FRAMES, SYS_WAIT_IRQ, SYS_WHO, SYS_YIELD,
};
use tanix::irq::{note_pending, pending, PendingIrqs};
use tanix::mem::frame::FrameAllocator;
use tanix::mem::mapping::read_user_page;
use tanix::mem::page_table::{TableSpace, FLAGS_KERNEL_RWX, FLAGS_USER_DEVICE, FLAGS_USER_RWX};
use tanix::mem::ram::Ram;
use tanix::sched::run::RunQueue;
use tanix::sched::{Message, TaskId, TaskState, M_ANY};
use tanix::server::{
    available, cap_permits, cap_window_for, reserve_regions, server_link_base, server_priority,
    Host, ServerImage,
};

const BASE: u64 = 0x4100_0000;
const SIZE: u64 = 0x40_0000;
const ROOT: u64 = 0x4124_0000;

/// An ELF image of one segment of `bytes` at `base`, which takes up `memsz` bytes.
fn elf(base: u64, bytes: &[u8], memsz: u64) -> Vec<u8> {
    let mut v = vec![0u8; 120];
    v[0..4].copy_from_slice(&[0x7F, 0x45, 0x4C, 0x46]);
    v[4] = 2;
    v[5] = 1;
    v[18..20].copy_from_slice(&183u16.to_le_bytes());
    v[24..32].copy_from_slice(&(base + 4).to_le_bytes());
    v[32..40].copy_from_slice(&64u64.to_le_bytes());
    v[54..56].copy_from_slice(&56u16.to_le_bytes());
    v[56..58].copy_from_slice(&1u16.to_le_bytes());
    v[64..68].copy_from_slice(&1u32.to_le_bytes());
    v[72..80].copy_from_slice(&120u64.to_le_bytes());
    v[80..88].copy_from_slice(&base.to_le_bytes());
    v[96..104].copy_from_slice(&(bytes.len() as u64).to_le_bytes());
    v[104..112].copy_from_slice(&memsz.to_le_bytes());
    v.extend_from_slice(bytes);
    v
}

fn host() -> Host {
    let mut frames = FrameAllocator::new_zeroed();
    frames.init(ROOT + 0x1000, BASE, SIZE);
    Host {
        machine: machine(false),
        space: TableSpace::new(BASE, (SIZE / 4096) as usize, ROOT),
        frames,
        ram: Ram::new(BASE, vec![0xEE; SIZE as usize]),
        q: RunQueue::new(),
    }
}

/// A host on which `init` runs on CPU 0, in its own address space.
fn with_init() -> (Host, u64) {
    let mut h = host();
    let image = elf(BASE, &[1, 2, 3, 4, 5], 0x1800);
    let bins = [ServerImage { name: "init", image: &image }];
    h.spawn_by_name(&bins, "init").unwrap();
    h.q.enter(0).unwrap();
    let root = h.q.sched.task_at(1).unwrap().ttbr0;
    (h, root)
}

#[test]
fn servers_have_fixed_bases_and_priorities() {
    let virt = machine(false);
    assert_eq!(server_link_base(&virt, "init"), 0x4100_0000);
    assert_eq!(server_link_base(&virt, "wm"), 0x4110_0000);
    assert_eq!(server_link_base(&virt, "fs"), 0x4122_0000);
    assert_eq!(server_link_base(&virt, "nobody"), 0);
    assert_eq!(server_link_base(&machine(true), "init"), 0x4100_0000 + 0xFF_C200_0000);
    assert_eq!(server_priority("display"), 32);
    assert_eq!(server_priority("hog"), 192);
    assert_eq!(server_priority("ramfs"), 64);
    assert_eq!(server_priority("nobody"), 128);
    assert!(!available(&[]));
    assert!(available(&[ServerImage { name: "pm", image: &[] }]));
}

#[test]
fn device_windows_need_a_grant() {
    let virt = machine(false);
    let sbsa = machine(true);
    assert_eq!(cap_window_for(&virt, "dev", 0), Some((0x900_0000, 0x1000)));
    assert_eq!(cap_window_for(&sbsa, "dev", 0), Some((0x6000_0000, 0x1000)));
    assert_eq!(cap_window_for(&virt, "dev", 1), None);
    assert_eq!(cap_window_for(&virt, "net", 0), Some((0x3F00_0000, 0x100_0000)));
    assert_eq!(cap_window_for(&sbsa, "fs", 1), Some((0xC000_0000, 0x3000_0000)));
    assert_eq!(cap_window_for(&virt, "display", 0), Some((0xA00_0000, 0x4000)));
    assert_eq!(cap_window_for(&sbsa, "display", 0), None);
    assert_eq!(cap_window_for(&virt, "init", 0), None);
    assert!(cap_permits(&virt, "net", 0x3F00_1000, 0x1000));
    assert!(cap_permits(&virt, "net", 0x1000_0000, 0x3000_0000));
    assert!(!cap_permits(&virt, "net", 0x3FFF_F000, 0x2000));
    assert!(!cap_permits(&virt, "net", 0x900_0000, 0x1000));
    assert!(!cap_permits(&virt, "dev", 0x900_0000, u64::MAX));
}

#[test]
fn server_regions_are_not_handed_out() {
    let mut f = FrameAllocator::new_zeroed();
    f.init(0x40FF_F000, 0x40FF_F000, 0x25_0000);
    reserve_regions(&machine(false), &mut f);
    assert_eq!(f.alloc_one(), Some(0x40FF_F000));
    assert_eq!(f.alloc_one(), Some(0x4124_0000));
}

#[test]
fn a_server_starts_in_its_region() {
    let (h, root) = with_init();
    let t = h.q.sched.task_at(1).unwrap();
    assert_eq!(t.name_str(), "init");
    assert_eq!((t.id, t.priority), (TaskId(1), 128));
    assert_eq!((t.ctx.lr, t.ctx.sp), (BASE + 4, BASE + 0x2_0000));
    assert_eq!((t.ctx.sp_el0, t.ctx.x19_to_x28[0]), (BASE + 0x7000, BASE + 0x2000));
    let stack = t.regions[0].unwrap();
    assert_eq!((stack.base, stack.pages), (BASE + 0x3000, 4));
    assert_eq!(h.ram.slice(BASE, 8), &[1, 2, 3, 4, 5, 0, 0, 0]);
    assert_eq!(h.ram.read8(BASE + 0x1_FFFF), 0);
    assert_eq!(h.ram.read8(BASE + 0x2_0000), 0xEE);
    assert_eq!(h.ram.read32(BASE + 0x2000), 1);
    for page in [0, 0x1000, 0x2000, 0x6000] {
        assert_eq!(read_user_page(&h.space, root, BASE + page), (BASE + page) | FLAGS_USER_RWX);
    }
    for page in [0x3000, 0x5000, 0x7000, 0x1_F000] {
        assert_eq!(read_user_page(&h.space, root, BASE + page), 0);
    }
}

#[test]
fn a_server_that_cannot_start_is_an_error() {
    let mut h = host();
    let good = elf(BASE, &[1], 0x1000);
    let wrong = elf(BASE, &[1], 0x10_0000);
    let bins = [
        ServerImage { name: "init", image: &good },
        ServerImage { name: "pm", image: &wrong },
        ServerImage { name: "stranger", image: &good },
    ];
    assert_eq!(h.spawn_by_name(&bins, "shell"), Err(-7));
    assert_eq!(h.spawn_by_name(&bins, "stranger"), Err(-7));
    assert_eq!(h.spawn_by_name(&bins, "pm"), Err(-9));
    while h.frames.free_frames() > 0 {
        h.frames.alloc_one();
    }
    assert_eq!(h.spawn_by_name(&bins, "init"), Err(-13));
    let mut h = host();
    while h.q.sched.spawn("t", 1, 2, 3).is_some() {}
    assert_eq!(h.spawn_by_name(&bins, "init"), Err(-8));
}

#[test]
fn the_display_gets_its_window_on_virt_only() {
    let mut h = host();
    let image = elf(0x410A_0000, &[1], 0x1000);
    let bins = [ServerImage { name: "display", image: &image }];
    h.spawn_by_name(&bins, "display").unwrap();
    let t = h.q.sched.task_at(1).unwrap();
    assert_eq!(t.priority, 32);
    assert_eq!(read_user_page(&h.space, t.ttbr0, 0xA00_3000), 0xA00_3000 | FLAGS_USER_DEVICE);
    assert_eq!(read_user_page(&h.space, t.ttbr0, 0xA00_4000), 0);
}

#[test]
fn an_allocated_run_is_usable() {
    let (mut h, root) = with_init();
    let free = h.frames.free_frames();
    let base = sys_alloc_frames(&mut h, 0, 3);
    assert_ne!(base, 0);
    for i in 0..3 {
        let va = base + 0x1000 * i;
        assert_eq!(read_user_page(&h.space, root, va), va | FLAGS_USER_RWX);
    }
    assert_eq!(sys_free_frames(&mut h, 0, base, 3), 0);
    assert_eq!(read_user_page(&h.space, root, base), base | FLAGS_KERNEL_RWX);
    assert!(h.frames.free_frames() <= free);
    assert_eq!(sys_alloc_frames(&mut h, 0, 0), 0);
    assert_eq!(sys_alloc_frames(&mut h, 0, 100_000), 0);
}

#[test]
fn frames_are_shared_with_another_task() {
    let (mut h, root) = with_init();
    let kernel_task = h.q.sched.spawn("k", 1, 2, 3).unwrap();
    let base = 0x4130_0000;
    assert_eq!(sys_share_frames(&mut h, 0, 1, 1), -11);
    assert_eq!(sys_share_frames(&mut h, base, 0, 1), -11);
    assert_eq!(sys_share_frames(&mut h, base, 4097, 1), -11);
    assert_eq!(sys_share_frames(&mut h, base, 1, 77), -3);
    assert_eq!(sys_share_frames(&mut h, base, 1, kernel_task.0), 0);
    assert_eq!(read_user_page(&h.space, root, base), 0);
    assert_eq!(sys_share_frames(&mut h, base, 2, 1), 0);
    assert_eq!(read_user_page(&h.space, root, base + 0x1000), (base + 0x1000) | FLAGS_USER_RWX);
    assert_eq!(sys_unshare_frames(&mut h, base, 2, 1), 0);
    assert_eq!(read_user_page(&h.space, root, base + 0x1000), (base + 0x1000) | FLAGS_KERNEL_RWX);
    assert_eq!(sys_unshare_frames(&mut h, base, 2, 77), -3);
    assert_eq!(sys_unshare_frames(&mut h, 0, 2, 1), -11);
    assert_eq!(sys_share_frames(&mut h, base + 1, 0, 1), -11);
    assert_eq!(sys_share_frames(&mut h, base + 1, 1, 77), -3);
}

#[test]
fn a_run_to_share_is_whole_pages() {
    let (mut h, _) = with_init();
    let kernel_task = h.q.sched.spawn("k", 1, 2, 3).unwrap();
    let base = 0x4130_0000;
    assert!(may_share(&h, base, 2, 1));
    assert!(!may_share(&h, base + 1, 2, 1));
    assert!(!may_share(&h, 0xFFFF_FFFF_F000, 2, 1));
    assert!(may_share(&h, 0xFFFF_FFFF_F000, 1, 1));
    assert!(may_share(&h, base + 1, 0, 1));
    assert!(may_share(&h, base + 1, 2, 77));
    assert!(may_share(&h, base + 1, 2, kernel_task.0));
}

#[test]
fn nothing_is_given_back_of_an_empty_run() {
    let (mut h, _) = with_init();
    let free = h.frames.free_frames();
    assert_eq!(sys_free_frames(&mut h, 0, 1, 0), 0);
    assert_eq!(h.frames.free_frames(), free);
}

#[test]
fn a_run_to_give_back_holds_no_tables() {
    let (mut h, root) = with_init();
    let base = sys_alloc_frames(&mut h, 0, 2);
    assert!(base != 0);
    assert!(may_free(&h, 0, base, 2));
    assert!(!may_free(&h, 0, base + 1, 2));
    assert!(!may_free(&h, 0, BASE - 0x1000, 2));
    assert!(!may_free(&h, 0, BASE + SIZE - 0x1000, 2));
    assert!(!may_free(&h, 0, root, 1));
    assert!(!may_free(&h, 0, ROOT, 1));
    assert!(may_free(&h, 0, root + 1, 0));
    assert_eq!(sys_free_frames(&mut h, 0, base, 2), 0);
    let free = h.frames.free_frames();
    assert!(may_free(&h, 0, base, 2));
    assert_eq!(sys_free_frames(&mut h, 0, base, 2), 0);
    assert_eq!(h.frames.free_frames(), free);
    let first = ((base - BASE) / 4096) as usize;
    assert!(h.frames.is_free(first) && !h.space.holds_table(first));
    let table = ((root - BASE) / 4096) as usize;
    assert!(!h.frames.is_free(table) && h.space.holds_table(table));
}

#[test]
fn a_server_may_be_spawned_where_its_image_fits() {
    let h = host();
    let image = elf(0x4100_0000, &[1], 0x1000);
    let bins = [ServerImage { name: "init", image: &image }];
    assert!(h.may_spawn(&bins, "init"));
    assert!(h.may_spawn(&bins, "no-such-server"));
    let large = elf(0x4100_0000, &[1], 0x2_0000);
    assert!(!h.may_spawn(&[ServerImage { name: "init", image: &large }], "init"));
}

#[test]
fn a_server_without_an_image_needs_no_region() {
    let mut h = host();
    h.ram = Ram::new(BASE, vec![0xEE; 0x1000]);
    let image = elf(0x4100_0000, &[1], 0x1000);
    let bins = [ServerImage { name: "init", image: &image }];
    assert!(!h.may_spawn(&bins, "init"));
    assert!(h.may_spawn(&bins, "shell"));
    assert_eq!(h.spawn_by_name(&bins, "shell"), Err(-7));
    assert_eq!(h.ram.slice(BASE, 0x1000), [0xEE; 0x1000]);
}

#[test]
fn a_device_is_mapped_for_its_owner() {
    let mut h = host();
    let image = elf(0x4106_0000, &[1], 0x1000);
    let bins = [ServerImage { name: "dev", image: &image }];
    h.spawn_by_name(&bins, "dev").unwrap();
    h.q.enter(0).unwrap();
    let root = h.q.sched.task_at(1).unwrap().ttbr0;
    assert_eq!(sys_map_device(&mut h, 0, 0x900_0001, 1), -12);
    assert_eq!(sys_map_device(&mut h, 0, 0x900_0000, 0), -12);
    assert_eq!(sys_map_device(&mut h, 0, 0x900_0000, 65537), -12);
    assert_eq!(sys_map_device(&mut h, 0, 0x900_0000, 2), -12);
    assert_eq!(sys_map_device(&mut h, 0, 0x3F00_0000, 1), -12);
    assert_eq!(sys_map_device(&mut h, 0, 0x900_0000, 1), 0);
    assert_eq!(read_user_page(&h.space, root, 0x900_0000), 0x900_0000 | FLAGS_USER_DEVICE);
    assert_ne!(read_user_page(&h.space, ROOT, 0x900_0000), 0);
}

#[test]
fn a_name_argument_ends_with_a_nul() {
    assert_eq!(read_cstr(b"init\0rest of memory"), Some("init"));
    assert_eq!(read_cstr(b"fifteen-letters\0"), Some("fifteen-letters"));
    assert_eq!(read_cstr(b"sixteen--letters\0"), None);
    assert_eq!(read_cstr(&[0xFF, 0]), None);
}

#[test]
fn a_server_is_found_started_and_replaced() {
    let (mut h, _) = with_init();
    let pm = elf(0x4102_0000, &[9], 0x1000);
    let bins = [ServerImage { name: "pm", image: &pm }];
    assert_eq!(sys_who(&h, b"pm\0"), -1);
    assert_eq!(sys_who(&h, b"init\0"), 1);
    assert_eq!(sys_who(&h, &[0xFF, 0]), -1);
    assert_eq!(sys_spawn(&mut h, &bins, b"sixteen--letters\0"), -5);
    assert_eq!(sys_spawn(&mut h, &bins, b"net\0"), -7);
    assert_eq!(sys_spawn(&mut h, &bins, b"pm\0"), 2);
    assert_eq!(sys_who(&h, b"pm\0"), 2);
    let free = h.frames.free_frames();
    assert_eq!(sys_exec(&mut h, 0, &bins, b"pm\0"), 3);
    assert_eq!(h.frames.free_frames(), free);
    assert!(h.q.sched.task_by_id(TaskId(2)).unwrap().state == TaskState::Zombie);
    assert_eq!(sys_who(&h, b"pm\0"), 3);
    assert_eq!(sys_exec(&mut h, 0, &bins, &[0xFF, 0]), -5);
    assert_eq!(sys_exec(&mut h, 0, &bins, b"net\0"), -7);
    assert_eq!(sys_exit_task(&mut h, 0, 3), 0);
    assert_eq!(sys_exit_task(&mut h, 0, 99), -3);
    assert_eq!(sys_who(&h, b"pm\0"), -1);
}

#[test]
fn interrupts_are_waited_for() {
    let (mut h, _) = with_init();
    let mut irqs = PendingIrqs::new();
    assert!(matches!(sys_wait_irq(&mut h.q, &mut irqs, 0, 15, 0), IrqWait::Refused));
    assert!(matches!(sys_wait_irq(&mut h.q, &mut irqs, 0, 1020, 0), IrqWait::Refused));
    assert!(matches!(sys_wait_irq(&mut h.q, &mut irqs, 0, 48, 0), IrqWait::Sleep(_)));
    assert_eq!(h.q.sched.task_at(1).unwrap().irq_wait, Some(48));
    assert!(!irq_arrived(&mut h.q, &mut irqs, 0, 48));
    note_pending(&mut irqs, 48);
    assert!(irq_arrived(&mut h.q, &mut irqs, 0, 48));
    assert!(!pending(&irqs, 48));
    assert_eq!(h.q.sched.task_at(1).unwrap().irq_wait, None);
    note_pending(&mut irqs, 48);
    assert!(matches!(sys_wait_irq(&mut h.q, &mut irqs, 0, 48, 0), IrqWait::Delivered(_)));
    assert_eq!(sys_irq_pending(&mut irqs, 0, 48, 0).0, 0);
    note_pending(&mut irqs, 48);
    assert_eq!(sys_irq_pending(&mut irqs, 0, 48, 0).0, 1);
    assert_eq!(sys_irq_pending(&mut irqs, 0, 48, 0).0, 0);
    assert_eq!(sys_irq_pending(&mut irqs, 0, 5, 0).0, -10);
    note_pending(&mut irqs, 96);
    assert_eq!(sys_irq_pending(&mut irqs, 0, 96, 0).0, 0);
    assert_eq!(sys_irq_pending(&mut irqs, 0, 1019, 0).0, 0);
}

#[test]
fn a_sleep_is_clamped_and_ends() {
    let (mut h, _) = with_init();
    let sw = sys_sleep(&mut h.q, 0, 0, 100);
    assert_eq!((sw.from, sw.to), (1, 0));
    assert_eq!(h.q.sched.task_at(1).unwrap().sleep_deadline, 101);
    assert!(!h.q.wake_sleepers(100));
    assert!(h.q.wake_sleepers(101));
    h.q.enter(0).unwrap();
    sleep_done(&mut h.q, 0);
    assert_eq!(h.q.sched.task_at(1).unwrap().sleep_deadline, 0);
    sys_sleep(&mut h.q, 0, u32::MAX, u64::MAX - 5);
    assert_eq!(h.q.sched.task_at(1).unwrap().sleep_deadline, u64::MAX);
    h.q.sched.set_state(1, TaskState::Ready);
    h.q.enter(0).unwrap();
    sys_sleep(&mut h.q, 0, u32::MAX, 0);
    assert_eq!(h.q.sched.task_at(1).unwrap().sleep_deadline, 60_000);
}

#[test]
fn log_lines_bear_the_name_of_the_task() {
    let (h, _) = with_init();
    let (level, text) = sys_log(&h.q, 0, 0, b"hello\0world");
    assert!(level == LogLevel::Info);
    assert_eq!(text, b"[init] hello");
    assert!(sys_log(&h.q, 0, 1, b"\0").0 == LogLevel::Warn);
    let (level, text) = sys_log(&h.q, 0, 2, &[0xFF, 0]);
    assert!(level == LogLevel::Error);
    assert_eq!(text, b"[init] ?");
    let long = [b'x'; 300];
    assert_eq!(sys_log(&h.q, 0, 0, &long).1.len(), 7 + 256);
}

#[test]
fn call_numbers_are_decoded() {
    assert!(matches!(decode(SYS_SEND, 0x1_0000_0002, 0x30, 0), Call::Send { dst: 2, msg: 0x30 }));
    assert!(matches!(decode(SYS_RECEIVE, u64::MAX, 0x30, 0), Call::Receive { filter: -1, out: 0x30 }));
    assert!(matches!(decode(SYS_SHARE_FRAMES, 1, 2, 3), Call::ShareFrames { base: 1, pages: 2, task: 3 }));
    assert!(matches!(decode(SYS_UNSHARE_FRAMES, 1, 2, 3), Call::UnshareFrames { base: 1, pages: 2, task: 3 }));
    assert!(matches!(decode(SYS_SLEEP, 7, 0, 0), Call::Sleep { ms: 7 }));
    assert!(matches!(decode(SYS_EXIT, 0, 0, 0), Call::Exit));
    assert!(matches!(decode(SYS_MAP_DEVICE, 8, 9, 0), Call::MapDevice { phys: 8, count: 9 }));
    assert!(matches!(decode(17, 0, 0, 0), Call::Unknown { nr: 17 }));
}

fn kernel() -> Kernel {
    Kernel { host: with_init().0, irqs: PendingIrqs::new() }
}

fn inputs(mem: &[u8]) -> Inputs<'_> {
    Inputs { msg: Message::new(5), mem, now: 10, igroup: 0 }
}

#[test]
fn every_call_gets_its_answer() {
    let mut k = kernel();
    let o = k.tanix_syscall(0, &[], SYS_WHO, 0, 0, 0, inputs(b"init\0"));
    assert!(matches!(o.reply, Reply::Value(1)));
    let o = k.tanix_syscall(0, &[], SYS_SPAWN, 0, 0, 0, inputs(b"pm\0"));
    assert!(matches!(o.reply, Reply::Value(v) if v == -7i64 as u64));
    let o = k.tanix_syscall(0, &[], SYS_EXEC, 0, 0, 0, inputs(&[0xFF, 0]));
    assert!(matches!(o.reply, Reply::Value(v) if v == -5i64 as u64));
    let o = k.tanix_syscall(0, &[], SYS_EXIT_TASK, 9, 0, 0, inputs(&[]));
    assert!(matches!(o.reply, Reply::Value(v) if v == -3i64 as u64));
    let o = k.tanix_syscall(0, &[], SYS_LOG, 0, 0, 0, inputs(b"hi\0"));
    assert!(matches!(o.effect, Effect::Log(LogLevel::Info, ref t) if t == b"[init] hi"));
    let o = k.tanix_syscall(0, &[], SYS_YIELD, 0, 0, 0, inputs(&[]));
    assert!(matches!(o.reply, Reply::Value(0)) && o.switch.is_none());
    let o = k.tanix_syscall(0, &[], 99, 0, 0, 0, inputs(&[]));
    assert!(matches!(o.reply, Reply::Value(0)));
    let line = b"syscall: task 'init' invoked unknown syscall 99";
    assert!(matches!(o.effect, Effect::Log(LogLevel::Error, ref t) if t == line));
    let o = k.tanix_syscall(0, &[], SYS_IRQ_PENDING, 48, 0, 0, inputs(&[]));
    assert!(matches!(o.reply, Reply::Value(0)));
    let o = k.tanix_syscall(0, &[], SYS_WAIT_IRQ, 48, 0, 0, inputs(&[]));
    assert!(matches!(o.reply, Reply::OnIrq(48)));
    let o = k.tanix_syscall(0, &[], SYS_SEND, 1, 0, 0, inputs(&[]));
    assert!(matches!(o.reply, Reply::Value(v) if v == -2i64 as u64));
    let o = k.tanix_syscall(0, &[], SYS_ALLOC_FRAMES, 2, 0, 0, inputs(&[]));
    let base = match o.reply {
        Reply::Value(v) => v,
        _ => panic!("frames are given at once"),
    };
    let o = k.tanix_syscall(0, &[], SYS_FREE_FRAMES, base, 2, 0, inputs(&[]));
    assert!(matches!(o.reply, Reply::Value(0)));
    let o = k.tanix_syscall(0, &[], SYS_MAP_DEVICE, 0x900_0000, 1, 0, inputs(&[]));
    assert!(matches!(o.reply, Reply::Value(v) if v == -12i64 as u64));
}

#[test]
fn a_blocking_call_hands_over_the_cpu() {
    let mut k = kernel();
    k.host.q.sched.spawn("k", 1, 2, 3).unwrap();
    let o = k.tanix_syscall(0, &[], SYS_RECEIVE, M_ANY as u64, 0x100, 0, inputs(&[]));
    assert!(matches!(o.reply, Reply::SenderOf(0x100)));
    let sw = o.switch.unwrap();
    assert_eq!((sw.from, sw.to), (1, 2));
    let o = k.tanix_syscall(0, &[], SYS_SEND, 1, 0, 0, inputs(&[]));
    assert!(matches!(o.reply, Reply::Value(0)));
    assert!(matches!(o.effect, Effect::Deliver(d, _) if d.msg.src == 2 && d.buf == 0x100));
    let o = k.tanix_syscall(0, &[], SYS_SLEEP, 5, 0, 0, inputs(&[]));
    assert!(matches!(o.reply, Reply::WhenAwake) && o.switch.is_some());
    let o = k.tanix_syscall(0, &[], SYS_EXIT, 0, 0, 0, inputs(&[]));
    assert!(matches!(o.reply, Reply::Never));
    assert!(k.host.q.sched.task_at(1).unwrap().state == TaskState::Zombie);
}

#[test]
fn a_woken_task_of_higher_priority_runs_before_the_caller_returns() {
    let mut k = kernel();
    let id = k.host.q.sched.spawn("k", 1, 2, 3).unwrap();
    k.tanix_syscall(0, &[], SYS_RECEIVE, M_ANY as u64, 0x100, 0, inputs(&[]));
    k.host.q.sched.set_priority(TaskId(1), 32);
    assert_eq!(id, TaskId(2));
    let o = k.tanix_syscall(0, &[], SYS_SEND, 1, 0, 0, inputs(&[]));
    let sw = o.switch.unwrap();
    assert_eq!((sw.from, sw.to), (2, 1));
}
