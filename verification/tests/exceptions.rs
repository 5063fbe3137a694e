use tanix::arch::aarch64::exception::{
    abort_text, esr_ec, exception_handler, fatal_text, fault_walk, from_el0, guest_fault_report,
    irq_handler, sync_action, unhandled_text, FatalGuard, FaultRegs, IrqDone, IrqEvent, SyncAction,
};
use tanix::arch::aarch64::fault::{sync_handler, SyncDone, SyncEvent, FRAME_WORDS};
use tanix::arch::aarch64::machine::machine;
use tanix::arch::aarch64::timer::TickCounter;
use tanix::hypervisor::backend::{BareMetalBackend, GuestFrame, GuestTick};
use tanix::hypervisor::doorbell::{DoorbellTable, Services, DOORBELL_QUERY};
use tanix::hypervisor::{GuestEnv, HvcReply, Hypervisor, VmConfig};
use tanix::irq::{pending, PendingIrqs};
use tanix::mem::address_space::clone_kernel_table;
use tanix::mem::frame::FrameAllocator;
use tanix::mem::mapping::{map_user_frame, read_user_page};
use tanix::mem::page_table::{TableSpace, FLAGS_USER_RWX};
use tanix::mem::ram::Ram;
use tanix::mem::vm_fault::FLAGS_USER_COW;
use tanix::sched::run::RunQueue;
use tanix::sched::task::RegionKind;
use tanix::sched::{BootInfo, TaskId, TaskState};
use tanix::server::Host;
use tanix::smp::{bring_up, released};

const BASE: u64 = 0x4000_0000;
const NO_REPLY: HvcReply = HvcReply { r0: 0, r1: 0, r2: 0, r3: 0 };

#[test]
fn the_exception_class_decides() {
    assert_eq!(esr_ec(0x9200_0047), 0x24);
    assert!(from_el0(0x3C0) && !from_el0(0x3C5));
    assert!(sync_action(0x16 << 26, 5, false) == SyncAction::Serve);
    assert!(sync_action(0x24 << 26, 0, true) == SyncAction::Repair);
    assert!(sync_action(0x24 << 26, 5, true) == SyncAction::ParkGuest);
    assert!(sync_action(0x24 << 26, 5, false) == SyncAction::Abort);
    assert!(sync_action(0x20 << 26, 0, false) == SyncAction::Kill);
    assert!(sync_action(0x20 << 26, 5, false) == SyncAction::Unhandled);
    assert!(sync_action(0, 0, false) == SyncAction::Kill);
}

#[test]
fn reports_are_spelled_out() {
    assert_eq!(
        guest_fault_report(0x96000045, 0x1000, 0xF00),
        b"GUESTfault ESR=0000000096000045\nGUESTfault ELR=0000000000001000\nGUESTfault FAR=0000000000000f00\n"
    );
    assert_eq!(
        abort_text(0x92000007, 0x1000, 0x20),
        b"guest abort EC=0x24 ESR=0x92000007 ELR=0x0000000000001000 FAR=0x0000000000000020"
    );
    assert_eq!(
        unhandled_text(0x2000000, 0x1000),
        b"unhandled sync exception EC=0x0 ESR=0x02000000 ELR=0x0000000000001000"
    );
    assert_eq!(
        fatal_text(4, 1, 2, 3),
        b"fatal exception kind=4 ESR=0x00000001 ELR=0x0000000000000002 FAR=0x0000000000000003"
    );
}

#[test]
fn only_the_first_fatal_exception_reports() {
    let mut g = FatalGuard::new();
    assert!(g.enter());
    assert!(!g.enter());
    assert!(!g.enter());
    let regs = FaultRegs { ttbr0: BASE, sctlr: 0x1005, current_el: 4 };
    let mut frame = [0u64; 22];
    frame[10] = 0x77;
    let text = exception_handler(4, 1, 2, 3, regs, &frame, [9, 8, 7, 6]);
    let text = String::from_utf8(text).unwrap();
    assert!(text.starts_with("\n!!EXC cur-syncESR=0000000000000001\nELR="));
    assert!(text.contains("\nEL=0000000000000001\nTTBR0=0000000040000000\ngX10=0000000000000077\n"));
    assert!(text.contains("\nL0=0000000000000009\n") && text.contains("\nL3=0000000000000006\n"));
    let text = exception_handler(2, 1, 2, 3, regs, &frame, [0; 4]);
    assert!(text.starts_with(b"\n!!EXC k=0000000000000002\n?ESR="));
}

fn host() -> (Host, u64) {
    let mut frames = FrameAllocator::new_zeroed();
    frames.init(BASE + 0x1000, BASE, 0x4_0000);
    let mut space = TableSpace::new(BASE, 64, BASE);
    let root = clone_kernel_table(&mut space, &mut frames);
    let mut q = RunQueue::new();
    let boot = BootInfo { task_id: 0, machine: 0 };
    let id = q.sched.spawn_user("app", 0x100, root, 0x200, 0x300, 0x400, boot).unwrap();
    q.sched.push_region_for(id, RegionKind::Demand, 0x7000_0000, 2);
    q.sched.spawn("other", 1, 2, 3);
    q.sched.take_woken();
    q.enter(0).unwrap();
    let ram = Ram::new(BASE, vec![0; 64]);
    (Host { machine: machine(false), space, frames, ram, q }, root)
}

fn services() -> Services<BareMetalBackend> {
    Services { hv: BareMetalBackend::new(), bells: DoorbellTable::new(), ram: Ram::new(0, Vec::new()) }
}

fn event(ec: u64, far: u64, guest: bool) -> SyncEvent {
    SyncEvent { cpu: 0, esr: ec << 26 | 7, elr: 0x1000, far, guest }
}

#[test]
fn page_tables_are_walked_for_a_report() {
    let (mut h, root) = host();
    map_user_frame(&mut h.space, &mut h.frames, root, 0x7000_0000, BASE + 0x5000, FLAGS_USER_RWX);
    let w = fault_walk(&h.space, root, 0x7000_0123);
    assert_eq!(w[3], (BASE + 0x5000) | FLAGS_USER_RWX);
    assert_eq!(w[0] & 3, 3);
    assert_eq!(fault_walk(&h.space, root, 0x80_0000_0000), [0; 4]);
}

#[test]
fn a_fault_in_a_demand_window_is_repaired() {
    let (mut h, root) = host();
    let zero = h.frames.alloc_one().unwrap();
    let mut frame = [0u64; FRAME_WORDS];
    let done = sync_handler(&mut h, &mut services(), &mut frame, event(0x24, 0x7000_1008, false), zero, NO_REPLY);
    assert!(matches!(done, SyncDone::Return(None)));
    assert_eq!(read_user_page(&h.space, root, 0x7000_1000), zero | FLAGS_USER_COW);
    assert!(h.q.sched.task_at(1).unwrap().state == TaskState::Running);
}

#[test]
fn a_wild_access_kills_its_task_alone() {
    let (mut h, _) = host();
    h.q.sched.set_woken(2);
    let mut frame = [0u64; FRAME_WORDS];
    let done = sync_handler(&mut h, &mut services(), &mut frame, event(0x24, 0xDEAD_0000, false), BASE, NO_REPLY);
    match done {
        SyncDone::Killed(text, sw) => {
            assert_eq!((sw.from, sw.to), (1, 2));
            assert_eq!(
                text,
                "EL0 fault: task TaskId(1) 'app' ESR=0x90000007 ELR=0x0000000000001000 FAR=0x00000000dead0000 \u{2014} killed".as_bytes()
            );
        }
        _ => panic!("nothing repairs this"),
    }
    assert!(h.q.sched.task_by_id(TaskId(1)).unwrap().state == TaskState::Zombie);
    assert!(h.q.sched.task_by_id(TaskId(2)).unwrap().state == TaskState::Running);
    assert_eq!(h.q.sched.take_woken(), Some(2));
}

#[test]
fn guests_are_served_or_parked() {
    let (mut h, _) = host();
    let mut frame = [0u64; FRAME_WORDS];
    frame[21] = 5;
    frame[0] = DOORBELL_QUERY;
    frame[1] = 1;
    let mut s = services();
    let bell = s.bells.register(1, 2).unwrap();
    let done = sync_handler(&mut h, &mut s, &mut frame, event(0x16, 0, true), BASE, NO_REPLY);
    assert!(matches!(done, SyncDone::Return(None)));
    assert_eq!((frame[0], frame[20]), (bell.0 as u64, 0x1004));
    let done = sync_handler(&mut h, &mut s, &mut frame, event(0x24, 0, true), BASE, NO_REPLY);
    assert!(matches!(done, SyncDone::Park(_)));
    let done = sync_handler(&mut h, &mut s, &mut frame, event(0x24, 0, false), BASE, NO_REPLY);
    assert!(matches!(done, SyncDone::Panic(ref t) if t.starts_with(b"guest abort")));
    let done = sync_handler(&mut h, &mut s, &mut frame, event(0, 0, false), BASE, NO_REPLY);
    assert!(matches!(done, SyncDone::Panic(ref t) if t.starts_with(b"unhandled")));
}

fn interrupt(intid: u32, from_el0: bool) -> IrqEvent {
    IrqEvent {
        intid,
        from_el0,
        freq: 62_500_000,
        env: GuestEnv { cpu: 0, kernel_table: BASE, restore_stub: 0x9000, uart: 0x900_0000 },
        frame: GuestFrame { base: 0x8000, x19_to_x28: [3; 10], fp: 4 },
    }
}

#[test]
fn a_tick_preempts_a_task() {
    let (mut h, _) = host();
    let mut ticks = TickCounter::new();
    let mut bells = DoorbellTable::new();
    let mut irqs = PendingIrqs::new();
    let mut hv = BareMetalBackend::new();
    let done = irq_handler(&mut h.q, &mut ticks, &mut bells, &mut irqs, &mut hv, interrupt(30, true));
    match done {
        IrqDone::Tick { arm, switch, .. } => {
            assert_eq!(arm, 62_500);
            let sw = switch.unwrap();
            assert_eq!((sw.from, sw.to), (1, 2));
        }
        _ => panic!("the timer fired"),
    }
    assert_eq!(ticks.ticks(), 1);
}

#[test]
fn a_device_interrupt_is_recorded_and_masked() {
    let (mut h, _) = host();
    bring_up(&mut h.q, 0);
    released(&mut h.q.cpus, 1, 0);
    released(&mut h.q.cpus, 2, 0);
    let mut ticks = TickCounter::new();
    let mut bells = DoorbellTable::new();
    let mut irqs = PendingIrqs::new();
    let mut hv = BareMetalBackend::new();
    let done = irq_handler(&mut h.q, &mut ticks, &mut bells, &mut irqs, &mut hv, interrupt(48, false));
    match done {
        IrqDone::Device { mask, poke } => {
            assert_eq!((mask.addr, mask.val), (0x800_0184, 0x1_0000));
            assert_eq!(poke, [false, true, true, false]);
        }
        _ => panic!("a device fired"),
    }
    assert!(pending(&irqs, 48));
    for (intid, known) in [(0, true), (3, true), (1023, true), (96, false), (7, false)] {
        let done = irq_handler(&mut h.q, &mut ticks, &mut bells, &mut irqs, &mut hv, interrupt(intid, false));
        assert_eq!(matches!(done, IrqDone::Done), known);
        assert_eq!(matches!(done, IrqDone::Unexpected), !known);
    }
    assert_eq!(ticks.ticks(), 0);
}

#[test]
fn doorbell_deliveries_are_counted() {
    let (mut h, _) = host();
    let mut ticks = TickCounter::new();
    let mut bells = DoorbellTable::new();
    let bell = bells.register(1, 2).unwrap();
    let mut irqs = PendingIrqs::new();
    let mut hv = BareMetalBackend::new();
    bells.ring_sgi(bell).unwrap();
    bells.ring_sgi(bell).unwrap();
    irq_handler(&mut h.q, &mut ticks, &mut bells, &mut irqs, &mut hv, interrupt(2, false));
    assert_eq!(bells.stats(bell), Some((2, 1)));
}

#[test]
fn a_tick_inside_a_guest_spends_its_slice() {
    let (mut h, _) = host();
    let mut ticks = TickCounter::new();
    let mut bells = DoorbellTable::new();
    let mut irqs = PendingIrqs::new();
    let mut hv = BareMetalBackend::new();
    let config = VmConfig { ram_base: 0x5000_0000, ram_size: 0x1_0000, entry: 0x5000_0000, boot: [1, 2] };
    let vm = hv.vm_create(config).unwrap();
    hv.enable_guest_preemption(1);
    let ev = interrupt(30, false);
    hv.vcpu_enter(vm, 0, ev.env).unwrap();
    let done = irq_handler(&mut h.q, &mut ticks, &mut bells, &mut irqs, &mut hv, ev);
    assert!(matches!(done, IrqDone::GuestTick { tick: GuestTick::Continue, .. }));
    let done = irq_handler(&mut h.q, &mut ticks, &mut bells, &mut irqs, &mut hv, ev);
    assert!(matches!(done, IrqDone::GuestTick { tick: GuestTick::Preempt, .. }));
    assert_eq!(ticks.ticks(), 2);
}
