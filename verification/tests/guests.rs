use tanix::hypervisor::backend::{hypercall, BareMetalBackend, GuestFrame, GuestTick, GunyahBackend};
use tanix::hypervisor::doorbell::{
    decode, send, DoorbellTable, Service, Services, DOORBELL_QUERY, DOORBELL_SEND, ERR, MSGQ_RECV,
    MSGQ_SEND, OK,
};
use tanix::hypervisor::msgq::MsgqRecord;
use tanix::hypervisor::{
    detect_backend, get_backend, BackendKind, DoorbellHandle, GuestEnv, GunyahError, HvError,
    HvcReply, Hypervisor, MsgqHandle, Selection, ShmemHandle, VcpuExit, VmConfig, VmHandle,
};
use tanix::mem::frame::FrameAllocator;
use tanix::mem::ram::Ram;
use tanix::virtio::channel::{Msg, Opcode, MAX_PAYLOAD};
use tanix::virtio::transport::VirtioTransport;
use tanix::virtio::{
    AvailRing, Descriptor, QueueRegion, UsedElem, UsedRing, Virtqueue, VirtqueueConfig, VIRTQ_MAGIC,
};
use tanix::vm::loader::{load_flat, load_flat_full};
use tanix::vm::sched::{
    publish, round_text, set_tenant_state, tenant_state, Rotation, Tenant, GUEST_PARKED,
    GUEST_RUNNING,
};
use tanix::vm::shmem::{reserve, RingHeader, ShmemTable};
use tanix::vm::{Manager, Memory};

const REPLY: HvcReply = HvcReply { r0: 0, r1: 0, r2: 0, r3: 0 };
const ENV: GuestEnv = GuestEnv { cpu: 0, kernel_table: 0x4000, restore_stub: 0x9000, uart: 0x900_0000 };

fn config() -> VmConfig {
    VmConfig { ram_base: 0x5000_0000, ram_size: 0x1_0000, entry: 0x5000_0040, boot: [0x11, 0x22] }
}

#[test]
fn messages_come_out_in_order() {
    let mut q = MsgqRecord::new(MsgqHandle(1), VmHandle(2), 2);
    let mut buf = [0u8; 96];
    assert!(matches!(q.dequeue(&mut buf), Err(HvError::Empty)));
    assert_eq!(q.enqueue(b"one").unwrap(), true);
    assert_eq!(q.enqueue(b"two!").unwrap(), false);
    assert!(matches!(q.enqueue(b"three"), Err(HvError::Full)));
    assert_eq!(q.dequeue(&mut buf).unwrap(), (3, true));
    assert_eq!(&buf[..3], b"one");
    assert_eq!(q.enqueue(b"three").unwrap(), false);
    assert_eq!(q.dequeue(&mut buf).unwrap(), (4, true));
    assert_eq!(q.dequeue(&mut buf).unwrap(), (5, false));
    assert_eq!(&buf[..5], b"three");
    assert!(matches!(q.enqueue(&[0; 97]), Err(HvError::BadMessage)));
    assert_eq!(q.handle(), MsgqHandle(1));
}

#[test]
fn a_short_buffer_cuts_the_message() {
    let mut q = MsgqRecord::new(MsgqHandle(1), VmHandle(2), 99);
    for i in 0..16u8 {
        assert_eq!(q.enqueue(&[i; 4]).unwrap(), i < 15);
    }
    let mut buf = [9u8; 2];
    assert_eq!(q.dequeue(&mut buf).unwrap(), (2, true));
    assert_eq!(buf, [0, 0]);
    assert_eq!(q.dequeue(&mut buf).unwrap(), (2, true));
    assert_eq!(buf, [1, 1]);
}

#[test]
fn doorbells_are_registered_rung_and_counted() {
    let mut t = DoorbellTable::new();
    let a = t.register(1, 1).unwrap();
    let b = t.register(7, 2).unwrap();
    assert_eq!((a, b), (DoorbellHandle(1), DoorbellHandle(2)));
    assert_eq!(t.ring_sgi(b).unwrap(), 2);
    assert!(matches!(t.ring_sgi(DoorbellHandle(9)), Err(HvError::InvalidHandle)));
    t.note_delivery(2);
    t.note_delivery(5);
    assert_eq!(t.stats(b), Some((1, 1)));
    assert_eq!(t.stats(a), Some((0, 0)));
    assert_eq!(t.stats(DoorbellHandle(9)), None);
    assert_eq!(t.query(7), Some(b));
    assert_eq!(t.query(8), None);
    t.set_mask(a, 3, 4).unwrap();
    let e = t.find(a).unwrap();
    assert_eq!((e.owner_vm, e.irq, e.enable_mask, e.ack_mask), (1, 1, 3, 4));
    assert!(t.set_mask(DoorbellHandle(9), 0, 0).is_err());
    for _ in 0..6 {
        assert!(t.register(1, 1).is_some());
    }
    assert!(t.register(1, 1).is_none());
}

#[test]
fn guest_services_are_decoded() {
    assert!(matches!(decode([DOORBELL_SEND, 3, 0, 0]), Service::Ring(DoorbellHandle(3))));
    assert!(matches!(decode([DOORBELL_QUERY, 3, 0, 0]), Service::Query(3)));
    assert!(matches!(decode([MSGQ_SEND, 1, 0x10, 500]), Service::Send { addr: 0x10, size: 96, .. }));
    assert!(matches!(decode([MSGQ_RECV, 1, 0x10, 5]), Service::Receive { addr: 0x10, cap: 5, .. }));
    assert!(matches!(decode([1, 2, 3, 4]), Service::Unknown));
}

#[test]
fn guests_talk_through_services() {
    let mut hv = BareMetalBackend::new();
    let vm = hv.vm_create(config()).unwrap();
    let mq = hv.msgq_create(vm, 4).unwrap();
    let mut bells = DoorbellTable::new();
    let bell = hv.doorbell_create(&mut bells, vm, 2).unwrap();
    let mut ram = vec![0u8; 64];
    ram[..5].copy_from_slice(b"hello");
    let mut s = Services { hv, bells, ram: Ram::new(0x1000, ram) };
    let r = s.handle_hvc([DOORBELL_SEND, bell.0 as u64, 0, 0], REPLY);
    assert_eq!((r.x0, r.sgi), (OK, Some(2)));
    assert_eq!(s.handle_hvc([DOORBELL_SEND, 99, 0, 0], REPLY).x0, ERR);
    assert_eq!(s.handle_hvc([DOORBELL_QUERY, vm.0 as u64, 0, 0], REPLY).x0, bell.0 as u64);
    assert_eq!(s.handle_hvc([DOORBELL_QUERY, 99, 0, 0], REPLY).x0, ERR);
    assert_eq!(s.handle_hvc([MSGQ_RECV, mq.0 as u64, 0x1020, 16], REPLY).x0, ERR);
    assert_eq!(s.handle_hvc([MSGQ_SEND, mq.0 as u64, 0x1000, 5], REPLY).x0, OK);
    assert_eq!(s.handle_hvc([MSGQ_SEND, 99, 0x1000, 5], REPLY).x0, ERR);
    assert_eq!(s.handle_hvc([MSGQ_RECV, mq.0 as u64, 0x1020, 16], REPLY).x0, 5);
    assert_eq!(s.ram.slice(0x1020, 6), b"hello\0");
    assert_eq!(s.handle_hvc([0x1234, 0, 0, 0], REPLY).x0, ERR);
}

#[test]
fn an_empty_buffer_may_be_anywhere() {
    let mut hv = BareMetalBackend::new();
    let vm = hv.vm_create(config()).unwrap();
    let mq = hv.msgq_create(vm, 4).unwrap().0 as u64;
    let mut s = Services { hv, bells: DoorbellTable::new(), ram: Ram::new(0x1000, vec![7; 64]) };
    assert_eq!(s.handle_hvc([MSGQ_SEND, mq, 0, 1], REPLY).x0, ERR);
    assert_eq!(s.handle_hvc([MSGQ_SEND, mq, 0, 0], REPLY).x0, OK);
    assert_eq!(s.handle_hvc([MSGQ_SEND, mq, 0x1000, 2], REPLY).x0, OK);
    assert_eq!(s.handle_hvc([MSGQ_RECV, mq, 0x1010, 8], REPLY).x0, 0);
    assert_eq!(s.handle_hvc([MSGQ_RECV, mq, 0x2000, 8], REPLY).x0, ERR);
    assert_eq!(s.handle_hvc([MSGQ_RECV, mq, 0x2000, 0], REPLY).x0, 0);
    assert_eq!(s.handle_hvc([MSGQ_RECV, mq, 0x2000, 0], REPLY).x0, ERR);
    assert_eq!(s.ram.slice(0x1000, 64), [7; 64]);
    assert_eq!(s.ram.slice(0, 0), b"");
}

#[test]
fn a_ring_needs_a_registered_bell() {
    let hv = BareMetalBackend::new();
    let mut bells = DoorbellTable::new();
    assert!(matches!(send(&mut bells, DoorbellHandle(1), &hv, REPLY), Err(HvError::InvalidHandle)));
    let bell = bells.register(1, 2).unwrap();
    assert!(matches!(send(&mut bells, bell, &hv, REPLY), Ok(Some(2))));
}

#[test]
fn a_guest_runs_yields_and_runs_on() {
    let mut hv = BareMetalBackend::new();
    let vm = hv.vm_create(config()).unwrap();
    assert!(matches!(hv.vcpu_enter(vm, 1, ENV), Err(HvError::NotSupported)));
    assert!(matches!(hv.vcpu_enter(VmHandle(9), 0, ENV), Err(HvError::InvalidHandle)));
    let e = hv.vcpu_enter(vm, 0, ENV).unwrap();
    assert_eq!((e.context.lr, e.context.sp, e.context.spsr), (0x5000_0040, 0x5001_0000, 0x345));
    assert_eq!((e.boot, e.uart), ([0x11, 0x22], 0x900_0000));
    assert!(matches!(hv.vcpu_enter(vm, 0, ENV), Err(HvError::BadState)));
    assert!(matches!(hv.vm_destroy(vm), Err(HvError::BadState)));
    assert!(matches!(hv.vcpu_stop(vm, 0), Err(HvError::BadState)));
    let mut saved = e.context;
    saved.lr = 0x5000_0100;
    assert!(matches!(hv.vcpu_exit(vm, saved), Ok(VcpuExit::Yielded)));
    assert!(matches!(hv.vcpu_exit(vm, saved), Err(HvError::BadState)));
    assert_eq!(hv.vcpu_enter(vm, 0, ENV).unwrap().context.lr, 0x5000_0100);
    hv.vcpu_exit(vm, saved).unwrap();
    hv.vcpu_stop(vm, 0).unwrap();
    assert_eq!(hv.vcpu_enter(vm, 0, ENV).unwrap().context.lr, 0x5000_0040);
    hv.vcpu_exit(vm, saved).unwrap();
    hv.vm_destroy(vm).unwrap();
    assert!(matches!(hv.vcpu_enter(vm, 0, ENV), Err(HvError::InvalidHandle)));
    assert!(matches!(hv.vm_destroy(vm), Err(HvError::InvalidHandle)));
}

#[test]
fn a_preempted_guest_resumes_where_it_stopped() {
    let mut hv = BareMetalBackend::new();
    let vm = hv.vm_create(config()).unwrap();
    let frame = GuestFrame { base: 0x5000_F000, x19_to_x28: [7; 10], fp: 8 };
    assert!(!hv.guest_tick_active(0));
    hv.enable_guest_preemption(2);
    let e = hv.vcpu_enter(vm, 0, ENV).unwrap();
    assert!(hv.guest_tick_active(0) && !hv.guest_tick_active(1));
    assert!(matches!(hv.tick_guest(ENV, frame), GuestTick::Continue));
    assert!(matches!(hv.tick_guest(ENV, frame), GuestTick::Continue));
    assert!(matches!(hv.tick_guest(ENV, frame), GuestTick::Preempt));
    assert_eq!(hv.park_active_tenant(), Some(0x11));
    assert!(matches!(hv.vcpu_exit(vm, e.context), Ok(VcpuExit::Preempted)));
    assert!(!hv.guest_tick_active(0));
    assert_eq!(hv.park_active_tenant(), None);
    let e = hv.vcpu_enter(vm, 0, ENV).unwrap();
    assert_eq!((e.context.lr, e.context.sp, e.context.fp), (0x9000, 0x5000_F000, 8));
    assert_eq!((e.context.x19_to_x28, e.context.spsr, e.context.ttbr0), ([7; 10], 0x3C5, 0x4000));
    hv.disable_guest_preemption();
    assert!(!hv.guest_tick_active(0));
    assert!(matches!(hv.tick_guest(ENV, frame), GuestTick::Stale));
}

#[test]
fn the_backend_has_room_for_a_few() {
    let mut hv = BareMetalBackend::new();
    let first = hv.vm_create(config()).unwrap();
    for _ in 0..3 {
        hv.vm_create(config()).unwrap();
    }
    assert!(matches!(hv.vm_create(config()), Err(HvError::NoMemory)));
    for _ in 0..8 {
        hv.msgq_create(first, 0).unwrap();
    }
    assert!(matches!(hv.msgq_create(first, 1), Err(HvError::NoMemory)));
    assert!(matches!(hv.msgq_create(VmHandle(99), 1), Err(HvError::InvalidHandle)));
    let mut buf = [0u8; 4];
    assert!(matches!(hv.msgq_send(MsgqHandle(99), b"x", REPLY), Err(HvError::InvalidHandle)));
    assert!(matches!(hv.msgq_recv(MsgqHandle(99), &mut buf, REPLY), Err(HvError::InvalidHandle)));
    let mut bells = DoorbellTable::new();
    assert!(matches!(hv.doorbell_create(&mut bells, VmHandle(99), 1), Err(HvError::InvalidHandle)));
    assert_eq!(hv.mem_share(0x5000_0000, 0x4000, REPLY, REPLY), Ok(ShmemHandle(0x5000_4000)));
    assert_eq!(hv.mem_share_donate_call(0x5000_0000, 0x4000), None);
}

#[test]
fn gunyah_objects_are_reached_by_hypercalls() {
    assert_eq!(hypercall(0x8000), 0xC600_8000);
    assert_eq!(hypercall(0x801B), 0xC600_801B);
    assert_eq!(GunyahBackend::detect_call(), [0xC600_8000, 0, 0, 0, 0, 0]);
    assert!(GunyahBackend::detect(HvcReply { r0: 0, r1: 0x4755_5919, r2: 0, r3: 0 }));
    assert!(!GunyahBackend::detect(HvcReply { r0: 1, r1: 0x4755_5919, r2: 0, r3: 0 }));
    let mut hv = GunyahBackend::new();
    assert!(matches!(hv.vm_create(config()), Err(HvError::NotSupported)));
    assert!(matches!(hv.vm_destroy(VmHandle(1)), Err(HvError::NotSupported)));
    assert!(matches!(hv.vcpu_enter(VmHandle(1), 0, ENV), Err(HvError::NotSupported)));
    assert!(matches!(hv.vcpu_stop(VmHandle(1), 0), Err(HvError::NotSupported)));
    assert!(matches!(hv.msgq_create(VmHandle(1), 1), Err(HvError::NotSupported)));
    let mut bells = DoorbellTable::new();
    assert!(matches!(hv.doorbell_create(&mut bells, VmHandle(1), 1), Err(HvError::NotSupported)));
    assert_eq!(hv.msgq_send_call(MsgqHandle(5), 3, 0x70), Some([0xC600_801B, 5, 3, 0x70, 1, 0]));
    assert_eq!(hv.msgq_recv_call(MsgqHandle(5), 0x70, 9), Some([0xC600_801C, 5, 0x70, 9, 0, 0]));
    assert_eq!(hv.doorbell_send_call(DoorbellHandle(4)), Some([0xC600_8012, 4, 0, 0, 0, 0]));
    assert_eq!(hv.doorbell_set_mask_call(DoorbellHandle(4), 1, 2), Some([0xC600_8015, 4, 1, 2, 0, 0]));
    let ready = HvcReply { r0: 0, r1: 1, r2: 0, r3: 0 };
    let failed = HvcReply { r0: 9, r1: 0, r2: 0, r3: 0 };
    assert_eq!(hv.msgq_send(MsgqHandle(5), b"abc", ready), Ok(true));
    assert_eq!(hv.msgq_send(MsgqHandle(5), b"abc", failed), Err(HvError::HypercallFailed(9)));
    assert_eq!(hv.msgq_send(MsgqHandle(5), &[0; 97], ready), Err(HvError::BadMessage));
    let mut buf = [0u8; 8];
    let got = HvcReply { r0: 0, r1: 6, r2: 1, r3: 0 };
    assert_eq!(hv.msgq_recv(MsgqHandle(5), &mut buf, got), Ok((6, true)));
    assert_eq!(hv.doorbell_send(&mut bells, DoorbellHandle(4), failed), Err(HvError::HypercallFailed(9)));
    assert_eq!(hv.doorbell_set_mask(&mut bells, DoorbellHandle(4), 1, 2, REPLY), Ok(()));
    let donated = HvcReply { r0: 0, r1: 0x77, r2: 0, r3: 0 };
    assert_eq!(hv.mem_share_donate_call(0x5000, 0x1000), Some([0xC600_8061, 0, 0, 0, 0x5000, 0x1000]));
    assert_eq!(hv.mem_share_map_call(0x5000, donated), Some([0xC600_802B, 0, 0x77, 0x5000, 6, 0]));
    assert_eq!(hv.mem_share(0x5000, 0x1000, donated, REPLY), Ok(ShmemHandle(0x77)));
    assert_eq!(hv.mem_share(0x5000, 0x1000, failed, REPLY), Err(HvError::HypercallFailed(9)));
    assert_eq!(hv.mem_share(0x5000, 0x1000, donated, failed), Err(HvError::HypercallFailed(9)));
    assert_eq!(GunyahError::Success.code(), 0);
    assert_eq!(GunyahError::MsgqBadMsg.code(), 10);
}

#[test]
fn the_backend_is_chosen_once() {
    let hosted = HvcReply { r0: 0, r1: 0x4755_5919, r2: 0, r3: 0 };
    let mut s = Selection { kind: None };
    assert!(detect_backend(&mut s, Some(hosted)) == BackendKind::Gunyah);
    assert!(get_backend(&mut s, None) == BackendKind::Gunyah);
    let mut s = Selection { kind: None };
    assert!(detect_backend(&mut s, None) == BackendKind::BareMetal);
    assert!(get_backend(&mut s, Some(hosted)) == BackendKind::BareMetal);
}

#[test]
fn typed_messages_round_trip() {
    let mut buf = [0xEEu8; 256];
    assert_eq!(Msg::write_print(&mut buf, b"hello"), 9);
    let m = Msg { buf: &buf };
    assert!(m.opcode() == Some(Opcode::Print));
    assert_eq!((m.payload_len(), m.payload()), (5, &b"hello"[..]));
    assert_eq!(&buf[..4], &[1, 0, 0, 5]);
    assert_eq!(Msg::write_print(&mut buf, &[b'x'; 300]), 256);
    assert_eq!(Msg { buf: &buf }.payload().len(), MAX_PAYLOAD);
    assert_eq!(Msg::write_echo(&mut buf, 0x0102_0304), 8);
    assert!(Msg { buf: &buf }.opcode() == Some(Opcode::Echo));
    assert_eq!(Msg::read_echo(&buf), 0x0102_0304);
    buf[0] = 3;
    buf[3] = 255;
    assert!(Msg { buf: &buf }.opcode().is_none());
    assert_eq!(Msg { buf: &buf }.payload().len(), 252);
}

fn region() -> QueueRegion {
    QueueRegion {
        config: VirtqueueConfig {
            magic: 0,
            queue_size: 0,
            desc_phys: 0,
            avail_phys: 0,
            used_phys: 0,
            buf_phys: 0,
            buf_size: 0,
            tx_slots: 0,
        },
        desc: [Descriptor { addr: 0, len: 0, flags: 9, next: 9 }; 16],
        avail: AvailRing { flags: 0, idx: 0, ring: [0; 16], used_event: 0 },
        used: UsedRing { flags: 0, idx: 0, ring: [UsedElem { id: 0, len: 0 }; 16], avail_event: 0 },
        bufs: [[0; 256]; 16],
    }
}

#[test]
fn posts_and_returns_are_seen_in_order() {
    let mut r = region();
    let mut driver = Virtqueue::from_phys(0x8000);
    let mut device = Virtqueue::from_phys(0x8000);
    assert_eq!(driver.buf_ptr(3), 0x8000 + 0x2000 + 3 * 256);
    for round in 0..5u16 {
        for i in 0..7u16 {
            driver.post_avail(&mut r, (round + i) % 16, 100 + i as u32);
        }
        let seen = device.guest_poll_avail(&r);
        assert_eq!(seen, (0..7).map(|i| (round + i) % 16).collect::<Vec<u16>>());
        assert!(device.guest_poll_avail(&r).is_empty());
        for d in &seen {
            device.guest_put_used(&mut r, *d, *d as u32 + 1);
        }
        let done = driver.poll_used(&r);
        assert_eq!(done, seen.iter().map(|d| (*d, *d as u32 + 1)).collect::<Vec<(u16, u32)>>());
        assert!(driver.poll_used(&r).is_empty());
    }
    assert_eq!((r.desc[2].addr, r.desc[2].flags, r.desc[2].next), (0x8000 + 0x2000 + 512, 0, 0));
}

#[test]
fn a_print_is_sent_and_answered() {
    let mut r = region();
    let hv = BareMetalBackend::new();
    let mut bells = DoorbellTable::new();
    let bell = bells.register(1, 2).unwrap();
    let mut t = VirtioTransport::new(&mut r, 0x8000, bell);
    assert_eq!(r.config.magic, VIRTQ_MAGIC);
    assert_eq!((r.config.queue_size, r.config.avail_phys, r.config.used_phys), (16, 0x8140, 0x9000));
    assert_eq!((r.config.buf_phys, r.config.buf_size, r.config.tx_slots), (0xA000, 256, 16));
    let (desc, sgi) = t.send_print(&mut r, b"hi", &hv, &mut bells, REPLY);
    assert_eq!((desc, sgi), (0, Some(2)));
    assert_eq!(t.wait_reply(&r, 1000, 5, 0, 4), None);
    assert_eq!(t.wait_reply(&r, 1000, 5, 0, 5), Some(false));
    let mut guest = Virtqueue::from_phys(0x8000);
    for d in guest.guest_poll_avail(&r) {
        let n = Msg { buf: &r.bufs[d as usize] }.payload().len() as u32;
        let n = Msg::write_echo(&mut r.bufs[d as usize], n);
        guest.guest_put_used(&mut r, d, n);
    }
    let replies = t.poll_replies(&r);
    assert_eq!(replies.len(), 1);
    assert_eq!((replies[0].desc, replies[0].printed), (0, 2));
    assert!(replies[0].op == Opcode::Echo);
    for i in 1..18 {
        assert_eq!(t.send_print(&mut r, b"hi", &hv, &mut bells, REPLY).0, i % 16);
    }
}

/// An ELF image of one segment, whose relocations are in section 2 and apply to section 1.
fn elf(bytes: &[u8], memsz: u64, relocs: &[(u64, u64)]) -> Vec<u8> {
    let shoff = 120 + bytes.len() + 24 * relocs.len();
    let mut v = vec![0u8; 120];
    v[0..4].copy_from_slice(&[0x7F, 0x45, 0x4C, 0x46]);
    v[4] = 2;
    v[5] = 1;
    v[18..20].copy_from_slice(&183u16.to_le_bytes());
    v[24..32].copy_from_slice(&0x10u64.to_le_bytes());
    v[32..40].copy_from_slice(&64u64.to_le_bytes());
    v[40..48].copy_from_slice(&(shoff as u64).to_le_bytes());
    v[54..56].copy_from_slice(&56u16.to_le_bytes());
    v[56..58].copy_from_slice(&1u16.to_le_bytes());
    v[58..60].copy_from_slice(&64u16.to_le_bytes());
    v[60..62].copy_from_slice(&4u16.to_le_bytes());
    v[62..64].copy_from_slice(&3u16.to_le_bytes());
    v[64..68].copy_from_slice(&1u32.to_le_bytes());
    v[72..80].copy_from_slice(&120u64.to_le_bytes());
    v[96..104].copy_from_slice(&(bytes.len() as u64).to_le_bytes());
    v[104..112].copy_from_slice(&memsz.to_le_bytes());
    v.extend_from_slice(bytes);
    for (at, kind) in relocs {
        v.extend_from_slice(&at.to_le_bytes());
        v.extend_from_slice(&kind.to_le_bytes());
        v.extend_from_slice(&[0; 8]);
    }
    let mut data = [0u8; 64];
    data[4] = 1;
    data[8] = 2;
    data[16] = 8;
    let mut rela = [0u8; 64];
    rela[4] = 4;
    rela[24..32].copy_from_slice(&((120 + bytes.len()) as u64).to_le_bytes());
    rela[32..40].copy_from_slice(&((24 * relocs.len()) as u64).to_le_bytes());
    rela[44] = 1;
    rela[56] = 24;
    v.extend_from_slice(&[0; 64]);
    v.extend_from_slice(&data);
    v.extend_from_slice(&rela);
    v.extend_from_slice(&[0; 64]);
    v
}

#[test]
fn a_flat_image_is_copied() {
    let mut ram = Ram::new(0x1000, vec![0xEE; 0x100]);
    let img = load_flat_full(b"code", &mut ram, 0x1010, 0x40).unwrap();
    assert_eq!((img.entry, img.image_end), (0x1010, 0x2000));
    assert_eq!(ram.slice(0x100F, 6), &[0xEE, b'c', b'o', b'd', b'e', 0xEE]);
    assert_eq!(load_flat(b"code", &mut ram, 0x1000, 3), Err(HvError::NoMemory));
}

#[test]
fn an_elf_image_is_loaded_and_relocated() {
    let mut bytes = vec![0u8; 32];
    bytes[8] = 0x18;
    bytes[16] = 0x20;
    bytes[24] = 0x30;
    let image = elf(&bytes, 40, &[(8, 257), (16, 1027), (24, 5)]);
    let mut ram = Ram::new(0x10_0000, vec![0xEE; 0x1000]);
    let img = load_flat_full(&image, &mut ram, 0x10_0000, 0x1000).unwrap();
    assert_eq!((img.entry, img.image_end), (0x10_0010, 0x1000));
    assert_eq!(ram.read64(0x10_0008), 0x10_0018);
    assert_eq!(ram.read64(0x10_0010), 0x10_0020);
    assert_eq!(ram.read64(0x10_0018), 0x30);
    assert_eq!(ram.read64(0x10_0020), 0);
    assert_eq!(ram.read8(0x10_0028), 0xEE);
}

#[test]
fn data_at_the_start_of_an_image_is_relocated_and_text_is_not() {
    let mut bytes = vec![0u8; 32];
    bytes[0] = 0x18;
    let mut image = elf(&bytes, 32, &[(0, 257)]);
    let section = 120 + 32 + 24 + 64;
    image[section + 16] = 0;
    let mut ram = Ram::new(0x10_0000, vec![0; 0x1000]);
    load_flat(&image, &mut ram, 0x10_0000, 0x1000).unwrap();
    assert_eq!(ram.read64(0x10_0000), 0x10_0018);
    image[section + 8] = 6;
    load_flat(&image, &mut ram, 0x10_0000, 0x1000).unwrap();
    assert_eq!(ram.read64(0x10_0000), 0x18);
    image[section + 8] = 2;
    image[section + 16] = 32;
    load_flat(&image, &mut ram, 0x10_0000, 0x1000).unwrap();
    assert_eq!(ram.read64(0x10_0000), 0x18);
}

#[test]
fn a_bad_image_is_refused() {
    let mut ram = Ram::new(0, vec![0; 0x1000]);
    let good = elf(&[1; 8], 8, &[]);
    for (at, v) in [(4, 1u8), (5, 2), (18, 62)] {
        let mut image = good.clone();
        image[at] = v;
        assert_eq!(load_flat(&image, &mut ram, 0, 0x1000), Err(HvError::NotSupported));
    }
    assert_eq!(load_flat(&elf(&[1; 8], 0x1001, &[]), &mut ram, 0, 0x1000), Err(HvError::NoMemory));
    let mut image = good.clone();
    image[32..40].copy_from_slice(&0xFFFFu64.to_le_bytes());
    assert_eq!(load_flat(&image, &mut ram, 0, 0x1000), Err(HvError::NotSupported));
    assert_eq!(load_flat(&good, &mut ram, 0, 0x1000), Ok(0x10));
}

fn memory() -> Memory {
    let mut frames = FrameAllocator::new_zeroed();
    frames.init(0x5000_0000, 0x5000_0000, 0x1_0000);
    Memory { frames, ram: Ram::new(0x5000_0000, vec![0xEE; 0x1_0000]) }
}

#[test]
fn a_guest_is_created_loaded_and_started() {
    let mut mem = memory();
    let mut hv = BareMetalBackend::new();
    let mut m = Manager::new();
    let vm = m.create_and_load(&mut mem, "a-guest-with-a-name", b"code", 4, [1, 2], &mut hv).unwrap();
    let v = m.find(vm).unwrap();
    assert_eq!((v.ram_base, v.ram_size, v.entry), (0x5000_0000, 0x4000, 0x5000_0000));
    assert_eq!(v.name_str(), "a-guest-with-a-");
    assert_eq!(mem.ram.slice(0x5000_0000, 6), b"code\0\0");
    assert_eq!(mem.ram.read8(0x5000_3FFF), 0);
    assert_eq!(mem.ram.read8(0x5000_4000), 0xEE);
    let e = m.start(vm, &mut hv, ENV).unwrap();
    assert_eq!((e.context.sp, e.boot), (0x5000_4000, [1, 2]));
    hv.vcpu_exit(vm, e.context).unwrap();
    assert!(m.resume(vm, &mut hv, ENV).is_ok());
    assert!(matches!(m.start(VmHandle(9), &mut hv, ENV), Err(HvError::InvalidHandle)));
    assert!(matches!(m.resume(VmHandle(9), &mut hv, ENV), Err(HvError::InvalidHandle)));
    m.find_mut(vm).unwrap().boot = [3, 4];
    assert_eq!(m.find(vm).unwrap().boot, [3, 4]);
    let big = m.create_and_load(&mut mem, "big", b"code", 100, [0, 0], &mut hv);
    assert!(matches!(big, Err(HvError::NoMemory)));
}

#[test]
fn shared_memory_is_zeroed_and_found() {
    let mut mem = memory();
    let hv = BareMetalBackend::new();
    let mut t = ShmemTable::new();
    let h = t.alloc_region(&mut mem, 2, &hv, REPLY, REPLY).unwrap();
    let r = t.find(h).unwrap();
    assert_eq!((r.phys, r.size), (0x5000_0000, 0x2000));
    assert_eq!(mem.ram.read64(0x5000_1FF8), 0);
    assert_eq!(reserve(&mut mem, 1), Some(0x5000_2000));
    assert_eq!(reserve(&mut mem, 100), None);
    assert!(matches!(t.alloc_region(&mut mem, 100, &hv, REPLY, REPLY), Err(HvError::NoMemory)));
    assert!(t.find(ShmemHandle(1)).is_none());
    let bad: Result<ShmemHandle, HvError> = Err(HvError::HypercallFailed(3));
    assert_eq!(t.record(0, 0, bad), Err(HvError::HypercallFailed(3)));
    for i in 0..7 {
        assert!(t.record(0, 0, Ok(ShmemHandle(100 + i))).is_ok());
    }
    assert_eq!(t.record(0, 0, Ok(ShmemHandle(9))), Err(HvError::NoMemory));
    let ring = RingHeader::init(8);
    assert!(ring.is_valid());
    assert_eq!((ring.magic, ring.capacity, ring.write_idx, ring.read_idx), (0x5441_4E58, 8, 0, 0));
}

fn tenants(n: u32) -> Vec<Tenant> {
    let mut v = Vec::new();
    for i in 0..n {
        let mut r = region();
        let t = VirtioTransport::new(&mut r, 0x8000, DoorbellHandle(1));
        v.push(Tenant::new("tenant-with-long-name", VmHandle(i), 0x8000, t));
    }
    v
}

#[test]
fn guests_take_turns() {
    let mut ts = tenants(3);
    assert_eq!(ts[0].name_str(), "tenant-with-lon");
    let mut r = Rotation::new(&ts, 2);
    let mut seen = Vec::new();
    while let Some(t) = r.next_turn(&ts) {
        seen.push((t.pass, t.tenant));
        let exit = if t.tenant == 0 { VcpuExit::Preempted } else { VcpuExit::Yielded };
        r.finish_turn(&mut ts, t.tenant, Ok(exit), t.tenant == 2, GUEST_RUNNING).unwrap();
    }
    assert_eq!(seen, vec![(1, 0), (1, 1), (1, 2), (2, 0), (2, 1), (2, 2)]);
    assert_eq!((ts[0].runs, ts[0].preempts, ts[0].yields, ts[0].echoes), (2, 2, 0, 0));
    assert_eq!((ts[2].runs, ts[2].preempts, ts[2].yields, ts[2].echoes), (2, 0, 2, 2));
}

#[test]
fn a_parked_guest_is_out_and_the_others_get_one_turn_each() {
    let mut ts = tenants(3);
    let mut r = Rotation::new(&ts, 10);
    let mut seen = Vec::new();
    while let Some(t) = r.next_turn(&ts) {
        seen.push((t.pass, t.tenant));
        let parks = t.pass == 1 + t.tenant as u32;
        let state = if parks { GUEST_PARKED } else { GUEST_RUNNING };
        r.finish_turn(&mut ts, t.tenant, Ok(VcpuExit::Yielded), false, state).unwrap();
    }
    assert_eq!(seen, vec![(1, 0), (1, 1), (1, 2), (2, 1), (2, 2), (3, 2)]);
    assert!(ts.iter().all(|t| t.parked));
    let mut r = Rotation::new(&ts, 10);
    assert!(r.next_turn(&ts).is_none());
    let mut ts = tenants(1);
    let mut r = Rotation::new(&ts, 10);
    r.next_turn(&ts).unwrap();
    assert_eq!(r.finish_turn(&mut ts, 0, Err(HvError::BadState), true, 0), Err(HvError::BadState));
    assert_eq!(ts[0].runs, 0);
}

#[test]
fn the_info_block_reads_back() {
    let mut ram = Ram::new(0x8000, vec![0xEE; 0x4000]);
    publish(&mut ram, 0x8000, 3);
    assert_eq!(ram.read32(0xB000), 0x564D_4D49);
    assert_eq!(ram.read32(0xB004), 3);
    assert_eq!(tenant_state(&ram, 0x8000), GUEST_RUNNING);
    set_tenant_state(&mut ram, 0x8000, GUEST_PARKED);
    assert_eq!(tenant_state(&ram, 0x8000), GUEST_PARKED);
    assert_eq!(ram.read32(0xB010), 2);
}

#[test]
fn turns_have_a_text() {
    assert_eq!(round_text(0, 7), b"T0 r7");
    assert_eq!(round_text(12, 10), b"T12 r10");
    assert_eq!(round_text(3, 999), b"T3 r999");
    assert_eq!(round_text(3, 9999), b"T3 r9999");
}
