use tanix::arch::aarch64::efi::EfiHandoff;
use tanix::arch::aarch64::fdt::MemoryRegion;
use tanix::arch::aarch64::machine::machine;
use tanix::boot::{
    boot_dtb, delivered, finish_message, flag_message, guest_info_state, kmain,
    kmain_secondary_entry, measurement_verdict, ping_message, publish_info, ram_window,
    round_message, server_name, BootStep, SecondaryStep, Server, VmmInfo, GUEST_RUNNING,
};
use tanix::mem::ram::Ram;

fn at(steps: &[BootStep], s: BootStep) -> usize {
    steps.iter().position(|x| *x == s).unwrap()
}

#[test]
fn regions_are_reserved_before_anything_is_allocated() {
    for sbsa in [false, true] {
        for servers in [false, true] {
            let steps = kmain(&machine(sbsa), false, servers);
            assert_eq!(at(&steps, BootStep::Hardware), 0);
            assert!(at(&steps, BootStep::Frames) < at(&steps, BootStep::Mmu));
            assert!(at(&steps, BootStep::Mmu) < at(&steps, BootStep::Backend));
            if servers {
                assert!(at(&steps, BootStep::Frames) < at(&steps, BootStep::ReserveServers));
                assert!(at(&steps, BootStep::ReserveServers) < at(&steps, BootStep::Mmu));
                let first = steps.iter().position(|s| matches!(s, BootStep::ShareMemory(_)));
                assert!(at(&steps, BootStep::ReserveServers) < first.unwrap());
            } else {
                assert!(!steps.contains(&BootStep::ReserveServers));
                assert!(!steps.iter().any(|s| matches!(s, BootStep::SpawnAndEnter(_))));
            }
            assert!(steps.last() == Some(&BootStep::Halt));
        }
    }
}

#[test]
fn the_other_cpus_start_before_the_scheduler_is_entered() {
    let steps = kmain(&machine(false), false, true);
    assert!(at(&steps, BootStep::BringUp) < at(&steps, BootStep::Enter));
    assert!(steps.contains(&BootStep::SpawnAndEnter(Server::Init)));
    let last = kmain_secondary_entry();
    assert!(last.first() == Some(&SecondaryStep::Vectors));
    assert!(last.last() == Some(&SecondaryStep::Enter));
}

#[test]
fn servers_have_their_names() {
    assert_eq!(server_name(Server::Init), "init");
    assert_eq!(server_name(Server::Wm), "wm");
    assert_eq!(server_name(Server::Pong), "pong");
}

#[test]
fn the_device_tree_comes_from_whoever_booted() {
    let direct = EfiHandoff { booted_from_efi: false, systab: 0, rsdp: 0, dtb: 7 };
    let efi = EfiHandoff { booted_from_efi: true, systab: 1, rsdp: 0, dtb: 7 };
    assert_eq!(boot_dtb(&direct, 5), 5);
    assert_eq!(boot_dtb(&efi, 5), 7);
    let m = machine(false);
    assert_eq!(ram_window(&m, None), (0x4000_0000, 0x1000_0000));
    assert_eq!(ram_window(&m, Some(MemoryRegion { base: 1, size: 2 })), (1, 2));
}

#[test]
fn the_published_block_reads_back() {
    let mut ram = Ram::new(0x8000, vec![0xEE; 0x3000]);
    publish_info(&mut ram, 0x8000, VmmInfo { msgq: 3, service: 0x1122_3344_5566, doorbell: 4 });
    assert_eq!(ram.read32(0xA000), 0x564D_4D49);
    assert_eq!((ram.read32(0xA004), ram.read64(0xA008)), (3, 0x1122_3344_5566));
    assert_eq!(ram.read32(0xA010), 4);
    assert_eq!(guest_info_state(&ram, 0x8000), GUEST_RUNNING);
    flag_message(&mut ram, 0x8000);
    assert_eq!(ram.read32(0xA018), 1);
    assert_eq!(guest_info_state(&ram, 0x8000), GUEST_RUNNING);
}

#[test]
fn messages_are_spelled_out() {
    assert_eq!(round_message(1), "Hello from Tanix kernel (round 1)!");
    assert_eq!(ping_message(0), "ping-0");
    assert_eq!(finish_message(), "done");
    assert_eq!(measurement_verdict(5, 5), "match");
    assert_eq!(measurement_verdict(5, 6), "MISMATCH");
    assert!(delivered(Some((3, 1))));
    assert!(!delivered(Some((3, 0))));
    assert!(!delivered(None));
}
