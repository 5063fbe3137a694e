use tanix::arch::aarch64::boot::{current_el, is_primary_cpu};
use tanix::arch::aarch64::cache::{
    after_mmu_enable, before_mmu_enable, clean_dcache_range, clean_invalidate_dcache_range,
    invalidate_dcache_range, lines, CacheOp,
};
use tanix::arch::aarch64::gic::{
    disable_irq, enable_irq, gicr_base, group_reg, init as gic_init, send_sgi, still_asleep,
    waker_reg, GicStep,
};
use tanix::arch::aarch64::machine::{is_sbsa_ref, machine, set_from_acpi};
use tanix::arch::aarch64::mmu::{enable_bits, is_enabled, switch_on, tcr_value, MmuStep};
use tanix::arch::aarch64::psci::{cpu_on, cpu_on_status};
use tanix::arch::aarch64::timer::{
    arm_next, asserted, busy_wait_ms, counts_for_ms, init as timer_init, self_test_poll, SelfTest,
    TickCounter,
};
use tanix::arch::aarch64::uart::{
    busy, init as uart_init, level_str, log_line, putc, puts, tx_full, LogLevel, UartStep,
    UartWriter,
};
use tanix::arch::aarch64::acpi::AcpiInfo;
use tanix::arch::aarch64::{init, InitStep};

#[test]
fn subsystems_start_in_dependency_order() {
    assert!(
        init()
            == vec![
                InitStep::Uart,
                InitStep::Logger,
                InitStep::Vectors,
                InitStep::Mmu,
                InitStep::Gic,
                InitStep::Timer
            ]
    );
}

#[test]
fn the_two_machines_differ() {
    let v = machine(false);
    let s = machine(true);
    assert!(!is_sbsa_ref(&v) && is_sbsa_ref(&s));
    assert_eq!((v.dram_base, v.dram_size), (0x4000_0000, 0x1000_0000));
    assert_eq!((s.dram_base, s.dram_size), (0x100_0000_0000, 0x4000_0000));
    assert_eq!((v.uart_base, v.secure_uart_base), (0x900_0000, 0x900_0000));
    assert_eq!((s.uart_base, s.secure_uart_base), (0x6000_0000, 0x6003_0000));
    assert_eq!((s.secure_ram_base, s.secure_ram_size), (0x2000_0000, 0x2000_0000));
    assert_eq!((v.virtio_mmio_base, s.virtio_mmio_base), (0xA00_0000, 0));
}

#[test]
fn firmware_tables_replace_the_fixed_addresses() {
    let info = AcpiInfo {
        gic_dist_base: 0x1_0000,
        gic_redist_base: 0,
        its_base: 0,
        uart_base: 0x2_0000,
        ecam_base: 0,
    };
    let m = set_from_acpi(&machine(true), &info);
    assert_eq!((m.gic_dist_base, m.uart_base), (0x1_0000, 0x2_0000));
    assert_eq!(m.gic_redist_base, 0x4008_0000);
    assert_eq!(m.dram_base, 0x100_0000_0000);
}

#[test]
fn the_cpu_state_is_read_from_registers() {
    assert_eq!((current_el(0xC), current_el(0x8), current_el(0x4), current_el(0)), (3, 2, 1, 0));
    assert!(is_primary_cpu(0x8000_0000));
    assert!(!is_primary_cpu(0x8000_0001));
    assert!(!is_primary_cpu(0x8000_0100));
    assert!(is_primary_cpu(0x8001_0000));
}

#[test]
fn power_on_is_one_call() {
    assert_eq!(cpu_on(2, 0x4008_0000, 7), [0xC400_0003, 2, 0x4008_0000, 7]);
    assert_eq!(cpu_on_status(0), 0);
    assert_eq!(cpu_on_status(0xFFFF_FFFF_FFFF_FFFE), -2);
    assert_eq!(cpu_on_status(0x0000_0000_FFFF_FFFE), -2);
}

#[test]
fn the_translation_control_covers_the_address_space() {
    assert_eq!(tcr_value(0x4) >> 32 & 7, 4);
    assert_eq!(tcr_value(0x0) >> 32 & 7, 3);
    assert_eq!(tcr_value(0x6) >> 32 & 7, 5);
    assert_eq!(tcr_value(0x1125) & 0xFFFF_FFFF, 0xB510_3510);
    assert_eq!(tcr_value(0x1125), 0x25_B510_3510);
    assert!(is_enabled(1) && !is_enabled(0x1004));
    assert_eq!(enable_bits(0x30D0_0800), 0x30D0_1805);
    assert_eq!(enable_bits(0xFFFF), 0xFFFF);
}

#[test]
fn tables_are_visible_before_translation_starts() {
    assert!(
        switch_on(0x4008_0000, 0x800)
            == vec![
                MmuStep::DsbIsh,
                MmuStep::SetTtbr0(0x4008_0000),
                MmuStep::Before,
                MmuStep::SetSctlr(0x1805),
                MmuStep::After
            ]
    );
    assert!(before_mmu_enable() == vec![CacheOp::DsbIsh, CacheOp::TlbFlushAll, CacheOp::InvalidateIcacheAll]);
    assert!(after_mmu_enable() == vec![CacheOp::TlbFlushAll, CacheOp::DsbIsh, CacheOp::Isb]);
}

#[test]
fn a_range_is_rounded_out_to_cache_lines() {
    assert_eq!(lines(0x103F, 2), vec![0x1000, 0x1040]);
    assert_eq!(lines(0x1000, 64), vec![0x1000]);
    assert!(lines(0x1234, 0).is_empty());
    assert!(clean_dcache_range(0x1000, 0).is_empty());
    assert!(
        clean_dcache_range(0x1001, 64)
            == vec![CacheOp::CleanLine(0x1000), CacheOp::CleanLine(0x1040), CacheOp::DsbOsh]
    );
    assert!(invalidate_dcache_range(0x1000, 1) == vec![CacheOp::InvalidateLine(0x1000), CacheOp::DsbOsh]);
    assert!(
        clean_invalidate_dcache_range(0x1000, 1)
            == vec![
                CacheOp::CleanLine(0x1000),
                CacheOp::DsbOsh,
                CacheOp::InvalidateLine(0x1000),
                CacheOp::DsbOsh
            ]
    );
}

#[test]
fn interrupts_are_enabled_in_their_bank() {
    assert_eq!(gicr_base(2), 0x80E_0000);
    assert_eq!(waker_reg(1), 0x80C_0014);
    let w = enable_irq(1, 30, 0x5);
    assert_eq!((w[0].addr, w[0].val), (0x80D_0080, 0x4000_0005));
    assert_eq!((w[1].addr, w[1].val), (0x80D_0100, 0x4000_0000));
    assert_eq!(w.len(), 2);
    let w = enable_irq(1, 48, 0);
    assert_eq!((w[0].addr, w[0].val), (0x800_0084, 0x1_0000));
    assert_eq!((w[1].addr, w[1].val), (0x800_0104, 0x1_0000));
    assert!(enable_irq(0, 15, 0).is_empty());
    assert!(enable_irq(0, 1020, 0).is_empty());
    assert_eq!(group_reg(1, 30), Some(0x80D_0080));
    assert_eq!(group_reg(1, 48), Some(0x800_0084));
    assert_eq!(group_reg(1, 3), None);
}

#[test]
fn interrupts_are_masked_again() {
    let w = disable_irq(0, 31).unwrap();
    assert_eq!((w.addr, w.val), (0x80B_0180, 0x8000_0000));
    let w = disable_irq(0, 1019).unwrap();
    assert_eq!((w.addr, w.val), (0x800_0180 + 31 * 4, 1 << 27));
    assert!(disable_irq(0, 15).is_none());
    assert!(disable_irq(0, 1020).is_none());
}

#[test]
fn a_poke_names_its_target() {
    assert_eq!(send_sgi(2, 3), 0x0300_0004);
    assert_eq!(send_sgi(0, 15), 0x0F00_0001);
    assert_eq!(send_sgi(17, 19), 0x0300_0002);
}

#[test]
fn the_interrupt_controller_wakes_up() {
    let steps = gic_init(1, 0x6);
    let mut writes = Vec::new();
    for s in steps.iter() {
        if let GicStep::Write(w) = s {
            writes.push((w.addr, w.val));
        }
    }
    assert_eq!(
        writes,
        vec![(0x80C_0014, 0x4), (0x800_0000, 0x17), (0x80D_0080, 0xFFFF), (0x80D_0100, 0xFFFF)]
    );
    assert!(steps.iter().any(|s| matches!(s, GicStep::WaitAwake(0x80C_0014))));
    assert!(steps.iter().any(|s| matches!(s, GicStep::SetPriorityMask(0xFF))));
    assert!(still_asleep(4) && !still_asleep(2));
}

#[test]
fn time_is_counted_in_ticks() {
    assert_eq!(counts_for_ms(62_500_000, 1), 62_500);
    assert_eq!(counts_for_ms(62_500_000, 20), 1_250_000);
    assert_eq!(arm_next(24_000_000), 24_000);
    assert!(busy_wait_ms(1000, 5, u64::MAX - 1, 2));
    assert!(!busy_wait_ms(1000, 5, 10, 15));
    let mut t = TickCounter::new();
    assert_eq!(t.ticks(), 0);
    assert_eq!(t.tick(62_500_000), 62_500);
    t.tick(62_500_000);
    assert_eq!(t.ticks(), 2);
    let s = t.init_tick(62_500_000);
    assert_eq!(t.ticks(), 0);
    assert_eq!((s.access, s.tick_counts, s.probe_counts, s.hz), (7, 62_500, 625_000, 62_500_000));
    assert_eq!(timer_init(), 2);
}

#[test]
fn the_timer_proves_itself() {
    assert!(asserted(0x5) && !asserted(0x1));
    assert!(matches!(self_test_poll(9, 10, 0x5), SelfTest::Asserted));
    assert!(matches!(self_test_poll(9, 10, 0x1), SelfTest::Poll));
    assert!(matches!(self_test_poll(10, 10, 0x5), SelfTest::NeverAsserted));
}

#[test]
fn the_uart_is_set_up_while_disabled() {
    let mut seen = Vec::new();
    for s in uart_init(0x900_0000).iter() {
        match s {
            UartStep::Write(w) => seen.push((w.addr, w.val)),
            UartStep::WaitIdle(a) => seen.push((*a, 0xFFFF_FFFF)),
        }
    }
    assert_eq!(
        seen,
        vec![
            (0x900_0030, 0),
            (0x900_0018, 0xFFFF_FFFF),
            (0x900_0024, 13),
            (0x900_0028, 1),
            (0x900_002C, 0x70),
            (0x900_0030, 0x301)
        ]
    );
    assert!(tx_full(0x20) && !tx_full(0xDF));
    assert!(busy(0x8) && !busy(0xF7));
    let w = putc(0x6000_0000, b'A');
    assert_eq!((w.addr, w.val), (0x6000_0000, 0x41));
}

#[test]
fn lines_end_for_a_terminal() {
    assert_eq!(puts("a\nb\n"), b"a\r\nb\r\n");
    assert_eq!(puts(""), b"");
    assert_eq!([puts("x\n"), puts("y")].concat(), puts("x\ny"));
    let mut w = UartWriter::new();
    w.write_str("a\n");
    w.write_str("b");
    assert_eq!(w.out, b"a\r\nb");
}

#[test]
fn log_lines_bear_their_level() {
    assert_eq!(log_line(LogLevel::Warn, "low"), b"[WARN ] low\r\n");
    assert_eq!(level_str(LogLevel::Error), "ERROR");
    assert_eq!(level_str(LogLevel::Info), "INFO ");
    assert_eq!(level_str(LogLevel::Debug), "DEBUG");
    assert_eq!(level_str(LogLevel::Trace), "TRACE");
}
