use tanix::arch::aarch64::machine::machine;
use tanix::arch::aarch64::monitor::boot::{
    el3_dbg_ctx, el3_setup, monitor_el3_init, El3Step, Leave, ResetState,
};
use tanix::arch::aarch64::monitor::calls::{
    attest, keybox_gen, keybox_seal, keybox_unseal, psci_cpu_on_smc, psci_version_smc,
    secure_banner, secure_counter_incr, secure_measure_smc, secure_storage_get,
    secure_storage_put, secure_tick_arm, secure_tick_get, smc, smc_status, world_switch,
};
use tanix::arch::aarch64::monitor::cipher::{
    fnv1a, fnv1a_bytes, fnv1a_extend, splitmix64, xtea_cfb, xtea_enc_block,
};
use tanix::arch::aarch64::monitor::keybox::Keybox;
use tanix::arch::aarch64::monitor::store::SecureStore;
use tanix::arch::aarch64::monitor::{
    banner, Monitor, MonitorClock, SecureData, SmcCall, SmcEffect, PSCI_CPU_OFF, PSCI_FEATURES,
    PSCI_SYSTEM_OFF, SEC_ATTEST, SEC_STORAGE_PUT,
};
use tanix::mem::ram::Ram;

const KEY: [u32; 4] = [0x0001_0203, 0x0405_0607, 0x0809_0A0B, 0x0C0D_0E0F];
const FAILED: u64 = u64::MAX;

#[test]
fn digests_have_their_published_values() {
    assert_eq!(fnv1a(b""), 0xCBF2_9CE4_8422_2325);
    assert_eq!(fnv1a(b"a"), 0xAF63_DC4C_8601_EC8C);
    assert_eq!(fnv1a(b"foobar"), 0x8594_4171_F739_67E8);
    assert_eq!(fnv1a_bytes(fnv1a(b"foo"), b"bar"), fnv1a(b"foobar"));
    assert_eq!(fnv1a_extend(fnv1a(b"x"), 0x3837_3635_3433_3231), fnv1a(b"x12345678"));
    assert_ne!(fnv1a(b"fooba"), fnv1a(b"foobr"));
}

#[test]
fn the_generator_has_its_published_values() {
    assert_eq!(splitmix64(0), 0xE220_A839_7B1D_CDAF);
    assert_eq!(splitmix64(1), 0x910A_2DEC_8902_5CC1);
}

#[test]
fn the_cipher_has_its_published_values() {
    let block = [0x44, 0x43, 0x42, 0x41, 0x48, 0x47, 0x46, 0x45];
    assert_eq!(xtea_enc_block(&KEY, &block), [0xD0, 0xF3, 0x7D, 0x49, 0xB5, 0x2C, 0x61, 0x72]);
    let mut text = b"attack at dawn".to_vec();
    xtea_cfb(&KEY, 0, &mut text, true);
    assert_eq!(text, [0x99, 0x55, 0xBB, 0x85, 0x07, 0x54, 0xC1, 0xCB, 0xAE, 0x05, 0xF5, 0xD4, 0x18, 0x2C]);
}

#[test]
fn decryption_undoes_encryption() {
    for n in [0usize, 1, 7, 8, 9, 16, 100] {
        let plain: Vec<u8> = (0..n as u8).collect();
        let mut text = plain.clone();
        xtea_cfb(&KEY, 42, &mut text, true);
        assert!(n == 0 || text != plain);
        xtea_cfb(&KEY, 42, &mut text, false);
        assert_eq!(text, plain);
    }
}

#[test]
fn a_sealed_text_is_unsealed() {
    let mut b = Keybox::new();
    let plain = b"the same text".to_vec();
    let mut first = plain.clone();
    assert!(!b.seal(3, &mut first));
    assert!(!b.generate(16, 1, 2));
    assert!(b.generate(3, 777, 0x1111));
    assert_eq!((b.slots[3].key0, b.slots[3].key1), (0xF942_A1C3_2686_82AC, 0xD62E_AE92_4D93_DE1D));
    assert!(b.seal(3, &mut first));
    let mut second = plain.clone();
    assert!(b.seal(3, &mut second));
    assert_ne!(first, second);
    assert!(b.unseal(3, &mut second));
    assert_eq!(second, plain);
    assert!(b.would_seal(3, 256) && !b.would_seal(3, 257) && !b.would_seal(4, 1));
    assert!(b.would_unseal(3, 256) && !b.would_unseal(3, 257));
}

#[test]
fn a_spent_key_seals_no_more() {
    let mut b = Keybox::new();
    b.generate(0, 1, 2);
    b.slots[0].ctr = u64::MAX;
    let mut text = vec![1, 2, 3];
    assert!(!b.seal(0, &mut text));
    assert_eq!(text, vec![1, 2, 3]);
}

#[test]
fn stored_data_is_loaded() {
    let mut s = SecureStore::new();
    assert_eq!(s.load(7), None);
    assert!(s.store(7, b"first"));
    assert!(s.store(8, b""));
    assert_eq!(s.load(7), Some(b"first".to_vec()));
    assert_eq!(s.len_of(8), Some(0));
    assert!(s.store(7, b"other"));
    assert_eq!(s.load(7), Some(b"other".to_vec()));
    assert_eq!(s.load(8), Some(Vec::new()));
    assert!(!s.store(9, &[0; 233]));
    assert!(s.store(9, &[1; 232]));
    for name in 10..39 {
        assert!(s.store(name, b"x"));
    }
    assert!(!s.store(99, b"x"));
    assert!(s.store(7, b"still"));
    assert_eq!(s.load(7), Some(b"still".to_vec()));
}

fn world() -> SecureData {
    SecureData {
        iters: 0,
        round: 0,
        uart: 0x6003_0000,
        ticks: 5,
        counter: 0,
        measure: 0,
        secret: 0x1111,
        store: SecureStore::new(),
        keybox: Keybox::new(),
    }
}

fn monitor() -> Monitor {
    Monitor { world: Some(world()), cpu_count: 4, cmd: [[0; 2]; 8] }
}

const CLOCK: MonitorClock = MonitorClock { counter: 777, freq: 1_000_000 };

fn call(m: &mut Monitor, ns: &mut Ram, c: SmcCall) -> u64 {
    m.monitor_smc_dispatch(ns, c, CLOCK).0
}

#[test]
fn power_calls_are_answered() {
    let mut m = monitor();
    let mut ns = Ram::new(0x1000, vec![0; 16]);
    assert_eq!(call(&mut m, &mut ns, psci_version_smc()), 0x0001_0001);
    assert_eq!(call(&mut m, &mut ns, smc(0x8000_0000, 0, 0, 0)), 0x0001_0001);
    assert_eq!(call(&mut m, &mut ns, smc(PSCI_FEATURES, 0, 0, 0)), 0);
    assert_eq!(call(&mut m, &mut ns, smc(PSCI_CPU_OFF, 0, 0, 0)), 0xFFFF_FFFF);
    assert_eq!(call(&mut m, &mut ns, smc(PSCI_SYSTEM_OFF, 0, 0, 0)), 0xFFFF_FFFF);
    assert_eq!(call(&mut m, &mut ns, smc(0x1234, 0, 0, 0)), 0xFFFF_FFFF);
    let (x0, effect) = m.monitor_smc_dispatch(&mut ns, psci_cpu_on_smc(0x8000_0002, 0x4008_0000, 9), CLOCK);
    assert_eq!(x0, 0);
    assert!(matches!(effect, SmcEffect::Wake(0x0F00_0004)));
    assert_eq!(m.cmd[2], [0x434D_4454, 0x4008_0000]);
    for cpu in [0, 4, 8, 200] {
        assert_eq!(call(&mut m, &mut ns, psci_cpu_on_smc(cpu, 1, 0)), 0xFFFF_FFFE);
    }
    assert_eq!(m.cpu_count(), 4);
}

#[test]
fn the_secure_world_counts_and_arms() {
    let mut m = monitor();
    let mut ns = Ram::new(0x1000, vec![0; 16]);
    assert_eq!(call(&mut m, &mut ns, secure_counter_incr()), 1);
    assert_eq!(call(&mut m, &mut ns, secure_counter_incr()), 2);
    assert_eq!(call(&mut m, &mut ns, secure_tick_get()), 5);
    let (x0, effect) = m.monitor_smc_dispatch(&mut ns, secure_tick_arm(50), CLOCK);
    assert_eq!(x0, 0);
    assert!(matches!(effect, SmcEffect::ArmTimer(50_000)));
    assert!(matches!(m.monitor_smc_dispatch(&mut ns, secure_banner(), CLOCK), (0, SmcEffect::Banner)));
    assert_eq!(banner(), "EL3 monitor: TCB secure console reachable\r\n");
    m.monitor_prepare_switch(3, 4);
    let w = m.world.as_ref().unwrap();
    assert_eq!((w.iters, w.round), (3, 4));
    assert_eq!(world_switch(3, 4).id, 0x8300_0004);
}

#[test]
fn a_measurement_extends_the_log() {
    let mut m = monitor();
    let mut ns = Ram::new(0x1000, b"foobar".to_vec());
    assert_eq!(call(&mut m, &mut ns, secure_measure_smc(0x1000, 6)), 0x8594_4171_F739_67E8);
    let first = m.world.as_ref().unwrap().measure;
    assert_eq!(call(&mut m, &mut ns, secure_measure_smc(0x1000, 6)), 0x8594_4171_F739_67E8);
    assert_ne!(m.world.as_ref().unwrap().measure, first);
}

#[test]
fn the_store_is_reached_by_calls() {
    let mut m = monitor();
    let mut mem = vec![0; 64];
    mem[..8].copy_from_slice(b"the-name");
    mem[16..21].copy_from_slice(b"value");
    let mut ns = Ram::new(0x1000, mem);
    assert_eq!(call(&mut m, &mut ns, secure_storage_get(0x1000, 0x1020, 8)), FAILED);
    assert_eq!(call(&mut m, &mut ns, secure_storage_put(0x1000, 0x1010, 5).unwrap()), 0);
    assert_eq!(call(&mut m, &mut ns, secure_storage_get(0x1000, 0x1020, 4)), FAILED - 1);
    assert_eq!(call(&mut m, &mut ns, secure_storage_get(0x1000, 0x1020, 8)), 5);
    assert_eq!(ns.slice(0x1020, 8), b"value\0\0\0");
    assert!(secure_storage_put(0x1000, 0x1010, 233).is_none());
    assert_eq!(call(&mut m, &mut ns, smc(SEC_STORAGE_PUT, 0x1000, 0x1010, 233)), FAILED);
    assert_eq!(smc_status(FAILED), -1);
    assert_eq!(smc_status(5), 5);
}

#[test]
fn seals_are_reached_by_calls() {
    let mut m = monitor();
    let mut ns = Ram::new(0x1000, b"secret words....".to_vec());
    assert_eq!(call(&mut m, &mut ns, keybox_seal(1, 0x1000, 12)), FAILED);
    assert_eq!(call(&mut m, &mut ns, keybox_gen(16)), FAILED);
    assert_eq!(call(&mut m, &mut ns, keybox_gen(1)), 0);
    assert_eq!(call(&mut m, &mut ns, keybox_seal(1, 0x1000, 12)), 0);
    assert_ne!(ns.slice(0x1000, 12), b"secret words");
    assert_eq!(ns.slice(0x100C, 4), b"....");
    assert_eq!(call(&mut m, &mut ns, keybox_unseal(1, 0x1000, 12)), 0);
    assert_eq!(ns.slice(0x1000, 12), b"secret words");
    assert_eq!(call(&mut m, &mut ns, keybox_seal(1, 0x1000, 257)), FAILED);
}

#[test]
fn a_quote_binds_image_and_challenge() {
    let mut m = monitor();
    let mut mem = vec![0; 64];
    mem[..5].copy_from_slice(b"image");
    let mut ns = Ram::new(0x1000, mem);
    assert_eq!(call(&mut m, &mut ns, attest(0x1000, 5, 0x2222, 0x1010)), 0);
    assert_eq!(ns.read64(0x1010), 0x2AB6_1288_8528_489A);
    assert_eq!(ns.read64(0x1018), 0x9074_5326_4ABB_9C68);
    assert_eq!(call(&mut m, &mut ns, attest(0x1000, 5, 0x2223, 0x1020)), 0);
    assert_eq!(ns.read64(0x1020), 0x2AB6_1288_8528_489A);
    assert_ne!(ns.read64(0x1028), 0x9074_5326_4ABB_9C68);
    let short = SmcCall { id: SEC_ATTEST, a1: 0x1000, a2: 5, a3: 0, a4: 0x1010, a5: 15 };
    assert_eq!(call(&mut m, &mut ns, short), FAILED);
    assert_eq!(call(&mut m, &mut ns, attest(0x1000, 0x100_0001, 0, 0x1010)), FAILED);
}

#[test]
fn without_a_secure_world_its_services_fail() {
    let mut m = Monitor { world: None, cpu_count: 1, cmd: [[0; 2]; 8] };
    let mut ns = Ram::new(0x1000, vec![0; 32]);
    assert_eq!(call(&mut m, &mut ns, secure_storage_put(0x1000, 0x1010, 5).unwrap()), FAILED);
    assert_eq!(call(&mut m, &mut ns, secure_storage_get(0x1000, 0x1010, 5)), FAILED);
    assert_eq!(call(&mut m, &mut ns, keybox_gen(0)), FAILED);
    assert_eq!(call(&mut m, &mut ns, secure_tick_get()), 0);
    m.monitor_prepare_switch(1, 2);
    assert!(m.world.is_none());
}

#[test]
fn calls_need_memory_only_for_what_they_touch() {
    let mut m = monitor();
    let mut ns = Ram::new(0x1000, vec![0; 64]);
    assert!(m.may_serve(&ns, secure_measure_smc(0x1000, 64)));
    assert!(!m.may_serve(&ns, secure_measure_smc(0x1000, 65)));
    assert!(m.may_serve(&ns, secure_measure_smc(0, 0)));
    assert_eq!(call(&mut m, &mut ns, secure_measure_smc(0, 0)), 0xCBF2_9CE4_8422_2325);
    assert!(m.may_serve(&ns, secure_storage_get(0x1000, 0, 8)));
    assert!(!m.may_serve(&ns, secure_storage_get(0x103C, 0, 8)));
    let put = secure_storage_put(0x1000, 0x1008, 5).unwrap();
    assert!(m.may_serve(&ns, put));
    assert_eq!(call(&mut m, &mut ns, put), 0);
    assert!(!m.may_serve(&ns, secure_storage_get(0x1000, 0, 8)));
    assert!(m.may_serve(&ns, secure_storage_get(0x1000, 0, 4)));
    assert!(m.may_serve(&ns, keybox_seal(0, 0, 8)));
    assert_eq!(call(&mut m, &mut ns, keybox_gen(0)), 0);
    assert!(!m.may_serve(&ns, keybox_seal(0, 0, 8)));
    assert!(!m.may_serve(&ns, keybox_unseal(0, 0, 8)));
    assert!(m.may_serve(&ns, keybox_seal(0, 0, 0)));
    assert_eq!(call(&mut m, &mut ns, keybox_seal(0, 0, 0)), 0);
    assert!(!m.may_serve(&ns, attest(0x1000, 64, 0, 0x1038)));
    assert!(m.may_serve(&ns, attest(0x1000, 64, 0, 0x1030)));
}

#[test]
fn the_primary_installs_the_secure_world() {
    let m = machine(true);
    let st = ResetState { cpu: 1, freq: 0, waker: 6 };
    let b = monitor_el3_init(&m, st, false, 4, 0x1234, 12345);
    assert_eq!(b.cpu_count, 4);
    assert!(matches!(b.leave, Leave::Kernel(0x3C9, 0x3C5)));
    let i = b.install.unwrap();
    assert_eq!(i.target, 0x2000_0000);
    assert_eq!((i.data.uart, i.data.secret), (0x6003_0000, 0xEAE8_7905_08AC_0876));
    assert_eq!((i.timer.addr, i.timer.val), (0x400B_0100, 0x2000_0000));
    assert_eq!(i.data.store.load(0), None);
    let v = monitor_el3_init(&machine(false), st, false, 0, 0x1234, 1);
    assert_eq!((v.cpu_count, v.install.unwrap().target), (1, 0x1234));
}

#[test]
fn secondaries_park() {
    let st = ResetState { cpu: 2, freq: 1, waker: 0 };
    let b = monitor_el3_init(&machine(true), st, true, 4, 0, 0);
    assert!(b.install.is_none());
    assert!(matches!(b.leave, Leave::Park(0x3C9)));
}

#[test]
fn only_the_monitor_can_group_the_banked_interrupts() {
    let st = ResetState { cpu: 0, freq: 0, waker: 6 };
    let steps = el3_setup(&machine(true), st);
    let mut writes = Vec::new();
    for s in steps.iter() {
        if let El3Step::Write(w) = s {
            writes.push((w.addr, w.val));
        }
    }
    assert_eq!(
        writes,
        vec![
            (0x4006_0000, 0x1F),
            (0x4008_0014, 4),
            (0x4009_0080, 0x4000_7FFF),
            (0x4009_0E00, 0xFFFF_FFFF),
            (0x4009_0100, 0x6000_FFFF)
        ]
    );
    assert!(steps.iter().any(|s| matches!(s, El3Step::Freq(1_000_000_000))));
    let st = ResetState { cpu: 0, freq: 5, waker: 6 };
    assert!(!el3_setup(&machine(true), st).iter().any(|s| matches!(s, El3Step::Freq(_))));
}

#[test]
fn a_redistributor_may_lie_high() {
    let mut m = machine(true);
    m.gic_redist_base = 0x8000_0000_0000_0000;
    let st = ResetState { cpu: 300, freq: 5, waker: 6 };
    let at = m.gic_redist_base + 300 * m.gic_redist_stride;
    let steps = el3_setup(&m, st);
    assert!(steps.iter().any(|s| matches!(s, El3Step::Write(w) if w.addr == at + 0x14)));
    assert!(steps.iter().any(|s| matches!(s, El3Step::Write(w) if w.addr == at + 0x1_0080)));
}

#[test]
fn a_saved_call_is_dumped() {
    let mut ctx = [0u64; 34];
    ctx[0] = 0x8300_0001;
    ctx[32] = 0xABC;
    let text = String::from_utf8(el3_dbg_ctx(&ctx)).unwrap();
    assert!(text.starts_with("EL3 SMC fn=0x0000000083000001 a1=0x0000000000000000 a2="));
    assert!(text.contains(" elr=0x0000000000000abc sps="));
    assert!(text.ends_with(" x21=0x0000000000000000\r\n"));
}
