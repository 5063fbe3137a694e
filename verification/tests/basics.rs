use tanix::bytes::{append, bytes_of, read_le64};
use tanix::irq::{clear_pending, note_pending, pending, take_pending, PendingIrqs, IRQ_MAX};
use tanix::numbers::{push_decimal, push_hex, push_hex_digits};
use tanix::panic::{panic_text, semihosting_exit, Place};
use tanix::sync::SpinLock;
use tanix::text::{name_field, name_to_str, nul_position, str_eq};

#[test]
fn an_interrupt_is_consumed_once() {
    let mut p = PendingIrqs::new();
    assert!(!pending(&p, 48));
    note_pending(&mut p, 48);
    note_pending(&mut p, 48);
    assert!(pending(&p, 48));
    assert!(!pending(&p, 49));
    assert!(take_pending(&mut p, 48));
    assert!(!take_pending(&mut p, 48));
    assert!(!pending(&p, 48));
}

#[test]
fn interrupts_beyond_the_table_are_ignored() {
    let mut p = PendingIrqs::new();
    note_pending(&mut p, IRQ_MAX as u32 - 1);
    note_pending(&mut p, IRQ_MAX as u32);
    note_pending(&mut p, u32::MAX);
    assert!(pending(&p, 95));
    assert!(!pending(&p, 96));
    assert!(!take_pending(&mut p, u32::MAX));
    clear_pending(&mut p, 96);
    assert!(pending(&p, 95));
    clear_pending(&mut p, 95);
    assert!(!pending(&p, 95));
}

#[test]
fn a_lock_is_got_by_one() {
    let mut l = SpinLock::new();
    assert!(!l.is_locked());
    assert!(l.try_lock());
    assert!(l.is_locked());
    assert!(!l.try_lock());
    assert!(l.is_locked());
    l.unlock();
    assert!(!l.is_locked());
    l.lock();
    assert!(!l.try_lock());
}

#[test]
fn names_end_at_the_first_nul() {
    assert_eq!(nul_position(b"init\0\0"), 4);
    assert_eq!(nul_position(b"init"), 4);
    assert_eq!(nul_position(b"\0init"), 0);
    assert_eq!(name_to_str(b"ramfs\0junk"), "ramfs");
    assert_eq!(name_to_str(b""), "");
    assert_eq!(name_to_str("caf\u{e9}\0".as_bytes()), "caf\u{e9}");
}

#[test]
fn a_name_that_is_no_text_reads_as_a_question_mark() {
    assert_eq!(name_to_str(&[0xFF, 0xFE, 0]), "?");
    assert_eq!(name_to_str(&[0x61, 0xC3]), "?");
    assert_eq!(name_to_str(&[0x61, 0, 0xFF]), "a");
}

#[test]
fn names_are_cut_and_padded() {
    assert_eq!(&name_field("pm", 16), b"pm\0\0\0\0\0\0\0\0\0\0\0\0\0\0");
    assert_eq!(&name_field("a-name-of-twenty-chr", 16), b"a-name-of-twenty");
    assert_eq!(&name_field("a-name-of-twenty-chr", 15), b"a-name-of-twent\0");
    assert_eq!(name_to_str(&name_field("display", 16)), "display");
}

#[test]
fn texts_are_compared_as_a_whole() {
    assert!(str_eq("shell", "shell"));
    assert!(!str_eq("shell", "shel"));
    assert!(!str_eq("shell", "shelL"));
    assert!(str_eq("", ""));
}

#[test]
fn an_integer_reads_back_from_its_bytes() {
    let b = bytes_of(0x0123_4567_89AB_CDEF);
    assert_eq!(b, [0xEF, 0xCD, 0xAB, 0x89, 0x67, 0x45, 0x23, 0x01]);
    assert_eq!(read_le64(&b, 0), 0x0123_4567_89AB_CDEF);
}

#[test]
fn bytes_are_appended() {
    let mut v = vec![1u8, 2];
    append(&mut v, &[3, 4, 5]);
    append(&mut v, &[]);
    assert_eq!(v, vec![1, 2, 3, 4, 5]);
}

#[test]
fn numbers_are_written_out() {
    let mut v = Vec::new();
    push_decimal(&mut v, 0);
    push_decimal(&mut v, 18_446_744_073_709_551_615);
    assert_eq!(v, b"018446744073709551615");
    let mut v = Vec::new();
    push_hex(&mut v, 0, 1);
    push_hex(&mut v, 0xBEEF, 1);
    push_hex(&mut v, 0xBEEF, 8);
    push_hex(&mut v, u64::MAX, 8);
    assert_eq!(v, b"0x00xbeef0x0000beef0xffffffffffffffff");
    let mut v = Vec::new();
    push_hex_digits(&mut v, 0x1234, 2);
    push_hex_digits(&mut v, 0x1234, 6);
    assert_eq!(v, b"34001234");
}

#[test]
fn hex_digits_stand_for_their_number() {
    let mut v = Vec::new();
    push_hex_digits(&mut v, 0xDEAD_BEEF_0042_1337, 16);
    let text = String::from_utf8(v).unwrap();
    assert_eq!(u64::from_str_radix(&text, 16).unwrap(), 0xDEAD_BEEF_0042_1337);
}

#[test]
fn a_panic_names_its_place_and_message() {
    let place = Some(Place { file: "src/main.rs", line: 120 });
    assert_eq!(
        panic_text(place, "boom", true),
        "\n\n[PANIC] src/main.rs:120 \u{2014} boom\n".as_bytes()
    );
    assert_eq!(panic_text(None, "", true), b"\n\n[PANIC] (no message)\n");
    assert_eq!(panic_text(None, "", false), b"\n\n[PANIC] \n");
}

#[test]
fn the_simulation_ends_with_an_exit_code() {
    assert_eq!(semihosting_exit(1), [0x20026, 1]);
}
