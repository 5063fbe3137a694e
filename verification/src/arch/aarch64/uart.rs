//! PL011 UART: register writes and the byte stream that goes out.

use vstd::prelude::*;
use vstd::utf8::encode_utf8;
use crate::arch::aarch64::RegWrite;

verus! {

/// Data register.
pub const DR: u64 = 0;

/// Flag register.
pub const FR: u64 = 0x18;

/// Integer baud rate divisor.
pub const IBRD: u64 = 0x24;

/// Fractional baud rate divisor.
pub const FBRD: u64 = 0x28;

/// Line control.
pub const LCR_H: u64 = 0x2C;

/// Control.
pub const CR: u64 = 0x30;

/// Transmit FIFO full.
pub const FR_TXFF: u32 = 0x20;

/// UART busy.
pub const FR_BUSY: u32 = 0x8;

/// True while the transmit FIFO is full.
pub fn tx_full(fr: u32) -> (r: bool)
    ensures
        r == (fr & FR_TXFF != 0),
{
    fr & FR_TXFF != 0
}

/// True while a transmission is in progress.
pub fn busy(fr: u32) -> (r: bool)
    ensures
        r == (fr & FR_BUSY != 0),
{
    fr & FR_BUSY != 0
}

/// A step of the UART initialisation.
#[derive(Debug, Clone, Copy, PartialEq, Eq, Structural)]
pub enum UartStep {
    /// Write a register.
    Write(RegWrite),
    /// Wait until the flag register at the address is not [`busy`].
    WaitIdle(u64),
}

/// The steps of [`init`].
pub open spec fn init_steps(base: int) -> Seq<UartStep> {
    seq![
        UartStep::Write(RegWrite { addr: (base + CR) as u64, val: 0 }),
        UartStep::WaitIdle((base + FR) as u64),
        UartStep::Write(RegWrite { addr: (base + IBRD) as u64, val: 13 }),
        UartStep::Write(RegWrite { addr: (base + FBRD) as u64, val: 1 }),
        UartStep::Write(RegWrite { addr: (base + LCR_H) as u64, val: 0x70 }),
        UartStep::Write(RegWrite { addr: (base + CR) as u64, val: 0x301 }),
    ]
}

/// Steps that initialise the UART at `base`: off, idle, 115200 baud, 8 data bits
/// with FIFO, then transmitter and receiver on.
pub fn init(base: u64) -> (r: Vec<UartStep>)
    requires
        base + 0x30 <= u64::MAX,
    ensures
        r@ == init_steps(base as int),
{
    let r = vec![
        UartStep::Write(RegWrite { addr: base + CR, val: 0 }),
        UartStep::WaitIdle(base + FR),
        UartStep::Write(RegWrite { addr: base + IBRD, val: 13 }),
        UartStep::Write(RegWrite { addr: base + FBRD, val: 1 }),
        UartStep::Write(RegWrite { addr: base + LCR_H, val: 0x70 }),
        UartStep::Write(RegWrite { addr: base + CR, val: 0x301 }),
    ];
    assert(r@ =~= init_steps(base as int));
    r
}

/// Register write that sends one byte.
pub fn putc(base: u64, byte: u8) -> (w: RegWrite)
    ensures
        w == (RegWrite { addr: base, val: byte as u32 }),
{
    RegWrite { addr: base, val: byte as u32 }
}

/// The bytes with a carriage return in front of every newline.
pub open spec fn serial_bytes(s: Seq<u8>) -> Seq<u8>
    decreases s.len(),
{
    if s.len() == 0 {
        Seq::empty()
    } else if s.last() == 0x0A {
        serial_bytes(s.drop_last()).push(0x0D).push(0x0A)
    } else {
        serial_bytes(s.drop_last()).push(s.last())
    }
}

/// What goes out for two strings in a row is what goes out for each.
pub proof fn law_serial_concat(a: Seq<u8>, b: Seq<u8>)
    ensures
        serial_bytes(a + b) == serial_bytes(a) + serial_bytes(b),
    decreases b.len(),
{
    if b.len() == 0 {
        assert(a + b =~= a);
        assert(serial_bytes(a) + serial_bytes(b) =~= serial_bytes(a));
    } else {
        let t = b.drop_last();
        assert((a + b).drop_last() =~= a + t);
        assert((a + b).last() == b.last());
        law_serial_concat(a, t);
        if b.last() == 0x0A {
            assert(serial_bytes(a + b) =~= serial_bytes(a) + serial_bytes(b));
        } else {
            assert(serial_bytes(a + b) =~= serial_bytes(a) + serial_bytes(b));
        }
    }
}

/// A buffer of bytes on their way to the UART.
pub struct UartWriter {
    pub out: Vec<u8>,
}

impl UartWriter {
    /// An empty buffer.
    pub fn new() -> (w: Self)
        ensures
            w.out@ == Seq::<u8>::empty(),
    {
        UartWriter { out: Vec::new() }
    }

    /// Append raw bytes, with a carriage return in front of every newline.
    fn write_bytes(&mut self, bytes: &[u8])
        ensures
            final(self).out@ == old(self).out@ + serial_bytes(bytes@),
    {
        let ghost before = self.out@;
        let mut i: usize = 0;
        assert(bytes@.take(0) =~= Seq::<u8>::empty());
        assert(self.out@ =~= before + serial_bytes(bytes@.take(0)));
        while i < bytes.len()
            invariant
                i <= bytes@.len(),
                self.out@ == before + serial_bytes(bytes@.take(i as int)),
            decreases bytes.len() - i,
        {
            let b: u8 = bytes[i];
            if b == 0x0A {
                self.out.push(0x0D);
            }
            self.out.push(b);
            proof {
                let t = bytes@.take(i + 1);
                assert(t.drop_last() =~= bytes@.take(i as int));
                assert(t.last() == b);
                assert(self.out@ =~= before + serial_bytes(t));
            }
            i = i + 1;
        }
        assert(bytes@.take(i as int) =~= bytes@);
    }

    /// Append a string.
    pub fn write_str(&mut self, s: &str)
        ensures
            final(self).out@ == old(self).out@ + serial_bytes(encode_utf8(s@)),
    {
        self.write_bytes(s.as_bytes());
    }
}

/// The bytes to send for a string, in order: `\n` goes out as `\r\n`.
pub fn puts(s: &str) -> (r: Vec<u8>)
    ensures
        r@ == serial_bytes(encode_utf8(s@)),
{
    let mut w = UartWriter::new();
    w.write_str(s);
    proof {
        assert(w.out@ =~= serial_bytes(encode_utf8(s@)));
    }
    w.out
}

/// Severity of a log line.
#[derive(Debug, Clone, Copy, PartialEq, Eq, Structural)]
pub enum LogLevel {
    Error,
    Warn,
    Info,
    Debug,
    Trace,
}

/// Tag of a log line, padded to five characters.
pub fn level_str(level: LogLevel) -> (s: &'static str)
    ensures
        s@ == match level {
            LogLevel::Error => "ERROR"@,
            LogLevel::Warn => "WARN "@,
            LogLevel::Info => "INFO "@,
            LogLevel::Debug => "DEBUG"@,
            LogLevel::Trace => "TRACE"@,
        },
{
    match level {
        LogLevel::Error => "ERROR",
        LogLevel::Warn => "WARN ",
        LogLevel::Info => "INFO ",
        LogLevel::Debug => "DEBUG",
        LogLevel::Trace => "TRACE",
    }
}

/// The bytes of a log line: `[LEVEL] text` and a newline.
pub fn log_line(level: LogLevel, text: &str) -> (r: Vec<u8>)
    ensures
        r@ == serial_bytes(encode_utf8("["@)) + serial_bytes(
            encode_utf8(
                match level {
                    LogLevel::Error => "ERROR"@,
                    LogLevel::Warn => "WARN "@,
                    LogLevel::Info => "INFO "@,
                    LogLevel::Debug => "DEBUG"@,
                    LogLevel::Trace => "TRACE"@,
                },
            ),
        ) + serial_bytes(encode_utf8("] "@)) + serial_bytes(encode_utf8(text@)) + serial_bytes(
            encode_utf8("\n"@),
        ),
{
    let mut w = UartWriter::new();
    w.write_str("[");
    assert(w.out@ =~= serial_bytes(encode_utf8("["@)));
    w.write_str(level_str(level));
    w.write_str("] ");
    w.write_str(text);
    w.write_str("\n");
    w.out
}

/// A line feed goes out behind a carriage return, every other byte as it is.
pub proof fn law_serial_byte(b: u8)
    ensures
        serial_bytes(Seq::empty()).len() == 0,
        b == 10 ==> serial_bytes(seq![b]) == seq![13u8, 10u8],
        b != 10 ==> serial_bytes(seq![b]) == seq![b],
{
    reveal_with_fuel(serial_bytes, 2);
    assert(seq![b].drop_last() =~= Seq::empty());
    assert(b == 10 ==> serial_bytes(seq![b]) =~= seq![13u8, 10u8]);
    assert(b != 10 ==> serial_bytes(seq![b]) =~= seq![b]);
}

/// Setting up the UART: it is off and idle before the rate is set, 115200 baud at 24 MHz, with
/// eight bits and FIFOs, and on at last, sending and receiving.
pub proof fn law_uart_set_up(base: u64)
    requires
        base + 0x30 <= u64::MAX,
    ensures
        ({
            let s = init_steps(base as int);
            &&& s.len() == 6
            &&& s[0] matches UartStep::Write(w) && w.addr == base + 0x30 && w.val == 0
            &&& s[1] matches UartStep::WaitIdle(a) && a == base + 0x18
            &&& s[2] matches UartStep::Write(w) && w.addr == base + 0x24 && w.val == 13
            &&& s[3] matches UartStep::Write(w) && w.addr == base + 0x28 && w.val == 1
            &&& s[4] matches UartStep::Write(w) && w.addr == base + 0x2C && w.val == 0x70
            &&& s[5] matches UartStep::Write(w) && w.addr == base + 0x30 && w.val == 0x301
        }),
{
}

} // verus!
