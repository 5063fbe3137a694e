//! Messages in the data buffers.
//!
//! A message is an opcode byte, two zero bytes, a length byte and the payload.  `Print`
//! asks the guest to print its payload; the guest answers with `Echo`, whose payload is
//! the number of bytes printed.

use vstd::prelude::*;
use crate::bytes::{le32, read_le32};
use crate::virtio::BUF_SIZE;

verus! {

/// Kinds of messages.
#[derive(Debug, Clone, Copy, PartialEq, Eq, Structural)]
pub enum Opcode {
    /// Print the payload.
    Print,
    /// The payload is the number of bytes printed.
    Echo,
}

/// Opcode byte of `Print`.
pub const OP_PRINT: u8 = 0x01;

/// Opcode byte of `Echo`.
pub const OP_ECHO: u8 = 0x02;

/// Most bytes of a payload.
pub const MAX_PAYLOAD: usize = 252;

/// The kind of message in a buffer.
pub open spec fn opcode_of(buf: Seq<u8>) -> Option<Opcode> {
    if buf[0] == OP_PRINT {
        Some(Opcode::Print)
    } else if buf[0] == OP_ECHO {
        Some(Opcode::Echo)
    } else {
        None
    }
}

/// The payload of the message in a buffer.
pub open spec fn payload_of(buf: Seq<u8>) -> Seq<u8> {
    buf.subrange(
        4,
        if buf[3] > MAX_PAYLOAD {
            256
        } else {
            4 + buf[3]
        },
    )
}

/// Bytes of a text that fit in a payload.
pub open spec fn print_len(n: nat) -> nat {
    if n > MAX_PAYLOAD {
        MAX_PAYLOAD as nat
    } else {
        n
    }
}

/// A buffer after a `Print` message was encoded into it.
pub open spec fn printed(buf: Seq<u8>, text: Seq<u8>) -> Seq<u8> {
    Seq::new(
        256,
        |i: int|
            if i == 0 {
                OP_PRINT
            } else if i == 1 || i == 2 {
                0
            } else if i == 3 {
                print_len(text.len()) as u8
            } else if i < 4 + print_len(text.len()) {
                text[i - 4]
            } else {
                buf[i]
            },
    )
}

/// A buffer after an `Echo` message was encoded into it.
pub open spec fn echoed(buf: Seq<u8>, n: u32) -> Seq<u8> {
    Seq::new(
        256,
        |i: int|
            if i == 0 {
                OP_ECHO
            } else if i == 1 || i == 2 {
                0
            } else if i == 3 {
                4
            } else if i == 4 {
                (n % 0x100) as u8
            } else if i == 5 {
                (n / 0x100 % 0x100) as u8
            } else if i == 6 {
                (n / 0x1_0000 % 0x100) as u8
            } else if i == 7 {
                (n / 0x100_0000) as u8
            } else {
                buf[i]
            },
    )
}

/// A message in a buffer.
pub struct Msg<'a> {
    pub buf: &'a [u8; BUF_SIZE],
}

impl<'a> Msg<'a> {
    /// The kind of message.
    pub fn opcode(&self) -> (r: Option<Opcode>)
        ensures
            r == opcode_of(self.buf@),
    {
        let op: u8 = self.buf[0];
        if op == OP_PRINT {
            Some(Opcode::Print)
        } else if op == OP_ECHO {
            Some(Opcode::Echo)
        } else {
            None
        }
    }

    /// The length byte.
    pub fn payload_len(&self) -> (n: usize)
        ensures
            n == self.buf@[3],
    {
        self.buf[3] as usize
    }

    /// The payload; a length beyond the buffer is cut.
    pub fn payload(&self) -> (p: &[u8])
        ensures
            p@ == payload_of(self.buf@),
    {
        let mut len: usize = self.payload_len();
        if len > MAX_PAYLOAD {
            len = MAX_PAYLOAD;
        }
        vstd::slice::slice_subrange(self.buf.as_slice(), 4, 4 + len)
    }

    /// Encode a `Print` message.  Returns its bytes in the buffer.
    pub fn write_print(buf: &mut [u8; BUF_SIZE], text: &[u8]) -> (n: u32)
        ensures
            final(buf)@ == printed(old(buf)@, text@),
            n == 4 + print_len(text@.len()),
    {
        let ghost pre = buf@;
        let len: usize = if text.len() > MAX_PAYLOAD {
            MAX_PAYLOAD
        } else {
            text.len()
        };
        buf[0] = OP_PRINT;
        buf[1] = 0;
        buf[2] = 0;
        buf[3] = len as u8;
        let mut i: usize = 0;
        while i < len
            invariant
                i <= len,
                len == print_len(text@.len()),
                len <= text@.len(),
                buf@.len() == 256,
                pre.len() == 256,
                forall|k: int|
                    0 <= k < 256 ==> #[trigger] buf@[k] == if k < 4 + i {
                        printed(pre, text@)[k]
                    } else {
                        pre[k]
                    },
            decreases len - i,
        {
            buf[4 + i] = text[i];
            i = i + 1;
        }
        assert(buf@ =~= printed(pre, text@));
        4 + len as u32
    }

    /// Encode an `Echo` message.  Returns its bytes in the buffer.
    pub fn write_echo(buf: &mut [u8; BUF_SIZE], count: u32) -> (n: u32)
        ensures
            final(buf)@ == echoed(old(buf)@, count),
            n == 8,
    {
        let ghost pre = buf@;
        buf[0] = OP_ECHO;
        buf[1] = 0;
        buf[2] = 0;
        buf[3] = 4;
        buf[4] = (count % 0x100) as u8;
        buf[5] = (count / 0x100 % 0x100) as u8;
        buf[6] = (count / 0x1_0000 % 0x100) as u8;
        buf[7] = (count / 0x100_0000) as u8;
        assert(buf@ =~= echoed(pre, count));
        8
    }

    /// The number of bytes printed of an `Echo` message.
    pub fn read_echo(buf: &[u8; BUF_SIZE]) -> (n: u32)
        ensures
            n == le32(buf@, 4),
    {
        read_le32(buf.as_slice(), 4)
    }
}

/// A `Print` message reads back as the text, cut to what fits.
pub proof fn law_print_round_trip(buf: Seq<u8>, text: Seq<u8>)
    ensures
        opcode_of(printed(buf, text)) == Some(Opcode::Print),
        payload_of(printed(buf, text)) == text.take(print_len(text.len()) as int),
{
    assert(payload_of(printed(buf, text)) =~= text.take(print_len(text.len()) as int));
}

/// An `Echo` message reads back as the count.
pub proof fn law_echo_round_trip(buf: Seq<u8>, count: u32)
    ensures
        opcode_of(echoed(buf, count)) == Some(Opcode::Echo),
        le32(echoed(buf, count), 4) == count,
{
    let b = echoed(buf, count);
    assert(b[4] == count % 0x100);
    assert(b[5] == count / 0x100 % 0x100);
    assert(b[6] == count / 0x1_0000 % 0x100);
    assert(b[7] == count / 0x100_0000);
    assert(count % 0x100 + (count / 0x100 % 0x100) * 0x100 + (count / 0x1_0000 % 0x100) * 0x1_0000
        + (count / 0x100_0000) * 0x100_0000 == count) by (bit_vector);
}

/// A message to print: opcode 1, two zero bytes, the number of bytes, at most 252, and those;
/// the rest of the buffer stays.
pub proof fn law_print_layout(buf: Seq<u8>, text: Seq<u8>, i: int)
    requires
        buf.len() == 256,
        0 <= i < 256,
    ensures
        ({
            let m = printed(buf, text);
            let n = if text.len() < 252 {
                text.len() as int
            } else {
                252
            };
            &&& m.len() == 256
            &&& m[0] == 1 && m[1] == 0 && m[2] == 0 && m[3] == n
            &&& 4 <= i < 4 + n ==> m[i] == text[i - 4]
            &&& i >= 4 + n ==> m[i] == buf[i]
            &&& print_len(text.len()) == n
        }),
{
}

/// An answer: opcode 2, two zero bytes, a length of 4, and the number with its low byte first;
/// the rest of the buffer stays.
pub proof fn law_echo_layout(buf: Seq<u8>, n: u32, i: int)
    requires
        buf.len() == 256,
        8 <= i < 256,
    ensures
        ({
            let m = echoed(buf, n);
            &&& m.len() == 256
            &&& m[0] == 2 && m[1] == 0 && m[2] == 0 && m[3] == 4
            &&& m[4] + 256 * m[5] + 65536 * m[6] + 16777216 * m[7] == n
            &&& m[i] == buf[i]
        }),
{
}

/// A message is told by its first byte, its payload by the fourth, from the fifth byte on.
pub proof fn law_message_is_read(buf: Seq<u8>, k: int)
    requires
        buf.len() == 256,
        0 <= k,
    ensures
        buf[0] == 1 <==> opcode_of(buf) == Some(Opcode::Print),
        buf[0] == 2 <==> opcode_of(buf) == Some(Opcode::Echo),
        buf[0] != 1 && buf[0] != 2 <==> opcode_of(buf) is None,
        payload_of(buf).len() == if buf[3] < 252 {
            buf[3] as int
        } else {
            252
        },
        k < payload_of(buf).len() ==> payload_of(buf)[k] == buf[4 + k],
{
}

} // verus!
