//! What a panic prints.

use vstd::prelude::*;
use vstd::utf8::encode_utf8;
use crate::bytes::append;
use crate::numbers::{decimal, push_decimal};

verus! {

/// Semihosting operation that ends the simulation.
pub const SYS_EXIT_EXTENDED: u64 = 0x20;

/// Reason: the application has ended.
pub const ADP_STOPPED_APPLICATION_EXIT: u64 = 0x20026;

/// Parameter block of the semihosting call that ends the simulation with an exit code.
pub fn semihosting_exit(code: u64) -> (block: [u64; 2])
    ensures
        block@ == seq![ADP_STOPPED_APPLICATION_EXIT, code],
{
    let block: [u64; 2] = [ADP_STOPPED_APPLICATION_EXIT, code];
    assert(block@ =~= seq![ADP_STOPPED_APPLICATION_EXIT, code]);
    block
}

/// Where a panic happened.
#[derive(Debug, Clone, Copy)]
pub struct Place<'a> {
    pub file: &'a str,
    pub line: u32,
}

/// The place in the text of a panic.
pub open spec fn place_text(place: Option<Place>) -> Seq<u8> {
    match place {
        Some(p) => encode_utf8(p.file@) + encode_utf8(":"@) + decimal(p.line as nat) + encode_utf8(
            " — "@,
        ),
        None => Seq::empty(),
    }
}

/// The message in the text of a panic: an empty literal is spelled out.
pub open spec fn message_text(message: Seq<char>, literal: bool) -> Seq<u8> {
    if literal && message.len() == 0 {
        encode_utf8("(no message)"@)
    } else {
        encode_utf8(message)
    }
}

/// The text of a panic; `literal` says that the message is one, not the result of formatting.
pub fn panic_text(place: Option<Place>, message: &str, literal: bool) -> (r: Vec<u8>)
    ensures
        r@ == encode_utf8("\n\n[PANIC] "@) + place_text(place) + message_text(message@, literal)
            + encode_utf8("\n"@),
{
    let mut out: Vec<u8> = Vec::new();
    append(&mut out, "\n\n[PANIC] ".as_bytes());
    assert(out@ =~= encode_utf8("\n\n[PANIC] "@));
    let ghost head = out@;
    if let Some(p) = place {
        append(&mut out, p.file.as_bytes());
        append(&mut out, ":".as_bytes());
        push_decimal(&mut out, p.line as u64);
        append(&mut out, " — ".as_bytes());
    }
    assert(out@ =~= head + place_text(place));
    let text = message.as_bytes();
    let n: usize = text.len();
    if literal && n == 0 {
        append(&mut out, "(no message)".as_bytes());
    } else {
        append(&mut out, text);
    }
    proof {
        lemma_empty(message@);
    }
    append(&mut out, "\n".as_bytes());
    out
}

/// A text is empty exactly if it has no bytes.
proof fn lemma_empty(s: Seq<char>)
    ensures
        encode_utf8(s).len() == 0 <==> s.len() == 0,
{
    vstd::utf8::encode_utf8_decode_utf8(s);
    if encode_utf8(s).len() == 0 {
        assert(encode_utf8(s) =~= encode_utf8(Seq::<char>::empty())) by {
            reveal_with_fuel(encode_utf8, 1);
        }
        vstd::utf8::encode_utf8_decode_utf8(Seq::<char>::empty());
    }
    if s.len() == 0 {
        reveal_with_fuel(encode_utf8, 1);
    }
}

/// A panic's text tells file and line where they are known, and the message, or that there is
/// none.
pub proof fn law_panic_parts(p: Place, message: Seq<char>, literal: bool)
    ensures
        place_text(None).len() == 0,
        place_text(Some(p)) == encode_utf8(p.file@) + encode_utf8(":"@) + decimal(p.line as nat)
            + encode_utf8(" — "@),
        message.len() > 0 || !literal ==> message_text(message, literal) == encode_utf8(message),
        message.len() == 0 && literal ==> message_text(message, literal) == encode_utf8(
            "(no message)"@,
        ),
{
}

} // verus!
