//! Inter-process communication: rendezvous channels and the system calls that
//! send and receive messages between tasks.

use vstd::prelude::*;

pub mod call_laws;
pub mod channel;
pub mod frames;
pub mod laws;
pub mod memory_laws;
pub mod message;
pub mod order;
pub mod process;
pub mod syscall;

verus! {

/// Handle of an IPC endpoint.
#[derive(Debug, Clone, Copy, PartialEq, Eq, Structural)]
pub struct EndpointId(pub u32);

/// Maximum payload of a synchronous message, in bytes.
pub const MSG_MAX_BYTES: usize = 64;

/// A fixed-size, copy-based message.
#[derive(Debug, Clone, Copy)]
pub struct Message {
    pub sender: EndpointId,
    pub opcode: u32,
    pub data: [u8; MSG_MAX_BYTES],
}

} // verus!
