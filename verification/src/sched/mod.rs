//! Scheduler subsystem: core types, task table and the scheduling points.
//!
//! There is one run queue for all CPUs.  Every scheduling point changes task
//! states, picks the next task and names the context switch to make; the
//! caller saves and restores the registers.

use vstd::prelude::*;

pub mod exclusion;
pub mod laws;
pub mod run;
pub mod task;

verus! {

/// Unique task identifier.
#[derive(Debug, Clone, Copy, PartialEq, Eq, Structural)]
pub struct TaskId(pub u32);

/// Task states.
#[derive(Debug, Clone, Copy, PartialEq, Eq, Structural)]
pub enum TaskState {
    Ready,
    Running,
    Blocked,
    Zombie,
}

/// Priority of the idle slots: never wins while anything else runs.
pub const PRIO_IDLE: u8 = 255;

/// Default priority of plain tasks.
pub const PRIO_NORMAL: u8 = 128;

/// A fixed-size IPC message with 32 bytes of payload.
#[derive(Debug, Clone, Copy)]
pub struct Message {
    /// Sender's task id, stamped by the kernel.
    pub src: u32,
    /// Message type.
    pub mtype: u32,
    /// Payload words, interpreted per `mtype`.
    pub data: [u32; 8],
}

impl Message {
    /// An empty message of type `mtype`.
    pub fn new(mtype: u32) -> (m: Self)
        ensures
            m.src == 0,
            m.mtype == mtype,
            m.data@ == Seq::new(8, |i: int| 0u32),
    {
        let m = Self { src: 0, mtype, data: [0u32;8] };
        assert(m.data@ =~= Seq::new(8, |i: int| 0u32));
        m
    }

    /// The message with its sender stamped.
    pub open spec fn stamped(self, src: u32) -> Message {
        Message { src, ..self }
    }
}

/// Filter of `receive` that accepts a message from any sender.
pub const M_ANY: i32 = -1;

/// Boot info block handed to every server task.
#[derive(Debug, Clone, Copy)]
pub struct BootInfo {
    /// The task's own id.
    pub task_id: u32,
    /// Machine id.
    pub machine: u32,
}

/// A sender that is blocked until its receiver accepts the message, which was
/// copied when the sender parked.
#[derive(Debug, Clone, Copy)]
pub struct PendingSend {
    pub src: u32,
    pub msg: Message,
}

/// A message staged on the sender because the receiver's queue was full.
#[derive(Debug, Clone, Copy)]
pub struct StagedSend {
    /// Receiver the message is for.
    pub dst: u32,
    /// Sender.
    pub src: u32,
    pub msg: Message,
}

} // verus!
