//! The messages that the CPU thread and the main thread send each other.
use vstd::prelude::*;

verus! {

/// What the CPU thread tells the main thread.
#[derive(Debug, Clone, Copy, PartialEq, Eq, Structural)]
pub enum CpuThreadMessage {
    /// The CPU thread has finished executing.
    Finished,
    /// Something went wrong in the CPU thread.
    Error,
    /// The CPU thread is alive.
    Heartbeat,
}

/// What the main thread tells the CPU thread.
#[derive(Debug, Clone, Copy, PartialEq, Eq, Structural)]
pub enum MainThreadMessage {
    /// The main thread has finished: stop executing.
    Finished,
    /// The main thread has met an error.
    Error,
    /// Start executing.
    CpuStart,
}

} // verus!
