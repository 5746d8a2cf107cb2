//! The decisions of the CPU thread: what it does on each message from the
//! main thread, while it waits to be started and while it runs. The thread
//! itself, its channels and its clock belong to the program around the
//! library.
use crate::emulator::events::{CpuThreadMessage, MainThreadMessage};
use vstd::prelude::*;

verus! {

/// How often the thread polls for the start message before it gives up.
pub const START_RETRIES: u32 = 2500;

/// The state of the CPU thread.
#[derive(Debug, Clone, Copy, PartialEq, Eq, Structural)]
pub enum State {
    /// Waiting for the start message.
    Pending,
    /// Executing instructions.
    Running,
    /// Stopped at the main thread's request.
    Finished,
    /// Stopped by an error.
    Error,
}

/// What the thread does after one poll for the start message.
#[derive(Debug, Clone, Copy, PartialEq, Eq, Structural)]
pub enum StartAction {
    /// Start executing: the state becomes `Running`.
    Run,
    /// Report the error back and exit, still `Pending`.
    ReportError,
    /// Sleep a millisecond and poll again, with one retry less.
    Retry(u32),
    /// Exit without having started.
    GiveUp,
}

/// What one poll while waiting leads to: `CpuStart` starts the thread and
/// `Error` is reported back, whatever the number of retries; anything else
/// costs a retry, and the last retry gives up.
pub open spec fn start_action(message: Option<MainThreadMessage>, retries: u32) -> StartAction {
    match message {
        Some(MainThreadMessage::CpuStart) => StartAction::Run,
        Some(MainThreadMessage::Error) => StartAction::ReportError,
        _ => if retries > 1 {
            StartAction::Retry((retries - 1) as u32)
        } else {
            StartAction::GiveUp
        },
    }
}

/// Decides on one poll for the start message, where `message` is what the
/// poll brought and `retries` how many polls are left, this one included.
pub fn on_start_poll(message: Option<MainThreadMessage>, retries: u32) -> (r: StartAction)
    ensures
        r == start_action(message, retries),
{
    match message {
        Some(MainThreadMessage::CpuStart) => StartAction::Run,
        Some(MainThreadMessage::Error) => StartAction::ReportError,
        _ => if retries > 1 {
            StartAction::Retry(retries - 1)
        } else {
            StartAction::GiveUp
        },
    }
}

/// The state and the reply after a heartbeat tick of a running thread. A
/// heartbeat that could not be sent is an error. Then the message that the
/// poll brought decides: `Error` and `Finished` are acknowledged and stop
/// the thread, anything else changes nothing.
pub open spec fn heartbeat_outcome(heartbeat_sent: bool, message: Option<MainThreadMessage>) -> (
    State,
    Option<CpuThreadMessage>,
) {
    match message {
        Some(MainThreadMessage::Error) => (State::Error, Some(CpuThreadMessage::Error)),
        Some(MainThreadMessage::Finished) => (State::Finished, Some(CpuThreadMessage::Finished)),
        _ => (
            if heartbeat_sent {
                State::Running
            } else {
                State::Error
            },
            None,
        ),
    }
}

/// Decides on a heartbeat tick of a running thread, where `heartbeat_sent`
/// says whether the heartbeat went out and `message` is what the poll
/// brought. Returns the next state and the message to send back.
pub fn on_heartbeat(heartbeat_sent: bool, message: Option<MainThreadMessage>) -> (r: (
    State,
    Option<CpuThreadMessage>,
))
    ensures
        r == heartbeat_outcome(heartbeat_sent, message),
{
    match message {
        Some(MainThreadMessage::Error) => (State::Error, Some(CpuThreadMessage::Error)),
        Some(MainThreadMessage::Finished) => (State::Finished, Some(CpuThreadMessage::Finished)),
        _ => (
            if heartbeat_sent {
                State::Running
            } else {
                State::Error
            },
            None,
        ),
    }
}

} // verus!
