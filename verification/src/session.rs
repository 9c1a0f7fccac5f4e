//! The per-session state machine: what one connection's loop decides on each
//! poll of its socket. The loop's driver performs the reads, writes and
//! pauses; every decision between them is made here.

use vstd::prelude::*;
use crate::message::tag_message;
use crate::message::tagged;

verus! {

/// The read buffer capacity: a hard cap on how many bytes one read call hands
/// to one broadcast. It is no message boundary: a longer stream arrives as
/// several broadcasts, with no reassembly.
pub const READ_CHUNK: usize = 1024;

/// Where one session stands.
#[derive(Clone, Copy, PartialEq, Eq, Structural, Debug)]
pub enum SessionState {
    /// The session polls its connection and forwards what it reads.
    Active,
    /// The session is ending: its identifier must leave the registry.
    Draining,
    /// The session is over; its connection's resources may be released.
    Terminated,
}

/// What one poll of an active session's connection observed.
#[derive(Debug)]
pub enum SessionEvent {
    /// The health check found a pending socket error.
    HealthFailed,
    /// A read returned zero bytes: the peer closed the connection.
    PeerClosed,
    /// A read returned these bytes (at most `READ_CHUNK` of them).
    Data(Vec<u8>),
    /// Nothing is available right now on the non-blocking handle; retriable.
    WouldBlock,
    /// A read failed with an unexpected error.
    ReadFailed,
}

/// What the session's driver must do after a step.
#[derive(Debug)]
pub enum SessionAction {
    /// Deliver this text to every currently registered connection.
    Broadcast(String),
    /// Wait a short fixed interval, then poll again.
    Pause,
    /// Remove this session's identifier from the registry.
    Deregister,
    /// Nothing; poll again at once (or stop, if the session is over).
    Idle,
}

/// One step of the session whose identifier is `id`: from the current state
/// and the observed event to the next state and the action the driver owes.
///
/// An active session broadcasts what it reads, tagged with its identifier;
/// pauses on a retriable empty poll; and starts draining on peer close, on a
/// failed health check, or on any other read error. A draining session
/// deregisters and terminates; the event is ignored outside `Active`. A
/// session never returns to an earlier state, and only an active session
/// broadcasts.
pub fn session_step(state: SessionState, id: u32, event: SessionEvent) -> (r: (
    SessionState,
    SessionAction,
))
    ensures
        state is Terminated ==> r.0 is Terminated && r.1 is Idle,
        state is Draining ==> r.0 is Terminated && r.1 is Deregister,
        state is Active ==> match event {
            SessionEvent::HealthFailed => r.0 is Draining && r.1 is Idle,
            SessionEvent::PeerClosed => r.0 is Draining && r.1 is Idle,
            SessionEvent::Data(bytes) => r.0 is Active && (r.1 matches SessionAction::Broadcast(m)
                && m@ == tagged(id, bytes@)),
            SessionEvent::WouldBlock => r.0 is Active && r.1 is Pause,
            SessionEvent::ReadFailed => r.0 is Draining && r.1 is Idle,
        },
        r.0 is Active ==> state is Active,
        r.1 is Broadcast ==> state is Active && r.0 is Active,
{
    match state {
        SessionState::Terminated => (SessionState::Terminated, SessionAction::Idle),
        SessionState::Draining => (SessionState::Terminated, SessionAction::Deregister),
        SessionState::Active => match event {
            SessionEvent::HealthFailed => (SessionState::Draining, SessionAction::Idle),
            SessionEvent::PeerClosed => (SessionState::Draining, SessionAction::Idle),
            SessionEvent::Data(bytes) => {
                let m = tag_message(id, bytes.as_slice());
                (SessionState::Active, SessionAction::Broadcast(m))
            },
            SessionEvent::WouldBlock => (SessionState::Active, SessionAction::Pause),
            SessionEvent::ReadFailed => (SessionState::Draining, SessionAction::Idle),
        },
    }
}

} // verus!
