//! The private one-to-one session: a duplex text channel whose life is
//! `Idle`, then `Connecting` (connector side only), then `Open`, then
//! `Closed` — and `Closed` is terminal. While open, one pump displays
//! each non-empty remote line tagged with the peer and the other sends
//! each local line, until either stream ends, an I/O error occurs, or
//! the local user types the exit command. A closed session is never
//! reopened; a new conversation needs a fresh connection.

use vstd::prelude::*;

use crate::bytes::{bytes_eq, trim_bytes, trim_spec};

verus! {

/// The life of one private session.
#[derive(Clone, Copy, PartialEq, Eq, Structural, Debug)]
pub enum SessionState {
    /// No session yet.
    Idle,
    /// An outbound connection is being opened.
    Connecting,
    /// The duplex channel is up and both pumps run.
    Open,
    /// The session is over, for good.
    Closed,
}

/// One thing that happened to a session.
pub enum SessionEvent {
    /// The connector started dialing a resolved address.
    DialStarted,
    /// The acceptor took an inbound connection.
    AcceptedConnection,
    /// The outbound connection completed.
    ConnectionEstablished,
    /// The outbound connection could not be opened.
    ConnectionFailed,
    /// The peer sent one newline-terminated line.
    RemoteLine { line: Vec<u8> },
    /// The peer closed its end of the stream.
    RemoteClosed,
    /// The local user typed one line.
    LocalLine { line: Vec<u8> },
    /// Reading or writing the stream failed.
    TransportError,
}

/// What the session asks its surroundings to do next.
pub enum SessionAction {
    /// Nothing.
    Continue,
    /// Show the line, tagged with the peer's address.
    DisplayLine { line: Vec<u8> },
    /// Write the line, newline-terminated, to the peer.
    SendLine { line: Vec<u8> },
    /// Close the underlying connection and stop both pumps.
    CloseLink,
}

/// The bytes of the local exit command `/exit`.
pub open spec fn exit_cmd() -> Seq<u8> {
    seq![47u8, 101u8, 120u8, 105u8, 116u8]
}

fn exit_cmd_vec() -> (r: Vec<u8>)
    ensures
        r@ == exit_cmd(),
{
    let mut v: Vec<u8> = Vec::new();
    v.push(47);
    v.push(101);
    v.push(120);
    v.push(105);
    v.push(116);
    proof {
        assert(v@ =~= exit_cmd());
    }
    v
}

/// Advances one session by one event. `Closed` is terminal: no event
/// changes it or provokes an action. While `Open`, a non-empty remote
/// line is displayed trimmed, an empty one is dropped, a local line is
/// sent trimmed unless it is the exit command, which closes the
/// session, and stream end or failure closes the session; a closed
/// outbound dial attempt also ends the session.
pub fn session_step(state: SessionState, event: SessionEvent) -> (r: (
    SessionState,
    SessionAction,
))
    ensures
        match state {
            SessionState::Closed => r.0 is Closed && r.1 is Continue,
            SessionState::Idle => match event {
                SessionEvent::DialStarted => r.0 is Connecting && r.1 is Continue,
                SessionEvent::AcceptedConnection => r.0 is Open && r.1 is Continue,
                _ => r.0 is Idle && r.1 is Continue,
            },
            SessionState::Connecting => match event {
                SessionEvent::ConnectionEstablished => r.0 is Open && r.1 is Continue,
                SessionEvent::ConnectionFailed => r.0 is Closed && r.1 is Continue,
                _ => r.0 is Connecting && r.1 is Continue,
            },
            SessionState::Open => match event {
                SessionEvent::RemoteLine { line } => r.0 is Open && (if trim_spec(line@).len()
                    == 0 {
                    r.1 is Continue
                } else {
                    r.1 matches SessionAction::DisplayLine { line: l } && l@ == trim_spec(line@)
                }),
                SessionEvent::LocalLine { line } => (if trim_spec(line@) == exit_cmd() {
                    r.0 is Closed && r.1 is CloseLink
                } else {
                    r.0 is Open && (r.1 matches SessionAction::SendLine { line: l } && l@
                        == trim_spec(line@))
                }),
                SessionEvent::RemoteClosed => r.0 is Closed && r.1 is CloseLink,
                SessionEvent::TransportError => r.0 is Closed && r.1 is CloseLink,
                _ => r.0 is Open && r.1 is Continue,
            },
        },
{
    match state {
        SessionState::Closed => (SessionState::Closed, SessionAction::Continue),
        SessionState::Idle => match event {
            SessionEvent::DialStarted => (SessionState::Connecting, SessionAction::Continue),
            SessionEvent::AcceptedConnection => (SessionState::Open, SessionAction::Continue),
            _ => (SessionState::Idle, SessionAction::Continue),
        },
        SessionState::Connecting => match event {
            SessionEvent::ConnectionEstablished => (SessionState::Open, SessionAction::Continue),
            SessionEvent::ConnectionFailed => (SessionState::Closed, SessionAction::Continue),
            _ => (SessionState::Connecting, SessionAction::Continue),
        },
        SessionState::Open => match event {
            SessionEvent::RemoteLine { line } => {
                let t = trim_bytes(&line);
                if t.len() == 0 {
                    (SessionState::Open, SessionAction::Continue)
                } else {
                    (SessionState::Open, SessionAction::DisplayLine { line: t })
                }
            },
            SessionEvent::LocalLine { line } => {
                let t = trim_bytes(&line);
                let exit = exit_cmd_vec();
                if bytes_eq(&t, &exit) {
                    (SessionState::Closed, SessionAction::CloseLink)
                } else {
                    (SessionState::Open, SessionAction::SendLine { line: t })
                }
            },
            SessionEvent::RemoteClosed => (SessionState::Closed, SessionAction::CloseLink),
            SessionEvent::TransportError => (SessionState::Closed, SessionAction::CloseLink),
            _ => (SessionState::Open, SessionAction::Continue),
        },
    }
}

} // verus!
