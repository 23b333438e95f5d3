//! The per-connection state machine: one handshake message gates
//! registry admission, then the connection only drains its queue until it
//! closes.
//!
//! The transport loop outside this crate feeds every inbound event into
//! `conn_step` and performs the returned action: sending a reply,
//! registering the session on a successful login, or nothing. Every
//! decision the loop takes is fixed here, so the whole lifecycle is
//! checked: only the exact frame `"login"` ever authenticates, and a
//! connection that never sends it is never to be registered.

use vstd::prelude::*;
use crate::msg::{build_login_failure_message, build_login_message, error_wire, login_wire};

verus! {

/// Where a connection stands in its lifecycle.
#[derive(PartialEq, Eq, Structural, Clone, Copy, Debug)]
pub enum ConnState {
    /// Connected, not yet authenticated: no session is registered.
    AwaitingLogin,
    /// Handshake done: a session under this connection's identity is to
    /// be registered and its queue drained to the transport.
    Authenticated,
    /// Gone: the session, if one was registered, is to be removed.
    Closed,
}

/// One thing the transport observed on a connection.
pub enum ConnEvent {
    /// A text frame arrived with this payload.
    TextFrame(String),
    /// A frame arrived that carries no text; it is ignored.
    UnreadableFrame,
    /// The transport closed or failed in either direction.
    ConnectionLost,
    /// Writing a reply to the transport failed.
    SendFailed,
}

/// What the transport loop must do next.
pub enum ConnAction {
    /// Send this text, register the session, then keep draining its
    /// queue: the handshake succeeded.
    AcceptLogin(String),
    /// Send this text and keep waiting for a login; the connection stays
    /// open after a bad attempt.
    RejectLogin(String),
    /// Nothing to send, nothing to register.
    NoAction,
}

/// The next state after one event.
pub open spec fn conn_next(state: ConnState, event: ConnEvent) -> ConnState {
    match state {
        ConnState::AwaitingLogin => match event {
            ConnEvent::TextFrame(f) => if f@ == "login"@ {
                ConnState::Authenticated
            } else {
                ConnState::AwaitingLogin
            },
            ConnEvent::UnreadableFrame => ConnState::AwaitingLogin,
            ConnEvent::ConnectionLost => ConnState::Closed,
            ConnEvent::SendFailed => ConnState::Closed,
        },
        ConnState::Authenticated => match event {
            ConnEvent::TextFrame(_) => ConnState::Authenticated,
            ConnEvent::UnreadableFrame => ConnState::Authenticated,
            ConnEvent::ConnectionLost => ConnState::Closed,
            ConnEvent::SendFailed => ConnState::Closed,
        },
        ConnState::Closed => ConnState::Closed,
    }
}

/// Whether one event authenticates the connection: only the exact frame
/// `"login"`, received while awaiting login, does.
pub open spec fn authenticates(state: ConnState, event: ConnEvent) -> bool {
    &&& state is AwaitingLogin
    &&& event matches ConnEvent::TextFrame(f) && f@ == "login"@
}

/// Advances a connection by one event and says what to do: the reply to
/// send, and whether to register the session. `user_id` is the identity
/// the caller minted for this connection; it only reaches the wire when
/// the handshake succeeds.
pub fn conn_step(state: ConnState, event: ConnEvent, user_id: &str) -> (r: (ConnState, ConnAction))
    ensures
        r.0 == conn_next(state, event),
        authenticates(state, event) ==> (r.1 matches ConnAction::AcceptLogin(m) && m@
            == login_wire(user_id@)),
        state is AwaitingLogin && (event matches ConnEvent::TextFrame(f) && f@ != "login"@) ==> (
        r.1 matches ConnAction::RejectLogin(m) && m@ == error_wire(
            "You must login before continuing"@,
        )),
        !(state is AwaitingLogin && event is TextFrame) ==> r.1 is NoAction,
{
    match state {
        ConnState::AwaitingLogin => match event {
            ConnEvent::TextFrame(f) => {
                if f.eq(&String::from_str("login")) {
                    let reply = build_login_message_for(user_id);
                    (ConnState::Authenticated, ConnAction::AcceptLogin(reply))
                } else {
                    (ConnState::AwaitingLogin, ConnAction::RejectLogin(build_login_failure_message()))
                }
            },
            ConnEvent::UnreadableFrame => (ConnState::AwaitingLogin, ConnAction::NoAction),
            ConnEvent::ConnectionLost => (ConnState::Closed, ConnAction::NoAction),
            ConnEvent::SendFailed => (ConnState::Closed, ConnAction::NoAction),
        },
        ConnState::Authenticated => match event {
            ConnEvent::TextFrame(_) => (ConnState::Authenticated, ConnAction::NoAction),
            ConnEvent::UnreadableFrame => (ConnState::Authenticated, ConnAction::NoAction),
            ConnEvent::ConnectionLost => (ConnState::Closed, ConnAction::NoAction),
            ConnEvent::SendFailed => (ConnState::Closed, ConnAction::NoAction),
        },
        ConnState::Closed => (ConnState::Closed, ConnAction::NoAction),
    }
}

/// The state a connection reaches from `state` after this sequence of
/// events.
pub open spec fn conn_run(state: ConnState, events: Seq<ConnEvent>) -> ConnState
    decreases events.len(),
{
    if events.len() == 0 {
        state
    } else {
        conn_run(conn_next(state, events[0]), events.drop_first())
    }
}

/// Whether any step of the run authenticates.
pub open spec fn run_authenticates(state: ConnState, events: Seq<ConnEvent>) -> bool
    decreases events.len(),
{
    if events.len() == 0 {
        false
    } else {
        authenticates(state, events[0]) || run_authenticates(
            conn_next(state, events[0]),
            events.drop_first(),
        )
    }
}

/// A connection that never sends the exact frame `"login"` never
/// authenticates: no step of its whole run asks for a registration, so
/// its session never appears in the registry, and it never leaves
/// `AwaitingLogin` except by closing.
pub proof fn lemma_no_login_never_registered(events: Seq<ConnEvent>)
    requires
        forall|i: int|
            0 <= i < events.len() ==> !((#[trigger] events[i]) matches ConnEvent::TextFrame(f)
                && f@ == "login"@),
    ensures
        !run_authenticates(ConnState::AwaitingLogin, events),
        conn_run(ConnState::AwaitingLogin, events) is AwaitingLogin || conn_run(
            ConnState::AwaitingLogin,
            events,
        ) is Closed,
    decreases events.len(),
{
    if events.len() > 0 {
        let next = conn_next(ConnState::AwaitingLogin, events[0]);
        assert(!authenticates(ConnState::AwaitingLogin, events[0]));
        assert(next is AwaitingLogin || next is Closed);
        assert forall|i: int|
            0 <= i < events.drop_first().len() implies !((#[trigger] events.drop_first()[i])
            matches ConnEvent::TextFrame(f) && f@ == "login"@) by {
            assert(events.drop_first()[i] == events[i + 1]);
        }
        if next is AwaitingLogin {
            lemma_no_login_never_registered(events.drop_first());
        } else {
            lemma_closed_stays_closed(events.drop_first());
        }
    }
}

/// A closed connection stays closed and never authenticates.
pub proof fn lemma_closed_stays_closed(events: Seq<ConnEvent>)
    ensures
        !run_authenticates(ConnState::Closed, events),
        conn_run(ConnState::Closed, events) is Closed,
    decreases events.len(),
{
    if events.len() > 0 {
        lemma_closed_stays_closed(events.drop_first());
    }
}

/// Builds the handshake reply for a minted identity.
fn build_login_message_for(user_id: &str) -> (s: String)
    ensures
        s@ == login_wire(user_id@),
{
    build_login_message(user_id.to_owned())
}

} // verus!
