//! The event connection's state machine. The machine owns the decisions of
//! the WebSocket lifecycle — connect, authenticate, heartbeat, decode,
//! reconnect on failure — as a function from state and event to next state
//! and action. The driver that performs the actions (handshakes, sends,
//! sleeps, receives) lives outside the library and feeds the outcomes back
//! in as events.

use vstd::prelude::*;
use crate::kritor::{view_push, PushMessageBody, PushModel};
use crate::schema::{event_convertible, spec_event_push, convert_event, Event};

verus! {

/// Seconds slept after a failed handshake before the next attempt: a
/// fixed backoff, with no cap on the number of retries.
pub const RETRY_SECS: u64 = 5;

/// Seconds between heartbeat frames while streaming.
pub const HEARTBEAT_SECS: u64 = 10;

#[derive(Clone, Copy, Debug, PartialEq, Eq, Structural)]
pub enum ConnState {
    Disconnected,
    Connecting,
    Authenticating,
    Streaming,
}

/// What the driver reports to the machine.
#[derive(Debug)]
pub enum ConnEvent {
    /// The driver is ready to attempt a connection.
    Wake,
    HandshakeSucceeded,
    HandshakeFailed,
    /// The identify frame was handed to the socket; its outcome is not
    /// awaited and does not matter.
    IdentifySent,
    HeartbeatTick,
    HeartbeatSendOk,
    HeartbeatSendFailed,
    /// A text frame arrived: its top-level `op` and, for a dispatch, its
    /// decoded body.
    Frame { op: i64, body: Option<Event> },
    /// A receive error, or the connection closed.
    ReceiveFailed,
}

/// What the machine asks the driver to do.
#[derive(Debug)]
pub enum ConnAction {
    AttemptHandshake,
    /// Sleep the fixed backoff, then report `Wake`.
    SleepRetry,
    /// Send the identify frame carrying this token.
    SendIdentify(String),
    SendHeartbeat,
    /// Hand this decoded event to the broadcaster.
    Publish(PushMessageBody),
}

#[verifier::ext_equal]
pub enum ActionModel {
    AttemptHandshake,
    SleepRetry,
    SendIdentify(Seq<char>),
    SendHeartbeat,
    Publish(PushModel),
}

pub open spec fn view_action(a: ConnAction) -> ActionModel {
    match a {
        ConnAction::AttemptHandshake => ActionModel::AttemptHandshake,
        ConnAction::SleepRetry => ActionModel::SleepRetry,
        ConnAction::SendIdentify(t) => ActionModel::SendIdentify(t@),
        ConnAction::SendHeartbeat => ActionModel::SendHeartbeat,
        ConnAction::Publish(p) => ActionModel::Publish(view_push(p)),
    }
}

pub open spec fn view_opt_action(a: Option<ConnAction>) -> Option<ActionModel> {
    match a {
        Some(x) => Some(view_action(x)),
        None => None,
    }
}

/// One transition of the machine. Events that make no sense in the
/// current state are ignored: the state stays, nothing is asked.
///
/// - `Disconnected` waits for the driver and then attempts the handshake.
/// - A failed handshake sleeps the fixed backoff and stands ready again;
///   there is no retry cap and no terminal state.
/// - A successful handshake sends the identify frame if a token is
///   configured, and proceeds to streaming without awaiting any
///   acknowledgement.
/// - While streaming, heartbeat ticks send a ping; a failed ping or a
///   failed receive drops back to `Disconnected` (the next attempt follows
///   at once, without the backoff). A text frame is acted on exactly when
///   its `op` is 0 and its body is a convertible event; everything else is
///   dropped without affecting the connection.
pub open spec fn spec_step(token: Option<Seq<char>>, state: ConnState, ev: ConnEvent) -> (
    ConnState,
    Option<ActionModel>,
) {
    match (state, ev) {
        (ConnState::Disconnected, ConnEvent::Wake) => (
            ConnState::Connecting,
            Some(ActionModel::AttemptHandshake),
        ),
        (ConnState::Connecting, ConnEvent::HandshakeSucceeded) => match token {
            Some(t) => (ConnState::Authenticating, Some(ActionModel::SendIdentify(t))),
            None => (ConnState::Streaming, None),
        },
        (ConnState::Connecting, ConnEvent::HandshakeFailed) => (
            ConnState::Disconnected,
            Some(ActionModel::SleepRetry),
        ),
        (ConnState::Authenticating, ConnEvent::IdentifySent) => (ConnState::Streaming, None),
        (ConnState::Streaming, ConnEvent::HeartbeatTick) => (
            ConnState::Streaming,
            Some(ActionModel::SendHeartbeat),
        ),
        (ConnState::Streaming, ConnEvent::HeartbeatSendOk) => (ConnState::Streaming, None),
        (ConnState::Streaming, ConnEvent::HeartbeatSendFailed) => (ConnState::Disconnected, None),
        (ConnState::Streaming, ConnEvent::Frame { op, body }) => {
            if op == 0 {
                match body {
                    Some(ev) => if event_convertible(ev) {
                        (ConnState::Streaming, Some(ActionModel::Publish(spec_event_push(ev))))
                    } else {
                        (ConnState::Streaming, None)
                    },
                    None => (ConnState::Streaming, None),
                }
            } else {
                (ConnState::Streaming, None)
            }
        },
        (ConnState::Streaming, ConnEvent::ReceiveFailed) => (ConnState::Disconnected, None),
        _ => (state, None),
    }
}

pub open spec fn view_opt_token(t: Option<String>) -> Option<Seq<char>> {
    match t {
        Some(x) => Some(x@),
        None => None,
    }
}

/// The connection manager: the configured token and the machine's state.
#[derive(Debug)]
pub struct ConnManager {
    pub token: Option<String>,
    pub state: ConnState,
}

impl ConnManager {
    pub fn new(token: Option<String>) -> (r: Self)
        ensures
            r.state == ConnState::Disconnected,
            view_opt_token(r.token) == view_opt_token(token),
    {
        ConnManager { token, state: ConnState::Disconnected }
    }

    /// Feed one event into the machine; the state advances and the action
    /// asked of the driver (if any) is returned.
    pub fn on_event(&mut self, ev: ConnEvent) -> (r: Option<ConnAction>)
        ensures
            view_opt_token(final(self).token) == view_opt_token(old(self).token),
            final(self).state == spec_step(view_opt_token(old(self).token), old(self).state, ev).0,
            view_opt_action(r) == spec_step(view_opt_token(old(self).token), old(self).state, ev).1,
    {
        match (self.state, ev) {
            (ConnState::Disconnected, ConnEvent::Wake) => {
                self.state = ConnState::Connecting;
                Some(ConnAction::AttemptHandshake)
            },
            (ConnState::Connecting, ConnEvent::HandshakeSucceeded) => {
                match &self.token {
                    Some(t) => {
                        let frame_token = t.clone();
                        self.state = ConnState::Authenticating;
                        Some(ConnAction::SendIdentify(frame_token))
                    },
                    None => {
                        self.state = ConnState::Streaming;
                        None
                    },
                }
            },
            (ConnState::Connecting, ConnEvent::HandshakeFailed) => {
                self.state = ConnState::Disconnected;
                Some(ConnAction::SleepRetry)
            },
            (ConnState::Authenticating, ConnEvent::IdentifySent) => {
                self.state = ConnState::Streaming;
                None
            },
            (ConnState::Streaming, ConnEvent::HeartbeatTick) => Some(ConnAction::SendHeartbeat),
            (ConnState::Streaming, ConnEvent::HeartbeatSendOk) => None,
            (ConnState::Streaming, ConnEvent::HeartbeatSendFailed) => {
                self.state = ConnState::Disconnected;
                None
            },
            (ConnState::Streaming, ConnEvent::Frame { op, body }) => {
                if op == 0 {
                    match body {
                        Some(ev2) => match convert_event(ev2) {
                            Ok(p) => Some(ConnAction::Publish(p)),
                            Err(_) => None,
                        },
                        None => None,
                    }
                } else {
                    None
                }
            },
            (ConnState::Streaming, ConnEvent::ReceiveFailed) => {
                self.state = ConnState::Disconnected;
                None
            },
            (_, _) => None,
        }
    }
}

// ---------------------------------------------------------------------------
// Frame texts
// ---------------------------------------------------------------------------

/// The heartbeat ping frame.
pub fn heartbeat_frame() -> (r: &'static str)
    ensures
        r@ == "{\"op\":1}"@,
{
    "{\"op\":1}"
}

/// The identify frame carrying the configured token.
pub fn identify_frame(token: &str) -> (r: String)
    ensures
        r@ == "{\"op\":3,\"body\":{\"token\":\""@ + token@ + "\"}}"@,
{
    let mut out = String::from_str("{\"op\":3,\"body\":{\"token\":\"");
    out.append(token);
    out.append("\"}}");
    out
}

// ---------------------------------------------------------------------------
// Reconnection laws
// ---------------------------------------------------------------------------

/// One failed connection attempt: the driver wakes the machine, attempts
/// the handshake, and reports the failure.
pub open spec fn after_failed_attempt(token: Option<Seq<char>>, state: ConnState) -> ConnState {
    spec_step(token, spec_step(token, state, ConnEvent::Wake).0, ConnEvent::HandshakeFailed).0
}

pub open spec fn after_n_failures(token: Option<Seq<char>>, n: nat) -> ConnState
    decreases n,
{
    if n == 0 {
        ConnState::Disconnected
    } else {
        after_failed_attempt(token, after_n_failures(token, (n - 1) as nat))
    }
}

/// Reconnection law, failure side: after any number of failed handshake
/// attempts the machine stands in `Disconnected` again, ready to retry —
/// there is no terminal state and no retry cap — and each failure asks for
/// the fixed-backoff sleep.
pub proof fn lemma_retries_indefinitely(token: Option<Seq<char>>, n: nat)
    ensures
        after_n_failures(token, n) == ConnState::Disconnected,
        spec_step(token, ConnState::Disconnected, ConnEvent::Wake) == (
            ConnState::Connecting,
            Some(ActionModel::AttemptHandshake),
        ),
        spec_step(token, ConnState::Connecting, ConnEvent::HandshakeFailed) == (
            ConnState::Disconnected,
            Some(ActionModel::SleepRetry),
        ),
    decreases n,
{
    if n > 0 {
        lemma_retries_indefinitely(token, (n - 1) as nat);
    }
}

/// Reconnection law, success side: once a handshake succeeds the machine
/// reaches `Streaming` (through `Authenticating` when a token is
/// configured), and heartbeat and event delivery resume: a tick asks for a
/// ping, and a convertible dispatch frame asks for its publication.
pub proof fn lemma_resumes_after_success(token: Option<Seq<char>>, ev: Event)
    requires
        event_convertible(ev),
    ensures
        ({
            let (st, act) = spec_step(token, ConnState::Connecting, ConnEvent::HandshakeSucceeded);
            match token {
                Some(t) => st == ConnState::Authenticating && act == Some(
                    ActionModel::SendIdentify(t),
                ) && spec_step(token, st, ConnEvent::IdentifySent).0 == ConnState::Streaming,
                None => st == ConnState::Streaming && act is None,
            }
        }),
        spec_step(token, ConnState::Streaming, ConnEvent::HeartbeatTick).1 == Some(
            ActionModel::SendHeartbeat,
        ),
        spec_step(token, ConnState::Streaming, ConnEvent::Frame { op: 0, body: Some(ev) }).1
            == Some(ActionModel::Publish(spec_event_push(ev))),
{
}

} // verus!
