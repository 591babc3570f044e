//! The session state machine: one subscription over one connection, from
//! connect through handshake and streaming to a terminal close.
//!
//! The machine is pure: the surrounding runtime performs each returned action
//! (a send, starting the keep-alive, delivering a snapshot to the consumer)
//! and feeds the next event back in.

use vstd::prelude::*;
use vstd::utf8::encode_utf8;
use crate::decode::{decode_frame_bytes, spec_decode};
use crate::frames::{frame_matches, spec_subscription_key};
use crate::snapshot::{DecodeError, Snapshot, SnapshotM};
use crate::wire::spec_contains;

verus! {

/// Why a session ended.
#[derive(Clone, Copy, Debug, PartialEq, Eq, Structural)]
pub enum CloseReason {
    /// The connection could not be opened, the open acknowledgement was wrong,
    /// or a handshake send failed.
    HandshakeFailed,
    /// A transport read or send failed after the handshake.
    TransportError,
    /// The peer closed the stream.
    EndOfStream,
    /// The caller requested cancellation.
    Cancelled,
    /// A matching frame failed to decode.
    Decode(DecodeError),
}

/// The lifecycle of one session.
#[derive(Clone, Copy, Debug, PartialEq, Eq, Structural)]
pub enum SessionState {
    /// Opening the transport connection.
    Connecting,
    /// Waiting for the open acknowledgement frame.
    AwaitOpen,
    /// The subscribe frame is being sent.
    SentSubscribe,
    /// The identity frame is being sent.
    SentIdentity,
    /// Receiving snapshot frames.
    Streaming,
    /// Terminal.
    Closed(CloseReason),
}

/// Model of one inbound occurrence the runtime reports to the machine.
pub enum EventM {
    Connected,
    ConnectFailed,
    Frame(Seq<u8>),
    StreamEnded,
    ReadFailed,
    SendSucceeded,
    SendFailed,
    CancelRequested,
}

/// One inbound occurrence the runtime reports to the machine.
pub enum SessionEvent {
    /// The transport connection is open.
    Connected,
    /// The transport connection could not be opened.
    ConnectFailed,
    /// A text frame arrived.
    Frame(Vec<u8>),
    /// The peer closed the stream.
    StreamEnded,
    /// A transport read failed.
    ReadFailed,
    /// The send the machine last asked for succeeded.
    SendSucceeded,
    /// A send failed, whether a handshake frame or a heartbeat.
    SendFailed,
    /// The caller asked to cancel the session.
    CancelRequested,
}

impl View for SessionEvent {
    type V = EventM;

    open spec fn view(&self) -> EventM {
        match self {
            SessionEvent::Connected => EventM::Connected,
            SessionEvent::ConnectFailed => EventM::ConnectFailed,
            SessionEvent::Frame(f) => EventM::Frame(f@),
            SessionEvent::StreamEnded => EventM::StreamEnded,
            SessionEvent::ReadFailed => EventM::ReadFailed,
            SessionEvent::SendSucceeded => EventM::SendSucceeded,
            SessionEvent::SendFailed => EventM::SendFailed,
            SessionEvent::CancelRequested => EventM::CancelRequested,
        }
    }
}

/// Model of one action the machine asks the runtime to perform.
pub enum ActionM {
    SendSubscribe,
    SendIdentity,
    StartKeepAlive,
    Deliver(SnapshotM),
}

/// One action the machine asks the runtime to perform.
pub enum SessionAction {
    /// Send the subscribe frame.
    SendSubscribe,
    /// Send the identity frame.
    SendIdentity,
    /// Start the periodic heartbeat task.
    StartKeepAlive,
    /// Hand this snapshot to the consumer.
    Deliver(Snapshot),
}

impl View for SessionAction {
    type V = ActionM;

    open spec fn view(&self) -> ActionM {
        match self {
            SessionAction::SendSubscribe => ActionM::SendSubscribe,
            SessionAction::SendIdentity => ActionM::SendIdentity,
            SessionAction::StartKeepAlive => ActionM::StartKeepAlive,
            SessionAction::Deliver(s) => ActionM::Deliver(s@),
        }
    }
}

/// The open acknowledgement frame: the single letter `o`.
pub open spec fn open_ack() -> Seq<u8> {
    seq![111u8]
}

/// The transition relation of a session subscribed to `pid`.
///
/// A closed session absorbs every event; cancellation closes every live
/// session; any read failure or peer close before streaming begins closes the
/// session as a failed handshake; during streaming only frames that hold the
/// subscription key are decoded, and a decode failure is fatal.
pub open spec fn spec_step(pid: Seq<char>, st: SessionState, e: EventM) -> (SessionState, Option<
    ActionM,
>) {
    if st is Closed {
        (st, None)
    } else if e is CancelRequested {
        (SessionState::Closed(CloseReason::Cancelled), None)
    } else {
        match st {
            SessionState::Connecting => match e {
                EventM::Connected => (SessionState::AwaitOpen, None),
                EventM::ConnectFailed => (
                    SessionState::Closed(CloseReason::HandshakeFailed),
                    None,
                ),
                _ => (st, None),
            },
            SessionState::AwaitOpen => match e {
                EventM::Frame(f) => if f == open_ack() {
                    (SessionState::SentSubscribe, Some(ActionM::SendSubscribe))
                } else {
                    (SessionState::Closed(CloseReason::HandshakeFailed), None)
                },
                EventM::StreamEnded => (SessionState::Closed(CloseReason::HandshakeFailed), None),
                EventM::ReadFailed => (SessionState::Closed(CloseReason::HandshakeFailed), None),
                _ => (st, None),
            },
            SessionState::SentSubscribe => match e {
                EventM::SendSucceeded => (SessionState::SentIdentity, Some(ActionM::SendIdentity)),
                EventM::SendFailed => (SessionState::Closed(CloseReason::HandshakeFailed), None),
                EventM::StreamEnded => (SessionState::Closed(CloseReason::HandshakeFailed), None),
                EventM::ReadFailed => (SessionState::Closed(CloseReason::HandshakeFailed), None),
                _ => (st, None),
            },
            SessionState::SentIdentity => match e {
                EventM::SendSucceeded => (SessionState::Streaming, Some(ActionM::StartKeepAlive)),
                EventM::SendFailed => (SessionState::Closed(CloseReason::HandshakeFailed), None),
                EventM::StreamEnded => (SessionState::Closed(CloseReason::HandshakeFailed), None),
                EventM::ReadFailed => (SessionState::Closed(CloseReason::HandshakeFailed), None),
                _ => (st, None),
            },
            SessionState::Streaming => match e {
                EventM::Frame(f) => if !spec_contains(f, encode_utf8(spec_subscription_key(pid))) {
                    (SessionState::Streaming, None)
                } else {
                    match spec_decode(f) {
                        Ok(m) => (SessionState::Streaming, Some(ActionM::Deliver(m))),
                        Err(er) => (SessionState::Closed(CloseReason::Decode(er)), None),
                    }
                },
                EventM::StreamEnded => (SessionState::Closed(CloseReason::EndOfStream), None),
                EventM::ReadFailed => (SessionState::Closed(CloseReason::TransportError), None),
                EventM::SendFailed => (SessionState::Closed(CloseReason::TransportError), None),
                _ => (st, None),
            },
            SessionState::Closed(_) => (st, None),
        }
    }
}

/// One logical subscription to one instrument.
pub struct Session {
    pub pid: String,
    pub state: SessionState,
}

impl Session {
    /// A fresh session about to open its connection.
    pub fn new(pid: String) -> (s: Session)
        ensures
            s.state == SessionState::Connecting,
            s.pid == pid,
    {
        Session { pid, state: SessionState::Connecting }
    }

    /// Feeds one event to the machine; returns the action the runtime must
    /// perform, if any.
    pub fn step(&mut self, e: SessionEvent) -> (a: Option<SessionAction>)
        ensures
            ({
                let (st2, am) = spec_step(old(self).pid@, old(self).state, e@);
                &&& final(self).state == st2
                &&& final(self).pid == old(self).pid
                &&& match (a, am) {
                    (Some(x), Some(y)) => x@ == y,
                    (None, None) => true,
                    _ => false,
                }
            }),
    {
        match self.state {
            SessionState::Closed(_) => {
                return None;
            },
            _ => {},
        }
        if matches!(e, SessionEvent::CancelRequested) {
            self.state = SessionState::Closed(CloseReason::Cancelled);
            return None;
        }
        match self.state {
            SessionState::Connecting => match e {
                SessionEvent::Connected => {
                    self.state = SessionState::AwaitOpen;
                    None
                },
                SessionEvent::ConnectFailed => {
                    self.state = SessionState::Closed(CloseReason::HandshakeFailed);
                    None
                },
                _ => None,
            },
            SessionState::AwaitOpen => match e {
                SessionEvent::Frame(f) => {
                    if f.len() == 1 && f[0] == 111 {
                        proof {
                            assert(f@ =~= open_ack());
                        }
                        self.state = SessionState::SentSubscribe;
                        Some(SessionAction::SendSubscribe)
                    } else {
                        proof {
                            if f@.len() == 1 {
                                assert(f@[0] != 111);
                            }
                        }
                        self.state = SessionState::Closed(CloseReason::HandshakeFailed);
                        None
                    }
                },
                SessionEvent::StreamEnded => {
                    self.state = SessionState::Closed(CloseReason::HandshakeFailed);
                    None
                },
                SessionEvent::ReadFailed => {
                    self.state = SessionState::Closed(CloseReason::HandshakeFailed);
                    None
                },
                _ => None,
            },
            SessionState::SentSubscribe => match e {
                SessionEvent::SendSucceeded => {
                    self.state = SessionState::SentIdentity;
                    Some(SessionAction::SendIdentity)
                },
                SessionEvent::SendFailed => {
                    self.state = SessionState::Closed(CloseReason::HandshakeFailed);
                    None
                },
                SessionEvent::StreamEnded => {
                    self.state = SessionState::Closed(CloseReason::HandshakeFailed);
                    None
                },
                SessionEvent::ReadFailed => {
                    self.state = SessionState::Closed(CloseReason::HandshakeFailed);
                    None
                },
                _ => None,
            },
            SessionState::SentIdentity => match e {
                SessionEvent::SendSucceeded => {
                    self.state = SessionState::Streaming;
                    Some(SessionAction::StartKeepAlive)
                },
                SessionEvent::SendFailed => {
                    self.state = SessionState::Closed(CloseReason::HandshakeFailed);
                    None
                },
                SessionEvent::StreamEnded => {
                    self.state = SessionState::Closed(CloseReason::HandshakeFailed);
                    None
                },
                SessionEvent::ReadFailed => {
                    self.state = SessionState::Closed(CloseReason::HandshakeFailed);
                    None
                },
                _ => None,
            },
            SessionState::Streaming => match e {
                SessionEvent::Frame(f) => {
                    if !frame_matches(f.as_slice(), self.pid.as_str()) {
                        None
                    } else {
                        match decode_frame_bytes(f.as_slice()) {
                            Ok(snap) => Some(SessionAction::Deliver(snap)),
                            Err(er) => {
                                self.state = SessionState::Closed(CloseReason::Decode(er));
                                None
                            },
                        }
                    }
                },
                SessionEvent::StreamEnded => {
                    self.state = SessionState::Closed(CloseReason::EndOfStream);
                    None
                },
                SessionEvent::ReadFailed => {
                    self.state = SessionState::Closed(CloseReason::TransportError);
                    None
                },
                SessionEvent::SendFailed => {
                    self.state = SessionState::Closed(CloseReason::TransportError);
                    None
                },
                _ => None,
            },
            SessionState::Closed(_) => None,
        }
    }
}

/// A whole run of the machine: the final state and every action asked for,
/// in order.
pub open spec fn spec_run(pid: Seq<char>, st: SessionState, events: Seq<EventM>) -> (SessionState,
    Seq<ActionM>,
)
    decreases events.len(),
{
    if events.len() == 0 {
        (st, Seq::empty())
    } else {
        let (st1, a) = spec_step(pid, st, events[0]);
        let (stf, rest) = spec_run(pid, st1, events.skip(1));
        (
            stf,
            (match a {
                Some(x) => seq![x],
                None => Seq::empty(),
            }) + rest,
        )
    }
}

/// A closed session stays closed and never asks for another action, whatever
/// else arrives.
pub proof fn lemma_closed_absorbs(pid: Seq<char>, r: CloseReason, events: Seq<EventM>)
    ensures
        spec_run(pid, SessionState::Closed(r), events) == (
            SessionState::Closed(r),
            Seq::<ActionM>::empty(),
        ),
    decreases events.len(),
{
    if events.len() == 0 {
    } else {
        lemma_closed_absorbs(pid, r, events.skip(1));
        assert(Seq::<ActionM>::empty() + Seq::<ActionM>::empty() =~= Seq::<ActionM>::empty());
    }
}

/// A first frame that is not the open acknowledgement closes the session as a
/// failed handshake, and neither the subscribe nor the identity frame is ever
/// sent.
pub proof fn lemma_handshake_refused(pid: Seq<char>, f: Seq<u8>, later: Seq<EventM>)
    requires
        f != open_ack(),
    ensures
        ({
            let (st, acts) = spec_run(
                pid,
                SessionState::AwaitOpen,
                seq![EventM::Frame(f)] + later,
            );
            st == SessionState::Closed(CloseReason::HandshakeFailed) && acts
                == Seq::<ActionM>::empty()
        }),
{
    let events = seq![EventM::Frame(f)] + later;
    assert(events[0] == EventM::Frame(f));
    assert(events.skip(1) =~= later);
    lemma_closed_absorbs(pid, CloseReason::HandshakeFailed, later);
    assert(Seq::<ActionM>::empty() + Seq::<ActionM>::empty() =~= Seq::<ActionM>::empty());
}

/// Streaming dispatch: a chatter frame without the subscription key is
/// ignored, a matching well-formed frame is delivered, and a matching
/// malformed frame closes the session with its decode error; nothing after it
/// is processed.
pub proof fn lemma_dispatch(
    pid: Seq<char>,
    chatter: Seq<u8>,
    good: Seq<u8>,
    bad: Seq<u8>,
    later: Seq<EventM>,
)
    requires
        !spec_contains(chatter, encode_utf8(spec_subscription_key(pid))),
        spec_contains(good, encode_utf8(spec_subscription_key(pid))),
        spec_decode(good) is Ok,
        spec_contains(bad, encode_utf8(spec_subscription_key(pid))),
        spec_decode(bad) is Err,
    ensures
        ({
            let (st, acts) = spec_run(
                pid,
                SessionState::Streaming,
                seq![EventM::Frame(chatter), EventM::Frame(good), EventM::Frame(bad)] + later,
            );
            st == SessionState::Closed(CloseReason::Decode(spec_decode(bad)->Err_0)) && acts
                == seq![ActionM::Deliver(spec_decode(good)->Ok_0)]
        }),
{
    let events = seq![EventM::Frame(chatter), EventM::Frame(good), EventM::Frame(bad)] + later;
    let d = ActionM::Deliver(spec_decode(good)->Ok_0);
    let er = spec_decode(bad)->Err_0;
    let e1 = events.skip(1);
    let e2 = e1.skip(1);
    assert(events[0] == EventM::Frame(chatter));
    assert(e1[0] == EventM::Frame(good));
    assert(e2[0] == EventM::Frame(bad));
    assert(e2.skip(1) =~= later);
    lemma_closed_absorbs(pid, CloseReason::Decode(er), later);
    assert(spec_run(pid, SessionState::Streaming, e2) == (
        SessionState::Closed(CloseReason::Decode(er)),
        Seq::<ActionM>::empty() + Seq::<ActionM>::empty(),
    ));
    assert(spec_run(pid, SessionState::Streaming, e1) == (
        SessionState::Closed(CloseReason::Decode(er)),
        seq![d] + (Seq::<ActionM>::empty() + Seq::<ActionM>::empty()),
    ));
    assert(Seq::<ActionM>::empty() + (seq![d] + (Seq::<ActionM>::empty()
        + Seq::<ActionM>::empty())) =~= seq![d]);
}

/// Cancellation closes any live session at once, with no action, and nothing
/// delivered afterwards.
pub proof fn lemma_cancellation(pid: Seq<char>, st: SessionState, later: Seq<EventM>)
    requires
        !(st is Closed),
    ensures
        ({
            let (stf, acts) = spec_run(pid, st, seq![EventM::CancelRequested] + later);
            stf == SessionState::Closed(CloseReason::Cancelled) && acts == Seq::<ActionM>::empty()
        }),
{
    let events = seq![EventM::CancelRequested] + later;
    assert(events[0] == EventM::CancelRequested);
    assert(events.skip(1) =~= later);
    lemma_closed_absorbs(pid, CloseReason::Cancelled, later);
    assert(Seq::<ActionM>::empty() + Seq::<ActionM>::empty() =~= Seq::<ActionM>::empty());
}

} // verus!
