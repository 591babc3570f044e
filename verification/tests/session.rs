use quote_stream::session::{
    CloseReason, Session, SessionAction, SessionEvent, SessionState,
};
use quote_stream::snapshot::DecodeError;

fn good_frame(pid: &str) -> Vec<u8> {
    format!(
        "a[\"{{\\\"message\\\":\\\"pid-{pid}::{{\\\\\\\"pid\\\\\\\":\\\\\\\"{pid}\\\\\\\",\\\\\\\"last_dir\\\\\\\":\\\\\\\"redBg\\\\\\\",\\\\\\\"last_numeric\\\\\\\":18951.2,\\\\\\\"last\\\\\\\":\\\\\\\"18,951.2\\\\\\\",\\\\\\\"bid\\\\\\\":\\\\\\\"18,954.0\\\\\\\",\\\\\\\"ask\\\\\\\":\\\\\\\"18,956.0\\\\\\\",\\\\\\\"high\\\\\\\":\\\\\\\"19,956.0\\\\\\\",\\\\\\\"low\\\\\\\":\\\\\\\"18,279.0\\\\\\\",\\\\\\\"last_close\\\\\\\":\\\\\\\"19,188.0\\\\\\\",\\\\\\\"pc\\\\\\\":\\\\\\\"-236.8\\\\\\\",\\\\\\\"pcp\\\\\\\":\\\\\\\"-1.23%\\\\\\\",\\\\\\\"pc_col\\\\\\\":\\\\\\\"redFont\\\\\\\",\\\\\\\"turnover\\\\\\\":\\\\\\\"21.50K\\\\\\\",\\\\\\\"turnover_numeric\\\\\\\":21503,\\\\\\\"time\\\\\\\":\\\\\\\"19:21:50\\\\\\\",\\\\\\\"timestamp\\\\\\\":1606850510}}\\\"}}\"]",
    )
    .into_bytes()
}

fn bad_frame(pid: &str) -> Vec<u8> {
    // Holds the subscription key but the object inside is not a snapshot.
    format!("a[\"pid-{pid}::{{gibberish}}\"]").into_bytes()
}

#[test]
pub fn test_handshake_happy_path() {
    let mut s = Session::new("945629".to_string());
    assert_eq!(s.state, SessionState::Connecting);

    assert!(s.step(SessionEvent::Connected).is_none());
    assert_eq!(s.state, SessionState::AwaitOpen);

    let a = s.step(SessionEvent::Frame(b"o".to_vec()));
    assert!(matches!(a, Some(SessionAction::SendSubscribe)));
    assert_eq!(s.state, SessionState::SentSubscribe);

    let a = s.step(SessionEvent::SendSucceeded);
    assert!(matches!(a, Some(SessionAction::SendIdentity)));
    assert_eq!(s.state, SessionState::SentIdentity);

    let a = s.step(SessionEvent::SendSucceeded);
    assert!(matches!(a, Some(SessionAction::StartKeepAlive)));
    assert_eq!(s.state, SessionState::Streaming);
}

#[test]
pub fn test_wrong_open_ack_fails_handshake_without_sends() {
    let mut s = Session::new("945629".to_string());
    assert!(s.step(SessionEvent::Connected).is_none());

    // The first frame is not "o": no subscribe or identity send is requested.
    let a = s.step(SessionEvent::Frame(b"h".to_vec()));
    assert!(a.is_none());
    assert_eq!(s.state, SessionState::Closed(CloseReason::HandshakeFailed));

    // Nothing further is processed.
    assert!(s.step(SessionEvent::Frame(b"o".to_vec())).is_none());
    assert_eq!(s.state, SessionState::Closed(CloseReason::HandshakeFailed));
}

#[test]
pub fn test_read_failure_before_open_ack_closes() {
    let mut s = Session::new("945629".to_string());
    assert!(s.step(SessionEvent::Connected).is_none());

    assert!(s.step(SessionEvent::ReadFailed).is_none());
    assert_eq!(s.state, SessionState::Closed(CloseReason::HandshakeFailed));

    let mut s = Session::new("945629".to_string());
    assert!(s.step(SessionEvent::Connected).is_none());

    assert!(s.step(SessionEvent::StreamEnded).is_none());
    assert_eq!(s.state, SessionState::Closed(CloseReason::HandshakeFailed));
}

#[test]
pub fn test_read_failure_during_handshake_closes() {
    let mut s = Session::new("945629".to_string());
    s.step(SessionEvent::Connected);
    s.step(SessionEvent::Frame(b"o".to_vec()));
    assert_eq!(s.state, SessionState::SentSubscribe);

    assert!(s.step(SessionEvent::StreamEnded).is_none());
    assert_eq!(s.state, SessionState::Closed(CloseReason::HandshakeFailed));

    let mut s = Session::new("945629".to_string());
    s.step(SessionEvent::Connected);
    s.step(SessionEvent::Frame(b"o".to_vec()));
    s.step(SessionEvent::SendSucceeded);
    assert_eq!(s.state, SessionState::SentIdentity);

    assert!(s.step(SessionEvent::ReadFailed).is_none());
    assert_eq!(s.state, SessionState::Closed(CloseReason::HandshakeFailed));
}

#[test]
pub fn test_connect_failure_closes() {
    let mut s = Session::new("945629".to_string());
    assert!(s.step(SessionEvent::ConnectFailed).is_none());
    assert_eq!(s.state, SessionState::Closed(CloseReason::HandshakeFailed));
}

fn streaming_session(pid: &str) -> Session {
    let mut s = Session::new(pid.to_string());
    s.step(SessionEvent::Connected);
    s.step(SessionEvent::Frame(b"o".to_vec()));
    s.step(SessionEvent::SendSucceeded);
    s.step(SessionEvent::SendSucceeded);
    assert_eq!(s.state, SessionState::Streaming);
    s
}

#[test]
pub fn test_dispatch_delivers_once_then_fatal_decode() {
    let mut s = streaming_session("945629");
    let mut delivered = 0;

    // Chatter without the subscription key is ignored.
    let a = s.step(SessionEvent::Frame(b"a[\"other protocol traffic\"]".to_vec()));
    assert!(a.is_none());
    assert_eq!(s.state, SessionState::Streaming);

    // A well-formed matching frame is delivered to the consumer.
    match s.step(SessionEvent::Frame(good_frame("945629"))) {
        Some(SessionAction::Deliver(snap)) => {
            delivered += 1;
            assert_eq!(snap.pid, "945629");
            assert_eq!(snap.turnover_numeric, 21503);
        },
        other => panic!("expected a delivery, got {:?}", other.is_some()),
    }
    assert_eq!(s.state, SessionState::Streaming);

    // A malformed matching frame is fatal.
    let a = s.step(SessionEvent::Frame(bad_frame("945629")));
    assert!(a.is_none());
    assert_eq!(
        s.state,
        SessionState::Closed(CloseReason::Decode(DecodeError::InvalidJson))
    );

    // No further frame is processed after the failure.
    assert!(s.step(SessionEvent::Frame(good_frame("945629"))).is_none());
    assert_eq!(delivered, 1);
}

#[test]
pub fn test_frame_for_other_instrument_is_ignored() {
    let mut s = streaming_session("945629");
    let a = s.step(SessionEvent::Frame(good_frame("8984")));
    assert!(a.is_none());
    assert_eq!(s.state, SessionState::Streaming);
}

#[test]
pub fn test_end_of_stream_and_transport_errors() {
    let mut s = streaming_session("945629");
    s.step(SessionEvent::StreamEnded);
    assert_eq!(s.state, SessionState::Closed(CloseReason::EndOfStream));

    let mut s = streaming_session("945629");
    s.step(SessionEvent::ReadFailed);
    assert_eq!(s.state, SessionState::Closed(CloseReason::TransportError));

    let mut s = streaming_session("945629");
    s.step(SessionEvent::SendFailed);
    assert_eq!(s.state, SessionState::Closed(CloseReason::TransportError));
}

#[test]
pub fn test_cancellation_mid_stream() {
    let mut s = streaming_session("945629");

    let a = s.step(SessionEvent::CancelRequested);
    assert!(a.is_none());
    assert_eq!(s.state, SessionState::Closed(CloseReason::Cancelled));

    // No callback can be requested after cancellation is observed.
    assert!(s.step(SessionEvent::Frame(good_frame("945629"))).is_none());
    assert!(s.step(SessionEvent::StreamEnded).is_none());
    assert_eq!(s.state, SessionState::Closed(CloseReason::Cancelled));
}
