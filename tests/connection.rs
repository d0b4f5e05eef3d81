use tinc_rs::connection::{Action, Connection, ConnectionError, DispatchError, HandshakeState, Message, Outgoing, SweepAction, INITIAL_BACKOFF, MAX_BACKOFF};
use tinc_rs::protocol::{Request, PROT_MAJOR};

fn msg(code: i32, now: u64) -> Message {
    Message { request: Request::from_code(code), name: String::new(), major: PROT_MAJOR, verified: true, now }
}

fn id(name: &str, major: u16) -> Message {
    Message { request: Some(Request::Id), name: name.to_string(), major, verified: false, now: 1 }
}

fn active(name: &str) -> Connection {
    let mut c = Connection::new_incoming(0);
    assert_eq!(c.dispatch(id(name, PROT_MAJOR)), Ok(Action::Reply(Request::Metakey)));
    assert_eq!(c.dispatch(msg(1, 2)), Ok(Action::Reply(Request::Challenge)));
    assert_eq!(c.dispatch(msg(2, 3)), Ok(Action::Reply(Request::ChalReply)));
    assert_eq!(c.dispatch(msg(3, 4)), Ok(Action::Reply(Request::Ack)));
    assert_eq!(c.dispatch(msg(4, 5)), Ok(Action::Activated));
    c
}

#[test]
fn full_handshake() {
    let c = active("bob");
    assert_eq!(c.state, HandshakeState::Active);
    assert_eq!(c.name, "bob");
    assert!(c.status.encrypt_out && c.status.decrypt_in);
    assert_eq!(c.last_activity, 5);
}

#[test]
fn challenge_in_expect_id_is_a_violation() {
    let mut c = Connection::new_incoming(0);
    assert_eq!(c.dispatch(msg(2, 1)), Err(DispatchError::ProtocolViolation));
    assert_eq!(c.state, HandshakeState::Closed);
    assert_eq!(c.closed_by, Some(ConnectionError::ProtocolViolation));
    assert!(!c.status.encrypt_out && !c.status.decrypt_in);
    assert_eq!(c.dispatch(id("bob", PROT_MAJOR)), Err(DispatchError::ProtocolViolation));
    assert_eq!(c.state, HandshakeState::Closed);
}

#[test]
fn challenge_before_metakey_is_refused() {
    let mut c = Connection::new_incoming(0);
    assert!(c.dispatch(id("bob", PROT_MAJOR)).is_ok());
    assert_eq!(c.dispatch(msg(2, 2)), Err(DispatchError::ProtocolViolation));
    assert_eq!(c.state, HandshakeState::Closed);
}

#[test]
fn version_mismatch_and_bad_name() {
    let mut c = Connection::new_incoming(0);
    assert_eq!(c.dispatch(id("bob", PROT_MAJOR + 1)), Err(DispatchError::VersionMismatch));
    assert_eq!(c.closed_by, Some(ConnectionError::VersionMismatch));
    let mut d = Connection::new_incoming(0);
    assert_eq!(d.dispatch(id("bo b", PROT_MAJOR)), Err(DispatchError::ProtocolViolation));
}

#[test]
fn failed_chal_reply_closes() {
    let mut c = Connection::new_incoming(0);
    c.dispatch(id("bob", PROT_MAJOR)).unwrap();
    c.dispatch(msg(1, 2)).unwrap();
    c.dispatch(msg(2, 3)).unwrap();
    let mut reply = msg(3, 4);
    reply.verified = false;
    assert_eq!(c.dispatch(reply), Err(DispatchError::AuthenticationFailed));
    assert_eq!(c.closed_by, Some(ConnectionError::AuthenticationFailed));
}

#[test]
fn unknown_request_in_handshake_is_fatal() {
    let mut c = Connection::new_incoming(0);
    assert_eq!(c.dispatch(msg(40, 1)), Err(DispatchError::ProtocolViolation));
    assert_eq!(c.state, HandshakeState::Closed);
}

#[test]
fn unknown_request_when_active_is_harmless() {
    let mut c = active("bob");
    assert_eq!(c.dispatch(msg(24, 9)), Err(DispatchError::UnknownRequest));
    assert_eq!(c.state, HandshakeState::Active);
    assert_eq!(c.last_activity, 5);
}

#[test]
fn active_requests() {
    let mut c = active("bob");
    assert_eq!(c.dispatch(msg(8, 6)), Ok(Action::Reply(Request::Pong)));
    assert_eq!(c.dispatch(msg(12, 7)), Ok(Action::Broadcast(Request::AddEdge)));
    assert_eq!(c.dispatch(msg(10, 7)), Ok(Action::Broadcast(Request::AddSubnet)));
    assert_eq!(c.dispatch(msg(5, 7)), Ok(Action::Nothing));
    assert_eq!(c.dispatch(msg(0, 8)), Err(DispatchError::ProtocolViolation));
    assert_eq!(c.state, HandshakeState::Closed);
}

#[test]
fn termreq_marks_for_removal() {
    let mut c = active("bob");
    assert_eq!(c.dispatch(msg(7, 6)), Ok(Action::Terminate));
    assert!(c.status.remove);
}

#[test]
fn ping_then_pong_sets_weight() {
    let mut c = active("bob");
    assert_eq!(c.sweep(100, 50, 200), SweepAction::SendPing);
    assert!(c.status.pinged);
    assert_eq!(c.last_ping_time, 100);
    assert_eq!(c.sweep(120, 50, 200), SweepAction::Keep);
    assert_eq!(c.dispatch(msg(9, 130)), Ok(Action::Nothing));
    assert!(!c.status.pinged);
    assert_eq!(c.estimated_weight, 30);
}

#[test]
fn silent_connection_times_out() {
    let mut c = active("bob");
    assert_eq!(c.sweep(100, 50, 200), SweepAction::SendPing);
    assert_eq!(c.sweep(206, 50, 200), SweepAction::Close);
    assert_eq!(c.state, HandshakeState::Closed);
    assert_eq!(c.closed_by, Some(ConnectionError::PingTimeout));
}

#[test]
fn sweep_ignores_handshaking_connections() {
    let mut c = Connection::new_outgoing(0);
    assert_eq!(c.sweep(10_000, 50, 200), SweepAction::Keep);
    c.connected(3);
    assert_eq!(c.state, HandshakeState::ExpectId);
    assert_eq!(c.last_activity, 3);
}

#[test]
fn close_keeps_first_reason() {
    let mut c = active("bob");
    c.close(ConnectionError::SocketError);
    c.close(ConnectionError::PingTimeout);
    assert_eq!(c.closed_by, Some(ConnectionError::SocketError));
}

#[test]
fn myself_record() {
    let c = Connection::myself();
    assert_eq!(c.state, HandshakeState::ExpectId);
    assert_eq!(c.name, "");
    assert_eq!(c.address, None);
    assert_eq!(c.options, 0);
    assert!(!c.status.encrypt_out && !c.status.decrypt_in);
    assert_eq!(c.protocol_major, 17);
    assert_eq!(c.protocol_minor, 7);
}

#[test]
fn backoff_doubles_up_to_the_cap() {
    let mut o = Outgoing::new("bob".to_string());
    assert_eq!(o.retry_delay(), INITIAL_BACKOFF);
    assert_eq!(o.retry_delay(), 10);
    assert_eq!(o.retry_delay(), 20);
    for _ in 0..10 {
        o.retry_delay();
    }
    assert_eq!(o.timeout, MAX_BACKOFF);
    o.connected();
    assert_eq!(o.timeout, INITIAL_BACKOFF);
    o.terminated();
    assert_eq!(o.retry_delay(), MAX_BACKOFF);
    assert_eq!(o.timeout, MAX_BACKOFF);
}
