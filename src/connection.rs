use vstd::prelude::*;

use crate::config::valid_name;
use crate::protocol::{is_broadcast, is_handshake, Request, PROT_MAJOR, PROT_MINOR};

verus! {

/// Where a meta connection stands in its handshake. States only move forward,
/// or to `Closed`.
#[derive(Debug, Clone, Copy, PartialEq, Eq, Structural)]
pub enum HandshakeState {
    /// An outgoing connection whose TCP connect is in flight.
    Connecting,
    /// Waiting for the peer's `Id`.
    ExpectId,
    /// Waiting for the peer's key exchange material.
    ExpectMetakey,
    /// Waiting for the peer's challenge.
    ExpectChallenge,
    /// Waiting for the peer's answer to our challenge.
    ExpectChalReply,
    /// Waiting for the peer to confirm the handshake.
    ExpectAck,
    /// Fully authenticated.
    Active,
    /// Torn down.
    Closed,
}

/// Flags of a connection, independent of its handshake state.
#[derive(Debug, Clone, Copy, PartialEq, Eq, Structural)]
pub struct Status {
    /// A keepalive was sent and its `Pong` is outstanding.
    pub pinged: bool,
    /// Outgoing traffic can be encrypted.
    pub encrypt_out: bool,
    /// Incoming traffic is decrypted.
    pub decrypt_in: bool,
    /// The connection is part of the spanning tree.
    pub mst: bool,
    /// A local management connection, not a peer.
    pub control: bool,
    /// The control connection understands colour output.
    pub log_color: bool,
    /// A one-shot bootstrap connection for a new peer.
    pub invitation: bool,
    /// Marked for removal by the next sweep.
    pub remove: bool,
    /// Drained slowly on purpose.
    pub tarpit: bool,
}

/// Why a connection was closed.
#[derive(Debug, Clone, Copy, PartialEq, Eq, Structural)]
pub enum ConnectionError {
    ProtocolViolation,
    AuthenticationFailed,
    VersionMismatch,
    DuplicateIdentity,
    PingTimeout,
    SocketError,
}

/// Why a request was refused.
#[derive(Debug, Clone, Copy, PartialEq, Eq, Structural)]
pub enum DispatchError {
    /// The request is not allowed in the connection's state; the connection is closed.
    ProtocolViolation,
    /// The peer failed to prove its identity; the connection is closed.
    AuthenticationFailed,
    /// The peer speaks another major protocol version; the connection is closed.
    VersionMismatch,
    /// A request number outside the known kinds on an active connection; nothing changes.
    UnknownRequest,
}

/// What the caller does after a request was accepted.
#[derive(Debug, Clone, Copy, PartialEq, Eq, Structural)]
pub enum Action {
    /// Nothing further.
    Nothing,
    /// Send this request back on the same connection.
    Reply(Request),
    /// The handshake is complete: publish the peer's node and edge.
    Activated,
    /// Pass the request on to every other active connection.
    Broadcast(Request),
    /// The peer asked to close; the connection is marked for removal.
    Terminate,
}

/// What a periodic sweep decided for one connection.
#[derive(Debug, Clone, Copy, PartialEq, Eq, Structural)]
pub enum SweepAction {
    Keep,
    SendPing,
    /// The connection was closed with `PingTimeout`.
    Close,
}

/// One request as it arrived on a connection, with what the caller learnt around it.
#[derive(Debug)]
pub struct Message {
    /// The request kind; `None` for a number that names no kind.
    pub request: Option<Request>,
    /// The name the peer claims, for `Id`.
    pub name: String,
    /// The peer's major protocol version, for `Id`.
    pub major: u16,
    /// Whether the secure channel verified the peer's answer, for `ChalReply`.
    pub verified: bool,
    /// Arrival time in milliseconds.
    pub now: u64,
}

/// One meta connection to a peer.
#[derive(Debug)]
pub struct Connection {
    /// The name the peer claims; trusted only once `Active`.
    pub name: String,
    /// Whether this side dialled.
    pub outgoing: bool,
    /// The peer's resolved socket address, as text, once known.
    pub address: Option<String>,
    /// Connection options agreed with the peer.
    pub options: u32,
    pub protocol_major: u16,
    pub protocol_minor: u8,
    pub state: HandshakeState,
    pub status: Status,
    /// Estimated cost of the edge, from the round trip of the last ping.
    pub estimated_weight: u32,
    pub start_time: u64,
    /// When traffic last arrived from the peer.
    pub last_activity: u64,
    /// When the outstanding ping was sent.
    pub last_ping_time: u64,
    /// Why the connection was closed, once it is.
    pub closed_by: Option<ConnectionError>,
}

/// All flags cleared.
pub open spec fn no_status() -> Status {
    Status {
        pinged: false,
        encrypt_out: false,
        decrypt_in: false,
        mst: false,
        control: false,
        log_color: false,
        invitation: false,
        remove: false,
        tarpit: false,
    }
}

/// Whether the secure channel stands in both directions, which the `Metakey` exchange brings.
pub open spec fn secured(s: Status) -> bool {
    s.encrypt_out && s.decrypt_in
}

/// Whether the state lies after a completed `Metakey` exchange.
pub open spec fn after_metakey(s: HandshakeState) -> bool {
    s == HandshakeState::ExpectChallenge || s == HandshakeState::ExpectChalReply || s
        == HandshakeState::ExpectAck || s == HandshakeState::Active
}

/// The request a handshake state waits for.
pub open spec fn expected(s: HandshakeState) -> Option<Request> {
    match s {
        HandshakeState::ExpectId => Some(Request::Id),
        HandshakeState::ExpectMetakey => Some(Request::Metakey),
        HandshakeState::ExpectChallenge => Some(Request::Challenge),
        HandshakeState::ExpectChalReply => Some(Request::ChalReply),
        HandshakeState::ExpectAck => Some(Request::Ack),
        _ => None,
    }
}

/// `c` closed for `e`.
pub open spec fn closed(c: Connection, e: ConnectionError) -> Connection {
    Connection { state: HandshakeState::Closed, closed_by: Some(e), ..c }
}

/// The edge weight that a ping sent at `sent` and answered at `now` gives.
pub open spec fn round_trip(sent: u64, now: u64) -> u32 {
    if now <= sent {
        0
    } else if now - sent > u32::MAX {
        u32::MAX
    } else {
        (now - sent) as u32
    }
}

/// `c` after a request was refused with `e`: closed, unless the refusal is harmless.
pub open spec fn refused(c: Connection, e: DispatchError) -> (Connection, Result<Action, DispatchError>) {
    match e {
        DispatchError::ProtocolViolation => (closed(c, ConnectionError::ProtocolViolation), Err(e)),
        DispatchError::AuthenticationFailed => (
            closed(c, ConnectionError::AuthenticationFailed),
            Err(e),
        ),
        DispatchError::VersionMismatch => (closed(c, ConnectionError::VersionMismatch), Err(e)),
        DispatchError::UnknownRequest => (c, Err(e)),
    }
}

/// A request on an active connection.
pub open spec fn active_step(c: Connection, m: Message) -> (Connection, Result<Action, DispatchError>) {
    match m.request {
        None => (c, Err(DispatchError::UnknownRequest)),
        Some(q) => if is_handshake(q) {
            refused(c, DispatchError::ProtocolViolation)
        } else {
            let c1 = Connection { last_activity: m.now, ..c };
            if q == Request::Ping {
                (c1, Ok(Action::Reply(Request::Pong)))
            } else if q == Request::Pong {
                (
                    Connection {
                        status: Status { pinged: false, ..c.status },
                        estimated_weight: round_trip(c.last_ping_time, m.now),
                        ..c1
                    },
                    Ok(Action::Nothing),
                )
            } else if q == Request::Termreq {
                (Connection { status: Status { remove: true, ..c.status }, ..c1 }, Ok(Action::Terminate))
            } else if is_broadcast(q) {
                (c1, Ok(Action::Broadcast(q)))
            } else {
                (c1, Ok(Action::Nothing))
            }
        },
    }
}

/// A request during the handshake.
pub open spec fn handshake_step(c: Connection, m: Message) -> (Connection, Result<Action, DispatchError>) {
    match m.request {
        None => refused(c, DispatchError::ProtocolViolation),
        Some(q) => if expected(c.state) != Some(q) {
            refused(c, DispatchError::ProtocolViolation)
        } else {
            let c1 = Connection { last_activity: m.now, ..c };
            if q == Request::Id {
                if m.major != PROT_MAJOR {
                    refused(c, DispatchError::VersionMismatch)
                } else if !valid_name(m.name@) {
                    refused(c, DispatchError::ProtocolViolation)
                } else {
                    (
                        Connection {
                            name: m.name,
                            protocol_major: m.major,
                            state: HandshakeState::ExpectMetakey,
                            ..c1
                        },
                        Ok(Action::Reply(Request::Metakey)),
                    )
                }
            } else if q == Request::Metakey {
                (
                    Connection {
                        state: HandshakeState::ExpectChallenge,
                        status: Status { encrypt_out: true, decrypt_in: true, ..c.status },
                        ..c1
                    },
                    Ok(Action::Reply(Request::Challenge)),
                )
            } else if q == Request::Challenge {
                (
                    Connection { state: HandshakeState::ExpectChalReply, ..c1 },
                    Ok(Action::Reply(Request::ChalReply)),
                )
            } else if q == Request::ChalReply {
                if !m.verified {
                    refused(c, DispatchError::AuthenticationFailed)
                } else {
                    (
                        Connection { state: HandshakeState::ExpectAck, ..c1 },
                        Ok(Action::Reply(Request::Ack)),
                    )
                }
            } else if secured(c.status) {
                (Connection { state: HandshakeState::Active, ..c1 }, Ok(Action::Activated))
            } else {
                refused(c, DispatchError::ProtocolViolation)
            }
        },
    }
}

/// The connection and the outcome after request `m` on connection `c`.
pub open spec fn step(c: Connection, m: Message) -> (Connection, Result<Action, DispatchError>) {
    if c.state == HandshakeState::Closed {
        (c, Err(DispatchError::ProtocolViolation))
    } else if c.state == HandshakeState::Active {
        active_step(c, m)
    } else {
        handshake_step(c, m)
    }
}

/// Time since traffic last arrived.
pub open spec fn idle_time(c: Connection, now: u64) -> int {
    if now <= c.last_activity {
        0
    } else {
        now - c.last_activity
    }
}

/// The connection and the decision after a sweep at `now`: an active connection idle
/// beyond `ping_timeout` is closed; one idle beyond `ping_interval` without an
/// outstanding ping is pinged.
pub open spec fn sweep_step(c: Connection, now: u64, ping_interval: u64, ping_timeout: u64) -> (
    Connection,
    SweepAction,
) {
    if c.state != HandshakeState::Active {
        (c, SweepAction::Keep)
    } else if idle_time(c, now) > ping_timeout {
        (closed(c, ConnectionError::PingTimeout), SweepAction::Close)
    } else if !c.status.pinged && idle_time(c, now) > ping_interval {
        (
            Connection { status: Status { pinged: true, ..c.status }, last_ping_time: now, ..c },
            SweepAction::SendPing,
        )
    } else {
        (c, SweepAction::Keep)
    }
}

impl Connection {
    /// A state after the `Metakey` exchange implies a secure channel, and a state after
    /// `Id` a valid peer name.
    pub open spec fn wf(&self) -> bool {
        &&& after_metakey(self.state) ==> secured(self.status)
        &&& (after_metakey(self.state) || self.state == HandshakeState::ExpectMetakey) ==> valid_name(
            self.name@,
        )
    }

    /// A connection this daemon dials, started at `now`.
    pub fn new_outgoing(now: u64) -> (r: Connection)
        ensures
            r.wf(),
            r.name@ == Seq::<char>::empty(),
            r.state == HandshakeState::Connecting,
            r.outgoing,
            r.address is None,
            r.options == 0,
            r.protocol_major == PROT_MAJOR,
            r.protocol_minor == PROT_MINOR,
            r.estimated_weight == 0,
            r.status == no_status(),
            r.start_time == now,
            r.last_activity == now,
            r.closed_by is None,
    {
        Connection {
            name: String::new(),
            outgoing: true,
            address: None,
            options: 0,
            protocol_major: PROT_MAJOR,
            protocol_minor: PROT_MINOR,
            state: HandshakeState::Connecting,
            status: Status {
                pinged: false,
                encrypt_out: false,
                decrypt_in: false,
                mst: false,
                control: false,
                log_color: false,
                invitation: false,
                remove: false,
                tarpit: false,
            },
            estimated_weight: 0,
            start_time: now,
            last_activity: now,
            last_ping_time: now,
            closed_by: None,
        }
    }

    /// A connection a peer opened to this daemon, accepted at `now`.
    pub fn new_incoming(now: u64) -> (r: Connection)
        ensures
            r.wf(),
            r.state == HandshakeState::ExpectId,
            !r.outgoing,
            r.status == no_status(),
            r.start_time == now,
            r.last_activity == now,
            r.closed_by is None,
    {
        let mut c = Connection::new_outgoing(now);
        c.outgoing = false;
        c.state = HandshakeState::ExpectId;
        c
    }

    /// The record of the local daemon itself: no name, no flags, no channel and no
    /// handshake, speaking this daemon's protocol version.
    pub fn myself() -> (r: Connection)
        ensures
            r.wf(),
            r.name@ == Seq::<char>::empty(),
            !r.outgoing,
            r.address is None,
            r.options == 0,
            r.state == HandshakeState::ExpectId,
            r.status == no_status(),
            r.protocol_major == PROT_MAJOR,
            r.protocol_minor == PROT_MINOR,
            r.estimated_weight == 0,
            r.start_time == 0,
            r.closed_by is None,
    {
        let mut c = Connection::new_outgoing(0);
        c.outgoing = false;
        c.state = HandshakeState::ExpectId;
        c
    }

    /// The TCP connect of an outgoing connection finished: the handshake begins.
    pub fn connected(&mut self, now: u64)
        requires
            old(self).wf(),
        ensures
            final(self).wf(),
            old(self).state == HandshakeState::Connecting ==> *final(self) == (Connection {
                state: HandshakeState::ExpectId,
                last_activity: now,
                ..*old(self)
            }),
            old(self).state != HandshakeState::Connecting ==> *final(self) == *old(self),
    {
        if self.state == HandshakeState::Connecting {
            self.state = HandshakeState::ExpectId;
            self.last_activity = now;
        }
    }

    /// Tears the connection down for `e`; a closed connection keeps its first reason.
    pub fn close(&mut self, e: ConnectionError)
        requires
            old(self).wf(),
        ensures
            final(self).wf(),
            old(self).state != HandshakeState::Closed ==> *final(self) == closed(*old(self), e),
            old(self).state == HandshakeState::Closed ==> *final(self) == *old(self),
    {
        if self.state != HandshakeState::Closed {
            self.state = HandshakeState::Closed;
            self.closed_by = Some(e);
        }
    }

    fn refuse(&mut self, e: DispatchError) -> (r: Result<Action, DispatchError>)
        requires
            old(self).wf(),
        ensures
            (*final(self), r) == refused(*old(self), e),
            final(self).wf(),
    {
        match e {
            DispatchError::ProtocolViolation => {
                self.state = HandshakeState::Closed;
                self.closed_by = Some(ConnectionError::ProtocolViolation);
            },
            DispatchError::AuthenticationFailed => {
                self.state = HandshakeState::Closed;
                self.closed_by = Some(ConnectionError::AuthenticationFailed);
            },
            DispatchError::VersionMismatch => {
                self.state = HandshakeState::Closed;
                self.closed_by = Some(ConnectionError::VersionMismatch);
            },
            DispatchError::UnknownRequest => {},
        }
        Err(e)
    }

    /// Handles one request: checks that the state allows it, moves the handshake on
    /// and says what the caller does next.
    pub fn dispatch(&mut self, m: Message) -> (r: Result<Action, DispatchError>)
        requires
            old(self).wf(),
        ensures
            final(self).wf(),
            (*final(self), r) == step(*old(self), m),
    {
        if self.state == HandshakeState::Closed {
            return Err(DispatchError::ProtocolViolation);
        }
        let q = match m.request {
            None => {
                if self.state == HandshakeState::Active {
                    return Err(DispatchError::UnknownRequest);
                }
                return self.refuse(DispatchError::ProtocolViolation);
            },
            Some(q) => q,
        };
        if self.state == HandshakeState::Active {
            self.dispatch_active(q, m)
        } else {
            self.dispatch_handshake(q, m)
        }
    }

    fn dispatch_active(&mut self, q: Request, m: Message) -> (r: Result<Action, DispatchError>)
        requires
            old(self).wf(),
            old(self).state == HandshakeState::Active,
            m.request == Some(q),
        ensures
            final(self).wf(),
            (*final(self), r) == active_step(*old(self), m),
    {
        if q.code() <= 4 {
            return self.refuse(DispatchError::ProtocolViolation);
        }
        self.last_activity = m.now;
        match q {
            Request::Ping => Ok(Action::Reply(Request::Pong)),
            Request::Pong => {
                self.status.pinged = false;
                self.estimated_weight = if m.now <= self.last_ping_time {
                    0
                } else if m.now - self.last_ping_time > 0xffff_ffffu64 {
                    0xffff_ffffu32
                } else {
                    (m.now - self.last_ping_time) as u32
                };
                Ok(Action::Nothing)
            },
            Request::Termreq => {
                self.status.remove = true;
                Ok(Action::Terminate)
            },
            Request::AddSubnet | Request::DelSubnet | Request::AddEdge | Request::DelEdge
            | Request::KeyChanged => Ok(Action::Broadcast(q)),
            _ => Ok(Action::Nothing),
        }
    }

    fn dispatch_handshake(&mut self, q: Request, m: Message) -> (r: Result<Action, DispatchError>)
        requires
            old(self).wf(),
            old(self).state != HandshakeState::Active,
            old(self).state != HandshakeState::Closed,
            m.request == Some(q),
        ensures
            final(self).wf(),
            (*final(self), r) == handshake_step(*old(self), m),
    {
        let wanted = match self.state {
            HandshakeState::ExpectId => Some(Request::Id),
            HandshakeState::ExpectMetakey => Some(Request::Metakey),
            HandshakeState::ExpectChallenge => Some(Request::Challenge),
            HandshakeState::ExpectChalReply => Some(Request::ChalReply),
            HandshakeState::ExpectAck => Some(Request::Ack),
            _ => None,
        };
        if wanted != Some(q) {
            return self.refuse(DispatchError::ProtocolViolation);
        }
        match q {
            Request::Id => {
                if m.major != PROT_MAJOR {
                    return self.refuse(DispatchError::VersionMismatch);
                }
                if crate::config::check_name(m.name.as_str(), 0).is_err() {
                    return self.refuse(DispatchError::ProtocolViolation);
                }
                self.name = m.name;
                self.protocol_major = m.major;
                self.state = HandshakeState::ExpectMetakey;
                self.last_activity = m.now;
                Ok(Action::Reply(Request::Metakey))
            },
            Request::Metakey => {
                self.status.encrypt_out = true;
                self.status.decrypt_in = true;
                self.state = HandshakeState::ExpectChallenge;
                self.last_activity = m.now;
                Ok(Action::Reply(Request::Challenge))
            },
            Request::Challenge => {
                self.state = HandshakeState::ExpectChalReply;
                self.last_activity = m.now;
                Ok(Action::Reply(Request::ChalReply))
            },
            Request::ChalReply => {
                if !m.verified {
                    return self.refuse(DispatchError::AuthenticationFailed);
                }
                self.state = HandshakeState::ExpectAck;
                self.last_activity = m.now;
                Ok(Action::Reply(Request::Ack))
            },
            _ => {
                if !(self.status.encrypt_out && self.status.decrypt_in) {
                    return self.refuse(DispatchError::ProtocolViolation);
                }
                self.state = HandshakeState::Active;
                self.last_activity = m.now;
                Ok(Action::Activated)
            },
        }
    }

    /// The periodic keepalive check at `now` for this connection.
    pub fn sweep(&mut self, now: u64, ping_interval: u64, ping_timeout: u64) -> (r: SweepAction)
        requires
            old(self).wf(),
        ensures
            final(self).wf(),
            (*final(self), r) == sweep_step(*old(self), now, ping_interval, ping_timeout),
    {
        if self.state != HandshakeState::Active {
            return SweepAction::Keep;
        }
        let idle: u64 = if now <= self.last_activity {
            0
        } else {
            now - self.last_activity
        };
        if idle > ping_timeout {
            self.state = HandshakeState::Closed;
            self.closed_by = Some(ConnectionError::PingTimeout);
            SweepAction::Close
        } else if !self.status.pinged && idle > ping_interval {
            self.status.pinged = true;
            self.last_ping_time = now;
            SweepAction::SendPing
        } else {
            SweepAction::Keep
        }
    }
}

/// First delay, in seconds, before redialling a peer.
pub const INITIAL_BACKOFF: u32 = 5;

/// Longest delay, in seconds, between two dials of a peer.
pub const MAX_BACKOFF: u32 = 900;

/// Retry state of a peer that this daemon dials.
#[derive(Debug)]
pub struct Outgoing {
    /// The configured peer.
    pub name: String,
    /// Delay before the next dial, in seconds.
    pub timeout: u32,
}

/// The delay after `t`: doubled, at most `MAX_BACKOFF`.
pub open spec fn doubled_delay(t: u32) -> u32 {
    if t >= MAX_BACKOFF / 2 {
        MAX_BACKOFF
    } else {
        (2 * t) as u32
    }
}

impl Outgoing {
    /// Delays stay between `INITIAL_BACKOFF` and `MAX_BACKOFF`.
    pub open spec fn wf(&self) -> bool {
        INITIAL_BACKOFF <= self.timeout <= MAX_BACKOFF
    }

    /// Retry state for dialling `name`, starting at the initial delay.
    pub fn new(name: String) -> (r: Outgoing)
        ensures
            r.wf(),
            r.name@ == name@,
            r.timeout == INITIAL_BACKOFF,
    {
        Outgoing { name, timeout: INITIAL_BACKOFF }
    }

    /// A dial failed: returns the delay to wait before the next one, and doubles the
    /// delay after it, up to `MAX_BACKOFF`.
    pub fn retry_delay(&mut self) -> (r: u32)
        requires
            old(self).wf(),
        ensures
            final(self).wf(),
            r == old(self).timeout,
            final(self).timeout == doubled_delay(old(self).timeout),
            final(self).name == old(self).name,
    {
        let r = self.timeout;
        if self.timeout >= MAX_BACKOFF / 2 {
            self.timeout = MAX_BACKOFF;
        } else {
            self.timeout = 2 * self.timeout;
        }
        r
    }

    /// The peer was reached: the delay starts over.
    pub fn connected(&mut self)
        ensures
            final(self).timeout == INITIAL_BACKOFF,
            final(self).name == old(self).name,
    {
        self.timeout = INITIAL_BACKOFF;
    }

    /// The peer asked to close: wait the longest delay before dialling it again.
    pub fn terminated(&mut self)
        ensures
            final(self).timeout == MAX_BACKOFF,
            final(self).name == old(self).name,
    {
        self.timeout = MAX_BACKOFF;
    }
}

/// The handshake never accepts a `Challenge` before the `Metakey` exchange has
/// secured the channel, and never reaches `Active` without both directions secured.
pub proof fn lemma_handshake_order(c: Connection, m: Message)
    requires
        c.wf(),
    ensures
        step(c, m).0.wf(),
        m.request == Some(Request::Challenge) && step(c, m).1 is Ok ==> secured(c.status)
            && c.state == HandshakeState::ExpectChallenge,
        step(c, m).0.state == HandshakeState::Active ==> secured(step(c, m).0.status),
        step(c, m).1 == Ok::<_, DispatchError>(Action::Activated) ==> c.state
            == HandshakeState::ExpectAck && secured(c.status),
{
}

/// A sweep closes with `PingTimeout` every active connection that has been silent
/// for longer than the ping timeout.
pub proof fn lemma_silent_connection_closed(c: Connection, now: u64, ping_interval: u64, ping_timeout: u64)
    requires
        c.state == HandshakeState::Active,
        idle_time(c, now) > ping_timeout,
    ensures
        sweep_step(c, now, ping_interval, ping_timeout).0.state == HandshakeState::Closed,
        sweep_step(c, now, ping_interval, ping_timeout).0.closed_by == Some(
            ConnectionError::PingTimeout,
        ),
        sweep_step(c, now, ping_interval, ping_timeout).1 == SweepAction::Close,
{
}

} // verus!
