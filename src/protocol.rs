use vstd::prelude::*;

verus! {

/// Major version of the meta protocol spoken by this implementation.
pub const PROT_MAJOR: u16 = 17;

/// Minor version of the meta protocol spoken by this implementation.
pub const PROT_MINOR: u8 = 7;

/// The first request number that names no request.
pub const REQUEST_LAST: i32 = 24;

/// The kinds of request exchanged over a meta connection, in wire order from 0.
#[derive(Debug, Clone, Copy, PartialEq, Eq, Structural)]
pub enum Request {
    Id,
    Metakey,
    Challenge,
    ChalReply,
    Ack,
    Status,
    Error,
    Termreq,
    Ping,
    Pong,
    AddSubnet,
    DelSubnet,
    AddEdge,
    DelEdge,
    KeyChanged,
    ReqKey,
    AnsKey,
    Packet,
    Control,
    ReqPubkey,
    AnsPubkey,
    SptpsPacket,
    UdpInfo,
    MtuInfo,
}

/// The wire number of a request kind.
pub open spec fn code_of(r: Request) -> int {
    match r {
        Request::Id => 0,
        Request::Metakey => 1,
        Request::Challenge => 2,
        Request::ChalReply => 3,
        Request::Ack => 4,
        Request::Status => 5,
        Request::Error => 6,
        Request::Termreq => 7,
        Request::Ping => 8,
        Request::Pong => 9,
        Request::AddSubnet => 10,
        Request::DelSubnet => 11,
        Request::AddEdge => 12,
        Request::DelEdge => 13,
        Request::KeyChanged => 14,
        Request::ReqKey => 15,
        Request::AnsKey => 16,
        Request::Packet => 17,
        Request::Control => 18,
        Request::ReqPubkey => 19,
        Request::AnsPubkey => 20,
        Request::SptpsPacket => 21,
        Request::UdpInfo => 22,
        Request::MtuInfo => 23,
    }
}

/// Whether a request belongs to the handshake.
pub open spec fn is_handshake(r: Request) -> bool {
    code_of(r) <= 4
}

/// Whether a request changes the topology and is passed on to the other peers.
pub open spec fn is_broadcast(r: Request) -> bool {
    r == Request::AddSubnet || r == Request::DelSubnet || r == Request::AddEdge
        || r == Request::DelEdge || r == Request::KeyChanged
}

impl Request {
    /// The wire number of this request kind.
    pub fn code(&self) -> (r: i32)
        ensures
            r as int == code_of(*self),
    {
        match self {
            Request::Id => 0,
            Request::Metakey => 1,
            Request::Challenge => 2,
            Request::ChalReply => 3,
            Request::Ack => 4,
            Request::Status => 5,
            Request::Error => 6,
            Request::Termreq => 7,
            Request::Ping => 8,
            Request::Pong => 9,
            Request::AddSubnet => 10,
            Request::DelSubnet => 11,
            Request::AddEdge => 12,
            Request::DelEdge => 13,
            Request::KeyChanged => 14,
            Request::ReqKey => 15,
            Request::AnsKey => 16,
            Request::Packet => 17,
            Request::Control => 18,
            Request::ReqPubkey => 19,
            Request::AnsPubkey => 20,
            Request::SptpsPacket => 21,
            Request::UdpInfo => 22,
            Request::MtuInfo => 23,
        }
    }

    /// The request kind with wire number `code`; `None` for a number that names none,
    /// the "any request" sentinel -1 included.
    pub fn from_code(code: i32) -> (r: Option<Request>)
        ensures
            r is Some <==> 0 <= code < REQUEST_LAST,
            r matches Some(q) ==> code_of(q) == code,
    {
        match code {
            0 => Some(Request::Id),
            1 => Some(Request::Metakey),
            2 => Some(Request::Challenge),
            3 => Some(Request::ChalReply),
            4 => Some(Request::Ack),
            5 => Some(Request::Status),
            6 => Some(Request::Error),
            7 => Some(Request::Termreq),
            8 => Some(Request::Ping),
            9 => Some(Request::Pong),
            10 => Some(Request::AddSubnet),
            11 => Some(Request::DelSubnet),
            12 => Some(Request::AddEdge),
            13 => Some(Request::DelEdge),
            14 => Some(Request::KeyChanged),
            15 => Some(Request::ReqKey),
            16 => Some(Request::AnsKey),
            17 => Some(Request::Packet),
            18 => Some(Request::Control),
            19 => Some(Request::ReqPubkey),
            20 => Some(Request::AnsPubkey),
            21 => Some(Request::SptpsPacket),
            22 => Some(Request::UdpInfo),
            23 => Some(Request::MtuInfo),
            _ => None,
        }
    }
}

/// Decoding a request's own number gives the request back.
pub proof fn lemma_code_round_trip(r: Request)
    ensures
        0 <= code_of(r) < REQUEST_LAST,
        forall|q: Request| code_of(q) == code_of(r) ==> q == r,
{
}

} // verus!
