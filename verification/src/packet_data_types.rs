//! The typed packets of the UDP tracker protocol and the peer address
//! type used by the swarm store and the compact peer lists.

use vstd::prelude::*;

verus! {

/// The first 16 bytes of every inbound datagram, big-endian:
/// an 8-byte connection id, a 4-byte action code and a 4-byte
/// transaction id.
#[derive(Debug, PartialEq, Eq, Structural)]
pub struct PacketHeader {
    pub connection_id: i64,
    pub action: i32,
    pub transaction_id: i32,
}

/// The reply to a connect request: action `0`, the echoed transaction
/// id, and a freshly minted connection id.
#[derive(Debug, PartialEq, Eq, Structural)]
pub struct ConnectionResponse {
    pub action: i32,
    pub transaction_id: i32,
    pub connection_id: i64,
}

/// The fixed head of an announce reply: action `1`, the echoed
/// transaction id, the recommended re-announce interval in seconds,
/// and the swarm's leecher and seeder counts. The compact peer list
/// follows this head on the wire.
#[derive(Debug, PartialEq, Eq, Structural)]
pub struct ServerAnnounce {
    pub action: i32,
    pub transaction_id: i32,
    pub interval: i32,
    pub leechers: i32,
    pub seeders: i32,
}

/// The 82-byte body of an announce request. Trailing bytes past the
/// fixed body are an extension region and are ignored.
#[derive(Debug, PartialEq, Eq)]
pub struct ClientAnnounce {
    pub info_hash: Vec<u8>,
    pub peer_id: Vec<u8>,
    pub downloaded: i64,
    pub remaining: i64,
    pub uploaded: i64,
    pub event: i32,
    pub ip: u32,
    pub key: u32,
    pub num_want: i32,
    pub port: u16,
}

impl ClientAnnounce {
    /// Both opaque identifiers are exactly 20 bytes long.
    pub open spec fn wf(&self) -> bool {
        self.info_hash@.len() == 20 && self.peer_id@.len() == 20
    }
}

/// An error reply: action `3`, the echoed transaction id, and a UTF-8
/// message that runs to the end of the packet.
#[derive(Debug, PartialEq, Eq)]
pub struct ServerError {
    pub action: i32,
    pub transaction_id: i32,
    pub error: String,
}

/// A peer's network address as the plain value the tracker logic
/// reads: the four octets of an IPv4 address packed big-endian into a
/// `u32`, or the sixteen octets of an IPv6 address packed big-endian
/// into two `u64` halves.
#[derive(Clone, Copy, Debug, PartialEq, Eq, Structural)]
pub enum PeerAddr {
    V4 { ip: u32 },
    V6 { hi: u64, lo: u64 },
}

} // verus!
