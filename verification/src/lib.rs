//! A BitTorrent UDP tracker core: the binary wire codec for connect,
//! announce and error packets, the swarm state store that records each
//! peer's announce state, and the per-datagram dispatch logic that ties
//! the two together.

pub mod packet_data_types;
pub mod parse_packets;
pub mod store;
pub mod handler;

use vstd::prelude::*;

verus! {

} // verus!
