//! Per-datagram handling: classify an inbound datagram by its action
//! code, run the connect or announce path against the swarm store, and
//! produce the bytes to send back, if any. Datagrams shorter than a
//! header are dropped without a response.

use vstd::prelude::*;

use crate::packet_data_types::{ClientAnnounce, PeerAddr};
use crate::parse_packets::{
    announce_response_wire, connect_wire, decode_client_announce, encode_error,
    encode_server_announce, encode_server_connect, error_wire, header_of, parse_header, u16_of_be,
    u32_of_be, u64_of_be,
};
use crate::store::{groups, max_group, upsert_model, wf_records, PeerRecord, StoreError, SwarmStore};
use vstd::utf8::encode_utf8;

verus! {

/// What an announce hands back for packeting: the peer list, the
/// seeder count and the leecher count.
pub type TrackerData = (Vec<(PeerAddr, u16)>, i32, i32);

/// Relies on `chrono::Utc::now` and `DateTime::timestamp`: the current
/// wall clock as whole seconds since the Unix epoch. The value depends
/// on the system clock, so nothing is promised of it.
#[verifier::external_body]
fn now_seconds() -> i64 {
    chrono::Utc::now().timestamp()
}

/// Relies on `rand::random`: a draw from the thread-local generator.
/// The value is random, so nothing is promised of it.
#[verifier::external_body]
fn random_u32() -> u32 {
    rand::random::<u32>()
}

/// The connection id minted for a connect reply: the clock seconds in
/// the high 32 bits, a random draw in the low 32 bits.
pub open spec fn conn_id_of(secs: i64, low: u32) -> i64 {
    (((secs as u64) << 32u64) | (low as u64)) as i64
}

/// Combine a clock reading and a random draw into a connection id.
pub fn make_connection_id(secs: i64, low: u32) -> (r: i64)
    ensures
        r == conn_id_of(secs, low),
{
    let hi = #[verifier::truncate] (secs as u64);
    let v = (hi << 32) | (low as u64);
    #[verifier::truncate] (v as i64)
}

/// Mint a connection id to make the client happy: time in the high
/// half, chance in the low half.
fn gen_uuid() -> i64 {
    make_connection_id(now_seconds(), random_u32())
}

/// The effective peer address of an announce: the UDP source address
/// when the request carries `0`, else the request's own IPv4 field.
pub open spec fn resolved_addr(ip_field: u32, src: PeerAddr) -> PeerAddr {
    if ip_field == 0 {
        src
    } else {
        PeerAddr::V4 { ip: ip_field }
    }
}

/// Resolve the address an announce is stored under.
pub fn resolve_peer_addr(ip_field: u32, src: PeerAddr) -> (r: PeerAddr)
    ensures
        r == resolved_addr(ip_field, src),
{
    if ip_field == 0 {
        src
    } else {
        PeerAddr::V4 { ip: ip_field }
    }
}

/// Copy a byte string.
fn copy_bytes(v: &Vec<u8>) -> (r: Vec<u8>)
    ensures
        r@ == v@,
{
    let mut out: Vec<u8> = Vec::new();
    let mut i: usize = 0;
    while i < v.len()
        invariant
            i <= v@.len(),
            out@ == v@.subrange(0, i as int),
        decreases v@.len() - i,
    {
        out.push(v[i]);
        proof {
            assert(v@.subrange(0, i + 1 as int) =~= v@.subrange(0, i as int).push(v@[i as int]));
        }
        i += 1;
    }
    proof {
        assert(out@ =~= v@);
    }
    out
}

/// On announce, refresh the caller's record in the store and read the
/// swarm listing and the seeder/leecher aggregates for its info-hash.
/// The upsert runs before the query, so the caller sees its own
/// just-written state reflected in the result.
pub fn update_announce(store: &mut SwarmStore, addr: PeerAddr, ca: ClientAnnounce, now: i64) -> (r:
    Result<TrackerData, StoreError>)
    requires
        wf_records(old(store)@),
        old(store)@.len() < 0x7fff_ffff,
    ensures
        r is Ok,
        wf_records(final(store)@),
        final(store)@ == upsert_model(
            old(store)@,
            (PeerRecord {
                info_hash: ca.info_hash,
                addr,
                port: ca.port,
                peer_id: ca.peer_id,
                remaining: ca.remaining,
                last_active: now,
            }),
        ),
        r matches Ok(data) && data.0@ == groups(final(store)@, ca.info_hash@, true) + groups(
            final(store)@,
            ca.info_hash@,
            false,
        ) && data.1 as int == max_group(final(store)@, ca.info_hash@, true) && data.2 as int
            == max_group(final(store)@, ca.info_hash@, false) && 0 <= data.1 && 0 <= data.2,
{
    let hash_copy = copy_bytes(&ca.info_hash);
    let up = store.upsert(ca.info_hash, addr, ca.port, ca.peer_id, ca.remaining, now);
    match up {
        Ok(()) => {},
        Err(_) => {
            proof {
                assert(false);
            }
        },
    }
    let (peers, seeders, leechers) = store.swarm_for(&hash_copy);
    Ok((peers, seeders, leechers))
}

/// The store grew to `new_s` by upserting the announce decoded from
/// `body`, resolved against `src` and stamped `now`.
pub open spec fn stored_announce(
    old_s: Seq<PeerRecord>,
    new_s: Seq<PeerRecord>,
    body: Seq<u8>,
    src: PeerAddr,
    now: i64,
) -> bool {
    exists|rec: PeerRecord|
        {
            &&& #[trigger] upsert_model(old_s, rec) == new_s
            &&& rec.info_hash@ == body.subrange(0, 20)
            &&& rec.peer_id@ == body.subrange(20, 40)
            &&& rec.addr == resolved_addr(u32_of_be(body.subrange(68, 72)), src)
            &&& rec.port == u16_of_be(body.subrange(80, 82))
            &&& rec.remaining == u64_of_be(body.subrange(48, 56)) as i64
            &&& rec.last_active == now
        }
}

/// Handle one datagram against the store, deterministically: the
/// connection id to mint and the clock reading are arguments. Returns
/// the response bytes, or nothing for a datagram below header size.
pub fn handle_packet(
    store: &mut SwarmStore,
    packet: &[u8],
    src: PeerAddr,
    fresh_conn_id: i64,
    now: i64,
) -> (r: Option<Vec<u8>>)
    requires
        wf_records(old(store)@),
        old(store)@.len() < 0x7fff_ffff,
    ensures
        wf_records(final(store)@),
        packet@.len() < 16 ==> r is None && final(store)@ == old(store)@,
        packet@.len() >= 16 ==> ({
            let h = header_of(packet@);
            &&& h.action == 0 ==> final(store)@ == old(store)@ && (r matches Some(v) && v@
                == connect_wire(fresh_conn_id, h.transaction_id))
            &&& h.action == 1 && packet@.len() < 98 ==> final(store)@ == old(store)@ && (
            r matches Some(v) && v@ == error_wire(
                h.transaction_id,
                encode_utf8("Malformed Packet"@),
            ))
            &&& h.action == 1 && packet@.len() >= 98 ==> ({
                let body = packet@.skip(16);
                &&& stored_announce(old(store)@, final(store)@, body, src, now)
                &&& (r matches Some(v) && v@ == announce_response_wire(
                    final(store)@,
                    body.subrange(0, 20),
                    h.transaction_id,
                    u32_of_be(body.subrange(76, 80)) as i32,
                ))
            })
            &&& h.action != 0 && h.action != 1 ==> final(store)@ == old(store)@ && (
            r matches Some(v) && v@ == error_wire(
                h.transaction_id,
                encode_utf8("Unsupported Action"@),
            ))
        }),
{
    if packet.len() < 16 {
        return None;
    }
    let header = match parse_header(packet) {
        Ok(h) => h,
        Err(_) => {
            proof {
                assert(false);
            }
            return None;
        },
    };
    if header.action == 0 {
        Some(encode_server_connect(fresh_conn_id, header.transaction_id))
    } else if header.action == 1 {
        let body = vstd::slice::slice_subrange(packet, 16, packet.len());
        proof {
            assert(body@ =~= packet@.skip(16));
        }
        match decode_client_announce(body) {
            Err(_) => Some(encode_error(header.transaction_id, "Malformed Packet")),
            Ok(ca) => {
                let addr = resolve_peer_addr(ca.ip, src);
                let num_want = ca.num_want;
                let tid = header.transaction_id;
                match update_announce(store, addr, ca, now) {
                    Ok((swarm, seeders, leechers)) => {
                        let out = encode_server_announce(tid, swarm, num_want, leechers, seeders);
                        Some(out)
                    },
                    Err(_) => {
                        proof {
                            assert(false);
                        }
                        None
                    },
                }
            },
        }
    } else {
        Some(encode_error(header.transaction_id, "Unsupported Action"))
    }
}

/// Handle one datagram as the dispatcher does: mint a connection id
/// from time and chance for a connect, read the clock for an announce,
/// and hand back the response bytes, or nothing for a datagram below
/// header size.
pub fn handle_received_packet(store: &mut SwarmStore, packet: &[u8], src: PeerAddr) -> (r: Option<
    Vec<u8>,
>)
    requires
        wf_records(old(store)@),
        old(store)@.len() < 0x7fff_ffff,
    ensures
        wf_records(final(store)@),
        packet@.len() < 16 ==> r is None && final(store)@ == old(store)@,
        packet@.len() >= 16 ==> ({
            let h = header_of(packet@);
            &&& h.action == 0 ==> final(store)@ == old(store)@ && (exists|cid: i64|
                r matches Some(v) && v@ == #[trigger] connect_wire(cid, h.transaction_id))
            &&& h.action == 1 && packet@.len() < 98 ==> final(store)@ == old(store)@ && (
            r matches Some(v) && v@ == error_wire(
                h.transaction_id,
                encode_utf8("Malformed Packet"@),
            ))
            &&& h.action == 1 && packet@.len() >= 98 ==> (exists|now: i64|
                #[trigger] stored_announce(old(store)@, final(store)@, packet@.skip(16), src, now)
                    && (r matches Some(v) && v@ == announce_response_wire(
                    final(store)@,
                    packet@.skip(16).subrange(0, 20),
                    h.transaction_id,
                    u32_of_be(packet@.skip(16).subrange(76, 80)) as i32,
                )))
            &&& h.action != 0 && h.action != 1 ==> final(store)@ == old(store)@ && (
            r matches Some(v) && v@ == error_wire(
                h.transaction_id,
                encode_utf8("Unsupported Action"@),
            ))
        }),
{
    let uuid = gen_uuid();
    let now = now_seconds();
    handle_packet(store, packet, src, uuid, now)
}

} // verus!
