//! The wire codec: lossless, deterministic translation between byte
//! buffers and the typed packets. Every integer on the wire is
//! big-endian.

use vstd::prelude::*;

use crate::packet_data_types::{
    ClientAnnounce, ConnectionResponse, PacketHeader, PeerAddr, ServerAnnounce, ServerError,
};
use vstd::string::StringSliceAdditionalSpecFns;

verus! {

/// Decoding failure: the buffer is shorter than the fixed-size layout
/// it must hold.
#[derive(Clone, Copy, Debug, PartialEq, Eq, Structural)]
pub enum DecodeError {
    MalformedPacket,
}

// ---------------------------------------------------------------------------
// Big-endian bytes of the fixed-width integers, and the integers of
// big-endian bytes.
// ---------------------------------------------------------------------------

pub open spec fn be16(x: u16) -> Seq<u8> {
    seq![(x >> 8) as u8, x as u8]
}

pub open spec fn be32(x: u32) -> Seq<u8> {
    seq![(x >> 24) as u8, (x >> 16) as u8, (x >> 8) as u8, x as u8]
}

pub open spec fn be64(x: u64) -> Seq<u8> {
    seq![
        (x >> 56) as u8,
        (x >> 48) as u8,
        (x >> 40) as u8,
        (x >> 32) as u8,
        (x >> 24) as u8,
        (x >> 16) as u8,
        (x >> 8) as u8,
        x as u8,
    ]
}

pub open spec fn u16_of_be(s: Seq<u8>) -> u16
    recommends
        s.len() == 2,
{
    ((s[0] as u16) << 8) | (s[1] as u16)
}

pub open spec fn u32_of_be(s: Seq<u8>) -> u32
    recommends
        s.len() == 4,
{
    ((s[0] as u32) << 24) | ((s[1] as u32) << 16) | ((s[2] as u32) << 8) | (s[3] as u32)
}

pub open spec fn u64_of_be(s: Seq<u8>) -> u64
    recommends
        s.len() == 8,
{
    ((s[0] as u64) << 56) | ((s[1] as u64) << 48) | ((s[2] as u64) << 40) | ((s[3] as u64) << 32)
        | ((s[4] as u64) << 24) | ((s[5] as u64) << 16) | ((s[6] as u64) << 8) | (s[7] as u64)
}

pub proof fn lemma_u16_be_round(x: u16)
    ensures
        u16_of_be(be16(x)) == x,
{
    assert(((((x >> 8) as u8) as u16) << 8) | ((x as u8) as u16) == x) by (bit_vector);
}

pub proof fn lemma_u32_be_round(x: u32)
    ensures
        u32_of_be(be32(x)) == x,
{
    assert(((((x >> 24) as u8) as u32) << 24) | ((((x >> 16) as u8) as u32) << 16) | ((((x
        >> 8) as u8) as u32) << 8) | (((x as u8)) as u32) == x) by (bit_vector);
}

pub proof fn lemma_u64_be_round(x: u64)
    ensures
        u64_of_be(be64(x)) == x,
{
    assert(((((x >> 56) as u8) as u64) << 56) | ((((x >> 48) as u8) as u64) << 48) | ((((x
        >> 40) as u8) as u64) << 40) | ((((x >> 32) as u8) as u64) << 32) | ((((x
        >> 24) as u8) as u64) << 24) | ((((x >> 16) as u8) as u64) << 16) | ((((x
        >> 8) as u8) as u64) << 8) | (((x as u8)) as u64) == x) by (bit_vector);
}

// ---------------------------------------------------------------------------
// Executable readers and writers for the same byte layouts.
// ---------------------------------------------------------------------------

pub fn read_u16_be(p: &[u8], off: usize) -> (x: u16)
    requires
        off + 2 <= p@.len(),
    ensures
        x == u16_of_be(p@.subrange(off as int, off as int + 2)),
{
    let x = ((p[off] as u16) << 8) | (p[off + 1] as u16);
    proof {
        let s = p@.subrange(off as int, off as int + 2);
        assert(s[0] == p@[off as int] && s[1] == p@[off as int + 1]);
    }
    x
}

pub fn read_u32_be(p: &[u8], off: usize) -> (x: u32)
    requires
        off + 4 <= p@.len(),
    ensures
        x == u32_of_be(p@.subrange(off as int, off as int + 4)),
{
    let x = ((p[off] as u32) << 24) | ((p[off + 1] as u32) << 16) | ((p[off + 2] as u32) << 8) | (
    p[off + 3] as u32);
    proof {
        let s = p@.subrange(off as int, off as int + 4);
        assert(s[0] == p@[off as int] && s[1] == p@[off as int + 1] && s[2] == p@[off as int + 2]
            && s[3] == p@[off as int + 3]);
    }
    x
}

pub fn read_u64_be(p: &[u8], off: usize) -> (x: u64)
    requires
        off + 8 <= p@.len(),
    ensures
        x == u64_of_be(p@.subrange(off as int, off as int + 8)),
{
    let x = ((p[off] as u64) << 56) | ((p[off + 1] as u64) << 48) | ((p[off + 2] as u64) << 40) | ((
    p[off + 3] as u64) << 32) | ((p[off + 4] as u64) << 24) | ((p[off + 5] as u64) << 16) | ((p[off
        + 6] as u64) << 8) | (p[off + 7] as u64);
    proof {
        let s = p@.subrange(off as int, off as int + 8);
        assert(s[0] == p@[off as int] && s[1] == p@[off as int + 1] && s[2] == p@[off as int + 2]
            && s[3] == p@[off as int + 3] && s[4] == p@[off as int + 4] && s[5] == p@[off as int
            + 5] && s[6] == p@[off as int + 6] && s[7] == p@[off as int + 7]);
    }
    x
}

pub fn push_be16(out: &mut Vec<u8>, x: u16)
    ensures
        final(out)@ == old(out)@ + be16(x),
{
    out.push(#[verifier::truncate] ((x >> 8) as u8));
    out.push(#[verifier::truncate] (x as u8));
    proof {
        assert(out@ =~= old(out)@ + be16(x));
    }
}

pub fn push_be32(out: &mut Vec<u8>, x: u32)
    ensures
        final(out)@ == old(out)@ + be32(x),
{
    out.push(#[verifier::truncate] ((x >> 24) as u8));
    out.push(#[verifier::truncate] ((x >> 16) as u8));
    out.push(#[verifier::truncate] ((x >> 8) as u8));
    out.push(#[verifier::truncate] (x as u8));
    proof {
        assert(out@ =~= old(out)@ + be32(x));
    }
}

pub fn push_be64(out: &mut Vec<u8>, x: u64)
    ensures
        final(out)@ == old(out)@ + be64(x),
{
    out.push(#[verifier::truncate] ((x >> 56) as u8));
    out.push(#[verifier::truncate] ((x >> 48) as u8));
    out.push(#[verifier::truncate] ((x >> 40) as u8));
    out.push(#[verifier::truncate] ((x >> 32) as u8));
    out.push(#[verifier::truncate] ((x >> 24) as u8));
    out.push(#[verifier::truncate] ((x >> 16) as u8));
    out.push(#[verifier::truncate] ((x >> 8) as u8));
    out.push(#[verifier::truncate] (x as u8));
    proof {
        assert(out@ =~= old(out)@ + be64(x));
    }
}

// ---------------------------------------------------------------------------
// The packet layouts.
// ---------------------------------------------------------------------------

/// What a 16-byte-or-longer buffer decodes to as a request header.
pub open spec fn header_of(b: Seq<u8>) -> PacketHeader {
    PacketHeader {
        connection_id: u64_of_be(b.subrange(0, 8)) as i64,
        action: u32_of_be(b.subrange(8, 12)) as i32,
        transaction_id: u32_of_be(b.subrange(12, 16)) as i32,
    }
}

/// The 16-byte connect reply: action `0`, transaction id, connection id.
pub open spec fn connect_wire(connection_id: i64, transaction_id: i32) -> Seq<u8> {
    be32(0) + be32(transaction_id as u32) + be64(connection_id as u64)
}

/// Parse the first 16 bytes of a datagram as a request header; anything
/// shorter is malformed.
pub fn parse_header(packet: &[u8]) -> (r: Result<PacketHeader, DecodeError>)
    ensures
        packet@.len() < 16 ==> r == Result::<PacketHeader, DecodeError>::Err(
            DecodeError::MalformedPacket,
        ),
        packet@.len() >= 16 ==> (r matches Ok(h) && h == header_of(packet@)),
{
    if packet.len() < 16 {
        return Err(DecodeError::MalformedPacket);
    }
    let connection_id = #[verifier::truncate] (read_u64_be(packet, 0) as i64);
    let action = #[verifier::truncate] (read_u32_be(packet, 8) as i32);
    let transaction_id = #[verifier::truncate] (read_u32_be(packet, 12) as i32);
    Ok(PacketHeader { connection_id, action, transaction_id })
}

/// The 82-byte fixed body of an announce request.
pub open spec fn announce_wire(ca: ClientAnnounce) -> Seq<u8> {
    ca.info_hash@ + ca.peer_id@ + be64(ca.downloaded as u64) + be64(ca.remaining as u64) + be64(
        ca.uploaded as u64,
    ) + be32(ca.event as u32) + be32(ca.ip) + be32(ca.key) + be32(ca.num_want as u32) + be16(
        ca.port,
    )
}

/// What an 82-byte-or-longer buffer decodes to as an announce body.
/// Bytes past offset 82 are the extension region and carry no field.
pub open spec fn announce_fields_of(b: Seq<u8>, ca: ClientAnnounce) -> bool {
    &&& ca.info_hash@ == b.subrange(0, 20)
    &&& ca.peer_id@ == b.subrange(20, 40)
    &&& ca.downloaded == u64_of_be(b.subrange(40, 48)) as i64
    &&& ca.remaining == u64_of_be(b.subrange(48, 56)) as i64
    &&& ca.uploaded == u64_of_be(b.subrange(56, 64)) as i64
    &&& ca.event == u32_of_be(b.subrange(64, 68)) as i32
    &&& ca.ip == u32_of_be(b.subrange(68, 72))
    &&& ca.key == u32_of_be(b.subrange(72, 76))
    &&& ca.num_want == u32_of_be(b.subrange(76, 80)) as i32
    &&& ca.port == u16_of_be(b.subrange(80, 82))
}

/// Copy the bytes of `p` between `start` and `end` into a fresh vector.
pub fn copy_range(p: &[u8], start: usize, end: usize) -> (r: Vec<u8>)
    requires
        start <= end <= p@.len(),
    ensures
        r@ == p@.subrange(start as int, end as int),
{
    let mut out: Vec<u8> = Vec::new();
    let mut i: usize = start;
    while i < end
        invariant
            start <= i <= end <= p@.len(),
            out@ == p@.subrange(start as int, i as int),
        decreases end - i,
    {
        out.push(p[i]);
        proof {
            assert(p@.subrange(start as int, i + 1 as int) =~= p@.subrange(
                start as int,
                i as int,
            ).push(p@[i as int]));
        }
        i += 1;
    }
    out
}

/// Decode the fixed 82-byte announce body; a shorter buffer is
/// malformed, and any trailing extension bytes are ignored.
pub fn decode_client_announce(packet: &[u8]) -> (r: Result<ClientAnnounce, DecodeError>)
    ensures
        packet@.len() < 82 ==> r == Result::<ClientAnnounce, DecodeError>::Err(
            DecodeError::MalformedPacket,
        ),
        packet@.len() >= 82 ==> (r matches Ok(ca) && announce_fields_of(packet@, ca) && ca.wf()),
{
    if packet.len() < 82 {
        return Err(DecodeError::MalformedPacket);
    }
    let info_hash = copy_range(packet, 0, 20);
    let peer_id = copy_range(packet, 20, 40);
    let downloaded = #[verifier::truncate] (read_u64_be(packet, 40) as i64);
    let remaining = #[verifier::truncate] (read_u64_be(packet, 48) as i64);
    let uploaded = #[verifier::truncate] (read_u64_be(packet, 56) as i64);
    let event = #[verifier::truncate] (read_u32_be(packet, 64) as i32);
    let ip = read_u32_be(packet, 68);
    let key = read_u32_be(packet, 72);
    let num_want = #[verifier::truncate] (read_u32_be(packet, 76) as i32);
    let port = read_u16_be(packet, 80);
    Ok(
        ClientAnnounce {
            info_hash,
            peer_id,
            downloaded,
            remaining,
            uploaded,
            event,
            ip,
            key,
            num_want,
            port,
        },
    )
}

/// Encode an announce body exactly as the wire layout prescribes.
pub fn encode_client_announce(ca: &ClientAnnounce) -> (r: Vec<u8>)
    requires
        ca.wf(),
    ensures
        r@ == announce_wire(*ca),
        r@.len() == 82,
{
    let mut out: Vec<u8> = Vec::new();
    let mut i: usize = 0;
    while i < ca.info_hash.len()
        invariant
            i <= ca.info_hash@.len(),
            out@ == ca.info_hash@.subrange(0, i as int),
        decreases ca.info_hash@.len() - i,
    {
        out.push(ca.info_hash[i]);
        proof {
            assert(ca.info_hash@.subrange(0, i + 1 as int) =~= ca.info_hash@.subrange(
                0,
                i as int,
            ).push(ca.info_hash@[i as int]));
        }
        i += 1;
    }
    proof {
        assert(out@ =~= ca.info_hash@);
    }
    let mut j: usize = 0;
    while j < ca.peer_id.len()
        invariant
            j <= ca.peer_id@.len(),
            out@ == ca.info_hash@ + ca.peer_id@.subrange(0, j as int),
        decreases ca.peer_id@.len() - j,
    {
        out.push(ca.peer_id[j]);
        proof {
            assert(ca.info_hash@ + ca.peer_id@.subrange(0, j + 1 as int) =~= (ca.info_hash@
                + ca.peer_id@.subrange(0, j as int)).push(ca.peer_id@[j as int]));
        }
        j += 1;
    }
    proof {
        assert(ca.peer_id@.subrange(0, ca.peer_id@.len() as int) =~= ca.peer_id@);
    }
    push_be64(&mut out, #[verifier::truncate] (ca.downloaded as u64));
    push_be64(&mut out, #[verifier::truncate] (ca.remaining as u64));
    push_be64(&mut out, #[verifier::truncate] (ca.uploaded as u64));
    push_be32(&mut out, #[verifier::truncate] (ca.event as u32));
    push_be32(&mut out, ca.ip);
    push_be32(&mut out, ca.key);
    push_be32(&mut out, #[verifier::truncate] (ca.num_want as u32));
    push_be16(&mut out, ca.port);
    proof {
        assert(out@ =~= announce_wire(*ca));
    }
    out
}

/// Encode the reply to a connect request: always exactly 16 bytes.
pub fn encode_server_connect(uuid: i64, tran_id: i32) -> (r: Vec<u8>)
    ensures
        r@ == connect_wire(uuid, tran_id),
        r@.len() == 16,
{
    let packet = ConnectionResponse { action: 0, transaction_id: tran_id, connection_id: uuid };
    let mut out: Vec<u8> = Vec::new();
    push_be32(&mut out, #[verifier::truncate] (packet.action as u32));
    push_be32(&mut out, #[verifier::truncate] (packet.transaction_id as u32));
    push_be64(&mut out, #[verifier::truncate] (packet.connection_id as u64));
    out
}

pub proof fn lemma_i64_u64_round(x: i64)
    ensures
        ((x as u64) as i64) == x,
{
    assert(((x as u64) as i64) == x) by (bit_vector);
}

pub proof fn lemma_i32_u32_round(x: i32)
    ensures
        ((x as u32) as i32) == x,
{
    assert(((x as u32) as i32) == x) by (bit_vector);
}

/// Round trip for the announce body: the fields decoded from an
/// encoded announce, with any extension tail appended, are exactly the
/// fields that were encoded.
pub proof fn lemma_announce_round_trip(ca: ClientAnnounce, ca2: ClientAnnounce, tail: Seq<u8>)
    requires
        ca.wf(),
        announce_fields_of(announce_wire(ca) + tail, ca2),
    ensures
        ca2.info_hash@ == ca.info_hash@,
        ca2.peer_id@ == ca.peer_id@,
        ca2.downloaded == ca.downloaded,
        ca2.remaining == ca.remaining,
        ca2.uploaded == ca.uploaded,
        ca2.event == ca.event,
        ca2.ip == ca.ip,
        ca2.key == ca.key,
        ca2.num_want == ca.num_want,
        ca2.port == ca.port,
{
    let b = announce_wire(ca) + tail;
    assert(b.subrange(0, 20) =~= ca.info_hash@);
    assert(b.subrange(20, 40) =~= ca.peer_id@);
    assert(b.subrange(40, 48) =~= be64(ca.downloaded as u64));
    assert(b.subrange(48, 56) =~= be64(ca.remaining as u64));
    assert(b.subrange(56, 64) =~= be64(ca.uploaded as u64));
    assert(b.subrange(64, 68) =~= be32(ca.event as u32));
    assert(b.subrange(68, 72) =~= be32(ca.ip));
    assert(b.subrange(72, 76) =~= be32(ca.key));
    assert(b.subrange(76, 80) =~= be32(ca.num_want as u32));
    assert(b.subrange(80, 82) =~= be16(ca.port));
    lemma_u64_be_round(ca.downloaded as u64);
    lemma_u64_be_round(ca.remaining as u64);
    lemma_u64_be_round(ca.uploaded as u64);
    lemma_u32_be_round(ca.event as u32);
    lemma_u32_be_round(ca.ip);
    lemma_u32_be_round(ca.key);
    lemma_u32_be_round(ca.num_want as u32);
    lemma_u16_be_round(ca.port);
    lemma_i64_u64_round(ca.downloaded);
    lemma_i64_u64_round(ca.remaining);
    lemma_i64_u64_round(ca.uploaded);
    lemma_i32_u32_round(ca.event);
    lemma_i32_u32_round(ca.num_want);
}

/// Decoding the first 16 bytes of a connect reply as a request header
/// yields action 0 with both ids intact exactly when the connection id
/// is the transaction id zero-extended to 64 bits. The reply lays out
/// action, transaction id, connection id, while the request header
/// lays out connection id, action, transaction id, so the fields only
/// line up on that diagonal.
pub proof fn lemma_header_connect_round_trip(cid: i64, tid: i32)
    requires
        cid == (tid as u32) as i64,
    ensures
        header_of(connect_wire(cid, tid)) == (PacketHeader {
            connection_id: cid,
            action: 0,
            transaction_id: tid,
        }),
{
    let b = connect_wire(cid, tid);
    let h = header_of(b);
    let t = tid as u32;
    let c = cid as u64;
    assert(c == t as u64) by (bit_vector)
        requires
            cid == (t as i64) && c == cid as u64,
    ;
    assert(b.subrange(0, 8) =~= be32(0) + be32(t));
    assert(b.subrange(8, 12) =~= seq![
        (c >> 56) as u8,
        (c >> 48) as u8,
        (c >> 40) as u8,
        (c >> 32) as u8,
    ]);
    assert(b.subrange(12, 16) =~= seq![(c >> 24) as u8, (c >> 16) as u8, (c >> 8) as u8, c as u8]);
    assert(u64_of_be(be32(0) + be32(t)) == ((((0u32 >> 24) as u8) as u64) << 56) | ((((0u32
        >> 16) as u8) as u64) << 48) | ((((0u32 >> 8) as u8) as u64) << 40) | (((0u32 as u8) as u64)
        << 32) | ((((t >> 24) as u8) as u64) << 24) | ((((t >> 16) as u8) as u64) << 16) | ((((t
        >> 8) as u8) as u64) << 8) | ((t as u8) as u64));
    assert((((((0u32 >> 24) as u8) as u64) << 56) | ((((0u32 >> 16) as u8) as u64) << 48) | ((((0u32
        >> 8) as u8) as u64) << 40) | (((0u32 as u8) as u64) << 32) | ((((t >> 24) as u8) as u64)
        << 24) | ((((t >> 16) as u8) as u64) << 16) | ((((t >> 8) as u8) as u64) << 8) | ((
    t as u8) as u64)) as i64 == (t as i64)) by (bit_vector);
    assert(h.connection_id == cid);
    assert((((((c >> 56) as u8) as u32) << 24) | ((((c >> 48) as u8) as u32) << 16) | ((((c
        >> 40) as u8) as u32) << 8) | (((c >> 32) as u8) as u32)) as i32 == 0i32) by (bit_vector)
        requires
            c == t as u64,
    ;
    assert(h.action == 0);
    assert((((((c >> 24) as u8) as u32) << 24) | ((((c >> 16) as u8) as u32) << 16) | ((((c
        >> 8) as u8) as u32) << 8) | ((c as u8) as u32)) as i32 == tid) by (bit_vector)
        requires
            c == t as u64 && t == tid as u32,
    ;
    assert(h.transaction_id == tid);
}

/// The raw wire bytes of a peer address: four octets for IPv4,
/// sixteen for IPv6.
pub open spec fn addr_bytes(a: PeerAddr) -> Seq<u8> {
    match a {
        PeerAddr::V4 { ip } => be32(ip),
        PeerAddr::V6 { hi, lo } => be64(hi) + be64(lo),
    }
}

/// One compact peer entry: the address octets followed by the
/// big-endian port.
pub open spec fn peer_entry(a: PeerAddr, port: u16) -> Seq<u8> {
    addr_bytes(a) + be16(port)
}

/// The compact peer list: the entries of `pairs` in order, without
/// delimiters.
pub open spec fn peer_blob(pairs: Seq<(PeerAddr, u16)>) -> Seq<u8>
    decreases pairs.len(),
{
    if pairs.len() == 0 {
        Seq::empty()
    } else {
        peer_blob(pairs.drop_last()) + peer_entry(pairs.last().0, pairs.last().1)
    }
}

/// The 20-byte head of an announce reply: action `1`, transaction id,
/// the fixed 1800-second re-announce interval, leechers, seeders.
pub open spec fn announce_head_wire(transaction_id: i32, leechers: i32, seeders: i32) -> Seq<u8> {
    be32(1) + be32(transaction_id as u32) + be32(1800) + be32(leechers as u32) + be32(
        seeders as u32,
    )
}

/// How many leading peers an announce reply keeps: `num_want` when it
/// is non-negative and smaller than the list, the whole list otherwise.
pub open spec fn kept_peers(len: nat, num_want: i32) -> int {
    if 0 <= num_want < len {
        num_want as int
    } else {
        len as int
    }
}

/// Encode an announce reply: the fixed head, then the compact entries
/// of the supplied peers, truncated to `num_want` entries when
/// `num_want` is non-negative and smaller than the list, in their
/// given order otherwise.
pub fn encode_server_announce(
    transaction_id: i32,
    swarm: Vec<(PeerAddr, u16)>,
    num_want: i32,
    leechers: i32,
    seeders: i32,
) -> (r: Vec<u8>)
    ensures
        r@ == announce_head_wire(transaction_id, leechers, seeders) + peer_blob(
            swarm@.subrange(0, kept_peers(swarm@.len(), num_want)),
        ),
{
    let packet = ServerAnnounce { action: 1, transaction_id, interval: 1800, leechers, seeders };
    let mut out: Vec<u8> = Vec::new();
    push_be32(&mut out, #[verifier::truncate] (packet.action as u32));
    push_be32(&mut out, #[verifier::truncate] (packet.transaction_id as u32));
    push_be32(&mut out, #[verifier::truncate] (packet.interval as u32));
    push_be32(&mut out, #[verifier::truncate] (packet.leechers as u32));
    push_be32(&mut out, #[verifier::truncate] (packet.seeders as u32));
    proof {
        assert(out@ =~= announce_head_wire(transaction_id, leechers, seeders));
    }
    let take: usize = if num_want >= 0 && (num_want as usize) < swarm.len() {
        num_want as usize
    } else {
        swarm.len()
    };
    assert(take as int == kept_peers(swarm@.len(), num_want));
    let ghost head = announce_head_wire(transaction_id, leechers, seeders);
    let mut j: usize = 0;
    while j < take
        invariant
            j <= take <= swarm@.len(),
            out@ == head + peer_blob(swarm@.subrange(0, j as int)),
        decreases take - j,
    {
        let (addr, port) = swarm[j];
        match addr {
            PeerAddr::V4 { ip } => {
                push_be32(&mut out, ip);
            },
            PeerAddr::V6 { hi, lo } => {
                push_be64(&mut out, hi);
                push_be64(&mut out, lo);
            },
        }
        push_be16(&mut out, port);
        proof {
            let prev = swarm@.subrange(0, j as int);
            let cur = swarm@.subrange(0, j + 1 as int);
            assert(cur.drop_last() =~= prev);
            assert(cur.last() == swarm@[j as int]);
            assert(out@ =~= head + peer_blob(cur));
        }
        j += 1;
    }
    out
}

/// An error reply: action `3`, the echoed transaction id, then the
/// message bytes running to the end of the packet.
pub open spec fn error_wire(transaction_id: i32, msg: Seq<u8>) -> Seq<u8> {
    be32(3) + be32(transaction_id as u32) + msg
}

/// The full announce reply computed from a store state: the head
/// carrying the echoed transaction id and the two group-size maxima,
/// then the compact entries of the swarm listing, truncated to
/// `num_want` entries when that cap applies.
pub open spec fn announce_response_wire(
    s: Seq<crate::store::PeerRecord>,
    info_hash: Seq<u8>,
    transaction_id: i32,
    num_want: i32,
) -> Seq<u8> {
    let pairs = crate::store::groups(s, info_hash, true) + crate::store::groups(
        s,
        info_hash,
        false,
    );
    announce_head_wire(
        transaction_id,
        crate::store::max_group(s, info_hash, false) as i32,
        crate::store::max_group(s, info_hash, true) as i32,
    ) + peer_blob(pairs.subrange(0, kept_peers(pairs.len(), num_want)))
}

/// Encode an error reply carrying the UTF-8 bytes of `error_string`.
pub fn encode_error(transaction_id: i32, error_string: &str) -> (r: Vec<u8>)
    ensures
        r@ == error_wire(transaction_id, vstd::utf8::encode_utf8(error_string@)),
{
    let err = ServerError { action: 3, transaction_id, error: error_string.to_owned() };
    let mut out: Vec<u8> = Vec::new();
    push_be32(&mut out, #[verifier::truncate] (err.action as u32));
    push_be32(&mut out, #[verifier::truncate] (err.transaction_id as u32));
    let bytes = err.error.as_str().as_bytes();
    let mut i: usize = 0;
    while i < bytes.len()
        invariant
            i <= bytes@.len(),
            out@ == be32(3) + be32(transaction_id as u32) + bytes@.subrange(0, i as int),
        decreases bytes@.len() - i,
    {
        out.push(bytes[i]);
        proof {
            assert(be32(3) + be32(transaction_id as u32) + bytes@.subrange(0, i + 1 as int) =~= (
            be32(3) + be32(transaction_id as u32) + bytes@.subrange(0, i as int)).push(
                bytes@[i as int],
            ));
        }
        i += 1;
    }
    proof {
        assert(bytes@.subrange(0, bytes@.len() as int) =~= bytes@);
        assert(out@ =~= error_wire(transaction_id, error_string.spec_bytes()));
    }
    out
}

} // verus!
