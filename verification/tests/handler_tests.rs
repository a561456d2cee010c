use rtracker::handler::{
    handle_packet, handle_received_packet, make_connection_id, resolve_peer_addr, update_announce,
};
use rtracker::packet_data_types::{ClientAnnounce, PeerAddr};
use rtracker::store::SwarmStore;

fn src() -> PeerAddr {
    PeerAddr::V4 { ip: u32::from_be_bytes([203, 0, 113, 5]) }
}

fn header_bytes(connection_id: i64, action: i32, transaction_id: i32) -> Vec<u8> {
    let mut p = Vec::new();
    p.extend_from_slice(&connection_id.to_be_bytes());
    p.extend_from_slice(&action.to_be_bytes());
    p.extend_from_slice(&transaction_id.to_be_bytes());
    p
}

fn announce_body(
    info_hash: &[u8],
    peer_id: &[u8],
    remaining: i64,
    ip: u32,
    num_want: i32,
    port: u16,
) -> Vec<u8> {
    let mut b = Vec::new();
    b.extend_from_slice(info_hash);
    b.extend_from_slice(peer_id);
    b.extend_from_slice(&0i64.to_be_bytes());
    b.extend_from_slice(&remaining.to_be_bytes());
    b.extend_from_slice(&0i64.to_be_bytes());
    b.extend_from_slice(&0i32.to_be_bytes());
    b.extend_from_slice(&ip.to_be_bytes());
    b.extend_from_slice(&0u32.to_be_bytes());
    b.extend_from_slice(&num_want.to_be_bytes());
    b.extend_from_slice(&port.to_be_bytes());
    b
}

#[test]
fn tiny_datagram_dropped() {
    let mut st = SwarmStore::new();
    let p = vec![0u8; 10];
    let r = handle_packet(&mut st, &p, src(), 1, 0);
    assert!(r.is_none());
    assert_eq!(st.len(), 0);
}

#[test]
fn unsupported_action_gets_error_reply() {
    let mut st = SwarmStore::new();
    let p = header_bytes(0, 99, 42);
    let r = handle_packet(&mut st, &p, src(), 1, 0).unwrap();
    assert_eq!(&r[0..4], &3i32.to_be_bytes());
    assert_eq!(&r[4..8], &42i32.to_be_bytes());
    assert_eq!(&r[8..], "Unsupported Action".as_bytes());
    assert_eq!(st.len(), 0);
}

#[test]
fn connect_reply_mints_given_id() {
    let mut st = SwarmStore::new();
    let p = header_bytes(0, 0, 7);
    let r = handle_packet(&mut st, &p, src(), 0x0123456789ABCDEF, 0).unwrap();
    assert_eq!(r.len(), 16);
    assert_eq!(&r[0..4], &0i32.to_be_bytes());
    assert_eq!(&r[4..8], &7i32.to_be_bytes());
    assert_eq!(&r[8..16], &0x0123456789ABCDEFi64.to_be_bytes());
    assert_eq!(st.len(), 0);
}

#[test]
fn announce_from_source_address() {
    let mut st = SwarmStore::new();
    let h = vec![7u8; 20];
    let p1 = vec![0x31u8; 20];
    let mut packet = header_bytes(0, 1, 5);
    packet.extend_from_slice(&announce_body(&h, &p1, 0, 0, -1, 6881));
    let r = handle_packet(&mut st, &packet, src(), 99, 1234).unwrap();
    // the stored record
    assert_eq!(st.len(), 1);
    let rec = st.record_at(0);
    assert_eq!(rec.info_hash, h);
    assert_eq!(rec.peer_id, p1);
    assert_eq!(rec.addr, src());
    assert_eq!(rec.port, 6881);
    assert_eq!(rec.remaining, 0);
    assert_eq!(rec.last_active, 1234);
    // the reply: one seeder, no leechers, the caller's own pair listed
    assert_eq!(&r[0..4], &1i32.to_be_bytes());
    assert_eq!(&r[4..8], &5i32.to_be_bytes());
    assert_eq!(&r[8..12], &1800i32.to_be_bytes());
    assert_eq!(&r[12..16], &0i32.to_be_bytes());
    assert_eq!(&r[16..20], &1i32.to_be_bytes());
    assert_eq!(r.len(), 26);
    assert_eq!(&r[20..24], &[203, 0, 113, 5]);
    assert_eq!(&r[24..26], &6881u16.to_be_bytes());
}

#[test]
fn announce_with_explicit_ip() {
    let mut st = SwarmStore::new();
    let h = vec![7u8; 20];
    let p1 = vec![0x31u8; 20];
    let mut packet = header_bytes(0, 1, 5);
    packet.extend_from_slice(&announce_body(&h, &p1, 3, 0x01020304, -1, 6881));
    handle_packet(&mut st, &packet, src(), 99, 1234).unwrap();
    let rec = st.record_at(0);
    assert_eq!(rec.addr, PeerAddr::V4 { ip: 0x01020304 });
    assert_eq!(rec.remaining, 3);
}

#[test]
fn malformed_announce_gets_error_reply() {
    let mut st = SwarmStore::new();
    let mut packet = header_bytes(0, 1, 11);
    packet.extend_from_slice(&[0u8; 4]);
    let r = handle_packet(&mut st, &packet, src(), 1, 0).unwrap();
    assert_eq!(&r[0..4], &3i32.to_be_bytes());
    assert_eq!(&r[4..8], &11i32.to_be_bytes());
    assert_eq!(&r[8..], "Malformed Packet".as_bytes());
    assert_eq!(st.len(), 0);
}

#[test]
fn announce_reply_honours_num_want() {
    let mut st = SwarmStore::new();
    let h = vec![7u8; 20];
    for i in 1..=3u8 {
        let mut packet = header_bytes(0, 1, 1);
        packet.extend_from_slice(&announce_body(&h, &vec![i; 20], 0, u32::from(i), -1, 6881));
        handle_packet(&mut st, &packet, src(), 1, 10).unwrap();
    }
    // a fourth peer asks for at most one entry back
    let mut packet = header_bytes(0, 1, 1);
    packet.extend_from_slice(&announce_body(&h, &vec![9; 20], 0, 9, 1, 6881));
    let r = handle_packet(&mut st, &packet, src(), 1, 10).unwrap();
    assert_eq!(r.len(), 20 + 6);
    assert_eq!(&r[20..24], &1u32.to_be_bytes());
}

#[test]
fn announce_sees_own_state() {
    let mut st = SwarmStore::new();
    let h = vec![7u8; 20];
    // an existing leecher in the swarm
    let mut packet = header_bytes(0, 1, 1);
    packet.extend_from_slice(&announce_body(&h, &vec![1; 20], 50, 0x0A000001, -1, 7000));
    handle_packet(&mut st, &packet, src(), 1, 10).unwrap();
    // a fresh seeder sees itself counted at once
    let mut packet = header_bytes(0, 1, 2);
    packet.extend_from_slice(&announce_body(&h, &vec![2; 20], 0, 0x0A000002, -1, 7001));
    let r = handle_packet(&mut st, &packet, src(), 1, 11).unwrap();
    assert_eq!(&r[12..16], &1i32.to_be_bytes());
    assert_eq!(&r[16..20], &1i32.to_be_bytes());
    assert_eq!(r.len(), 20 + 12);
    // seeder-side pair first: the caller's own
    assert_eq!(&r[20..24], &[0x0A, 0, 0, 2]);
    assert_eq!(&r[24..26], &7001u16.to_be_bytes());
    assert_eq!(&r[26..30], &[0x0A, 0, 0, 1]);
    assert_eq!(&r[30..32], &7000u16.to_be_bytes());
}

#[test]
fn update_announce_returns_swarm_and_counts() {
    let mut st = SwarmStore::new();
    let ca = ClientAnnounce {
        info_hash: vec![7u8; 20],
        peer_id: vec![1u8; 20],
        downloaded: 0,
        remaining: 0,
        uploaded: 0,
        event: 0,
        ip: 0,
        key: 0,
        num_want: -1,
        port: 6881,
    };
    let (peers, seeders, leechers) =
        update_announce(&mut st, PeerAddr::V4 { ip: 0x7F000001 }, ca, 55).unwrap();
    assert_eq!(peers, vec![(PeerAddr::V4 { ip: 0x7F000001 }, 6881)]);
    assert_eq!(seeders, 1);
    assert_eq!(leechers, 0);
}

#[test]
fn connection_id_combines_time_and_chance() {
    assert_eq!(make_connection_id(1, 2), (1i64 << 32) | 2);
    assert_eq!(
        make_connection_id(0x7FFF_FFFF, 0xFFFF_FFFF),
        (0x7FFF_FFFFi64 << 32) | 0xFFFF_FFFF
    );
    assert_eq!(make_connection_id(0, 0), 0);
}

#[test]
fn resolve_prefers_explicit_ip() {
    assert_eq!(resolve_peer_addr(0, src()), src());
    assert_eq!(resolve_peer_addr(5, src()), PeerAddr::V4 { ip: 5 });
}

#[test]
fn received_packet_tiny_dropped() {
    let mut st = SwarmStore::new();
    let p = vec![0u8; 15];
    assert!(handle_received_packet(&mut st, &p, src()).is_none());
}

#[test]
fn received_packet_connect_shape() {
    // runs the clock and generator behind the minted id; only the
    // shape and the echoed transaction id are deterministic
    let mut st = SwarmStore::new();
    let p = header_bytes(0x41727101980, 0, 77);
    let r = handle_received_packet(&mut st, &p, src()).unwrap();
    assert_eq!(r.len(), 16);
    assert_eq!(&r[0..4], &0i32.to_be_bytes());
    assert_eq!(&r[4..8], &77i32.to_be_bytes());
}
