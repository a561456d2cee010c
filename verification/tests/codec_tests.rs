use rtracker::packet_data_types::{ClientAnnounce, PeerAddr};
use rtracker::parse_packets::{
    decode_client_announce, encode_client_announce, encode_error, encode_server_announce,
    encode_server_connect, parse_header, DecodeError,
};

fn sample_announce() -> ClientAnnounce {
    ClientAnnounce {
        info_hash: (0..20).collect(),
        peer_id: (100..120).collect(),
        downloaded: 1_234_567_890_123,
        remaining: 0,
        uploaded: -5,
        event: 2,
        ip: 0xC0A8_0101,
        key: 0xDEAD_BEEF,
        num_want: -1,
        port: 6881,
    }
}

#[test]
fn header_exact_fields() {
    let mut p = Vec::new();
    p.extend_from_slice(&0x0102030405060708i64.to_be_bytes());
    p.extend_from_slice(&1i32.to_be_bytes());
    p.extend_from_slice(&0x0A0B0C0Di32.to_be_bytes());
    let h = parse_header(&p).unwrap();
    assert_eq!(h.connection_id, 0x0102030405060708);
    assert_eq!(h.action, 1);
    assert_eq!(h.transaction_id, 0x0A0B0C0D);
}

#[test]
fn header_negative_fields() {
    let mut p = Vec::new();
    p.extend_from_slice(&(-2i64).to_be_bytes());
    p.extend_from_slice(&(-1i32).to_be_bytes());
    p.extend_from_slice(&(-7i32).to_be_bytes());
    let h = parse_header(&p).unwrap();
    assert_eq!(h.connection_id, -2);
    assert_eq!(h.action, -1);
    assert_eq!(h.transaction_id, -7);
}

#[test]
fn header_short_is_malformed() {
    let p = vec![0u8; 15];
    assert_eq!(parse_header(&p), Err(DecodeError::MalformedPacket));
}

#[test]
fn connect_reply_layout() {
    let out = encode_server_connect(0x1122334455667788, 0x0A0B0C0D);
    assert_eq!(out.len(), 16);
    assert_eq!(&out[0..4], &[0, 0, 0, 0]);
    assert_eq!(&out[4..8], &[0x0A, 0x0B, 0x0C, 0x0D]);
    assert_eq!(&out[8..16], &[0x11, 0x22, 0x33, 0x44, 0x55, 0x66, 0x77, 0x88]);
}

#[test]
fn header_round_trip_of_connect_reply_diagonal() {
    // The one family of inputs on which re-reading a connect reply as a
    // request header hands the ids back: cid is tid zero-extended.
    let tid: i32 = 42;
    let cid: i64 = 42;
    let out = encode_server_connect(cid, tid);
    let h = parse_header(&out).unwrap();
    assert_eq!(h.action, 0);
    assert_eq!(h.connection_id, cid);
    assert_eq!(h.transaction_id, tid);
}

#[test]
fn header_round_trip_of_connect_reply_mismatch() {
    // Outside that family the two layouts do not line up.
    let out = encode_server_connect(0x1122334455667788, 7);
    let h = parse_header(&out).unwrap();
    assert_ne!(h.connection_id, 0x1122334455667788);
    assert_eq!(h.action, 0x11223344);
    assert_eq!(h.transaction_id, 0x55667788);
}

#[test]
fn announce_round_trip() {
    let ca = sample_announce();
    let wire = encode_client_announce(&ca);
    assert_eq!(wire.len(), 82);
    let back = decode_client_announce(&wire).unwrap();
    assert_eq!(back, ca);
}

#[test]
fn announce_round_trip_ignores_extension_tail() {
    let ca = sample_announce();
    let mut wire = encode_client_announce(&ca);
    wire.extend_from_slice(&[9, 9, 9, 9]);
    let back = decode_client_announce(&wire).unwrap();
    assert_eq!(back, ca);
}

#[test]
fn announce_short_is_malformed() {
    let wire = vec![0u8; 81];
    assert_eq!(decode_client_announce(&wire), Err(DecodeError::MalformedPacket));
}

#[test]
fn announce_field_offsets_exact() {
    let mut w = Vec::new();
    w.extend_from_slice(&[0xAB; 20]);
    w.extend_from_slice(&[0xCD; 20]);
    w.extend_from_slice(&100i64.to_be_bytes());
    w.extend_from_slice(&7i64.to_be_bytes());
    w.extend_from_slice(&3i64.to_be_bytes());
    w.extend_from_slice(&1i32.to_be_bytes());
    w.extend_from_slice(&0x7F000001u32.to_be_bytes());
    w.extend_from_slice(&0x00C0FFEEu32.to_be_bytes());
    w.extend_from_slice(&50i32.to_be_bytes());
    w.extend_from_slice(&6969u16.to_be_bytes());
    assert_eq!(w.len(), 82);
    let ca = decode_client_announce(&w).unwrap();
    assert_eq!(ca.info_hash, vec![0xAB; 20]);
    assert_eq!(ca.peer_id, vec![0xCD; 20]);
    assert_eq!(ca.downloaded, 100);
    assert_eq!(ca.remaining, 7);
    assert_eq!(ca.uploaded, 3);
    assert_eq!(ca.event, 1);
    assert_eq!(ca.ip, 0x7F000001);
    assert_eq!(ca.key, 0x00C0FFEE);
    assert_eq!(ca.num_want, 50);
    assert_eq!(ca.port, 6969);
}

#[test]
fn server_announce_truncates_to_num_want() {
    let peers: Vec<(PeerAddr, u16)> =
        (1..=5u32).map(|i| (PeerAddr::V4 { ip: i }, 6880 + i as u16)).collect();
    let out = encode_server_announce(9, peers, 2, 3, 4);
    assert_eq!(&out[0..4], &1i32.to_be_bytes());
    assert_eq!(&out[4..8], &9i32.to_be_bytes());
    assert_eq!(&out[8..12], &1800i32.to_be_bytes());
    assert_eq!(&out[12..16], &3i32.to_be_bytes());
    assert_eq!(&out[16..20], &4i32.to_be_bytes());
    assert_eq!(out.len(), 20 + 2 * 6);
    assert_eq!(&out[20..24], &1u32.to_be_bytes());
    assert_eq!(&out[24..26], &6881u16.to_be_bytes());
    assert_eq!(&out[26..30], &2u32.to_be_bytes());
    assert_eq!(&out[30..32], &6882u16.to_be_bytes());
}

#[test]
fn server_announce_unlimited_when_negative() {
    let peers: Vec<(PeerAddr, u16)> =
        (1..=5u32).map(|i| (PeerAddr::V4 { ip: i }, 6880 + i as u16)).collect();
    let out = encode_server_announce(9, peers, -1, 0, 0);
    assert_eq!(out.len(), 20 + 5 * 6);
    assert_eq!(&out[20..24], &1u32.to_be_bytes());
    assert_eq!(&out[44..48], &5u32.to_be_bytes());
    assert_eq!(&out[48..50], &6885u16.to_be_bytes());
}

#[test]
fn server_announce_num_want_zero_keeps_none() {
    let peers: Vec<(PeerAddr, u16)> = vec![(PeerAddr::V4 { ip: 1 }, 6881)];
    let out = encode_server_announce(9, peers, 0, 0, 1);
    assert_eq!(out.len(), 20);
}

#[test]
fn server_announce_ipv6_entry() {
    let peers = vec![(PeerAddr::V6 { hi: 0x20010DB800000000, lo: 1 }, 443u16)];
    let out = encode_server_announce(1, peers, -1, 0, 1);
    assert_eq!(out.len(), 20 + 18);
    assert_eq!(&out[20..28], &0x20010DB800000000u64.to_be_bytes());
    assert_eq!(&out[28..36], &1u64.to_be_bytes());
    assert_eq!(&out[36..38], &443u16.to_be_bytes());
}

#[test]
fn error_packet_layout() {
    let out = encode_error(42, "Unsupported Action");
    assert_eq!(&out[0..4], &3i32.to_be_bytes());
    assert_eq!(&out[4..8], &42i32.to_be_bytes());
    assert_eq!(&out[8..], "Unsupported Action".as_bytes());
}
