use rtracker::packet_data_types::PeerAddr;
use rtracker::store::SwarmStore;

fn hash_a() -> Vec<u8> {
    vec![1u8; 20]
}

fn hash_b() -> Vec<u8> {
    vec![2u8; 20]
}

fn pid(n: u8) -> Vec<u8> {
    vec![n; 20]
}

fn addr(ip: u32) -> PeerAddr {
    PeerAddr::V4 { ip }
}

#[test]
fn upsert_same_identity_keeps_one_record() {
    let mut st = SwarmStore::new();
    st.upsert(hash_a(), addr(10), 6881, pid(1), 5, 1000).unwrap();
    assert_eq!(st.len(), 1);
    st.upsert(hash_a(), addr(10), 6881, pid(1), 0, 2000).unwrap();
    assert_eq!(st.len(), 1);
    let r = st.record_at(0);
    assert_eq!(r.remaining, 0);
    assert_eq!(r.last_active, 2000);
}

#[test]
fn upsert_distinct_identities_accumulate() {
    let mut st = SwarmStore::new();
    st.upsert(hash_a(), addr(10), 6881, pid(1), 0, 1).unwrap();
    st.upsert(hash_a(), addr(10), 6881, pid(2), 0, 1).unwrap();
    st.upsert(hash_a(), addr(10), 6882, pid(1), 0, 1).unwrap();
    st.upsert(hash_b(), addr(10), 6881, pid(1), 0, 1).unwrap();
    assert_eq!(st.len(), 4);
}

#[test]
fn seeder_counted_after_announce() {
    let mut st = SwarmStore::new();
    st.upsert(hash_a(), addr(7), 6881, pid(1), 0, 100).unwrap();
    let (peers, seeders, leechers) = st.swarm_for(&hash_a());
    assert!(peers.contains(&(addr(7), 6881)));
    assert!(seeders >= 1);
    assert_eq!(seeders, 1);
    assert_eq!(leechers, 0);
}

#[test]
fn aggregates_take_group_size_maximum() {
    let mut st = SwarmStore::new();
    // two seeding peer ids behind one (address, port)
    st.upsert(hash_a(), addr(7), 6881, pid(1), 0, 1).unwrap();
    st.upsert(hash_a(), addr(7), 6881, pid(2), 0, 1).unwrap();
    // one seeder elsewhere
    st.upsert(hash_a(), addr(8), 6881, pid(3), 0, 1).unwrap();
    // three leeching peer ids behind one pair
    st.upsert(hash_a(), addr(9), 6999, pid(4), 10, 1).unwrap();
    st.upsert(hash_a(), addr(9), 6999, pid(5), 10, 1).unwrap();
    st.upsert(hash_a(), addr(9), 6999, pid(6), 10, 1).unwrap();
    let (peers, seeders, leechers) = st.swarm_for(&hash_a());
    // the counts are the largest group sizes, not totals
    assert_eq!(seeders, 2);
    assert_eq!(leechers, 3);
    // one entry per pair, seeder-side pairs first
    assert_eq!(peers, vec![(addr(7), 6881), (addr(8), 6881), (addr(9), 6999)]);
}

#[test]
fn swarm_is_scoped_to_the_info_hash() {
    let mut st = SwarmStore::new();
    st.upsert(hash_a(), addr(7), 6881, pid(1), 0, 1).unwrap();
    st.upsert(hash_b(), addr(8), 6882, pid(2), 0, 1).unwrap();
    let (peers, seeders, leechers) = st.swarm_for(&hash_a());
    assert_eq!(peers, vec![(addr(7), 6881)]);
    assert_eq!(seeders, 1);
    assert_eq!(leechers, 0);
}

#[test]
fn empty_swarm_reports_nothing() {
    let st = SwarmStore::new();
    let (peers, seeders, leechers) = st.swarm_for(&hash_a());
    assert!(peers.is_empty());
    assert_eq!(seeders, 0);
    assert_eq!(leechers, 0);
}

#[test]
fn prune_removes_stale_keeps_fresh() {
    let mut st = SwarmStore::new();
    st.upsert(hash_a(), addr(7), 6881, pid(1), 0, 100).unwrap();
    st.upsert(hash_a(), addr(8), 6882, pid(2), 0, 2000).unwrap();
    let removed = st.prune(2100, 1860);
    assert_eq!(removed, 1);
    assert_eq!(st.len(), 1);
    let (peers, seeders, _) = st.swarm_for(&hash_a());
    assert!(!peers.contains(&(addr(7), 6881)));
    assert!(peers.contains(&(addr(8), 6882)));
    assert_eq!(seeders, 1);
}

#[test]
fn prune_threshold_is_strict() {
    let mut st = SwarmStore::new();
    st.upsert(hash_a(), addr(7), 6881, pid(1), 0, 240).unwrap();
    // exactly at the threshold: 2100 - 240 == 1860, not older than it
    let removed = st.prune(2100, 1860);
    assert_eq!(removed, 0);
    assert_eq!(st.len(), 1);
    // one second further and the record goes
    let removed = st.prune(2101, 1860);
    assert_eq!(removed, 1);
    assert_eq!(st.len(), 0);
}
