use rtracker::store::{PeerRecord, PeerStore};

fn rec(ih: u8, ip: u32, port: u16, pid: u8, remaining: u64, last_active: u64) -> PeerRecord {
    PeerRecord {
        info_hash: vec![ih; 20],
        ip,
        port,
        peer_id: vec![pid; 20],
        remaining,
        last_active,
    }
}

#[test]
fn upsert_same_record_twice_is_one_record() {
    let mut store = PeerStore::new();
    store.upsert(rec(1, 10, 1000, 7, 50, 200));
    store.upsert(rec(1, 10, 1000, 7, 50, 200));
    assert_eq!(store.peer_count(), 1);
    let (leechers, seeders) = store.counts(&vec![1; 20]);
    assert_eq!((leechers, seeders), (1, 0));
}

#[test]
fn upsert_same_key_overwrites_remaining() {
    let mut store = PeerStore::new();
    store.upsert(rec(1, 10, 1000, 7, 50, 200));
    store.upsert(rec(1, 10, 1000, 7, 0, 300));
    assert_eq!(store.peer_count(), 1);
    let (leechers, seeders) = store.counts(&vec![1; 20]);
    assert_eq!((leechers, seeders), (0, 1));
}

#[test]
fn upsert_distinct_keys_accumulates() {
    let mut store = PeerStore::new();
    store.upsert(rec(1, 10, 1000, 7, 50, 200));
    store.upsert(rec(1, 11, 1000, 7, 50, 200));
    store.upsert(rec(1, 10, 1001, 7, 50, 200));
    store.upsert(rec(1, 10, 1000, 8, 50, 200));
    store.upsert(rec(2, 10, 1000, 7, 50, 200));
    assert_eq!(store.peer_count(), 5);
}

#[test]
fn select_swarm_excludes_requester() {
    let mut store = PeerStore::new();
    store.upsert(rec(1, 10, 1000, 7, 50, 200));
    store.upsert(rec(1, 11, 1001, 8, 0, 200));
    store.upsert(rec(1, 12, 1002, 9, 5, 200));
    let swarm = store.select_swarm(&vec![1; 20], 11, 1001, &vec![8; 20], 100);
    assert_eq!(swarm, vec![(10, 1000), (12, 1002)]);
}

#[test]
fn select_swarm_ignores_other_torrents() {
    let mut store = PeerStore::new();
    store.upsert(rec(1, 10, 1000, 7, 50, 200));
    store.upsert(rec(2, 11, 1001, 8, 0, 200));
    let swarm = store.select_swarm(&vec![1; 20], 99, 9999, &vec![0; 20], 100);
    assert_eq!(swarm, vec![(10, 1000)]);
}

#[test]
fn select_swarm_honours_limit() {
    let mut store = PeerStore::new();
    store.upsert(rec(1, 10, 1000, 7, 50, 200));
    store.upsert(rec(1, 11, 1001, 8, 0, 200));
    store.upsert(rec(1, 12, 1002, 9, 5, 200));
    let swarm = store.select_swarm(&vec![1; 20], 99, 9999, &vec![0; 20], 2);
    assert_eq!(swarm, vec![(10, 1000), (11, 1001)]);
}

#[test]
fn counts_split_seeders_and_leechers() {
    let mut store = PeerStore::new();
    store.upsert(rec(1, 10, 1000, 7, 0, 200));
    store.upsert(rec(1, 11, 1001, 8, 9, 200));
    store.upsert(rec(1, 12, 1002, 9, 0, 200));
    store.upsert(rec(2, 13, 1003, 10, 1, 200));
    let (leechers, seeders) = store.counts(&vec![1; 20]);
    assert_eq!((leechers, seeders), (1, 2));
}

#[test]
fn prune_evicts_idle_records_and_keeps_fresh_ones() {
    let mut store = PeerStore::new();
    store.upsert(rec(1, 10, 1000, 7, 0, 100));
    store.upsert(rec(1, 11, 1001, 8, 0, 950));
    store.prune(1000, 60);
    assert_eq!(store.peer_count(), 1);
    let swarm = store.select_swarm(&vec![1; 20], 99, 9999, &vec![0; 20], 100);
    assert_eq!(swarm, vec![(11, 1001)]);
}

#[test]
fn prune_keeps_record_exactly_at_threshold() {
    let mut store = PeerStore::new();
    store.upsert(rec(1, 10, 1000, 7, 0, 940));
    store.prune(1000, 60);
    assert_eq!(store.peer_count(), 1);
}

#[test]
fn record_updated_before_sweep_survives() {
    let mut store = PeerStore::new();
    store.upsert(rec(1, 10, 1000, 7, 0, 100));
    store.upsert(rec(1, 10, 1000, 7, 0, 990));
    store.prune(1000, 60);
    assert_eq!(store.peer_count(), 1);
}

#[test]
fn remove_takes_record_out_of_counts() {
    let mut store = PeerStore::new();
    store.upsert(rec(1, 10, 1000, 7, 0, 200));
    store.upsert(rec(1, 11, 1001, 8, 3, 200));
    store.remove(&vec![1; 20], 10, 1000, &vec![7; 20]);
    let (leechers, seeders) = store.counts(&vec![1; 20]);
    assert_eq!((leechers, seeders), (1, 0));
    assert_eq!(store.peer_count(), 1);
}

#[test]
fn remove_of_absent_key_is_a_no_op() {
    let mut store = PeerStore::new();
    store.upsert(rec(1, 10, 1000, 7, 0, 200));
    store.remove(&vec![9; 20], 10, 1000, &vec![7; 20]);
    assert_eq!(store.peer_count(), 1);
}
