use std::collections::BTreeMap;
use storagehub_client::peer_manager::BspPeerManager;
use storagehub_client::peer_stats::{
    current_column_families, BspPeerStats, EncodablePeerId, LastUpdateTimeCf, PeerFileKeyCf,
    PeerIdCf, PersistentBspPeerStats, SCORE_UNIT,
};

const MAX_SPEED: u64 = 50 * 1024 * 1024;

#[test]
fn encodable_peer_id_round_trip() {
    let id = EncodablePeerId::from_bytes(b"12D3KooWpeer".to_vec());
    assert_eq!(id.to_bytes(), b"12D3KooWpeer".to_vec());
}

#[test]
fn peer_column_family_names() {
    assert_eq!(PeerIdCf::name(), "bsp_peer_stats");
    assert_eq!(PeerFileKeyCf::name(), "bsp_peer_file_keys");
    assert_eq!(LastUpdateTimeCf::name(), "bsp_peer_last_update");
    assert_eq!(
        current_column_families(),
        vec!["bsp_peer_stats", "bsp_peer_file_keys", "bsp_peer_last_update"]
    );
}

#[test]
fn fresh_peer_scores_zero() {
    let s = BspPeerStats::new();
    assert_eq!(s.get_score(), 0);
    assert_eq!(s.get_success_score(), 0);
    assert_eq!(s.get_speed_score(), 0);
}

#[test]
fn fast_reliable_peer_scores_one() {
    let mut s = BspPeerStats::new();
    s.add_success(MAX_SPEED, 1000, 7);
    assert_eq!(s.get_success_score(), 700_000_000_000);
    assert_eq!(s.get_speed_score(), 300_000_000_000);
    assert_eq!(s.get_score(), SCORE_UNIT);
    assert_eq!(s.last_success_time, Some(7));
}

#[test]
fn half_success_half_speed_scores_half() {
    let mut s = BspPeerStats::new();
    s.add_success(MAX_SPEED / 2, 1000, 1);
    s.add_failure();
    assert_eq!(s.get_success_score(), 350_000_000_000);
    assert_eq!(s.get_speed_score(), 150_000_000_000);
    assert_eq!(s.get_score(), 500_000_000_000);
}

#[test]
fn speed_above_maximum_is_capped() {
    let mut s = BspPeerStats::new();
    s.add_success(10 * MAX_SPEED, 1000, 1);
    assert_eq!(s.get_speed_score(), 300_000_000_000);
    assert!(s.get_score() <= SCORE_UNIT);
}

#[test]
fn file_keys_are_added_once() {
    let mut s = BspPeerStats::new();
    assert!(s.add_file_key([3u8; 32]));
    assert!(!s.add_file_key([3u8; 32]));
    assert!(s.has_file_key(&[3u8; 32]));
    assert!(!s.has_file_key(&[4u8; 32]));
}

#[test]
fn persisted_stats_round_trip() {
    let mut s = BspPeerStats::new();
    s.add_success(4096, 20, 100);
    s.add_failure();
    let p = PersistentBspPeerStats::from_stats(&s, 150);
    assert_eq!(p.last_success_time_millis, Some(50));
    assert_eq!(p.successful_downloads, 1);
    assert_eq!(p.failed_downloads, 1);
    let back = BspPeerStats::from_persistent(p, vec![[9u8; 32]], 1000);
    assert_eq!(back.successful_downloads, 1);
    assert_eq!(back.failed_downloads, 1);
    assert_eq!(back.total_bytes_downloaded, 4096);
    assert_eq!(back.total_download_time_ms, 20);
    assert_eq!(back.last_success_time, Some(1000));
    assert_eq!(back.get_score(), s.get_score());
}

#[test]
fn clock_going_back_persists_zero_elapsed() {
    let mut s = BspPeerStats::new();
    s.add_success(1, 1, 500);
    let p = PersistentBspPeerStats::from_stats(&s, 100);
    assert_eq!(p.last_success_time_millis, Some(0));
}

#[test]
fn add_peer_is_idempotent() {
    let mut m = BspPeerManager::new();
    let key = [1u8; 32];
    assert!(m.add_peer(b"peer-a", key));
    assert!(!m.add_peer(b"peer-a", key));
    assert!(m.add_peer(b"peer-a", [2u8; 32]));
    assert_eq!(m.select_peers(5, 0, &key), vec![b"peer-a".to_vec()]);
}

#[test]
fn outcomes_of_unknown_peers_are_ignored() {
    let mut m = BspPeerManager::new();
    assert!(!m.record_success(b"ghost", 10, 10, 1));
    assert!(!m.record_failure(b"ghost"));
    assert!(m.persistent_stats(b"ghost", 1).is_none());
}

#[test]
fn best_peers_come_first() {
    let mut m = BspPeerManager::new();
    let key = [7u8; 32];
    m.add_peer(b"slow", key);
    m.add_peer(b"fast", key);
    m.add_peer(b"broken", key);
    assert!(m.record_success(b"fast", MAX_SPEED, 1000, 1));
    assert!(m.record_success(b"slow", MAX_SPEED / 4, 1000, 1));
    assert!(m.record_failure(b"broken"));
    assert_eq!(m.select_peers(2, 0, &key), vec![b"fast".to_vec(), b"slow".to_vec()]);
    assert_eq!(
        m.select_peers(3, 0, &key),
        vec![b"fast".to_vec(), b"slow".to_vec(), b"broken".to_vec()]
    );
}

#[test]
fn random_peers_are_other_candidates() {
    let mut m = BspPeerManager::new();
    let key = [8u8; 32];
    for id in [b"p1", b"p2", b"p3", b"p4"] {
        m.add_peer(id, key);
    }
    m.record_success(b"p3", MAX_SPEED, 1000, 1);
    let sel = m.select_peers(1, 2, &key);
    assert_eq!(sel.len(), 3);
    assert_eq!(sel[0], b"p3".to_vec());
    let mut rest = sel[1..].to_vec();
    rest.sort();
    rest.dedup();
    assert_eq!(rest.len(), 2);
    for p in &rest {
        assert!(p != &b"p3".to_vec());
        assert!([b"p1".to_vec(), b"p2".to_vec(), b"p4".to_vec()].contains(p));
    }
}

#[test]
fn selection_for_unknown_file_is_empty() {
    let mut m = BspPeerManager::new();
    m.add_peer(b"p1", [1u8; 32]);
    assert!(m.select_peers(3, 3, &[2u8; 32]).is_empty());
}

#[test]
fn persistent_stats_of_known_peer() {
    let mut m = BspPeerManager::new();
    m.add_peer(b"p1", [1u8; 32]);
    m.record_success(b"p1", 100, 10, 40);
    let p = m.persistent_stats(b"p1", 100).unwrap();
    assert_eq!(p.successful_downloads, 1);
    assert_eq!(p.total_bytes_downloaded, 100);
    assert_eq!(p.total_download_time_ms, 10);
    assert_eq!(p.last_success_time_millis, Some(60));
}

fn persisted(successes: u64, failures: u64) -> PersistentBspPeerStats {
    PersistentBspPeerStats {
        successful_downloads: successes,
        failed_downloads: failures,
        total_bytes_downloaded: successes * MAX_SPEED,
        total_download_time_ms: successes * 1000,
        last_success_time_millis: if successes > 0 { Some(5) } else { None },
    }
}

#[test]
fn load_from_records_restores_peers_and_files() {
    let key_a = [1u8; 32];
    let key_b = [2u8; 32];
    let stats = vec![
        (b"good".to_vec(), persisted(4, 0)),
        (b"bad".to_vec(), persisted(0, 3)),
        (b"good".to_vec(), persisted(1, 1)),
    ];
    let keys = vec![
        (b"good".to_vec(), key_a),
        (b"bad".to_vec(), key_a),
        (b"bad".to_vec(), key_b),
        (b"stranger".to_vec(), key_b),
    ];
    let m = BspPeerManager::load_from_records(&stats, &keys, 77);
    assert_eq!(m.select_peers(2, 0, &key_a), vec![b"good".to_vec(), b"bad".to_vec()]);
    assert_eq!(m.select_peers(2, 0, &key_b), vec![b"bad".to_vec()]);
    let p = m.persistent_stats(b"good", 80).unwrap();
    assert_eq!(p.successful_downloads, 1);
    assert_eq!(p.failed_downloads, 1);
    assert_eq!(p.last_success_time_millis, Some(3));
    assert!(m.persistent_stats(b"stranger", 80).is_none());
}

#[test]
fn download_outcomes_keep_candidates() {
    let mut m = BspPeerManager::new();
    let key = [4u8; 32];
    m.add_peer(b"x", key);
    m.add_peer(b"y", key);
    m.record_failure(b"x");
    m.record_success(b"y", 10, 10, 1);
    let mut sel = m.select_peers(10, 0, &key);
    sel.sort();
    assert_eq!(sel, vec![b"x".to_vec(), b"y".to_vec()]);
}

#[test]
fn persisting_and_reloading_keeps_every_peer() {
    let mut m = BspPeerManager::new();
    let (k1, k2) = ([1u8; 32], [2u8; 32]);
    m.add_peer(b"a", k1);
    m.add_peer(b"a", k2);
    m.add_peer(b"b", k2);
    m.record_success(b"a", MAX_SPEED, 1000, 10);
    m.record_failure(b"b");
    let stats = vec![
        (b"a".to_vec(), m.persistent_stats(b"a", 20).unwrap()),
        (b"b".to_vec(), m.persistent_stats(b"b", 20).unwrap()),
    ];
    let keys = vec![(b"a".to_vec(), k1), (b"a".to_vec(), k2), (b"b".to_vec(), k2)];
    let back = BspPeerManager::load_from_records(&stats, &keys, 500);
    assert_eq!(back.select_peers(5, 0, &k1), m.select_peers(5, 0, &k1));
    assert_eq!(back.select_peers(5, 0, &k2), m.select_peers(5, 0, &k2));
    let a = back.persistent_stats(b"a", 500).unwrap();
    assert_eq!((a.successful_downloads, a.failed_downloads, a.total_bytes_downloaded), (1, 0, MAX_SPEED));
    assert_eq!(a.last_success_time_millis, Some(0));
    let b = back.persistent_stats(b"b", 500).unwrap();
    assert_eq!((b.successful_downloads, b.failed_downloads, b.last_success_time_millis), (0, 1, None));
}

#[test]
fn writes_reported_by_operations_rebuild_the_same_peers() {
    let mut m = BspPeerManager::new();
    let mut stats_db: BTreeMap<Vec<u8>, _> = BTreeMap::new();
    let mut keys_db: Vec<(Vec<u8>, [u8; 32])> = Vec::new();
    let ops: Vec<(u8, &[u8], [u8; 32])> = vec![
        (0, b"a", [1u8; 32]),
        (0, b"a", [1u8; 32]),
        (0, b"a", [2u8; 32]),
        (0, b"b", [2u8; 32]),
        (1, b"a", [0u8; 32]),
        (2, b"b", [0u8; 32]),
        (2, b"stranger", [0u8; 32]),
        (1, b"b", [0u8; 32]),
    ];
    for (kind, peer, key) in ops {
        let write = match kind {
            0 => {
                let new = m.add_peer(peer, key);
                if new {
                    keys_db.push((peer.to_vec(), key));
                }
                new
            }
            1 => m.record_success(peer, 2048, 100, 40),
            _ => m.record_failure(peer),
        };
        if write {
            stats_db.insert(peer.to_vec(), m.persistent_stats(peer, 50).unwrap());
        }
    }
    assert_eq!(keys_db.len(), 3);
    let stats: Vec<_> = stats_db.into_iter().collect();
    let back = BspPeerManager::load_from_records(&stats, &keys_db, 60);
    for key in [[1u8; 32], [2u8; 32]] {
        let mut a = back.select_peers(5, 0, &key);
        let mut b = m.select_peers(5, 0, &key);
        a.sort();
        b.sort();
        assert_eq!(a, b);
    }
    for peer in [b"a".as_slice(), b"b".as_slice()] {
        let x = back.persistent_stats(peer, 60).unwrap();
        let y = m.persistent_stats(peer, 60).unwrap();
        assert_eq!(x.successful_downloads, y.successful_downloads);
        assert_eq!(x.failed_downloads, y.failed_downloads);
        assert_eq!(x.total_bytes_downloaded, y.total_bytes_downloaded);
        assert_eq!(x.total_download_time_ms, y.total_download_time_ms);
        assert_eq!(x.last_success_time_millis.is_some(), y.last_success_time_millis.is_some());
    }
    assert!(back.persistent_stats(b"stranger", 60).is_none());
}
