//! In-memory state of the peer manager: per-peer statistics and, per file,
//! the peers that can provide it, queued by score.

use vstd::prelude::*;
use crate::bytes::{bytes_eq, h256_eq, H256};
use crate::peer_stats::{key_views, BspPeerStats, PersistentBspPeerStats};
use crate::pqueue::{
    pq_change_priority, pq_clone, pq_contents, pq_into_items, pq_new, pq_pop, pq_push, PeerQueue,
};
use crate::shuffle::shuffle_vec;

verus! {

/// What the manager knows of one peer.
pub struct PeerView {
    pub successful_downloads: u64,
    pub failed_downloads: u64,
    pub total_bytes_downloaded: u64,
    pub total_download_time_ms: u64,
    pub last_success_time: Option<u64>,
    pub file_keys: Set<Seq<u8>>,
}

/// The views of a sequence of byte vectors.
pub open spec fn vec_views(v: Seq<Vec<u8>>) -> Seq<Seq<u8>> {
    v.map_values(|x: Vec<u8>| x@)
}

/// The view of one peer's statistics.
pub open spec fn stats_view(s: BspPeerStats) -> PeerView {
    PeerView {
        successful_downloads: s.successful_downloads,
        failed_downloads: s.failed_downloads,
        total_bytes_downloaded: s.total_bytes_downloaded,
        total_download_time_ms: s.total_download_time_ms,
        last_success_time: s.last_success_time,
        file_keys: s.key_set(),
    }
}

/// The score of a peer, from its view.
pub open spec fn view_score(p: PeerView) -> int {
    crate::peer_stats::spec_score(
        p.successful_downloads as int,
        p.failed_downloads as int,
        p.total_bytes_downloaded as int,
        p.total_download_time_ms as int,
    )
}

/// The peers after `peer_id` was registered as a provider of `file_key`.
pub open spec fn peer_added(v: Map<Seq<u8>, PeerView>, peer_id: Seq<u8>, file_key: Seq<u8>) -> Map<Seq<u8>, PeerView> {
    v.insert(
        peer_id,
        if v.contains_key(peer_id) {
            PeerView { file_keys: v[peer_id].file_keys.insert(file_key), ..v[peer_id] }
        } else {
            PeerView { file_keys: Set::empty().insert(file_key), ..BspPeerManager::fresh_view() }
        },
    )
}

/// The peers after a successful download from `peer_id`.
pub open spec fn success_recorded(v: Map<Seq<u8>, PeerView>, peer_id: Seq<u8>, bytes: u64, time_ms: u64, now_ms: u64) -> Map<Seq<u8>, PeerView> {
    if v.contains_key(peer_id) {
        v.insert(peer_id, PeerView {
            successful_downloads: (v[peer_id].successful_downloads + 1) as u64,
            total_bytes_downloaded: (v[peer_id].total_bytes_downloaded + bytes) as u64,
            total_download_time_ms: (v[peer_id].total_download_time_ms + time_ms) as u64,
            last_success_time: Some(now_ms),
            ..v[peer_id]
        })
    } else {
        v
    }
}

/// The peers after a failed download from `peer_id`.
pub open spec fn failure_recorded(v: Map<Seq<u8>, PeerView>, peer_id: Seq<u8>) -> Map<Seq<u8>, PeerView> {
    if v.contains_key(peer_id) {
        v.insert(peer_id, PeerView { failed_downloads: (v[peer_id].failed_downloads + 1) as u64, ..v[peer_id] })
    } else {
        v
    }
}

/// The persisted form of a peer's statistics at `now_ms`.
pub open spec fn persisted_of(p: PeerView, now_ms: u64) -> PersistentBspPeerStats {
    PersistentBspPeerStats {
        successful_downloads: p.successful_downloads,
        failed_downloads: p.failed_downloads,
        total_bytes_downloaded: p.total_bytes_downloaded,
        total_download_time_ms: p.total_download_time_ms,
        last_success_time_millis: match p.last_success_time {
            Some(t) => Some(if t <= now_ms { (now_ms - t) as u64 } else { 0u64 }),
            None => None,
        },
    }
}

/// A persisted statistics record holds the counters of `v` and whether it
/// ever succeeded (at whatever time it was saved).
pub open spec fn stats_agree(p: PersistentBspPeerStats, v: PeerView) -> bool {
    &&& p.successful_downloads == v.successful_downloads
    &&& p.failed_downloads == v.failed_downloads
    &&& p.total_bytes_downloaded == v.total_bytes_downloaded
    &&& p.total_download_time_ms == v.total_download_time_ms
    &&& p.last_success_time_millis.is_some() == v.last_success_time.is_some()
}

/// The view of a peer rebuilt from its persisted statistics at `now_ms`,
/// before its file keys are known.
pub open spec fn persisted_view(p: PersistentBspPeerStats, now_ms: u64) -> PeerView {
    PeerView {
        successful_downloads: p.successful_downloads,
        failed_downloads: p.failed_downloads,
        total_bytes_downloaded: p.total_bytes_downloaded,
        total_download_time_ms: p.total_download_time_ms,
        last_success_time: match p.last_success_time_millis {
            Some(_) => Some(now_ms),
            None => None,
        },
        file_keys: Set::empty(),
    }
}

/// The peers of the persisted statistics records, a later record of a peer
/// replacing an earlier one.
pub open spec fn stats_records_view(recs: Seq<(Vec<u8>, PersistentBspPeerStats)>, now_ms: u64) -> Map<Seq<u8>, PeerView>
    decreases recs.len(),
{
    if recs.len() == 0 {
        Map::empty()
    } else {
        stats_records_view(recs.drop_last(), now_ms).insert(recs.last().0@, persisted_view(recs.last().1, now_ms))
    }
}

/// `m` with the persisted file key records applied in order: each adds its
/// key to its peer, when the peer is known.
pub open spec fn with_key_records(m: Map<Seq<u8>, PeerView>, recs: Seq<(Vec<u8>, H256)>) -> Map<Seq<u8>, PeerView>
    decreases recs.len(),
{
    if recs.len() == 0 {
        m
    } else {
        let before = with_key_records(m, recs.drop_last());
        let id = recs.last().0@;
        if before.contains_key(id) {
            before.insert(id, PeerView { file_keys: before[id].file_keys.insert(recs.last().1@), ..before[id] })
        } else {
            before
        }
    }
}

/// One known peer.
struct PeerEntry {
    peer_id: Vec<u8>,
    stats: BspPeerStats,
}

/// Tracks the performance of the peers that can provide files, and selects
/// the best of them for a download.
pub struct BspPeerManager {
    peers: Vec<PeerEntry>,
    queue_keys: Vec<H256>,
    queues: Vec<PeerQueue>,
}

impl BspPeerManager {
    /// The ids of the known peers, by index.
    pub closed spec fn ids(&self) -> Seq<Seq<u8>> {
        self.peers@.map_values(|e: PeerEntry| e.peer_id@)
    }

    /// The number of known peers.
    pub closed spec fn num_peers(&self) -> nat {
        self.peers@.len()
    }

    /// The statistics of the peer at index `i`.
    pub closed spec fn peer_at(&self, i: int) -> PeerView {
        stats_view(self.peers@[i].stats)
    }

    /// What the manager knows: each known peer id with its statistics.
    pub closed spec fn view(&self) -> Map<Seq<u8>, PeerView> {
        Map::new(
            |id: Seq<u8>| self.ids().contains(id),
            |id: Seq<u8>| self.peer_at(self.ids().index_of(id)),
        )
    }

    /// The well-formedness of the manager: peer ids and file keys are unique,
    /// and the queue of each file holds exactly the peers that can provide
    /// it, each with its current score.
    pub closed spec fn wf(&self) -> bool {
        &&& self.ids().no_duplicates()
        &&& forall|i: int| 0 <= i < self.peers@.len() ==> (#[trigger] self.peers@[i]).stats.wf()
        &&& self.queue_keys@.len() == self.queues@.len()
        &&& key_views(self.queue_keys@).no_duplicates()
        &&& forall|q: int, i: u64| 0 <= q < self.queues@.len() ==>
            (#[trigger] pq_contents(self.queues@[q]).contains_key(i) <==> (i < self.peers@.len()
                && self.peers@[i as int].stats.key_set().contains(self.queue_keys@[q]@)))
        &&& forall|q: int, i: u64| 0 <= q < self.queues@.len() && #[trigger] pq_contents(self.queues@[q]).contains_key(i)
            ==> pq_contents(self.queues@[q])[i] == self.peers@[i as int].stats.score()
        &&& forall|i: int, k: Seq<u8>| 0 <= i < self.peers@.len() && #[trigger] self.peers@[i].stats.key_set().contains(k)
            ==> key_views(self.queue_keys@).contains(k)
        &&& forall|q: int| 0 <= q < self.queues@.len() ==> pq_contents(#[trigger] self.queues@[q]).dom().finite()
    }

    /// The peers that can provide `file_key`.
    pub open spec fn candidates(&self, file_key: Seq<u8>) -> Set<Seq<u8>> {
        self.view().dom().filter(|id: Seq<u8>| self.view()[id].file_keys.contains(file_key))
    }

    proof fn lemma_index_of(&self, i: int)
        requires
            self.ids().no_duplicates(),
            0 <= i < self.peers@.len(),
        ensures
            self.ids().index_of(self.ids()[i]) == i,
            self.view().contains_key(self.ids()[i]),
            self.view()[self.ids()[i]] == self.peer_at(i),
    {
        let id = self.ids()[i];
        assert(self.ids().contains(id));
        let j = self.ids().index_of(id);
        assert(0 <= j < self.ids().len() && self.ids()[j] == id);
    }

    proof fn lemma_view_update(old_m: &BspPeerManager, new_m: &BspPeerManager, idx: int)
        requires
            old_m.ids().no_duplicates(),
            0 <= idx < old_m.peers@.len(),
            new_m.peers@.len() == old_m.peers@.len(),
            new_m.ids() == old_m.ids(),
            forall|j: int| 0 <= j < old_m.peers@.len() && j != idx ==> new_m.peers@[j] == old_m.peers@[j],
        ensures
            new_m.view() == old_m.view().insert(old_m.ids()[idx], new_m.peer_at(idx)),
    {
        assert forall|id: Seq<u8>| #[trigger] new_m.view().contains_key(id) <==> old_m.view().insert(old_m.ids()[idx], new_m.peer_at(idx)).contains_key(id) by {
            if id == old_m.ids()[idx] {
                assert(new_m.ids()[idx] == id);
            }
        }
        assert forall|id: Seq<u8>| new_m.view().contains_key(id) implies #[trigger] new_m.view()[id] == old_m.view().insert(old_m.ids()[idx], new_m.peer_at(idx))[id] by {
            let j = new_m.ids().index_of(id);
            assert(new_m.ids().contains(id));
            assert(0 <= j < new_m.ids().len() && new_m.ids()[j] == id);
            old_m.lemma_index_of(j);
            if j != idx {
                assert(new_m.peer_at(j) == old_m.peer_at(j));
            }
        }
        assert(new_m.view() =~= old_m.view().insert(old_m.ids()[idx], new_m.peer_at(idx)));
    }

    proof fn lemma_view_push(old_m: &BspPeerManager, new_m: &BspPeerManager)
        requires
            old_m.ids().no_duplicates(),
            new_m.peers@.len() == old_m.peers@.len() + 1,
            new_m.ids() == old_m.ids().push(new_m.ids()[old_m.peers@.len() as int]),
            forall|j: int| 0 <= j < old_m.peers@.len() ==> new_m.peers@[j] == old_m.peers@[j],
            !old_m.ids().contains(new_m.ids()[old_m.peers@.len() as int]),
        ensures
            new_m.ids().no_duplicates(),
            new_m.view() == old_m.view().insert(new_m.ids()[old_m.peers@.len() as int], new_m.peer_at(old_m.peers@.len() as int)),
    {
        let n = old_m.peers@.len() as int;
        let id_new = new_m.ids()[n];
        assert forall|a: int, b: int| 0 <= a < b < new_m.ids().len() implies new_m.ids()[a] != new_m.ids()[b] by {
            if b == n {
                assert(old_m.ids()[a] == new_m.ids()[a]);
                assert(old_m.ids().contains(old_m.ids()[a]));
            } else {
                assert(old_m.ids()[a] == new_m.ids()[a] && old_m.ids()[b] == new_m.ids()[b]);
            }
        }
        assert forall|id: Seq<u8>| #[trigger] new_m.view().contains_key(id) <==> old_m.view().insert(id_new, new_m.peer_at(n)).contains_key(id) by {
            if new_m.ids().contains(id) {
                let j = choose|j: int| 0 <= j < new_m.ids().len() && new_m.ids()[j] == id;
                if j < n {
                    assert(old_m.ids()[j] == id);
                }
            }
            if old_m.ids().contains(id) {
                let j = choose|j: int| 0 <= j < old_m.ids().len() && old_m.ids()[j] == id;
                assert(new_m.ids()[j] == id);
            }
            if id == id_new {
                assert(new_m.ids()[n] == id);
            }
        }
        assert forall|id: Seq<u8>| new_m.view().contains_key(id) implies #[trigger] new_m.view()[id] == old_m.view().insert(id_new, new_m.peer_at(n))[id] by {
            let j = new_m.ids().index_of(id);
            assert(new_m.ids().contains(id));
            assert(0 <= j < new_m.ids().len() && new_m.ids()[j] == id);
            new_m.lemma_index_of(j);
            if j < n {
                old_m.lemma_index_of(j);
                assert(old_m.ids()[j] == id);
                assert(new_m.peer_at(j) == old_m.peer_at(j));
            }
        }
        assert(new_m.view() =~= old_m.view().insert(id_new, new_m.peer_at(n)));
    }

    /// A manager that knows no peer.
    pub fn new() -> (r: BspPeerManager)
        ensures
            r.wf(),
            r.view().dom() == Set::<Seq<u8>>::empty(),
            r.num_peers() == 0,
    {
        let r = BspPeerManager { peers: Vec::new(), queue_keys: Vec::new(), queues: Vec::new() };
        assert(r.ids() =~= Seq::<Seq<u8>>::empty());
        assert(r.view().dom() =~= Set::<Seq<u8>>::empty());
        r
    }

    /// The statistics of a peer that was just registered for `file_key`.
    pub open spec fn fresh_view() -> PeerView {
        PeerView {
            successful_downloads: 0,
            failed_downloads: 0,
            total_bytes_downloaded: 0,
            total_download_time_ms: 0,
            last_success_time: None,
            file_keys: Set::empty(),
        }
    }

    fn push_new_peer(&mut self, peer_id: &[u8]) -> (idx: usize)
        requires
            old(self).wf(),
            !old(self).ids().contains(peer_id@),
            old(self).peers@.len() < u64::MAX,
        ensures
            final(self).wf(),
            idx == old(self).peers@.len(),
            final(self).peers@.len() == idx + 1,
            final(self).ids()[idx as int] == peer_id@,
            final(self).peer_at(idx as int) == Self::fresh_view(),
            final(self).view() == old(self).view().insert(peer_id@, Self::fresh_view()),
    {
        let idx = self.peers.len();
        let stats = BspPeerStats::new();
        self.peers.push(PeerEntry { peer_id: vstd::slice::slice_to_vec(peer_id), stats });
        proof {
            assert(self.ids() =~= old(self).ids().push(peer_id@));
            assert(self.peers@[idx as int].stats.key_set() =~= Set::<Seq<u8>>::empty());
            assert(self.peer_at(idx as int) == Self::fresh_view());
            Self::lemma_view_push(old(self), self);
            assert forall|q: int, i: u64| 0 <= q < self.queues@.len() implies
                (#[trigger] pq_contents(self.queues@[q]).contains_key(i) <==> (i < self.peers@.len()
                    && self.peers@[i as int].stats.key_set().contains(self.queue_keys@[q]@))) by {
                if i < old(self).peers@.len() {
                    assert(self.peers@[i as int] == old(self).peers@[i as int]);
                }
            }
            assert forall|i: int, k: Seq<u8>| 0 <= i < self.peers@.len() && #[trigger] self.peers@[i].stats.key_set().contains(k)
                implies key_views(self.queue_keys@).contains(k) by {
                assert(i < old(self).peers@.len());
                assert(old(self).peers@[i].stats.key_set().contains(k));
            }
        }
        idx
    }

    /// Adds `file_key` to the keys of the peer at `idx`, queueing the peer for
    /// that file when the key is new to it.
    fn add_key_to_peer(&mut self, idx: usize, file_key: H256) -> (r: bool)
        requires
            old(self).wf(),
            idx < old(self).peers@.len(),
        ensures
            final(self).wf(),
            final(self).ids() == old(self).ids(),
            r == !old(self).peer_at(idx as int).file_keys.contains(file_key@),
            final(self).view() == old(self).view().insert(
                old(self).ids()[idx as int],
                PeerView {
                    file_keys: old(self).peer_at(idx as int).file_keys.insert(file_key@),
                    ..old(self).peer_at(idx as int)
                },
            ),
    {
        let is_new = self.peers[idx].stats.add_file_key(file_key);
        assert(self.ids() =~= old(self).ids());
        if !is_new {
            proof {
                assert(self.peers@ =~= old(self).peers@);
                old(self).lemma_index_of(idx as int);
                assert(old(self).view().insert(old(self).ids()[idx as int], old(self).peer_at(idx as int)) =~= old(self).view());
                assert(old(self).peer_at(idx as int).file_keys.insert(file_key@) =~= old(self).peer_at(idx as int).file_keys);
            }
            return false;
        }
        let score = self.peers[idx].stats.get_score();
        let ghost mid = *self;
        match self.find_queue(&file_key) {
            Some(q) => {
                let _ = pq_push(&mut self.queues[q], idx as u64, score);
                proof {
                    assert(self.queue_keys@ == mid.queue_keys@);
                    assert forall|q2: int, i: u64| 0 <= q2 < self.queues@.len() implies
                        (#[trigger] pq_contents(self.queues@[q2]).contains_key(i) <==> (i < self.peers@.len()
                            && self.peers@[i as int].stats.key_set().contains(self.queue_keys@[q2]@))) by {
                        if q2 != q {
                            assert(self.queues@[q2] == old(self).queues@[q2]);
                            if i == idx as u64 {
                                assert(self.queue_keys@[q2]@ != file_key@) by {
                                    assert(key_views(self.queue_keys@)[q2] == self.queue_keys@[q2]@);
                                    assert(key_views(self.queue_keys@)[q as int] == self.queue_keys@[q as int]@);
                                }
                            } else if i < self.peers@.len() {
                                assert(self.peers@[i as int] == old(self).peers@[i as int]);
                            }
                        } else {
                            if i != idx as u64 && i < self.peers@.len() {
                                assert(self.peers@[i as int] == old(self).peers@[i as int]);
                            }
                        }
                    }
                    assert forall|q2: int, i: u64| 0 <= q2 < self.queues@.len() && #[trigger] pq_contents(self.queues@[q2]).contains_key(i)
                        implies pq_contents(self.queues@[q2])[i] == self.peers@[i as int].stats.score() by {
                        if q2 != q {
                            assert(self.queues@[q2] == old(self).queues@[q2]);
                        }
                        if i != idx as u64 {
                            assert(self.peers@[i as int] == old(self).peers@[i as int]);
                        }
                    }
                    assert forall|i: int, k: Seq<u8>| 0 <= i < self.peers@.len() && #[trigger] self.peers@[i].stats.key_set().contains(k)
                        implies key_views(self.queue_keys@).contains(k) by {
                        if i != idx {
                            assert(self.peers@[i] == old(self).peers@[i]);
                        } else if k == file_key@ {
                            assert(key_views(self.queue_keys@)[q as int] == k);
                        } else {
                            assert(old(self).peers@[i].stats.key_set().contains(k));
                        }
                    }
                    assert forall|q2: int| 0 <= q2 < self.queues@.len() implies pq_contents(#[trigger] self.queues@[q2]).dom().finite() by {
                        if q2 != q {
                            assert(self.queues@[q2] == old(self).queues@[q2]);
                        }
                    }
                    Self::lemma_view_update(old(self), self, idx as int);
                }
            },
            None => {
                let mut queue = pq_new();
                let _ = pq_push(&mut queue, idx as u64, score);
                self.queue_keys.push(file_key);
                self.queues.push(queue);
                proof {
                    let nq = old(self).queues@.len() as int;
                    assert(key_views(self.queue_keys@) =~= key_views(old(self).queue_keys@).push(file_key@));
                    assert(pq_contents(queue).dom() =~= Set::<u64>::empty().insert(idx as u64));
                    assert forall|q2: int, i: u64| 0 <= q2 < self.queues@.len() implies
                        (#[trigger] pq_contents(self.queues@[q2]).contains_key(i) <==> (i < self.peers@.len()
                            && self.peers@[i as int].stats.key_set().contains(self.queue_keys@[q2]@))) by {
                        if q2 < nq {
                            assert(self.queues@[q2] == old(self).queues@[q2]);
                            assert(self.queue_keys@[q2] == old(self).queue_keys@[q2]);
                            if i == idx as u64 {
                                assert(self.queue_keys@[q2]@ != file_key@) by {
                                    assert(key_views(old(self).queue_keys@)[q2] == self.queue_keys@[q2]@);
                                }
                            } else if i < self.peers@.len() {
                                assert(self.peers@[i as int] == old(self).peers@[i as int]);
                            }
                        } else {
                            if i != idx as u64 && i < self.peers@.len() {
                                assert(self.peers@[i as int] == old(self).peers@[i as int]);
                                if old(self).peers@[i as int].stats.key_set().contains(file_key@) {
                                    assert(key_views(old(self).queue_keys@).contains(file_key@));
                                }
                            }
                        }
                    }
                    assert forall|q2: int, i: u64| 0 <= q2 < self.queues@.len() && #[trigger] pq_contents(self.queues@[q2]).contains_key(i)
                        implies pq_contents(self.queues@[q2])[i] == self.peers@[i as int].stats.score() by {
                        if q2 < nq {
                            assert(self.queues@[q2] == old(self).queues@[q2]);
                        }
                        if i != idx as u64 {
                            assert(self.peers@[i as int] == old(self).peers@[i as int]);
                        }
                    }
                    assert forall|i: int, k: Seq<u8>| 0 <= i < self.peers@.len() && #[trigger] self.peers@[i].stats.key_set().contains(k)
                        implies key_views(self.queue_keys@).contains(k) by {
                        if i != idx {
                            assert(self.peers@[i] == old(self).peers@[i]);
                            assert(key_views(old(self).queue_keys@).contains(k));
                            let j = choose|j: int| 0 <= j < key_views(old(self).queue_keys@).len() && key_views(old(self).queue_keys@)[j] == k;
                            assert(key_views(self.queue_keys@)[j] == k);
                        } else if k == file_key@ {
                            assert(key_views(self.queue_keys@)[nq] == k);
                        } else {
                            assert(old(self).peers@[i].stats.key_set().contains(k));
                            assert(key_views(old(self).queue_keys@).contains(k));
                            let j = choose|j: int| 0 <= j < key_views(old(self).queue_keys@).len() && key_views(old(self).queue_keys@)[j] == k;
                            assert(key_views(self.queue_keys@)[j] == k);
                        }
                    }
                    assert forall|q2: int| 0 <= q2 < self.queues@.len() implies pq_contents(#[trigger] self.queues@[q2]).dom().finite() by {
                        if q2 < nq {
                            assert(self.queues@[q2] == old(self).queues@[q2]);
                        }
                    }
                    Self::lemma_view_update(old(self), self, idx as int);
                }
            },
        }
        true
    }

    /// Registers `peer_id` as a provider of `file_key`. Returns `true` when
    /// the association is new (and then has to be persisted).
    pub fn add_peer(&mut self, peer_id: &[u8], file_key: H256) -> (r: bool)
        requires
            old(self).wf(),
            old(self).num_peers() < u64::MAX,
        ensures
            final(self).wf(),
            r == !(old(self).view().contains_key(peer_id@)
                && old(self).view()[peer_id@].file_keys.contains(file_key@)),
            final(self).view() == old(self).view().insert(
                peer_id@,
                if old(self).view().contains_key(peer_id@) {
                    PeerView {
                        file_keys: old(self).view()[peer_id@].file_keys.insert(file_key@),
                        ..old(self).view()[peer_id@]
                    }
                } else {
                    PeerView { file_keys: Set::empty().insert(file_key@), ..Self::fresh_view() }
                },
            ),
            final(self).view() == peer_added(old(self).view(), peer_id@, file_key@),
            final(self).num_peers() == old(self).num_peers() + if old(self).view().contains_key(peer_id@) { 0nat } else { 1nat },
    {
        match self.find_peer(peer_id) {
            Some(idx) => {
                proof { old(self).lemma_index_of(idx as int); }
                let r = self.add_key_to_peer(idx, file_key);
                r
            },
            None => {
                let idx = self.push_new_peer(peer_id);
                let ghost mid = *self;
                let r = self.add_key_to_peer(idx, file_key);
                proof {
                    mid.lemma_index_of(idx as int);
                    assert(mid.view().insert(peer_id@, PeerView { file_keys: Set::empty().insert(file_key@), ..Self::fresh_view() })
                        =~= old(self).view().insert(peer_id@, PeerView { file_keys: Set::empty().insert(file_key@), ..Self::fresh_view() }));
                }
                r
            },
        }
    }

    /// Well-formedness, except that the queued scores of the peer at `idx`
    /// may be stale.
    closed spec fn wf_but_scores(&self, idx: int) -> bool {
        &&& self.ids().no_duplicates()
        &&& forall|i: int| 0 <= i < self.peers@.len() ==> (#[trigger] self.peers@[i]).stats.wf()
        &&& self.queue_keys@.len() == self.queues@.len()
        &&& key_views(self.queue_keys@).no_duplicates()
        &&& forall|q: int, i: u64| 0 <= q < self.queues@.len() ==>
            (#[trigger] pq_contents(self.queues@[q]).contains_key(i) <==> (i < self.peers@.len()
                && self.peers@[i as int].stats.key_set().contains(self.queue_keys@[q]@)))
        &&& forall|q: int, i: u64| 0 <= q < self.queues@.len() && #[trigger] pq_contents(self.queues@[q]).contains_key(i)
            && i != idx ==> pq_contents(self.queues@[q])[i] == self.peers@[i as int].stats.score()
        &&& forall|i: int, k: Seq<u8>| 0 <= i < self.peers@.len() && #[trigger] self.peers@[i].stats.key_set().contains(k)
            ==> key_views(self.queue_keys@).contains(k)
        &&& forall|q: int| 0 <= q < self.queues@.len() ==> pq_contents(#[trigger] self.queues@[q]).dom().finite()
    }

    /// Sets the queued score of the peer at `idx` to its current score, in the
    /// queue of every file that it can provide.
    fn refresh_score(&mut self, idx: usize)
        requires
            old(self).wf_but_scores(idx as int),
            idx < old(self).peers@.len(),
        ensures
            final(self).wf(),
            final(self).peers@ == old(self).peers@,
    {
        let score = self.peers[idx].stats.get_score();
        let n = self.peers[idx].stats.file_keys.len();
        let mut j: usize = 0;
        while j < n
            invariant
                self.wf_but_scores(idx as int),
                idx < self.peers@.len(),
                self.peers@ == old(self).peers@,
                n == self.peers@[idx as int].stats.file_keys@.len(),
                score == self.peers@[idx as int].stats.score(),
                j <= n,
                forall|q: int| 0 <= q < self.queues@.len() && #[trigger] pq_contents(self.queues@[q]).contains_key(idx as u64)
                    && key_views(self.peers@[idx as int].stats.file_keys@).take(j as int).contains(self.queue_keys@[q]@)
                    ==> pq_contents(self.queues@[q])[idx as u64] == score,
            decreases n - j,
        {
            let key = self.peers[idx].stats.file_keys[j];
            let ghost kv = key_views(self.peers@[idx as int].stats.file_keys@);
            proof {
                assert(kv[j as int] == key@);
                assert(kv.contains(key@));
                assert(self.peers@[idx as int].stats.key_set().contains(key@));
            }
            let ghost prev = *self;
            match self.find_queue(&key) {
                Some(q) => {
                    let _ = pq_change_priority(&mut self.queues[q], idx as u64, score);
                    proof {
                        assert(self.queue_keys@ == prev.queue_keys@);
                        assert(kv.take(j + 1) =~= kv.take(j as int).push(key@));
                        assert forall|q2: int, i: u64| 0 <= q2 < self.queues@.len() implies
                            (#[trigger] pq_contents(self.queues@[q2]).contains_key(i) <==> (i < self.peers@.len()
                                && self.peers@[i as int].stats.key_set().contains(self.queue_keys@[q2]@))) by {
                            if q2 != q { assert(self.queues@[q2] == prev.queues@[q2]); }
                        }
                        assert forall|q2: int, i: u64| 0 <= q2 < self.queues@.len() && #[trigger] pq_contents(self.queues@[q2]).contains_key(i)
                            && i != idx implies pq_contents(self.queues@[q2])[i] == self.peers@[i as int].stats.score() by {
                            if q2 != q { assert(self.queues@[q2] == prev.queues@[q2]); }
                        }
                        assert forall|q2: int| 0 <= q2 < self.queues@.len() && #[trigger] pq_contents(self.queues@[q2]).contains_key(idx as u64)
                            && kv.take(j + 1).contains(self.queue_keys@[q2]@)
                            implies pq_contents(self.queues@[q2])[idx as u64] == score by {
                            if q2 != q {
                                assert(self.queues@[q2] == prev.queues@[q2]);
                                if !kv.take(j as int).contains(self.queue_keys@[q2]@) {
                                    let t = kv.take(j + 1);
                                    let w = choose|w: int| 0 <= w < t.len() && #[trigger] t[w] == self.queue_keys@[q2]@;
                                    if w < j {
                                        assert(kv.take(j as int)[w] == self.queue_keys@[q2]@);
                                    } else {
                                        assert(self.queue_keys@[q2]@ == key@);
                                        assert(key_views(self.queue_keys@)[q2] == key_views(self.queue_keys@)[q as int]);
                                    }
                                }
                            }
                        }
                        assert forall|q2: int| 0 <= q2 < self.queues@.len() implies pq_contents(#[trigger] self.queues@[q2]).dom().finite() by {
                            if q2 != q { assert(self.queues@[q2] == prev.queues@[q2]); }
                        }
                    }
                },
                None => {
                    proof { assert(false); }
                },
            }
            j = j + 1;
        }
        proof {
            let kv = key_views(self.peers@[idx as int].stats.file_keys@);
            assert(kv.take(n as int) =~= kv);
            assert forall|q: int, i: u64| 0 <= q < self.queues@.len() && #[trigger] pq_contents(self.queues@[q]).contains_key(i)
                implies pq_contents(self.queues@[q])[i] == self.peers@[i as int].stats.score() by {
                if i == idx as u64 {
                    assert(self.peers@[idx as int].stats.key_set().contains(self.queue_keys@[q]@));
                }
            }
        }
    }

    /// Records a successful download of `bytes_downloaded` bytes in
    /// `download_time_ms` from `peer_id`, at time `now_ms`. Returns `true`
    /// when the peer is known (and its statistics have to be persisted).
    pub fn record_success(&mut self, peer_id: &[u8], bytes_downloaded: u64, download_time_ms: u64, now_ms: u64) -> (r: bool)
        requires
            old(self).wf(),
            old(self).view().contains_key(peer_id@) ==> {
                &&& old(self).view()[peer_id@].successful_downloads < u64::MAX
                &&& old(self).view()[peer_id@].total_bytes_downloaded + bytes_downloaded <= u64::MAX
                &&& old(self).view()[peer_id@].total_download_time_ms + download_time_ms <= u64::MAX
            },
        ensures
            final(self).wf(),
            r == old(self).view().contains_key(peer_id@),
            final(self).view() == if r {
                old(self).view().insert(peer_id@, PeerView {
                    successful_downloads: (old(self).view()[peer_id@].successful_downloads + 1) as u64,
                    total_bytes_downloaded: (old(self).view()[peer_id@].total_bytes_downloaded + bytes_downloaded) as u64,
                    total_download_time_ms: (old(self).view()[peer_id@].total_download_time_ms + download_time_ms) as u64,
                    last_success_time: Some(now_ms),
                    ..old(self).view()[peer_id@]
                })
            } else {
                old(self).view()
            },
            final(self).view() == success_recorded(old(self).view(), peer_id@, bytes_downloaded, download_time_ms, now_ms),
            final(self).num_peers() == old(self).num_peers(),
    {
        match self.find_peer(peer_id) {
            None => false,
            Some(idx) => {
                proof { old(self).lemma_index_of(idx as int); }
                self.peers[idx].stats.add_success(bytes_downloaded, download_time_ms, now_ms);
                proof {
                    assert(self.ids() =~= old(self).ids());
                    assert(self.peers@[idx as int].stats.key_set() == old(self).peers@[idx as int].stats.key_set());
                    assert forall|q: int, i: u64| 0 <= q < self.queues@.len() implies
                        (#[trigger] pq_contents(self.queues@[q]).contains_key(i) <==> (i < self.peers@.len()
                            && self.peers@[i as int].stats.key_set().contains(self.queue_keys@[q]@))) by {
                        if i < self.peers@.len() && i != idx { assert(self.peers@[i as int] == old(self).peers@[i as int]); }
                    }
                    assert forall|q: int, i: u64| 0 <= q < self.queues@.len() && #[trigger] pq_contents(self.queues@[q]).contains_key(i)
                        && i != idx implies pq_contents(self.queues@[q])[i] == self.peers@[i as int].stats.score() by {
                        if i != idx { assert(self.peers@[i as int] == old(self).peers@[i as int]); }
                    }
                    assert forall|i: int, k: Seq<u8>| 0 <= i < self.peers@.len() && #[trigger] self.peers@[i].stats.key_set().contains(k)
                        implies key_views(self.queue_keys@).contains(k) by {
                        assert(old(self).peers@[i].stats.key_set().contains(k));
                    }
                    Self::lemma_view_update(old(self), self, idx as int);
                }
                self.refresh_score(idx);
                true
            },
        }
    }

    /// Records a failed download attempt from `peer_id`. Returns `true` when
    /// the peer is known (and its statistics have to be persisted).
    pub fn record_failure(&mut self, peer_id: &[u8]) -> (r: bool)
        requires
            old(self).wf(),
            old(self).view().contains_key(peer_id@) ==> old(self).view()[peer_id@].failed_downloads < u64::MAX,
        ensures
            final(self).wf(),
            r == old(self).view().contains_key(peer_id@),
            final(self).view() == if r {
                old(self).view().insert(peer_id@, PeerView {
                    failed_downloads: (old(self).view()[peer_id@].failed_downloads + 1) as u64,
                    ..old(self).view()[peer_id@]
                })
            } else {
                old(self).view()
            },
            final(self).view() == failure_recorded(old(self).view(), peer_id@),
            final(self).num_peers() == old(self).num_peers(),
    {
        match self.find_peer(peer_id) {
            None => false,
            Some(idx) => {
                proof { old(self).lemma_index_of(idx as int); }
                self.peers[idx].stats.add_failure();
                proof {
                    assert(self.ids() =~= old(self).ids());
                    assert(self.peers@[idx as int].stats.key_set() == old(self).peers@[idx as int].stats.key_set());
                    assert forall|q: int, i: u64| 0 <= q < self.queues@.len() implies
                        (#[trigger] pq_contents(self.queues@[q]).contains_key(i) <==> (i < self.peers@.len()
                            && self.peers@[i as int].stats.key_set().contains(self.queue_keys@[q]@))) by {
                        if i < self.peers@.len() && i != idx { assert(self.peers@[i as int] == old(self).peers@[i as int]); }
                    }
                    assert forall|q: int, i: u64| 0 <= q < self.queues@.len() && #[trigger] pq_contents(self.queues@[q]).contains_key(i)
                        && i != idx implies pq_contents(self.queues@[q])[i] == self.peers@[i as int].stats.score() by {
                        if i != idx { assert(self.peers@[i as int] == old(self).peers@[i as int]); }
                    }
                    assert forall|i: int, k: Seq<u8>| 0 <= i < self.peers@.len() && #[trigger] self.peers@[i].stats.key_set().contains(k)
                        implies key_views(self.queue_keys@).contains(k) by {
                        assert(old(self).peers@[i].stats.key_set().contains(k));
                    }
                    Self::lemma_view_update(old(self), self, idx as int);
                }
                self.refresh_score(idx);
                true
            },
        }
    }

    /// The ids of the peers at the indices `s`.
    closed spec fn ids_of(&self, s: Seq<u64>) -> Seq<Seq<u8>> {
        s.map_values(|i: u64| self.ids()[i as int])
    }

    /// `r` is a selection of peers for `file_key`: first the
    /// `min(count_best, n)` best-scored candidates, from best to worst, then
    /// `min(count_random, n - that)` other candidates, with `n` the number of
    /// candidates; no peer twice.
    pub open spec fn is_selection(&self, r: Seq<Seq<u8>>, count_best: int, count_random: int, file_key: Seq<u8>) -> bool {
        let cand = self.candidates(file_key);
        let nb = if count_best <= cand.len() { count_best } else { cand.len() as int };
        let nr = if count_random <= cand.len() - nb { count_random } else { cand.len() - nb };
        &&& cand.finite()
        &&& r.len() == nb + nr
        &&& r.no_duplicates()
        &&& forall|k: int| 0 <= k < r.len() ==> cand.contains(#[trigger] r[k])
        &&& forall|a: int, b: int| 0 <= a < b < nb ==>
            view_score(self.view()[#[trigger] r[a]]) >= view_score(self.view()[#[trigger] r[b]])
        &&& forall|a: int, id: Seq<u8>| 0 <= a < nb && #[trigger] cand.contains(id) && !r.take(nb).contains(id) ==>
            view_score(self.view()[#[trigger] r[a]]) >= view_score(self.view()[id])
    }

    proof fn lemma_candidate_iff(&self, q: int, id: Seq<u8>)
        requires
            self.wf(),
            0 <= q < self.queues@.len(),
        ensures
            self.candidates(self.queue_keys@[q]@).contains(id) ==> (self.ids().contains(id)
                && pq_contents(self.queues@[q]).contains_key(self.ids().index_of(id) as u64)),
    {
        if self.candidates(self.queue_keys@[q]@).contains(id) {
            let j = self.ids().index_of(id);
            assert(self.ids().contains(id));
            assert(0 <= j < self.ids().len() && self.ids()[j] == id);
            self.lemma_index_of(j);
            assert(self.peers@.len() == self.peers.len());
            assert((j as u64) as int == j);
            assert(self.peers@[j].stats.key_set().contains(self.queue_keys@[q]@));
            assert(pq_contents(self.queues@[q]).contains_key(j as u64));
        }
    }

    proof fn lemma_index_is_candidate(&self, q: int, i: u64)
        requires
            self.wf(),
            0 <= q < self.queues@.len(),
            pq_contents(self.queues@[q]).contains_key(i),
        ensures
            i < self.peers@.len(),
            self.candidates(self.queue_keys@[q]@).contains(self.ids()[i as int]),
            self.view()[self.ids()[i as int]] == self.peer_at(i as int),
            view_score(self.peer_at(i as int)) == pq_contents(self.queues@[q])[i],
    {
        self.lemma_index_of(i as int);
    }

    proof fn lemma_selection(&self, qi: int, best: Seq<u64>, rest: Seq<u64>, rem: Set<u64>, nr: int, count_best: int, count_random: int, res: Seq<Seq<u8>>)
        requires
            self.wf(),
            0 <= qi < self.queues@.len(),
            best.no_duplicates(),
            rest.no_duplicates(),
            forall|k: int| 0 <= k < best.len() ==> pq_contents(self.queues@[qi]).contains_key(#[trigger] best[k]),
            rest.to_set() == rem,
            forall|j: u64| #[trigger] rem.contains(j) <==> (pq_contents(self.queues@[qi]).contains_key(j) && !best.contains(j)),
            0 <= count_best,
            0 <= count_random,
            best.len() <= count_best,
            best.len() < count_best ==> rest.len() == 0,
            forall|a: int, b: int| 0 <= a < b < best.len() ==> pq_contents(self.queues@[qi])[#[trigger] best[a]] >= pq_contents(self.queues@[qi])[#[trigger] best[b]],
            forall|a: int, j: u64| 0 <= a < best.len() && #[trigger] rem.contains(j) ==> pq_contents(self.queues@[qi])[#[trigger] best[a]] >= pq_contents(self.queues@[qi])[j],
            nr == if count_random <= rest.len() { count_random } else { rest.len() as int },
            res == self.ids_of(best + rest.take(nr)),
        ensures
            self.is_selection(res, count_best, count_random, self.queue_keys@[qi]@),
    {
        let orig = pq_contents(self.queues@[qi]);
        assert(self.peers@.len() == self.peers.len());
        let fk = self.queue_keys@[qi]@;
        let cand = self.candidates(fk);
        let all = best + rest;
        assert forall|a: int, b: int| 0 <= a < b < all.len() implies all[a] != all[b] by {
            if a < best.len() && b >= best.len() {
                assert(rest.to_set().contains(all[b]));
                assert(best.contains(all[a]));
            }
        }
        assert forall|k: int| 0 <= k < all.len() implies orig.contains_key(#[trigger] all[k]) by {
            if k >= best.len() {
                assert(rest.to_set().contains(all[k]));
            }
        }
        let ia = self.ids_of(all);
        assert forall|a: int, b: int| 0 <= a < b < ia.len() implies ia[a] != ia[b] by {
            self.lemma_index_is_candidate(qi, all[a]);
            self.lemma_index_is_candidate(qi, all[b]);
        }
        assert forall|id: Seq<u8>| #[trigger] cand.contains(id) <==> ia.to_set().contains(id) by {
            if cand.contains(id) {
                self.lemma_candidate_iff(qi, id);
                let j = self.ids().index_of(id);
                assert(0 <= j < self.ids().len() && self.ids()[j] == id);
                let ju = j as u64;
                assert(orig.contains_key(ju));
                if best.contains(ju) {
                    let w = choose|w: int| 0 <= w < best.len() && best[w] == ju;
                    assert(all[w] == ju);
                    assert(ju as int == j);
                    assert(ia[w] == self.ids()[all[w] as int]);
                    assert(ia[w] == id);
                } else {
                    assert(rem.contains(ju));
                    assert(rest.to_set().contains(ju));
                    let w = choose|w: int| 0 <= w < rest.len() && rest[w] == ju;
                    assert(all[best.len() + w] == ju);
                    assert(ju as int == j);
                    assert(ia[best.len() + w] == self.ids()[all[best.len() + w] as int]);
                    assert(ia[best.len() + w] == id);
                }
            }
            if ia.to_set().contains(id) {
                let w = choose|w: int| 0 <= w < ia.len() && ia[w] == id;
                self.lemma_index_is_candidate(qi, all[w]);
            }
        }
        assert(cand =~= ia.to_set());
        ia.unique_seq_to_set();
        assert(cand.len() == best.len() + rest.len());
        let nb = if count_best <= cand.len() { count_best } else { cand.len() as int };
        assert(nb == best.len());
        let sel = best + rest.take(nr);
        assert(sel =~= all.take(best.len() + nr));
        assert(res.len() == nb + nr);
        assert forall|a: int, b: int| 0 <= a < b < res.len() implies res[a] != res[b] by {
            assert(res[a] == ia[a] && res[b] == ia[b]);
        }
        assert forall|k: int| 0 <= k < res.len() implies cand.contains(#[trigger] res[k]) by {
            assert(res[k] == ia[k]);
            assert(ia.to_set().contains(ia[k]));
        }
        assert forall|a: int, b: int| 0 <= a < b < nb implies
            view_score(self.view()[#[trigger] res[a]]) >= view_score(self.view()[#[trigger] res[b]]) by {
            self.lemma_index_is_candidate(qi, best[a]);
            self.lemma_index_is_candidate(qi, best[b]);
        }
        assert(res.take(nb) =~= self.ids_of(best));
        assert forall|a: int, id: Seq<u8>| 0 <= a < nb && #[trigger] cand.contains(id) && !res.take(nb).contains(id) implies
            view_score(self.view()[#[trigger] res[a]]) >= view_score(self.view()[id]) by {
            self.lemma_index_is_candidate(qi, best[a]);
            self.lemma_candidate_iff(qi, id);
            let j = self.ids().index_of(id);
            assert(0 <= j < self.ids().len() && self.ids()[j] == id);
            let ju = j as u64;
            if best.contains(ju) {
                let w = choose|w: int| 0 <= w < best.len() && best[w] == ju;
                assert(res.take(nb)[w] == id);
            }
            assert(rem.contains(ju));
            self.lemma_index_is_candidate(qi, ju);
        }
    }

    /// Selects the peers to download `file_key` from: the `count_best` best
    /// performing ones, in order, then `count_random` others at random.
    pub fn select_peers(&self, count_best: usize, count_random: usize, file_key: &H256) -> (r: Vec<Vec<u8>>)
        requires
            self.wf(),
        ensures
            self.is_selection(vec_views(r@), count_best as int, count_random as int, file_key@),
    {
        let ghost cand = self.candidates(file_key@);
        let qi = match self.find_queue(file_key) {
            None => {
                proof {
                    assert forall|id: Seq<u8>| !cand.contains(id) by {
                        if cand.contains(id) {
                            let j = self.ids().index_of(id);
                            assert(self.ids().contains(id));
                            self.lemma_index_of(j);
                            assert(self.peers@[j].stats.key_set().contains(file_key@));
                        }
                    }
                    assert(cand =~= Set::<Seq<u8>>::empty());
                }
                let e: Vec<Vec<u8>> = Vec::new();
                proof {
                    assert(vec_views(e@) =~= Seq::<Seq<u8>>::empty());
                }
                return e;
            },
            Some(qi) => qi,
        };
        let ghost orig = pq_contents(self.queues@[qi as int]);
        let mut queue = pq_clone(&self.queues[qi]);
        let mut best: Vec<u64> = Vec::new();
        let mut done = false;
        while !done && best.len() < count_best
            invariant
                self.wf(),
                qi < self.queues@.len(),
                orig == pq_contents(self.queues@[qi as int]),
                best@.len() <= count_best,
                best@.no_duplicates(),
                forall|k: int| 0 <= k < best@.len() ==> orig.contains_key(#[trigger] best@[k]),
                forall|j: u64| #[trigger] pq_contents(queue).contains_key(j) <==> (orig.contains_key(j) && !best@.contains(j)),
                forall|j: u64| #[trigger] pq_contents(queue).contains_key(j) ==> pq_contents(queue)[j] == orig[j],
                forall|a: int, b: int| 0 <= a < b < best@.len() ==> orig[#[trigger] best@[a]] >= orig[#[trigger] best@[b]],
                forall|a: int, j: u64| 0 <= a < best@.len() && #[trigger] pq_contents(queue).contains_key(j) ==> orig[#[trigger] best@[a]] >= orig[j],
                done ==> pq_contents(queue).dom() == Set::<u64>::empty(),
            decreases count_best - best@.len(), if done { 0int } else { 1int },
        {
            match pq_pop(&mut queue) {
                None => {
                    done = true;
                },
                Some((i, _p)) => {
                    let ghost prev = best@;
                    best.push(i);
                    proof {
                        assert(best@ == prev.push(i));
                        assert forall|j: u64| #[trigger] best@.contains(j) <==> (prev.contains(j) || j == i) by {
                            if best@.contains(j) {
                                let w = choose|w: int| 0 <= w < best@.len() && best@[w] == j;
                                if w < prev.len() { assert(prev[w] == j); }
                            }
                            if prev.contains(j) {
                                let w = choose|w: int| 0 <= w < prev.len() && prev[w] == j;
                                assert(best@[w] == j);
                            }
                            if j == i { assert(best@[prev.len() as int] == j); }
                        }
                        assert(!prev.contains(i));
                        assert forall|a: int, b: int| 0 <= a < b < best@.len() implies best@[a] != best@[b] by {
                            if b == prev.len() { assert(prev.contains(prev[a])); }
                        }
                    }
                },
            }
        }
        let ghost rem = pq_contents(queue).dom();
        let mut rest = pq_into_items(queue);
        proof {
            if best@.len() < count_best && rest@.len() > 0 {
                assert(rest@.to_set().contains(rest@[0]));
            }
        }
        proof {
            let all = best@ + rest@;
            assert forall|a: int, b: int| 0 <= a < b < all.len() implies all[a] != all[b] by {
                if a < best@.len() && b >= best@.len() {
                    assert(rest@.to_set().contains(all[b]));
                    assert(best@.contains(all[a]));
                }
            }
            assert(all.no_duplicates());
        }
        let nr: usize;
        if count_random > 0 && rest.len() > 0 {
            let ghost before = rest@;
            shuffle_vec(&mut rest);
            proof {
                before.lemma_multiset_has_no_duplicates();
                assert forall|x: u64| rest@.to_multiset().contains(x) implies rest@.to_multiset().count(x) == 1 by {}
                rest@.lemma_multiset_has_no_duplicates_conv();
                assert forall|x: u64| rest@.contains(x) <==> before.contains(x) by {
                    rest@.to_multiset_ensures();
                    before.to_multiset_ensures();
                    assert(rest@.contains(x) <==> rest@.to_multiset().count(x) > 0);
                    assert(before.contains(x) <==> before.to_multiset().count(x) > 0);
                }
                assert(rest@.to_set() =~= before.to_set());
            }
            nr = if count_random <= rest.len() { count_random } else { rest.len() };
        } else {
            nr = 0;
        }
        let mut r: Vec<Vec<u8>> = Vec::new();
        let mut k: usize = 0;
        while k < best.len()
            invariant
                self.wf(),
                k <= best@.len(),
                forall|j: int| 0 <= j < best@.len() ==> orig.contains_key(#[trigger] best@[j]),
                orig == pq_contents(self.queues@[qi as int]),
                qi < self.queues@.len(),
                vec_views(r@) == self.ids_of(best@.take(k as int)),
            decreases best@.len() - k,
        {
            let i = best[k];
            proof {
                self.lemma_index_is_candidate(qi as int, i);
                assert(self.peers@.len() == self.peers.len());
                assert((i as usize) as int == i as int);
            }
            let id = vstd::slice::slice_to_vec(self.peers[i as usize].peer_id.as_slice());
            let ghost prev = r@;
            r.push(id);
            proof {
                assert(r@ == prev.push(id));
                assert(vec_views(r@) =~= vec_views(prev).push(id@));
                assert(best@.take(k + 1) =~= best@.take(k as int).push(i));
                assert(id@ == self.peers@[i as int].peer_id@);
                assert(id@ == self.ids()[i as int]);
                assert(self.ids_of(best@.take(k as int).push(i)) =~= self.ids_of(best@.take(k as int)).push(self.ids()[i as int]));
                assert(vec_views(r@) =~= self.ids_of(best@.take(k + 1)));
            }
            k = k + 1;
        }
        let mut k: usize = 0;
        while k < nr
            invariant
                self.wf(),
                k <= nr,
                nr <= rest@.len(),
                rest@.to_set() == rem,
                forall|j: u64| #[trigger] rem.contains(j) <==> (orig.contains_key(j) && !best@.contains(j)),
                orig == pq_contents(self.queues@[qi as int]),
                qi < self.queues@.len(),
                vec_views(r@) == self.ids_of(best@ + rest@.take(k as int)),
            decreases nr - k,
        {
            let i = rest[k];
            proof {
                assert(rest@.to_set().contains(i));
                assert(rem.contains(i));
                self.lemma_index_is_candidate(qi as int, i);
                assert(self.peers@.len() == self.peers.len());
                assert((i as usize) as int == i as int);
            }
            let id = vstd::slice::slice_to_vec(self.peers[i as usize].peer_id.as_slice());
            let ghost prev = r@;
            r.push(id);
            proof {
                assert(r@ == prev.push(id));
                assert(vec_views(r@) =~= vec_views(prev).push(id@));
                assert(best@ + rest@.take(k + 1) =~= (best@ + rest@.take(k as int)).push(i));
                assert(id@ == self.peers@[i as int].peer_id@);
                assert(id@ == self.ids()[i as int]);
                assert(self.ids_of((best@ + rest@.take(k as int)).push(i)) =~= self.ids_of(best@ + rest@.take(k as int)).push(self.ids()[i as int]));
                assert(vec_views(r@) =~= self.ids_of(best@ + rest@.take(k + 1)));
            }
            k = k + 1;
        }
        proof {
            assert(best@.take(best@.len() as int) =~= best@);
            assert(best@ + rest@.take(0) =~= best@);
            self.lemma_selection(qi as int, best@, rest@, rem, nr as int, count_best as int, count_random as int, vec_views(r@));
        }
        r
    }

    /// The persisted form of the statistics of `peer_id`, when it is known.
    pub fn persistent_stats(&self, peer_id: &[u8], now_ms: u64) -> (r: Option<PersistentBspPeerStats>)
        requires
            self.wf(),
        ensures
            r is None <==> !self.view().contains_key(peer_id@),
            r matches Some(p) ==> {
                let v = self.view()[peer_id@];
                &&& p.successful_downloads == v.successful_downloads
                &&& p.failed_downloads == v.failed_downloads
                &&& p.total_bytes_downloaded == v.total_bytes_downloaded
                &&& p.total_download_time_ms == v.total_download_time_ms
                &&& p.last_success_time_millis == (match v.last_success_time {
                    Some(t) => Some(if t <= now_ms { (now_ms - t) as u64 } else { 0u64 }),
                    None => None::<u64>,
                })
            },
            r matches Some(p) ==> p == persisted_of(self.view()[peer_id@], now_ms),
    {
        match self.find_peer(peer_id) {
            None => None,
            Some(idx) => {
                proof { self.lemma_index_of(idx as int); }
                Some(PersistentBspPeerStats::from_stats(&self.peers[idx].stats, now_ms))
            },
        }
    }

    /// All peers have no file key and no file has a queue.
    closed spec fn keyless(&self) -> bool {
        &&& self.queues@.len() == 0
        &&& self.queue_keys@.len() == 0
        &&& forall|i: int| 0 <= i < self.peers@.len() ==> (#[trigger] self.peers@[i]).stats.file_keys@.len() == 0
    }

    /// Sets the statistics of `peer_id` to `stats`, which hold no file key,
    /// while no peer has a file key.
    fn put_keyless_peer(&mut self, peer_id: &[u8], stats: BspPeerStats)
        requires
            old(self).wf(),
            old(self).keyless(),
            stats.file_keys@.len() == 0,
            old(self).peers@.len() < u64::MAX,
        ensures
            final(self).wf(),
            final(self).keyless(),
            final(self).peers@.len() <= old(self).peers@.len() + 1,
            final(self).view() == old(self).view().insert(peer_id@, stats_view(stats)),
    {
        proof {
            assert(stats.key_set() =~= Set::<Seq<u8>>::empty());
        }
        match self.find_peer(peer_id) {
            Some(idx) => {
                proof { old(self).lemma_index_of(idx as int); }
                self.peers.set(idx, PeerEntry { peer_id: vstd::slice::slice_to_vec(peer_id), stats });
                proof {
                    assert(self.ids() =~= old(self).ids());
                    Self::lemma_view_update(old(self), self, idx as int);
                    assert forall|i: int, k: Seq<u8>| 0 <= i < self.peers@.len() && #[trigger] self.peers@[i].stats.key_set().contains(k)
                        implies key_views(self.queue_keys@).contains(k) by {
                        assert(self.peers@[i].stats.file_keys@.len() == 0);
                        assert(key_views(self.peers@[i].stats.file_keys@) =~= Seq::<Seq<u8>>::empty());
                    }
                }
            },
            None => {
                self.peers.push(PeerEntry { peer_id: vstd::slice::slice_to_vec(peer_id), stats });
                proof {
                    assert(self.ids() =~= old(self).ids().push(peer_id@));
                    Self::lemma_view_push(old(self), self);
                    assert forall|i: int, k: Seq<u8>| 0 <= i < self.peers@.len() && #[trigger] self.peers@[i].stats.key_set().contains(k)
                        implies key_views(self.queue_keys@).contains(k) by {
                        assert(self.peers@[i].stats.file_keys@.len() == 0);
                        assert(key_views(self.peers@[i].stats.file_keys@) =~= Seq::<Seq<u8>>::empty());
                    }
                }
            },
        }
    }

    /// Rebuilds the manager from its persisted records: the statistics of
    /// each peer (a later record of the same peer replacing an earlier one),
    /// then the file keys each peer can provide (a key of an unknown peer is
    /// ignored). A persisted last success counts as a success at `now_ms`.
    pub fn load_from_records(
        stats_records: &Vec<(Vec<u8>, PersistentBspPeerStats)>,
        key_records: &Vec<(Vec<u8>, H256)>,
        now_ms: u64,
    ) -> (r: BspPeerManager)
        requires
            stats_records@.len() < u64::MAX,
        ensures
            r.wf(),
            r.view() == with_key_records(stats_records_view(stats_records@, now_ms), key_records@),
            r.num_peers() <= stats_records@.len(),
    {
        let mut m = BspPeerManager { peers: Vec::new(), queue_keys: Vec::new(), queues: Vec::new() };
        proof {
            assert(m.ids() =~= Seq::<Seq<u8>>::empty());
            assert(m.view() =~= Map::<Seq<u8>, PeerView>::empty());
            assert(stats_records@.take(0) =~= Seq::<(Vec<u8>, PersistentBspPeerStats)>::empty());
        }
        let mut i: usize = 0;
        while i < stats_records.len()
            invariant
                stats_records@.len() < u64::MAX,
                0 <= i <= stats_records@.len(),
                m.wf(),
                m.keyless(),
                m.peers@.len() <= i,
                m.view() == stats_records_view(stats_records@.take(i as int), now_ms),
            decreases stats_records.len() - i,
        {
            let rec = &stats_records[i];
            let p = PersistentBspPeerStats {
                successful_downloads: rec.1.successful_downloads,
                failed_downloads: rec.1.failed_downloads,
                total_bytes_downloaded: rec.1.total_bytes_downloaded,
                total_download_time_ms: rec.1.total_download_time_ms,
                last_success_time_millis: rec.1.last_success_time_millis,
            };
            let stats = BspPeerStats::from_persistent(p, Vec::new(), now_ms);
            proof {
                assert(key_views(Seq::<H256>::empty()) =~= Seq::<Seq<u8>>::empty());
            }
            m.put_keyless_peer(rec.0.as_slice(), stats);
            proof {
                assert(stats_records@.take(i as int + 1).drop_last() =~= stats_records@.take(i as int));
                assert(stats.key_set() =~= Set::<Seq<u8>>::empty());
                assert(stats_view(stats) == persisted_view(rec.1, now_ms));
            }
            i = i + 1;
        }
        proof {
            assert(stats_records@.take(stats_records@.len() as int) =~= stats_records@);
        }
        let ghost base = m.view();
        let mut k: usize = 0;
        while k < key_records.len()
            invariant
                0 <= k <= key_records@.len(),
                m.wf(),
                m.view() == with_key_records(base, key_records@.take(k as int)),
                m.peers@.len() <= stats_records@.len(),
            decreases key_records.len() - k,
        {
            proof {
                assert(key_records@.take(k as int + 1).drop_last() =~= key_records@.take(k as int));
            }
            let rec = &key_records[k];
            match m.find_peer(rec.0.as_slice()) {
                Some(idx) => {
                    proof { m.lemma_index_of(idx as int); }
                    m.add_key_to_peer(idx, rec.1);
                },
                None => {},
            }
            k = k + 1;
        }
        proof {
            assert(key_records@.take(key_records@.len() as int) =~= key_records@);
        }
        m
    }

    fn find_peer(&self, peer_id: &[u8]) -> (r: Option<usize>)
        ensures
            r is None ==> !self.ids().contains(peer_id@),
            r matches Some(i) ==> i < self.peers@.len() && self.ids()[i as int] == peer_id@,
    {
        let mut i: usize = 0;
        while i < self.peers.len()
            invariant
                i <= self.peers@.len(),
                forall|j: int| 0 <= j < i ==> self.ids()[j] != peer_id@,
            decreases self.peers@.len() - i,
        {
            if bytes_eq(self.peers[i].peer_id.as_slice(), peer_id) {
                return Some(i);
            }
            i = i + 1;
        }
        None
    }

    fn find_queue(&self, file_key: &H256) -> (r: Option<usize>)
        requires
            self.queue_keys@.len() == self.queues@.len(),
        ensures
            r is None ==> !key_views(self.queue_keys@).contains(file_key@),
            r matches Some(q) ==> q < self.queues@.len() && self.queue_keys@[q as int]@ == file_key@,
    {
        let mut i: usize = 0;
        while i < self.queue_keys.len()
            invariant
                i <= self.queue_keys@.len(),
                self.queue_keys@.len() == self.queues@.len(),
                forall|j: int| 0 <= j < i ==> self.queue_keys@[j]@ != file_key@,
            decreases self.queue_keys@.len() - i,
        {
            if h256_eq(&self.queue_keys[i], file_key) {
                return Some(i);
            }
            i = i + 1;
        }
        proof {
            if key_views(self.queue_keys@).contains(file_key@) {
                let j = choose|j: int| 0 <= j < key_views(self.queue_keys@).len() && key_views(self.queue_keys@)[j] == file_key@;
                assert(self.queue_keys@[j]@ == file_key@);
            }
        }
        None
    }
}

} // verus!
