use vstd::prelude::*;
use crate::bytes::{h256_eq, H256};

verus! {

/// The score of a perfect peer: scores are fixed-point numbers with this unit.
pub const SCORE_UNIT: u64 = 1_000_000_000_000;
/// The share of the score given by the success rate (70% of the unit).
pub const SUCCESS_WEIGHT: u64 = 700_000_000_000;
/// The share of the score given by the download speed (30% of the unit).
pub const SPEED_WEIGHT: u64 = 300_000_000_000;
/// The download speed that earns the full speed share: 50 MiB per second.
pub const MAX_SPEED_BYTES_PER_SEC: u64 = 52_428_800;

/// A peer id in its encoded form (the bytes of the network peer id).
pub struct EncodablePeerId(pub Vec<u8>);

impl EncodablePeerId {
    pub open spec fn view(&self) -> Seq<u8> {
        self.0@
    }

    /// Wraps the bytes of a peer id.
    pub fn from_bytes(bytes: Vec<u8>) -> (r: EncodablePeerId)
        ensures
            r.view() == bytes@,
    {
        EncodablePeerId(bytes)
    }

    /// The bytes of the peer id.
    pub fn to_bytes(&self) -> (r: Vec<u8>)
        ensures
            r@ == self.view(),
    {
        self.0.clone()
    }
}

/// Column family holding the statistics of each peer.
pub struct PeerIdCf;

impl PeerIdCf {
    /// The name of the column family.
    pub fn name() -> (r: &'static str)
        ensures
            r@ == "bsp_peer_stats"@,
    {
        "bsp_peer_stats"
    }
}

/// Column family holding the (peer, file key) associations.
pub struct PeerFileKeyCf;

impl PeerFileKeyCf {
    /// The name of the column family.
    pub fn name() -> (r: &'static str)
        ensures
            r@ == "bsp_peer_file_keys"@,
    {
        "bsp_peer_file_keys"
    }
}

/// Single-value column family holding the time of the last update.
pub struct LastUpdateTimeCf;

impl LastUpdateTimeCf {
    /// The name of the column family.
    pub fn name() -> (r: &'static str)
        ensures
            r@ == "bsp_peer_last_update"@,
    {
        "bsp_peer_last_update"
    }
}

/// The column families that the peer store opens, in order.
pub fn current_column_families() -> (r: Vec<&'static str>)
    ensures
        r@.len() == 3,
        r@[0]@ == "bsp_peer_stats"@,
        r@[1]@ == "bsp_peer_file_keys"@,
        r@[2]@ == "bsp_peer_last_update"@,
{
    let mut v: Vec<&'static str> = Vec::new();
    v.push(PeerIdCf::name());
    v.push(PeerFileKeyCf::name());
    v.push(LastUpdateTimeCf::name());
    v
}

/// The persisted form of a peer's statistics.
pub struct PersistentBspPeerStats {
    /// The number of successful downloads for the peer
    pub successful_downloads: u64,
    /// The number of failed downloads for the peer
    pub failed_downloads: u64,
    /// The total number of bytes downloaded for the peer
    pub total_bytes_downloaded: u64,
    /// The total download time for the peer
    pub total_download_time_ms: u64,
    /// Milliseconds elapsed since the last successful download, when there was one
    pub last_success_time_millis: Option<u64>,
}

/// The views of a sequence of hashes.
pub open spec fn key_views(keys: Seq<H256>) -> Seq<Seq<u8>> {
    keys.map_values(|k: H256| k@)
}

/// The success part of a score: `SUCCESS_WEIGHT * successes / attempts`.
pub open spec fn spec_success_score(successes: int, failures: int) -> int {
    if successes + failures == 0 {
        0
    } else {
        (SUCCESS_WEIGHT * successes) / (successes + failures)
    }
}

/// The speed part of a score: `SPEED_WEIGHT * min(speed / MAX_SPEED, 1)`,
/// where the speed is `1000 * bytes / time_ms` bytes per second; zero with no
/// success or no recorded time.
pub open spec fn spec_speed_score(successes: int, bytes: int, time_ms: int) -> int {
    if successes == 0 || time_ms == 0 {
        0
    } else if 1000 * bytes >= MAX_SPEED_BYTES_PER_SEC * time_ms {
        SPEED_WEIGHT as int
    } else {
        (SPEED_WEIGHT * 1000 * bytes) / (MAX_SPEED_BYTES_PER_SEC * time_ms)
    }
}

/// The score of a peer with these counters, in units of `1 / SCORE_UNIT`.
pub open spec fn spec_score(successes: int, failures: int, bytes: int, time_ms: int) -> int {
    spec_success_score(successes, failures) + spec_speed_score(successes, bytes, time_ms)
}

/// Statistics about a peer's performance.
pub struct BspPeerStats {
    /// The number of successful downloads for the peer
    pub successful_downloads: u64,
    /// The number of failed downloads for the peer
    pub failed_downloads: u64,
    /// The total number of bytes downloaded for the peer
    pub total_bytes_downloaded: u64,
    /// The total download time for the peer
    pub total_download_time_ms: u64,
    /// The time (in milliseconds of the caller's clock) of the last successful download
    pub last_success_time: Option<u64>,
    /// The file keys that the peer can provide, each once
    pub file_keys: Vec<H256>,
}

impl BspPeerStats {
    /// The file keys have no duplicates.
    pub open spec fn wf(&self) -> bool {
        key_views(self.file_keys@).no_duplicates()
    }

    /// The set of file keys that the peer can provide.
    pub open spec fn key_set(&self) -> Set<Seq<u8>> {
        key_views(self.file_keys@).to_set()
    }

    /// The score of the peer.
    pub open spec fn score(&self) -> int {
        spec_score(
            self.successful_downloads as int,
            self.failed_downloads as int,
            self.total_bytes_downloaded as int,
            self.total_download_time_ms as int,
        )
    }

    /// Statistics of a peer that has not been seen yet.
    pub fn new() -> (r: BspPeerStats)
        ensures
            r.wf(),
            r.successful_downloads == 0,
            r.failed_downloads == 0,
            r.total_bytes_downloaded == 0,
            r.total_download_time_ms == 0,
            r.last_success_time is None,
            r.file_keys@.len() == 0,
    {
        BspPeerStats {
            successful_downloads: 0,
            failed_downloads: 0,
            total_bytes_downloaded: 0,
            total_download_time_ms: 0,
            last_success_time: None,
            file_keys: Vec::new(),
        }
    }

    /// Rebuilds the statistics from their persisted form; a persisted last
    /// success counts as a success at `now_ms`.
    pub fn from_persistent(persistent: PersistentBspPeerStats, file_keys: Vec<H256>, now_ms: u64) -> (r: BspPeerStats)
        requires
            key_views(file_keys@).no_duplicates(),
        ensures
            r.wf(),
            r.successful_downloads == persistent.successful_downloads,
            r.failed_downloads == persistent.failed_downloads,
            r.total_bytes_downloaded == persistent.total_bytes_downloaded,
            r.total_download_time_ms == persistent.total_download_time_ms,
            r.last_success_time == (match persistent.last_success_time_millis {
                Some(_) => Some(now_ms),
                None => None::<u64>,
            }),
            r.file_keys@ == file_keys@,
    {
        let last = match persistent.last_success_time_millis {
            Some(_) => Some(now_ms),
            None => None,
        };
        BspPeerStats {
            successful_downloads: persistent.successful_downloads,
            failed_downloads: persistent.failed_downloads,
            total_bytes_downloaded: persistent.total_bytes_downloaded,
            total_download_time_ms: persistent.total_download_time_ms,
            last_success_time: last,
            file_keys,
        }
    }

    /// Records a successful download and updates the counters.
    pub fn add_success(&mut self, bytes_downloaded: u64, download_time_ms: u64, now_ms: u64)
        requires
            old(self).successful_downloads < u64::MAX,
            old(self).total_bytes_downloaded + bytes_downloaded <= u64::MAX,
            old(self).total_download_time_ms + download_time_ms <= u64::MAX,
        ensures
            final(self).successful_downloads == old(self).successful_downloads + 1,
            final(self).failed_downloads == old(self).failed_downloads,
            final(self).total_bytes_downloaded == old(self).total_bytes_downloaded + bytes_downloaded,
            final(self).total_download_time_ms == old(self).total_download_time_ms + download_time_ms,
            final(self).last_success_time == Some(now_ms),
            final(self).file_keys@ == old(self).file_keys@,
    {
        self.successful_downloads = self.successful_downloads + 1;
        self.total_bytes_downloaded = self.total_bytes_downloaded + bytes_downloaded;
        self.total_download_time_ms = self.total_download_time_ms + download_time_ms;
        self.last_success_time = Some(now_ms);
    }

    /// Records a failed download attempt.
    pub fn add_failure(&mut self)
        requires
            old(self).failed_downloads < u64::MAX,
        ensures
            final(self).failed_downloads == old(self).failed_downloads + 1,
            final(self).successful_downloads == old(self).successful_downloads,
            final(self).total_bytes_downloaded == old(self).total_bytes_downloaded,
            final(self).total_download_time_ms == old(self).total_download_time_ms,
            final(self).last_success_time == old(self).last_success_time,
            final(self).file_keys@ == old(self).file_keys@,
    {
        self.failed_downloads = self.failed_downloads + 1;
    }

    /// The success part of the score: 70% of the unit times the success rate.
    pub fn get_success_score(&self) -> (r: u64)
        ensures
            r == spec_success_score(self.successful_downloads as int, self.failed_downloads as int),
            r <= SUCCESS_WEIGHT,
    {
        let s: u128 = self.successful_downloads as u128;
        let total: u128 = s + self.failed_downloads as u128;
        if total == 0 {
            return 0;
        }
        let w: u128 = SUCCESS_WEIGHT as u128;
        assert(w * s <= w * total) by (nonlinear_arith)
            requires s <= total;
        assert((w * s) / (total as int) <= w) by (nonlinear_arith)
            requires w * s <= w * total, total > 0;
        ((w * s) / total) as u64
    }

    /// The speed part of the score: 30% of the unit times the average speed
    /// over 50 MiB/s, capped at 1.
    pub fn get_speed_score(&self) -> (r: u64)
        ensures
            r == spec_speed_score(
                self.successful_downloads as int,
                self.total_bytes_downloaded as int,
                self.total_download_time_ms as int,
            ),
            r <= SPEED_WEIGHT,
    {
        if self.successful_downloads == 0 || self.total_download_time_ms == 0 {
            return 0;
        }
        let b: u128 = self.total_bytes_downloaded as u128;
        let t: u128 = self.total_download_time_ms as u128;
        let m: u128 = MAX_SPEED_BYTES_PER_SEC as u128;
        let w: u128 = SPEED_WEIGHT as u128;
        assert(m * t <= 52_428_800 * 0xffff_ffff_ffff_ffff) by (nonlinear_arith)
            requires m == 52_428_800, t <= 0xffff_ffff_ffff_ffff;
        if 1000 * b >= m * t {
            return SPEED_WEIGHT;
        }
        assert(w * 1000 * b <= 300_000_000_000 * 1000 * 0xffff_ffff_ffff_ffff) by (nonlinear_arith)
            requires w == 300_000_000_000, b <= 0xffff_ffff_ffff_ffff;
        assert(w * 1000 * b <= w * (m * t)) by (nonlinear_arith)
            requires 1000 * b < m * t, w >= 0;
        assert((w * 1000 * b) / (m * t) as int <= w) by (nonlinear_arith)
            requires w * 1000 * b <= w * (m * t), m * t > 0;
        ((w * 1000 * b) / (m * t)) as u64
    }

    /// The overall score of this peer, between 0 and `SCORE_UNIT`: a weighted
    /// combination of success rate (70%) and speed (30%).
    pub fn get_score(&self) -> (r: u64)
        ensures
            r == self.score(),
            r <= SCORE_UNIT,
    {
        self.get_success_score() + self.get_speed_score()
    }

    /// Whether the peer can provide `file_key`.
    pub fn has_file_key(&self, file_key: &H256) -> (r: bool)
        ensures
            r == self.key_set().contains(file_key@),
    {
        let mut i: usize = 0;
        while i < self.file_keys.len()
            invariant
                i <= self.file_keys@.len(),
                forall|j: int| 0 <= j < i ==> self.file_keys@[j]@ != file_key@,
            decreases self.file_keys@.len() - i,
        {
            if h256_eq(&self.file_keys[i], file_key) {
                assert(key_views(self.file_keys@)[i as int] == file_key@);
                return true;
            }
            i = i + 1;
        }
        proof {
            if key_views(self.file_keys@).contains(file_key@) {
                let j = choose|j: int| 0 <= j < key_views(self.file_keys@).len() && key_views(self.file_keys@)[j] == file_key@;
                assert(self.file_keys@[j]@ == file_key@);
            }
        }
        false
    }

    /// Adds a file key that this peer can provide; `true` when it was new.
    pub fn add_file_key(&mut self, file_key: H256) -> (r: bool)
        requires
            old(self).wf(),
        ensures
            final(self).wf(),
            r == !old(self).key_set().contains(file_key@),
            final(self).key_set() == old(self).key_set().insert(file_key@),
            r ==> final(self).file_keys@ == old(self).file_keys@.push(file_key),
            !r ==> *final(self) == *old(self),
            final(self).successful_downloads == old(self).successful_downloads,
            final(self).failed_downloads == old(self).failed_downloads,
            final(self).total_bytes_downloaded == old(self).total_bytes_downloaded,
            final(self).total_download_time_ms == old(self).total_download_time_ms,
            final(self).last_success_time == old(self).last_success_time,
    {
        if self.has_file_key(&file_key) {
            assert(old(self).key_set().insert(file_key@) =~= old(self).key_set());
            return false;
        }
        self.file_keys.push(file_key);
        proof {
            assert(key_views(self.file_keys@) =~= key_views(old(self).file_keys@).push(file_key@));
            assert(key_views(self.file_keys@).to_set() =~= key_views(old(self).file_keys@).to_set().insert(file_key@)) by {
                key_views(old(self).file_keys@).lemma_push_to_set_commute(file_key@);
            }
        }
        true
    }
}

impl PersistentBspPeerStats {
    /// The persisted form of `stats`; the last success is stored as the
    /// milliseconds elapsed from it until `now_ms` (zero if the clock went back).
    pub fn from_stats(stats: &BspPeerStats, now_ms: u64) -> (r: PersistentBspPeerStats)
        ensures
            r.successful_downloads == stats.successful_downloads,
            r.failed_downloads == stats.failed_downloads,
            r.total_bytes_downloaded == stats.total_bytes_downloaded,
            r.total_download_time_ms == stats.total_download_time_ms,
            r.last_success_time_millis == (match stats.last_success_time {
                Some(t) => Some(if t <= now_ms { (now_ms - t) as u64 } else { 0u64 }),
                None => None::<u64>,
            }),
    {
        let last = match stats.last_success_time {
            Some(t) => Some(if t <= now_ms { now_ms - t } else { 0 }),
            None => None,
        };
        PersistentBspPeerStats {
            successful_downloads: stats.successful_downloads,
            failed_downloads: stats.failed_downloads,
            total_bytes_downloaded: stats.total_bytes_downloaded,
            total_download_time_ms: stats.total_download_time_ms,
            last_success_time_millis: last,
        }
    }
}

} // verus!
