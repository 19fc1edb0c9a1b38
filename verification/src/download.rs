//! The decisions of the file download manager: download limits, per-bucket
//! locks, batching of missing chunks, checking a download response, retries,
//! and the outcome of a file or bucket download.

use vstd::prelude::*;
use crate::bytes::{h256_eq, H256};
use crate::keyed::KeyTable;
use crate::shuffle::{shuffle_vec, sort_u64};
use crate::download_state::{DownloadStateStore, FileMetadata, FileMetadataView, chunk_range};
use crate::peer_manager::{BspPeerManager, PeerView, vec_views};

verus! {

/// Default maximum number of files downloaded in parallel.
pub const MAX_CONCURRENT_FILE_DOWNLOADS: usize = 10;
/// Default maximum number of chunk requests in parallel per file.
pub const MAX_CONCURRENT_CHUNKS_PER_FILE: usize = 5;
/// Default maximum number of chunks in one request.
pub const MAX_CHUNKS_PER_REQUEST: usize = 10;
/// Default number of peers tried for each chunk batch.
pub const CHUNK_REQUEST_PEER_RETRY_ATTEMPTS: usize = 5;
/// Default number of retries per peer for one chunk request.
pub const DOWNLOAD_RETRY_ATTEMPTS: usize = 2;
/// Default number of best performing peers to select.
pub const BEST_PEERS_TO_SELECT: usize = 2;
/// Default number of random peers to select.
pub const RANDOM_PEERS_TO_SELECT: usize = 3;
/// Default maximum number of bucket downloads in parallel.
pub const MAX_CONCURRENT_BUCKET_DOWNLOADS: usize = 2;

/// Configuration for file download limits and parallelism settings.
#[derive(Clone, Copy)]
pub struct FileDownloadLimits {
    /// Maximum number of files to download in parallel
    pub max_concurrent_file_downloads: usize,
    /// Maximum number of chunks requests to do in parallel per file
    pub max_concurrent_chunks_per_file: usize,
    /// Maximum number of chunks to request in a single network request
    pub max_chunks_per_request: usize,
    /// Number of peers to select for each chunk download attempt
    pub chunk_request_peer_retry_attempts: usize,
    /// Number of retries per peer for a single chunk request
    pub download_retry_attempts: usize,
    /// Number of best performing peers to select
    pub best_peers_to_select: usize,
    /// Number of random peers to select
    pub random_peers_to_select: usize,
    /// Maximum number of bucket downloads to process in parallel
    pub max_concurrent_bucket_downloads: usize,
}

impl Default for FileDownloadLimits {
    fn default() -> (r: FileDownloadLimits)
        ensures
            r.max_concurrent_file_downloads == MAX_CONCURRENT_FILE_DOWNLOADS,
            r.max_concurrent_chunks_per_file == MAX_CONCURRENT_CHUNKS_PER_FILE,
            r.max_chunks_per_request == MAX_CHUNKS_PER_REQUEST,
            r.chunk_request_peer_retry_attempts == CHUNK_REQUEST_PEER_RETRY_ATTEMPTS,
            r.download_retry_attempts == DOWNLOAD_RETRY_ATTEMPTS,
            r.best_peers_to_select == BEST_PEERS_TO_SELECT,
            r.random_peers_to_select == RANDOM_PEERS_TO_SELECT,
            r.max_concurrent_bucket_downloads == MAX_CONCURRENT_BUCKET_DOWNLOADS,
    {
        FileDownloadLimits {
            max_concurrent_file_downloads: MAX_CONCURRENT_FILE_DOWNLOADS,
            max_concurrent_chunks_per_file: MAX_CONCURRENT_CHUNKS_PER_FILE,
            max_chunks_per_request: MAX_CHUNKS_PER_REQUEST,
            chunk_request_peer_retry_attempts: CHUNK_REQUEST_PEER_RETRY_ATTEMPTS,
            download_retry_attempts: DOWNLOAD_RETRY_ATTEMPTS,
            best_peers_to_select: BEST_PEERS_TO_SELECT,
            random_peers_to_select: RANDOM_PEERS_TO_SELECT,
            max_concurrent_bucket_downloads: MAX_CONCURRENT_BUCKET_DOWNLOADS,
        }
    }
}

/// A bucket lock with its active status.
pub struct BucketLockInfo {
    /// Whether the bucket is being downloaded
    pub is_downloading: bool,
}

impl BucketLockInfo {
    /// A lock of a bucket that is not being downloaded.
    pub fn new() -> (r: BucketLockInfo)
        ensures
            !r.is_downloading,
    {
        BucketLockInfo { is_downloading: false }
    }

    /// Sets whether the bucket is being downloaded.
    pub fn set_downloading(&mut self, is_downloading: bool)
        ensures
            final(self).is_downloading == is_downloading,
    {
        self.is_downloading = is_downloading;
    }
}

/// Errors of a bucket download.
pub enum BucketDownloadError {
    /// The bucket is already being downloaded by another task
    AlreadyBeingDownloaded(H256),
    /// Downloading the bucket failed; the message says why
    DownloadFailed(String),
}

/// The locks of the buckets being (or having been) downloaded.
pub struct BucketLocks {
    locks: KeyTable<BucketLockInfo>,
}

impl BucketLocks {
    /// Each bucket with a lock, and whether it is being downloaded.
    pub closed spec fn view(&self) -> Map<Seq<u8>, bool> {
        self.locks.view().map_values(|l: BucketLockInfo| l.is_downloading)
    }

    /// The locks are well formed.
    pub closed spec fn wf(&self) -> bool {
        self.locks.wf()
    }

    /// Whether `bucket` is being downloaded.
    pub open spec fn is_locked(&self, bucket: Seq<u8>) -> bool {
        self.view().contains_key(bucket) && self.view()[bucket]
    }

    /// No locks.
    pub fn new() -> (r: BucketLocks)
        ensures
            r.wf(),
            r.view().dom() == Set::<Seq<u8>>::empty(),
    {
        let r = BucketLocks { locks: KeyTable::new() };
        assert(r.view().dom() =~= Set::<Seq<u8>>::empty());
        r
    }

    /// Whether `bucket` is being downloaded.
    pub fn is_downloading(&self, bucket: &H256) -> (r: bool)
        requires
            self.wf(),
        ensures
            r == self.is_locked(bucket@),
    {
        match self.locks.get(bucket) {
            None => false,
            Some(l) => l.is_downloading,
        }
    }

    /// Takes the lock of `bucket`: refused when the bucket is already being
    /// downloaded, else the bucket is marked as downloading.
    pub fn try_lock(&mut self, bucket: H256) -> (r: Result<(), BucketDownloadError>)
        requires
            old(self).wf(),
        ensures
            final(self).wf(),
            old(self).is_locked(bucket@) ==> (r matches Err(BucketDownloadError::AlreadyBeingDownloaded(b))
                && b@ == bucket@ && final(self).view() == old(self).view()),
            !old(self).is_locked(bucket@) ==> r is Ok && final(self).view() == old(self).view().insert(bucket@, true),
    {
        if self.is_downloading(&bucket) {
            return Err(BucketDownloadError::AlreadyBeingDownloaded(bucket));
        }
        let mut info = BucketLockInfo::new();
        info.set_downloading(true);
        self.locks.insert(bucket, info);
        assert(self.view() =~= old(self).view().insert(bucket@, true));
        Ok(())
    }

    /// Marks `bucket` as no longer being downloaded, when it has a lock.
    pub fn mark_inactive(&mut self, bucket: &H256)
        requires
            old(self).wf(),
        ensures
            final(self).wf(),
            old(self).view().contains_key(bucket@) ==> final(self).view() == old(self).view().insert(bucket@, false),
            !old(self).view().contains_key(bucket@) ==> final(self).view() == old(self).view(),
    {
        if self.locks.get(bucket).is_some() {
            self.locks.insert(*bucket, BucketLockInfo::new());
            assert(self.view() =~= old(self).view().insert(bucket@, false));
        }
    }
}

/// `s` cut into consecutive batches of `m` items, the last one possibly shorter.
pub open spec fn batches_of(s: Seq<u64>, m: nat) -> Seq<Seq<u64>>
    decreases s.len(),
{
    if s.len() == 0 || m == 0 {
        Seq::empty()
    } else if s.len() <= m {
        seq![s]
    } else {
        seq![s.take(m as int)] + batches_of(s.skip(m as int), m)
    }
}

/// The views of a sequence of vectors.
pub open spec fn vecs_view(v: Seq<Vec<u64>>) -> Seq<Seq<u64>> {
    v.map_values(|x: Vec<u64>| x@)
}

/// `s` is in ascending order.
pub open spec fn is_sorted(s: Seq<u64>) -> bool {
    forall|i: int, j: int| 0 <= i <= j < s.len() ==> s[i] <= s[j]
}

/// Groups the missing chunks of a file into the batches that are requested
/// together: the chunk ids in ascending order, cut into batches of at most
/// `max_chunks_per_request`.
pub fn plan_chunk_batches(missing: Vec<u64>, max_chunks_per_request: usize) -> (r: Vec<Vec<u64>>)
    requires
        max_chunks_per_request > 0,
    ensures
        exists|sorted: Seq<u64>| {
            &&& sorted.to_multiset() == missing@.to_multiset()
            &&& is_sorted(sorted)
            &&& vecs_view(r@) == batches_of(sorted, max_chunks_per_request as nat)
        },
{
    let ghost m0 = missing@;
    let mut sorted = missing;
    sort_u64(&mut sorted);
    let ghost s = sorted@;
    let n = sorted.len();
    let m = max_chunks_per_request;
    let mut r: Vec<Vec<u64>> = Vec::new();
    let mut pos: usize = 0;
    proof { assert(s.skip(0) =~= s); }
    while pos < n
        invariant
            s == sorted@,
            n == s.len(),
            m > 0,
            pos <= n,
            batches_of(s, m as nat) == vecs_view(r@) + batches_of(s.skip(pos as int), m as nat),
        decreases n - pos,
    {
        let end: usize = if n - pos <= m { n } else { pos + m };
        let mut batch: Vec<u64> = Vec::new();
        let mut k: usize = pos;
        while k < end
            invariant
                s == sorted@,
                pos <= k <= end,
                end <= n,
                n == s.len(),
                batch@ == s.subrange(pos as int, k as int),
            decreases end - k,
        {
            batch.push(sorted[k]);
            proof { assert(s.subrange(pos as int, k + 1) =~= s.subrange(pos as int, k as int).push(s[k as int])); }
            k = k + 1;
        }
        proof {
            let rest = s.skip(pos as int);
            assert(rest.len() > 0);
            if n - pos <= m {
                assert(batch@ =~= rest);
                assert(batches_of(rest, m as nat) == seq![rest]);
                assert(s.skip(end as int) =~= Seq::<u64>::empty());
                assert(batches_of(s.skip(end as int), m as nat) =~= Seq::<Seq<u64>>::empty());
            } else {
                assert(batch@ =~= rest.take(m as int));
                assert(rest.skip(m as int) =~= s.skip(end as int));
            }
        }
        let ghost prev = r@;
        r.push(batch);
        proof {
            assert(vecs_view(r@) =~= vecs_view(prev).push(batch@));
            assert(vecs_view(r@) + batches_of(s.skip(end as int), m as nat)
                =~= vecs_view(prev) + (seq![batch@] + batches_of(s.skip(end as int), m as nat)));
        }
        pos = end;
    }
    proof {
        assert(s.skip(pos as int) =~= Seq::<u64>::empty());
        assert(vecs_view(r@) + Seq::<Seq<u64>>::empty() =~= vecs_view(r@));
        assert(s.to_multiset() == m0.to_multiset());
        assert(is_sorted(s));
        assert(vecs_view(r@) == batches_of(s, max_chunks_per_request as nat));
    }
    r
}

/// A chunk received in a download response: its id, its size, whether the
/// proof gives it by its exact key, and whether its size is the one the
/// file's metadata expects for that chunk.
pub struct ReceivedChunk {
    pub chunk_id: u64,
    pub len: usize,
    pub is_exact: bool,
    pub size_ok: bool,
}

/// Why a download response is refused.
pub enum ChunkResponseError {
    /// The response holds no chunk
    EmptyResponse,
    /// A chunk's size is not the expected one
    InvalidChunkSize { chunk_id: u64, len: usize },
    /// The response's file key proof does not decode
    UndecodableProof,
    /// The proof is for a file of another fingerprint
    FingerprintMismatch { expected: H256, got: H256 },
    /// The proven chunks cannot be extracted from the proof
    UnprovenChunks,
}

/// What the file key proof of a download response gave.
pub enum DownloadProof {
    /// The proof does not decode
    Undecodable,
    /// The proof decodes: the fingerprint of the file it proves, and its
    /// proven chunks when they can be extracted
    Decoded { fingerprint: H256, chunks: Option<Vec<ReceivedChunk>> },
}

/// What to do with a download response: the requested chunks to write, in
/// order, the bytes received until the response was refused or ended, and
/// the refusal if any (the chunks before it are written).
pub struct ChunkResponsePlan {
    pub writes: Vec<u64>,
    pub total_bytes: usize,
    pub error: Option<ChunkResponseError>,
}

/// Processes the chunks one by one: chunks not given by exact key are
/// skipped, a chunk of unexpected size stops the processing, every other
/// chunk counts its bytes, and is written when it was requested. Gives the
/// chunks to write, the bytes counted, and the index of the chunk that
/// stopped the processing.
pub open spec fn spec_process_chunks(rs: Seq<ReceivedChunk>, requested: Set<u64>) -> (Seq<u64>, int, Option<int>)
    decreases rs.len(),
{
    if rs.len() == 0 {
        (Seq::empty(), 0, None)
    } else {
        let prev = spec_process_chunks(rs.drop_last(), requested);
        let c = rs.last();
        if prev.2 is Some || !c.is_exact {
            prev
        } else if !c.size_ok {
            (prev.0, prev.1, Some(rs.len() - 1))
        } else if requested.contains(c.chunk_id) {
            (prev.0.push(c.chunk_id), prev.1 + c.len, None)
        } else {
            (prev.0, prev.1 + c.len, None)
        }
    }
}

proof fn lemma_process_bytes_monotone(rs: Seq<ReceivedChunk>, requested: Set<u64>, k: int)
    requires
        0 <= k <= rs.len(),
    ensures
        0 <= spec_process_chunks(rs.take(k), requested).1 <= spec_process_chunks(rs, requested).1,
    decreases rs.len(),
{
    if rs.len() == 0 {
        assert(rs.take(k) =~= rs);
    } else if k == rs.len() {
        assert(rs.take(k) =~= rs);
        lemma_process_bytes_monotone(rs.drop_last(), requested, rs.len() - 1);
        assert(rs.drop_last().take(rs.len() - 1) =~= rs.drop_last());
    } else {
        lemma_process_bytes_monotone(rs.drop_last(), requested, k);
        assert(rs.drop_last().take(k) =~= rs.take(k));
        lemma_process_bytes_monotone(rs.drop_last(), requested, rs.len() - 1);
        assert(rs.drop_last().take(rs.len() - 1) =~= rs.drop_last());
    }
}

/// `r` is the plan for the chunks `received` in answer to a request for
/// `requested`: an empty response is refused with nothing written; else the
/// chunks are processed one by one.
pub open spec fn is_response_plan(r: ChunkResponsePlan, received: Seq<ReceivedChunk>, requested: Set<u64>) -> bool {
    &&& received.len() == 0 ==> (r.writes@.len() == 0 && r.total_bytes == 0 && r.error matches Some(ChunkResponseError::EmptyResponse))
    &&& received.len() > 0 ==> {
        let p = spec_process_chunks(received, requested);
        &&& r.writes@ == p.0
        &&& r.total_bytes == p.1
        &&& (p.2 is None ==> r.error is None)
        &&& (p.2 matches Some(i) ==> (r.error matches Some(ChunkResponseError::InvalidChunkSize { chunk_id, len })
            && chunk_id == received[i].chunk_id && len == received[i].len))
    }
}

/// Checks the chunks of a download response against the requested batch.
pub fn process_chunk_response(received: &Vec<ReceivedChunk>, requested: &Vec<u64>) -> (r: ChunkResponsePlan)
    requires
        spec_process_chunks(received@, requested@.to_set()).1 <= usize::MAX,
    ensures
        is_response_plan(r, received@, requested@.to_set()),
        received@.len() == 0 ==> (r.writes@.len() == 0 && r.total_bytes == 0 && r.error matches Some(ChunkResponseError::EmptyResponse)),
        received@.len() > 0 ==> {
            let p = spec_process_chunks(received@, requested@.to_set());
            &&& r.writes@ == p.0
            &&& r.total_bytes == p.1
            &&& (p.2 is None ==> r.error is None)
            &&& (p.2 matches Some(i) ==> (r.error matches Some(ChunkResponseError::InvalidChunkSize { chunk_id, len })
                && chunk_id == received@[i].chunk_id && len == received@[i].len))
        },
{
    if received.len() == 0 {
        return ChunkResponsePlan { writes: Vec::new(), total_bytes: 0, error: Some(ChunkResponseError::EmptyResponse) };
    }
    let ghost req = requested@.to_set();
    let mut writes: Vec<u64> = Vec::new();
    let mut total: usize = 0;
    let mut i: usize = 0;
    while i < received.len()
        invariant
            i <= received@.len(),
            req == requested@.to_set(),
            spec_process_chunks(received@, req).1 <= usize::MAX,
            spec_process_chunks(received@.take(i as int), req) == (writes@, total as int, None::<int>),
        decreases received@.len() - i,
    {
        let c = &received[i];
        proof {
            assert(received@.take(i + 1).drop_last() =~= received@.take(i as int));
            assert(received@.take(i + 1).last() == received@[i as int]);
        }
        if c.is_exact {
            if !c.size_ok {
                let e = ChunkResponseError::InvalidChunkSize { chunk_id: c.chunk_id, len: c.len };
                proof { lemma_process_stops(received@, req, i as int); }
                return ChunkResponsePlan { writes, total_bytes: total, error: Some(e) };
            }
            proof {
                lemma_process_bytes_monotone(received@, req, i + 1);
            }
            total = total + c.len;
            let mut found = false;
            let mut j: usize = 0;
            while j < requested.len()
                invariant
                    j <= requested@.len(),
                    found == requested@.take(j as int).contains(c.chunk_id),
                decreases requested@.len() - j,
            {
                proof { assert(requested@.take(j + 1) =~= requested@.take(j as int).push(requested@[j as int])); }
                if requested[j] == c.chunk_id {
                    found = true;
                }
                proof {
                    let t1 = requested@.take(j + 1);
                    let t0 = requested@.take(j as int);
                    if requested@[j as int] == c.chunk_id {
                        assert(t1[j as int] == c.chunk_id);
                    }
                    if t1.contains(c.chunk_id) && requested@[j as int] != c.chunk_id {
                        let w = choose|w: int| 0 <= w < t1.len() && t1[w] == c.chunk_id;
                        assert(t0[w] == c.chunk_id);
                    }
                    if t0.contains(c.chunk_id) {
                        let w = choose|w: int| 0 <= w < t0.len() && t0[w] == c.chunk_id;
                        assert(t1[w] == c.chunk_id);
                    }
                }
                j = j + 1;
            }
            proof { assert(requested@.take(j as int) =~= requested@); }
            if found {
                writes.push(c.chunk_id);
            }
        }
        i = i + 1;
    }
    proof { assert(received@.take(i as int) =~= received@); }
    ChunkResponsePlan { writes, total_bytes: total, error: None }
}

/// Checks a download response: its proof must decode, prove the file of
/// `expected_fingerprint` and yield its proven chunks, else the response is
/// refused with nothing written and no byte counted; then its chunks are
/// checked against the requested batch.
pub fn process_download_response(key_proof: &DownloadProof, expected_fingerprint: &H256, requested: &Vec<u64>) -> (r: ChunkResponsePlan)
    requires
        key_proof matches DownloadProof::Decoded { fingerprint, chunks: Some(cs) }
            ==> (fingerprint@ == expected_fingerprint@ ==> spec_process_chunks(cs@, requested@.to_set()).1 <= usize::MAX),
    ensures
        *key_proof is Undecodable ==> (r.writes@.len() == 0 && r.total_bytes == 0
            && (r.error matches Some(ChunkResponseError::UndecodableProof))),
        key_proof matches DownloadProof::Decoded { fingerprint, chunks: _ }
            ==> (fingerprint@ != expected_fingerprint@ ==> (r.writes@.len() == 0 && r.total_bytes == 0
                && (r.error matches Some(ChunkResponseError::FingerprintMismatch { expected, got })
                && expected == *expected_fingerprint && got == fingerprint))),
        key_proof matches DownloadProof::Decoded { fingerprint, chunks: None }
            ==> (fingerprint@ == expected_fingerprint@ ==> (r.writes@.len() == 0 && r.total_bytes == 0
                && (r.error matches Some(ChunkResponseError::UnprovenChunks)))),
        key_proof matches DownloadProof::Decoded { fingerprint, chunks: Some(cs) }
            ==> (fingerprint@ == expected_fingerprint@ ==> is_response_plan(r, cs@, requested@.to_set())),
{
    match key_proof {
        DownloadProof::Undecodable => {
            ChunkResponsePlan { writes: Vec::new(), total_bytes: 0, error: Some(ChunkResponseError::UndecodableProof) }
        },
        DownloadProof::Decoded { fingerprint, chunks } => {
            if !h256_eq(fingerprint, expected_fingerprint) {
                let e = ChunkResponseError::FingerprintMismatch { expected: *expected_fingerprint, got: *fingerprint };
                ChunkResponsePlan { writes: Vec::new(), total_bytes: 0, error: Some(e) }
            } else {
                match chunks {
                    None => ChunkResponsePlan { writes: Vec::new(), total_bytes: 0, error: Some(ChunkResponseError::UnprovenChunks) },
                    Some(cs) => process_chunk_response(cs, requested),
                }
            }
        },
    }
}

pub(crate) proof fn lemma_process_stops(rs: Seq<ReceivedChunk>, requested: Set<u64>, i: int)
    requires
        0 <= i < rs.len(),
        spec_process_chunks(rs.take(i), requested).2 is None,
        rs[i].is_exact,
        !rs[i].size_ok,
    ensures
        spec_process_chunks(rs, requested) == (spec_process_chunks(rs.take(i), requested).0,
            spec_process_chunks(rs.take(i), requested).1, Some(i)),
    decreases rs.len(),
{
    if i == rs.len() - 1 {
        assert(rs.drop_last() =~= rs.take(i));
    } else {
        assert(rs.drop_last().take(i) =~= rs.take(i));
        lemma_process_stops(rs.drop_last(), requested, i);
    }
}

/// What to do after an attempt to request a chunk batch from a peer.
pub enum AttemptAction {
    /// The peer answered: process its response
    Process,
    /// The request failed: wait and try again
    Retry,
    /// The request failed on the last attempt: record a failure of the peer and give up
    GiveUp,
}

/// The next step after attempt `attempt` (counted from 0) of a request, of
/// `retry_attempts + 1` attempts in all.
pub fn download_attempt_action(attempt: usize, retry_attempts: usize, request_ok: bool) -> (r: AttemptAction)
    requires
        attempt <= retry_attempts,
    ensures
        request_ok ==> r is Process,
        !request_ok && attempt == retry_attempts ==> r is GiveUp,
        !request_ok && attempt < retry_attempts ==> r is Retry,
{
    if request_ok {
        AttemptAction::Process
    } else if attempt == retry_attempts {
        AttemptAction::GiveUp
    } else {
        AttemptAction::Retry
    }
}

/// The outcome of a file download once all its chunk batches are done: it
/// failed if and only if some batch failed and chunks are still missing.
pub fn file_download_succeeded(failed_batches: usize, is_complete: bool) -> (r: bool)
    ensures
        r == (failed_batches == 0 || is_complete),
{
    failed_batches == 0 || is_complete
}

/// A peer asking a BSP for a file's chunks may name the bucket it expects;
/// the request is served only when the file is in that bucket (or no bucket
/// is named).
pub fn serves_download_request(requested_bucket: &Option<H256>, file_bucket: &Vec<u8>) -> (r: bool)
    ensures
        r == (match requested_bucket {
            None => true,
            Some(b) => b@ == file_bucket@,
        }),
{
    match requested_bucket {
        None => true,
        Some(b) => crate::bytes::bytes_eq(b.as_slice(), file_bucket.as_slice()),
    }
}

/// What to do with a bucket whose download was interrupted.
#[derive(PartialEq, Eq, Structural)]
pub enum ResumeAction {
    /// Nothing is missing any more: mark the bucket's download completed
    MarkCompleted,
    /// Download the bucket's files again
    Resume,
}

/// A pending bucket download with no missing file is completed; one with
/// missing files is resumed.
pub fn resume_action(missing_files: usize) -> (r: ResumeAction)
    ensures
        missing_files == 0 ==> r == ResumeAction::MarkCompleted,
        missing_files > 0 ==> r == ResumeAction::Resume,
{
    if missing_files == 0 { ResumeAction::MarkCompleted } else { ResumeAction::Resume }
}

/// The missing chunks of `file_key` in a view of the missing chunks map.
pub open spec fn missing_of(missing: Map<Seq<u8>, Set<u64>>, file_key: Seq<u8>) -> Set<u64> {
    if missing.contains_key(file_key) { missing[file_key] } else { Set::empty() }
}

/// Manages file downloads: the state of each download, the peers to
/// download from, and which buckets are being downloaded.
pub struct FileDownloadManager {
    limits: FileDownloadLimits,
    bucket_locks: BucketLocks,
    peer_manager: BspPeerManager,
    download_state_store: DownloadStateStore,
}

impl FileDownloadManager {
    /// The parts of the manager are well formed.
    pub closed spec fn wf(&self) -> bool {
        &&& self.bucket_locks.wf()
        &&& self.peer_manager.wf()
        &&& self.download_state_store.wf()
    }

    /// The download limits.
    pub closed spec fn limits_view(&self) -> FileDownloadLimits {
        self.limits
    }

    /// The download limits.
    pub fn limits(&self) -> (r: FileDownloadLimits)
        ensures
            r == self.limits_view(),
    {
        self.limits
    }

    /// The bucket locks.
    pub closed spec fn locks_view(&self) -> Map<Seq<u8>, bool> {
        self.bucket_locks.view()
    }

    /// The known peers.
    pub closed spec fn peers_view(&self) -> Map<Seq<u8>, PeerView> {
        self.peer_manager.view()
    }

    /// The peer manager.
    pub closed spec fn peer_manager_view(&self) -> BspPeerManager {
        self.peer_manager
    }

    /// The missing chunks of each file being downloaded.
    pub closed spec fn missing_view(&self) -> Map<Seq<u8>, Set<u64>> {
        self.download_state_store.missing_view()
    }

    /// The download state of the files and buckets.
    pub fn download_state_store(&self) -> (r: &DownloadStateStore)
        requires
            self.wf(),
        ensures
            r.wf(),
            r.missing_view() == self.missing_view(),
            r.metadata_view() == self.metadata_view(),
            r.pending_view() == self.pending_view(),
    {
        &self.download_state_store
    }

    /// The metadata of each file being downloaded.
    pub closed spec fn metadata_view(&self) -> Map<Seq<u8>, FileMetadataView> {
        self.download_state_store.metadata_view()
    }

    /// The buckets whose download is in progress.
    pub closed spec fn pending_view(&self) -> Set<Seq<u8>> {
        self.download_state_store.pending_view()
    }

    /// A manager with the given limits, peers and an empty download state.
    pub fn with_limits(limits: FileDownloadLimits, peer_manager: BspPeerManager) -> (r: FileDownloadManager)
        requires
            peer_manager.wf(),
        ensures
            r.wf(),
            r.limits_view() == limits,
            r.peer_manager_view() == peer_manager,
            r.locks_view().dom() == Set::<Seq<u8>>::empty(),
            r.missing_view().dom() == Set::<Seq<u8>>::empty(),
            r.metadata_view().dom() == Set::<Seq<u8>>::empty(),
            r.pending_view() == Set::<Seq<u8>>::empty(),
    {
        FileDownloadManager {
            limits,
            bucket_locks: BucketLocks::new(),
            peer_manager,
            download_state_store: DownloadStateStore::new(),
        }
    }

    /// A manager with the default limits.
    pub fn new(peer_manager: BspPeerManager) -> (r: FileDownloadManager)
        requires
            peer_manager.wf(),
        ensures
            r.wf(),
            r.limits_view().max_chunks_per_request == MAX_CHUNKS_PER_REQUEST,
            r.limits_view().best_peers_to_select == BEST_PEERS_TO_SELECT,
            r.limits_view().random_peers_to_select == RANDOM_PEERS_TO_SELECT,
            r.limits_view().download_retry_attempts == DOWNLOAD_RETRY_ATTEMPTS,
            r.limits_view().max_concurrent_file_downloads == MAX_CONCURRENT_FILE_DOWNLOADS,
            r.limits_view().max_concurrent_chunks_per_file == MAX_CONCURRENT_CHUNKS_PER_FILE,
            r.limits_view().chunk_request_peer_retry_attempts == CHUNK_REQUEST_PEER_RETRY_ATTEMPTS,
            r.limits_view().max_concurrent_bucket_downloads == MAX_CONCURRENT_BUCKET_DOWNLOADS,
            r.peer_manager_view() == peer_manager,
            r.locks_view().dom() == Set::<Seq<u8>>::empty(),
            r.missing_view().dom() == Set::<Seq<u8>>::empty(),
            r.metadata_view().dom() == Set::<Seq<u8>>::empty(),
            r.pending_view() == Set::<Seq<u8>>::empty(),
    {
        Self::with_limits(FileDownloadLimits::default(), peer_manager)
    }

    /// Starts (or resumes) the download of a file of `chunks_count` chunks:
    /// a new download stores the metadata and marks every chunk missing, a
    /// resumed one keeps its state. Returns the missing chunks in batches of
    /// at most `max_chunks_per_request`, in ascending order.
    pub fn start_file_download(&mut self, file_key: H256, chunks_count: u64, metadata: FileMetadata) -> (r: Vec<Vec<u64>>)
        requires
            old(self).wf(),
            old(self).limits_view().max_chunks_per_request > 0,
        ensures
            final(self).wf(),
            final(self).limits_view() == old(self).limits_view(),
            final(self).locks_view() == old(self).locks_view(),
            final(self).peer_manager_view() == old(self).peer_manager_view(),
            final(self).pending_view() == old(self).pending_view(),
            old(self).metadata_view().contains_key(file_key@) ==> final(self).missing_view() == old(self).missing_view()
                && final(self).metadata_view() == old(self).metadata_view(),
            !old(self).metadata_view().contains_key(file_key@) ==> {
                &&& final(self).metadata_view() == old(self).metadata_view().insert(file_key@, metadata.view())
                &&& chunks_count > 0 ==> final(self).missing_view() == old(self).missing_view().insert(file_key@, chunk_range(chunks_count))
                &&& chunks_count == 0 ==> final(self).missing_view() == old(self).missing_view().remove(file_key@)
            },
            exists|sorted: Seq<u64>| {
                &&& sorted.no_duplicates()
                &&& sorted.to_set() == missing_of(final(self).missing_view(), file_key@)
                &&& is_sorted(sorted)
                &&& vecs_view(r@) == batches_of(sorted, final(self).limits_view().max_chunks_per_request as nat)
            },
    {
        let existing = self.download_state_store.get_file_metadata(&file_key);
        if existing.is_none() {
            self.download_state_store.store_file_metadata(file_key, metadata);
            self.download_state_store.initialize_file(file_key, chunks_count);
        }
        let missing = self.download_state_store.get_missing_chunks(&file_key);
        let ghost mv = missing@;
        let r = plan_chunk_batches(missing, self.limits.max_chunks_per_request);
        proof {
            let sorted = choose|sorted: Seq<u64>| {
                &&& sorted.to_multiset() == mv.to_multiset()
                &&& is_sorted(sorted)
                &&& vecs_view(r@) == batches_of(sorted, self.limits.max_chunks_per_request as nat)
            };
            mv.lemma_multiset_has_no_duplicates();
            assert forall|x: u64| sorted.to_multiset().contains(x) implies sorted.to_multiset().count(x) == 1 by {}
            sorted.lemma_multiset_has_no_duplicates_conv();
            assert forall|x: u64| sorted.contains(x) <==> mv.contains(x) by {
                sorted.to_multiset_ensures();
                mv.to_multiset_ensures();
                assert(sorted.contains(x) <==> sorted.to_multiset().count(x) > 0);
                assert(mv.contains(x) <==> mv.to_multiset().count(x) > 0);
            }
            assert(sorted.to_set() =~= missing_of(self.missing_view(), file_key@)) by {
                if !self.missing_view().contains_key(file_key@) {
                    assert forall|x: u64| !sorted.contains(x) by {}
                }
            }
        }
        r
    }

    /// Marks a chunk of `file_key` as downloaded. Returns whether it was missing.
    pub fn mark_chunk_downloaded(&mut self, file_key: &H256, chunk_id: u64) -> (r: bool)
        requires
            old(self).wf(),
        ensures
            final(self).wf(),
            final(self).limits_view() == old(self).limits_view(),
            final(self).locks_view() == old(self).locks_view(),
            final(self).peer_manager_view() == old(self).peer_manager_view(),
            final(self).pending_view() == old(self).pending_view(),
            final(self).metadata_view() == old(self).metadata_view(),
            r == missing_of(old(self).missing_view(), file_key@).contains(chunk_id),
            missing_of(final(self).missing_view(), file_key@) == missing_of(old(self).missing_view(), file_key@).remove(chunk_id),
            forall|k: Seq<u8>| k != file_key@ ==> missing_of(#[trigger] final(self).missing_view(), k) == missing_of(old(self).missing_view(), k),
    {
        let r = self.download_state_store.mark_chunk_downloaded(file_key, chunk_id);
        proof {
            let om = old(self).missing_view();
            let nm = self.missing_view();
            if !r {
                if om.contains_key(file_key@) {
                    assert(om[file_key@].remove(chunk_id) =~= om[file_key@]);
                } else {
                    assert(Set::<u64>::empty().remove(chunk_id) =~= Set::<u64>::empty());
                }
            } else if om[file_key@] == set![chunk_id] {
                assert(om[file_key@].remove(chunk_id) =~= Set::<u64>::empty());
            }
        }
        r
    }

    /// Ends the download of a file once all its batches are done: when no
    /// chunk is missing, its metadata is deleted. Returns whether the
    /// download succeeded: no batch failed, or no chunk is missing.
    pub fn finish_file_download(&mut self, file_key: &H256, failed_batches: usize) -> (r: bool)
        requires
            old(self).wf(),
        ensures
            final(self).wf(),
            final(self).limits_view() == old(self).limits_view(),
            final(self).locks_view() == old(self).locks_view(),
            final(self).peer_manager_view() == old(self).peer_manager_view(),
            final(self).pending_view() == old(self).pending_view(),
            final(self).missing_view() == old(self).missing_view(),
            !old(self).missing_view().contains_key(file_key@) ==> final(self).metadata_view() == old(self).metadata_view().remove(file_key@),
            old(self).missing_view().contains_key(file_key@) ==> final(self).metadata_view() == old(self).metadata_view(),
            r == (failed_batches == 0 || !old(self).missing_view().contains_key(file_key@)),
    {
        let is_complete = self.download_state_store.is_file_complete(file_key);
        if is_complete {
            self.download_state_store.delete_file_metadata(file_key);
        }
        file_download_succeeded(failed_batches, is_complete)
    }

    /// The peers to try for a chunk batch of `file_key`: the configured
    /// numbers of best and random peers, in an order chosen at random.
    pub fn select_peers_for_batch(&self, file_key: &H256) -> (r: Vec<Vec<u8>>)
        requires
            self.wf(),
        ensures
            exists|sel: Seq<Vec<u8>>| {
                &&& self.peer_manager_view().is_selection(vec_views(sel), self.limits_view().best_peers_to_select as int,
                    self.limits_view().random_peers_to_select as int, file_key@)
                &&& r@.to_multiset() == sel.to_multiset()
            },
    {
        let mut peers = self.peer_manager.select_peers(
            self.limits.best_peers_to_select,
            self.limits.random_peers_to_select,
            file_key,
        );
        let ghost before = peers@;
        shuffle_vec(&mut peers);
        peers
    }

    /// Registers `peer_id` as a provider of `file_key`.
    pub fn add_peer(&mut self, peer_id: &[u8], file_key: H256) -> (r: bool)
        requires
            old(self).wf(),
            old(self).peer_manager_view().num_peers() < u64::MAX,
        ensures
            final(self).wf(),
            final(self).limits_view() == old(self).limits_view(),
            final(self).locks_view() == old(self).locks_view(),
            final(self).pending_view() == old(self).pending_view(),
            final(self).missing_view() == old(self).missing_view(),
            final(self).metadata_view() == old(self).metadata_view(),
            r == !(old(self).peers_view().contains_key(peer_id@)
                && old(self).peers_view()[peer_id@].file_keys.contains(file_key@)),
            final(self).peers_view() == old(self).peers_view().insert(
                peer_id@,
                if old(self).peers_view().contains_key(peer_id@) {
                    PeerView {
                        file_keys: old(self).peers_view()[peer_id@].file_keys.insert(file_key@),
                        ..old(self).peers_view()[peer_id@]
                    }
                } else {
                    PeerView { file_keys: Set::empty().insert(file_key@), ..BspPeerManager::fresh_view() }
                },
            ),
            final(self).peer_manager_view().num_peers() == old(self).peer_manager_view().num_peers()
                + if old(self).peers_view().contains_key(peer_id@) { 0nat } else { 1nat },
    {
        self.peer_manager.add_peer(peer_id, file_key)
    }

    /// Records a successful download from `peer_id`.
    pub fn record_success(&mut self, peer_id: &[u8], bytes_downloaded: u64, download_time_ms: u64, now_ms: u64) -> (r: bool)
        requires
            old(self).wf(),
            old(self).peers_view().contains_key(peer_id@) ==> {
                &&& old(self).peers_view()[peer_id@].successful_downloads < u64::MAX
                &&& old(self).peers_view()[peer_id@].total_bytes_downloaded + bytes_downloaded <= u64::MAX
                &&& old(self).peers_view()[peer_id@].total_download_time_ms + download_time_ms <= u64::MAX
            },
        ensures
            final(self).wf(),
            final(self).limits_view() == old(self).limits_view(),
            final(self).locks_view() == old(self).locks_view(),
            final(self).pending_view() == old(self).pending_view(),
            final(self).missing_view() == old(self).missing_view(),
            final(self).metadata_view() == old(self).metadata_view(),
            r == old(self).peers_view().contains_key(peer_id@),
            final(self).peers_view() == if r {
                old(self).peers_view().insert(peer_id@, PeerView {
                    successful_downloads: (old(self).peers_view()[peer_id@].successful_downloads + 1) as u64,
                    total_bytes_downloaded: (old(self).peers_view()[peer_id@].total_bytes_downloaded + bytes_downloaded) as u64,
                    total_download_time_ms: (old(self).peers_view()[peer_id@].total_download_time_ms + download_time_ms) as u64,
                    last_success_time: Some(now_ms),
                    ..old(self).peers_view()[peer_id@]
                })
            } else {
                old(self).peers_view()
            },
            final(self).peer_manager_view().num_peers() == old(self).peer_manager_view().num_peers(),
    {
        self.peer_manager.record_success(peer_id, bytes_downloaded, download_time_ms, now_ms)
    }

    /// Records a failed download attempt from `peer_id`.
    pub fn record_failure(&mut self, peer_id: &[u8]) -> (r: bool)
        requires
            old(self).wf(),
            old(self).peers_view().contains_key(peer_id@) ==> old(self).peers_view()[peer_id@].failed_downloads < u64::MAX,
        ensures
            final(self).wf(),
            final(self).limits_view() == old(self).limits_view(),
            final(self).locks_view() == old(self).locks_view(),
            final(self).pending_view() == old(self).pending_view(),
            final(self).missing_view() == old(self).missing_view(),
            final(self).metadata_view() == old(self).metadata_view(),
            r == old(self).peers_view().contains_key(peer_id@),
            final(self).peers_view() == if r {
                old(self).peers_view().insert(peer_id@, PeerView {
                    failed_downloads: (old(self).peers_view()[peer_id@].failed_downloads + 1) as u64,
                    ..old(self).peers_view()[peer_id@]
                })
            } else {
                old(self).peers_view()
            },
            final(self).peer_manager_view().num_peers() == old(self).peer_manager_view().num_peers(),
    {
        self.peer_manager.record_failure(peer_id)
    }

    /// Records that the download of `bucket_id` has started.
    pub fn mark_bucket_download_started(&mut self, bucket_id: H256)
        requires
            old(self).wf(),
        ensures
            final(self).wf(),
            final(self).limits_view() == old(self).limits_view(),
            final(self).pending_view() == old(self).pending_view().insert(bucket_id@),
            final(self).locks_view() == old(self).locks_view(),
            final(self).peer_manager_view() == old(self).peer_manager_view(),
            final(self).missing_view() == old(self).missing_view(),
            final(self).metadata_view() == old(self).metadata_view(),
    {
        self.download_state_store.mark_bucket_download_started(bucket_id);
    }

    /// Whether the download of `bucket_id` is in progress.
    pub fn is_bucket_download_in_progress(&self, bucket_id: &H256) -> (r: bool)
        ensures
            r == self.pending_view().contains(bucket_id@),
    {
        self.download_state_store.is_bucket_download_in_progress(bucket_id)
    }

    /// Locks `bucket_id` for download and records that its download has
    /// started (unless it is being resumed). Refused, with no change, when
    /// the bucket is already being downloaded. On success, returns whether
    /// the download is resumed.
    pub fn begin_bucket_download(&mut self, bucket_id: H256) -> (r: Result<bool, BucketDownloadError>)
        requires
            old(self).wf(),
        ensures
            final(self).wf(),
            final(self).limits_view() == old(self).limits_view(),
            final(self).peer_manager_view() == old(self).peer_manager_view(),
            final(self).missing_view() == old(self).missing_view(),
            final(self).metadata_view() == old(self).metadata_view(),
            old(self).locks_view().contains_key(bucket_id@) && old(self).locks_view()[bucket_id@] ==> {
                &&& r matches Err(BucketDownloadError::AlreadyBeingDownloaded(b)) && b@ == bucket_id@
                &&& final(self).locks_view() == old(self).locks_view()
                &&& final(self).pending_view() == old(self).pending_view()
            },
            !(old(self).locks_view().contains_key(bucket_id@) && old(self).locks_view()[bucket_id@]) ==> {
                &&& r == Ok::<bool, BucketDownloadError>(old(self).pending_view().contains(bucket_id@))
                &&& final(self).locks_view() == old(self).locks_view().insert(bucket_id@, true)
                &&& final(self).pending_view() == old(self).pending_view().insert(bucket_id@)
            },
    {
        match self.bucket_locks.try_lock(bucket_id) {
            Err(e) => Err(e),
            Ok(()) => {
                let resumed = self.download_state_store.is_bucket_download_in_progress(&bucket_id);
                if !resumed {
                    self.download_state_store.mark_bucket_download_started(bucket_id);
                } else {
                    assert(self.pending_view().insert(bucket_id@) =~= self.pending_view());
                }
                Ok(resumed)
            },
        }
    }

    /// Ends the download of `bucket_id`: the bucket is no longer locked as
    /// downloading and, when every file downloaded, its download is recorded
    /// as completed; otherwise the download failed with `message`.
    pub fn finish_bucket_download(&mut self, bucket_id: &H256, all_files_downloaded: bool, message: String) -> (r: Result<(), BucketDownloadError>)
        requires
            old(self).wf(),
        ensures
            final(self).wf(),
            final(self).limits_view() == old(self).limits_view(),
            final(self).peer_manager_view() == old(self).peer_manager_view(),
            final(self).missing_view() == old(self).missing_view(),
            final(self).metadata_view() == old(self).metadata_view(),
            old(self).locks_view().contains_key(bucket_id@) ==> final(self).locks_view() == old(self).locks_view().insert(bucket_id@, false),
            !old(self).locks_view().contains_key(bucket_id@) ==> final(self).locks_view() == old(self).locks_view(),
            all_files_downloaded ==> r is Ok && final(self).pending_view() == old(self).pending_view().remove(bucket_id@),
            !all_files_downloaded ==> (r matches Err(BucketDownloadError::DownloadFailed(m)) && m@ == message@)
                && final(self).pending_view() == old(self).pending_view(),
    {
        self.bucket_locks.mark_inactive(bucket_id);
        if all_files_downloaded {
            self.download_state_store.mark_bucket_download_completed(bucket_id);
            Ok(())
        } else {
            Err(BucketDownloadError::DownloadFailed(message))
        }
    }
}

} // verus!
