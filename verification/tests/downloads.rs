use storagehub_client::download::{
    download_attempt_action, file_download_succeeded, plan_chunk_batches, process_chunk_response,
    resume_action, AttemptAction, BucketDownloadError, BucketLockInfo, BucketLocks,
    ChunkResponseError, DownloadProof, FileDownloadLimits, FileDownloadManager, ReceivedChunk,
    ResumeAction, process_download_response,
};
use storagehub_client::download_state::{
    download_state_column_families, DownloadStateStore, FileMetadata, FileMetadataCf,
    FileMetadataName, MissingChunksCf, MissingChunksCompositeCf, MissingChunksCompositeName,
    MissingChunksMap, MissingChunksName, PendingBucketDownloadsName,
};
use storagehub_client::peer_manager::BspPeerManager;

fn sorted(mut v: Vec<u64>) -> Vec<u64> {
    v.sort();
    v
}

fn metadata(size: u64) -> FileMetadata {
    FileMetadata {
        owner: b"alice".to_vec(),
        bucket_id: vec![5u8; 32],
        location: b"/data/file".to_vec(),
        file_size: size,
        fingerprint: [6u8; 32],
    }
}

#[test]
fn download_state_column_family_names() {
    assert_eq!(MissingChunksName::name(), "missing_chunks");
    assert_eq!(MissingChunksCf::name(), "missing_chunks");
    assert_eq!(MissingChunksCompositeCf::name(), "missing_chunks");
    assert_eq!(MissingChunksCompositeName::name(), "missing_chunks");
    assert_eq!(FileMetadataCf::name(), "file_metadata");
    assert_eq!(FileMetadataName::name(), "file_metadata");
    assert_eq!(PendingBucketDownloadsName::name(), "pending_bucket_downloads");
    assert_eq!(
        download_state_column_families(),
        vec!["missing_chunks", "file_metadata", "pending_bucket_downloads"]
    );
}

#[test]
fn downloading_every_chunk_completes_the_file() {
    let mut m = MissingChunksMap::new();
    let key = [1u8; 32];
    m.initialize_file(key, 3);
    assert!(!m.is_file_complete(&key));
    assert_eq!(sorted(m.get_missing_chunks(&key)), vec![0, 1, 2]);
    assert!(m.mark_chunk_downloaded(&key, 1));
    assert!(!m.mark_chunk_downloaded(&key, 1));
    assert!(!m.mark_chunk_downloaded(&key, 9));
    assert_eq!(sorted(m.get_missing_chunks(&key)), vec![0, 2]);
    assert!(m.mark_chunk_downloaded(&key, 2));
    assert!(m.mark_chunk_downloaded(&key, 0));
    assert!(m.is_file_complete(&key));
    assert!(m.get_missing_chunks(&key).is_empty());
    assert!(m.files_with_missing_chunks().is_empty());
}

#[test]
fn file_of_zero_chunks_is_complete() {
    let mut m = MissingChunksMap::new();
    m.initialize_file([2u8; 32], 0);
    assert!(m.is_file_complete(&[2u8; 32]));
}

#[test]
fn other_files_are_not_touched() {
    let mut m = MissingChunksMap::new();
    m.initialize_file([1u8; 32], 2);
    m.initialize_file([2u8; 32], 1);
    m.mark_chunk_downloaded(&[2u8; 32], 0);
    assert!(m.is_file_complete(&[2u8; 32]));
    assert_eq!(sorted(m.get_missing_chunks(&[1u8; 32])), vec![0, 1]);
    assert_eq!(m.files_with_missing_chunks(), vec![[1u8; 32]]);
}

#[test]
fn metadata_read_after_write() {
    let mut s = DownloadStateStore::new();
    let key = [3u8; 32];
    assert!(s.get_file_metadata(&key).is_none());
    s.store_file_metadata(key, metadata(2048));
    let m = s.get_file_metadata(&key).unwrap();
    assert_eq!(m.file_size, 2048);
    assert_eq!(m.owner, b"alice".to_vec());
    assert_eq!(m.fingerprint, [6u8; 32]);
    s.delete_file_metadata(&key);
    assert!(s.get_file_metadata(&key).is_none());
}

#[test]
fn bucket_download_start_then_complete() {
    let mut s = DownloadStateStore::new();
    let b = [4u8; 32];
    assert!(!s.is_bucket_download_in_progress(&b));
    s.mark_bucket_download_started(b);
    assert!(s.is_bucket_download_in_progress(&b));
    assert_eq!(s.get_all_pending_bucket_downloads(), vec![b]);
    s.mark_bucket_download_completed(&b);
    assert!(!s.is_bucket_download_in_progress(&b));
    assert!(s.get_all_pending_bucket_downloads().is_empty());
}

#[test]
fn missing_files_of_a_pending_bucket() {
    let mut s = DownloadStateStore::new();
    let b = [4u8; 32];
    let mut in_bucket = metadata(2048);
    in_bucket.bucket_id = b.to_vec();
    let mut also_in_bucket = metadata(4096);
    also_in_bucket.bucket_id = b.to_vec();
    let mut elsewhere = metadata(2048);
    elsewhere.bucket_id = vec![5u8; 32];
    s.initialize_file([9u8; 32], 2);
    s.store_file_metadata([9u8; 32], also_in_bucket);
    s.initialize_file([1u8; 32], 2);
    s.store_file_metadata([1u8; 32], in_bucket);
    s.initialize_file([3u8; 32], 2);
    s.store_file_metadata([3u8; 32], elsewhere);
    s.initialize_file([2u8; 32], 2);
    assert!(s.get_missing_files_for_bucket(&b).is_empty());
    s.mark_bucket_download_started(b);
    assert_eq!(s.get_missing_files_for_bucket(&b), vec![[1u8; 32], [9u8; 32]]);
}

#[test]
fn pending_buckets_come_back_in_key_order() {
    let mut s = DownloadStateStore::new();
    s.mark_bucket_download_started([7u8; 32]);
    s.mark_bucket_download_started([2u8; 32]);
    s.mark_bucket_download_started([5u8; 32]);
    s.mark_bucket_download_started([2u8; 32]);
    assert_eq!(s.get_all_pending_bucket_downloads(), vec![[2u8; 32], [5u8; 32], [7u8; 32]]);
}

#[test]
fn chunk_batches_are_sorted_and_bounded() {
    let batches = plan_chunk_batches(vec![7, 3, 9, 0, 4, 1], 4);
    assert_eq!(batches, vec![vec![0, 1, 3, 4], vec![7, 9]]);
    assert!(plan_chunk_batches(vec![], 4).is_empty());
    assert_eq!(plan_chunk_batches(vec![2, 1], 10), vec![vec![1, 2]]);
}

fn chunk(id: u64, len: usize, is_exact: bool, size_ok: bool) -> ReceivedChunk {
    ReceivedChunk { chunk_id: id, len, is_exact, size_ok }
}

#[test]
fn empty_response_is_refused() {
    let plan = process_chunk_response(&vec![], &vec![1]);
    assert!(plan.writes.is_empty());
    assert_eq!(plan.total_bytes, 0);
    assert!(matches!(plan.error, Some(ChunkResponseError::EmptyResponse)));
}

#[test]
fn response_chunks_are_filtered() {
    let received = vec![chunk(1, 100, true, true), chunk(2, 50, false, true), chunk(3, 70, true, true)];
    let plan = process_chunk_response(&received, &vec![1, 2]);
    assert_eq!(plan.writes, vec![1]);
    assert_eq!(plan.total_bytes, 170);
    assert!(plan.error.is_none());
}

#[test]
fn chunk_of_wrong_size_stops_processing() {
    let received = vec![chunk(1, 100, true, true), chunk(2, 3, true, false), chunk(3, 70, true, true)];
    let plan = process_chunk_response(&received, &vec![1, 2, 3]);
    assert_eq!(plan.writes, vec![1]);
    assert_eq!(plan.total_bytes, 100);
    assert!(matches!(plan.error, Some(ChunkResponseError::InvalidChunkSize { chunk_id: 2, len: 3 })));
}

#[test]
fn attempts_retry_until_the_last() {
    assert!(matches!(download_attempt_action(0, 2, true), AttemptAction::Process));
    assert!(matches!(download_attempt_action(0, 2, false), AttemptAction::Retry));
    assert!(matches!(download_attempt_action(1, 2, false), AttemptAction::Retry));
    assert!(matches!(download_attempt_action(2, 2, false), AttemptAction::GiveUp));
}

#[test]
fn file_download_outcome() {
    assert!(file_download_succeeded(0, false));
    assert!(file_download_succeeded(2, true));
    assert!(!file_download_succeeded(1, false));
}

#[test]
fn resume_or_complete_pending_bucket() {
    assert!(resume_action(0) == ResumeAction::MarkCompleted);
    assert!(resume_action(3) == ResumeAction::Resume);
}

#[test]
fn default_download_limits() {
    let l = FileDownloadLimits::default();
    assert_eq!(l.max_concurrent_file_downloads, 10);
    assert_eq!(l.max_concurrent_chunks_per_file, 5);
    assert_eq!(l.max_chunks_per_request, 10);
    assert_eq!(l.chunk_request_peer_retry_attempts, 5);
    assert_eq!(l.download_retry_attempts, 2);
    assert_eq!(l.best_peers_to_select, 2);
    assert_eq!(l.random_peers_to_select, 3);
    assert_eq!(l.max_concurrent_bucket_downloads, 2);
}

#[test]
fn bucket_lock_info_flags() {
    let mut l = BucketLockInfo::new();
    assert!(!l.is_downloading);
    l.set_downloading(true);
    assert!(l.is_downloading);
}

#[test]
fn bucket_lock_is_exclusive_until_released() {
    let mut locks = BucketLocks::new();
    let b = [9u8; 32];
    assert!(locks.try_lock(b).is_ok());
    assert!(locks.is_downloading(&b));
    assert!(matches!(locks.try_lock(b), Err(BucketDownloadError::AlreadyBeingDownloaded(x)) if x == b));
    locks.mark_inactive(&b);
    assert!(!locks.is_downloading(&b));
    assert!(locks.try_lock(b).is_ok());
    assert!(locks.try_lock([8u8; 32]).is_ok());
}

#[test]
fn manager_downloads_a_file() {
    let mut mgr = FileDownloadManager::new(BspPeerManager::new());
    let key = [1u8; 32];
    let batches = mgr.start_file_download(key, 12, metadata(12 * 1024));
    assert_eq!(batches, vec![(0..10).collect::<Vec<u64>>(), vec![10, 11]]);
    assert!(mgr.add_peer(b"bsp-1", key));
    assert_eq!(mgr.select_peers_for_batch(&key), vec![b"bsp-1".to_vec()]);
    for c in 0..12 {
        assert!(mgr.mark_chunk_downloaded(&key, c));
    }
    assert!(mgr.finish_file_download(&key, 0));
    assert!(mgr.record_success(b"bsp-1", 12 * 1024, 10, 1));
    assert!(mgr.record_failure(b"bsp-1"));
    assert_eq!(mgr.limits().max_chunks_per_request, 10);
}

#[test]
fn resumed_file_keeps_its_state() {
    let mut mgr = FileDownloadManager::new(BspPeerManager::new());
    let key = [2u8; 32];
    mgr.start_file_download(key, 3, metadata(3000));
    mgr.mark_chunk_downloaded(&key, 0);
    let batches = mgr.start_file_download(key, 3, metadata(3000));
    assert_eq!(batches, vec![vec![1, 2]]);
    assert!(!mgr.finish_file_download(&key, 1));
}

#[test]
fn bucket_download_lifecycle() {
    let mut mgr = FileDownloadManager::new(BspPeerManager::new());
    let b = [3u8; 32];
    assert!(matches!(mgr.begin_bucket_download(b), Ok(false)));
    assert!(mgr.is_bucket_download_in_progress(&b));
    assert!(matches!(mgr.begin_bucket_download(b), Err(BucketDownloadError::AlreadyBeingDownloaded(_))));
    let failed = mgr.finish_bucket_download(&b, false, "peer gone".to_string());
    assert!(matches!(failed, Err(BucketDownloadError::DownloadFailed(m)) if m == "peer gone"));
    assert!(mgr.is_bucket_download_in_progress(&b));
    assert!(matches!(mgr.begin_bucket_download(b), Ok(true)));
    assert!(mgr.finish_bucket_download(&b, true, String::new()).is_ok());
    assert!(!mgr.is_bucket_download_in_progress(&b));
    mgr.mark_bucket_download_started(b);
    assert!(mgr.is_bucket_download_in_progress(&b));
}

#[test]
fn manager_with_custom_limits() {
    let mut limits = FileDownloadLimits::default();
    limits.max_chunks_per_request = 2;
    let mut mgr = FileDownloadManager::with_limits(limits, BspPeerManager::new());
    let batches = mgr.start_file_download([1u8; 32], 5, metadata(5000));
    assert_eq!(batches, vec![vec![0, 1], vec![2, 3], vec![4]]);
}

#[test]
fn manager_exposes_its_download_state() {
    let mut mgr = FileDownloadManager::new(BspPeerManager::new());
    mgr.start_file_download([1u8; 32], 2, metadata(2000));
    let store = mgr.download_state_store();
    assert!(!store.is_file_complete(&[1u8; 32]));
    assert_eq!(store.get_file_metadata(&[1u8; 32]).unwrap().file_size, 2000);
    assert_eq!(storagehub_client::download_state::PendingBucketDownloadsCf::name(), "pending_bucket_downloads");
}

#[test]
fn download_requests_name_the_right_bucket() {
    let file_bucket = vec![5u8; 32];
    assert!(storagehub_client::download::serves_download_request(&None, &file_bucket));
    assert!(storagehub_client::download::serves_download_request(&Some([5u8; 32]), &file_bucket));
    assert!(!storagehub_client::download::serves_download_request(&Some([6u8; 32]), &file_bucket));
}

#[test]
fn download_proof_must_decode() {
    let plan = process_download_response(&DownloadProof::Undecodable, &[6u8; 32], &vec![1]);
    assert!(plan.writes.is_empty());
    assert_eq!(plan.total_bytes, 0);
    assert!(matches!(plan.error, Some(ChunkResponseError::UndecodableProof)));
}

#[test]
fn download_proof_of_another_file_is_refused() {
    let proof = DownloadProof::Decoded { fingerprint: [7u8; 32], chunks: Some(vec![chunk(1, 100, true, true)]) };
    let plan = process_download_response(&proof, &[6u8; 32], &vec![1]);
    assert!(plan.writes.is_empty());
    assert_eq!(plan.total_bytes, 0);
    match plan.error {
        Some(ChunkResponseError::FingerprintMismatch { expected, got }) => {
            assert_eq!(expected, [6u8; 32]);
            assert_eq!(got, [7u8; 32]);
        }
        _ => panic!("expected a fingerprint mismatch"),
    }
}

#[test]
fn download_proof_without_proven_chunks_is_refused() {
    let proof = DownloadProof::Decoded { fingerprint: [6u8; 32], chunks: None };
    let plan = process_download_response(&proof, &[6u8; 32], &vec![1]);
    assert!(plan.writes.is_empty());
    assert!(matches!(plan.error, Some(ChunkResponseError::UnprovenChunks)));
}

#[test]
fn download_proof_of_the_file_gives_its_chunks() {
    let proof = DownloadProof::Decoded {
        fingerprint: [6u8; 32],
        chunks: Some(vec![chunk(1, 100, true, true), chunk(2, 50, true, true)]),
    };
    let plan = process_download_response(&proof, &[6u8; 32], &vec![2]);
    assert_eq!(plan.writes, vec![2]);
    assert_eq!(plan.total_bytes, 150);
    assert!(plan.error.is_none());
    let empty = DownloadProof::Decoded { fingerprint: [6u8; 32], chunks: Some(vec![]) };
    let plan = process_download_response(&empty, &[6u8; 32], &vec![2]);
    assert!(matches!(plan.error, Some(ChunkResponseError::EmptyResponse)));
}

#[test]
fn file_is_complete_exactly_when_nothing_is_missing() {
    let mut m = MissingChunksMap::new();
    let key = [3u8; 32];
    m.initialize_file(key, 2);
    for c in [1u64, 0] {
        assert_eq!(m.is_file_complete(&key), m.get_missing_chunks(&key).is_empty());
        assert!(!m.is_file_complete(&key));
        m.mark_chunk_downloaded(&key, c);
    }
    assert!(m.is_file_complete(&key));
    assert_eq!(m.is_file_complete(&key), m.get_missing_chunks(&key).is_empty());
}
