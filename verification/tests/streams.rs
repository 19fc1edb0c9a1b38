use storagehub_client::chunk_stream::{
    after_last_chunk_written, ChunkStreamError, ChunkStreamParser, StreamUploadError,
};
use storagehub_client::msp_response::MspResponse;
use storagehub_client::upload::{
    after_peer_upload, first_peer_step, PeerUploadStep, upload_retry_action, UploadBatcher, UploadFailure, UploadResponse, UploadRetryAction, UploadSession,
    UploadStep,
};

fn encode(chunks: &[(u64, Vec<u8>)]) -> Vec<u8> {
    let mut out = (chunks.len() as u64).to_le_bytes().to_vec();
    for (id, data) in chunks {
        out.extend_from_slice(&id.to_le_bytes());
        out.extend_from_slice(data);
    }
    out
}

#[test]
fn stream_round_trip_in_one_piece() {
    let chunks = vec![(0u64, vec![1u8; 4]), (1, vec![2u8; 4]), (2, vec![3u8; 2])];
    let bytes = encode(&chunks);
    let mut p = ChunkStreamParser::new(4);
    let out = p.feed(&bytes);
    assert_eq!(out.len(), 2);
    assert_eq!(out[0].chunk_id, 0);
    assert_eq!(out[0].data, vec![1u8; 4]);
    assert_eq!(out[1].chunk_id, 1);
    assert_eq!(out[1].data, vec![2u8; 4]);
    let last = p.finish().ok().unwrap();
    assert_eq!(last.chunk_id, 2);
    assert_eq!(last.data, vec![3u8; 2]);
}

#[test]
fn stream_round_trip_byte_by_byte() {
    let chunks = vec![(5u64, vec![9u8; 3]), (6, vec![8u8; 3]), (7, vec![7u8; 3])];
    let bytes = encode(&chunks);
    let mut p = ChunkStreamParser::new(3);
    let mut got = Vec::new();
    for b in &bytes {
        got.extend(p.feed(&[*b]));
    }
    assert_eq!(got.iter().map(|c| c.chunk_id).collect::<Vec<_>>(), vec![5, 6]);
    let last = p.finish().ok().unwrap();
    assert_eq!(last.chunk_id, 7);
    assert_eq!(last.data, vec![7u8; 3]);
}

#[test]
fn single_chunk_stream() {
    let bytes = encode(&[(0, vec![4u8; 10])]);
    let mut p = ChunkStreamParser::new(1024);
    assert!(p.feed(&bytes).is_empty());
    let last = p.finish().ok().unwrap();
    assert_eq!(last.chunk_id, 0);
    assert_eq!(last.data, vec![4u8; 10]);
}

#[test]
fn stream_without_total_is_refused() {
    let mut p = ChunkStreamParser::new(4);
    p.feed(&[1, 0, 0]);
    assert!(matches!(p.finish(), Err(ChunkStreamError::MissingTotal)));
}

#[test]
fn stream_with_missing_chunks_is_refused() {
    let mut bytes = 3u64.to_le_bytes().to_vec();
    bytes.extend_from_slice(&0u64.to_le_bytes());
    bytes.extend_from_slice(&[1, 2, 3, 4]);
    let mut p = ChunkStreamParser::new(4);
    assert_eq!(p.feed(&bytes).len(), 1);
    assert!(matches!(
        p.finish(),
        Err(ChunkStreamError::WrongChunkCount { expected: 2, processed: 1 })
    ));
}

#[test]
fn stream_with_truncated_last_chunk_is_refused() {
    let mut bytes = 1u64.to_le_bytes().to_vec();
    bytes.extend_from_slice(&[1, 2, 3]);
    let mut p = ChunkStreamParser::new(4);
    p.feed(&bytes);
    assert!(matches!(p.finish(), Err(ChunkStreamError::TruncatedLastChunk)));
}

#[test]
fn batches_hold_every_chunk_in_order() {
    let mut b = UploadBatcher::new(10);
    let mut sent = Vec::new();
    sent.extend(b.push_chunk(0, 4, false));
    sent.extend(b.push_chunk(1, 4, false));
    sent.extend(b.push_chunk(2, 4, false));
    sent.extend(b.push_chunk(3, 4, true));
    assert_eq!(sent, vec![vec![0, 1], vec![2, 3]]);
}

#[test]
fn oversized_chunk_gets_its_own_batch() {
    let mut b = UploadBatcher::new(10);
    let mut sent = Vec::new();
    sent.extend(b.push_chunk(0, 4, false));
    sent.extend(b.push_chunk(1, 20, false));
    sent.extend(b.push_chunk(2, 1, true));
    assert_eq!(sent, vec![vec![0], vec![1], vec![2]]);
}

#[test]
fn upload_retries() {
    assert!(matches!(upload_retry_action(&UploadFailure::Refused, 0), UploadRetryAction::RetryAfterSleep));
    assert!(matches!(upload_retry_action(&UploadFailure::Refused, 3), UploadRetryAction::Fail));
    assert!(matches!(upload_retry_action(&UploadFailure::Network, 9), UploadRetryAction::RetryAfterBlocks));
    assert!(matches!(upload_retry_action(&UploadFailure::NotConnected, 10), UploadRetryAction::Fail));
    assert!(matches!(upload_retry_action(&UploadFailure::Other, 0), UploadRetryAction::FailUnexpected));
}

#[test]
fn stream_announcing_zero_chunks_is_refused_without_writes() {
    let mut bytes = 0u64.to_le_bytes().to_vec();
    for id in 0u64..3 {
        bytes.extend_from_slice(&id.to_le_bytes());
        bytes.extend_from_slice(&[7u8; 4]);
    }
    let mut p = ChunkStreamParser::new(4);
    assert!(p.feed(&bytes).is_empty());
    assert!(matches!(p.finish(), Err(ChunkStreamError::NoChunks)));
}

#[test]
fn oversized_first_chunk_follows_an_empty_batch() {
    let mut b = UploadBatcher::new(10);
    let mut sent = Vec::new();
    sent.extend(b.push_chunk(0, 20, false));
    assert_eq!(sent, vec![Vec::<u64>::new()]);
    sent.extend(b.push_chunk(1, 4, true));
    assert_eq!(sent, vec![vec![], vec![0], vec![1]]);
}

#[test]
fn upload_stops_when_the_peer_has_the_file() {
    let mut s = UploadSession::new();
    let step = s.on_response(&UploadResponse::Accepted { file_complete: false }, false);
    assert!(matches!(step, UploadStep::SendNextBatch));
    assert!(s.is_sending());
    let step = s.on_response(&UploadResponse::Accepted { file_complete: true }, false);
    assert!(matches!(step, UploadStep::Succeeded));
    assert!(!s.is_sending());
}

#[test]
fn upload_ends_after_the_final_batch() {
    let mut s = UploadSession::new();
    let step = s.on_response(&UploadResponse::Accepted { file_complete: false }, true);
    assert!(matches!(step, UploadStep::Succeeded));
    assert!(!s.is_sending());
}

#[test]
fn refused_upload_is_retried_three_times_then_fails() {
    let mut s = UploadSession::new();
    for _ in 0..3 {
        let step = s.on_response(&UploadResponse::Failed(UploadFailure::Refused), false);
        assert!(matches!(step, UploadStep::ResendAfterSleep));
    }
    let step = s.on_response(&UploadResponse::Failed(UploadFailure::Refused), false);
    assert!(matches!(step, UploadStep::Failed));
    assert!(!s.is_sending());
}

#[test]
fn network_failures_share_the_retry_counter() {
    let mut s = UploadSession::new();
    for _ in 0..2 {
        let step = s.on_response(&UploadResponse::Failed(UploadFailure::Refused), false);
        assert!(matches!(step, UploadStep::ResendAfterSleep));
    }
    for _ in 0..8 {
        let step = s.on_response(&UploadResponse::Failed(UploadFailure::Network), false);
        assert!(matches!(step, UploadStep::ResendAfterBlocks));
    }
    let step = s.on_response(&UploadResponse::Failed(UploadFailure::NotConnected), false);
    assert!(matches!(step, UploadStep::Failed));
}

#[test]
fn accepted_batch_resets_the_retry_counter() {
    let mut s = UploadSession::new();
    for _ in 0..3 {
        s.on_response(&UploadResponse::Failed(UploadFailure::Refused), false);
    }
    let step = s.on_response(&UploadResponse::Accepted { file_complete: false }, false);
    assert!(matches!(step, UploadStep::SendNextBatch));
    let step = s.on_response(&UploadResponse::Failed(UploadFailure::Refused), false);
    assert!(matches!(step, UploadStep::ResendAfterSleep));
}

#[test]
fn unexpected_upload_failure_stops_at_once() {
    let mut s = UploadSession::new();
    let step = s.on_response(&UploadResponse::Failed(UploadFailure::Other), false);
    assert!(matches!(step, UploadStep::FailedUnexpectedly));
    assert!(!s.is_sending());
}

#[test]
fn different_frame_splits_give_the_same_chunks() {
    let chunks = vec![(3u64, vec![1u8; 5]), (4, vec![2u8; 5]), (5, vec![3u8; 5]), (6, vec![4u8; 1])];
    let bytes = encode(&chunks);
    let splits: Vec<Vec<usize>> = vec![vec![], vec![3, 10, 11, 30], vec![8], vec![13, 26, 39]];
    let mut results = Vec::new();
    for cuts in splits {
        let mut p = ChunkStreamParser::new(5);
        let mut got = Vec::new();
        let mut start = 0;
        for &c in cuts.iter().chain(std::iter::once(&bytes.len())) {
            got.extend(p.feed(&bytes[start..c]).into_iter().map(|c| (c.chunk_id, c.data)));
            start = c;
        }
        let last = p.finish().ok().unwrap();
        got.push((last.chunk_id, last.data));
        results.push(got);
    }
    assert_eq!(results[0], chunks);
    for r in &results {
        assert_eq!(r, &results[0]);
    }
}

#[test]
fn completed_upload_is_unregistered_and_accepted() {
    let c = after_last_chunk_written(&[8u8; 32], true).ok().unwrap();
    assert_eq!(c.file_key, [8u8; 32]);
    assert!(matches!(c.response, MspResponse::Accept));
    assert!(matches!(after_last_chunk_written(&[8u8; 32], false), Err(StreamUploadError::FileIncomplete)));
}

#[test]
fn peers_are_tried_in_order_until_one_succeeds() {
    assert!(matches!(first_peer_step(0), PeerUploadStep::AllFailed));
    assert!(matches!(first_peer_step(3), PeerUploadStep::TryPeer(0)));
    assert!(matches!(after_peer_upload(0, 3, false), PeerUploadStep::TryPeer(1)));
    assert!(matches!(after_peer_upload(1, 3, true), PeerUploadStep::Done));
    assert!(matches!(after_peer_upload(2, 3, false), PeerUploadStep::AllFailed));
}
