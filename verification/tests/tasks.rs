use storagehub_client::bucket_check::{
    buckets_missing_forest, files_to_recover, is_proof_error, merge_peer_ids, requeue_try_count,
    tally_recoveries, ForestFileStatus, RecoveryResult, StoredFile, MAX_PROOF_RETRIES,
};
use storagehub_client::confirm_storing::{
    after_chunks_query, after_proof_attempt, confirm_round, ChunksQuery, ConfirmRound, ConfirmStep,
};
use storagehub_client::capacity::{
    bucket_total_size, confirm_increased_capacity, expect_bsp_id, expect_msp_id, is_bucket_of_msp,
    plan_bucket_move_capacity, plan_storage_capacity, CapacityError, CapacityPlan, ProviderId,
    RoleError,
};
use storagehub_client::deletion::{
    catch_up_file_keys, check_user_deletions, deletion_bsp, deletion_provider,
    filter_valid_deletions, plan_deletion_targets, DeletionTarget, FileKeyChange,
    FileKeyOperation, NoValidFileKeys, UserDeletion, UserDeletionError, removed_file_keys, TrieMutation,
};
use storagehub_client::fees::{
    charging_succeeded, should_stop_storing_for_insolvent_user, split_users_to_charge,
    summarize_charging,
};
use storagehub_client::forest_cache::ForestStorageCaching;
use storagehub_client::keyed::KeySet;
use storagehub_client::msp_response::{
    answer_follow_up, filter_pending, group_by_bucket, rejection_for_write_step, responded_file_keys,
    AnswerSubmission, FollowUpError, ModuleError, MspResponse, RejectReason, RespondItem,
    StatusFollowUp,
};
use storagehub_client::proof_submit::{
    add_checkpoint_challenges, checkpoint_challenges_due, has_challenges, is_proof_outdated,
    keys_needing_proofs, max_proof_tip, proven_keys, should_generate_key_proof,
    should_retry_submit_proof, CustomChallenge, Proven,
};
use storagehub_client::volunteer::{
    after_chunk_write, check_chunk_size, check_upload_batch, first_exclusion,
    precheck_storage_request, should_retry_volunteer, volunteer_submit_tick, ChunkSizeError,
    ChunkWriteResult, ExcludeType, RequestPrecheck, UploadBatchError, WriteStep,
};

fn k(b: u8) -> [u8; 32] {
    [b; 32]
}

#[test]
fn provider_roles() {
    assert!(expect_bsp_id(Some(ProviderId::Backup(k(1)))) == Ok(k(1)));
    assert!(expect_bsp_id(Some(ProviderId::Main(k(1)))) == Err(RoleError::WrongRole));
    assert!(expect_bsp_id(None) == Err(RoleError::NotRegistered));
    assert!(expect_msp_id(Some(ProviderId::Main(k(2)))) == Ok(k(2)));
    assert!(expect_msp_id(Some(ProviderId::Backup(k(2)))) == Err(RoleError::WrongRole));
    assert!(expect_msp_id(None) == Err(RoleError::NotRegistered));
}

#[test]
fn storage_capacity_plans() {
    assert!(plan_storage_capacity(1000, 500, 300, 100) == Ok(CapacityPlan::Sufficient));
    assert!(plan_storage_capacity(1000, 500, 50, 100) == Ok(CapacityPlan::Increase { required: 100 }));
    assert!(
        plan_storage_capacity(1000, 500, 100, 700)
            == Err(CapacityError::ExceedsMaxCapacity { used: 400, required: 700, max: 1000 })
    );
    assert!(
        plan_storage_capacity(1000, 100, 200, 1)
            == Err(CapacityError::AvailableExceedsCurrent { available: 200, current: 100 })
    );
    assert!(plan_storage_capacity(u64::MAX, u64::MAX, 0, 1) == Err(CapacityError::ProjectedUsageOverflow));
    assert!(plan_storage_capacity(400, 500, 100, 0) == Ok(CapacityPlan::Sufficient));
}

#[test]
fn increased_capacity_is_rechecked() {
    assert!(confirm_increased_capacity(100, 100).is_ok());
    assert!(
        confirm_increased_capacity(99, 100)
            == Err(CapacityError::InsufficientAfterIncrease { available: 99, required: 100 })
    );
}

#[test]
fn bucket_move_capacity_plans() {
    assert!(plan_bucket_move_capacity(1000, 500, 600, 600) == Ok(CapacityPlan::Sufficient));
    assert!(plan_bucket_move_capacity(1000, 1000, 10, 600) == Err(CapacityError::MaxCapacityReached));
    assert!(plan_bucket_move_capacity(1000, 900, 10, 600) == Ok(CapacityPlan::Increase { required: 600 }));
}

#[test]
fn bucket_total_size_sums_or_overflows() {
    assert_eq!(bucket_total_size(&vec![10, 20, 30]), Some(60));
    assert_eq!(bucket_total_size(&vec![]), Some(0));
    assert_eq!(bucket_total_size(&vec![u64::MAX, 1]), None);
}

#[test]
fn storage_request_prechecks() {
    assert!(precheck_storage_request(0, None, false) == RequestPrecheck::EmptyFile);
    assert!(precheck_storage_request(10, Some(ExcludeType::User), false) == RequestPrecheck::Excluded(ExcludeType::User));
    assert!(precheck_storage_request(10, None, true) == RequestPrecheck::AlreadyStored);
    assert!(precheck_storage_request(10, None, false) == RequestPrecheck::Proceed);
}

#[test]
fn exclusion_lists_are_checked_in_order() {
    assert!(first_exclusion(false, false, false, false) == Some(ExcludeType::File));
    assert!(first_exclusion(true, false, false, false) == Some(ExcludeType::Fingerprint));
    assert!(first_exclusion(true, true, false, false) == Some(ExcludeType::User));
    assert!(first_exclusion(true, true, true, false) == Some(ExcludeType::Bucket));
    assert!(first_exclusion(true, true, true, true).is_none());
}

#[test]
fn volunteer_ticks_and_retries() {
    assert_eq!(volunteer_submit_tick(10), 9);
    assert_eq!(volunteer_submit_tick(0), 0);
    assert!(should_retry_volunteer(true, false));
    assert!(!should_retry_volunteer(false, false));
    assert!(!should_retry_volunteer(true, true));
}

#[test]
fn upload_batch_checks() {
    assert!(check_upload_batch(&k(1), &k(2), &vec![1], 10) == Err(UploadBatchError::FingerprintMismatch));
    assert!(check_upload_batch(&k(1), &k(1), &vec![], 10) == Err(UploadBatchError::EmptyBatch));
    assert!(check_upload_batch(&k(1), &k(1), &vec![6, 5], 10) == Err(UploadBatchError::BatchTooLarge));
    assert!(check_upload_batch(&k(1), &k(1), &vec![6, 4], 10) == Ok(10));
    assert!(check_upload_batch(&k(1), &k(1), &vec![usize::MAX, 1], 10) == Err(UploadBatchError::BatchTooLarge));
}

#[test]
fn chunk_sizes_follow_the_file_size() {
    assert!(check_chunk_size(2500, 1024, 0, 1024).is_ok());
    assert!(check_chunk_size(2500, 1024, 2, 452).is_ok());
    assert!(
        check_chunk_size(2500, 1024, 2, 1024)
            == Err(ChunkSizeError::InvalidChunkSize { chunk_id: 2, expected: 452, got: 1024 })
    );
    assert!(check_chunk_size(2500, 1024, 3, 1) == Err(ChunkSizeError::NoSuchChunk { chunk_id: 3 }));
    assert!(check_chunk_size(2048, 1024, 1, 1024).is_ok());
    assert!(check_chunk_size(0, 1024, 0, 0) == Err(ChunkSizeError::NoSuchChunk { chunk_id: 0 }));
}

#[test]
fn chunk_write_steps() {
    assert!(after_chunk_write(&ChunkWriteResult::FileIncomplete) == WriteStep::Continue);
    assert!(after_chunk_write(&ChunkWriteResult::AlreadyExists) == WriteStep::Continue);
    assert!(after_chunk_write(&ChunkWriteResult::FileComplete) == WriteStep::Complete);
    assert!(after_chunk_write(&ChunkWriteResult::FileDoesNotExist) == WriteStep::FailMissingFile);
    assert!(after_chunk_write(&ChunkWriteResult::FingerprintMismatch) == WriteStep::FailFingerprint);
    assert!(after_chunk_write(&ChunkWriteResult::StorageFailure) == WriteStep::FailStorage);
    assert!(rejection_for_write_step(&WriteStep::Continue).is_none());
    assert!(rejection_for_write_step(&WriteStep::Complete).is_none());
    assert!(rejection_for_write_step(&WriteStep::FailStorage) == Some(RejectReason::InternalError));
}

#[test]
fn checkpoint_challenges_timing() {
    assert!(checkpoint_challenges_due(10, 15, 20));
    assert!(checkpoint_challenges_due(10, 20, 20));
    assert!(!checkpoint_challenges_due(15, 15, 20));
    assert!(!checkpoint_challenges_due(10, 21, 20));
}

#[test]
fn checkpoint_keys_join_forest_challenges() {
    let mut forest = vec![k(1)];
    let cp = vec![
        CustomChallenge { key: k(2), should_remove_key: true },
        CustomChallenge { key: k(3), should_remove_key: false },
    ];
    add_checkpoint_challenges(&mut forest, &cp);
    assert_eq!(forest, vec![k(1), k(2), k(3)]);
    assert!(has_challenges(&forest, &vec![]));
    assert!(!has_challenges(&vec![], &vec![]));
    assert!(has_challenges(&vec![], &cp));
}

#[test]
fn proven_keys_and_key_proofs() {
    let proven = vec![
        Proven::ExactKey(k(1)),
        Proven::NeighbourKeys(Some(k(2)), Some(k(3))),
        Proven::NeighbourKeys(None, Some(k(4))),
        Proven::NeighbourKeys(Some(k(5)), None),
        Proven::NeighbourKeys(None, None),
        Proven::Empty,
    ];
    let keys = proven_keys(&proven);
    assert_eq!(keys, vec![k(1), k(2), k(3), k(4), k(5)]);
    let cp = vec![
        CustomChallenge { key: k(2), should_remove_key: true },
        CustomChallenge { key: k(3), should_remove_key: false },
    ];
    assert!(!should_generate_key_proof(&k(2), &cp));
    assert!(should_generate_key_proof(&k(3), &cp));
    assert_eq!(keys_needing_proofs(&keys, &cp), vec![k(1), k(3), k(4), k(5)]);
}

#[test]
fn proof_tips_and_retries() {
    assert_eq!(max_proof_tip(100, 3), 600);
    assert_eq!(max_proof_tip(u128::MAX / 2, 3), u128::MAX);
    assert_eq!(max_proof_tip(100, 0), 0);
    assert!(is_proof_outdated(11, 10));
    assert!(!is_proof_outdated(10, 10));
    assert!(should_retry_submit_proof(true, 10, 10, &Some(k(1)), &k(1)));
    assert!(!should_retry_submit_proof(false, 10, 10, &Some(k(1)), &k(1)));
    assert!(!should_retry_submit_proof(true, 11, 10, &Some(k(1)), &k(1)));
    assert!(!should_retry_submit_proof(true, 10, 10, &Some(k(2)), &k(1)));
    assert!(!should_retry_submit_proof(true, 10, 10, &None, &k(1)));
}

#[test]
fn deletion_providers_and_targets() {
    assert!(matches!(deletion_provider(&DeletionTarget::Bsp(k(1)), None), Some(ProviderId::Backup(x)) if x == k(1)));
    assert!(matches!(deletion_provider(&DeletionTarget::Bucket(k(2)), Some(k(3))), Some(ProviderId::Main(x)) if x == k(3)));
    assert!(deletion_provider(&DeletionTarget::Bucket(k(2)), None).is_none());
    let targets = plan_deletion_targets(&vec![k(1)], &vec![k(2), k(3)]);
    assert_eq!(targets.len(), 3);
    assert!(matches!(targets[0], DeletionTarget::Bsp(x) if x == k(1)));
    assert!(matches!(targets[1], DeletionTarget::Bucket(x) if x == k(2)));
    assert!(matches!(targets[2], DeletionTarget::Bucket(x) if x == k(3)));
}

#[test]
fn catch_up_applies_changes_in_order() {
    let changes = vec![
        FileKeyChange { file_key: k(3), operation: FileKeyOperation::Add },
        FileKeyChange { file_key: k(1), operation: FileKeyOperation::Remove },
        FileKeyChange { file_key: k(4), operation: FileKeyOperation::Add },
        FileKeyChange { file_key: k(4), operation: FileKeyOperation::Remove },
        FileKeyChange { file_key: k(1), operation: FileKeyOperation::Add },
    ];
    let set = catch_up_file_keys(&vec![k(1), k(2)], &changes);
    assert!(set.contains(&k(1)));
    assert!(set.contains(&k(2)));
    assert!(set.contains(&k(3)));
    assert!(!set.contains(&k(4)));
    let valid = filter_valid_deletions(&vec![k(4), k(3), k(9), k(1)], &set);
    assert_eq!(valid.ok().unwrap(), vec![k(3), k(1)]);
    let none = filter_valid_deletions(&vec![k(4), k(9)], &set);
    assert!(none.err().unwrap() == NoValidFileKeys { requested: 2 });
}

fn item(key: u8, bucket: u8, response: MspResponse) -> RespondItem {
    RespondItem { file_key: k(key), bucket_id: k(bucket), response }
}

#[test]
fn msp_answers_are_grouped_by_bucket() {
    let items = vec![
        item(1, 10, MspResponse::Accept),
        item(2, 20, MspResponse::Reject(RejectReason::ReachedMaximumCapacity)),
        item(3, 10, MspResponse::Reject(RejectReason::ReceivedInvalidProof)),
        item(4, 20, MspResponse::Accept),
        item(5, 10, MspResponse::Accept),
    ];
    let mut pending = KeySet::new();
    for key in [1u8, 2, 3, 5] {
        pending.insert(k(key));
    }
    let live = filter_pending(&items, &pending);
    assert_eq!(live.len(), 4);
    let groups = group_by_bucket(&live);
    assert_eq!(groups.len(), 2);
    assert_eq!(groups[0].bucket_id, k(10));
    assert_eq!(groups[0].accept, vec![k(1), k(5)]);
    assert_eq!(groups[0].reject.len(), 1);
    assert_eq!(groups[0].reject[0].0, k(3));
    assert!(groups[0].reject[0].1 == RejectReason::ReceivedInvalidProof);
    assert_eq!(groups[1].bucket_id, k(20));
    assert!(groups[1].accept.is_empty());
    assert!(groups[1].reject[0].1 == RejectReason::ReachedMaximumCapacity);
    assert_eq!(responded_file_keys(&groups), vec![k(1), k(5), k(3), k(2)]);
}

#[test]
fn users_are_charged_in_groups() {
    let users: Vec<[u8; 32]> = (0u8..7).map(k).collect();
    let groups = split_users_to_charge(&users, 3);
    assert_eq!(groups, vec![vec![k(0), k(1), k(2)], vec![k(3), k(4), k(5)], vec![k(6)]]);
    assert!(split_users_to_charge(&vec![], 3).is_empty());
    let summary = summarize_charging(7, &vec![true, false, true]);
    assert_eq!((summary.users, summary.chunks, summary.successful, summary.failed), (7, 3, 2, 1));
    assert!(!charging_succeeded(&summary));
    assert!(charging_succeeded(&summarize_charging(7, &vec![true, true, true])));
    assert!(should_stop_storing_for_insolvent_user(1));
    assert!(!should_stop_storing_for_insolvent_user(0));
}

#[test]
fn files_to_recover_are_the_incomplete_ones() {
    let files = vec![
        ForestFileStatus { file_key: k(1), stored: StoredFile::Complete },
        ForestFileStatus { file_key: k(2), stored: StoredFile::Missing },
        ForestFileStatus { file_key: k(3), stored: StoredFile::Incomplete },
    ];
    assert_eq!(files_to_recover(&files), vec![k(2), k(3)]);
}

#[test]
fn recovery_peers_are_merged() {
    let lists = vec![
        vec![b"a".to_vec(), b"b".to_vec()],
        vec![b"b".to_vec(), b"c".to_vec(), b"a".to_vec()],
        vec![],
    ];
    let mut merged = merge_peer_ids(&lists);
    merged.sort();
    assert_eq!(merged, vec![b"a".to_vec(), b"b".to_vec(), b"c".to_vec()]);
}

#[test]
fn recovery_round_tally() {
    let t = tally_recoveries(&vec![
        RecoveryResult::Recovered,
        RecoveryResult::StillIncomplete,
        RecoveryResult::Failed,
        RecoveryResult::Panicked,
        RecoveryResult::Recovered,
    ]);
    assert_eq!((t.recovered, t.failed, t.panicked), (2, 2, 1));
}

#[test]
fn buckets_without_forest_are_reported() {
    let dirs = vec![b"0x0101".to_vec(), b"not-hex".to_vec()];
    let forests = ForestStorageCaching::new_on_disk(&dirs, 4);
    let mut b1 = [0u8; 32];
    b1[0] = 1;
    let buckets = vec![k(1), b1];
    assert_eq!(buckets_missing_forest(&buckets, &forests), vec![k(1), b1]);
    let mut f2 = ForestStorageCaching::new_in_memory();
    f2.register_new(k(7).to_vec());
    assert_eq!(buckets_missing_forest(&vec![k(7), k(8)], &f2), vec![k(8)]);
}

#[test]
fn proof_errors_are_recognised() {
    assert!(is_proof_error("Module(ForestProofVerificationFailed)"));
    assert!(is_proof_error("dispatch error: FailedToApplyDelta in pallet"));
    assert!(!is_proof_error("Timeout"));
    assert!(!is_proof_error(""));
}

#[test]
fn stop_storing_requeues_are_bounded() {
    assert_eq!(MAX_PROOF_RETRIES, 3);
    assert_eq!(requeue_try_count(0), Some(1));
    assert_eq!(requeue_try_count(2), Some(3));
    assert_eq!(requeue_try_count(3), None);
}

#[test]
fn confirmations_skip_retry_or_drop() {
    assert!(after_chunks_query(&ChunksQuery::Chunks, 0, 3) == ConfirmStep::Proceed);
    assert!(after_chunks_query(&ChunksQuery::RequestNotFound, 0, 3) == ConfirmStep::Skip);
    assert!(after_chunks_query(&ChunksQuery::ConfirmChunksFailed, 0, 3) == ConfirmStep::Skip);
    assert!(after_chunks_query(&ChunksQuery::OtherFailure, 1, 3) == ConfirmStep::Requeue(2));
    assert!(after_chunks_query(&ChunksQuery::OtherFailure, 3, 3) == ConfirmStep::Drop);
    assert!(after_proof_attempt(true, 3, 3) == ConfirmStep::Proceed);
    assert!(after_proof_attempt(false, 2, 3) == ConfirmStep::Requeue(3));
    assert!(after_proof_attempt(false, 3, 3) == ConfirmStep::Drop);
    assert!(confirm_round(0, 0) == ConfirmRound::NothingToConfirm);
    assert!(confirm_round(2, 0) == ConfirmRound::AllProofsFailed);
    assert!(confirm_round(2, 1) == ConfirmRound::Submit);
}

#[test]
fn user_deletions_are_checked_in_order() {
    let ok = UserDeletion { has_signature: true, has_signed_intention: true, location_len: 10 };
    let unsigned = UserDeletion { has_signature: false, has_signed_intention: true, location_len: 10 };
    let no_intention = UserDeletion { has_signature: true, has_signed_intention: false, location_len: 10 };
    let long = UserDeletion { has_signature: true, has_signed_intention: true, location_len: 600 };
    assert!(check_user_deletions(&vec![], 512, 2).is_ok());
    assert!(check_user_deletions(&vec![ok_copy(&ok), ok_copy(&ok)], 512, 2).is_ok());
    assert!(check_user_deletions(&vec![ok_copy(&ok), ok_copy(&ok), ok_copy(&ok)], 512, 2) == Err(UserDeletionError::BatchTooLarge));
    assert!(check_user_deletions(&vec![ok_copy(&ok), long, unsigned], 512, 5) == Err(UserDeletionError::LocationTooLong(1)));
    assert!(check_user_deletions(&vec![no_intention], 512, 5) == Err(UserDeletionError::MissingSignedIntention(0)));
    let unsigned = UserDeletion { has_signature: false, has_signed_intention: false, location_len: 10 };
    assert!(check_user_deletions(&vec![ok_copy(&ok), unsigned], 512, 0) == Err(UserDeletionError::MissingSignature(1)));
    assert_eq!(deletion_bsp(&Some(ProviderId::Backup(k(3)))), Some(k(3)));
    assert_eq!(deletion_bsp(&Some(ProviderId::Main(k(3)))), None);
    assert_eq!(deletion_bsp(&None), None);
}

fn ok_copy(d: &UserDeletion) -> UserDeletion {
    UserDeletion { has_signature: d.has_signature, has_signed_intention: d.has_signed_intention, location_len: d.location_len }
}

#[test]
fn only_removed_keys_leave_the_file_storage() {
    let muts = vec![(k(1), TrieMutation::Remove), (k(2), TrieMutation::Add), (k(3), TrieMutation::Remove)];
    assert_eq!(removed_file_keys(&muts), vec![k(1), k(3)]);
    assert!(removed_file_keys(&vec![(k(2), TrieMutation::Add)]).is_empty());
}

#[test]
fn answer_follow_ups() {
    assert!(answer_follow_up(&AnswerSubmission::Failed) == (StatusFollowUp::ResetForRetry, Err(FollowUpError::SubmissionFailed)));
    assert!(answer_follow_up(&AnswerSubmission::NoEvents) == (StatusFollowUp::ResetForRetry, Ok(())));
    assert!(answer_follow_up(&AnswerSubmission::Succeeded) == (StatusFollowUp::Keep, Ok(())));
    assert!(
        answer_follow_up(&AnswerSubmission::FailedWithModuleError(ModuleError::ForestProofVerificationFailed))
            == (StatusFollowUp::ResetForRetry, Ok(()))
    );
    assert!(
        answer_follow_up(&AnswerSubmission::FailedWithModuleError(ModuleError::FailedToApplyDelta))
            == (StatusFollowUp::ResetForRetry, Ok(()))
    );
    assert!(answer_follow_up(&AnswerSubmission::FailedWithModuleError(ModuleError::Other)) == (StatusFollowUp::Abandon, Ok(())));
    assert!(answer_follow_up(&AnswerSubmission::FailedWithOtherError) == (StatusFollowUp::Abandon, Ok(())));
    assert!(
        answer_follow_up(&AnswerSubmission::FailedWithUndecodableError)
            == (StatusFollowUp::Keep, Err(FollowUpError::UndecodableError))
    );
}

#[test]
fn storage_request_for_another_msp_bucket_is_skipped() {
    let own = [1u8; 32];
    assert!(is_bucket_of_msp(&own, &Some([1u8; 32])));
    assert!(!is_bucket_of_msp(&own, &Some([2u8; 32])));
    assert!(!is_bucket_of_msp(&own, &None));
}
