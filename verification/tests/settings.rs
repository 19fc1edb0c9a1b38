use storagehub_client::config::{
    BlockchainServiceConfig, BlockchainServiceOptions, BspChargeFeesConfig, BspChargeFeesOptions,
    BspMoveBucketConfig, BspMoveBucketOptions, BspSubmitProofConfig, BspSubmitProofOptions,
    BspUploadFileConfig, Config, ForestWriteHandler, IndexerOptions, MspChargeFeesConfig,
    MspChargeFeesOptions, MspUploadFileConfig, NoKey, RemoteFileConfig, RemoteFileOptions,
    RpcOptions,
};
use storagehub_client::forest_cache::{ForestCreation, ForestLookup, ForestStorageCaching, SnapshotPlan};
use storagehub_client::hex_key::{forest_dir_key, parse_file_key, upload_status, FileKeyError};

#[test]
fn task_config_defaults() {
    assert_eq!(MspChargeFeesConfig::default().min_debt, 0);
    assert_eq!(BspChargeFeesConfig::default().min_debt, 0);
    assert_eq!(BspMoveBucketConfig::default().move_bucket_accepted_grace_period, 14_400);
    assert_eq!(BspSubmitProofConfig::default().max_submission_attempts, 5);
    let u = BspUploadFileConfig::default();
    assert_eq!((u.max_try_count, u.max_tip), (3, 500));
    let m = MspUploadFileConfig::default();
    assert_eq!((m.max_try_count, m.max_tip), (3, 500));
}

#[test]
fn options_fill_unset_numbers_with_zero() {
    let c: MspChargeFeesConfig = MspChargeFeesOptions { min_debt: Some(42) }.into();
    assert_eq!(c.min_debt, 42);
    let c: MspChargeFeesConfig = MspChargeFeesOptions::default().into();
    assert_eq!(c.min_debt, 0);
    let c: BspChargeFeesConfig = BspChargeFeesOptions { min_debt: None }.into();
    assert_eq!(c.min_debt, 0);
    let c: BspMoveBucketConfig = BspMoveBucketOptions::default().into();
    assert_eq!(c.move_bucket_accepted_grace_period, 0);
    let c: BspMoveBucketConfig = BspMoveBucketOptions { move_bucket_accepted_grace_period: Some(60) }.into();
    assert_eq!(c.move_bucket_accepted_grace_period, 60);
    let c: BspSubmitProofConfig = BspSubmitProofOptions::default().into();
    assert_eq!(c.max_submission_attempts, 0);
    let c: BspSubmitProofConfig = BspSubmitProofOptions { max_submission_attempts: Some(9) }.into();
    assert_eq!(c.max_submission_attempts, 9);
}

#[test]
fn blockchain_service_options() {
    let c: BlockchainServiceConfig = BlockchainServiceOptions {
        extrinsic_retry_timeout: Some(30),
        sync_mode_min_blocks_behind: None,
        check_for_pending_proofs_period: Some(4),
        max_blocks_behind_to_catch_up_root_changes: None,
    }
    .into();
    assert_eq!(c.extrinsic_retry_timeout, 30);
    assert_eq!(c.sync_mode_min_blocks_behind, 0);
    assert_eq!(c.check_for_pending_proofs_period, 4);
    assert_eq!(c.max_blocks_behind_to_catch_up_root_changes, 0);
    let d = BlockchainServiceOptions::default();
    assert!(d.extrinsic_retry_timeout.is_none() && d.sync_mode_min_blocks_behind.is_none());
}

#[test]
fn indexer_is_off_by_default() {
    let i = IndexerOptions::default();
    assert!(!i.indexer);
    assert!(i.database_url.is_none());
}

#[test]
fn remote_file_defaults() {
    let c = RemoteFileConfig::default();
    assert_eq!(c.max_file_size, 10 * 1024 * 1024 * 1024);
    assert_eq!(c.connection_timeout, 30);
    assert_eq!(c.read_timeout, 300);
    assert!(c.follow_redirects);
    assert_eq!(c.max_redirects, 10);
    assert_eq!(c.user_agent, "StorageHub-Client/1.0");
    assert_eq!(c.chunk_size, 8192);
    assert_eq!(c.chunks_buffer, 512);
    let o = RpcOptions::default().remote_file;
    assert_eq!(o.max_file_size, c.max_file_size);
    assert_eq!(o.user_agent, c.user_agent);
    let mut opts = RemoteFileOptions::default();
    opts.read_timeout = 5;
    opts.user_agent = "agent".to_string();
    let back = opts.into_config();
    assert_eq!(back.read_timeout, 5);
    assert_eq!(back.user_agent, "agent");
    assert_eq!(back.chunks_buffer, 512);
}

#[test]
fn default_remote_options_give_the_default_remote_config() {
    let from_options = RemoteFileConfig::from(RemoteFileOptions::default());
    let c = RemoteFileConfig::default();
    assert_eq!(from_options.max_file_size, c.max_file_size);
    assert_eq!(from_options.connection_timeout, c.connection_timeout);
    assert_eq!(from_options.read_timeout, c.read_timeout);
    assert_eq!(from_options.follow_redirects, c.follow_redirects);
    assert_eq!(from_options.max_redirects, c.max_redirects);
    assert_eq!(from_options.user_agent, c.user_agent);
    assert_eq!(from_options.chunk_size, c.chunk_size);
    assert_eq!(from_options.chunks_buffer, c.chunks_buffer);
    let mut opts = RemoteFileOptions::default();
    opts.max_redirects = 3;
    opts.follow_redirects = false;
    let converted = RemoteFileConfig::from(opts);
    assert_eq!(converted.max_redirects, 3);
    assert!(!converted.follow_redirects);
    assert_eq!(converted.chunk_size, 8192);
}

#[test]
fn file_transfer_server_default_address() {
    let c = Config::default();
    assert_eq!(c.host, "127.0.0.1");
    assert_eq!(c.port, 7070);
}

#[test]
fn no_key_has_no_bytes() {
    assert!(NoKey::from_bytes(vec![1, 2, 3]) == NoKey);
    assert!(NoKey.as_bytes().is_empty());
}

#[test]
fn forest_write_handler_wraps_its_task() {
    let mut h: ForestWriteHandler<u32, ()> = ForestWriteHandler::new(7);
    assert_eq!(*h.inner(), 7);
    *h.inner_mut() = 8;
    assert_eq!(*h.inner(), 8);
}

#[test]
fn file_keys_parse_from_hex() {
    let hex = "ab".repeat(32);
    assert_eq!(parse_file_key(&hex).ok().unwrap(), [0xabu8; 32]);
    assert_eq!(parse_file_key(&format!("0x{}", hex)).ok().unwrap(), [0xabu8; 32]);
    assert_eq!(parse_file_key(&format!("0x0x{}", hex)).ok().unwrap(), [0xabu8; 32]);
    assert!(matches!(parse_file_key("0xzz"), Err(FileKeyError::InvalidHex)));
    assert!(matches!(parse_file_key("abc"), Err(FileKeyError::InvalidHex)));
    assert!(matches!(parse_file_key("0xabcd"), Err(FileKeyError::InvalidLength(2))));
}

#[test]
fn forest_directory_names_decode() {
    assert_eq!(forest_dir_key(b"0x0a0b"), Some(vec![10, 11]));
    assert_eq!(forest_dir_key(b"0a0b"), Some(vec![10, 11]));
    assert_eq!(forest_dir_key(b"0x0x0a"), None);
    assert_eq!(forest_dir_key(b"xyz"), None);
}

#[test]
fn forests_on_disk_open_lazily_and_evict() {
    let dirs = vec![b"0x01".to_vec(), b"02".to_vec(), b"03".to_vec(), b"junk".to_vec()];
    let mut c = ForestStorageCaching::new_on_disk(&dirs, 2);
    assert!(c.is_forest_storage_present(&vec![1]));
    assert!(c.is_forest_storage_present(&vec![3]));
    assert!(!c.is_forest_storage_present(&vec![4]));
    assert!(matches!(c.get(&vec![4]), ForestLookup::Unknown));
    assert!(matches!(c.get(&vec![1]), ForestLookup::NotOpen));
    assert_eq!(c.add_open(vec![1]), (0, None));
    assert_eq!(c.add_open(vec![2]), (1, None));
    assert!(matches!(c.get(&vec![1]), ForestLookup::Open(0)));
    assert_eq!(c.add_open(vec![3]), (2, Some(1)));
    assert!(matches!(c.get(&vec![2]), ForestLookup::NotOpen));
    assert!(matches!(c.create(&vec![3]), ForestCreation::Existing(2)));
    assert!(matches!(c.create(&vec![2]), ForestCreation::OpenKnown));
    assert!(matches!(c.create(&vec![9]), ForestCreation::CreateNew));
    assert_eq!(c.register_new(vec![9]), (3, Some(0)));
    assert!(c.is_forest_storage_present(&vec![9]));
    assert_eq!(c.remove_forest_storage(&vec![9]), Some(3));
    assert!(!c.is_forest_storage_present(&vec![9]));
    assert_eq!(c.remove_forest_storage(&vec![1]), None);
}

#[test]
fn forests_in_memory_are_unbounded() {
    let mut c = ForestStorageCaching::new_in_memory();
    for i in 0u8..50 {
        assert_eq!(c.register_new(vec![i]), (i as u64, None));
    }
    assert!(matches!(c.get(&vec![0]), ForestLookup::Open(0)));
}

#[test]
fn upload_statuses() {
    assert_eq!(upload_status(&parse_file_key("zz"), true), 400);
    assert_eq!(upload_status(&parse_file_key("0x12"), true), 400);
    let key = parse_file_key(&"01".repeat(32));
    assert_eq!(upload_status(&key, true), 200);
    assert_eq!(upload_status(&key, false), 500);
}

#[test]
fn blockchain_service_options_overlay_a_base() {
    let base = BlockchainServiceConfig {
        extrinsic_retry_timeout: 60,
        sync_mode_min_blocks_behind: 5,
        check_for_pending_proofs_period: 4,
        max_blocks_behind_to_catch_up_root_changes: 10,
    };
    let opts = BlockchainServiceOptions {
        extrinsic_retry_timeout: Some(90),
        sync_mode_min_blocks_behind: None,
        check_for_pending_proofs_period: None,
        max_blocks_behind_to_catch_up_root_changes: Some(3),
    };
    let c = base.overlaid(opts);
    assert_eq!(c.extrinsic_retry_timeout, 90);
    assert_eq!(c.sync_mode_min_blocks_behind, 5);
    assert_eq!(c.check_for_pending_proofs_period, 4);
    assert_eq!(c.max_blocks_behind_to_catch_up_root_changes, 3);
}

#[test]
fn creating_a_forest_twice_gives_the_same_forest() {
    let mut c = ForestStorageCaching::new_in_memory();
    let key = vec![7u8, 7];
    assert!(matches!(c.create(&key), ForestCreation::CreateNew));
    let (h, evicted) = c.register_new(key.clone());
    assert_eq!((h, evicted), (0, None));
    assert!(c.is_forest_storage_present(&key));
    assert!(matches!(c.create(&key), ForestCreation::Existing(0)));
    assert!(matches!(c.create(&key), ForestCreation::Existing(0)));
    assert!(matches!(c.get(&key), ForestLookup::Open(0)));
}

#[test]
fn snapshot_on_disk() {
    let dirs = vec![b"01".to_vec(), b"02".to_vec()];
    let mut c = ForestStorageCaching::new_on_disk(&dirs, 4);
    assert!(matches!(c.snapshot(&vec![1], &vec![2]), SnapshotPlan::OpenDestination));
    assert!(matches!(c.snapshot(&vec![1], &vec![5]), SnapshotPlan::OpenSourceAndCopy));
    assert!(matches!(c.snapshot(&vec![9], &vec![5]), SnapshotPlan::NoSource));
    assert_eq!(c.add_open(vec![1]), (0, None));
    assert!(matches!(c.snapshot(&vec![1], &vec![5]), SnapshotPlan::CopySource(0)));
    assert_eq!(c.register_new(vec![5]), (1, None));
    assert!(matches!(c.snapshot(&vec![1], &vec![5]), SnapshotPlan::Existing(1)));
}

#[test]
fn snapshot_in_memory() {
    let mut c = ForestStorageCaching::new_in_memory();
    assert!(matches!(c.snapshot(&vec![1], &vec![2]), SnapshotPlan::NoSource));
    assert_eq!(c.register_new(vec![1]), (0, None));
    assert!(matches!(c.snapshot(&vec![1], &vec![2]), SnapshotPlan::CopySource(0)));
    assert_eq!(c.register_new(vec![2]), (1, None));
    assert!(matches!(c.snapshot(&vec![1], &vec![2]), SnapshotPlan::Existing(1)));
}
