//! The configuration of the provider tasks and services, their defaults,
//! and the conversion of the optional settings read from a configuration
//! file into them (an unset number becomes zero, not the task's default).

use vstd::prelude::*;
use vstd::std_specs::convert::FromSpec;
use core::marker::PhantomData;

verus! {

/// Settings of the MSP task that charges its users.
#[derive(Clone, Copy, PartialEq, Eq, Structural)]
pub struct MspChargeFeesConfig {
    /// Minimum debt a user must have to be charged
    pub min_debt: u64,
}

impl Default for MspChargeFeesConfig {
    fn default() -> (r: MspChargeFeesConfig)
        ensures
            r.min_debt == 0,
    {
        MspChargeFeesConfig { min_debt: 0 }
    }
}

/// Settings of the BSP task that charges its users.
#[derive(Clone, Copy, PartialEq, Eq, Structural)]
pub struct BspChargeFeesConfig {
    /// Minimum debt a user must have to be charged
    pub min_debt: u64,
}

impl Default for BspChargeFeesConfig {
    fn default() -> (r: BspChargeFeesConfig)
        ensures
            r.min_debt == 0,
    {
        BspChargeFeesConfig { min_debt: 0 }
    }
}

/// Settings of the BSP side of a bucket move.
#[derive(Clone, Copy, PartialEq, Eq, Structural)]
pub struct BspMoveBucketConfig {
    /// Seconds during which download requests are still served after the
    /// new MSP accepted the move
    pub move_bucket_accepted_grace_period: u64,
}

impl Default for BspMoveBucketConfig {
    fn default() -> (r: BspMoveBucketConfig)
        ensures
            r.move_bucket_accepted_grace_period == 4 * 60 * 60,
    {
        BspMoveBucketConfig { move_bucket_accepted_grace_period: 4 * 60 * 60 }
    }
}

/// Settings of the BSP proof submission task.
#[derive(Clone, Copy, PartialEq, Eq, Structural)]
pub struct BspSubmitProofConfig {
    /// How often a proof submission is attempted at most
    pub max_submission_attempts: u32,
}

impl Default for BspSubmitProofConfig {
    fn default() -> (r: BspSubmitProofConfig)
        ensures
            r.max_submission_attempts == 5,
    {
        BspSubmitProofConfig { max_submission_attempts: 5 }
    }
}

/// Settings of the BSP task that volunteers for new files.
#[derive(Clone, Copy, PartialEq, Eq, Structural)]
pub struct BspUploadFileConfig {
    /// How often the volunteer transaction is retried at most
    pub max_try_count: u32,
    /// The highest tip paid for it
    pub max_tip: u128,
}

impl Default for BspUploadFileConfig {
    fn default() -> (r: BspUploadFileConfig)
        ensures
            r.max_try_count == 3,
            r.max_tip == 500,
    {
        BspUploadFileConfig { max_try_count: 3, max_tip: 500 }
    }
}

/// Settings of the MSP task that answers storage requests.
#[derive(Clone, Copy, PartialEq, Eq, Structural)]
pub struct MspUploadFileConfig {
    /// How often the answer transaction is retried at most
    pub max_try_count: u32,
    /// The highest tip paid for it
    pub max_tip: u128,
}

impl Default for MspUploadFileConfig {
    fn default() -> (r: MspUploadFileConfig)
        ensures
            r.max_try_count == 3,
            r.max_tip == 500,
    {
        MspUploadFileConfig { max_try_count: 3, max_tip: 500 }
    }
}

/// Settings of the blockchain service.
#[derive(Clone, Copy, PartialEq, Eq, Structural)]
pub struct BlockchainServiceConfig {
    /// Seconds to wait for a transaction before retrying it
    pub extrinsic_retry_timeout: u64,
    /// Blocks behind the best block from which the node counts as syncing
    pub sync_mode_min_blocks_behind: u32,
    /// Period, in blocks, of the check for pending proofs
    pub check_for_pending_proofs_period: u32,
    /// Most blocks in the past processed to catch up on root changes
    pub max_blocks_behind_to_catch_up_root_changes: u32,
}

impl BlockchainServiceConfig {
    /// This configuration with every setting that `options` sets replaced.
    pub fn overlaid(self, options: BlockchainServiceOptions) -> (r: BlockchainServiceConfig)
        ensures
            r.extrinsic_retry_timeout == (match options.extrinsic_retry_timeout { Some(v) => v, None => self.extrinsic_retry_timeout }),
            r.sync_mode_min_blocks_behind == (match options.sync_mode_min_blocks_behind { Some(v) => v, None => self.sync_mode_min_blocks_behind }),
            r.check_for_pending_proofs_period == (match options.check_for_pending_proofs_period {
                Some(v) => v,
                None => self.check_for_pending_proofs_period,
            }),
            r.max_blocks_behind_to_catch_up_root_changes == (match options.max_blocks_behind_to_catch_up_root_changes {
                Some(v) => v,
                None => self.max_blocks_behind_to_catch_up_root_changes,
            }),
    {
        let mut c = self;
        match options.extrinsic_retry_timeout {
            Some(v) => { c.extrinsic_retry_timeout = v; },
            None => {},
        }
        match options.sync_mode_min_blocks_behind {
            Some(v) => { c.sync_mode_min_blocks_behind = v; },
            None => {},
        }
        match options.check_for_pending_proofs_period {
            Some(v) => { c.check_for_pending_proofs_period = v; },
            None => {},
        }
        match options.max_blocks_behind_to_catch_up_root_changes {
            Some(v) => { c.max_blocks_behind_to_catch_up_root_changes = v; },
            None => {},
        }
        c
    }
}

/// Optional setting of the MSP charging task.
#[derive(Clone, Copy, PartialEq, Eq, Structural)]
pub struct MspChargeFeesOptions {
    pub min_debt: Option<u64>,
}

impl Default for MspChargeFeesOptions {
    fn default() -> (r: MspChargeFeesOptions)
        ensures
            r.min_debt.is_none(),
    {
        MspChargeFeesOptions { min_debt: None }
    }
}

/// The value of an optional number, zero when unset.
pub open spec fn or_zero_u64(v: Option<u64>) -> u64 {
    match v {
        Some(x) => x,
        None => 0,
    }
}

/// The value of an optional number, zero when unset.
pub open spec fn or_zero_u32(v: Option<u32>) -> u32 {
    match v {
        Some(x) => x,
        None => 0,
    }
}

fn unwrap_u64(v: Option<u64>) -> (r: u64)
    ensures
        r == or_zero_u64(v),
{
    match v {
        Some(x) => x,
        None => 0,
    }
}

fn unwrap_u32(v: Option<u32>) -> (r: u32)
    ensures
        r == or_zero_u32(v),
{
    match v {
        Some(x) => x,
        None => 0,
    }
}

impl From<MspChargeFeesOptions> for MspChargeFeesConfig {
    fn from(options: MspChargeFeesOptions) -> (r: MspChargeFeesConfig) {
        MspChargeFeesConfig { min_debt: unwrap_u64(options.min_debt) }
    }
}

impl vstd::std_specs::convert::FromSpecImpl<MspChargeFeesOptions> for MspChargeFeesConfig {
    open spec fn obeys_from_spec() -> bool {
        true
    }

    open spec fn from_spec(options: MspChargeFeesOptions) -> MspChargeFeesConfig {
        MspChargeFeesConfig { min_debt: or_zero_u64(options.min_debt) }
    }
}

/// Optional setting of the BSP side of a bucket move.
#[derive(Clone, Copy, PartialEq, Eq, Structural)]
pub struct BspMoveBucketOptions {
    pub move_bucket_accepted_grace_period: Option<u64>,
}

impl Default for BspMoveBucketOptions {
    fn default() -> (r: BspMoveBucketOptions)
        ensures
            r.move_bucket_accepted_grace_period.is_none(),
    {
        BspMoveBucketOptions { move_bucket_accepted_grace_period: None }
    }
}

impl From<BspMoveBucketOptions> for BspMoveBucketConfig {
    fn from(options: BspMoveBucketOptions) -> (r: BspMoveBucketConfig) {
        BspMoveBucketConfig { move_bucket_accepted_grace_period: unwrap_u64(options.move_bucket_accepted_grace_period) }
    }
}

impl vstd::std_specs::convert::FromSpecImpl<BspMoveBucketOptions> for BspMoveBucketConfig {
    open spec fn obeys_from_spec() -> bool {
        true
    }

    open spec fn from_spec(options: BspMoveBucketOptions) -> BspMoveBucketConfig {
        BspMoveBucketConfig { move_bucket_accepted_grace_period: or_zero_u64(options.move_bucket_accepted_grace_period) }
    }
}

/// Optional setting of the BSP charging task.
#[derive(Clone, Copy, PartialEq, Eq, Structural)]
pub struct BspChargeFeesOptions {
    pub min_debt: Option<u64>,
}

impl Default for BspChargeFeesOptions {
    fn default() -> (r: BspChargeFeesOptions)
        ensures
            r.min_debt.is_none(),
    {
        BspChargeFeesOptions { min_debt: None }
    }
}

impl From<BspChargeFeesOptions> for BspChargeFeesConfig {
    fn from(options: BspChargeFeesOptions) -> (r: BspChargeFeesConfig) {
        BspChargeFeesConfig { min_debt: unwrap_u64(options.min_debt) }
    }
}

impl vstd::std_specs::convert::FromSpecImpl<BspChargeFeesOptions> for BspChargeFeesConfig {
    open spec fn obeys_from_spec() -> bool {
        true
    }

    open spec fn from_spec(options: BspChargeFeesOptions) -> BspChargeFeesConfig {
        BspChargeFeesConfig { min_debt: or_zero_u64(options.min_debt) }
    }
}

/// Optional setting of the BSP proof submission task.
#[derive(Clone, Copy, PartialEq, Eq, Structural)]
pub struct BspSubmitProofOptions {
    pub max_submission_attempts: Option<u32>,
}

impl Default for BspSubmitProofOptions {
    fn default() -> (r: BspSubmitProofOptions)
        ensures
            r.max_submission_attempts.is_none(),
    {
        BspSubmitProofOptions { max_submission_attempts: None }
    }
}

impl From<BspSubmitProofOptions> for BspSubmitProofConfig {
    fn from(options: BspSubmitProofOptions) -> (r: BspSubmitProofConfig) {
        BspSubmitProofConfig { max_submission_attempts: unwrap_u32(options.max_submission_attempts) }
    }
}

impl vstd::std_specs::convert::FromSpecImpl<BspSubmitProofOptions> for BspSubmitProofConfig {
    open spec fn obeys_from_spec() -> bool {
        true
    }

    open spec fn from_spec(options: BspSubmitProofOptions) -> BspSubmitProofConfig {
        BspSubmitProofConfig { max_submission_attempts: or_zero_u32(options.max_submission_attempts) }
    }
}

/// Optional settings of the blockchain service.
#[derive(Clone, Copy, PartialEq, Eq, Structural)]
pub struct BlockchainServiceOptions {
    pub extrinsic_retry_timeout: Option<u64>,
    pub sync_mode_min_blocks_behind: Option<u32>,
    pub check_for_pending_proofs_period: Option<u32>,
    pub max_blocks_behind_to_catch_up_root_changes: Option<u32>,
}

impl Default for BlockchainServiceOptions {
    fn default() -> (r: BlockchainServiceOptions)
        ensures
            r.extrinsic_retry_timeout.is_none(),
            r.sync_mode_min_blocks_behind.is_none(),
            r.check_for_pending_proofs_period.is_none(),
            r.max_blocks_behind_to_catch_up_root_changes.is_none(),
    {
        BlockchainServiceOptions {
            extrinsic_retry_timeout: None,
            sync_mode_min_blocks_behind: None,
            check_for_pending_proofs_period: None,
            max_blocks_behind_to_catch_up_root_changes: None,
        }
    }
}

impl From<BlockchainServiceOptions> for BlockchainServiceConfig {
    fn from(options: BlockchainServiceOptions) -> (r: BlockchainServiceConfig) {
        BlockchainServiceConfig {
            extrinsic_retry_timeout: unwrap_u64(options.extrinsic_retry_timeout),
            sync_mode_min_blocks_behind: unwrap_u32(options.sync_mode_min_blocks_behind),
            check_for_pending_proofs_period: unwrap_u32(options.check_for_pending_proofs_period),
            max_blocks_behind_to_catch_up_root_changes: unwrap_u32(options.max_blocks_behind_to_catch_up_root_changes),
        }
    }
}

impl vstd::std_specs::convert::FromSpecImpl<BlockchainServiceOptions> for BlockchainServiceConfig {
    open spec fn obeys_from_spec() -> bool {
        true
    }

    open spec fn from_spec(options: BlockchainServiceOptions) -> BlockchainServiceConfig {
        BlockchainServiceConfig {
            extrinsic_retry_timeout: or_zero_u64(options.extrinsic_retry_timeout),
            sync_mode_min_blocks_behind: or_zero_u32(options.sync_mode_min_blocks_behind),
            check_for_pending_proofs_period: or_zero_u32(options.check_for_pending_proofs_period),
            max_blocks_behind_to_catch_up_root_changes: or_zero_u32(options.max_blocks_behind_to_catch_up_root_changes),
        }
    }
}

/// Settings of the indexer.
#[derive(Clone)]
pub struct IndexerOptions {
    /// Whether the indexer runs
    pub indexer: bool,
    /// The Postgres database to index into
    pub database_url: Option<String>,
}

impl Default for IndexerOptions {
    fn default() -> (r: IndexerOptions)
        ensures
            !r.indexer,
            r.database_url.is_none(),
    {
        IndexerOptions { indexer: false, database_url: None }
    }
}

/// Settings for fetching files from remote locations.
#[derive(Clone)]
pub struct RemoteFileConfig {
    /// Largest file accepted, in bytes
    pub max_file_size: u64,
    /// Connection timeout, in seconds
    pub connection_timeout: u64,
    /// Read timeout, in seconds
    pub read_timeout: u64,
    /// Whether redirects are followed
    pub follow_redirects: bool,
    /// Most redirects followed
    pub max_redirects: u32,
    /// The user agent sent
    pub user_agent: String,
    /// Size of a read, in bytes
    pub chunk_size: usize,
    /// Number of file chunks buffered
    pub chunks_buffer: usize,
}

impl Default for RemoteFileConfig {
    fn default() -> (r: RemoteFileConfig)
        ensures
            r.max_file_size == 10 * 1024 * 1024 * 1024,
            r.connection_timeout == 30,
            r.read_timeout == 300,
            r.follow_redirects,
            r.max_redirects == 10,
            r.user_agent@ == "StorageHub-Client/1.0"@,
            r.chunk_size == 8192,
            r.chunks_buffer == 512,
    {
        RemoteFileConfig {
            max_file_size: 10 * 1024 * 1024 * 1024,
            connection_timeout: 30,
            read_timeout: 300,
            follow_redirects: true,
            max_redirects: 10,
            user_agent: "StorageHub-Client/1.0".to_owned(),
            chunk_size: 8192,
            chunks_buffer: 512,
        }
    }
}

/// Remote file options, as read from a configuration file; every field is
/// set, by default to the default remote file configuration.
#[derive(Clone)]
pub struct RemoteFileOptions {
    pub max_file_size: u64,
    pub connection_timeout: u64,
    pub read_timeout: u64,
    pub follow_redirects: bool,
    pub max_redirects: u32,
    pub user_agent: String,
    pub chunk_size: usize,
    pub chunks_buffer: usize,
}

/// The options and the configuration hold the same settings.
pub open spec fn same_remote_settings(o: RemoteFileOptions, c: RemoteFileConfig) -> bool {
    &&& o.max_file_size == c.max_file_size
    &&& o.connection_timeout == c.connection_timeout
    &&& o.read_timeout == c.read_timeout
    &&& o.follow_redirects == c.follow_redirects
    &&& o.max_redirects == c.max_redirects
    &&& o.user_agent@ == c.user_agent@
    &&& o.chunk_size == c.chunk_size
    &&& o.chunks_buffer == c.chunks_buffer
}

impl Default for RemoteFileOptions {
    fn default() -> (r: RemoteFileOptions)
        ensures
            r.max_file_size == 10 * 1024 * 1024 * 1024,
            r.connection_timeout == 30,
            r.read_timeout == 300,
            r.follow_redirects,
            r.max_redirects == 10,
            r.user_agent@ == "StorageHub-Client/1.0"@,
            r.chunk_size == 8192,
            r.chunks_buffer == 512,
    {
        let c = RemoteFileConfig::default();
        RemoteFileOptions {
            max_file_size: c.max_file_size,
            connection_timeout: c.connection_timeout,
            read_timeout: c.read_timeout,
            follow_redirects: c.follow_redirects,
            max_redirects: c.max_redirects,
            user_agent: c.user_agent,
            chunk_size: c.chunk_size,
            chunks_buffer: c.chunks_buffer,
        }
    }
}

impl RemoteFileOptions {
    /// The remote file configuration these options set.
    pub fn into_config(self) -> (r: RemoteFileConfig)
        ensures
            same_remote_settings(self, r),
    {
        RemoteFileConfig {
            max_file_size: self.max_file_size,
            connection_timeout: self.connection_timeout,
            read_timeout: self.read_timeout,
            follow_redirects: self.follow_redirects,
            max_redirects: self.max_redirects,
            user_agent: self.user_agent,
            chunk_size: self.chunk_size,
            chunks_buffer: self.chunks_buffer,
        }
    }
}

impl From<RemoteFileOptions> for RemoteFileConfig {
    /// The remote file configuration the options set, field for field.
    fn from(o: RemoteFileOptions) -> (r: RemoteFileConfig) {
        RemoteFileConfig {
            max_file_size: o.max_file_size,
            connection_timeout: o.connection_timeout,
            read_timeout: o.read_timeout,
            follow_redirects: o.follow_redirects,
            max_redirects: o.max_redirects,
            user_agent: o.user_agent,
            chunk_size: o.chunk_size,
            chunks_buffer: o.chunks_buffer,
        }
    }
}

impl vstd::std_specs::convert::FromSpecImpl<RemoteFileOptions> for RemoteFileConfig {
    open spec fn obeys_from_spec() -> bool {
        true
    }

    open spec fn from_spec(o: RemoteFileOptions) -> RemoteFileConfig {
        RemoteFileConfig {
            max_file_size: o.max_file_size,
            connection_timeout: o.connection_timeout,
            read_timeout: o.read_timeout,
            follow_redirects: o.follow_redirects,
            max_redirects: o.max_redirects,
            user_agent: o.user_agent,
            chunk_size: o.chunk_size,
            chunks_buffer: o.chunks_buffer,
        }
    }
}

/// Converting remote file options into a configuration keeps every
/// setting.
pub proof fn law_remote_options_convert_field_for_field(o: RemoteFileOptions)
    ensures
        same_remote_settings(o, RemoteFileConfig::from_spec(o)),
{
}

/// Settings of the RPC server.
#[derive(Clone)]
pub struct RpcOptions {
    /// Settings for fetching remote files
    pub remote_file: RemoteFileOptions,
}

impl Default for RpcOptions {
    fn default() -> (r: RpcOptions)
        ensures
            r.remote_file.max_file_size == 10 * 1024 * 1024 * 1024,
            r.remote_file.connection_timeout == 30,
            r.remote_file.read_timeout == 300,
            r.remote_file.follow_redirects,
            r.remote_file.max_redirects == 10,
            r.remote_file.user_agent@ == "StorageHub-Client/1.0"@,
            r.remote_file.chunk_size == 8192,
            r.remote_file.chunks_buffer == 512,
    {
        RpcOptions { remote_file: RemoteFileOptions::default() }
    }
}

/// Where the MSP's internal file transfer server listens.
#[derive(Clone)]
pub struct Config {
    /// Host to bind to
    pub host: String,
    /// Port to bind to
    pub port: u16,
}

impl Default for Config {
    fn default() -> (r: Config)
        ensures
            r.host@ == "127.0.0.1"@,
            r.port == 7070,
    {
        Config { host: "127.0.0.1".to_owned(), port: 7070 }
    }
}

/// The key of a forest storage that holds a single forest: every key is
/// the same, and its bytes are empty.
#[derive(Clone, Copy, PartialEq, Eq, Structural)]
pub struct NoKey;

impl NoKey {
    /// Any bytes make the one key.
    pub fn from_bytes(bytes: Vec<u8>) -> (r: NoKey)
        ensures
            r == NoKey,
    {
        NoKey
    }

    /// The key's bytes: none.
    pub fn as_bytes(&self) -> (r: &'static [u8])
        ensures
            r@ == Seq::<u8>::empty(),
    {
        let e: &'static [u8] = &[];
        assert(e@ =~= Seq::<u8>::empty());
        e
    }
}

/// Wraps a task whose events carry the forest root write lock, so that the
/// lock is released once the task has handled the event.
pub struct ForestWriteHandler<H, Runtime> {
    inner: H,
    marker: PhantomData<Runtime>,
}

impl<H, Runtime> ForestWriteHandler<H, Runtime> {
    /// The wrapped task.
    pub closed spec fn wrapped(&self) -> H {
        self.inner
    }

    /// Wraps `inner`.
    pub fn new(inner: H) -> (r: Self)
        ensures
            r.wrapped() == inner,
    {
        ForestWriteHandler { inner, marker: PhantomData }
    }

    /// The wrapped task.
    pub fn inner(&self) -> (r: &H)
        ensures
            *r == self.wrapped(),
    {
        &self.inner
    }

    /// The wrapped task, to handle an event with.
    pub fn inner_mut(&mut self) -> (r: &mut H)
        ensures
            *r == old(self).wrapped(),
            final(self).wrapped() == *final(r),
    {
        &mut self.inner
    }
}

} // verus!
