//! The decisions of a BSP that volunteers to store a new file and then
//! receives the file's chunks: which storage requests it takes on, when it
//! sends its volunteer transaction, whether it retries it, and which
//! uploaded batches of chunks it accepts.

use vstd::prelude::*;
use crate::bytes::{H256, h256_eq};

verus! {

/// The lists that a provider can exclude a storage request by.
#[derive(PartialEq, Eq, Structural)]
pub enum ExcludeType {
    File,
    Fingerprint,
    User,
    Bucket,
}

/// The first exclusion list, in the order file key, fingerprint, owner,
/// bucket, that the request is on; `None` when it is on none of them.
pub fn first_exclusion(file_allowed: bool, fingerprint_allowed: bool, owner_allowed: bool, bucket_allowed: bool) -> (r: Option<ExcludeType>)
    ensures
        !file_allowed ==> r == Some(ExcludeType::File),
        file_allowed && !fingerprint_allowed ==> r == Some(ExcludeType::Fingerprint),
        file_allowed && fingerprint_allowed && !owner_allowed ==> r == Some(ExcludeType::User),
        file_allowed && fingerprint_allowed && owner_allowed && !bucket_allowed ==> r == Some(ExcludeType::Bucket),
        file_allowed && fingerprint_allowed && owner_allowed && bucket_allowed ==> r.is_none(),
{
    if !file_allowed {
        Some(ExcludeType::File)
    } else if !fingerprint_allowed {
        Some(ExcludeType::Fingerprint)
    } else if !owner_allowed {
        Some(ExcludeType::User)
    } else if !bucket_allowed {
        Some(ExcludeType::Bucket)
    } else {
        None
    }
}

/// The first verdict on a new storage request.
#[derive(PartialEq, Eq, Structural)]
pub enum RequestPrecheck {
    /// Go on to the capacity check
    Proceed,
    /// A file of size zero is an error
    EmptyFile,
    /// The request is on an exclusion list: skip it
    Excluded(ExcludeType),
    /// The file is already in the provider's forest: skip it
    AlreadyStored,
}

/// Checks a new storage request in the order the BSP does: the size first,
/// then the exclusion lists, then whether the file is already stored.
pub fn precheck_storage_request(size: u64, exclusion: Option<ExcludeType>, already_stored: bool) -> (r: RequestPrecheck)
    ensures
        size == 0 ==> r == RequestPrecheck::EmptyFile,
        size != 0 && exclusion.is_some() ==> r == RequestPrecheck::Excluded(exclusion.unwrap()),
        size != 0 && exclusion.is_none() && already_stored ==> r == RequestPrecheck::AlreadyStored,
        size != 0 && exclusion.is_none() && !already_stored ==> r == RequestPrecheck::Proceed,
{
    if size == 0 {
        return RequestPrecheck::EmptyFile;
    }
    match exclusion {
        Some(e) => RequestPrecheck::Excluded(e),
        None => {
            if already_stored {
                RequestPrecheck::AlreadyStored
            } else {
                RequestPrecheck::Proceed
            }
        },
    }
}

/// The tick to wait for before sending the volunteer transaction: one before
/// the earliest tick the BSP may volunteer at, so that the transaction is
/// included in that tick.
pub fn volunteer_submit_tick(earliest_volunteer_tick: u32) -> (r: u32)
    ensures
        earliest_volunteer_tick == 0 ==> r == 0,
        earliest_volunteer_tick > 0 ==> r == earliest_volunteer_tick - 1,
{
    if earliest_volunteer_tick == 0 { 0 } else { earliest_volunteer_tick - 1 }
}

/// A failed volunteer transaction is sent again only while the storage
/// request is open to volunteers and the BSP is not yet one of them.
pub fn should_retry_volunteer(open_to_volunteers: bool, already_volunteered: bool) -> (r: bool)
    ensures
        r == (open_to_volunteers && !already_volunteered),
{
    open_to_volunteers && !already_volunteered
}

/// Why a batch of uploaded chunks is refused.
#[derive(PartialEq, Eq, Structural)]
pub enum UploadBatchError {
    /// The proof is for a file with another fingerprint
    FingerprintMismatch,
    /// The batch holds no chunk
    EmptyBatch,
    /// The batch is larger than allowed
    BatchTooLarge,
}

/// The sum of the chunk lengths of a batch.
pub open spec fn batch_bytes(lens: Seq<usize>) -> int
    decreases lens.len(),
{
    if lens.len() == 0 { 0 } else { batch_bytes(lens.drop_last()) + lens.last() }
}

proof fn lemma_batch_bytes_prefix(s: Seq<usize>, i: int)
    requires
        0 <= i <= s.len(),
    ensures
        batch_bytes(s.take(i)) <= batch_bytes(s),
    decreases s.len() - i,
{
    if i < s.len() {
        lemma_batch_bytes_prefix(s, i + 1);
        assert(s.take(i + 1).drop_last() =~= s.take(i));
    } else {
        assert(s.take(i) =~= s);
    }
}

/// The checks on an uploaded batch before any chunk is written: the
/// fingerprint the proof is for must be the file's, the batch must hold a
/// chunk and its total size must not exceed `max_batch_size`. Returns the
/// total size.
pub fn check_upload_batch(
    expected_fingerprint: &H256,
    proof_fingerprint: &H256,
    chunk_lens: &Vec<usize>,
    max_batch_size: usize,
) -> (r: Result<usize, UploadBatchError>)
    ensures
        expected_fingerprint@ != proof_fingerprint@ ==> r == Err::<usize, UploadBatchError>(UploadBatchError::FingerprintMismatch),
        expected_fingerprint@ == proof_fingerprint@ && chunk_lens@.len() == 0 ==> r == Err::<usize, UploadBatchError>(UploadBatchError::EmptyBatch),
        expected_fingerprint@ == proof_fingerprint@ && chunk_lens@.len() > 0 && batch_bytes(chunk_lens@) > max_batch_size
            ==> r == Err::<usize, UploadBatchError>(UploadBatchError::BatchTooLarge),
        expected_fingerprint@ == proof_fingerprint@ && chunk_lens@.len() > 0 && batch_bytes(chunk_lens@) <= max_batch_size
            ==> r == Ok::<usize, UploadBatchError>(batch_bytes(chunk_lens@) as usize),
{
    if !h256_eq(expected_fingerprint, proof_fingerprint) {
        return Err(UploadBatchError::FingerprintMismatch);
    }
    if chunk_lens.len() == 0 {
        return Err(UploadBatchError::EmptyBatch);
    }
    let mut total: usize = 0;
    let mut i: usize = 0;
    while i < chunk_lens.len()
        invariant
            0 <= i <= chunk_lens@.len(),
            total == batch_bytes(chunk_lens@.take(i as int)),
            total <= max_batch_size,
            expected_fingerprint@ == proof_fingerprint@,
            chunk_lens@.len() > 0,
        decreases chunk_lens.len() - i,
    {
        assert(chunk_lens@.take(i as int + 1).drop_last() =~= chunk_lens@.take(i as int));
        proof {
            lemma_batch_bytes_prefix(chunk_lens@, i as int + 1);
        }
        let len = chunk_lens[i];
        if len > max_batch_size - total {
            return Err(UploadBatchError::BatchTooLarge);
        }
        total = total + len;
        i = i + 1;
    }
    assert(chunk_lens@.take(chunk_lens@.len() as int) =~= chunk_lens@);
    Ok(total)
}

/// The number of chunks of a file of `file_size` bytes cut in chunks of
/// `chunk_size` bytes.
pub open spec fn chunks_count(file_size: nat, chunk_size: nat) -> nat {
    if file_size % chunk_size == 0 { file_size / chunk_size } else { file_size / chunk_size + 1 }
}

/// The size the chunk `chunk_id` of the file must have: the chunk size for
/// every chunk but the last, and the rest of the file for the last; `None`
/// for an index past the last chunk.
pub open spec fn expected_chunk_size(file_size: nat, chunk_size: nat, chunk_id: nat) -> Option<nat> {
    let n = chunks_count(file_size, chunk_size);
    if chunk_id >= n {
        None
    } else if chunk_id + 1 < n {
        Some(chunk_size)
    } else {
        Some((file_size - chunk_id * chunk_size) as nat)
    }
}

/// Why a chunk of a batch is refused.
#[derive(PartialEq, Eq, Structural)]
pub enum ChunkSizeError {
    /// The file has no chunk with this index
    NoSuchChunk { chunk_id: u64 },
    /// The chunk's length is not the one its index calls for
    InvalidChunkSize { chunk_id: u64, expected: u64, got: usize },
}

/// Checks that the chunk `chunk_id` of `len` bytes has the size that its
/// index calls for in a file of `file_size` bytes.
pub fn check_chunk_size(file_size: u64, chunk_size: u64, chunk_id: u64, len: usize) -> (r: Result<(), ChunkSizeError>)
    requires
        chunk_size > 0,
    ensures
        expected_chunk_size(file_size as nat, chunk_size as nat, chunk_id as nat) is None
            ==> r == Err::<(), ChunkSizeError>((ChunkSizeError::NoSuchChunk { chunk_id })),
        (expected_chunk_size(file_size as nat, chunk_size as nat, chunk_id as nat) matches Some(e) && e == len)
            ==> r is Ok,
        (expected_chunk_size(file_size as nat, chunk_size as nat, chunk_id as nat) matches Some(e) && e != len)
            ==> r == Err::<(), ChunkSizeError>((ChunkSizeError::InvalidChunkSize {
                chunk_id,
                expected: expected_chunk_size(file_size as nat, chunk_size as nat, chunk_id as nat).unwrap() as u64,
                got: len,
            })),
{
    let q = file_size / chunk_size;
    assert(file_size % chunk_size != 0 ==> q < u64::MAX) by (nonlinear_arith)
        requires
            q == file_size / chunk_size,
            chunk_size > 0,
    {
        if file_size % chunk_size != 0 {
            assert(q * chunk_size + file_size % chunk_size == file_size);
            assert(q * chunk_size < file_size);
            assert(q <= q * chunk_size);
        }
    }
    let n: u64 = if file_size % chunk_size == 0 { q } else { q + 1 };
    if chunk_id >= n {
        return Err(ChunkSizeError::NoSuchChunk { chunk_id });
    }
    let expected: u64 = if chunk_id + 1 < n {
        chunk_size
    } else {
        assert(chunk_id * chunk_size <= file_size) by (nonlinear_arith)
            requires
                chunk_id < n,
                n <= q + 1,
                q == file_size / chunk_size,
                chunk_size > 0,
                chunk_id + 1 >= n,
        {
            assert(q * chunk_size <= file_size);
        }
        file_size - chunk_id * chunk_size
    };
    if (len as u64) == expected {
        Ok(())
    } else {
        Err(ChunkSizeError::InvalidChunkSize { chunk_id, expected, got: len })
    }
}

/// What writing one chunk to the file storage came to.
pub enum ChunkWriteResult {
    /// The chunk completed the file
    FileComplete,
    /// The file still misses chunks
    FileIncomplete,
    /// The chunk was already stored
    AlreadyExists,
    /// The file is not in the file storage
    FileDoesNotExist,
    /// The stored file does not match its fingerprint
    FingerprintMismatch,
    /// Any other storage failure
    StorageFailure,
}

/// The next step after writing one chunk of a batch.
#[derive(PartialEq, Eq, Structural)]
pub enum WriteStep {
    /// Write the next chunk of the batch
    Continue,
    /// The file is complete: stop writing this batch
    Complete,
    /// Refuse the batch: the file is not in the file storage
    FailMissingFile,
    /// Refuse the batch: the stored file does not match its fingerprint
    FailFingerprint,
    /// Refuse the batch: the file storage failed
    FailStorage,
}

/// The step after a chunk write: a duplicate chunk is skipped like an
/// incomplete write, a completing write ends the batch, every error refuses
/// it.
pub fn after_chunk_write(result: &ChunkWriteResult) -> (r: WriteStep)
    ensures
        (*result is FileIncomplete || *result is AlreadyExists) ==> r == WriteStep::Continue,
        *result is FileComplete ==> r == WriteStep::Complete,
        *result is FileDoesNotExist ==> r == WriteStep::FailMissingFile,
        *result is FingerprintMismatch ==> r == WriteStep::FailFingerprint,
        *result is StorageFailure ==> r == WriteStep::FailStorage,
{
    match result {
        ChunkWriteResult::FileComplete => WriteStep::Complete,
        ChunkWriteResult::FileIncomplete => WriteStep::Continue,
        ChunkWriteResult::AlreadyExists => WriteStep::Continue,
        ChunkWriteResult::FileDoesNotExist => WriteStep::FailMissingFile,
        ChunkWriteResult::FingerprintMismatch => WriteStep::FailFingerprint,
        ChunkWriteResult::StorageFailure => WriteStep::FailStorage,
    }
}

} // verus!
