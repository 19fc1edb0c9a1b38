//! The decisions of sending a file's chunks to a peer: cutting the chunks
//! into batches of bounded size, and whether to retry a failed upload.

use vstd::prelude::*;

verus! {

/// How often a refused upload is retried.
pub const REFUSED_RETRIES: u32 = 3;
/// How often an upload that failed for network reasons is retried.
pub const NETWORK_RETRIES: u32 = 10;
/// How many blocks to wait before retrying after a network failure.
pub const NETWORK_RETRY_WAIT_BLOCKS: u32 = 5;

/// Accumulates the chunks of a file, read in order, into batches whose total
/// size does not exceed the maximum (a single chunk larger than it makes a
/// batch of its own).
pub struct UploadBatcher {
    max_batch_size: usize,
    current: Vec<u64>,
    current_size: usize,
}

/// The views of a sequence of batches.
pub open spec fn batch_views(v: Seq<Vec<u64>>) -> Seq<Seq<u64>> {
    v.map_values(|x: Vec<u64>| x@)
}

/// What pushing the chunk `id` of `len` bytes does to a batcher holding
/// `current` (of `size` bytes) with batches of at most `max` bytes: the
/// batches sent, the new pending batch and its size. A chunk that does not
/// fit closes the pending batch, even an empty one.
pub open spec fn push_outcome(current: Seq<u64>, size: int, max: int, id: u64, len: int, last: bool) -> (Seq<Seq<u64>>, Seq<u64>, int) {
    let full = size + len > max;
    let first = if full { seq![current] } else { Seq::<Seq<u64>>::empty() };
    let batch = if full { seq![id] } else { current.push(id) };
    let batch_size = if full { len } else { size + len };
    if last { (first.push(batch), Seq::<u64>::empty(), 0) } else { (first, batch, batch_size) }
}

impl UploadBatcher {
    /// The chunks of the batch being filled.
    pub closed spec fn current(&self) -> Seq<u64> {
        self.current@
    }

    /// The size of the batch being filled.
    pub closed spec fn current_size(&self) -> nat {
        self.current_size as nat
    }

    /// The maximum size of a batch.
    pub closed spec fn max_batch_size(&self) -> nat {
        self.max_batch_size as nat
    }

    /// A batcher with an empty batch.
    pub fn new(max_batch_size: usize) -> (r: UploadBatcher)
        ensures
            r.current() == Seq::<u64>::empty(),
            r.current_size() == 0,
            r.max_batch_size() == max_batch_size,
    {
        UploadBatcher { max_batch_size, current: Vec::new(), current_size: 0 }
    }

    /// Adds the chunk `chunk_id` of `len` bytes; returns the batches to send
    /// now, in order: the batch so far when the chunk does not fit in it
    /// (even when that batch is empty, as for a first chunk larger than the
    /// maximum), and the batch holding the chunk when it is the file's last.
    pub fn push_chunk(&mut self, chunk_id: u64, len: usize, is_last: bool) -> (r: Vec<Vec<u64>>)
        requires
            old(self).current_size() + len <= usize::MAX,
        ensures
            final(self).max_batch_size() == old(self).max_batch_size(),
            ({
                let full = old(self).current_size() + len > old(self).max_batch_size();
                let first = if full { seq![old(self).current()] } else { Seq::<Seq<u64>>::empty() };
                let batch = if full { seq![chunk_id] } else { old(self).current().push(chunk_id) };
                let size = if full { len as int } else { old(self).current_size() + len };
                &&& is_last ==> batch_views(r@) == first.push(batch) && final(self).current() == Seq::<u64>::empty()
                    && final(self).current_size() == 0
                &&& !is_last ==> batch_views(r@) == first && final(self).current() == batch
                    && final(self).current_size() == size
            }),
            (batch_views(r@), final(self).current(), final(self).current_size() as int)
                == push_outcome(old(self).current(), old(self).current_size() as int, old(self).max_batch_size() as int, chunk_id, len as int, is_last),
    {
        let mut out: Vec<Vec<u64>> = Vec::new();
        if self.current_size + len > self.max_batch_size {
            let mut batch: Vec<u64> = Vec::new();
            std::mem::swap(&mut batch, &mut self.current);
            out.push(batch);
            self.current_size = 0;
        }
        self.current.push(chunk_id);
        self.current_size = self.current_size + len;
        if is_last {
            let mut batch: Vec<u64> = Vec::new();
            std::mem::swap(&mut batch, &mut self.current);
            out.push(batch);
            self.current_size = 0;
        }
        proof {
            let full = old(self).current_size() + len > old(self).max_batch_size();
            assert(batch_views(out@) =~= if is_last {
                (if full { seq![old(self).current()] } else { Seq::<Seq<u64>>::empty() }).push(
                    if full { seq![chunk_id] } else { old(self).current().push(chunk_id) })
            } else {
                if full { seq![old(self).current()] } else { Seq::<Seq<u64>>::empty() }
            });
        }
        out
    }
}

/// Why an upload request failed.
pub enum UploadFailure {
    /// The peer refused the request
    Refused,
    /// A network error
    Network,
    /// The peer is not connected
    NotConnected,
    /// Any other failure
    Other,
}

/// What to do after a failed upload request.
pub enum UploadRetryAction {
    /// Sleep a second and send the batch again
    RetryAfterSleep,
    /// Wait some blocks and send the batch again
    RetryAfterBlocks,
    /// Give up on this peer
    Fail,
    /// Give up on this peer: the failure was not expected
    FailUnexpected,
}

/// The next step after an upload request failed with `failure`, when
/// `retry_attempts` retries were already made for this batch.
pub fn upload_retry_action(failure: &UploadFailure, retry_attempts: u32) -> (r: UploadRetryAction)
    ensures
        (*failure is Refused && retry_attempts < REFUSED_RETRIES) ==> r is RetryAfterSleep,
        (*failure is Refused && retry_attempts >= REFUSED_RETRIES) ==> r is Fail,
        ((*failure is Network || *failure is NotConnected) && retry_attempts < NETWORK_RETRIES) ==> r is RetryAfterBlocks,
        ((*failure is Network || *failure is NotConnected) && retry_attempts >= NETWORK_RETRIES) ==> r is Fail,
        *failure is Other ==> r is FailUnexpected,
{
    match failure {
        UploadFailure::Refused => {
            if retry_attempts < REFUSED_RETRIES { UploadRetryAction::RetryAfterSleep } else { UploadRetryAction::Fail }
        },
        UploadFailure::Network | UploadFailure::NotConnected => {
            if retry_attempts < NETWORK_RETRIES { UploadRetryAction::RetryAfterBlocks } else { UploadRetryAction::Fail }
        },
        UploadFailure::Other => UploadRetryAction::FailUnexpected,
    }
}

/// The peer's answer to an upload request.
pub enum UploadResponse {
    /// The batch was accepted; the peer says whether it now has the whole file
    Accepted { file_complete: bool },
    /// The request failed
    Failed(UploadFailure),
}

/// What the uploader does next.
pub enum UploadStep {
    /// Send the file's next batch
    SendNextBatch,
    /// Sleep a second and send the same batch again
    ResendAfterSleep,
    /// Wait some blocks and send the same batch again
    ResendAfterBlocks,
    /// Stop: the peer has the file
    Succeeded,
    /// Stop: the upload to this peer failed
    Failed,
    /// Stop: the upload to this peer failed in an unexpected way
    FailedUnexpectedly,
}

/// Where an upload to a peer stands.
pub enum UploadState {
    /// Batches are still being sent
    Sending,
    /// The peer has the file
    Succeeded,
    /// The upload failed; no further request is made
    Failed,
}

/// The course of sending one file's batches to one peer: each answer to a
/// request decides whether the same batch is sent again, the next one is
/// sent, or the upload stops.
pub struct UploadSession {
    state: UploadState,
    retry_attempts: u32,
}

impl UploadSession {
    /// Where the upload stands.
    pub closed spec fn state(&self) -> UploadState {
        self.state
    }

    /// The retries already made for the batch being sent.
    pub closed spec fn retries(&self) -> u32 {
        self.retry_attempts
    }

    /// The retry counter never exceeds the larger retry limit.
    pub closed spec fn wf(&self) -> bool {
        self.retry_attempts <= NETWORK_RETRIES
    }

    /// A session about to send its first batch.
    pub fn new() -> (r: UploadSession)
        ensures
            r.wf(),
            r.state() is Sending,
            r.retries() == 0,
    {
        UploadSession { state: UploadState::Sending, retry_attempts: 0 }
    }

    /// Whether batches are still to be sent.
    pub fn is_sending(&self) -> (r: bool)
        ensures
            r == self.state() is Sending,
    {
        match self.state {
            UploadState::Sending => true,
            _ => false,
        }
    }

    /// Takes the peer's answer to the request for the current batch
    /// (`is_final_batch` when it holds the file's last chunk). An accepted
    /// batch ends the upload with success when the peer reports the file
    /// complete or the batch was the last; otherwise the next batch follows
    /// with a fresh retry counter. A failed request is sent again while the
    /// retries allow it, counting refusals and network failures together;
    /// else the upload fails and no later batch is sent.
    pub fn on_response(&mut self, response: &UploadResponse, is_final_batch: bool) -> (r: UploadStep)
        requires
            old(self).wf(),
            old(self).state() is Sending,
        ensures
            final(self).wf(),
            match *response {
                UploadResponse::Accepted { file_complete } => if file_complete || is_final_batch {
                    &&& r is Succeeded
                    &&& final(self).state() is Succeeded
                } else {
                    &&& r is SendNextBatch
                    &&& final(self).state() is Sending
                    &&& final(self).retries() == 0
                },
                UploadResponse::Failed(f) => {
                    let a = old(self).retries();
                    &&& (f is Refused && a < REFUSED_RETRIES) ==> r is ResendAfterSleep
                    &&& ((f is Network || f is NotConnected) && a < NETWORK_RETRIES) ==> r is ResendAfterBlocks
                    &&& ((f is Refused && a >= REFUSED_RETRIES) || ((f is Network || f is NotConnected) && a >= NETWORK_RETRIES))
                        ==> r is Failed && final(self).state() is Failed
                    &&& f is Other ==> r is FailedUnexpectedly && final(self).state() is Failed
                    &&& (r is ResendAfterSleep || r is ResendAfterBlocks) ==> final(self).state() is Sending
                        && final(self).retries() == a + 1
                },
            },
    {
        match response {
            UploadResponse::Accepted { file_complete } => {
                if *file_complete || is_final_batch {
                    self.state = UploadState::Succeeded;
                    UploadStep::Succeeded
                } else {
                    self.retry_attempts = 0;
                    UploadStep::SendNextBatch
                }
            },
            UploadResponse::Failed(f) => match upload_retry_action(f, self.retry_attempts) {
                UploadRetryAction::RetryAfterSleep => {
                    self.retry_attempts = self.retry_attempts + 1;
                    UploadStep::ResendAfterSleep
                },
                UploadRetryAction::RetryAfterBlocks => {
                    self.retry_attempts = self.retry_attempts + 1;
                    UploadStep::ResendAfterBlocks
                },
                UploadRetryAction::Fail => {
                    self.state = UploadState::Failed;
                    UploadStep::Failed
                },
                UploadRetryAction::FailUnexpected => {
                    self.state = UploadState::Failed;
                    UploadStep::FailedUnexpectedly
                },
            },
        }
    }
}

/// What uploading a file to a provider's peers does next: the peers are
/// tried in the order given, until one takes the whole file.
pub enum PeerUploadStep {
    /// Upload the file to the peer at this index
    TryPeer(usize),
    /// A peer took the file: the upload succeeded
    Done,
    /// Every peer failed: the upload failed
    AllFailed,
}

/// The first step of uploading a file to `num_peers` peers: the first peer,
/// or failure when there is none.
pub fn first_peer_step(num_peers: usize) -> (r: PeerUploadStep)
    ensures
        num_peers > 0 ==> r == PeerUploadStep::TryPeer(0),
        num_peers == 0 ==> r is AllFailed,
{
    if num_peers > 0 { PeerUploadStep::TryPeer(0) } else { PeerUploadStep::AllFailed }
}

/// The step after the upload to the peer at `index` of `num_peers` peers
/// ended: success ends the upload; a failure moves on to the next peer,
/// and after the last one the upload fails.
pub fn after_peer_upload(index: usize, num_peers: usize, succeeded: bool) -> (r: PeerUploadStep)
    requires
        index < num_peers,
    ensures
        succeeded ==> r is Done,
        !succeeded && index + 1 < num_peers ==> r == PeerUploadStep::TryPeer((index + 1) as usize),
        !succeeded && index + 1 == num_peers ==> r is AllFailed,
{
    if succeeded {
        PeerUploadStep::Done
    } else if index + 1 < num_peers {
        PeerUploadStep::TryPeer(index + 1)
    } else {
        PeerUploadStep::AllFailed
    }
}

} // verus!
