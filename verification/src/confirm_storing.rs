//! The decisions of a BSP confirming that it stores the files it
//! volunteered for: which pending confirmations go on to a proof, which
//! are queued again with one more try, which are dropped, and whether the
//! confirmation transaction is sent at all.

use vstd::prelude::*;

verus! {

/// What the chain answered when asked which chunks to prove for a file.
pub enum ChunksQuery {
    /// The chunks to prove
    Chunks,
    /// There is no storage request for the file any more
    RequestNotFound,
    /// The chunks could not be computed for this file
    ConfirmChunksFailed,
    /// Any other failure
    OtherFailure,
}

/// What happens to one pending confirmation.
#[derive(PartialEq, Eq, Structural)]
pub enum ConfirmStep {
    /// Go on with it
    Proceed,
    /// Leave it out of this round for good
    Skip,
    /// Queue it again with this try count
    Requeue(u32),
    /// It failed too often: drop it
    Drop,
}

/// A failed confirmation is tried once more: queued again with its try
/// count increased, unless that count then exceeds `max_try_count`.
pub open spec fn spec_retry(try_count: u32, max_try_count: u32) -> ConfirmStep {
    if try_count + 1 > max_try_count { ConfirmStep::Drop } else { ConfirmStep::Requeue((try_count + 1) as u32) }
}

fn retry(try_count: u32, max_try_count: u32) -> (r: ConfirmStep)
    requires
        try_count < u32::MAX,
    ensures
        r == spec_retry(try_count, max_try_count),
{
    let next = try_count + 1;
    if next > max_try_count { ConfirmStep::Drop } else { ConfirmStep::Requeue(next) }
}

/// The step after asking for the chunks to prove: a request that no longer
/// exists, or whose chunks cannot be computed, is skipped; any other failure
/// is retried.
pub fn after_chunks_query(answer: &ChunksQuery, try_count: u32, max_try_count: u32) -> (r: ConfirmStep)
    requires
        try_count < u32::MAX,
    ensures
        *answer is Chunks ==> r == ConfirmStep::Proceed,
        (*answer is RequestNotFound || *answer is ConfirmChunksFailed) ==> r == ConfirmStep::Skip,
        *answer is OtherFailure ==> r == spec_retry(try_count, max_try_count),
        *answer is OtherFailure && try_count + 1 <= max_try_count ==> r == ConfirmStep::Requeue((try_count + 1) as u32),
        *answer is OtherFailure && try_count + 1 > max_try_count ==> r == ConfirmStep::Drop,
{
    match answer {
        ChunksQuery::Chunks => ConfirmStep::Proceed,
        ChunksQuery::RequestNotFound => ConfirmStep::Skip,
        ChunksQuery::ConfirmChunksFailed => ConfirmStep::Skip,
        ChunksQuery::OtherFailure => retry(try_count, max_try_count),
    }
}

/// The step after generating the file's proof and reading its metadata:
/// on success the file is confirmed, otherwise it is retried.
pub fn after_proof_attempt(proof_and_metadata_ok: bool, try_count: u32, max_try_count: u32) -> (r: ConfirmStep)
    requires
        try_count < u32::MAX,
    ensures
        proof_and_metadata_ok ==> r == ConfirmStep::Proceed,
        !proof_and_metadata_ok ==> r == spec_retry(try_count, max_try_count),
        !proof_and_metadata_ok && try_count + 1 <= max_try_count ==> r == ConfirmStep::Requeue((try_count + 1) as u32),
        !proof_and_metadata_ok && try_count + 1 > max_try_count ==> r == ConfirmStep::Drop,
{
    if proof_and_metadata_ok { ConfirmStep::Proceed } else { retry(try_count, max_try_count) }
}

/// Whether a confirmation round sends its transaction.
#[derive(PartialEq, Eq, Structural)]
pub enum ConfirmRound {
    /// No file got chunks to prove: nothing to do
    NothingToConfirm,
    /// No proof could be generated: the round fails
    AllProofsFailed,
    /// Send the confirmation of the proven files
    Submit,
}

/// The round's outcome from the number of files that got chunks to prove
/// and the number that got a proof.
pub fn confirm_round(with_chunks: usize, proven: usize) -> (r: ConfirmRound)
    ensures
        with_chunks == 0 ==> r == ConfirmRound::NothingToConfirm,
        with_chunks > 0 && proven == 0 ==> r == ConfirmRound::AllProofsFailed,
        with_chunks > 0 && proven > 0 ==> r == ConfirmRound::Submit,
{
    if with_chunks == 0 {
        ConfirmRound::NothingToConfirm
    } else if proven == 0 {
        ConfirmRound::AllProofsFailed
    } else {
        ConfirmRound::Submit
    }
}

} // verus!
