//! How an MSP assembles its answer to pending storage requests: responses
//! for requests that are no longer pending are dropped, the rest are grouped
//! by bucket into accepted and rejected file keys, and a failed chunk write
//! turns into a rejection reason.

use vstd::prelude::*;
use crate::bytes::{H256, h256_eq};
use crate::keyed::KeySet;
use crate::volunteer::WriteStep;

verus! {

/// Why an MSP rejects a storage request.
#[derive(Clone, Copy, PartialEq, Eq, Structural)]
pub enum RejectReason {
    ReachedMaximumCapacity,
    ReceivedInvalidProof,
    FileKeyAlreadyStored,
    RequestExpired,
    InternalError,
}

/// The MSP's answer to one storage request.
#[derive(Clone, Copy, PartialEq, Eq, Structural)]
pub enum MspResponse {
    Accept,
    Reject(RejectReason),
}

/// An answer to the storage request of `file_key`, a file of `bucket_id`.
#[derive(Clone, Copy)]
pub struct RespondItem {
    pub file_key: H256,
    pub bucket_id: H256,
    pub response: MspResponse,
}

/// The answers for one bucket.
pub struct BucketResponse {
    pub bucket_id: H256,
    pub accept: Vec<H256>,
    pub reject: Vec<(H256, RejectReason)>,
}

/// The items whose file key is still pending, in order.
pub open spec fn pending_items(items: Seq<RespondItem>, pending: Set<Seq<u8>>) -> Seq<RespondItem> {
    items.filter(|i: RespondItem| pending.contains(i.file_key@))
}

/// Drops the answers to requests that are no longer pending.
pub fn filter_pending(items: &Vec<RespondItem>, pending: &KeySet) -> (r: Vec<RespondItem>)
    ensures
        r@ == pending_items(items@, pending@),
{
    let mut out: Vec<RespondItem> = Vec::new();
    let mut i: usize = 0;
    while i < items.len()
        invariant
            0 <= i <= items@.len(),
            out@ == pending_items(items@.take(i as int), pending@),
        decreases items.len() - i,
    {
        assert(items@.take(i as int + 1).drop_last() =~= items@.take(i as int));
        proof {
            reveal_with_fuel(Seq::filter, 1);
        }
        if pending.contains(&items[i].file_key) {
            out.push(items[i]);
        }
        i = i + 1;
    }
    assert(items@.take(items@.len() as int) =~= items@);
    out
}

/// The buckets of the items, each once, in the order they first appear.
pub open spec fn buckets_of(items: Seq<RespondItem>) -> Seq<Seq<u8>>
    decreases items.len(),
{
    if items.len() == 0 {
        Seq::empty()
    } else {
        let before = buckets_of(items.drop_last());
        if before.contains(items.last().bucket_id@) { before } else { before.push(items.last().bucket_id@) }
    }
}

/// The accepted file keys of bucket `b`, in order.
pub open spec fn accepts_of(items: Seq<RespondItem>, b: Seq<u8>) -> Seq<H256>
    decreases items.len(),
{
    if items.len() == 0 {
        Seq::empty()
    } else {
        let before = accepts_of(items.drop_last(), b);
        let it = items.last();
        if it.bucket_id@ == b && it.response is Accept { before.push(it.file_key) } else { before }
    }
}

/// The rejected file keys of bucket `b` with their reasons, in order.
pub open spec fn rejects_of(items: Seq<RespondItem>, b: Seq<u8>) -> Seq<(H256, RejectReason)>
    decreases items.len(),
{
    if items.len() == 0 {
        Seq::empty()
    } else {
        let before = rejects_of(items.drop_last(), b);
        let it = items.last();
        match it.response {
            MspResponse::Reject(reason) => if it.bucket_id@ == b { before.push((it.file_key, reason)) } else { before },
            MspResponse::Accept => before,
        }
    }
}

/// The grouping of `items` that `groups` holds: one group per bucket in the
/// order of first appearance, each with that bucket's accepted and rejected
/// file keys in order.
pub open spec fn is_grouping(groups: Seq<BucketResponse>, items: Seq<RespondItem>) -> bool {
    &&& groups.len() == buckets_of(items).len()
    &&& forall|g: int| 0 <= g < groups.len() ==> {
        &&& (#[trigger] groups[g]).bucket_id@ == buckets_of(items)[g]
        &&& groups[g].accept@ == accepts_of(items, buckets_of(items)[g])
        &&& groups[g].reject@ == rejects_of(items, buckets_of(items)[g])
    }
}

proof fn lemma_buckets_distinct(items: Seq<RespondItem>)
    ensures
        buckets_of(items).no_duplicates(),
    decreases items.len(),
{
    if items.len() > 0 {
        lemma_buckets_distinct(items.drop_last());
    }
}

/// Groups the answers by bucket, keeping the order of the answers within
/// each bucket.
pub fn group_by_bucket(items: &Vec<RespondItem>) -> (r: Vec<BucketResponse>)
    ensures
        is_grouping(r@, items@),
{
    let mut groups: Vec<BucketResponse> = Vec::new();
    let mut i: usize = 0;
    while i < items.len()
        invariant
            0 <= i <= items@.len(),
            is_grouping(groups@, items@.take(i as int)),
        decreases items.len() - i,
    {
        let ghost prefix = items@.take(i as int);
        let ghost next = items@.take(i as int + 1);
        assert(next.drop_last() =~= prefix);
        let it = items[i];
        let mut g: usize = 0;
        let mut found = false;
        while g < groups.len()
            invariant_except_break
                !found,
            invariant
                0 <= g <= groups@.len(),
                forall|h: int| 0 <= h < g ==> (#[trigger] groups@[h]).bucket_id@ != it.bucket_id@,
            ensures
                found ==> g < groups@.len() && groups@[g as int].bucket_id@ == it.bucket_id@,
                !found ==> g == groups@.len(),
            decreases groups.len() - g,
        {
            if h256_eq(&groups[g].bucket_id, &it.bucket_id) {
                found = true;
                break;
            }
            g = g + 1;
        }
        proof {
            lemma_buckets_distinct(prefix);
        }
        if found {
            let ghost old_groups = groups@;
            match it.response {
                MspResponse::Accept => {
                    groups[g].accept.push(it.file_key);
                },
                MspResponse::Reject(reason) => {
                    groups[g].reject.push((it.file_key, reason));
                },
            }
            proof {
                assert(buckets_of(prefix).contains(it.bucket_id@)) by {
                    assert(buckets_of(prefix)[g as int] == it.bucket_id@);
                }
                assert(buckets_of(next) == buckets_of(prefix));
                assert forall|h: int| 0 <= h < groups@.len() implies {
                    &&& (#[trigger] groups@[h]).bucket_id@ == buckets_of(next)[h]
                    &&& groups@[h].accept@ == accepts_of(next, buckets_of(next)[h])
                    &&& groups@[h].reject@ == rejects_of(next, buckets_of(next)[h])
                } by {
                    if h != g {
                        assert(groups@[h] == old_groups[h]);
                        assert(buckets_of(prefix)[h] != buckets_of(prefix)[g as int]);
                    }
                }
            }
        } else {
            let mut acc: Vec<H256> = Vec::new();
            let mut rej: Vec<(H256, RejectReason)> = Vec::new();
            match it.response {
                MspResponse::Accept => {
                    acc.push(it.file_key);
                },
                MspResponse::Reject(reason) => {
                    rej.push((it.file_key, reason));
                },
            }
            let ghost old_groups = groups@;
            groups.push(BucketResponse { bucket_id: it.bucket_id, accept: acc, reject: rej });
            proof {
                assert(!buckets_of(prefix).contains(it.bucket_id@)) by {
                    if buckets_of(prefix).contains(it.bucket_id@) {
                        let k = choose|k: int| 0 <= k < buckets_of(prefix).len() && buckets_of(prefix)[k] == it.bucket_id@;
                        assert(old_groups[k].bucket_id@ == it.bucket_id@);
                    }
                }
                assert(buckets_of(next) == buckets_of(prefix).push(it.bucket_id@));
                assert(accepts_of(prefix, it.bucket_id@) =~= Seq::<H256>::empty()) by {
                    lemma_absent_bucket_empty(prefix, it.bucket_id@);
                }
                assert(rejects_of(prefix, it.bucket_id@) =~= Seq::<(H256, RejectReason)>::empty()) by {
                    lemma_absent_bucket_empty(prefix, it.bucket_id@);
                }
                assert forall|h: int| 0 <= h < groups@.len() implies {
                    &&& (#[trigger] groups@[h]).bucket_id@ == buckets_of(next)[h]
                    &&& groups@[h].accept@ == accepts_of(next, buckets_of(next)[h])
                    &&& groups@[h].reject@ == rejects_of(next, buckets_of(next)[h])
                } by {
                    if h < old_groups.len() {
                        assert(groups@[h] == old_groups[h]);
                        assert(buckets_of(next)[h] == buckets_of(prefix)[h]);
                        assert(buckets_of(prefix)[h] != it.bucket_id@);
                    } else {
                        assert(h == old_groups.len());
                    }
                }
            }
        }
        i = i + 1;
    }
    assert(items@.take(items@.len() as int) =~= items@);
    groups
}

proof fn lemma_absent_bucket_empty(items: Seq<RespondItem>, b: Seq<u8>)
    requires
        !buckets_of(items).contains(b),
    ensures
        accepts_of(items, b) == Seq::<H256>::empty(),
        rejects_of(items, b) == Seq::<(H256, RejectReason)>::empty(),
    decreases items.len(),
{
    if items.len() > 0 {
        let before = buckets_of(items.drop_last());
        if before.contains(b) {
            let k = choose|k: int| 0 <= k < before.len() && before[k] == b;
            if before.contains(items.last().bucket_id@) {
                assert(buckets_of(items)[k] == b);
            } else {
                assert(buckets_of(items)[k] == b);
            }
        }
        if items.last().bucket_id@ == b {
            if before.contains(b) {
                let k = choose|k: int| 0 <= k < before.len() && before[k] == b;
                assert(buckets_of(items)[k] == b);
            } else {
                assert(buckets_of(items)[before.len() as int] == b);
            }
        }
        lemma_absent_bucket_empty(items.drop_last(), b);
    }
}

/// The file keys of all groups: each bucket's accepted keys, then its
/// rejected keys, bucket after bucket.
pub open spec fn responded_keys_of(groups: Seq<BucketResponse>) -> Seq<H256>
    decreases groups.len(),
{
    if groups.len() == 0 {
        Seq::empty()
    } else {
        let g = groups.last();
        responded_keys_of(groups.drop_last()) + g.accept@ + g.reject@.map_values(|x: (H256, RejectReason)| x.0)
    }
}

/// Collects the file keys an answer covers, so that their status can be
/// reset when the answer fails.
pub fn responded_file_keys(groups: &Vec<BucketResponse>) -> (r: Vec<H256>)
    ensures
        r@ == responded_keys_of(groups@),
{
    let mut out: Vec<H256> = Vec::new();
    let mut g: usize = 0;
    while g < groups.len()
        invariant
            0 <= g <= groups@.len(),
            out@ == responded_keys_of(groups@.take(g as int)),
        decreases groups.len() - g,
    {
        assert(groups@.take(g as int + 1).drop_last() =~= groups@.take(g as int));
        let ghost before = out@;
        let grp = &groups[g];
        let mut a: usize = 0;
        while a < grp.accept.len()
            invariant
                0 <= a <= grp.accept@.len(),
                out@ == before + grp.accept@.take(a as int),
            decreases grp.accept.len() - a,
        {
            out.push(grp.accept[a]);
            assert(grp.accept@.take(a as int + 1) =~= grp.accept@.take(a as int).push(grp.accept@[a as int]));
            a = a + 1;
        }
        assert(grp.accept@.take(a as int) =~= grp.accept@);
        let ghost mid = out@;
        let mut j: usize = 0;
        while j < grp.reject.len()
            invariant
                0 <= j <= grp.reject@.len(),
                out@ == mid + grp.reject@.take(j as int).map_values(|x: (H256, RejectReason)| x.0),
            decreases grp.reject.len() - j,
        {
            out.push(grp.reject[j].0);
            assert(grp.reject@.take(j as int + 1).map_values(|x: (H256, RejectReason)| x.0)
                =~= grp.reject@.take(j as int).map_values(|x: (H256, RejectReason)| x.0).push(grp.reject@[j as int].0));
            j = j + 1;
        }
        assert(grp.reject@.take(j as int) =~= grp.reject@);
        assert(out@ =~= responded_keys_of(groups@.take(g as int + 1)));
        g = g + 1;
    }
    assert(groups@.take(groups@.len() as int) =~= groups@);
    out
}

/// The rejection that a failed step of writing an uploaded chunk calls for;
/// `None` when the write went on or completed the file.
pub fn rejection_for_write_step(step: &WriteStep) -> (r: Option<RejectReason>)
    ensures
        (*step == WriteStep::Continue || *step == WriteStep::Complete) ==> r.is_none(),
        (*step != WriteStep::Continue && *step != WriteStep::Complete) ==> r == Some(RejectReason::InternalError),
{
    match step {
        WriteStep::Continue => None,
        WriteStep::Complete => None,
        _ => Some(RejectReason::InternalError),
    }
}

/// A chain error that a failed answer transaction dispatched with.
#[derive(PartialEq, Eq, Structural)]
pub enum ModuleError {
    /// The forest proof did not verify
    ForestProofVerificationFailed,
    /// The forest changes could not be applied
    FailedToApplyDelta,
    /// Any other error of a pallet
    Other,
}

/// How sending the answer transaction ended.
pub enum AnswerSubmission {
    /// It could not be sent, even after the retries
    Failed,
    /// It was included but no events came back
    NoEvents,
    /// It was included and succeeded
    Succeeded,
    /// It was included and failed with a pallet error
    FailedWithModuleError(ModuleError),
    /// It was included and failed with a pallet error that could not be decoded
    FailedWithUndecodableError,
    /// It was included and failed with an error of another kind
    FailedWithOtherError,
}

/// What happens to the statuses of the answered file keys.
#[derive(PartialEq, Eq, Structural)]
pub enum StatusFollowUp {
    /// Nothing: the answer went through
    Keep,
    /// Forget them, so that the next block answers them again
    ResetForRetry,
    /// Mark them abandoned: retrying would not help
    Abandon,
}

/// Why the follow-up of an answer fails.
#[derive(PartialEq, Eq, Structural)]
pub enum FollowUpError {
    /// The transaction could not be sent
    SubmissionFailed,
    /// The pallet error could not be decoded
    UndecodableError,
}

/// The follow-up of an answer transaction: statuses are reset for a retry
/// when it could not be sent (which fails the task), when no events came
/// back, or when it failed on a proof that a newer forest root may fix;
/// they are abandoned on any other dispatch error; an error that cannot be
/// decoded fails the task.
pub fn answer_follow_up(submission: &AnswerSubmission) -> (r: (StatusFollowUp, Result<(), FollowUpError>))
    ensures
        *submission is Failed ==> r == (StatusFollowUp::ResetForRetry, Err::<(), FollowUpError>(FollowUpError::SubmissionFailed)),
        *submission is NoEvents ==> r == (StatusFollowUp::ResetForRetry, Ok::<(), FollowUpError>(())),
        *submission is Succeeded ==> r == (StatusFollowUp::Keep, Ok::<(), FollowUpError>(())),
        (*submission matches AnswerSubmission::FailedWithModuleError(e) && e != ModuleError::Other)
            ==> r == (StatusFollowUp::ResetForRetry, Ok::<(), FollowUpError>(())),
        *submission == AnswerSubmission::FailedWithModuleError(ModuleError::Other)
            ==> r == (StatusFollowUp::Abandon, Ok::<(), FollowUpError>(())),
        *submission is FailedWithOtherError ==> r == (StatusFollowUp::Abandon, Ok::<(), FollowUpError>(())),
        *submission is FailedWithUndecodableError ==> r == (StatusFollowUp::Keep, Err::<(), FollowUpError>(FollowUpError::UndecodableError)),
{
    match submission {
        AnswerSubmission::Failed => (StatusFollowUp::ResetForRetry, Err(FollowUpError::SubmissionFailed)),
        AnswerSubmission::NoEvents => (StatusFollowUp::ResetForRetry, Ok(())),
        AnswerSubmission::Succeeded => (StatusFollowUp::Keep, Ok(())),
        AnswerSubmission::FailedWithModuleError(e) => match e {
            ModuleError::Other => (StatusFollowUp::Abandon, Ok(())),
            _ => (StatusFollowUp::ResetForRetry, Ok(())),
        },
        AnswerSubmission::FailedWithUndecodableError => (StatusFollowUp::Keep, Err(FollowUpError::UndecodableError)),
        AnswerSubmission::FailedWithOtherError => (StatusFollowUp::Abandon, Ok(())),
    }
}

} // verus!
