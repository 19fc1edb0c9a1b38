//! The decisions of an MSP checking that it holds every file of a bucket,
//! and of a BSP retrying a stop-storing request: which files have to be
//! recovered, from which peers, what a recovery round came to, and when a
//! failed request is queued again.

use vstd::prelude::*;
use crate::bytes::H256;
use crate::keyed::BytesSet;
use crate::peer_manager::vec_views;
use crate::forest_cache::ForestStorageCaching;
use crate::peer_stats::key_views;
use vstd::string::StringSliceAdditionalSpecFns;

verus! {

/// What the file storage holds of a file of the bucket's forest.
#[derive(PartialEq, Eq, Structural)]
pub enum StoredFile {
    /// The file is not in the file storage (or its metadata could not be read)
    Missing,
    /// The file is there but misses chunks (or its completeness could not be read)
    Incomplete,
    /// The file is there, complete
    Complete,
}

/// A file of the bucket's forest with what the file storage holds of it.
pub struct ForestFileStatus {
    pub file_key: H256,
    pub stored: StoredFile,
}

/// The files that have to be recovered, in forest order: those not
/// complete in the file storage.
pub open spec fn needing_recovery(files: Seq<ForestFileStatus>) -> Seq<ForestFileStatus> {
    files.filter(|f: ForestFileStatus| f.stored != StoredFile::Complete)
}

/// The keys of the files of the forest that are missing or incomplete in
/// the file storage, in order.
pub fn files_to_recover(files: &Vec<ForestFileStatus>) -> (r: Vec<H256>)
    ensures
        r@ == needing_recovery(files@).map_values(|f: ForestFileStatus| f.file_key),
{
    let mut out: Vec<H256> = Vec::new();
    let mut i: usize = 0;
    while i < files.len()
        invariant
            0 <= i <= files@.len(),
            out@ == needing_recovery(files@.take(i as int)).map_values(|f: ForestFileStatus| f.file_key),
        decreases files.len() - i,
    {
        assert(files@.take(i as int + 1).drop_last() =~= files@.take(i as int));
        proof {
            reveal_with_fuel(Seq::filter, 1);
        }
        let complete = match files[i].stored {
            StoredFile::Complete => true,
            _ => false,
        };
        if !complete {
            out.push(files[i].file_key);
            assert(needing_recovery(files@.take(i as int + 1)) =~= needing_recovery(files@.take(i as int)).push(files@[i as int]));
        } else {
            assert(needing_recovery(files@.take(i as int + 1)) =~= needing_recovery(files@.take(i as int)));
        }
        assert(out@ =~= needing_recovery(files@.take(i as int + 1)).map_values(|f: ForestFileStatus| f.file_key));
        i = i + 1;
    }
    assert(files@.take(files@.len() as int) =~= files@);
    out
}

/// The peer ids of all lists, flattened.
pub open spec fn all_peer_ids(lists: Seq<Vec<Vec<u8>>>) -> Set<Seq<u8>>
    decreases lists.len(),
{
    if lists.len() == 0 {
        Set::empty()
    } else {
        all_peer_ids(lists.drop_last()).union(vec_views(lists.last()@).to_set())
    }
}

/// The peers that can serve a file, gathered from the records of its
/// storage requests: each peer once.
pub fn merge_peer_ids(lists: &Vec<Vec<Vec<u8>>>) -> (r: Vec<Vec<u8>>)
    ensures
        vec_views(r@).no_duplicates(),
        vec_views(r@).to_set() == all_peer_ids(lists@),
{
    let mut seen = BytesSet::new();
    let mut out: Vec<Vec<u8>> = Vec::new();
    let mut l: usize = 0;
    while l < lists.len()
        invariant
            0 <= l <= lists@.len(),
            seen.wf(),
            vec_views(out@).no_duplicates(),
            vec_views(out@).to_set() == seen@,
            seen@ == all_peer_ids(lists@.take(l as int)),
        decreases lists.len() - l,
    {
        assert(lists@.take(l as int + 1).drop_last() =~= lists@.take(l as int));
        let list = &lists[l];
        let ghost before = seen@;
        let mut k: usize = 0;
        while k < list.len()
            invariant
                0 <= k <= list@.len(),
                seen.wf(),
                vec_views(out@).no_duplicates(),
                vec_views(out@).to_set() == seen@,
                seen@ == before.union(vec_views(list@.take(k as int)).to_set()),
            decreases list.len() - k,
        {
            let ghost prev_out = vec_views(out@);
            let id = vstd::slice::slice_to_vec(list[k].as_slice());
            let copy = vstd::slice::slice_to_vec(list[k].as_slice());
            let fresh = seen.insert(id);
            if fresh {
                out.push(copy);
                proof {
                    assert(vec_views(out@) =~= prev_out.push(list@[k as int]@));
                    assert forall|a: int, b: int| 0 <= a < b < vec_views(out@).len() implies vec_views(out@)[a] != vec_views(out@)[b] by {
                        if b == prev_out.len() {
                            assert(prev_out.to_set().contains(prev_out[a]));
                        }
                    }
                    prev_out.lemma_push_to_set_commute(list@[k as int]@);
                }
            }
            proof {
                assert(vec_views(list@.take(k as int + 1)) =~= vec_views(list@.take(k as int)).push(list@[k as int]@));
                vec_views(list@.take(k as int)).lemma_push_to_set_commute(list@[k as int]@);
                assert(seen@ =~= before.union(vec_views(list@.take(k as int + 1)).to_set()));
            }
            k = k + 1;
        }
        assert(list@.take(list@.len() as int) =~= list@);
        l = l + 1;
    }
    assert(lists@.take(lists@.len() as int) =~= lists@);
    out
}

/// The buckets an MSP manages whose forest it does not have, in order.
pub fn buckets_missing_forest(buckets: &Vec<H256>, forests: &ForestStorageCaching) -> (r: Vec<H256>)
    ensures
        r@ == buckets@.filter(|b: H256| !forests.known().contains(b@)),
{
    let mut out: Vec<H256> = Vec::new();
    let mut i: usize = 0;
    while i < buckets.len()
        invariant
            0 <= i <= buckets@.len(),
            out@ == buckets@.take(i as int).filter(|b: H256| !forests.known().contains(b@)),
        decreases buckets.len() - i,
    {
        assert(buckets@.take(i as int + 1).drop_last() =~= buckets@.take(i as int));
        proof {
            reveal_with_fuel(Seq::filter, 1);
        }
        let key = vstd::slice::slice_to_vec(buckets[i].as_slice());
        if !forests.is_forest_storage_present(&key) {
            out.push(buckets[i]);
        }
        i = i + 1;
    }
    assert(buckets@.take(buckets@.len() as int) =~= buckets@);
    out
}

/// How the recovery of one file ended.
#[derive(PartialEq, Eq, Structural)]
pub enum RecoveryResult {
    /// The file is complete now
    Recovered,
    /// The download ended without error but the file is still incomplete
    StillIncomplete,
    /// The recovery failed
    Failed,
    /// The recovery task panicked
    Panicked,
}

/// The count of the results equal to `which`.
pub open spec fn count_results(s: Seq<RecoveryResult>, which: RecoveryResult) -> int
    decreases s.len(),
{
    if s.len() == 0 { 0 } else { count_results(s.drop_last(), which) + if s.last() == which { 1int } else { 0int } }
}

proof fn lemma_count_results_bound(s: Seq<RecoveryResult>, which: RecoveryResult)
    ensures
        0 <= count_results(s, which) <= s.len(),
    decreases s.len(),
{
    if s.len() > 0 {
        lemma_count_results_bound(s.drop_last(), which);
    }
}

proof fn lemma_count_results_total(s: Seq<RecoveryResult>)
    ensures
        count_results(s, RecoveryResult::Recovered) + count_results(s, RecoveryResult::StillIncomplete)
            + count_results(s, RecoveryResult::Failed) + count_results(s, RecoveryResult::Panicked) == s.len(),
    decreases s.len(),
{
    if s.len() > 0 {
        lemma_count_results_total(s.drop_last());
    }
}

/// What a recovery round came to.
#[derive(PartialEq, Eq, Structural)]
pub struct RecoveryTally {
    pub recovered: usize,
    pub failed: usize,
    pub panicked: usize,
}

/// Counts a round's results: a file still incomplete after its download
/// counts as failed.
pub fn tally_recoveries(results: &Vec<RecoveryResult>) -> (r: RecoveryTally)
    ensures
        r.recovered == count_results(results@, RecoveryResult::Recovered),
        r.failed == count_results(results@, RecoveryResult::StillIncomplete) + count_results(results@, RecoveryResult::Failed),
        r.panicked == count_results(results@, RecoveryResult::Panicked),
        r.recovered + r.failed + r.panicked == results@.len(),
{
    let mut recovered: usize = 0;
    let mut failed: usize = 0;
    let mut panicked: usize = 0;
    let mut i: usize = 0;
    while i < results.len()
        invariant
            0 <= i <= results@.len(),
            recovered == count_results(results@.take(i as int), RecoveryResult::Recovered),
            failed == count_results(results@.take(i as int), RecoveryResult::StillIncomplete)
                + count_results(results@.take(i as int), RecoveryResult::Failed),
            panicked == count_results(results@.take(i as int), RecoveryResult::Panicked),
        decreases results.len() - i,
    {
        let ghost t = results@.take(i as int);
        assert(results@.take(i as int + 1).drop_last() =~= t);
        proof {
            lemma_count_results_total(t);
            lemma_count_results_bound(t, RecoveryResult::Recovered);
            lemma_count_results_bound(t, RecoveryResult::StillIncomplete);
            lemma_count_results_bound(t, RecoveryResult::Failed);
            lemma_count_results_bound(t, RecoveryResult::Panicked);
        }
        match results[i] {
            RecoveryResult::Recovered => { recovered = recovered + 1; },
            RecoveryResult::StillIncomplete => { failed = failed + 1; },
            RecoveryResult::Failed => { failed = failed + 1; },
            RecoveryResult::Panicked => { panicked = panicked + 1; },
        }
        i = i + 1;
    }
    assert(results@.take(results@.len() as int) =~= results@);
    proof {
        lemma_count_results_total(results@);
    }
    RecoveryTally { recovered, failed, panicked }
}

/// How often a stop-storing request that failed on a proof error is
/// queued again.
pub const MAX_PROOF_RETRIES: u32 = 3;

/// `pat` occurs in `s` at `i`.
pub open spec fn occurs_at(s: Seq<u8>, pat: Seq<u8>, i: int) -> bool {
    0 <= i && i + pat.len() <= s.len() && s.subrange(i, i + pat.len()) == pat
}

/// `pat` occurs somewhere in `s`.
pub open spec fn occurs_in(s: Seq<u8>, pat: Seq<u8>) -> bool {
    exists|i: int| occurs_at(s, pat, i)
}

fn contains_bytes(s: &[u8], pat: &[u8]) -> (r: bool)
    ensures
        r == occurs_in(s@, pat@),
{
    if pat.len() > s.len() {
        proof {
            assert forall|i: int| !occurs_at(s@, pat@, i) by {}
        }
        return false;
    }
    let mut i: usize = 0;
    let slen = s.len();
    let last = slen - pat.len();
    while i <= last
        invariant
            pat@.len() <= s@.len(),
            last == s@.len() - pat@.len(),
            slen == s@.len(),
            0 <= i <= last + 1,
            forall|j: int| 0 <= j < i ==> !#[trigger] occurs_at(s@, pat@, j),
        decreases s.len() - i,
    {
        let mut k: usize = 0;
        let mut same = true;
        while k < pat.len()
            invariant
                0 <= k <= pat@.len(),
                i + pat@.len() <= s@.len(),
                i <= last,
                last == s@.len() - pat@.len(),
                slen == s@.len(),
                same == (forall|t: int| 0 <= t < k ==> s@[i + t] == pat@[t]),
            decreases pat.len() - k,
        {
            if s[i + k] != pat[k] {
                same = false;
            }
            k = k + 1;
        }
        if same {
            assert(s@.subrange(i as int, i + pat@.len()) =~= pat@);
            assert(occurs_at(s@, pat@, i as int));
            return true;
        }
        proof {
            if occurs_at(s@, pat@, i as int) {
                let t = choose|t: int| 0 <= t < pat@.len() && s@[i + t] != pat@[t];
                assert(s@.subrange(i as int, i + pat@.len())[t] == s@[i + t]);
            }
        }
        i = i + 1;
    }
    proof {
        assert forall|j: int| !occurs_at(s@, pat@, j) by {
            if j >= i {
                assert(j + pat@.len() > s@.len());
            }
        }
    }
    false
}

/// Whether a failure, by its debug text, is a proof that the chain could
/// not verify or apply (such a request is worth retrying with a new proof).
pub fn is_proof_error(error_text: &str) -> (r: bool)
    ensures
        r == (occurs_in(error_text.spec_bytes(), "ForestProofVerificationFailed".spec_bytes())
            || occurs_in(error_text.spec_bytes(), "FailedToApplyDelta".spec_bytes())),
{
    let bytes = error_text.as_bytes();
    let a = "ForestProofVerificationFailed".as_bytes();
    let b = "FailedToApplyDelta".as_bytes();
    contains_bytes(bytes, a) || contains_bytes(bytes, b)
}

/// Queues a failed request again with one more try, unless it then exceeds
/// the retries allowed: `Some` of the new try count, or `None` to drop it.
pub fn requeue_try_count(try_count: u32) -> (r: Option<u32>)
    requires
        try_count < u32::MAX,
    ensures
        try_count + 1 > MAX_PROOF_RETRIES ==> r.is_none(),
        try_count + 1 <= MAX_PROOF_RETRIES ==> r == Some((try_count + 1) as u32),
{
    let next = try_count + 1;
    if next > MAX_PROOF_RETRIES { None } else { Some(next) }
}

} // verus!
