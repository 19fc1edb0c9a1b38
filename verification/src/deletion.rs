//! The key bookkeeping of a fisherman that proves file deletions: it
//! rebuilds the set of file keys a provider holds from finalized data plus
//! the changes since then, and keeps only the requested deletions whose
//! keys are in that set.

use vstd::prelude::*;
use crate::bytes::H256;
use crate::keyed::KeySet;
use crate::peer_stats::key_views;
use crate::capacity::ProviderId;

verus! {

/// Whose files a deletion is about.
pub enum DeletionTarget {
    /// The files a BSP stores
    Bsp(H256),
    /// The files of a bucket
    Bucket(H256),
}

/// The provider whose forest the deletion proof is against: the BSP itself,
/// or the MSP that stores the bucket, if any.
pub fn deletion_provider(target: &DeletionTarget, msp_of_bucket: Option<H256>) -> (r: Option<ProviderId>)
    ensures
        *target matches DeletionTarget::Bsp(b) ==> r == Some(ProviderId::Backup(b)),
        *target is Bucket && msp_of_bucket.is_none() ==> r.is_none(),
        (*target is Bucket && msp_of_bucket is Some) ==> r == Some(ProviderId::Main(msp_of_bucket.unwrap())),
{
    match target {
        DeletionTarget::Bsp(b) => Some(ProviderId::Backup(*b)),
        DeletionTarget::Bucket(_) => match msp_of_bucket {
            Some(m) => Some(ProviderId::Main(m)),
            None => None,
        },
    }
}

/// The deletion targets of a round, in the order they are processed: the
/// BSPs with pending deletions, then the buckets.
pub fn plan_deletion_targets(bsp_ids: &Vec<H256>, bucket_ids: &Vec<H256>) -> (r: Vec<DeletionTarget>)
    requires
        bsp_ids@.len() + bucket_ids@.len() <= usize::MAX,
    ensures
        r@.len() == bsp_ids@.len() + bucket_ids@.len(),
        forall|i: int| 0 <= i < bsp_ids@.len() ==> (#[trigger] r@[i]) == DeletionTarget::Bsp(bsp_ids@[i]),
        forall|j: int| 0 <= j < bucket_ids@.len() ==> (#[trigger] r@[bsp_ids@.len() + j]) == DeletionTarget::Bucket(bucket_ids@[j]),
{
    let mut out: Vec<DeletionTarget> = Vec::new();
    let mut i: usize = 0;
    while i < bsp_ids.len()
        invariant
            0 <= i <= bsp_ids@.len(),
            out@.len() == i,
            forall|k: int| 0 <= k < i ==> (#[trigger] out@[k]) == DeletionTarget::Bsp(bsp_ids@[k]),
        decreases bsp_ids.len() - i,
    {
        out.push(DeletionTarget::Bsp(bsp_ids[i]));
        i = i + 1;
    }
    let mut j: usize = 0;
    while j < bucket_ids.len()
        invariant
            0 <= j <= bucket_ids@.len(),
            out@.len() == bsp_ids@.len() + j,
            bsp_ids@.len() + bucket_ids@.len() <= usize::MAX,
            forall|k: int| 0 <= k < bsp_ids@.len() ==> (#[trigger] out@[k]) == DeletionTarget::Bsp(bsp_ids@[k]),
            forall|k: int| 0 <= k < j ==> (#[trigger] out@[bsp_ids@.len() + k]) == DeletionTarget::Bucket(bucket_ids@[k]),
        decreases bucket_ids.len() - j,
    {
        out.push(DeletionTarget::Bucket(bucket_ids[j]));
        proof {
            assert(out@[bsp_ids@.len() + j] == DeletionTarget::Bucket(bucket_ids@[j as int]));
        }
        j = j + 1;
    }
    out
}

/// The BSP whose forest a user deletion proof is against: the provider when
/// it is a BSP, none for an MSP or no provider.
pub fn deletion_bsp(provider: &Option<ProviderId>) -> (r: Option<H256>)
    ensures
        *provider matches Some(ProviderId::Backup(b)) ==> r == Some(b),
        !(*provider matches Some(ProviderId::Backup(_))) ==> r.is_none(),
{
    match provider {
        Some(ProviderId::Backup(b)) => Some(*b),
        _ => None,
    }
}

/// What a user's deletion request carries, as far as it is checked before
/// it is sent.
pub struct UserDeletion {
    pub has_signature: bool,
    pub has_signed_intention: bool,
    pub location_len: usize,
}

/// Why a batch of user deletions cannot be sent.
#[derive(PartialEq, Eq, Structural)]
pub enum UserDeletionError {
    /// The deletion at this index has no signature
    MissingSignature(usize),
    /// The deletion at this index has no signed intention
    MissingSignedIntention(usize),
    /// The deletion at this index has a location longer than allowed
    LocationTooLong(usize),
    /// The batch holds more deletions than one transaction takes
    BatchTooLarge,
}

/// A deletion carries its signature and intention, and its location fits.
pub open spec fn deletion_ok(d: UserDeletion, max_location_len: usize) -> bool {
    d.has_signature && d.has_signed_intention && d.location_len <= max_location_len
}

/// The error that a deletion which is not fine calls for.
pub open spec fn deletion_error(d: UserDeletion, i: int) -> UserDeletionError {
    if !d.has_signature {
        UserDeletionError::MissingSignature(i as usize)
    } else if !d.has_signed_intention {
        UserDeletionError::MissingSignedIntention(i as usize)
    } else {
        UserDeletionError::LocationTooLong(i as usize)
    }
}

/// Checks a batch of user deletions in the order the requests are built:
/// each deletion in turn (signature, then intention, then location), then
/// the size of the batch.
pub fn check_user_deletions(ds: &Vec<UserDeletion>, max_location_len: usize, max_per_batch: usize) -> (r: Result<(), UserDeletionError>)
    ensures
        (exists|i: int| 0 <= i < ds@.len() && !deletion_ok(#[trigger] ds@[i], max_location_len)) ==> ({
            let i = choose|i: int| 0 <= i < ds@.len() && !deletion_ok(#[trigger] ds@[i], max_location_len)
                && forall|j: int| 0 <= j < i ==> deletion_ok(#[trigger] ds@[j], max_location_len);
            r == Err::<(), UserDeletionError>(deletion_error(ds@[i], i))
        }),
        (forall|i: int| 0 <= i < ds@.len() ==> deletion_ok(#[trigger] ds@[i], max_location_len)) ==> (
            ds@.len() > max_per_batch ==> r == Err::<(), UserDeletionError>(UserDeletionError::BatchTooLarge)),
        (forall|i: int| 0 <= i < ds@.len() ==> deletion_ok(#[trigger] ds@[i], max_location_len)) ==> (
            ds@.len() <= max_per_batch ==> r is Ok),
{
    let mut i: usize = 0;
    while i < ds.len()
        invariant
            0 <= i <= ds@.len(),
            forall|j: int| 0 <= j < i ==> deletion_ok(#[trigger] ds@[j], max_location_len),
        decreases ds.len() - i,
    {
        let d = &ds[i];
        if !(d.has_signature && d.has_signed_intention && d.location_len <= max_location_len) {
            proof {
                let c = choose|c: int| 0 <= c < ds@.len() && !deletion_ok(#[trigger] ds@[c], max_location_len)
                    && forall|j: int| 0 <= j < c ==> deletion_ok(#[trigger] ds@[j], max_location_len);
                assert(0 <= c < ds@.len() && !deletion_ok(ds@[c], max_location_len)
                    && forall|j: int| 0 <= j < c ==> deletion_ok(#[trigger] ds@[j], max_location_len)) by {
                    assert(!deletion_ok(ds@[i as int], max_location_len));
                }
                if c < i {
                    assert(deletion_ok(ds@[c], max_location_len));
                } else if c > i {
                    assert(deletion_ok(ds@[i as int], max_location_len));
                }
                assert(c == i);
            }
            if !d.has_signature {
                return Err(UserDeletionError::MissingSignature(i));
            } else if !d.has_signed_intention {
                return Err(UserDeletionError::MissingSignedIntention(i));
            } else {
                return Err(UserDeletionError::LocationTooLong(i));
            }
        }
        i = i + 1;
    }
    if ds.len() > max_per_batch {
        Err(UserDeletionError::BatchTooLarge)
    } else {
        Ok(())
    }
}

/// A change applied to a provider's forest.
#[derive(Clone, Copy, PartialEq, Eq, Structural)]
pub enum TrieMutation {
    Add,
    Remove,
}

/// The file keys that finalised forest mutations removed, in order: their
/// files can leave the file storage once they are no longer in the forest.
pub fn removed_file_keys(mutations: &Vec<(H256, TrieMutation)>) -> (r: Vec<H256>)
    ensures
        r@ == mutations@.filter(|m: (H256, TrieMutation)| m.1 == TrieMutation::Remove).map_values(|m: (H256, TrieMutation)| m.0),
{
    let mut out: Vec<H256> = Vec::new();
    let mut i: usize = 0;
    while i < mutations.len()
        invariant
            0 <= i <= mutations@.len(),
            out@ == mutations@.take(i as int).filter(|m: (H256, TrieMutation)| m.1 == TrieMutation::Remove)
                .map_values(|m: (H256, TrieMutation)| m.0),
        decreases mutations.len() - i,
    {
        let ghost pre = mutations@.take(i as int);
        let ghost next = mutations@.take(i as int + 1);
        assert(next.drop_last() =~= pre);
        proof {
            reveal_with_fuel(Seq::filter, 1);
        }
        let m = mutations[i];
        match m.1 {
            TrieMutation::Remove => {
                out.push(m.0);
                assert(next.filter(|m: (H256, TrieMutation)| m.1 == TrieMutation::Remove)
                    =~= pre.filter(|m: (H256, TrieMutation)| m.1 == TrieMutation::Remove).push(m));
            },
            TrieMutation::Add => {
                assert(next.filter(|m: (H256, TrieMutation)| m.1 == TrieMutation::Remove)
                    =~= pre.filter(|m: (H256, TrieMutation)| m.1 == TrieMutation::Remove));
            },
        }
        assert(out@ =~= next.filter(|m: (H256, TrieMutation)| m.1 == TrieMutation::Remove).map_values(|m: (H256, TrieMutation)| m.0));
        i = i + 1;
    }
    assert(mutations@.take(mutations@.len() as int) =~= mutations@);
    out
}

/// Whether a change adds or removes a file key.
#[derive(PartialEq, Eq, Structural)]
pub enum FileKeyOperation {
    Add,
    Remove,
}

/// A change to a provider's file keys after the last finalized block.
pub struct FileKeyChange {
    pub file_key: H256,
    pub operation: FileKeyOperation,
}

/// The key set after applying `changes`, in order, to `start`.
pub open spec fn apply_changes(start: Set<Seq<u8>>, changes: Seq<FileKeyChange>) -> Set<Seq<u8>>
    decreases changes.len(),
{
    if changes.len() == 0 {
        start
    } else {
        let before = apply_changes(start, changes.drop_last());
        let c = changes.last();
        match c.operation {
            FileKeyOperation::Add => before.insert(c.file_key@),
            FileKeyOperation::Remove => before.remove(c.file_key@),
        }
    }
}

/// The file keys held after catching up: the finalized keys with the later
/// additions and removals applied in order.
pub fn catch_up_file_keys(finalized: &Vec<H256>, changes: &Vec<FileKeyChange>) -> (r: KeySet)
    ensures
        r.wf(),
        r@ == apply_changes(key_views(finalized@).to_set(), changes@),
{
    let mut set = KeySet::new();
    let mut i: usize = 0;
    while i < finalized.len()
        invariant
            0 <= i <= finalized@.len(),
            set.wf(),
            set@ == key_views(finalized@.take(i as int)).to_set(),
        decreases finalized.len() - i,
    {
        set.insert(finalized[i]);
        proof {
            assert(key_views(finalized@.take(i as int + 1)) =~= key_views(finalized@.take(i as int)).push(finalized@[i as int]@));
            key_views(finalized@.take(i as int)).lemma_push_to_set_commute(finalized@[i as int]@);
        }
        i = i + 1;
    }
    assert(finalized@.take(finalized@.len() as int) =~= finalized@);
    let ghost start = set@;
    let mut j: usize = 0;
    while j < changes.len()
        invariant
            0 <= j <= changes@.len(),
            set.wf(),
            set@ == apply_changes(start, changes@.take(j as int)),
        decreases changes.len() - j,
    {
        assert(changes@.take(j as int + 1).drop_last() =~= changes@.take(j as int));
        let c = &changes[j];
        match c.operation {
            FileKeyOperation::Add => {
                set.insert(c.file_key);
            },
            FileKeyOperation::Remove => {
                set.remove(&c.file_key);
            },
        }
        j = j + 1;
    }
    assert(changes@.take(changes@.len() as int) =~= changes@);
    set
}

/// No requested deletion is for a key that is still held.
#[derive(PartialEq, Eq, Structural)]
pub struct NoValidFileKeys {
    pub requested: usize,
}

/// The requested keys held in `forest`, in the order they were requested.
pub open spec fn valid_deletions(requested: Seq<H256>, forest: Set<Seq<u8>>) -> Seq<H256> {
    requested.filter(|k: H256| forest.contains(k@))
}

/// Keeps the requested deletions whose key is held; fails when none is.
pub fn filter_valid_deletions(requested: &Vec<H256>, forest: &KeySet) -> (r: Result<Vec<H256>, NoValidFileKeys>)
    ensures
        valid_deletions(requested@, forest@).len() > 0 ==> (r matches Ok(v) && v@ == valid_deletions(requested@, forest@)),
        valid_deletions(requested@, forest@).len() == 0 ==> r == Err::<Vec<H256>, NoValidFileKeys>((NoValidFileKeys { requested: requested.len() })),
{
    let mut out: Vec<H256> = Vec::new();
    let mut i: usize = 0;
    while i < requested.len()
        invariant
            0 <= i <= requested@.len(),
            out@ == valid_deletions(requested@.take(i as int), forest@),
        decreases requested.len() - i,
    {
        assert(requested@.take(i as int + 1).drop_last() =~= requested@.take(i as int));
        proof {
            reveal_with_fuel(Seq::filter, 1);
        }
        if forest.contains(&requested[i]) {
            out.push(requested[i]);
        }
        i = i + 1;
    }
    assert(requested@.take(requested@.len() as int) =~= requested@);
    if out.len() == 0 {
        Err(NoValidFileKeys { requested: requested.len() })
    } else {
        Ok(out)
    }
}

} // verus!
