//! Properties of the library that span several calls or hold of every
//! input, stated over the same spec functions the operations' contracts
//! use.

use vstd::prelude::*;
use crate::bytes::H256;
use crate::volunteer::{chunks_count, expected_chunk_size};
use crate::confirm_storing::{spec_retry, ConfirmStep};
use crate::download::{batches_of, lemma_process_stops, spec_process_chunks, ReceivedChunk};
use crate::fees::chunks_of;
use crate::download_state::{after_init, after_mark, chunk_range};
use crate::peer_manager::{
    PeerView, peer_added, success_recorded, failure_recorded, persisted_of, persisted_view, stats_agree,
    stats_records_view, with_key_records,
};
use crate::peer_stats::PersistentBspPeerStats;
use crate::upload::push_outcome;
use crate::download_state::FileMetadataView;
use crate::lru_cache::entry_keys;
use crate::forest_cache::{creation_of, touched, opened, ForestCreation};
use crate::capacity::{CapacityPlan, spec_plan_capacity};
use crate::deletion::{FileKeyChange, FileKeyOperation, apply_changes};
use crate::msp_response::{RespondItem, MspResponse, buckets_of, accepts_of, rejects_of};
use crate::peer_stats::{spec_success_score, spec_speed_score, spec_score, SCORE_UNIT, SUCCESS_WEIGHT, SPEED_WEIGHT};

verus! {

/// Cutting the missing chunks of a file into request batches loses no
/// chunk, adds none and keeps their order; no batch is empty or longer
/// than the limit.
pub proof fn law_chunk_batches_cover(s: Seq<u64>, m: nat)
    requires
        m > 0,
    ensures
        batches_of(s, m).flatten() == s,
        forall|i: int| 0 <= i < batches_of(s, m).len() ==> 0 < (#[trigger] batches_of(s, m)[i]).len() <= m,
    decreases s.len(),
{
    if s.len() == 0 {
        assert(batches_of(s, m) =~= Seq::<Seq<u64>>::empty());
    } else if s.len() <= m {
        seq![s].lemma_flatten_one_element();
    } else {
        law_chunk_batches_cover(s.skip(m as int), m);
        let rest = batches_of(s.skip(m as int), m);
        vstd::seq_lib::lemma_flatten_concat(seq![s.take(m as int)], rest);
        seq![s.take(m as int)].lemma_flatten_one_element();
        assert(s.take(m as int) + s.skip(m as int) =~= s);
        assert forall|i: int| 0 <= i < batches_of(s, m).len() implies 0 < (#[trigger] batches_of(s, m)[i]).len() <= m by {
            if i > 0 {
                assert(batches_of(s, m)[i] == rest[i - 1]);
            }
        }
    }
}

/// Cutting the users with debt into charging groups charges every user
/// exactly once, in order; no group is empty or larger than the limit.
pub proof fn law_user_groups_cover(s: Seq<H256>, m: nat)
    requires
        m > 0,
    ensures
        chunks_of(s, m).flatten() == s,
        forall|i: int| 0 <= i < chunks_of(s, m).len() ==> 0 < (#[trigger] chunks_of(s, m)[i]).len() <= m,
    decreases s.len(),
{
    if s.len() == 0 {
        assert(chunks_of(s, m) =~= Seq::<Seq<H256>>::empty());
    } else if s.len() <= m {
        seq![s].lemma_flatten_one_element();
    } else {
        law_user_groups_cover(s.skip(m as int), m);
        let rest = chunks_of(s.skip(m as int), m);
        vstd::seq_lib::lemma_flatten_concat(seq![s.take(m as int)], rest);
        seq![s.take(m as int)].lemma_flatten_one_element();
        assert(s.take(m as int) + s.skip(m as int) =~= s);
        assert forall|i: int| 0 <= i < chunks_of(s, m).len() implies 0 < (#[trigger] chunks_of(s, m)[i]).len() <= m by {
            if i > 0 {
                assert(chunks_of(s, m)[i] == rest[i - 1]);
            }
        }
    }
}

/// The missing chunks after the chunks `order` of `file_key` were
/// downloaded, one after the other.
pub open spec fn after_marks(m: Map<Seq<u8>, Set<u64>>, file_key: Seq<u8>, order: Seq<u64>) -> Map<Seq<u8>, Set<u64>>
    decreases order.len(),
{
    if order.len() == 0 {
        m
    } else {
        after_mark(after_marks(m, file_key, order.drop_last()), file_key, order.last())
    }
}

/// Once a file of `n` chunks starts downloading, the chunks still missing
/// after any sequence of downloads (repeats and stray ids included) are
/// exactly those of `0 .. n` not downloaded; the file is complete, and no
/// longer tracked, exactly when every chunk was downloaded. Other files are
/// not touched.
pub proof fn law_missing_chunks_after_downloads(m: Map<Seq<u8>, Set<u64>>, file_key: Seq<u8>, n: u64, order: Seq<u64>)
    requires
        n > 0,
    ensures
        chunk_range(n).difference(order.to_set()).is_empty() ==> !after_marks(after_init(m, file_key, n), file_key, order).contains_key(file_key),
        !chunk_range(n).difference(order.to_set()).is_empty() ==> (after_marks(after_init(m, file_key, n), file_key, order).contains_key(file_key)
            && after_marks(after_init(m, file_key, n), file_key, order)[file_key] == chunk_range(n).difference(order.to_set())),
        after_marks(after_init(m, file_key, n), file_key, order).remove(file_key) == m.remove(file_key),
    decreases order.len(),
{
    let start = after_init(m, file_key, n);
    let d = chunk_range(n).difference(order.to_set());
    if order.len() == 0 {
        assert(order.to_set() =~= Set::<u64>::empty());
        assert(d =~= chunk_range(n));
        assert(d.contains(0u64));
        assert(start.remove(file_key) =~= m.remove(file_key));
    } else {
        let prev = order.drop_last();
        let c = order.last();
        law_missing_chunks_after_downloads(m, file_key, n, prev);
        let before = after_marks(start, file_key, prev);
        let dp = chunk_range(n).difference(prev.to_set());
        assert(prev.push(c) =~= order);
        prev.lemma_push_to_set_commute(c);
        assert(d =~= dp.remove(c));
        if dp.is_empty() {
            assert(d =~= Set::<u64>::empty()) by {
                assert forall|x: u64| !d.contains(x) by {
                    assert(!dp.contains(x));
                }
            }
        } else {
            if dp.contains(c) {
                if dp == set![c] {
                    assert(d =~= Set::<u64>::empty());
                } else {
                    let w = choose|w: u64| dp.contains(w) && w != c;
                    assert(!dp.is_empty());
                    if forall|x: u64| dp.contains(x) ==> x == c {
                        assert(dp =~= set![c]);
                    }
                    let y = choose|y: u64| dp.contains(y) && y != c;
                    assert(d.contains(y));
                }
            } else {
                assert(d =~= dp);
            }
        }
        let after = after_marks(start, file_key, order);
        assert(after == after_mark(before, file_key, c));
        assert(after.remove(file_key) =~= before.remove(file_key));
    }
}

/// Marking a bucket download as started makes it in progress, and marking
/// it completed makes it no longer so; for a bucket that was not pending,
/// completing undoes starting.
pub proof fn law_bucket_download_start_then_complete(pending: Set<Seq<u8>>, bucket: Seq<u8>)
    ensures
        pending.insert(bucket).contains(bucket),
        !pending.insert(bucket).remove(bucket).contains(bucket),
        !pending.contains(bucket) ==> pending.insert(bucket).remove(bucket) == pending,
{
    if !pending.contains(bucket) {
        assert(pending.insert(bucket).remove(bucket) =~= pending);
    }
}

/// Registering a peer for a file twice is the same as registering it once;
/// afterwards the peer can provide the file, and no other peer changed.
pub proof fn law_add_peer_idempotent(v: Map<Seq<u8>, PeerView>, peer_id: Seq<u8>, file_key: Seq<u8>)
    ensures
        peer_added(peer_added(v, peer_id, file_key), peer_id, file_key) == peer_added(v, peer_id, file_key),
        peer_added(v, peer_id, file_key)[peer_id].file_keys.contains(file_key),
        forall|id: Seq<u8>| id != peer_id ==> (#[trigger] peer_added(v, peer_id, file_key).contains_key(id)) == v.contains_key(id)
            && (v.contains_key(id) ==> peer_added(v, peer_id, file_key)[id] == v[id]),
{
    let once = peer_added(v, peer_id, file_key);
    assert(once[peer_id].file_keys.insert(file_key) =~= once[peer_id].file_keys);
    assert(peer_added(once, peer_id, file_key) =~= once);
}

/// Recording a download's outcome changes no peer's set of files, so the
/// candidates for every file stay the same; only the peer's counters move.
pub proof fn law_download_outcomes_keep_files(v: Map<Seq<u8>, PeerView>, peer_id: Seq<u8>, bytes: u64, time_ms: u64, now_ms: u64)
    ensures
        success_recorded(v, peer_id, bytes, time_ms, now_ms).dom() == v.dom(),
        failure_recorded(v, peer_id).dom() == v.dom(),
        forall|id: Seq<u8>| #[trigger] v.contains_key(id) ==> success_recorded(v, peer_id, bytes, time_ms, now_ms)[id].file_keys == v[id].file_keys
            && failure_recorded(v, peer_id)[id].file_keys == v[id].file_keys,
{
    if v.contains_key(peer_id) {
        assert(success_recorded(v, peer_id, bytes, time_ms, now_ms).dom() =~= v.dom());
        assert(failure_recorded(v, peer_id).dom() =~= v.dom());
    }
}

/// A peer's score lies between zero and one (`SCORE_UNIT`): at most the
/// success weight from its success rate plus at most the speed weight from
/// its speed; a peer with no success scores zero.
pub proof fn law_score_bounded(successes: nat, failures: nat, bytes: nat, time_ms: nat)
    ensures
        0 <= spec_success_score(successes as int, failures as int) <= SUCCESS_WEIGHT,
        0 <= spec_speed_score(successes as int, bytes as int, time_ms as int) <= SPEED_WEIGHT,
        0 <= spec_score(successes as int, failures as int, bytes as int, time_ms as int) <= SCORE_UNIT,
        successes == 0 ==> spec_score(successes as int, failures as int, bytes as int, time_ms as int) == 0,
{
    let w = SUCCESS_WEIGHT as int;
    if successes + failures > 0 {
        let a = successes + failures;
        assert(0 <= (w * successes) / (a as int) <= w) by (nonlinear_arith)
            requires
                a > 0,
                successes <= a,
                w >= 0,
        {
            assert(w * successes <= w * a);
            vstd::arithmetic::div_mod::lemma_div_is_ordered(w * successes, w * a, a as int);
            vstd::arithmetic::div_mod::lemma_div_by_multiple(w, a as int);
            vstd::arithmetic::div_mod::lemma_div_pos_is_pos(w * successes, a as int);
        }
    }
    let sw = SPEED_WEIGHT as int;
    let ms = crate::peer_stats::MAX_SPEED_BYTES_PER_SEC as int;
    if successes != 0 && time_ms != 0 && 1000 * bytes < ms * time_ms {
        let d = ms * time_ms;
        assert(0 <= (sw * 1000 * bytes) / d <= sw) by (nonlinear_arith)
            requires
                d == ms * time_ms,
                ms > 0,
                time_ms > 0,
                1000 * bytes < d,
                sw >= 0,
                bytes >= 0,
        {
            assert(d > 0);
            assert(sw * 1000 * bytes <= sw * d);
            vstd::arithmetic::div_mod::lemma_div_is_ordered(sw * 1000 * bytes, sw * d, d);
            vstd::arithmetic::div_mod::lemma_div_by_multiple(sw, d);
            vstd::arithmetic::div_mod::lemma_div_pos_is_pos(sw * 1000 * bytes, d);
        }
    }
}

/// Persisting a peer's statistics and loading them back keeps its
/// counters and whether it ever succeeded; the last success is then dated
/// at the time of loading, and the files come from their own records.
pub proof fn law_peer_stats_round_trip(p: PeerView, saved_at: u64, loaded_at: u64)
    ensures
        persisted_view(persisted_of(p, saved_at), loaded_at) == (PeerView {
            last_success_time: match p.last_success_time {
                Some(_) => Some(loaded_at),
                None => None,
            },
            file_keys: Set::empty(),
            ..p
        }),
{
}

/// A bucket is locked for download while its lock says so.
pub open spec fn bucket_locked(locks: Map<Seq<u8>, bool>, bucket: Seq<u8>) -> bool {
    locks.contains_key(bucket) && locks[bucket]
}

/// Taking a bucket's lock keeps every other download of that bucket out
/// until the lock is marked inactive, after which it can be taken again;
/// other buckets' locks are not touched.
pub proof fn law_bucket_lock_exclusive(locks: Map<Seq<u8>, bool>, bucket: Seq<u8>, other: Seq<u8>)
    ensures
        bucket_locked(locks.insert(bucket, true), bucket),
        !bucket_locked(locks.insert(bucket, true).insert(bucket, false), bucket),
        other != bucket ==> bucket_locked(locks.insert(bucket, true), other) == bucket_locked(locks, other),
{
}

/// The state of a batcher after the chunk pushes `pushes` (id, length,
/// whether last), from an empty one: the batches sent, in order, the
/// pending batch and its size.
pub open spec fn run_pushes(max: int, pushes: Seq<(u64, int, bool)>) -> (Seq<Seq<u64>>, Seq<u64>, int)
    decreases pushes.len(),
{
    if pushes.len() == 0 {
        (Seq::empty(), Seq::empty(), 0)
    } else {
        let before = run_pushes(max, pushes.drop_last());
        let p = pushes.last();
        let step = push_outcome(before.1, before.2, max, p.0, p.1, p.2);
        (before.0 + step.0, step.1, step.2)
    }
}

/// The ids of a sequence of pushes.
pub open spec fn pushed_ids(pushes: Seq<(u64, int, bool)>) -> Seq<u64> {
    pushes.map_values(|p: (u64, int, bool)| p.0)
}

/// Batching an upload loses no chunk and sends none twice: the batches
/// sent, followed by the batch still pending, are the pushed chunks in the
/// order they were pushed.
pub proof fn law_upload_batches_keep_chunks(max: int, pushes: Seq<(u64, int, bool)>)
    ensures
        run_pushes(max, pushes).0.flatten() + run_pushes(max, pushes).1 == pushed_ids(pushes),
    decreases pushes.len(),
{
    if pushes.len() == 0 {
        assert(pushed_ids(pushes) =~= Seq::<u64>::empty());
        assert(Seq::<Seq<u64>>::empty().flatten() =~= Seq::<u64>::empty());
    } else {
        let prev = pushes.drop_last();
        law_upload_batches_keep_chunks(max, prev);
        let before = run_pushes(max, prev);
        let p = pushes.last();
        let step = push_outcome(before.1, before.2, max, p.0, p.1, p.2);
        vstd::seq_lib::lemma_flatten_concat(before.0, step.0);
        assert(pushed_ids(pushes) =~= pushed_ids(prev).push(p.0));
        let full = before.2 + p.1 > max;
        let batch = if full { seq![p.0] } else { before.1.push(p.0) };
        if full {
            seq![before.1].lemma_flatten_one_element();
            if p.2 {
                vstd::seq_lib::lemma_flatten_concat(seq![before.1], seq![batch]);
                seq![batch].lemma_flatten_one_element();
                assert(seq![before.1].push(batch) =~= seq![before.1] + seq![batch]);
            }
        } else {
            if p.2 {
                assert(Seq::<Seq<u64>>::empty().push(batch) =~= seq![batch]);
                seq![batch].lemma_flatten_one_element();
            }
            assert(Seq::<Seq<u64>>::empty().flatten() =~= Seq::<u64>::empty());
        }
        assert(run_pushes(max, pushes).0.flatten() + run_pushes(max, pushes).1 =~= pushed_ids(pushes));
    }
}

/// A storage request that passes the capacity check keeps the provider's
/// used capacity within its configured maximum; one found sufficient fits
/// in the capacity available now.
pub proof fn law_capacity_plan_within_max(max: u64, current: u64, available: u64, required: u64)
    ensures
        spec_plan_capacity(max, current, available, required) is Ok ==> (current - available) + required <= max,
        spec_plan_capacity(max, current, available, required) == Ok::<CapacityPlan, crate::capacity::CapacityError>(CapacityPlan::Sufficient)
            ==> available >= required,
{
}

/// A storage request is taken on exactly when the chain's figures are
/// consistent (no more available than the current capacity) and the used
/// capacity plus the new file stays within the configured maximum; it then
/// needs a capacity increase of the file's size exactly when the available
/// capacity is short of it. A request that would go over the maximum is
/// refused for that reason, naming the used capacity; inconsistent figures
/// and a used capacity plus file size past `u64::MAX` are refused as such.
pub proof fn law_capacity_plan_complete(max: u64, current: u64, available: u64, required: u64)
    ensures
        spec_plan_capacity(max, current, available, required) is Ok
            <==> (available <= current && (current - available) + required <= max),
        available <= current && (current - available) + required <= max && available >= required
            ==> spec_plan_capacity(max, current, available, required) == Ok::<CapacityPlan, crate::capacity::CapacityError>(CapacityPlan::Sufficient),
        available <= current && (current - available) + required <= max && available < required
            ==> spec_plan_capacity(max, current, available, required) == Ok::<CapacityPlan, crate::capacity::CapacityError>(CapacityPlan::Increase { required }),
        available <= current && max < (current - available) + required <= u64::MAX
            ==> spec_plan_capacity(max, current, available, required) == Err::<CapacityPlan, crate::capacity::CapacityError>(
                crate::capacity::CapacityError::ExceedsMaxCapacity { used: (current - available) as u64, required, max }),
        available > current ==> spec_plan_capacity(max, current, available, required) == Err::<CapacityPlan, crate::capacity::CapacityError>(
            crate::capacity::CapacityError::AvailableExceedsCurrent { available, current }),
        available <= current && (current - available) + required > u64::MAX
            ==> spec_plan_capacity(max, current, available, required) == Err::<CapacityPlan, crate::capacity::CapacityError>(
                crate::capacity::CapacityError::ProjectedUsageOverflow),
{
}

/// The last change to `key` among `changes`, if any.
pub open spec fn last_change(changes: Seq<FileKeyChange>, key: Seq<u8>) -> Option<FileKeyOperation>
    decreases changes.len(),
{
    if changes.len() == 0 {
        None
    } else if changes.last().file_key@ == key {
        Some(changes.last().operation)
    } else {
        last_change(changes.drop_last(), key)
    }
}

/// After catching up, a provider holds a file key exactly when the last
/// change to it added it, or nothing changed it and it was finalized.
pub proof fn law_catch_up_membership(start: Set<Seq<u8>>, changes: Seq<FileKeyChange>, key: Seq<u8>)
    ensures
        apply_changes(start, changes).contains(key) == match last_change(changes, key) {
            Some(op) => op == FileKeyOperation::Add,
            None => start.contains(key),
        },
    decreases changes.len(),
{
    if changes.len() > 0 {
        law_catch_up_membership(start, changes.drop_last(), key);
    }
}

/// Grouping an MSP's answers by bucket keeps every answer: its bucket has
/// a group, and the file key is among that group's accepted keys or, with
/// its reason, among its rejected ones.
pub proof fn law_grouping_keeps_every_answer(items: Seq<RespondItem>, j: int)
    requires
        0 <= j < items.len(),
    ensures
        buckets_of(items).contains(items[j].bucket_id@),
        items[j].response is Accept ==> accepts_of(items, items[j].bucket_id@).contains(items[j].file_key),
        items[j].response matches MspResponse::Reject(reason)
            ==> rejects_of(items, items[j].bucket_id@).contains((items[j].file_key, reason)),
    decreases items.len(),
{
    let b = items[j].bucket_id@;
    let prev = items.drop_last();
    if j < items.len() - 1 {
        law_grouping_keeps_every_answer(prev, j);
        assert(prev[j] == items[j]);
        let bp = buckets_of(prev);
        let w = choose|w: int| 0 <= w < bp.len() && bp[w] == b;
        assert(buckets_of(items)[w] == b);
        if items[j].response is Accept {
            let a = accepts_of(prev, b);
            let w2 = choose|w2: int| 0 <= w2 < a.len() && a[w2] == items[j].file_key;
            assert(accepts_of(items, b)[w2] == items[j].file_key);
        }
        if let MspResponse::Reject(reason) = items[j].response {
            let rj = rejects_of(prev, b);
            let w3 = choose|w3: int| 0 <= w3 < rj.len() && rj[w3] == (items[j].file_key, reason);
            assert(rejects_of(items, b)[w3] == (items[j].file_key, reason));
        }
    } else {
        let bp = buckets_of(prev);
        if bp.contains(b) {
            let w = choose|w: int| 0 <= w < bp.len() && bp[w] == b;
            assert(buckets_of(items)[w] == b);
        } else {
            assert(buckets_of(items)[bp.len() as int] == b);
        }
        if items[j].response is Accept {
            assert(accepts_of(items, b)[accepts_of(prev, b).len() as int] == items[j].file_key);
        }
        if let MspResponse::Reject(reason) = items[j].response {
            assert(rejects_of(items, b)[rejects_of(prev, b).len() as int] == (items[j].file_key, reason));
        }
    }
}

/// The ids of the statistics records.
pub open spec fn record_ids(recs: Seq<(Vec<u8>, PersistentBspPeerStats)>) -> Seq<Seq<u8>> {
    recs.map_values(|r: (Vec<u8>, PersistentBspPeerStats)| r.0@)
}

/// The file keys that the key records give to `id`.
pub open spec fn recorded_keys(krecs: Seq<(Vec<u8>, H256)>, id: Seq<u8>) -> Set<Seq<u8>> {
    Set::new(|k: Seq<u8>| exists|j: int| 0 <= j < krecs.len() && #[trigger] krecs[j].0@ == id && krecs[j].1@ == k)
}

proof fn lemma_stats_records_view(recs: Seq<(Vec<u8>, PersistentBspPeerStats)>, now_ms: u64)
    requires
        record_ids(recs).no_duplicates(),
    ensures
        stats_records_view(recs, now_ms).dom() == record_ids(recs).to_set(),
        forall|j: int| 0 <= j < recs.len() ==> #[trigger] stats_records_view(recs, now_ms)[recs[j].0@] == persisted_view(recs[j].1, now_ms),
    decreases recs.len(),
{
    if recs.len() > 0 {
        let prev = recs.drop_last();
        assert(record_ids(prev) =~= record_ids(recs).drop_last());
        lemma_stats_records_view(prev, now_ms);
        assert(record_ids(recs) =~= record_ids(prev).push(recs.last().0@));
        record_ids(prev).lemma_push_to_set_commute(recs.last().0@);
        assert forall|j: int| 0 <= j < recs.len() implies #[trigger] stats_records_view(recs, now_ms)[recs[j].0@] == persisted_view(recs[j].1, now_ms) by {
            if j < recs.len() - 1 {
                assert(record_ids(recs)[j] == recs[j].0@);
                assert(record_ids(recs)[recs.len() - 1] == recs.last().0@);
                assert(prev[j] == recs[j]);
            }
        }
    }
}

proof fn lemma_with_key_records(m: Map<Seq<u8>, PeerView>, krecs: Seq<(Vec<u8>, H256)>)
    ensures
        with_key_records(m, krecs).dom() == m.dom(),
        forall|id: Seq<u8>| #[trigger] m.contains_key(id) ==> {
            let p = with_key_records(m, krecs)[id];
            &&& p == PeerView { file_keys: p.file_keys, ..m[id] }
            &&& p.file_keys == m[id].file_keys.union(recorded_keys(krecs, id))
        },
    decreases krecs.len(),
{
    if krecs.len() == 0 {
        assert forall|id: Seq<u8>| #[trigger] m.contains_key(id) implies m[id].file_keys == m[id].file_keys.union(recorded_keys(krecs, id)) by {
            assert(recorded_keys(krecs, id) =~= Set::<Seq<u8>>::empty());
            assert(m[id].file_keys.union(recorded_keys(krecs, id)) =~= m[id].file_keys);
        }
    } else {
        let prev = krecs.drop_last();
        lemma_with_key_records(m, prev);
        let before = with_key_records(m, prev);
        let last = krecs.last();
        assert(with_key_records(m, krecs).dom() =~= m.dom());
        assert forall|id: Seq<u8>| #[trigger] m.contains_key(id) implies {
            let p = with_key_records(m, krecs)[id];
            &&& p == PeerView { file_keys: p.file_keys, ..m[id] }
            &&& p.file_keys == m[id].file_keys.union(recorded_keys(krecs, id))
        } by {
            let rk = recorded_keys(krecs, id);
            let rkp = recorded_keys(prev, id);
            if id == last.0@ {
                assert(rk =~= rkp.insert(last.1@)) by {
                    assert forall|k: Seq<u8>| rk.contains(k) implies rkp.insert(last.1@).contains(k) by {
                        let j = choose|j: int| 0 <= j < krecs.len() && #[trigger] krecs[j].0@ == id && krecs[j].1@ == k;
                        if j < krecs.len() - 1 {
                            assert(prev[j] == krecs[j]);
                        }
                    }
                    assert forall|k: Seq<u8>| rkp.insert(last.1@).contains(k) implies rk.contains(k) by {
                        if k == last.1@ {
                            assert(krecs[krecs.len() - 1].0@ == id);
                        } else {
                            let j = choose|j: int| 0 <= j < prev.len() && #[trigger] prev[j].0@ == id && prev[j].1@ == k;
                            assert(krecs[j] == prev[j]);
                        }
                    }
                }
                assert(m[id].file_keys.union(rkp).insert(last.1@) =~= m[id].file_keys.union(rk));
            } else {
                assert(rk =~= rkp) by {
                    assert forall|k: Seq<u8>| rk.contains(k) implies rkp.contains(k) by {
                        let j = choose|j: int| 0 <= j < krecs.len() && #[trigger] krecs[j].0@ == id && krecs[j].1@ == k;
                        assert(j < krecs.len() - 1);
                        assert(prev[j] == krecs[j]);
                    }
                    assert forall|k: Seq<u8>| rkp.contains(k) implies rk.contains(k) by {
                        let j = choose|j: int| 0 <= j < prev.len() && #[trigger] prev[j].0@ == id && prev[j].1@ == k;
                        assert(krecs[j] == prev[j]);
                    }
                }
            }
        }
    }
}

/// Persisting the peer manager and loading it back gives back every peer,
/// each with its counters and the files it can provide; only the time of a
/// last success becomes the time of loading. The records are one statistics
/// record per peer, saved at any time, and one key record per (peer, file)
/// pair, in any order.
pub proof fn law_peer_manager_reload(
    v: Map<Seq<u8>, PeerView>,
    stats_recs: Seq<(Vec<u8>, PersistentBspPeerStats)>,
    key_recs: Seq<(Vec<u8>, H256)>,
    loaded_at: u64,
)
    requires
        record_ids(stats_recs).no_duplicates(),
        record_ids(stats_recs).to_set() == v.dom(),
        forall|j: int| 0 <= j < stats_recs.len() ==> #[trigger] stats_agree(stats_recs[j].1, v[stats_recs[j].0@]),
        forall|j: int| 0 <= j < key_recs.len() ==> v.contains_key(#[trigger] key_recs[j].0@)
            && v[key_recs[j].0@].file_keys.contains(key_recs[j].1@),
        forall|id: Seq<u8>, k: Seq<u8>| v.contains_key(id) && #[trigger] v[id].file_keys.contains(k)
            ==> recorded_keys(key_recs, id).contains(k),
    ensures
        with_key_records(stats_records_view(stats_recs, loaded_at), key_recs).dom() == v.dom(),
        forall|id: Seq<u8>| #[trigger] v.contains_key(id) ==> with_key_records(stats_records_view(stats_recs, loaded_at), key_recs)[id] == (PeerView {
            last_success_time: match v[id].last_success_time {
                Some(_) => Some(loaded_at),
                None => None,
            },
            ..v[id]
        }),
{
    lemma_stats_records_view(stats_recs, loaded_at);
    let base = stats_records_view(stats_recs, loaded_at);
    lemma_with_key_records(base, key_recs);
    assert forall|id: Seq<u8>| #[trigger] v.contains_key(id) implies with_key_records(base, key_recs)[id] == (PeerView {
        last_success_time: match v[id].last_success_time {
            Some(_) => Some(loaded_at),
            None => None,
        },
        ..v[id]
    }) by {
        assert(record_ids(stats_recs).to_set().contains(id));
        let j = choose|j: int| 0 <= j < record_ids(stats_recs).len() && record_ids(stats_recs)[j] == id;
        assert(stats_recs[j].0@ == id);
        assert(base[id] == persisted_view(stats_recs[j].1, loaded_at));
        assert(stats_agree(stats_recs[j].1, v[stats_recs[j].0@]));
        assert(base[id].last_success_time == match v[id].last_success_time {
            Some(_) => Some(loaded_at),
            None => None::<u64>,
        });
        assert(base.contains_key(id));
        let got = with_key_records(base, key_recs)[id];
        assert(got.file_keys =~= v[id].file_keys) by {
            assert(base[id].file_keys =~= Set::<Seq<u8>>::empty());
            assert forall|k: Seq<u8>| recorded_keys(key_recs, id).contains(k) implies v[id].file_keys.contains(k) by {
                let w = choose|w: int| 0 <= w < key_recs.len() && #[trigger] key_recs[w].0@ == id && key_recs[w].1@ == k;
            }
        }
    }
}

/// The peer manager's database, a statistics record per peer and the
/// (peer, file) associations, is in step with the peers `v`.
pub open spec fn db_reflects(
    v: Map<Seq<u8>, PeerView>,
    stats_db: Map<Seq<u8>, PersistentBspPeerStats>,
    keys_db: Set<(Seq<u8>, Seq<u8>)>,
) -> bool {
    &&& stats_db.dom() == v.dom()
    &&& forall|id: Seq<u8>| #[trigger] stats_db.contains_key(id) ==> stats_agree(stats_db[id], v[id])
    &&& forall|id: Seq<u8>, k: Seq<u8>|
        #![trigger keys_db.contains((id, k))]
        #![trigger v[id].file_keys.contains(k)]
        keys_db.contains((id, k)) <==> v.contains_key(id) && v[id].file_keys.contains(k)
}

/// Each operation on the peer manager, followed by the writes it calls
/// for, keeps the database in step with the peers: a new (peer, file)
/// association writes the association and the peer's statistics; a
/// recorded success or failure of a known peer writes its statistics; an
/// operation that reports nothing new writes nothing.
pub proof fn law_peer_writes_keep_db_in_step(
    v: Map<Seq<u8>, PeerView>,
    stats_db: Map<Seq<u8>, PersistentBspPeerStats>,
    keys_db: Set<(Seq<u8>, Seq<u8>)>,
    peer_id: Seq<u8>,
    file_key: Seq<u8>,
    bytes: u64,
    time_ms: u64,
    now_ms: u64,
    saved_at: u64,
)
    requires
        db_reflects(v, stats_db, keys_db),
    ensures
        ({
            let after = peer_added(v, peer_id, file_key);
            let is_new = !(v.contains_key(peer_id) && v[peer_id].file_keys.contains(file_key));
            db_reflects(
                after,
                if is_new { stats_db.insert(peer_id, persisted_of(after[peer_id], saved_at)) } else { stats_db },
                if is_new { keys_db.insert((peer_id, file_key)) } else { keys_db },
            )
        }),
        ({
            let after = success_recorded(v, peer_id, bytes, time_ms, now_ms);
            db_reflects(
                after,
                if v.contains_key(peer_id) { stats_db.insert(peer_id, persisted_of(after[peer_id], saved_at)) } else { stats_db },
                keys_db,
            )
        }),
        ({
            let after = failure_recorded(v, peer_id);
            db_reflects(
                after,
                if v.contains_key(peer_id) { stats_db.insert(peer_id, persisted_of(after[peer_id], saved_at)) } else { stats_db },
                keys_db,
            )
        }),
{
    let added = peer_added(v, peer_id, file_key);
    let is_new = !(v.contains_key(peer_id) && v[peer_id].file_keys.contains(file_key));
    if is_new {
        let sdb = stats_db.insert(peer_id, persisted_of(added[peer_id], saved_at));
        let kdb = keys_db.insert((peer_id, file_key));
        assert(sdb.dom() =~= added.dom());
        assert forall|id: Seq<u8>, k: Seq<u8>|
            #![trigger kdb.contains((id, k))]
            #![trigger added[id].file_keys.contains(k)]
            kdb.contains((id, k)) <==> added.contains_key(id) && added[id].file_keys.contains(k) by {
            if id != peer_id {
                assert(keys_db.contains((id, k)) <==> v.contains_key(id) && v[id].file_keys.contains(k));
            } else if k != file_key {
                assert(keys_db.contains((id, k)) <==> v.contains_key(id) && v[id].file_keys.contains(k));
            }
        }
    } else {
        assert(added =~= v) by {
            assert(v[peer_id].file_keys.insert(file_key) =~= v[peer_id].file_keys);
        }
    }
    let succ = success_recorded(v, peer_id, bytes, time_ms, now_ms);
    let fail = failure_recorded(v, peer_id);
    if v.contains_key(peer_id) {
        assert(stats_db.insert(peer_id, persisted_of(succ[peer_id], saved_at)).dom() =~= succ.dom());
        assert(stats_db.insert(peer_id, persisted_of(fail[peer_id], saved_at)).dom() =~= fail.dom());
    }
}

/// Loading the peer manager from a database in step with the peers `v`
/// gives back every peer, each with its counters and the files it can
/// provide; only the time of a last success becomes the time of loading.
/// The records read are those of the database, in any order.
pub proof fn law_peer_db_reload(
    v: Map<Seq<u8>, PeerView>,
    stats_db: Map<Seq<u8>, PersistentBspPeerStats>,
    keys_db: Set<(Seq<u8>, Seq<u8>)>,
    stats_recs: Seq<(Vec<u8>, PersistentBspPeerStats)>,
    key_recs: Seq<(Vec<u8>, H256)>,
    loaded_at: u64,
)
    requires
        db_reflects(v, stats_db, keys_db),
        record_ids(stats_recs).no_duplicates(),
        record_ids(stats_recs).to_set() == stats_db.dom(),
        forall|j: int| 0 <= j < stats_recs.len() ==> #[trigger] stats_recs[j].1 == stats_db[stats_recs[j].0@],
        forall|j: int| 0 <= j < key_recs.len() ==> keys_db.contains((#[trigger] key_recs[j].0@, key_recs[j].1@)),
        forall|id: Seq<u8>, k: Seq<u8>| #[trigger] keys_db.contains((id, k))
            ==> exists|j: int| 0 <= j < key_recs.len() && #[trigger] key_recs[j].0@ == id && key_recs[j].1@ == k,
    ensures
        with_key_records(stats_records_view(stats_recs, loaded_at), key_recs).dom() == v.dom(),
        forall|id: Seq<u8>| #[trigger] v.contains_key(id) ==> with_key_records(stats_records_view(stats_recs, loaded_at), key_recs)[id] == (PeerView {
            last_success_time: match v[id].last_success_time {
                Some(_) => Some(loaded_at),
                None => None,
            },
            ..v[id]
        }),
{
    assert forall|j: int| 0 <= j < stats_recs.len() implies #[trigger] stats_agree(stats_recs[j].1, v[stats_recs[j].0@]) by {
        assert(record_ids(stats_recs)[j] == stats_recs[j].0@);
        assert(stats_db.contains_key(stats_recs[j].0@));
    }
    assert forall|j: int| 0 <= j < key_recs.len() implies v.contains_key(#[trigger] key_recs[j].0@)
        && v[key_recs[j].0@].file_keys.contains(key_recs[j].1@) by {
        assert(keys_db.contains((key_recs[j].0@, key_recs[j].1@)));
    }
    assert forall|id: Seq<u8>, k: Seq<u8>| v.contains_key(id) && #[trigger] v[id].file_keys.contains(k)
        implies recorded_keys(key_recs, id).contains(k) by {
        assert(keys_db.contains((id, k)));
        let j = choose|j: int| 0 <= j < key_recs.len() && #[trigger] key_recs[j].0@ == id && key_recs[j].1@ == k;
    }
    law_peer_manager_reload(v, stats_recs, key_recs, loaded_at);
}

/// The metadata of a file being downloaded reads back as it was stored,
/// until it is deleted; storing or deleting one file's metadata leaves the
/// other files' as they were.
pub proof fn law_metadata_read_after_write(
    m: Map<Seq<u8>, FileMetadataView>,
    file_key: Seq<u8>,
    meta: FileMetadataView,
    other: Seq<u8>,
)
    ensures
        m.insert(file_key, meta).contains_key(file_key) && m.insert(file_key, meta)[file_key] == meta,
        !m.insert(file_key, meta).remove(file_key).contains_key(file_key),
        other != file_key ==> m.insert(file_key, meta).contains_key(other) == m.contains_key(other)
            && (m.contains_key(other) ==> m.insert(file_key, meta)[other] == m[other])
            && m.remove(file_key).contains_key(other) == m.contains_key(other),
{
}

/// A forest just opened or registered is the most recently used open one:
/// looking it up finds it open under the handle it was given, whether or not
/// the least recently used forest was evicted to make room.
pub proof fn law_added_forest_is_open(open: Seq<(Seq<u8>, u64)>, key: Seq<u8>, handle: u64, evicted: bool)
    requires
        !entry_keys(open).contains(key),
        evicted ==> open.len() > 0,
    ensures
        ({
            let now = seq![(key, handle)] + if evicted { open.drop_last() } else { open };
            &&& entry_keys(now).contains(key)
            &&& entry_keys(now).index_of(key) == 0
            &&& now[entry_keys(now).index_of(key)].1 == handle
        }),
{
    let rest = if evicted { open.drop_last() } else { open };
    let now = seq![(key, handle)] + rest;
    assert(entry_keys(now)[0] == key);
    let i = entry_keys(now).index_of(key);
    assert(entry_keys(now).contains(key));
    assert(0 <= i < entry_keys(now).len() && entry_keys(now)[i] == key);
    if i > 0 {
        assert(entry_keys(now)[i] == rest[i - 1].0);
        if evicted {
            assert(rest[i - 1] == open[i - 1]);
        }
        assert(entry_keys(open)[i - 1] == key);
    }
}

/// The total length of a batch of (id, length) chunks.
pub open spec fn sum_lens(s: Seq<(u64, int)>) -> int
    decreases s.len(),
{
    if s.len() == 0 { 0 } else { sum_lens(s.drop_last()) + s.last().1 }
}

/// The ids of a batch of (id, length) chunks.
pub open spec fn pair_ids(s: Seq<(u64, int)>) -> Seq<u64> {
    s.map_values(|p: (u64, int)| p.0)
}

/// The batcher's run with each chunk kept with its length: the batches
/// sent and the batch pending.
pub open spec fn run_pairs(max: int, pushes: Seq<(u64, int, bool)>) -> (Seq<Seq<(u64, int)>>, Seq<(u64, int)>)
    decreases pushes.len(),
{
    if pushes.len() == 0 {
        (Seq::empty(), Seq::empty())
    } else {
        let before = run_pairs(max, pushes.drop_last());
        let p = pushes.last();
        let full = sum_lens(before.1) + p.1 > max;
        let first = if full { seq![before.1] } else { Seq::<Seq<(u64, int)>>::empty() };
        let batch = if full { seq![(p.0, p.1)] } else { before.1.push((p.0, p.1)) };
        if p.2 { (before.0 + first.push(batch), Seq::empty()) } else { (before.0 + first, batch) }
    }
}

/// The upload batcher sends no batch that exceeds the maximum size, except
/// a batch made of one chunk that alone exceeds it; its batches are
/// those of the run that keeps each chunk's length, and the size it tracks
/// is the total length of the pending chunks.
pub proof fn law_upload_batches_within_max(max: int, pushes: Seq<(u64, int, bool)>)
    ensures
        run_pushes(max, pushes).0 == run_pairs(max, pushes).0.map_values(|b: Seq<(u64, int)>| pair_ids(b)),
        run_pushes(max, pushes).1 == pair_ids(run_pairs(max, pushes).1),
        run_pushes(max, pushes).2 == sum_lens(run_pairs(max, pushes).1),
        sum_lens(run_pairs(max, pushes).1) <= max || run_pairs(max, pushes).1.len() <= 1,
        forall|i: int| 0 <= i < run_pairs(max, pushes).0.len() ==>
            sum_lens(#[trigger] run_pairs(max, pushes).0[i]) <= max || run_pairs(max, pushes).0[i].len() <= 1,
    decreases pushes.len(),
{
    if pushes.len() == 0 {
        assert(run_pairs(max, pushes).0.map_values(|b: Seq<(u64, int)>| pair_ids(b)) =~= Seq::<Seq<u64>>::empty());
        assert(pair_ids(Seq::<(u64, int)>::empty()) =~= Seq::<u64>::empty());
    } else {
        let prev = pushes.drop_last();
        law_upload_batches_within_max(max, prev);
        let bp = run_pairs(max, prev);
        let bq = run_pushes(max, prev);
        let p = pushes.last();
        let full = sum_lens(bp.1) + p.1 > max;
        let first = if full { seq![bp.1] } else { Seq::<Seq<(u64, int)>>::empty() };
        let batch = if full { seq![(p.0, p.1)] } else { bp.1.push((p.0, p.1)) };
        assert(pair_ids(seq![(p.0, p.1)]) =~= seq![p.0]);
        assert(pair_ids(bp.1.push((p.0, p.1))) =~= bq.1.push(p.0));
        assert(sum_lens(seq![(p.0, p.1)]) == p.1) by {
            let one = seq![(p.0, p.1)];
            assert(one.len() == 1);
            assert(one.last() == (p.0, p.1));
            assert(one.drop_last() =~= Seq::<(u64, int)>::empty());
            assert(sum_lens(one.drop_last()) == 0);
        }
        assert(bp.1.push((p.0, p.1)).drop_last() =~= bp.1);
        assert(pair_ids(Seq::<(u64, int)>::empty()) =~= Seq::<u64>::empty());
        let f = |b: Seq<(u64, int)>| pair_ids(b);
        let r = run_pairs(max, pushes);
        if p.2 {
            assert(r.0 == bp.0 + first.push(batch));
            assert(r.0.map_values(f) =~= bp.0.map_values(f) + first.push(batch).map_values(f));
            if full {
                assert(first.push(batch).map_values(f) =~= seq![bq.1].push(seq![p.0]));
            } else {
                assert(first.push(batch).map_values(f) =~= Seq::<Seq<u64>>::empty().push(bq.1.push(p.0)));
            }
        } else {
            assert(r.0 == bp.0 + first);
            assert(r.0.map_values(f) =~= bp.0.map_values(f) + first.map_values(f));
            if full {
                assert(first.map_values(f) =~= seq![bq.1]);
            } else {
                assert(first.map_values(f) =~= Seq::<Seq<u64>>::empty());
            }
        }
        assert forall|i: int| 0 <= i < r.0.len() implies sum_lens(#[trigger] r.0[i]) <= max || r.0[i].len() <= 1 by {
            if i < bp.0.len() {
                assert(r.0[i] == bp.0[i]);
            } else if full && i == bp.0.len() {
                assert(r.0[i] == bp.1);
            } else {
                assert(p.2);
                assert(r.0[i] == batch);
            }
        }
    }
}

/// Creating a forest twice gives the same forest: when the first creation
/// found it open, the second finds it open under the same handle and leaves
/// the open forests as the first left them; when the first creation had to
/// make it and it was then registered under `handle`, every later creation
/// finds it open under `handle`.
pub proof fn law_create_twice_same_forest(
    known: Set<Seq<u8>>,
    open: Seq<(Seq<u8>, u64)>,
    capacity: nat,
    key: Seq<u8>,
    handle: u64,
)
    requires
        entry_keys(open).no_duplicates(),
        open.len() <= capacity,
        capacity > 0,
    ensures
        creation_of(known, touched(open, key), key) == creation_of(known, open, key),
        touched(touched(open, key), key) == touched(open, key),
        !entry_keys(open).contains(key) ==> {
            let now = opened(open, capacity, key, handle);
            &&& creation_of(known.insert(key), now, key) == ForestCreation::Existing(handle)
            &&& touched(now, key) == now
        },
{
    let ks = entry_keys(open);
    if ks.contains(key) {
        let i = ks.index_of(key);
        let t = seq![open[i]] + open.remove(i);
        assert(0 <= i < ks.len() && ks[i] == key);
        assert(t[0].0 == key);
        assert forall|j: int| 0 < j < t.len() implies t[j].0 != key by {
            assert(t[j] == open.remove(i)[j - 1]);
            if j - 1 < i {
                assert(open.remove(i)[j - 1] == open[j - 1]);
                assert(ks[j - 1] == open[j - 1].0);
            } else {
                assert(open.remove(i)[j - 1] == open[j]);
                assert(ks[j] == open[j].0);
            }
        }
        lemma_front_key(t, key);
        assert(seq![t[0]] + t.remove(0) =~= t);
    }
    if !ks.contains(key) {
        let rest = if open.len() == capacity { open.drop_last() } else { open };
        let now = seq![(key, handle)] + rest;
        assert(now == opened(open, capacity, key, handle));
        assert forall|j: int| 0 < j < now.len() implies now[j].0 != key by {
            assert(now[j] == rest[j - 1]);
            if open.len() == capacity {
                assert(rest[j - 1] == open[j - 1]);
            }
            assert(ks[j - 1] == open[j - 1].0);
        }
        lemma_front_key(now, key);
        assert(seq![now[0]] + now.remove(0) =~= now);
    }
}

/// Where `key` is the key of the first entry and of no other, it is found
/// at the front.
proof fn lemma_front_key(t: Seq<(Seq<u8>, u64)>, key: Seq<u8>)
    requires
        t.len() > 0,
        t[0].0 == key,
        forall|j: int| 0 < j < t.len() ==> t[j].0 != key,
    ensures
        entry_keys(t).contains(key),
        entry_keys(t).index_of(key) == 0,
{
    assert(entry_keys(t)[0] == key);
    let i = entry_keys(t).index_of(key);
    assert(entry_keys(t).contains(key));
    assert(0 <= i < entry_keys(t).len() && entry_keys(t)[i] == key);
    if i > 0 {
        assert(t[i].0 == key);
    }
}

/// The ids of the chunks of a response that its proof gives by exact key
/// and that were requested, in the order they come.
pub open spec fn requested_exact(rs: Seq<ReceivedChunk>, requested: Set<u64>) -> Seq<u64> {
    rs.filter(|c: ReceivedChunk| c.is_exact && requested.contains(c.chunk_id)).map_values(|c: ReceivedChunk| c.chunk_id)
}

/// The total length of the chunks of a response given by exact key.
pub open spec fn exact_bytes(rs: Seq<ReceivedChunk>) -> int {
    rs.filter(|c: ReceivedChunk| c.is_exact).map_values(|c: ReceivedChunk| c.len as int).fold_left(0int, |a: int, x: int| a + x)
}

proof fn lemma_valid_response(rs: Seq<ReceivedChunk>, requested: Set<u64>)
    requires
        forall|i: int| 0 <= i < rs.len() && (#[trigger] rs[i]).is_exact ==> rs[i].size_ok,
    ensures
        spec_process_chunks(rs, requested) == (requested_exact(rs, requested), exact_bytes(rs), None::<int>),
    decreases rs.len(),
{
    if rs.len() > 0 {
        let prev = rs.drop_last();
        assert forall|i: int| 0 <= i < prev.len() && (#[trigger] prev[i]).is_exact implies prev[i].size_ok by {
            assert(prev[i] == rs[i]);
        }
        lemma_valid_response(prev, requested);
        let c = rs.last();
        assert(rs[rs.len() - 1] == c);
        let pw = |x: ReceivedChunk| x.is_exact && requested.contains(x.chunk_id);
        let pe = |x: ReceivedChunk| x.is_exact;
        let fid = |x: ReceivedChunk| x.chunk_id;
        let flen = |x: ReceivedChunk| x.len as int;
        let plus = |a: int, x: int| a + x;
        let lens = prev.filter(pe).map_values(flen);
        assert(rs.drop_last() == prev);
        assert(prev.push(c) =~= rs);
        prev.lemma_filter_push(c, pw);
        prev.lemma_filter_push(c, pe);
        assert(rs.filter(pw) == if pw(c) { prev.filter(pw).push(c) } else { prev.filter(pw) });
        assert(rs.filter(pe) == if pe(c) { prev.filter(pe).push(c) } else { prev.filter(pe) });
        if pw(c) {
            assert(prev.filter(pw).push(c).map_values(fid) =~= prev.filter(pw).map_values(fid).push(c.chunk_id));
        }
        if pe(c) {
            let l2 = prev.filter(pe).push(c).map_values(flen);
            assert(l2 =~= lens.push(c.len as int));
            assert(l2.drop_last() =~= lens);
            assert(l2.last() == c.len as int);
            assert(l2.fold_left(0int, plus) == plus(lens.fold_left(0int, plus), c.len as int));
            assert(c.size_ok);
        }
        assert(requested_exact(rs, requested) == rs.filter(pw).map_values(fid));
        assert(exact_bytes(rs) == rs.filter(pe).map_values(flen).fold_left(0int, plus));
    } else {
        reveal(Seq::filter);
        assert(rs.filter(|c: ReceivedChunk| c.is_exact && requested.contains(c.chunk_id)) =~= Seq::<ReceivedChunk>::empty());
        assert(requested_exact(rs, requested) =~= Seq::<u64>::empty());
        assert(rs.filter(|c: ReceivedChunk| c.is_exact).map_values(|c: ReceivedChunk| c.len as int) =~= Seq::<int>::empty());
    }
}

/// A download response writes every chunk that its proof gives by exact
/// key and that was requested, in the order they come, and no other; it
/// counts the bytes of every chunk given by exact key. A chunk given by
/// exact key whose size is not the one expected stops the processing: only
/// the chunks before it are written and counted.
pub proof fn law_response_writes_requested_chunks(rs: Seq<ReceivedChunk>, requested: Set<u64>)
    ensures
        (forall|i: int| 0 <= i < rs.len() && (#[trigger] rs[i]).is_exact ==> rs[i].size_ok)
            ==> spec_process_chunks(rs, requested) == (requested_exact(rs, requested), exact_bytes(rs), None::<int>),
        forall|i: int| 0 <= i < rs.len() && (#[trigger] rs[i]).is_exact && !rs[i].size_ok
            && (forall|j: int| 0 <= j < i && (#[trigger] rs[j]).is_exact ==> rs[j].size_ok)
            ==> spec_process_chunks(rs, requested) == (requested_exact(rs.take(i), requested), exact_bytes(rs.take(i)), Some(i)),
{
    if forall|i: int| 0 <= i < rs.len() && (#[trigger] rs[i]).is_exact ==> rs[i].size_ok {
        lemma_valid_response(rs, requested);
    }
    assert forall|i: int| 0 <= i < rs.len() && (#[trigger] rs[i]).is_exact && !rs[i].size_ok
        && (forall|j: int| 0 <= j < i && (#[trigger] rs[j]).is_exact ==> rs[j].size_ok)
        implies spec_process_chunks(rs, requested) == (requested_exact(rs.take(i), requested), exact_bytes(rs.take(i)), Some(i)) by {
        let pre = rs.take(i);
        assert forall|j: int| 0 <= j < pre.len() && (#[trigger] pre[j]).is_exact implies pre[j].size_ok by {
            assert(pre[j] == rs[j]);
        }
        lemma_valid_response(pre, requested);
        lemma_process_stops(rs, requested, i);
    }
}

/// The speed share of a peer's score is the speed weight times its average
/// speed (`1000 * bytes / time_ms` bytes per second) over the maximum speed,
/// rounded down and capped at the weight: it is the largest whole number
/// `s` with `s * MAX_SPEED * time_ms <= SPEED_WEIGHT * 1000 * bytes`, up to
/// the weight, which any peer at the maximum speed or above gets. A peer
/// with no success, or no recorded download time, gets none.
pub proof fn law_speed_score_is_scaled_speed(successes: nat, bytes: nat, time_ms: nat)
    ensures
        successes == 0 || time_ms == 0 ==> spec_speed_score(successes as int, bytes as int, time_ms as int) == 0,
        successes > 0 && time_ms > 0 ==> {
            let s = spec_speed_score(successes as int, bytes as int, time_ms as int);
            let speed_num = SPEED_WEIGHT * (1000 * bytes);
            let speed_den = crate::peer_stats::MAX_SPEED_BYTES_PER_SEC * time_ms;
            &&& 0 <= s <= SPEED_WEIGHT
            &&& s * speed_den <= speed_num
            &&& s < SPEED_WEIGHT ==> speed_num < (s + 1) * speed_den
            &&& 1000 * bytes >= crate::peer_stats::MAX_SPEED_BYTES_PER_SEC * time_ms ==> s == SPEED_WEIGHT
        },
{
    law_score_bounded(successes, 0, bytes, time_ms);
    if successes > 0 && time_ms > 0 {
        let sw = SPEED_WEIGHT as int;
        let ms = crate::peer_stats::MAX_SPEED_BYTES_PER_SEC as int;
        let b = 1000 * bytes;
        let d = ms * time_ms;
        let s = spec_speed_score(successes as int, bytes as int, time_ms as int);
        assert(d > 0) by (nonlinear_arith) requires ms > 0, time_ms > 0, d == ms * time_ms;
        if b >= d {
            assert(s == sw);
            assert(sw * d <= sw * b) by (nonlinear_arith) requires d <= b, sw >= 0;
        } else {
            let x = sw * b;
            assert(s == x / d);
            vstd::arithmetic::div_mod::lemma_fundamental_div_mod(x, d);
            vstd::arithmetic::div_mod::lemma_mod_bound(x, d);
            assert(x == d * (x / d) + x % d);
            assert(s * d <= x) by (nonlinear_arith) requires x == d * s + x % d, x % d >= 0;
            assert(x < (s + 1) * d) by (nonlinear_arith) requires x == d * s + x % d, x % d < d;
        }
    }
}

/// A peer that took longer for the same downloads never gets a larger speed
/// share, and one that downloaded more bytes in the same time never gets a
/// smaller one.
pub proof fn law_speed_score_monotone(successes: nat, bytes: nat, more_bytes: nat, time_ms: nat, more_time_ms: nat)
    requires
        0 < time_ms <= more_time_ms,
        bytes <= more_bytes,
    ensures
        spec_speed_score(successes as int, bytes as int, more_time_ms as int)
            <= spec_speed_score(successes as int, bytes as int, time_ms as int),
        spec_speed_score(successes as int, bytes as int, time_ms as int)
            <= spec_speed_score(successes as int, more_bytes as int, time_ms as int),
{
    if successes > 0 {
        law_speed_score_is_scaled_speed(successes, bytes, time_ms);
        law_speed_score_is_scaled_speed(successes, bytes, more_time_ms);
        law_speed_score_is_scaled_speed(successes, more_bytes, time_ms);
        let sw = SPEED_WEIGHT as int;
        let ms = crate::peer_stats::MAX_SPEED_BYTES_PER_SEC as int;
        let s1 = spec_speed_score(successes as int, bytes as int, time_ms as int);
        let s2 = spec_speed_score(successes as int, bytes as int, more_time_ms as int);
        let s3 = spec_speed_score(successes as int, more_bytes as int, time_ms as int);
        let d1 = ms * time_ms;
        let d2 = ms * more_time_ms;
        assert(0 < d1 <= d2) by (nonlinear_arith) requires ms > 0, 0 < time_ms <= more_time_ms, d1 == ms * time_ms, d2 == ms * more_time_ms;
        if s1 < sw {
            assert(s2 <= s1) by (nonlinear_arith)
                requires
                    s2 * d2 <= sw * (1000 * bytes),
                    sw * (1000 * bytes) < (s1 + 1) * d1,
                    0 < d1 <= d2,
                    s2 >= 0,
            {
                assert(s2 * d1 <= s2 * d2);
            }
            assert(s1 <= s3) by (nonlinear_arith)
                requires
                    s1 * d1 <= sw * (1000 * bytes),
                    bytes <= more_bytes,
                    s3 < sw ==> sw * (1000 * more_bytes) < (s3 + 1) * d1,
                    s3 <= sw,
                    s1 < sw,
                    d1 > 0,
                    sw >= 0,
            {
                if s3 < sw {
                    assert(sw * (1000 * bytes) <= sw * (1000 * more_bytes));
                }
            }
        } else {
            assert(d1 <= 1000 * bytes) by (nonlinear_arith)
                requires
                    s1 * d1 <= sw * (1000 * bytes),
                    s1 == sw,
                    sw > 0,
            {
            }
            assert(1000 * more_bytes >= d1);
        }
    }
}

/// The success share of a peer's score is the success weight times its
/// success rate, rounded down: the largest whole number `s` with
/// `s * attempts <= SUCCESS_WEIGHT * successes`; none without attempts.
pub proof fn law_success_score_is_scaled_rate(successes: nat, failures: nat)
    ensures
        successes + failures == 0 ==> spec_success_score(successes as int, failures as int) == 0,
        successes + failures > 0 ==> {
            let s = spec_success_score(successes as int, failures as int);
            &&& s * (successes + failures) <= SUCCESS_WEIGHT * successes
            &&& SUCCESS_WEIGHT * successes < (s + 1) * (successes + failures)
        },
{
    if successes + failures > 0 {
        let a = (successes + failures) as int;
        let x = SUCCESS_WEIGHT * successes;
        let s = spec_success_score(successes as int, failures as int);
        assert(s == x / a);
        vstd::arithmetic::div_mod::lemma_fundamental_div_mod(x, a);
        vstd::arithmetic::div_mod::lemma_mod_bound(x, a);
        assert(s * a <= x) by (nonlinear_arith) requires x == a * s + x % a, x % a >= 0;
        assert(x < (s + 1) * a) by (nonlinear_arith) requires x == a * s + x % a, x % a < a;
    }
}

/// A file is cut into chunks of `chunk_size` bytes from its start: chunk
/// `c` exists exactly when it starts inside the file, and then must hold
/// `chunk_size` bytes, or the rest of the file when fewer remain. So every
/// chunk but the last holds the full chunk size, there are as many chunks
/// as it takes to cover the file, and the last one ends the file.
pub proof fn law_chunk_sizes_cut_the_file(file_size: nat, chunk_size: nat, c: nat)
    requires
        chunk_size > 0,
    ensures
        c * chunk_size < file_size ==> expected_chunk_size(file_size, chunk_size, c) == Some(
            if file_size - c * chunk_size >= chunk_size { chunk_size } else { (file_size - c * chunk_size) as nat }),
        c * chunk_size >= file_size ==> expected_chunk_size(file_size, chunk_size, c) is None,
        c + 1 < chunks_count(file_size, chunk_size) ==> expected_chunk_size(file_size, chunk_size, c) == Some(chunk_size),
        chunks_count(file_size, chunk_size) * chunk_size >= file_size,
        chunks_count(file_size, chunk_size) > 0 ==> (chunks_count(file_size, chunk_size) - 1) * chunk_size < file_size,
{
    let n = chunks_count(file_size, chunk_size);
    let q = file_size / chunk_size;
    let r = file_size % chunk_size;
    vstd::arithmetic::div_mod::lemma_fundamental_div_mod(file_size as int, chunk_size as int);
    vstd::arithmetic::div_mod::lemma_mod_bound(file_size as int, chunk_size as int);
    assert(file_size == q * chunk_size + r) by (nonlinear_arith)
        requires file_size == chunk_size * q + r;
    if r == 0 {
        assert(n == q);
    } else {
        assert(n == q + 1);
    }
    assert(n * chunk_size >= file_size) by (nonlinear_arith)
        requires file_size == q * chunk_size + r, r < chunk_size, r == 0 ==> n == q, r != 0 ==> n == q + 1;
    assert(n > 0 ==> (n - 1) * chunk_size < file_size) by (nonlinear_arith)
        requires file_size == q * chunk_size + r, r == 0 ==> n == q, r != 0 ==> n == q + 1, chunk_size > 0;
    assert(c < n <==> c * chunk_size < file_size) by (nonlinear_arith)
        requires file_size == q * chunk_size + r, 0 <= r < chunk_size, r == 0 ==> n == q, r != 0 ==> n == q + 1, chunk_size > 0;
    if c + 1 < n {
        assert(file_size - c * chunk_size >= chunk_size) by (nonlinear_arith)
            requires file_size == q * chunk_size + r, r >= 0, r == 0 ==> n == q, r != 0 ==> n == q + 1, c + 1 < n, chunk_size > 0;
    } else if c < n {
        assert(file_size - c * chunk_size <= chunk_size) by (nonlinear_arith)
            requires file_size == q * chunk_size + r, r < chunk_size, r == 0 ==> n == q, r != 0 ==> n == q + 1, c + 1 >= n, c < n, chunk_size > 0;
    }
}

/// A failed confirmation is queued again, with its try count one higher,
/// exactly while that count stays within the configured maximum, whatever
/// the maximum is; past it the confirmation is dropped. Allowing more tries
/// never drops a confirmation that fewer tries would have kept.
pub proof fn law_retry_within_max_try_count(try_count: u32, max_try_count: u32, more_tries: u32)
    requires
        try_count < u32::MAX,
        max_try_count <= more_tries,
    ensures
        try_count + 1 <= max_try_count ==> spec_retry(try_count, max_try_count) == ConfirmStep::Requeue((try_count + 1) as u32),
        try_count + 1 > max_try_count ==> spec_retry(try_count, max_try_count) == ConfirmStep::Drop,
        spec_retry(try_count, max_try_count) is Requeue ==> spec_retry(try_count, more_tries) == spec_retry(try_count, max_try_count),
{
}

} // verus!
