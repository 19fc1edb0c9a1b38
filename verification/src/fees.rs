//! The decisions of a provider charging its users: which debt threshold a
//! task uses, how the users with debt are cut into the groups that one
//! charging transaction can take, and what a charging round came to.

use vstd::prelude::*;
use crate::bytes::H256;

verus! {

/// `s` cut into consecutive groups of `m` items, the last one possibly
/// shorter.
pub open spec fn chunks_of(s: Seq<H256>, m: nat) -> Seq<Seq<H256>>
    decreases s.len(),
{
    if s.len() == 0 || m == 0 {
        Seq::empty()
    } else if s.len() <= m {
        seq![s]
    } else {
        seq![s.take(m as int)] + chunks_of(s.skip(m as int), m)
    }
}

/// The views of a sequence of groups.
pub open spec fn groups_view(v: Seq<Vec<H256>>) -> Seq<Seq<H256>> {
    v.map_values(|x: Vec<H256>| x@)
}

/// Cuts the users with debt into groups of at most `max_users_to_charge`,
/// in order, each charged by one transaction.
pub fn split_users_to_charge(users: &Vec<H256>, max_users_to_charge: usize) -> (r: Vec<Vec<H256>>)
    requires
        max_users_to_charge > 0,
    ensures
        groups_view(r@) == chunks_of(users@, max_users_to_charge as nat),
{
    let ghost s = users@;
    let n = users.len();
    let m = max_users_to_charge;
    let mut r: Vec<Vec<H256>> = Vec::new();
    let mut pos: usize = 0;
    proof { assert(s.skip(0) =~= s); }
    while pos < n
        invariant
            s == users@,
            n == s.len(),
            m > 0,
            pos <= n,
            chunks_of(s, m as nat) == groups_view(r@) + chunks_of(s.skip(pos as int), m as nat),
        decreases n - pos,
    {
        let end: usize = if n - pos <= m { n } else { pos + m };
        let mut group: Vec<H256> = Vec::new();
        let mut k: usize = pos;
        while k < end
            invariant
                s == users@,
                pos <= k <= end,
                end <= n,
                n == s.len(),
                group@ == s.subrange(pos as int, k as int),
            decreases end - k,
        {
            group.push(users[k]);
            proof { assert(s.subrange(pos as int, k + 1) =~= s.subrange(pos as int, k as int).push(s[k as int])); }
            k = k + 1;
        }
        proof {
            let rest = s.skip(pos as int);
            if n - pos <= m {
                assert(group@ =~= rest);
                assert(chunks_of(rest, m as nat) == seq![rest]);
                assert(s.skip(end as int) =~= Seq::<H256>::empty());
                assert(chunks_of(s.skip(end as int), m as nat) =~= Seq::<Seq<H256>>::empty());
            } else {
                assert(group@ =~= rest.take(m as int));
                assert(rest.skip(m as int) =~= s.skip(end as int));
            }
        }
        let ghost prev = r@;
        r.push(group);
        proof {
            assert(groups_view(r@) =~= groups_view(prev).push(group@));
            assert(groups_view(r@) + chunks_of(s.skip(end as int), m as nat)
                =~= groups_view(prev) + (seq![group@] + chunks_of(s.skip(end as int), m as nat)));
        }
        pos = end;
    }
    proof {
        assert(s.skip(pos as int) =~= Seq::<H256>::empty());
        assert(groups_view(r@) + Seq::<Seq<H256>>::empty() =~= groups_view(r@));
    }
    r
}

/// What a charging round came to.
#[derive(PartialEq, Eq, Structural)]
pub struct ChargeSummary {
    /// Users with debt that were to be charged
    pub users: u32,
    /// Charging transactions attempted
    pub chunks: u32,
    /// Transactions that were sent
    pub successful: u32,
    /// Transactions that could not be sent
    pub failed: u32,
}

/// The number of `true` entries of `s`.
pub open spec fn count_true(s: Seq<bool>) -> int
    decreases s.len(),
{
    if s.len() == 0 { 0 } else { count_true(s.drop_last()) + if s.last() { 1int } else { 0int } }
}

proof fn lemma_count_true_bound(s: Seq<bool>)
    ensures
        0 <= count_true(s) <= s.len(),
    decreases s.len(),
{
    if s.len() > 0 {
        lemma_count_true_bound(s.drop_last());
    }
}

/// Sums up a charging round from the number of users and whether each
/// group's transaction was sent; the number of users is reported as a
/// `u32`, truncated.
pub fn summarize_charging(users: usize, sent: &Vec<bool>) -> (r: ChargeSummary)
    requires
        sent@.len() <= u32::MAX,
    ensures
        r.users == users as u32,
        r.chunks == sent@.len(),
        r.successful == count_true(sent@),
        r.failed == sent@.len() - count_true(sent@),
{
    let mut ok: u32 = 0;
    let mut i: usize = 0;
    while i < sent.len()
        invariant
            0 <= i <= sent@.len(),
            sent@.len() <= u32::MAX,
            ok == count_true(sent@.take(i as int)),
        decreases sent.len() - i,
    {
        assert(sent@.take(i as int + 1).drop_last() =~= sent@.take(i as int));
        proof {
            lemma_count_true_bound(sent@.take(i as int));
        }
        if sent[i] {
            ok = ok + 1;
        }
        i = i + 1;
    }
    assert(sent@.take(sent@.len() as int) =~= sent@);
    proof {
        lemma_count_true_bound(sent@);
    }
    let n: u32 = sent.len() as u32;
    ChargeSummary { users: #[verifier::truncate] (users as u32), chunks: n, successful: ok, failed: n - ok }
}

/// A round counts as charged when no transaction failed.
pub fn charging_succeeded(summary: &ChargeSummary) -> (r: bool)
    ensures
        r == (summary.failed == 0),
{
    summary.failed == 0
}

/// A provider answers a user running out of funds by asking to stop storing
/// that user's files only when it stores some of them.
pub fn should_stop_storing_for_insolvent_user(user_file_count: usize) -> (r: bool)
    ensures
        r == (user_file_count > 0),
{
    user_file_count > 0
}

} // verus!
