//! Storage capacity decisions of a provider: whether a new file or a moved
//! bucket fits under the configured maximum, and when the on-chain capacity
//! has to be increased first. Also which provider role the node runs as.

use vstd::prelude::*;
use crate::bytes::{h256_eq, H256};

verus! {

/// The identity under which the node is registered on chain.
pub enum ProviderId {
    /// A Main Storage Provider
    Main(H256),
    /// A Backup Storage Provider
    Backup(H256),
}

/// Why the node's own provider id could not be used.
#[derive(PartialEq, Eq, Structural)]
pub enum RoleError {
    /// The node is not registered as a provider
    NotRegistered,
    /// The node is registered in the other role
    WrongRole,
}

/// The node's BSP id, or why it has none.
pub fn expect_bsp_id(id: Option<ProviderId>) -> (r: Result<H256, RoleError>)
    ensures
        id.is_none() ==> r == Err::<H256, RoleError>(RoleError::NotRegistered),
        id matches Some(ProviderId::Main(_)) ==> r == Err::<H256, RoleError>(RoleError::WrongRole),
        id matches Some(ProviderId::Backup(b)) ==> r == Ok::<H256, RoleError>(b),
{
    match id {
        None => Err(RoleError::NotRegistered),
        Some(ProviderId::Main(_)) => Err(RoleError::WrongRole),
        Some(ProviderId::Backup(b)) => Ok(b),
    }
}

/// The node's MSP id, or why it has none.
pub fn expect_msp_id(id: Option<ProviderId>) -> (r: Result<H256, RoleError>)
    ensures
        id.is_none() ==> r == Err::<H256, RoleError>(RoleError::NotRegistered),
        id matches Some(ProviderId::Backup(_)) ==> r == Err::<H256, RoleError>(RoleError::WrongRole),
        id matches Some(ProviderId::Main(m)) ==> r == Ok::<H256, RoleError>(m),
{
    match id {
        None => Err(RoleError::NotRegistered),
        Some(ProviderId::Backup(_)) => Err(RoleError::WrongRole),
        Some(ProviderId::Main(m)) => Ok(m),
    }
}

/// Whether a storage request for a bucket concerns this MSP: the bucket's
/// MSP is known and is `own_msp`. A request for any other bucket is skipped.
pub fn is_bucket_of_msp(own_msp: &H256, bucket_msp: &Option<H256>) -> (r: bool)
    ensures
        r == (bucket_msp matches Some(m) && m@ == own_msp@),
{
    match bucket_msp {
        Some(m) => h256_eq(m, own_msp),
        None => false,
    }
}

/// Why a file or a bucket cannot be taken on.
#[derive(PartialEq, Eq, Structural)]
pub enum CapacityError {
    /// The chain reports more available than total capacity
    AvailableExceedsCurrent { available: u64, current: u64 },
    /// Used capacity plus the new size overflows
    ProjectedUsageOverflow,
    /// Taking it on would exceed the configured maximum
    ExceedsMaxCapacity { used: u64, required: u64, max: u64 },
    /// The current capacity already is the configured maximum
    MaxCapacityReached,
    /// Even after the increase there is not enough room
    InsufficientAfterIncrease { available: u64, required: u64 },
}

/// What to do before taking a file or bucket on.
#[derive(PartialEq, Eq, Structural)]
pub enum CapacityPlan {
    /// There is room already
    Sufficient,
    /// Ask the chain for `required` more capacity, then check again
    Increase { required: u64 },
}

/// The capacity check for a new storage request of `required` bytes, given
/// the configured maximum, the current on-chain capacity and the part of it
/// still available.
pub open spec fn spec_plan_capacity(max: u64, current: u64, available: u64, required: u64) -> Result<CapacityPlan, CapacityError> {
    if available > current {
        Err(CapacityError::AvailableExceedsCurrent { available, current })
    } else if (current - available) + required > u64::MAX {
        Err(CapacityError::ProjectedUsageOverflow)
    } else if (current - available) + required > max {
        Err(CapacityError::ExceedsMaxCapacity { used: (current - available) as u64, required, max })
    } else if available < required {
        Ok(CapacityPlan::Increase { required })
    } else {
        Ok(CapacityPlan::Sufficient)
    }
}

/// Checks that a new file of `required` bytes fits: the used capacity
/// (current minus available) plus the file must stay within `max`; when the
/// available capacity is short, the capacity has to be increased first.
pub fn plan_storage_capacity(max: u64, current: u64, available: u64, required: u64) -> (r: Result<CapacityPlan, CapacityError>)
    ensures
        r == spec_plan_capacity(max, current, available, required),
{
    let used = match current.checked_sub(available) {
        Some(u) => u,
        None => {
            return Err(CapacityError::AvailableExceedsCurrent { available, current });
        },
    };
    let projected = match used.checked_add(required) {
        Some(p) => p,
        None => {
            return Err(CapacityError::ProjectedUsageOverflow);
        },
    };
    if projected > max {
        return Err(CapacityError::ExceedsMaxCapacity { used, required, max });
    }
    if available < required {
        Ok(CapacityPlan::Increase { required })
    } else {
        Ok(CapacityPlan::Sufficient)
    }
}

/// After asking for more capacity: the request can go on only if the
/// available capacity now covers `required`.
pub fn confirm_increased_capacity(available: u64, required: u64) -> (r: Result<(), CapacityError>)
    ensures
        available >= required ==> r is Ok,
        available < required ==> r == Err::<(), CapacityError>((CapacityError::InsufficientAfterIncrease { available, required })),
{
    if available < required {
        Err(CapacityError::InsufficientAfterIncrease { available, required })
    } else {
        Ok(())
    }
}

/// The capacity check for a bucket of `required` bytes moved to this MSP:
/// when the available capacity is short, it can only be increased while the
/// current capacity is still below the configured maximum.
pub fn plan_bucket_move_capacity(max: u64, current: u64, available: u64, required: u64) -> (r: Result<CapacityPlan, CapacityError>)
    ensures
        available >= required ==> r == Ok::<CapacityPlan, CapacityError>(CapacityPlan::Sufficient),
        available < required && max <= current ==> r == Err::<CapacityPlan, CapacityError>(CapacityError::MaxCapacityReached),
        available < required && max > current ==> r == Ok::<CapacityPlan, CapacityError>((CapacityPlan::Increase { required })),
{
    if available < required {
        if max <= current {
            Err(CapacityError::MaxCapacityReached)
        } else {
            Ok(CapacityPlan::Increase { required })
        }
    } else {
        Ok(CapacityPlan::Sufficient)
    }
}

/// The sum of a sequence of sizes.
pub open spec fn sum_sizes(s: Seq<u64>) -> int
    decreases s.len(),
{
    if s.len() == 0 { 0 } else { sum_sizes(s.drop_last()) + s.last() }
}

proof fn lemma_sum_sizes_monotone(s: Seq<u64>, i: int)
    requires
        0 <= i <= s.len(),
    ensures
        sum_sizes(s.take(i)) <= sum_sizes(s),
    decreases s.len() - i,
{
    if i < s.len() {
        lemma_sum_sizes_monotone(s, i + 1);
        assert(s.take(i + 1).drop_last() =~= s.take(i));
    } else {
        assert(s.take(i) =~= s);
    }
}

/// The total size of a bucket's files, or `None` when it overflows a `u64`.
pub fn bucket_total_size(sizes: &Vec<u64>) -> (r: Option<u64>)
    ensures
        sum_sizes(sizes@) <= u64::MAX ==> r == Some(sum_sizes(sizes@) as u64),
        sum_sizes(sizes@) > u64::MAX ==> r.is_none(),
{
    let mut total: u64 = 0;
    let mut i: usize = 0;
    while i < sizes.len()
        invariant
            0 <= i <= sizes.len(),
            total == sum_sizes(sizes@.take(i as int)),
        decreases sizes.len() - i,
    {
        assert(sizes@.take(i as int + 1).drop_last() =~= sizes@.take(i as int));
        match total.checked_add(sizes[i]) {
            Some(t) => {
                total = t;
            },
            None => {
                proof {
                    lemma_sum_sizes_monotone(sizes@, i as int + 1);
                }
                return None;
            },
        }
        i = i + 1;
    }
    assert(sizes@.take(sizes.len() as int) =~= sizes@);
    Some(total)
}

} // verus!
