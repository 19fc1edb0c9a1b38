//! The decisions of a BSP answering its storage proof challenges: which
//! checkpoint challenges join the forest challenges, which proven file keys
//! need a key proof, how much tip a submission may pay, and when a failed
//! submission is sent again.

use vstd::prelude::*;
use crate::bytes::{H256, h256_eq};

verus! {

/// A challenge set by the chain at a checkpoint; `should_remove_key` marks
/// a file whose deletion the proof has to carry out.
#[derive(Clone, Copy)]
pub struct CustomChallenge {
    pub key: H256,
    pub should_remove_key: bool,
}

/// What a forest proof proves of one challenge.
pub enum Proven {
    /// The challenged key itself is in the forest
    ExactKey(H256),
    /// The keys next to the challenged one, on either side where they exist
    NeighbourKeys(Option<H256>, Option<H256>),
    /// The forest is empty
    Empty,
}

/// Checkpoint challenges are due when a checkpoint lies after the last tick
/// the provider proved and no later than the tick it is challenged at now.
pub fn checkpoint_challenges_due(last_proven_tick: u32, last_checkpoint_tick: u32, challenges_tick: u32) -> (r: bool)
    ensures
        r == (last_proven_tick < last_checkpoint_tick && last_checkpoint_tick <= challenges_tick),
{
    last_proven_tick < last_checkpoint_tick && last_checkpoint_tick <= challenges_tick
}

/// The keys of a sequence of checkpoint challenges.
pub open spec fn challenge_keys(c: Seq<CustomChallenge>) -> Seq<H256> {
    c.map_values(|x: CustomChallenge| x.key)
}

/// Appends the keys of the checkpoint challenges to the forest challenges,
/// in their order.
pub fn add_checkpoint_challenges(forest_challenges: &mut Vec<H256>, checkpoint: &Vec<CustomChallenge>)
    requires
        old(forest_challenges)@.len() + checkpoint@.len() <= usize::MAX,
    ensures
        final(forest_challenges)@ == old(forest_challenges)@ + challenge_keys(checkpoint@),
{
    let ghost start = forest_challenges@;
    let mut i: usize = 0;
    while i < checkpoint.len()
        invariant
            0 <= i <= checkpoint@.len(),
            forest_challenges@ == start + challenge_keys(checkpoint@.take(i as int)),
            start.len() + checkpoint@.len() <= usize::MAX,
        decreases checkpoint.len() - i,
    {
        forest_challenges.push(checkpoint[i].key);
        assert(challenge_keys(checkpoint@.take(i as int + 1)) =~= challenge_keys(checkpoint@.take(i as int)).push(checkpoint@[i as int].key));
        i = i + 1;
    }
    assert(checkpoint@.take(checkpoint@.len() as int) =~= checkpoint@);
}

/// A proof request with no challenge at all is skipped.
pub fn has_challenges(forest_challenges: &Vec<H256>, checkpoint: &Vec<CustomChallenge>) -> (r: bool)
    ensures
        r == (forest_challenges@.len() > 0 || checkpoint@.len() > 0),
{
    forest_challenges.len() > 0 || checkpoint.len() > 0
}

/// A proof is outdated when the chain now expects one for another tick.
pub fn is_proof_outdated(next_challenge_tick: u32, proof_tick: u32) -> (r: bool)
    ensures
        r == (next_challenge_tick != proof_tick),
{
    next_challenge_tick != proof_tick
}

/// The keys that one proven challenge contributes.
pub open spec fn keys_of(p: Proven) -> Seq<H256> {
    match p {
        Proven::ExactKey(k) => seq![k],
        Proven::NeighbourKeys(l, r) => match (l, r) {
            (Some(a), Some(b)) => seq![a, b],
            (Some(a), None) => seq![a],
            (None, Some(b)) => seq![b],
            (None, None) => Seq::empty(),
        },
        Proven::Empty => Seq::empty(),
    }
}

/// The keys of a sequence of proven challenges, in order.
pub open spec fn proven_keys_of(s: Seq<Proven>) -> Seq<H256>
    decreases s.len(),
{
    if s.len() == 0 { Seq::empty() } else { proven_keys_of(s.drop_last()) + keys_of(s.last()) }
}

proof fn lemma_proven_keys_len(s: Seq<Proven>)
    ensures
        proven_keys_of(s).len() <= 2 * s.len(),
    decreases s.len(),
{
    if s.len() > 0 {
        lemma_proven_keys_len(s.drop_last());
    }
}

/// The file keys that a forest proof proves: the exact key of each exact
/// match, and the neighbours that exist of each miss.
pub fn proven_keys(proven: &Vec<Proven>) -> (r: Vec<H256>)
    requires
        2 * proven@.len() <= usize::MAX,
    ensures
        r@ == proven_keys_of(proven@),
{
    let mut keys: Vec<H256> = Vec::new();
    let mut i: usize = 0;
    while i < proven.len()
        invariant
            0 <= i <= proven@.len(),
            2 * proven@.len() <= usize::MAX,
            keys@ == proven_keys_of(proven@.take(i as int)),
        decreases proven.len() - i,
    {
        proof {
            assert(proven@.take(i as int + 1).drop_last() =~= proven@.take(i as int));
            lemma_proven_keys_len(proven@.take(i as int));
        }
        match &proven[i] {
            Proven::ExactKey(k) => {
                keys.push(*k);
            },
            Proven::NeighbourKeys(l, r) => {
                match l {
                    Some(a) => {
                        keys.push(*a);
                    },
                    None => {},
                }
                match r {
                    Some(b) => {
                        keys.push(*b);
                    },
                    None => {},
                }
            },
            Proven::Empty => {},
        }
        assert(keys@ =~= proven_keys_of(proven@.take(i as int + 1)));
        i = i + 1;
    }
    assert(proven@.take(proven@.len() as int) =~= proven@);
    keys
}

/// A key needs a key proof unless a checkpoint challenge asks for its
/// removal.
pub open spec fn needs_key_proof(key: H256, checkpoint: Seq<CustomChallenge>) -> bool {
    !exists|j: int| 0 <= j < checkpoint.len() && #[trigger] checkpoint[j].should_remove_key && checkpoint[j].key@ == key@
}

/// Whether a key proof must be generated for `key`.
pub fn should_generate_key_proof(key: &H256, checkpoint: &Vec<CustomChallenge>) -> (r: bool)
    ensures
        r == needs_key_proof(*key, checkpoint@),
{
    let mut i: usize = 0;
    while i < checkpoint.len()
        invariant
            0 <= i <= checkpoint@.len(),
            forall|j: int| 0 <= j < i ==> !(#[trigger] checkpoint@[j].should_remove_key && checkpoint@[j].key@ == key@),
        decreases checkpoint.len() - i,
    {
        let c = checkpoint[i];
        if c.should_remove_key && h256_eq(&c.key, key) {
            return false;
        }
        i = i + 1;
    }
    true
}

/// The proven keys that need a key proof, in order.
pub fn keys_needing_proofs(keys: &Vec<H256>, checkpoint: &Vec<CustomChallenge>) -> (r: Vec<H256>)
    ensures
        r@ == keys@.filter(|k: H256| needs_key_proof(k, checkpoint@)),
{
    let mut out: Vec<H256> = Vec::new();
    let mut i: usize = 0;
    while i < keys.len()
        invariant
            0 <= i <= keys@.len(),
            out@ == keys@.take(i as int).filter(|k: H256| needs_key_proof(k, checkpoint@)),
        decreases keys.len() - i,
    {
        assert(keys@.take(i as int + 1).drop_last() =~= keys@.take(i as int));
        proof {
            reveal_with_fuel(Seq::filter, 1);
        }
        if should_generate_key_proof(&keys[i], checkpoint) {
            out.push(keys[i]);
        }
        i = i + 1;
    }
    assert(keys@.take(keys@.len() as int) =~= keys@);
    out
}

/// The highest tip worth paying for a proof: twice what the provider would
/// be slashed for missing all its forest challenges, saturating.
pub open spec fn spec_max_proof_tip(slash_per_max_file_size: u128, forest_challenges: u128) -> u128 {
    let once = if slash_per_max_file_size * forest_challenges > u128::MAX {
        u128::MAX
    } else {
        (slash_per_max_file_size * forest_challenges) as u128
    };
    if once * 2 > u128::MAX { u128::MAX } else { (once * 2) as u128 }
}

/// The maximum tip for submitting a proof that answers `forest_challenges`
/// challenges.
pub fn max_proof_tip(slash_per_max_file_size: u128, forest_challenges: usize) -> (r: u128)
    ensures
        r == spec_max_proof_tip(slash_per_max_file_size, forest_challenges as u128),
{
    let n: u128 = forest_challenges as u128;
    let once: u128 = match slash_per_max_file_size.checked_mul(n) {
        Some(v) => v,
        None => u128::MAX,
    };
    match once.checked_mul(2) {
        Some(v) => v,
        None => u128::MAX,
    }
}

/// Whether the same proof is sent again after a failed submission: only
/// after a timeout, while the proof is still for the expected tick and the
/// forest root it was made against is still the current one (an absent
/// forest counts as a changed root).
pub fn should_retry_submit_proof(
    timed_out: bool,
    next_challenge_tick: u32,
    proof_tick: u32,
    current_root: &Option<H256>,
    proof_root: &H256,
) -> (r: bool)
    ensures
        r == (timed_out && next_challenge_tick == proof_tick && (current_root matches Some(c) && c@ == proof_root@)),
{
    if !timed_out {
        return false;
    }
    if is_proof_outdated(next_challenge_tick, proof_tick) {
        return false;
    }
    match current_root {
        Some(root) => h256_eq(root, proof_root),
        None => false,
    }
}

} // verus!
