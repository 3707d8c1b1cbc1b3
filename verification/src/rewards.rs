//! How the reward pot of a session is split among a candidate and its
//! delegators.
//!
//! Every staker earns in proportion to `blocks * stake`, where `blocks` is
//! the number of blocks that the candidate authored in the session. Of what
//! a delegator earns, the candidate keeps its commission.

use vstd::prelude::*;
use crate::arithmetic::{
    lemma_from_rational_bound, lemma_mul_nearest_bound, spec_from_rational, spec_mul_nearest,
    Permill, Perquintill, PERMILL_ACCURACY, PERQUINTILL_ACCURACY,
};
use crate::set::{Balance, Stake};
use crate::types::{Candidate, Reward};

verus! {

/// `blocks * amount`, stopping at the largest balance.
pub open spec fn spec_weighted(blocks: u32, amount: Balance) -> Balance {
    if blocks * amount > u128::MAX {
        u128::MAX
    } else {
        (blocks * amount) as Balance
    }
}

/// What a stake of `amount` earns before commission: its weighted share of
/// the pot. The share is rounded down to parts per quintillion, the amount
/// to the nearest integer.
pub open spec fn spec_base_reward(blocks: u32, amount: Balance, total_stake: Balance, pot: Balance) -> int {
    spec_mul_nearest(
        pot as int,
        spec_from_rational(
            spec_weighted(blocks, amount) as int,
            total_stake as int,
            PERQUINTILL_ACCURACY as int,
        ),
        PERQUINTILL_ACCURACY as int,
    )
}

/// What the candidate keeps of a delegator's `base` reward.
pub open spec fn spec_commission_cut(commission: Permill, base: int) -> int {
    spec_mul_nearest(base, commission.parts as int, PERMILL_ACCURACY as int)
}

/// What the delegator with `amount` staked is paid.
pub open spec fn spec_delegator_reward(
    commission: Permill,
    blocks: u32,
    amount: Balance,
    total_stake: Balance,
    pot: Balance,
) -> int {
    spec_base_reward(blocks, amount, total_stake, pot) - spec_commission_cut(
        commission,
        spec_base_reward(blocks, amount, total_stake, pot),
    )
}

/// Sum of two balances that stops at the largest one.
pub open spec fn spec_saturating_sum(a: int, b: int) -> int {
    if a + b > u128::MAX {
        u128::MAX as int
    } else {
        a + b
    }
}

/// What the candidate is paid: what its own stake earns, plus its cut of
/// what each of the `delegators` earns.
pub open spec fn spec_collator_reward(
    commission: Permill,
    stake: Balance,
    delegators: Seq<Stake>,
    blocks: u32,
    total_stake: Balance,
    pot: Balance,
) -> int
    decreases delegators.len(),
{
    if delegators.len() == 0 {
        spec_base_reward(blocks, stake, total_stake, pot)
    } else {
        spec_saturating_sum(
            spec_collator_reward(commission, stake, delegators.drop_last(), blocks, total_stake, pot),
            spec_commission_cut(
                commission,
                spec_base_reward(blocks, delegators.last().amount, total_stake, pot),
            ),
        )
    }
}

/// The base reward is at most the pot; a cut is at most its base, all of it
/// at full commission and nothing at none.
pub proof fn lemma_reward_bounds(
    commission: Permill,
    blocks: u32,
    amount: Balance,
    total_stake: Balance,
    pot: Balance,
)
    requires
        commission.wf(),
    ensures
        0 <= spec_base_reward(blocks, amount, total_stake, pot) <= pot,
        0 <= spec_commission_cut(commission, spec_base_reward(blocks, amount, total_stake, pot))
            <= spec_base_reward(blocks, amount, total_stake, pot),
        0 <= spec_delegator_reward(commission, blocks, amount, total_stake, pot) <= pot,
        commission.parts == PERMILL_ACCURACY ==> spec_delegator_reward(
            commission,
            blocks,
            amount,
            total_stake,
            pot,
        ) == 0,
        commission.parts == 0 ==> spec_delegator_reward(commission, blocks, amount, total_stake, pot)
            == spec_base_reward(blocks, amount, total_stake, pot),
{
    lemma_from_rational_bound(
        spec_weighted(blocks, amount) as int,
        total_stake as int,
        PERQUINTILL_ACCURACY as int,
    );
    let rate = spec_from_rational(
        spec_weighted(blocks, amount) as int,
        total_stake as int,
        PERQUINTILL_ACCURACY as int,
    );
    lemma_mul_nearest_bound(pot as int, rate, PERQUINTILL_ACCURACY as int);
    lemma_mul_nearest_bound(
        spec_base_reward(blocks, amount, total_stake, pot),
        commission.parts as int,
        PERMILL_ACCURACY as int,
    );
}

/// The candidate's reward is a balance.
pub proof fn lemma_collator_reward_bounds(
    commission: Permill,
    stake: Balance,
    delegators: Seq<Stake>,
    blocks: u32,
    total_stake: Balance,
    pot: Balance,
)
    requires
        commission.wf(),
    ensures
        0 <= spec_collator_reward(commission, stake, delegators, blocks, total_stake, pot)
            <= u128::MAX,
    decreases delegators.len(),
{
    if delegators.len() == 0 {
        lemma_reward_bounds(commission, blocks, stake, total_stake, pot);
    } else {
        lemma_collator_reward_bounds(
            commission,
            stake,
            delegators.drop_last(),
            blocks,
            total_stake,
            pot,
        );
        lemma_reward_bounds(commission, blocks, delegators.last().amount, total_stake, pot);
    }
}

/// A candidate that keeps all of its delegators' rewards leaves them
/// nothing.
pub proof fn lemma_full_commission_pays_no_delegator(
    blocks: u32,
    amount: Balance,
    total_stake: Balance,
    pot: Balance,
)
    ensures
        spec_delegator_reward(Permill { parts: PERMILL_ACCURACY }, blocks, amount, total_stake, pot)
            == 0,
{
    lemma_reward_bounds(Permill { parts: PERMILL_ACCURACY }, blocks, amount, total_stake, pot);
}

/// What a stake of `amount` earns before commission.
pub fn base_reward(blocks: u32, amount: Balance, total_stake: Balance, pot: Balance) -> (r: Balance)
    ensures
        r == spec_base_reward(blocks, amount, total_stake, pot),
        r <= pot,
{
    let weighted = match (blocks as u128).checked_mul(amount) {
        Some(w) => w,
        None => u128::MAX,
    };
    let rate = Perquintill::from_rational(weighted, total_stake);
    rate.mul_balance(pot)
}

/// What the candidate `state` is paid for `block_num` authored blocks out
/// of a pot of `pot`, where `total_stake_in_session` is the sum of
/// `blocks * total` over all candidates that authored.
pub fn get_collator_reward_per_session(
    state: &Candidate,
    block_num: u32,
    total_stake_in_session: Balance,
    pot: Balance,
) -> (r: Reward)
    requires
        state@.commission.wf(),
    ensures
        r.owner == state@.id,
        r.amount == spec_collator_reward(
            state@.commission,
            state@.stake,
            state@.delegators,
            block_num,
            total_stake_in_session,
            pot,
        ),
{
    let mut amount = base_reward(block_num, state.stake, total_stake_in_session, pot);
    let n = state.delegators.len();
    let mut i: usize = 0;
    proof {
        assert(state@.delegators.subrange(0, 0) =~= Seq::<Stake>::empty());
    }
    while i < n
        invariant
            i <= n,
            n == state@.delegators.len(),
            state@.commission.wf(),
            amount == spec_collator_reward(
                state@.commission,
                state@.stake,
                state@.delegators.subrange(0, i as int),
                block_num,
                total_stake_in_session,
                pot,
            ),
        decreases n - i,
    {
        let d = state.delegators.get(i).unwrap();
        let base = base_reward(block_num, d.amount, total_stake_in_session, pot);
        let cut = state.commission.mul_balance(base);
        proof {
            let next = state@.delegators.subrange(0, i as int + 1);
            assert(next.drop_last() =~= state@.delegators.subrange(0, i as int));
            assert(next.last() == d);
        }
        amount = amount.saturating_add(cut);
        i += 1;
    }
    proof {
        assert(state@.delegators.subrange(0, n as int) =~= state@.delegators);
    }
    Reward { owner: state.id, amount }
}

/// What each delegator of the candidate `state` is paid, in the order of
/// the candidate's delegator set.
pub fn get_delgators_reward_per_session(
    state: &Candidate,
    block_num: u32,
    total_stake_in_session: Balance,
    pot: Balance,
) -> (r: Vec<Reward>)
    requires
        state@.commission.wf(),
    ensures
        r@.len() == state@.delegators.len(),
        forall|i: int|
            0 <= i < r@.len() ==> (#[trigger] r@[i]).owner == state@.delegators[i].owner && r@[i].amount
                == spec_delegator_reward(
                state@.commission,
                block_num,
                state@.delegators[i].amount,
                total_stake_in_session,
                pot,
            ),
{
    let mut rewards: Vec<Reward> = Vec::new();
    let n = state.delegators.len();
    let mut i: usize = 0;
    while i < n
        invariant
            i <= n,
            n == state@.delegators.len(),
            state@.commission.wf(),
            rewards@.len() == i,
            forall|j: int|
                0 <= j < i ==> (#[trigger] rewards@[j]).owner == state@.delegators[j].owner
                    && rewards@[j].amount == spec_delegator_reward(
                    state@.commission,
                    block_num,
                    state@.delegators[j].amount,
                    total_stake_in_session,
                    pot,
                ),
        decreases n - i,
    {
        let d = state.delegators.get(i).unwrap();
        let base = base_reward(block_num, d.amount, total_stake_in_session, pot);
        let cut = state.commission.mul_balance(base);
        rewards.push(Reward { owner: d.owner, amount: base - cut });
        i += 1;
    }
    rewards
}

} // verus!
