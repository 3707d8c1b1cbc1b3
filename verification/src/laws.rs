//! What holds of every state that the engine reaches, and of calls taken
//! together. Every call of the engine keeps the state well formed; the
//! statements here say what that means.

use vstd::prelude::*;
use crate::seq_lib::{lemma_prefix_sum_agree, spec_prefix_sum};
use crate::set::{spec_sorted, spec_sum, spec_unique, AccountId, Balance, Stake};
use crate::state::{
    lemma_state_tally, spec_amounts, spec_selected, spec_self_stakes, StakingState,
};
use crate::types::CandidateView;
use crate::unstaking::{
    lemma_consume, lemma_first_slot, spec_consume, spec_total, BlockNumber, UnstakeEntry,
};

verus! {

/// The total stakes of the listed candidates as the pool holds them, in the
/// order of the list.
pub open spec fn spec_listed_totals(pool: Map<AccountId, CandidateView>, top: Seq<Stake>) -> Seq<int> {
    Seq::new(top.len(), |i: int| pool[top[i].owner].total as int)
}

/// The total of every candidate is its own stake plus the sum of what its
/// delegators have delegated to it.
pub proof fn lemma_candidate_total(s: StakingState, id: AccountId)
    requires
        s.wf(),
        s.candidate_pool.dom().contains(id),
    ensures
        s.candidate_pool[id].total == s.candidate_pool[id].stake + spec_sum(
            s.candidate_pool[id].delegators,
        ),
{
}

/// The list of top candidates never grows beyond its limit, names no
/// candidate twice, and is in descending order of total stake: an entry
/// never has less than one behind it.
pub proof fn lemma_top_candidates_ordered(s: StakingState)
    requires
        s.wf(),
    ensures
        s.top_candidates.len() <= s.config.max_top_candidates,
        spec_unique(s.top_candidates),
        spec_sorted(s.top_candidates),
        forall|i: int, j: int|
            0 <= i < j < s.top_candidates.len() ==> s.top_candidates[i].owner
                != s.top_candidates[j].owner && s.top_candidates[i].amount
                >= s.top_candidates[j].amount,
{
}

/// Where no two listed candidates have the same total stake, the list of
/// top candidates is in strictly descending order of total stake.
pub proof fn lemma_top_candidates_strictly_ordered(s: StakingState)
    requires
        s.wf(),
        forall|i: int, j: int|
            0 <= i < j < s.top_candidates.len() ==> s.top_candidates[i].amount
                != s.top_candidates[j].amount,
    ensures
        s.top_candidates.len() <= s.config.max_top_candidates,
        spec_unique(s.top_candidates),
        forall|i: int, j: int|
            0 <= i < j < s.top_candidates.len() ==> s.top_candidates[i].amount
                > s.top_candidates[j].amount,
{
    assert forall|i: int, j: int| 0 <= i < j < s.top_candidates.len() implies s.top_candidates[i].amount
        > s.top_candidates[j].amount by {
        assert(s.top_candidates[i].amount >= s.top_candidates[j].amount);
    }
}

/// The total stake that the engine keeps is the sum of the totals of the
/// selected candidates: the own stakes under `collators`, the rest under
/// `delegators`.
pub proof fn lemma_total_stake_is_selected_sum(s: StakingState)
    requires
        s.wf(),
    ensures
        s.total_collator_stake.collators + s.total_collator_stake.delegators == spec_prefix_sum(
            spec_listed_totals(s.candidate_pool, s.top_candidates),
            s.max_selected_candidates as int,
        ),
        s.total_collator_stake.collators == spec_prefix_sum(
            spec_self_stakes(s.candidate_pool, s.top_candidates),
            s.max_selected_candidates as int,
        ),
        s.selected_candidates().len() <= s.max_selected_candidates,
        forall|i: int|
            0 <= i < s.selected_candidates().len() ==> s.candidate_pool.dom().contains(
                #[trigger] s.selected_candidates()[i],
            ),
{
    lemma_state_tally(s);
    let totals = spec_listed_totals(s.candidate_pool, s.top_candidates);
    let amounts = spec_amounts(s.top_candidates);
    assert forall|i: int| 0 <= i < totals.len() implies totals[i] == amounts[i] by {
        assert(s.candidate_pool.dom().contains(s.top_candidates[i].owner));
    }
    lemma_prefix_sum_agree(totals, amounts, s.max_selected_candidates as int);
    assert forall|i: int| 0 <= i < s.selected_candidates().len() implies s.candidate_pool.dom().contains(
        #[trigger] s.selected_candidates()[i],
    ) by {
        assert(s.candidate_pool.dom().contains(s.top_candidates[i].owner));
    }
}

/// When a round ends, the next round starts at that block, and the selected
/// candidates are the first `max_selected_candidates` of the list of top
/// candidates as it stands at that block, in the order of the list: highest
/// total first, and among equal totals the one that reached it first.
pub proof fn lemma_round_transition_selects_top(s: StakingState, now: BlockNumber)
    requires
        s.wf(),
        s.should_end_session(now),
    ensures
        s.on_initialize(now).wf(),
        s.on_initialize(now).round.first == now,
        s.round.current < u32::MAX ==> s.on_initialize(now).round.current == s.round.current + 1,
        s.on_initialize(now).top_candidates == s.top_candidates,
        s.on_initialize(now).selected_candidates() == spec_selected(
            s.top_candidates,
            s.max_selected_candidates as int,
        ),
        forall|i: int|
            0 <= i < s.on_initialize(now).selected_candidates().len() ==> s.on_initialize(
                now,
            ).selected_candidates()[i] == s.top_candidates[i].owner,
        forall|i: int, j: int|
            0 <= i < j < s.on_initialize(now).selected_candidates().len() ==> s.top_candidates[i].amount
                >= s.top_candidates[j].amount,
{
}

/// A candidate that adds an amount to its stake and takes the same amount
/// off again in the same block ends up with a single unstaking entry of
/// that amount at the block where it matures, provided that no more than
/// the amount was waiting to unlock before.
pub proof fn lemma_stake_then_unstake(s: StakingState, who: AccountId, amount: Balance, free_balance: Balance)
    requires
        s.wf(),
        spec_total(s.ledger_of(who)) <= amount,
        s.candidate_stake_more(who, amount, free_balance) is Ok,
        s.candidate_stake_more(who, amount, free_balance)->Ok_0.candidate_stake_less(who, amount) is Ok,
    ensures
        s.candidate_stake_more(who, amount, free_balance)->Ok_0.candidate_stake_less(
            who,
            amount,
        )->Ok_0.ledger_of(who) == seq![UnstakeEntry { block: s.maturity(), amount }],
{
    let t = s.candidate_stake_more(who, amount, free_balance)->Ok_0;
    let u = t.candidate_stake_less(who, amount)->Ok_0;
    if s.unstaking.dom().contains(who) {
        assert(crate::unstaking::spec_ledger_wf(s.unstaking[who]));
    } else {
        assert(spec_total(Seq::<UnstakeEntry>::empty()) == 0);
    }
    lemma_consume(s.ledger_of(who), amount);
    let rest = spec_consume(s.ledger_of(who), amount);
    assert(rest.len() == 0);
    assert(s.with_stored_candidate(
        s.candidate_pool[who].with_stake((s.candidate_pool[who].stake + amount) as Balance),
    ) is Ok);
    assert(t.ledger_of(who) =~= Seq::<UnstakeEntry>::empty());
    assert(t.maturity() == s.maturity());
    lemma_first_slot(Seq::<UnstakeEntry>::empty(), s.maturity());
    let ledger = t.unstaked(who, amount, t.voluntary_capacity())->Ok_0;
    assert(t.unstaked(who, amount, t.voluntary_capacity()) is Ok);
    assert(ledger =~= seq![UnstakeEntry { block: s.maturity(), amount }]);
    assert(t.with_stored_candidate(
        t.candidate_pool[who].with_stake((t.candidate_pool[who].stake - amount) as Balance),
    ) is Ok);
}

} // verus!
