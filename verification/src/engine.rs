//! The building blocks that the calls of the engine are made of: reading
//! and storing an unstaking backlog, storing a candidate together with its
//! place in the list of top candidates, and reporting.

use vstd::prelude::*;
use crate::account_map::AccountMap;
use crate::error::Error;
use crate::set::{
    lemma_index_of, spec_contains, spec_insert_bounded, spec_insert_bounded_result, AccountId,
    Balance, BoundedInsertError, OrderedSet, Stake,
};
use crate::state::{
    lemma_state_tally, lemma_top_unlisted, spec_amounts, spec_ledger_in, spec_put_ledger,
    spec_selected_total, spec_self_stakes, spec_top_wf, spec_total_stake_of, Config, StakePallet,
    StakingState, TopPlan,
};
use crate::types::{Candidate, CandidateView, Event, RoundInfo, TotalStake};
use crate::unstaking::{spec_consume, spec_increase, BlockNumber, UnstakeEntry, UnstakingLedger};

verus! {

/// What the list of top candidates reports when a candidate's entry has
/// been put in: nothing for an entry that was there or was rejected, the
/// entrance of a newcomer, and before it the exit of the entry it pushed
/// out.
pub open spec fn spec_top_events(
    events: Seq<Event>,
    outcome: Result<bool, BoundedInsertError>,
    id: AccountId,
) -> Seq<Event> {
    match outcome {
        Ok(true) => events.push(Event::EnteredTopCandidates(id)),
        Err(BoundedInsertError::Evicted(e)) => events.push(Event::LeftTopCandidates(e.owner)).push(
            Event::EnteredTopCandidates(id),
        ),
        _ => events,
    }
}

impl StakingState {
    /// The unstaking backlog of `who`; empty if there is none.
    pub open spec fn ledger_of(self, who: AccountId) -> Seq<UnstakeEntry> {
        spec_ledger_in(self.unstaking, who)
    }

    /// The state with `ledger` as the backlog of `who`. An empty backlog is
    /// not kept.
    pub open spec fn with_ledger(self, who: AccountId, ledger: Seq<UnstakeEntry>) -> StakingState {
        StakingState { unstaking: spec_put_ledger(self.unstaking, who, ledger), ..self }
    }

    /// The block at which funds unstaked now unlock.
    pub open spec fn maturity(self) -> BlockNumber {
        if self.block_number + self.config.stake_duration > u64::MAX {
            u64::MAX
        } else {
            (self.block_number + self.config.stake_duration) as BlockNumber
        }
    }

    /// How many entries a backlog may have for a voluntary unstake to be
    /// accepted: one less than for a forced one.
    pub open spec fn voluntary_capacity(self) -> int {
        if self.config.max_unstake_requests == 0 {
            0
        } else {
            self.config.max_unstake_requests - 1
        }
    }

    /// The backlog of `who` after `amount` has been unstaked now.
    pub open spec fn unstaked(self, who: AccountId, amount: Balance, capacity: int) -> Result<
        Seq<UnstakeEntry>,
        Error,
    > {
        spec_increase(self.ledger_of(who), amount, self.maturity(), capacity)
    }

    /// The state after the active candidate `after` has been stored and its
    /// entry in the list of top candidates has been brought up to date;
    /// `Overflow` if the stake behind the selected candidates no longer fits
    /// a balance.
    pub open spec fn with_candidate(self, after: CandidateView) -> Result<StakingState, Error> {
        let stake = Stake { owner: after.id, amount: after.total };
        let top = spec_insert_bounded(
            self.top_candidates,
            stake,
            self.config.max_top_candidates as int,
        );
        let pool = self.candidate_pool.insert(after.id, after);
        if spec_selected_total(top, self.max_selected_candidates as int) > u128::MAX {
            Err(Error::Overflow)
        } else {
            Ok(
                StakingState {
                    candidate_pool: pool,
                    top_candidates: top,
                    total_collator_stake: spec_total_stake_of(
                        pool,
                        top,
                        self.max_selected_candidates as int,
                    ),
                    events: spec_top_events(
                        self.events,
                        spec_insert_bounded_result(
                            self.top_candidates,
                            stake,
                            self.config.max_top_candidates as int,
                        ),
                        after.id,
                    ),
                    ..self
                },
            )
        }
    }

    /// The state after the candidate `after`, which is not active, has been
    /// stored. The list of top candidates does not hold it.
    pub open spec fn with_unlisted_candidate(self, after: CandidateView) -> StakingState {
        StakingState { candidate_pool: self.candidate_pool.insert(after.id, after), ..self }
    }

    /// The state after the candidate `after` has been stored, listed or not
    /// as its status demands.
    pub open spec fn with_stored_candidate(self, after: CandidateView) -> Result<StakingState, Error> {
        if after.is_active() {
            self.with_candidate(after)
        } else {
            Ok(self.with_unlisted_candidate(after))
        }
    }

    /// What may be said of a candidate that is about to be stored: it is
    /// well formed, within the limit on delegators, does not delegate to
    /// itself and is no delegator.
    pub open spec fn admits(self, after: CandidateView) -> bool {
        &&& after.wf()
        &&& after.delegators.len() <= self.config.max_delegators_per_collator
        &&& !spec_contains(after.delegators, after.id)
        &&& !self.delegator_state.dom().contains(after.id)
    }
}

impl StakePallet {
    /// An engine without candidates and delegators, in round zero.
    pub fn new(config: Config, max_selected_candidates: u32, max_candidate_stake: Balance) -> (r:
        StakePallet)
        ensures
            r.wf(),
            r@.config == config,
            r@.block_number == 0,
            r@.max_selected_candidates == max_selected_candidates,
            r@.max_candidate_stake == max_candidate_stake,
            r@.round == (RoundInfo { current: 0, first: 0, length: config.default_blocks_per_round }),
            !r@.new_round_forced,
            r@.candidate_pool == Map::<AccountId, CandidateView>::empty(),
            r@.delegator_state.dom() == Set::<AccountId>::empty(),
            r@.unstaking.dom() == Set::<AccountId>::empty(),
            r@.last_delegation.dom() == Set::<AccountId>::empty(),
            r@.collator_blocks.len() == 0,
            r@.top_candidates == Seq::<Stake>::empty(),
            r@.total_collator_stake == (TotalStake { collators: 0, delegators: 0 }),
            r@.events == Seq::<Event>::empty(),
    {
        let r = StakePallet {
            config,
            block_number: 0,
            max_selected_candidates,
            max_candidate_stake,
            round: RoundInfo::new(0, 0, config.default_blocks_per_round),
            new_round_forced: false,
            candidate_pool: AccountMap::new(),
            delegator_state: AccountMap::new(),
            unstaking: AccountMap::new(),
            last_delegation: AccountMap::new(),
            collator_blocks: Vec::new(),
            top_candidates: OrderedSet::new(),
            total_collator_stake: TotalStake { collators: 0, delegators: 0 },
            events: Vec::new(),
        };
        proof {
            let n = max_selected_candidates as int;
            let pool = r@.candidate_pool;
            let top = r@.top_candidates;
            crate::seq_lib::lemma_prefix_sum_full(spec_self_stakes(pool, top), n);
            crate::seq_lib::lemma_prefix_sum_full(spec_amounts(top), n);
        }
        r
    }

    /// The block at which funds unstaked now unlock.
    pub(crate) fn maturity(&self) -> (r: BlockNumber)
        ensures
            r == self@.maturity(),
    {
        self.block_number.saturating_add(self.config.stake_duration)
    }

    /// How many entries a backlog may have for a voluntary unstake to be
    /// accepted.
    pub(crate) fn voluntary_capacity(&self) -> (r: usize)
        ensures
            r == self@.voluntary_capacity(),
    {
        self.config.max_unstake_requests.saturating_sub(1) as usize
    }

    /// A copy of the unstaking backlog of `who`.
    pub(crate) fn ledger_copy(&self, who: AccountId) -> (r: UnstakingLedger)
        requires
            self.wf(),
        ensures
            r@ == self@.ledger_of(who),
            r.wf(),
    {
        match self.unstaking.get(who) {
            Some(ledger) => ledger.clone_ledger(),
            None => UnstakingLedger::new(),
        }
    }

    /// The backlog of `who` after `amount` has been unstaked now, worked
    /// out but not yet stored.
    pub(crate) fn plan_unstake(&self, who: AccountId, amount: Balance, capacity: usize) -> (r: Result<
        UnstakingLedger,
        Error,
    >)
        requires
            self.wf(),
        ensures
            match r {
                Ok(ledger) => ledger.wf() && self@.unstaked(who, amount, capacity as int) == Ok::<
                    Seq<UnstakeEntry>,
                    Error,
                >(ledger@),
                Err(e) => self@.unstaked(who, amount, capacity as int) == Err::<
                    Seq<UnstakeEntry>,
                    Error,
                >(e),
            },
    {
        let mut ledger = self.ledger_copy(who);
        match ledger.increase_unstake(amount, self.maturity(), capacity) {
            Ok(()) => Ok(ledger),
            Err(e) => Err(e),
        }
    }

    /// The backlog of `who` after `amount` has been staked again, worked
    /// out but not yet stored.
    pub(crate) fn plan_restake(&self, who: AccountId, amount: Balance) -> (r: UnstakingLedger)
        requires
            self.wf(),
        ensures
            r.wf(),
            r@ == spec_consume(self@.ledger_of(who), amount),
    {
        let mut ledger = self.ledger_copy(who);
        ledger.decrease_unstake_on_restake(amount);
        ledger
    }

    /// Stores `ledger` as the backlog of `who`.
    pub(crate) fn put_ledger(&mut self, who: AccountId, ledger: UnstakingLedger)
        requires
            old(self).wf(),
            ledger.wf(),
        ensures
            final(self).wf(),
            final(self)@ == old(self)@.with_ledger(who, ledger@),
    {
        if ledger.is_empty() {
            self.unstaking.remove(who);
        } else {
            self.unstaking.insert(who, ledger);
        }
    }

    /// Reports `event`.
    pub(crate) fn deposit_event(&mut self, event: Event)
        requires
            old(self).wf(),
        ensures
            final(self).wf(),
            final(self)@ == old(self)@.with_event(event),
    {
        self.events.push(event);
    }

    /// Works out where the active candidate `after` stands in the list of
    /// top candidates of the engine as it is.
    pub(crate) fn plan_candidate(&self, after: &Candidate) -> (r: Result<TopPlan, Error>)
        requires
            self.wf(),
            after.wf(),
            after@.is_active(),
        ensures
            match r {
                Ok(plan) => {
                    &&& self@.with_candidate(after@) is Ok
                    &&& plan.top@ == self@.with_candidate(after@)->Ok_0.top_candidates
                    &&& plan.total == self@.with_candidate(after@)->Ok_0.total_collator_stake
                    &&& plan.outcome == spec_insert_bounded_result(
                        self@.top_candidates,
                        Stake { owner: after@.id, amount: after@.total },
                        self@.config.max_top_candidates as int,
                    )
                    &&& spec_top_wf(
                        self@.candidate_pool.insert(after@.id, after@),
                        plan.top@,
                        self@.config,
                    )
                },
                Err(e) => self@.with_candidate(after@) == Err::<StakingState, Error>(e),
            },
    {
        proof {
            lemma_state_tally(self@);
        }
        self.plan_top_entry(
            &self.top_candidates,
            self.total_collator_stake,
            after,
            Ghost(self@.candidate_pool),
        )
    }

    /// Puts a candidate and the plan made for it in place.
    pub(crate) fn commit_candidate(&mut self, after: Candidate, plan: TopPlan)
        requires
            old(self).wf(),
            old(self)@.admits(after@),
            after@.is_active(),
            old(self)@.with_candidate(after@) is Ok,
            plan.top@ == old(self)@.with_candidate(after@)->Ok_0.top_candidates,
            plan.total == old(self)@.with_candidate(after@)->Ok_0.total_collator_stake,
            plan.outcome == spec_insert_bounded_result(
                old(self)@.top_candidates,
                Stake { owner: after@.id, amount: after@.total },
                old(self)@.config.max_top_candidates as int,
            ),
            spec_top_wf(
                old(self)@.candidate_pool.insert(after@.id, after@),
                plan.top@,
                old(self)@.config,
            ),
        ensures
            final(self).wf(),
            old(self)@.with_candidate(after@) == Ok::<StakingState, Error>(final(self)@),
    {
        let id = after.id;
        self.candidate_pool.insert(id, after);
        self.top_candidates = plan.top;
        self.total_collator_stake = plan.total;
        match plan.outcome {
            Ok(true) => {
                self.events.push(Event::EnteredTopCandidates(id));
            },
            Err(BoundedInsertError::Evicted(e)) => {
                self.events.push(Event::LeftTopCandidates(e.owner));
                self.events.push(Event::EnteredTopCandidates(id));
            },
            _ => {},
        }
    }

    /// Stores a candidate that is not active. The list of top candidates
    /// does not hold it and stays as it is.
    pub(crate) fn commit_unlisted_candidate(&mut self, after: Candidate)
        requires
            old(self).wf(),
            old(self)@.admits(after@),
            !after@.is_active(),
            old(self)@.candidate_pool.dom().contains(after@.id),
            !spec_contains(old(self)@.top_candidates, after@.id),
        ensures
            final(self).wf(),
            final(self)@ == old(self)@.with_unlisted_candidate(after@),
    {
        proof {
            let s = old(self)@;
            let pool2 = s.candidate_pool.insert(after@.id, after@);
            lemma_top_unlisted(s.candidate_pool, s.top_candidates, pool2, after@.id);
        }
        let id = after.id;
        self.candidate_pool.insert(id, after);
    }
}

/// A candidate that is not active is not listed among the top candidates,
/// and no candidate is a delegator.
pub proof fn lemma_inactive_unlisted(s: StakingState, id: AccountId)
    requires
        s.wf(),
        s.candidate_pool.dom().contains(id),
    ensures
        !s.candidate_pool[id].is_active() ==> !spec_contains(s.top_candidates, id),
        !s.delegator_state.dom().contains(id),
        s.candidate_pool[id].wf(),
        s.candidate_pool[id].id == id,
        s.candidate_pool[id].delegators.len() <= s.config.max_delegators_per_collator,
        !spec_contains(s.candidate_pool[id].delegators, id),
{
    lemma_index_of(s.top_candidates, id);
    if spec_contains(s.top_candidates, id) {
        let i = crate::set::spec_index_of(s.top_candidates, id);
        assert(s.candidate_pool[s.top_candidates[i].owner].is_active());
    }
    if s.delegator_state.dom().contains(id) {
        assert(!s.candidate_pool.dom().contains(id));
    }
}

impl StakePallet {
    /// Works out what storing the candidate `after` does to the list of
    /// top candidates: a plan if the candidate is active, nothing to plan
    /// if it is not.
    pub(crate) fn plan_stored(&self, after: &Candidate) -> (r: Result<Option<TopPlan>, Error>)
        requires
            self.wf(),
            after.wf(),
        ensures
            match r {
                Ok(Some(plan)) => {
                    &&& after@.is_active()
                    &&& self@.with_candidate(after@) is Ok
                    &&& plan.top@ == self@.with_candidate(after@)->Ok_0.top_candidates
                    &&& plan.total == self@.with_candidate(after@)->Ok_0.total_collator_stake
                    &&& plan.outcome == spec_insert_bounded_result(
                        self@.top_candidates,
                        Stake { owner: after@.id, amount: after@.total },
                        self@.config.max_top_candidates as int,
                    )
                    &&& spec_top_wf(
                        self@.candidate_pool.insert(after@.id, after@),
                        plan.top@,
                        self@.config,
                    )
                },
                Ok(None) => !after@.is_active(),
                Err(e) => self@.with_stored_candidate(after@) == Err::<StakingState, Error>(e),
            },
    {
        if after.is_active() {
            match self.plan_candidate(after) {
                Ok(plan) => Ok(Some(plan)),
                Err(e) => Err(e),
            }
        } else {
            Ok(None)
        }
    }

    /// Puts a candidate in place, with the plan made for it if it is
    /// active.
    pub(crate) fn store_candidate(&mut self, after: Candidate, plan: Option<TopPlan>)
        requires
            old(self).wf(),
            old(self)@.admits(after@),
            old(self)@.candidate_pool.dom().contains(after@.id) || after@.is_active(),
            old(self)@.candidate_pool.dom().contains(after@.id) ==> old(self)@.candidate_pool[after@.id].is_active()
                == after@.is_active(),
            match plan {
                Some(plan) => {
                    &&& after@.is_active()
                    &&& old(self)@.with_candidate(after@) is Ok
                    &&& plan.top@ == old(self)@.with_candidate(after@)->Ok_0.top_candidates
                    &&& plan.total == old(self)@.with_candidate(after@)->Ok_0.total_collator_stake
                    &&& plan.outcome == spec_insert_bounded_result(
                        old(self)@.top_candidates,
                        Stake { owner: after@.id, amount: after@.total },
                        old(self)@.config.max_top_candidates as int,
                    )
                    &&& spec_top_wf(
                        old(self)@.candidate_pool.insert(after@.id, after@),
                        plan.top@,
                        old(self)@.config,
                    )
                },
                None => !after@.is_active(),
            },
        ensures
            final(self).wf(),
            old(self)@.with_stored_candidate(after@) == Ok::<StakingState, Error>(final(self)@),
    {
        match plan {
            Some(plan) => self.commit_candidate(after, plan),
            None => {
                proof {
                    lemma_inactive_unlisted(self@, after@.id);
                }
                self.commit_unlisted_candidate(after)
            },
        }
    }
}

} // verus!
