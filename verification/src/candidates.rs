//! The calls of a collator candidate: joining, asking to leave and taking
//! that back, and changing the own stake.

use vstd::prelude::*;
use crate::engine::lemma_inactive_unlisted;
use crate::error::Error;
use crate::set::{lemma_sum_bounds, spec_contains, spec_remove, AccountId, Balance, Stake};
use crate::state::{
    lemma_top_unlisted, spec_self_stakes, spec_top_entries_ok, spec_total_stake_of, StakePallet,
    StakingState,
};
use crate::types::{Candidate, CandidateStatus, CandidateView, Event, RoundIndex};
use crate::unstaking::{spec_consume};
use crate::arithmetic::Permill;

verus! {

/// A new active candidate without delegators and without commission.
pub open spec fn spec_new_candidate(id: AccountId, stake: Balance) -> CandidateView {
    CandidateView {
        id,
        stake,
        delegators: Seq::<Stake>::empty(),
        total: stake,
        status: CandidateStatus::Active,
        commission: Permill { parts: 0 },
    }
}

impl StakingState {
    /// The round from which a candidate that asks to leave now may go.
    pub open spec fn exit_round(self) -> RoundIndex {
        if self.round.current + self.config.exit_queue_delay > u32::MAX {
            u32::MAX
        } else {
            (self.round.current + self.config.exit_queue_delay) as RoundIndex
        }
    }

    /// `who` becomes a candidate with `stake` of its own, of which it has
    /// `free_balance` at its disposal.
    pub open spec fn join_candidates(self, who: AccountId, stake: Balance, free_balance: Balance) -> Result<
        StakingState,
        Error,
    > {
        if self.candidate_pool.dom().contains(who) {
            Err(Error::CandidateExists)
        } else if self.delegator_state.dom().contains(who) {
            Err(Error::DelegatorExists)
        } else if stake < self.config.min_collator_candidate_stake {
            Err(Error::ValStakeBelowMin)
        } else if stake > self.max_candidate_stake {
            Err(Error::ValStakeAboveMax)
        } else if self.ledger_of(who).len() >= self.config.max_unstake_requests {
            Err(Error::CannotJoinBeforeUnlocking)
        } else if free_balance < stake {
            Err(Error::InsufficientBalance)
        } else {
            match self.with_candidate(spec_new_candidate(who, stake)) {
                Ok(t) => Ok(
                    t.with_ledger(who, spec_consume(self.ledger_of(who), stake)).with_event(
                        Event::JoinedCollatorCandidates(who, stake),
                    ),
                ),
                Err(e) => Err(e),
            }
        }
    }

    /// The candidate `who` asks to leave.
    pub open spec fn init_leave_candidates(self, who: AccountId) -> Result<StakingState, Error> {
        if !self.candidate_pool.dom().contains(who) {
            Err(Error::CandidateNotFound)
        } else if self.candidate_pool[who].is_leaving() {
            Err(Error::AlreadyLeaving)
        } else if self.top_candidates.len() <= self.config.min_collators {
            Err(Error::TooFewCollatorCandidates)
        } else {
            let after = self.candidate_pool[who].with_status(
                CandidateStatus::Leaving(self.exit_round()),
            );
            let pool = self.candidate_pool.insert(who, after);
            let top = spec_remove(self.top_candidates, who);
            let events = if spec_contains(self.top_candidates, who) {
                self.events.push(Event::LeftTopCandidates(who))
            } else {
                self.events
            };
            Ok(
                StakingState {
                    candidate_pool: pool,
                    top_candidates: top,
                    total_collator_stake: spec_total_stake_of(
                        pool,
                        top,
                        self.max_selected_candidates as int,
                    ),
                    events: events.push(
                        Event::CollatorScheduledExit(self.round.current, who, self.exit_round()),
                    ),
                    ..self
                },
            )
        }
    }

    /// The candidate `who` takes back its request to leave.
    pub open spec fn cancel_leave_candidates(self, who: AccountId) -> Result<StakingState, Error> {
        if !self.candidate_pool.dom().contains(who) {
            Err(Error::CandidateNotFound)
        } else if !self.candidate_pool[who].is_leaving() {
            Err(Error::NotLeaving)
        } else {
            match self.with_candidate(self.candidate_pool[who].with_status(CandidateStatus::Active)) {
                Ok(t) => Ok(t.with_event(Event::CollatorCanceledExit(who))),
                Err(e) => Err(e),
            }
        }
    }

    /// The candidate `who` keeps `commission` of its delegators' rewards
    /// from now on.
    pub open spec fn set_commission(self, who: AccountId, commission: Permill) -> Result<
        StakingState,
        Error,
    > {
        if !self.candidate_pool.dom().contains(who) {
            Err(Error::CandidateNotFound)
        } else {
            Ok(
                StakingState {
                    candidate_pool: self.candidate_pool.insert(
                        who,
                        self.candidate_pool[who].with_commission(commission),
                    ),
                    ..self
                },
            )
        }
    }

    /// The candidate `who` adds `more` to its own stake.
    pub open spec fn candidate_stake_more(self, who: AccountId, more: Balance, free_balance: Balance) -> Result<
        StakingState,
        Error,
    > {
        if more == 0 {
            Err(Error::ValStakeZero)
        } else if !self.candidate_pool.dom().contains(who) {
            Err(Error::CandidateNotFound)
        } else if self.candidate_pool[who].is_leaving() {
            Err(Error::CannotStakeIfLeaving)
        } else if self.candidate_pool[who].stake + more > self.max_candidate_stake {
            Err(Error::ValStakeAboveMax)
        } else if free_balance < self.candidate_pool[who].stake + more {
            Err(Error::InsufficientBalance)
        } else if self.candidate_pool[who].total + more > u128::MAX {
            Err(Error::Overflow)
        } else {
            let before = self.candidate_pool[who];
            let after = before.with_stake((before.stake + more) as Balance);
            match self.with_stored_candidate(after) {
                Ok(t) => Ok(
                    t.with_ledger(who, spec_consume(self.ledger_of(who), more)).with_event(
                        Event::CollatorStakedMore(who, before.stake, after.stake),
                    ),
                ),
                Err(e) => Err(e),
            }
        }
    }

    /// The candidate `who` takes `less` off its own stake.
    pub open spec fn candidate_stake_less(self, who: AccountId, less: Balance) -> Result<
        StakingState,
        Error,
    > {
        if less == 0 {
            Err(Error::ValStakeZero)
        } else if !self.candidate_pool.dom().contains(who) {
            Err(Error::CandidateNotFound)
        } else if self.candidate_pool[who].is_leaving() {
            Err(Error::CannotStakeIfLeaving)
        } else if self.candidate_pool[who].stake < less {
            Err(Error::Underflow)
        } else if self.candidate_pool[who].stake - less < self.config.min_collator_candidate_stake {
            Err(Error::ValStakeBelowMin)
        } else {
            let before = self.candidate_pool[who];
            let after = before.with_stake((before.stake - less) as Balance);
            match self.unstaked(who, less, self.voluntary_capacity()) {
                Err(e) => Err(e),
                Ok(ledger) => match self.with_stored_candidate(after) {
                    Ok(t) => Ok(
                        t.with_ledger(who, ledger).with_event(
                            Event::CollatorStakedLess(who, before.stake, after.stake),
                        ),
                    ),
                    Err(e) => Err(e),
                },
            }
        }
    }
}

impl StakePallet {
    /// The round from which a candidate that asks to leave now may go.
    pub(crate) fn exit_round(&self) -> (r: RoundIndex)
        ensures
            r == self@.exit_round(),
    {
        self.round.current.saturating_add(self.config.exit_queue_delay)
    }

    /// `who` joins the candidates with `stake` of its own.
    ///
    /// The call is turned down if `who` is a candidate or a delegator, if
    /// the stake is below the minimum or above the maximum for candidates,
    /// if the unstaking backlog of `who` is full, or if `free_balance`, the
    /// free balance of `who`, does not cover the stake. Otherwise what `who`
    /// had waiting to unlock is used up first, the candidate goes into the
    /// pool and, if it ranks, into the list of top candidates, where it may
    /// push out the lowest entry.
    pub fn join_candidates(&mut self, who: AccountId, stake: Balance, free_balance: Balance) -> (r:
        Result<(), Error>)
        requires
            old(self).wf(),
        ensures
            final(self).wf(),
            match r {
                Ok(()) => old(self)@.join_candidates(who, stake, free_balance) == Ok::<
                    StakingState,
                    Error,
                >(final(self)@),
                Err(e) => old(self)@.join_candidates(who, stake, free_balance) == Err::<
                    StakingState,
                    Error,
                >(e) && final(self)@ == old(self)@,
            },
    {
        if self.candidate_pool.contains_key(who) {
            return Err(Error::CandidateExists);
        }
        if self.delegator_state.contains_key(who) {
            return Err(Error::DelegatorExists);
        }
        if stake < self.config.min_collator_candidate_stake {
            return Err(Error::ValStakeBelowMin);
        }
        if stake > self.max_candidate_stake {
            return Err(Error::ValStakeAboveMax);
        }
        let ledger = self.plan_restake(who, stake);
        let backlog = match self.unstaking.get(who) {
            Some(l) => l.len(),
            None => 0,
        };
        if backlog >= self.config.max_unstake_requests as usize {
            return Err(Error::CannotJoinBeforeUnlocking);
        }
        if free_balance < stake {
            return Err(Error::InsufficientBalance);
        }
        let candidate = Candidate::new(who, stake);
        proof {
            crate::set::lemma_index_of(Seq::<Stake>::empty(), who);
        }
        let plan = match self.plan_candidate(&candidate) {
            Ok(plan) => plan,
            Err(e) => {
                return Err(e);
            },
        };
        self.commit_candidate(candidate, plan);
        self.put_ledger(who, ledger);
        self.deposit_event(Event::JoinedCollatorCandidates(who, stake));
        Ok(())
    }

    /// The candidate `who` asks to leave.
    ///
    /// The call is turned down if `who` is no candidate, if it is leaving
    /// already, or if the list of top candidates is no longer than the
    /// number of candidates that must remain. Otherwise the candidate is
    /// marked as leaving from the exit round on and leaves the list of top
    /// candidates at once.
    pub fn init_leave_candidates(&mut self, who: AccountId) -> (r: Result<(), Error>)
        requires
            old(self).wf(),
        ensures
            final(self).wf(),
            match r {
                Ok(()) => old(self)@.init_leave_candidates(who) == Ok::<StakingState, Error>(
                    final(self)@,
                ),
                Err(e) => old(self)@.init_leave_candidates(who) == Err::<StakingState, Error>(e)
                    && final(self)@ == old(self)@,
            },
    {
        let mut candidate = match self.candidate_pool.get(who) {
            Some(c) => c.clone_candidate(),
            None => {
                return Err(Error::CandidateNotFound);
            },
        };
        if candidate.is_leaving() {
            return Err(Error::AlreadyLeaving);
        }
        if self.top_candidates.len() <= self.config.min_collators as usize {
            return Err(Error::TooFewCollatorCandidates);
        }
        let when = self.exit_round();
        let now = self.round.current;
        let plan = self.plan_top_exit(who);
        candidate.leave_candidates(when);
        proof {
            lemma_inactive_unlisted(self@, who);
            let s = self@;
            let pool2 = s.candidate_pool.insert(who, candidate@);
            lemma_top_unlisted(s.candidate_pool, plan.top@, pool2, who);
        }
        self.candidate_pool.insert(who, candidate);
        self.top_candidates = plan.top;
        self.total_collator_stake = plan.total;
        match plan.outcome {
            Ok(true) => {
                self.events.push(Event::LeftTopCandidates(who));
            },
            _ => {},
        }
        self.events.push(Event::CollatorScheduledExit(now, who, when));
        Ok(())
    }

    /// The candidate `who` takes back its request to leave.
    ///
    /// The call is turned down if `who` is no candidate or is not leaving.
    /// Otherwise the candidate is active again and goes back into the list
    /// of top candidates if it ranks.
    pub fn cancel_leave_candidates(&mut self, who: AccountId) -> (r: Result<(), Error>)
        requires
            old(self).wf(),
        ensures
            final(self).wf(),
            match r {
                Ok(()) => old(self)@.cancel_leave_candidates(who) == Ok::<StakingState, Error>(
                    final(self)@,
                ),
                Err(e) => old(self)@.cancel_leave_candidates(who) == Err::<StakingState, Error>(e)
                    && final(self)@ == old(self)@,
            },
    {
        let mut candidate = match self.candidate_pool.get(who) {
            Some(c) => c.clone_candidate(),
            None => {
                return Err(Error::CandidateNotFound);
            },
        };
        if !candidate.is_leaving() {
            return Err(Error::NotLeaving);
        }
        candidate.revert_leaving();
        proof {
            lemma_inactive_unlisted(self@, who);
        }
        let plan = match self.plan_candidate(&candidate) {
            Ok(plan) => plan,
            Err(e) => {
                return Err(e);
            },
        };
        self.commit_candidate(candidate, plan);
        self.deposit_event(Event::CollatorCanceledExit(who));
        Ok(())
    }

    /// Sets the share of its delegators' rewards that the candidate `who`
    /// keeps. The call is turned down if `who` is no candidate.
    pub fn set_commission(&mut self, who: AccountId, commission: Permill) -> (r: Result<(), Error>)
        requires
            old(self).wf(),
            commission.wf(),
        ensures
            final(self).wf(),
            match r {
                Ok(()) => old(self)@.set_commission(who, commission) == Ok::<StakingState, Error>(
                    final(self)@,
                ),
                Err(e) => old(self)@.set_commission(who, commission) == Err::<StakingState, Error>(e)
                    && final(self)@ == old(self)@,
            },
    {
        let mut candidate = match self.candidate_pool.get(who) {
            Some(c) => c.clone_candidate(),
            None => {
                return Err(Error::CandidateNotFound);
            },
        };
        candidate.set_commission(commission);
        proof {
            let s = self@;
            let pool2 = s.candidate_pool.insert(who, candidate@);
            assert(spec_top_entries_ok(pool2, s.top_candidates)) by {
                assert forall|i: int| 0 <= i < s.top_candidates.len() implies {
                    &&& pool2.dom().contains((#[trigger] s.top_candidates[i]).owner)
                    &&& pool2[s.top_candidates[i].owner].total == s.top_candidates[i].amount
                    &&& pool2[s.top_candidates[i].owner].stake <= s.top_candidates[i].amount
                    &&& pool2[s.top_candidates[i].owner].is_active()
                } by {
                    assert(s.candidate_pool.dom().contains(s.top_candidates[i].owner));
                }
            }
            assert(spec_self_stakes(pool2, s.top_candidates) =~= spec_self_stakes(
                s.candidate_pool,
                s.top_candidates,
            ));
        }
        self.candidate_pool.insert(who, candidate);
        Ok(())
    }

    /// The candidate `who` adds `more` to its own stake.
    ///
    /// The call is turned down if `more` is zero, if `who` is no candidate
    /// or is leaving, if the new stake exceeds the maximum for candidates,
    /// or if `free_balance`, the free balance of `who`, does not cover the
    /// new stake. Otherwise what `who` had waiting to unlock is used up
    /// first, up to `more`.
    pub fn candidate_stake_more(&mut self, who: AccountId, more: Balance, free_balance: Balance) -> (r:
        Result<(), Error>)
        requires
            old(self).wf(),
        ensures
            final(self).wf(),
            match r {
                Ok(()) => old(self)@.candidate_stake_more(who, more, free_balance) == Ok::<
                    StakingState,
                    Error,
                >(final(self)@),
                Err(e) => old(self)@.candidate_stake_more(who, more, free_balance) == Err::<
                    StakingState,
                    Error,
                >(e) && final(self)@ == old(self)@,
            },
    {
        if more == 0 {
            return Err(Error::ValStakeZero);
        }
        let mut candidate = match self.candidate_pool.get(who) {
            Some(c) => c.clone_candidate(),
            None => {
                return Err(Error::CandidateNotFound);
            },
        };
        if candidate.is_leaving() {
            return Err(Error::CannotStakeIfLeaving);
        }
        proof {
            lemma_inactive_unlisted(self@, who);
            lemma_sum_bounds(candidate@.delegators);
        }
        let before = candidate.stake;
        if more > self.max_candidate_stake || before > self.max_candidate_stake - more {
            return Err(Error::ValStakeAboveMax);
        }
        let after = before + more;
        if free_balance < after {
            return Err(Error::InsufficientBalance);
        }
        match candidate.set_stake(after) {
            Ok(()) => {},
            Err(e) => {
                return Err(e);
            },
        }
        let plan = match self.plan_stored(&candidate) {
            Ok(plan) => plan,
            Err(e) => {
                return Err(e);
            },
        };
        let ledger = self.plan_restake(who, more);
        self.store_candidate(candidate, plan);
        self.put_ledger(who, ledger);
        self.deposit_event(Event::CollatorStakedMore(who, before, after));
        Ok(())
    }

    /// The candidate `who` takes `less` off its own stake.
    ///
    /// The call is turned down if `less` is zero, if `who` is no candidate
    /// or is leaving, if `less` exceeds the stake, if the new stake is
    /// below the minimum for candidates, or if the unstaking backlog of
    /// `who` has no room. Otherwise `less` stays locked until it matures.
    pub fn candidate_stake_less(&mut self, who: AccountId, less: Balance) -> (r: Result<(), Error>)
        requires
            old(self).wf(),
        ensures
            final(self).wf(),
            match r {
                Ok(()) => old(self)@.candidate_stake_less(who, less) == Ok::<StakingState, Error>(
                    final(self)@,
                ),
                Err(e) => old(self)@.candidate_stake_less(who, less) == Err::<StakingState, Error>(e)
                    && final(self)@ == old(self)@,
            },
    {
        if less == 0 {
            return Err(Error::ValStakeZero);
        }
        let mut candidate = match self.candidate_pool.get(who) {
            Some(c) => c.clone_candidate(),
            None => {
                return Err(Error::CandidateNotFound);
            },
        };
        if candidate.is_leaving() {
            return Err(Error::CannotStakeIfLeaving);
        }
        proof {
            lemma_inactive_unlisted(self@, who);
            lemma_sum_bounds(candidate@.delegators);
        }
        let before = candidate.stake;
        if before < less {
            return Err(Error::Underflow);
        }
        let after = before - less;
        if after < self.config.min_collator_candidate_stake {
            return Err(Error::ValStakeBelowMin);
        }
        let ledger = match self.plan_unstake(who, less, self.voluntary_capacity()) {
            Ok(ledger) => ledger,
            Err(e) => {
                return Err(e);
            },
        };
        match candidate.set_stake(after) {
            Ok(()) => {},
            Err(e) => {
                return Err(e);
            },
        }
        let plan = match self.plan_stored(&candidate) {
            Ok(plan) => plan,
            Err(e) => {
                return Err(e);
            },
        };
        self.store_candidate(candidate, plan);
        self.put_ledger(who, ledger);
        self.deposit_event(Event::CollatorStakedLess(who, before, after));
        Ok(())
    }
}

} // verus!
