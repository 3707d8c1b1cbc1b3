//! The calls of a delegator: delegating to a first and to further
//! candidates, revoking a delegation, and changing its amount.

use vstd::prelude::*;
use crate::engine::lemma_inactive_unlisted;
use crate::error::Error;
use crate::set::{
    lemma_index_of, lemma_insert, lemma_sum_bounds, spec_contains, spec_index_of, spec_insert,
    spec_remove, spec_sum, AccountId, Balance, Stake,
};
use crate::state::{StakePallet, StakingState};
use crate::types::{spec_add_delegator, DelegationCounter, Delegator, DelegatorView, Event};
use crate::unstaking::{spec_consume, UnstakeEntry};

verus! {

/// The delegators after `delegator` has lost its delegation to `collator`.
/// A delegator without delegations is no delegator any more.
pub open spec fn spec_drop_delegation(
    delegators: Map<AccountId, DelegatorView>,
    delegator: AccountId,
    collator: AccountId,
) -> Map<AccountId, DelegatorView> {
    if !delegators.dom().contains(delegator) {
        delegators
    } else {
        let after = delegators[delegator].without_delegation(collator);
        if after.delegations.len() == 0 {
            delegators.remove(delegator)
        } else {
            delegators.insert(delegator, after)
        }
    }
}

impl StakingState {
    /// When and how often `who` has delegated last; never, if nothing is
    /// recorded.
    pub open spec fn last_delegation_of(self, who: AccountId) -> DelegationCounter {
        if self.last_delegation.dom().contains(who) {
            self.last_delegation[who]
        } else {
            DelegationCounter { round: 0, counter: 0 }
        }
    }

    /// The counter of `who` after one more delegation in the current round.
    /// Delegations of an earlier round no longer count.
    pub open spec fn delegation_counter(self, who: AccountId) -> Result<DelegationCounter, Error> {
        let last = self.last_delegation_of(who);
        let counter = if last.round < self.round.current {
            0
        } else {
            last.counter
        };
        if counter >= self.config.max_delegations_per_round {
            Err(Error::DelegationsPerRoundExceeded)
        } else {
            Ok(DelegationCounter { round: self.round.current, counter: (counter + 1) as u32 })
        }
    }

    /// The state with `counter` recorded for `who`.
    pub open spec fn with_counter(self, who: AccountId, counter: DelegationCounter) -> StakingState {
        StakingState { last_delegation: self.last_delegation.insert(who, counter), ..self }
    }

    /// The state with `delegator` stored for `who`.
    pub open spec fn with_delegator(self, who: AccountId, delegator: DelegatorView) -> StakingState {
        StakingState { delegator_state: self.delegator_state.insert(who, delegator), ..self }
    }

    /// The state in which `delegator` no longer delegates to `collator`. A
    /// delegator without delegations is no delegator any more.
    pub open spec fn without_delegation(self, delegator: AccountId, collator: AccountId) -> StakingState {
        StakingState {
            delegator_state: spec_drop_delegation(self.delegator_state, delegator, collator),
            ..self
        }
    }

    /// `who`, which then is the delegator `delegator_after`, delegates
    /// `amount` to the candidate `collator`.
    ///
    /// If the candidate's delegator set is full, the new delegation pushes
    /// out the lowest one, whose amount goes to the unstaking backlog of its
    /// owner.
    pub open spec fn delegate(
        self,
        who: AccountId,
        collator: AccountId,
        amount: Balance,
        counter: DelegationCounter,
        delegator_after: DelegatorView,
    ) -> Result<StakingState, Error> {
        match spec_add_delegator(
            self.candidate_pool[collator],
            Stake { owner: who, amount },
            self.config.max_delegators_per_collator as int,
        ) {
            Err(e) => Err(e),
            Ok((after, None)) => match self.with_stored_candidate(after) {
                Err(e) => Err(e),
                Ok(t) => Ok(
                    t.with_delegator(who, delegator_after).with_ledger(
                        who,
                        spec_consume(self.ledger_of(who), amount),
                    ).with_counter(who, counter).with_event(
                        Event::Delegation(who, amount, collator, after.total),
                    ),
                ),
            },
            Ok((after, Some(kicked))) => match self.unstaked(
                kicked.owner,
                kicked.amount,
                self.config.max_unstake_requests as int,
            ) {
                Err(e) => Err(e),
                Ok(kicked_ledger) => match self.without_delegation(kicked.owner, collator).with_ledger(
                    kicked.owner,
                    kicked_ledger,
                ).with_event(
                    Event::DelegationReplaced(
                        who,
                        amount,
                        kicked.owner,
                        kicked.amount,
                        collator,
                        after.total,
                    ),
                ).with_stored_candidate(after) {
                    Err(e) => Err(e),
                    Ok(t) => Ok(
                        t.with_delegator(who, delegator_after).with_ledger(
                            who,
                            spec_consume(self.ledger_of(who), amount),
                        ).with_counter(who, counter).with_event(
                            Event::Delegation(who, amount, collator, after.total),
                        ),
                    ),
                },
            },
        }
    }

    /// `who` becomes a delegator by delegating `amount` to `collator`.
    pub open spec fn join_delegators(
        self,
        who: AccountId,
        collator: AccountId,
        amount: Balance,
        free_balance: Balance,
    ) -> Result<StakingState, Error> {
        if free_balance < amount {
            Err(Error::InsufficientBalance)
        } else if self.delegator_state.dom().contains(who) {
            Err(Error::AlreadyDelegating)
        } else if amount < self.config.min_delegator_stake {
            Err(Error::NomStakeBelowMin)
        } else if self.candidate_pool.dom().contains(who) {
            Err(Error::CandidateExists)
        } else if self.ledger_of(who).len() >= self.config.max_unstake_requests {
            Err(Error::CannotJoinBeforeUnlocking)
        } else {
            match self.delegation_counter(who) {
                Err(e) => Err(e),
                Ok(counter) => if !self.candidate_pool.dom().contains(collator) {
                    Err(Error::CandidateNotFound)
                } else if self.candidate_pool[collator].is_leaving() {
                    Err(Error::CannotDelegateIfLeaving)
                } else {
                    self.delegate(
                        who,
                        collator,
                        amount,
                        counter,
                        DelegatorView {
                            delegations: seq![Stake { owner: collator, amount }],
                            total: amount,
                        },
                    )
                },
            }
        }
    }

    /// The delegator `who` delegates `amount` to one more candidate.
    pub open spec fn delegate_another_candidate(
        self,
        who: AccountId,
        collator: AccountId,
        amount: Balance,
        free_balance: Balance,
    ) -> Result<StakingState, Error> {
        if !self.delegator_state.dom().contains(who) {
            Err(Error::NotYetDelegating)
        } else if free_balance < self.delegator_state[who].total + amount {
            Err(Error::InsufficientBalance)
        } else if amount < self.config.min_delegation {
            Err(Error::DelegationBelowMin)
        } else if self.delegator_state[who].delegations.len()
            >= self.config.max_collators_per_delegator {
            Err(Error::MaxCollatorsPerDelegatorExceeded)
        } else {
            match self.delegation_counter(who) {
                Err(e) => Err(e),
                Ok(counter) => if !self.candidate_pool.dom().contains(collator) {
                    Err(Error::CandidateNotFound)
                } else if self.candidate_pool[collator].is_leaving() {
                    Err(Error::CannotDelegateIfLeaving)
                } else if spec_contains(self.delegator_state[who].delegations, collator) {
                    Err(Error::AlreadyDelegatedCollator)
                } else {
                    self.delegate(
                        who,
                        collator,
                        amount,
                        counter,
                        self.delegator_state[who].with_delegation(Stake { owner: collator, amount }),
                    )
                },
            }
        }
    }

    /// The delegator `who` no longer backs the candidate `collator` with
    /// `amount`: the candidate loses the delegator, and the amount goes to
    /// the unstaking backlog of `who`.
    pub open spec fn delegator_leaves_collator(self, who: AccountId, collator: AccountId, amount: Balance) -> Result<
        StakingState,
        Error,
    > {
        if !self.candidate_pool.dom().contains(collator) {
            Err(Error::CandidateNotFound)
        } else if !spec_contains(self.candidate_pool[collator].delegators, who) {
            Err(Error::DelegatorNotFound)
        } else {
            let after = self.candidate_pool[collator].with_delegators(
                spec_remove(self.candidate_pool[collator].delegators, who),
            );
            match self.unstaked(who, amount, self.voluntary_capacity()) {
                Err(e) => Err(e),
                Ok(ledger) => match self.with_stored_candidate(after) {
                    Err(e) => Err(e),
                    Ok(t) => Ok(
                        t.with_ledger(who, ledger).with_event(
                            Event::DelegatorLeftCollator(who, collator, amount, after.total),
                        ),
                    ),
                },
            }
        }
    }

    /// The delegator `who` revokes its delegation to `collator`.
    pub open spec fn revoke_delegation(self, who: AccountId, collator: AccountId) -> Result<
        StakingState,
        Error,
    > {
        if !self.delegator_state.dom().contains(who) {
            Err(Error::DelegatorNotFound)
        } else if !spec_contains(self.delegator_state[who].delegations, collator) {
            Err(Error::DelegationNotFound)
        } else {
            let d = self.delegator_state[who];
            let amount = d.delegations[spec_index_of(d.delegations, collator)].amount;
            let last = d.delegations.len() == 1;
            if !last && d.total - amount < self.config.min_delegator_stake {
                Err(Error::NomStakeBelowMin)
            } else {
                match self.delegator_leaves_collator(who, collator, amount) {
                    Err(e) => Err(e),
                    Ok(t) => if last {
                        Ok(
                            t.without_delegation(who, collator).with_event(
                                Event::DelegatorLeft(who, d.total),
                            ),
                        )
                    } else {
                        Ok(t.without_delegation(who, collator))
                    },
                }
            }
        }
    }

    /// The delegator `who` changes its delegation to `collator` from
    /// `before` to `after`; `ledger` is its unstaking backlog afterwards.
    pub open spec fn with_changed_delegation(
        self,
        who: AccountId,
        collator: AccountId,
        after: Balance,
        ledger: Seq<UnstakeEntry>,
        event: Event,
    ) -> Result<StakingState, Error> {
        let delegators = spec_insert(
            self.candidate_pool[collator].delegators,
            Stake { owner: who, amount: after },
        );
        if self.candidate_pool[collator].stake + spec_sum(delegators) > u128::MAX {
            Err(Error::Overflow)
        } else {
            match self.with_stored_candidate(self.candidate_pool[collator].with_delegators(delegators)) {
                Err(e) => Err(e),
                Ok(t) => Ok(
                    t.with_delegator(
                        who,
                        self.delegator_state[who].with_delegation(
                            Stake { owner: collator, amount: after },
                        ),
                    ).with_ledger(who, ledger).with_event(event),
                ),
            }
        }
    }

    /// Whether `who` delegates to `collator`, as both of them see it.
    pub open spec fn delegates_to(self, who: AccountId, collator: AccountId) -> bool {
        &&& self.delegator_state.dom().contains(who)
        &&& self.candidate_pool.dom().contains(collator)
        &&& spec_contains(self.delegator_state[who].delegations, collator)
        &&& spec_contains(self.candidate_pool[collator].delegators, who)
    }

    /// What `who` delegates to `collator`.
    pub open spec fn delegation_of(self, who: AccountId, collator: AccountId) -> Balance {
        self.delegator_state[who].delegations[spec_index_of(
            self.delegator_state[who].delegations,
            collator,
        )].amount
    }

    /// The candidate's total after `who` has changed its delegation to
    /// `after`.
    pub open spec fn total_with_delegation(self, who: AccountId, collator: AccountId, after: Balance) -> Balance {
        (self.candidate_pool[collator].stake + spec_sum(
            spec_insert(
                self.candidate_pool[collator].delegators,
                Stake { owner: who, amount: after },
            ),
        )) as Balance
    }

    /// The delegator `who` adds `more` to its delegation to `collator`.
    pub open spec fn delegator_stake_more(
        self,
        who: AccountId,
        collator: AccountId,
        more: Balance,
        free_balance: Balance,
    ) -> Result<StakingState, Error> {
        if more == 0 {
            Err(Error::ValStakeZero)
        } else if !self.delegator_state.dom().contains(who) {
            Err(Error::DelegatorNotFound)
        } else if !self.candidate_pool.dom().contains(collator) {
            Err(Error::CandidateNotFound)
        } else if self.candidate_pool[collator].is_leaving() {
            Err(Error::CannotDelegateIfLeaving)
        } else if !self.delegates_to(who, collator) {
            Err(Error::DelegationNotFound)
        } else if free_balance < self.delegator_state[who].total + more {
            Err(Error::InsufficientBalance)
        } else {
            let after = (self.delegation_of(who, collator) + more) as Balance;
            self.with_changed_delegation(
                who,
                collator,
                after,
                spec_consume(self.ledger_of(who), more),
                Event::DelegatorStakedMore(
                    who,
                    collator,
                    self.candidate_pool[collator].total,
                    self.total_with_delegation(who, collator, after),
                ),
            )
        }
    }

    /// The delegator `who` takes `less` off its delegation to `collator`.
    pub open spec fn delegator_stake_less(self, who: AccountId, collator: AccountId, less: Balance) -> Result<
        StakingState,
        Error,
    > {
        if less == 0 {
            Err(Error::ValStakeZero)
        } else if !self.delegator_state.dom().contains(who) {
            Err(Error::DelegatorNotFound)
        } else if !self.candidate_pool.dom().contains(collator) {
            Err(Error::CandidateNotFound)
        } else if self.candidate_pool[collator].is_leaving() {
            Err(Error::CannotDelegateIfLeaving)
        } else if !self.delegates_to(who, collator) {
            Err(Error::DelegationNotFound)
        } else if self.delegation_of(who, collator) < less {
            Err(Error::Underflow)
        } else if self.delegation_of(who, collator) - less < self.config.min_delegation {
            Err(Error::DelegationBelowMin)
        } else if self.delegator_state[who].total - less < self.config.min_delegator_stake {
            Err(Error::NomStakeBelowMin)
        } else {
            let after = (self.delegation_of(who, collator) - less) as Balance;
            match self.unstaked(who, less, self.voluntary_capacity()) {
                Err(e) => Err(e),
                Ok(ledger) => self.with_changed_delegation(
                    who,
                    collator,
                    after,
                    ledger,
                    Event::DelegatorStakedLess(
                        who,
                        collator,
                        self.candidate_pool[collator].total,
                        self.total_with_delegation(who, collator, after),
                    ),
                ),
            }
        }
    }
}

impl StakePallet {
    /// When and how often `who` has delegated last.
    pub fn last_delegation(&self, who: AccountId) -> (r: DelegationCounter)
        requires
            self.wf(),
        ensures
            r == self@.last_delegation_of(who),
    {
        match self.last_delegation.get(who) {
            Some(c) => *c,
            None => DelegationCounter { round: 0, counter: 0 },
        }
    }

    /// The counter of `who` after one more delegation in this round.
    pub(crate) fn plan_counter(&self, who: AccountId) -> (r: Result<DelegationCounter, Error>)
        requires
            self.wf(),
        ensures
            r == self@.delegation_counter(who),
    {
        let last = self.last_delegation(who);
        let counter = if last.round < self.round.current {
            0
        } else {
            last.counter
        };
        if counter >= self.config.max_delegations_per_round {
            Err(Error::DelegationsPerRoundExceeded)
        } else {
            Ok(DelegationCounter { round: self.round.current, counter: counter + 1 })
        }
    }

    /// Stores `delegator` for `who`, which is no candidate.
    pub(crate) fn put_delegator(&mut self, who: AccountId, delegator: Delegator)
        requires
            old(self).wf(),
            delegator.wf(),
            !old(self)@.candidate_pool.dom().contains(who),
        ensures
            final(self).wf(),
            final(self)@ == old(self)@.with_delegator(who, delegator@),
    {
        self.delegator_state.insert(who, delegator);
    }

    /// Takes the delegation to `collator` off the delegator `delegator`.
    pub(crate) fn drop_delegation(&mut self, delegator: AccountId, collator: AccountId)
        requires
            old(self).wf(),
        ensures
            final(self).wf(),
            final(self)@ == old(self)@.without_delegation(delegator, collator),
    {
        let mut after = match self.delegator_state.get(delegator) {
            Some(d) => d.clone_delegator(),
            None => {
                return ;
            },
        };
        after.rm_delegation(collator);
        if after.delegations.is_empty() {
            self.delegator_state.remove(delegator);
        } else {
            self.delegator_state.insert(delegator, after);
        }
    }

    /// The common part of the two calls that delegate.
    fn delegate(
        &mut self,
        who: AccountId,
        collator: AccountId,
        amount: Balance,
        counter: DelegationCounter,
        delegator_after: Delegator,
    ) -> (r: Result<(), Error>)
        requires
            old(self).wf(),
            delegator_after.wf(),
            old(self)@.candidate_pool.dom().contains(collator),
            !old(self)@.candidate_pool[collator].is_leaving(),
            !old(self)@.candidate_pool.dom().contains(who),
        ensures
            final(self).wf(),
            match r {
                Ok(()) => old(self)@.delegate(who, collator, amount, counter, delegator_after@)
                    == Ok::<StakingState, Error>(final(self)@),
                Err(e) => old(self)@.delegate(who, collator, amount, counter, delegator_after@)
                    == Err::<StakingState, Error>(e) && final(self)@ == old(self)@,
            },
    {
        proof {
            lemma_inactive_unlisted(self@, collator);
        }
        let mut candidate = self.candidate_pool.get(collator).unwrap().clone_candidate();
        let kicked = match candidate.add_delegator(
            Stake { owner: who, amount },
            self.config.max_delegators_per_collator as usize,
        ) {
            Ok(kicked) => kicked,
            Err(e) => {
                return Err(e);
            },
        };
        let total = candidate.total;
        let kicked_ledger = match kicked {
            Some(k) => match self.plan_unstake(
                k.owner,
                k.amount,
                self.config.max_unstake_requests as usize,
            ) {
                Ok(ledger) => Some(ledger),
                Err(e) => {
                    return Err(e);
                },
            },
            None => None,
        };
        let plan = match self.plan_stored(&candidate) {
            Ok(plan) => plan,
            Err(e) => {
                return Err(e);
            },
        };
        let ledger = self.plan_restake(who, amount);
        match kicked {
            Some(k) => {
                self.drop_delegation(k.owner, collator);
                self.put_ledger(k.owner, kicked_ledger.unwrap());
                self.deposit_event(
                    Event::DelegationReplaced(who, amount, k.owner, k.amount, collator, total),
                );
            },
            None => {},
        }
        self.store_candidate(candidate, plan);
        self.put_delegator(who, delegator_after);
        self.put_ledger(who, ledger);
        self.last_delegation.insert(who, counter);
        self.deposit_event(Event::Delegation(who, amount, collator, total));
        Ok(())
    }

    /// `who` becomes a delegator by delegating `amount` to the candidate
    /// `collator`.
    ///
    /// The call is turned down if `free_balance`, the free balance of
    /// `who`, does not cover the amount, if `who` is a delegator or a
    /// candidate, if the amount is below the minimum for delegators, if the
    /// unstaking backlog of `who` is full, if `who` has used up its
    /// delegations of this round, if `collator` is no candidate or is
    /// leaving, or if the candidate's delegator set is full and the amount
    /// does not exceed its lowest delegation.
    pub fn join_delegators(
        &mut self,
        who: AccountId,
        collator: AccountId,
        amount: Balance,
        free_balance: Balance,
    ) -> (r: Result<(), Error>)
        requires
            old(self).wf(),
        ensures
            final(self).wf(),
            match r {
                Ok(()) => old(self)@.join_delegators(who, collator, amount, free_balance) == Ok::<
                    StakingState,
                    Error,
                >(final(self)@),
                Err(e) => old(self)@.join_delegators(who, collator, amount, free_balance) == Err::<
                    StakingState,
                    Error,
                >(e) && final(self)@ == old(self)@,
            },
    {
        if free_balance < amount {
            return Err(Error::InsufficientBalance);
        }
        if self.delegator_state.contains_key(who) {
            return Err(Error::AlreadyDelegating);
        }
        if amount < self.config.min_delegator_stake {
            return Err(Error::NomStakeBelowMin);
        }
        if self.candidate_pool.contains_key(who) {
            return Err(Error::CandidateExists);
        }
        let backlog = match self.unstaking.get(who) {
            Some(l) => l.len(),
            None => 0,
        };
        if backlog >= self.config.max_unstake_requests as usize {
            return Err(Error::CannotJoinBeforeUnlocking);
        }
        let counter = match self.plan_counter(who) {
            Ok(c) => c,
            Err(e) => {
                return Err(e);
            },
        };
        match self.candidate_pool.get(collator) {
            Some(c) => {
                if c.is_leaving() {
                    return Err(Error::CannotDelegateIfLeaving);
                }
            },
            None => {
                return Err(Error::CandidateNotFound);
            },
        }
        self.delegate(who, collator, amount, counter, Delegator::new(collator, amount))
    }

    /// The delegator `who` delegates `amount` to one more candidate,
    /// `collator`.
    ///
    /// The call is turned down if `who` is no delegator, if `free_balance`,
    /// the free balance of `who`, does not cover all its delegations, if
    /// the amount is below the minimum for a delegation, if `who` backs as
    /// many candidates as it may, if it has used up its delegations of this
    /// round, if `collator` is no candidate or is leaving, if `who` backs
    /// it already, or if the candidate's delegator set is full and the
    /// amount does not exceed its lowest delegation.
    pub fn delegate_another_candidate(
        &mut self,
        who: AccountId,
        collator: AccountId,
        amount: Balance,
        free_balance: Balance,
    ) -> (r: Result<(), Error>)
        requires
            old(self).wf(),
        ensures
            final(self).wf(),
            match r {
                Ok(()) => old(self)@.delegate_another_candidate(who, collator, amount, free_balance)
                    == Ok::<StakingState, Error>(final(self)@),
                Err(e) => old(self)@.delegate_another_candidate(who, collator, amount, free_balance)
                    == Err::<StakingState, Error>(e) && final(self)@ == old(self)@,
            },
    {
        let mut delegator = match self.delegator_state.get(who) {
            Some(d) => d.clone_delegator(),
            None => {
                return Err(Error::NotYetDelegating);
            },
        };
        if amount > u128::MAX - delegator.total || free_balance < delegator.total + amount {
            return Err(Error::InsufficientBalance);
        }
        if amount < self.config.min_delegation {
            return Err(Error::DelegationBelowMin);
        }
        if delegator.delegations.len() >= self.config.max_collators_per_delegator as usize {
            return Err(Error::MaxCollatorsPerDelegatorExceeded);
        }
        let counter = match self.plan_counter(who) {
            Ok(c) => c,
            Err(e) => {
                return Err(e);
            },
        };
        match self.candidate_pool.get(collator) {
            Some(c) => {
                if c.is_leaving() {
                    return Err(Error::CannotDelegateIfLeaving);
                }
            },
            None => {
                return Err(Error::CandidateNotFound);
            },
        }
        if delegator.delegations.contains(collator) {
            return Err(Error::AlreadyDelegatedCollator);
        }
        proof {
            lemma_insert(delegator@.delegations, Stake { owner: collator, amount });
        }
        match delegator.set_delegation(Stake { owner: collator, amount }) {
            Ok(()) => self.delegate(who, collator, amount, counter, delegator),
            Err(e) => Err(e),
        }
    }

    /// The delegator `who` revokes its delegation to the candidate
    /// `collator`.
    ///
    /// The call is turned down if `who` is no delegator or does not back
    /// `collator`, if other delegations remain that sum to less than the
    /// minimum for delegators, if the candidate does not know the
    /// delegator, or if the unstaking backlog of `who` has no room.
    /// Otherwise the delegation stays locked until it matures, and a
    /// delegator without delegations is no delegator any more.
    pub fn revoke_delegation(&mut self, who: AccountId, collator: AccountId) -> (r: Result<(), Error>)
        requires
            old(self).wf(),
        ensures
            final(self).wf(),
            match r {
                Ok(()) => old(self)@.revoke_delegation(who, collator) == Ok::<StakingState, Error>(
                    final(self)@,
                ),
                Err(e) => old(self)@.revoke_delegation(who, collator) == Err::<StakingState, Error>(e)
                    && final(self)@ == old(self)@,
            },
    {
        let (amount, total, last) = match self.delegator_state.get(who) {
            Some(d) => match d.delegations.find(collator) {
                Some(s) => (s.amount, d.total, d.delegations.len() == 1),
                None => {
                    return Err(Error::DelegationNotFound);
                },
            },
            None => {
                return Err(Error::DelegatorNotFound);
            },
        };
        proof {
            lemma_sum_bounds(self@.delegator_state[who].delegations);
            lemma_index_of(self@.delegator_state[who].delegations, collator);
        }
        if !last && total - amount < self.config.min_delegator_stake {
            return Err(Error::NomStakeBelowMin);
        }
        let mut candidate = match self.candidate_pool.get(collator) {
            Some(c) => c.clone_candidate(),
            None => {
                return Err(Error::CandidateNotFound);
            },
        };
        proof {
            lemma_inactive_unlisted(self@, collator);
        }
        if candidate.rm_delegator(who).is_none() {
            return Err(Error::DelegatorNotFound);
        }
        let after_total = candidate.total;
        let ledger = match self.plan_unstake(who, amount, self.voluntary_capacity()) {
            Ok(ledger) => ledger,
            Err(e) => {
                return Err(e);
            },
        };
        let plan = match self.plan_stored(&candidate) {
            Ok(plan) => plan,
            Err(e) => {
                return Err(e);
            },
        };
        self.store_candidate(candidate, plan);
        self.put_ledger(who, ledger);
        self.deposit_event(Event::DelegatorLeftCollator(who, collator, amount, after_total));
        self.drop_delegation(who, collator);
        if last {
            self.deposit_event(Event::DelegatorLeft(who, total));
        }
        Ok(())
    }

    /// The common part of the two calls that change a delegation: `who`
    /// backs `collator` with `after` from now on.
    fn change_delegation(
        &mut self,
        who: AccountId,
        collator: AccountId,
        after: Balance,
        ledger: crate::unstaking::UnstakingLedger,
        more: bool,
    ) -> (r: Result<(), Error>)
        requires
            old(self).wf(),
            ledger.wf(),
            old(self)@.delegates_to(who, collator),
            !old(self)@.candidate_pool[collator].is_leaving(),
            spec_sum(
                spec_insert(
                    old(self)@.delegator_state[who].delegations,
                    Stake { owner: collator, amount: after },
                ),
            ) <= u128::MAX,
        ensures
            final(self).wf(),
            match r {
                Ok(()) => old(self)@.with_changed_delegation(
                    who,
                    collator,
                    after,
                    ledger@,
                    if more {
                        Event::DelegatorStakedMore(
                            who,
                            collator,
                            old(self)@.candidate_pool[collator].total,
                            old(self)@.total_with_delegation(who, collator, after),
                        )
                    } else {
                        Event::DelegatorStakedLess(
                            who,
                            collator,
                            old(self)@.candidate_pool[collator].total,
                            old(self)@.total_with_delegation(who, collator, after),
                        )
                    },
                ) == Ok::<StakingState, Error>(final(self)@),
                Err(e) => old(self)@.with_changed_delegation(
                    who,
                    collator,
                    after,
                    ledger@,
                    if more {
                        Event::DelegatorStakedMore(
                            who,
                            collator,
                            old(self)@.candidate_pool[collator].total,
                            old(self)@.total_with_delegation(who, collator, after),
                        )
                    } else {
                        Event::DelegatorStakedLess(
                            who,
                            collator,
                            old(self)@.candidate_pool[collator].total,
                            old(self)@.total_with_delegation(who, collator, after),
                        )
                    },
                ) == Err::<StakingState, Error>(e) && final(self)@ == old(self)@,
            },
    {
        proof {
            lemma_inactive_unlisted(self@, collator);
        }
        let mut candidate = self.candidate_pool.get(collator).unwrap().clone_candidate();
        let mut delegator = self.delegator_state.get(who).unwrap().clone_delegator();
        let before_total = candidate.total;
        match candidate.set_delegator(Stake { owner: who, amount: after }) {
            Ok(()) => {},
            Err(e) => {
                return Err(e);
            },
        }
        let after_total = candidate.total;
        let plan = match self.plan_stored(&candidate) {
            Ok(plan) => plan,
            Err(e) => {
                return Err(e);
            },
        };
        match delegator.set_delegation(Stake { owner: collator, amount: after }) {
            Ok(()) => {},
            Err(e) => {
                return Err(e);
            },
        }
        self.store_candidate(candidate, plan);
        self.put_delegator(who, delegator);
        self.put_ledger(who, ledger);
        if more {
            self.deposit_event(
                Event::DelegatorStakedMore(who, collator, before_total, after_total),
            );
        } else {
            self.deposit_event(
                Event::DelegatorStakedLess(who, collator, before_total, after_total),
            );
        }
        Ok(())
    }

    /// Whether `who` delegates to `collator`, and if so, how much and how
    /// much in all.
    fn find_delegation(&self, who: AccountId, collator: AccountId) -> (r: Option<(Balance, Balance)>)
        requires
            self.wf(),
            self@.delegator_state.dom().contains(who),
            self@.candidate_pool.dom().contains(collator),
        ensures
            match r {
                Some((amount, total)) => self@.delegates_to(who, collator) && amount
                    == self@.delegation_of(who, collator) && total == self@.delegator_state[who].total
                    && amount <= total,
                None => !self@.delegates_to(who, collator),
            },
    {
        let d = self.delegator_state.get(who).unwrap();
        let c = self.candidate_pool.get(collator).unwrap();
        proof {
            lemma_sum_bounds(d@.delegations);
            lemma_index_of(d@.delegations, collator);
        }
        if !c.delegators.contains(who) {
            return None;
        }
        match d.delegations.find(collator) {
            Some(s) => Some((s.amount, d.total)),
            None => None,
        }
    }

    /// The delegator `who` adds `more` to its delegation to the candidate
    /// `collator`.
    ///
    /// The call is turned down if `more` is zero, if `who` is no delegator,
    /// if `collator` is no candidate or is leaving, if `who` does not back
    /// it, or if `free_balance`, the free balance of `who`, does not cover
    /// all its delegations. Otherwise what `who` had waiting to unlock is
    /// used up first, up to `more`.
    pub fn delegator_stake_more(
        &mut self,
        who: AccountId,
        collator: AccountId,
        more: Balance,
        free_balance: Balance,
    ) -> (r: Result<(), Error>)
        requires
            old(self).wf(),
        ensures
            final(self).wf(),
            match r {
                Ok(()) => old(self)@.delegator_stake_more(who, collator, more, free_balance) == Ok::<
                    StakingState,
                    Error,
                >(final(self)@),
                Err(e) => old(self)@.delegator_stake_more(who, collator, more, free_balance) == Err::<
                    StakingState,
                    Error,
                >(e) && final(self)@ == old(self)@,
            },
    {
        if more == 0 {
            return Err(Error::ValStakeZero);
        }
        if !self.delegator_state.contains_key(who) {
            return Err(Error::DelegatorNotFound);
        }
        match self.candidate_pool.get(collator) {
            Some(c) => {
                if c.is_leaving() {
                    return Err(Error::CannotDelegateIfLeaving);
                }
            },
            None => {
                return Err(Error::CandidateNotFound);
            },
        }
        let (amount, total) = match self.find_delegation(who, collator) {
            Some(found) => found,
            None => {
                return Err(Error::DelegationNotFound);
            },
        };
        if more > u128::MAX - total || free_balance < total + more {
            return Err(Error::InsufficientBalance);
        }
        proof {
            lemma_insert(
                self@.delegator_state[who].delegations,
                Stake { owner: collator, amount: (amount + more) as Balance },
            );
        }
        let ledger = self.plan_restake(who, more);
        self.change_delegation(who, collator, amount + more, ledger, true)
    }

    /// The delegator `who` takes `less` off its delegation to the candidate
    /// `collator`.
    ///
    /// The call is turned down if `less` is zero, if `who` is no delegator,
    /// if `collator` is no candidate or is leaving, if `who` does not back
    /// it, if `less` exceeds the delegation, if what remains of the
    /// delegation or of all delegations of `who` is below its minimum, or
    /// if the unstaking backlog of `who` has no room. Otherwise `less`
    /// stays locked until it matures.
    pub fn delegator_stake_less(&mut self, who: AccountId, collator: AccountId, less: Balance) -> (r:
        Result<(), Error>)
        requires
            old(self).wf(),
        ensures
            final(self).wf(),
            match r {
                Ok(()) => old(self)@.delegator_stake_less(who, collator, less) == Ok::<
                    StakingState,
                    Error,
                >(final(self)@),
                Err(e) => old(self)@.delegator_stake_less(who, collator, less) == Err::<
                    StakingState,
                    Error,
                >(e) && final(self)@ == old(self)@,
            },
    {
        if less == 0 {
            return Err(Error::ValStakeZero);
        }
        if !self.delegator_state.contains_key(who) {
            return Err(Error::DelegatorNotFound);
        }
        match self.candidate_pool.get(collator) {
            Some(c) => {
                if c.is_leaving() {
                    return Err(Error::CannotDelegateIfLeaving);
                }
            },
            None => {
                return Err(Error::CandidateNotFound);
            },
        }
        let (amount, total) = match self.find_delegation(who, collator) {
            Some(found) => found,
            None => {
                return Err(Error::DelegationNotFound);
            },
        };
        if amount < less {
            return Err(Error::Underflow);
        }
        if amount - less < self.config.min_delegation {
            return Err(Error::DelegationBelowMin);
        }
        if total - less < self.config.min_delegator_stake {
            return Err(Error::NomStakeBelowMin);
        }
        let ledger = match self.plan_unstake(who, less, self.voluntary_capacity()) {
            Ok(ledger) => ledger,
            Err(e) => {
                return Err(e);
            },
        };
        proof {
            lemma_insert(
                self@.delegator_state[who].delegations,
                Stake { owner: collator, amount: (amount - less) as Balance },
            );
        }
        self.change_delegation(who, collator, amount - less, ledger, false)
    }
}

} // verus!
