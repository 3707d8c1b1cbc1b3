//! Taking a candidate out of the pool: its own stake and every delegation
//! to it go to the unstaking backlogs of their owners.

use vstd::prelude::*;
use crate::delegators::spec_drop_delegation;
use crate::error::Error;
use crate::set::{spec_contains, spec_remove, AccountId, Stake};
use crate::state::{
    lemma_put_back, lemma_top_unlisted, spec_ledger_in, spec_put_ledger, spec_total_stake_of,
    spec_unstaking_wf, StakePallet, StakingState,
};
use crate::types::{DelegatorView, Event};
use crate::unstaking::{spec_increase, BlockNumber, UnstakeEntry, UnstakingLedger};

verus! {

/// The backlogs after each of `entries` has been unstaked for its owner, one
/// after the other, to unlock at `maturity`. The first entry that cannot be
/// unstaked decides the error.
pub open spec fn spec_unstake_all(
    unstaking: Map<AccountId, Seq<UnstakeEntry>>,
    entries: Seq<Stake>,
    maturity: BlockNumber,
    capacity: int,
) -> Result<Map<AccountId, Seq<UnstakeEntry>>, Error>
    decreases entries.len(),
{
    if entries.len() == 0 {
        Ok(unstaking)
    } else {
        match spec_unstake_all(unstaking, entries.drop_last(), maturity, capacity) {
            Err(e) => Err(e),
            Ok(before) => match spec_increase(
                spec_ledger_in(before, entries.last().owner),
                entries.last().amount,
                maturity,
                capacity,
            ) {
                Err(e) => Err(e),
                Ok(ledger) => Ok(spec_put_ledger(before, entries.last().owner, ledger)),
            },
        }
    }
}

/// The delegators after each of `entries`' owners has lost its delegation to
/// `collator`.
pub open spec fn spec_drop_all(
    delegators: Map<AccountId, DelegatorView>,
    entries: Seq<Stake>,
    collator: AccountId,
) -> Map<AccountId, DelegatorView>
    decreases entries.len(),
{
    if entries.len() == 0 {
        delegators
    } else {
        spec_drop_delegation(
            spec_drop_all(delegators, entries.drop_last(), collator),
            entries.last().owner,
            collator,
        )
    }
}

/// Unstaking that fails for the first few entries fails in the same way for
/// all of them.
pub proof fn lemma_unstake_all_fails(
    unstaking: Map<AccountId, Seq<UnstakeEntry>>,
    entries: Seq<Stake>,
    k: int,
    maturity: BlockNumber,
    capacity: int,
)
    requires
        0 <= k <= entries.len(),
        spec_unstake_all(unstaking, entries.subrange(0, k), maturity, capacity) is Err,
    ensures
        spec_unstake_all(unstaking, entries, maturity, capacity) == spec_unstake_all(
            unstaking,
            entries.subrange(0, k),
            maturity,
            capacity,
        ),
    decreases entries.len(),
{
    if k == entries.len() {
        assert(entries.subrange(0, k) =~= entries);
    } else {
        assert(entries.drop_last().subrange(0, k) =~= entries.subrange(0, k));
        lemma_unstake_all_fails(unstaking, entries.drop_last(), k, maturity, capacity);
    }
}

impl StakingState {
    /// The state after the candidate `id` has been taken out of the pool.
    ///
    /// What its delegators had delegated to it and what it had at stake
    /// itself goes to the unstaking backlogs, where a forced unstake finds
    /// room as long as the backlog is not full. The delegators lose the
    /// delegation, and the candidate leaves the list of top candidates if it
    /// was on it.
    pub open spec fn remove_candidate(self, id: AccountId, forced: bool) -> Result<StakingState, Error> {
        let c = self.candidate_pool[id];
        match spec_unstake_all(
            self.unstaking,
            c.delegators.push(Stake { owner: id, amount: c.stake }),
            self.maturity(),
            self.config.max_unstake_requests as int,
        ) {
            Err(e) => Err(e),
            Ok(unstaking) => {
                let pool = self.candidate_pool.remove(id);
                let top = spec_remove(self.top_candidates, id);
                let events = if spec_contains(self.top_candidates, id) {
                    self.events.push(Event::LeftTopCandidates(id))
                } else {
                    self.events
                };
                Ok(
                    StakingState {
                        unstaking,
                        delegator_state: spec_drop_all(self.delegator_state, c.delegators, id),
                        candidate_pool: pool,
                        top_candidates: top,
                        total_collator_stake: spec_total_stake_of(
                            pool,
                            top,
                            self.max_selected_candidates as int,
                        ),
                        events: events.push(
                            if forced {
                                Event::CollatorRemoved(id, c.total)
                            } else {
                                Event::CandidateLeft(id, c.total)
                            },
                        ),
                        ..self
                    },
                )
            },
        }
    }

    /// The exit of the leaving candidate `id` is carried out.
    pub open spec fn execute_leave_candidates(self, id: AccountId) -> Result<StakingState, Error> {
        if !self.candidate_pool.dom().contains(id) {
            Err(Error::CandidateNotFound)
        } else if !self.candidate_pool[id].is_leaving() {
            Err(Error::NotLeaving)
        } else if !self.candidate_pool[id].can_exit(self.round.current) {
            Err(Error::CannotLeaveYet)
        } else {
            self.remove_candidate(id, false)
        }
    }

    /// The candidate `id` is removed at once.
    pub open spec fn force_remove_candidate(self, id: AccountId) -> Result<StakingState, Error> {
        if !self.candidate_pool.dom().contains(id) {
            Err(Error::CandidateNotFound)
        } else if self.top_candidates.len() <= self.config.min_collators {
            Err(Error::TooFewCollatorCandidates)
        } else {
            self.remove_candidate(id, true)
        }
    }
}

impl StakePallet {
    /// Unstakes each of `entries` for its owner, all of them or none.
    fn unstake_all(&mut self, entries: &Vec<Stake>) -> (r: Result<(), Error>)
        requires
            old(self).wf(),
        ensures
            final(self).wf(),
            match r {
                Ok(()) => spec_unstake_all(
                    old(self)@.unstaking,
                    entries@,
                    old(self)@.maturity(),
                    old(self)@.config.max_unstake_requests as int,
                ) == Ok::<Map<AccountId, Seq<UnstakeEntry>>, Error>(final(self)@.unstaking)
                    && final(self)@ == (StakingState {
                    unstaking: final(self)@.unstaking,
                    ..old(self)@
                }),
                Err(e) => spec_unstake_all(
                    old(self)@.unstaking,
                    entries@,
                    old(self)@.maturity(),
                    old(self)@.config.max_unstake_requests as int,
                ) == Err::<Map<AccountId, Seq<UnstakeEntry>>, Error>(e) && final(self)@ == old(
                    self,
                )@,
            },
    {
        let capacity = self.config.max_unstake_requests as usize;
        let ghost maturity = self@.maturity();
        let ghost start = self@;
        let ghost mut maps: Seq<Map<AccountId, Seq<UnstakeEntry>>> = seq![self@.unstaking];
        let ghost mut puts: Seq<Seq<UnstakeEntry>> = Seq::empty();
        let mut saved: Vec<UnstakingLedger> = Vec::new();
        let n = entries.len();
        let mut i: usize = 0;
        proof {
            assert(entries@.subrange(0, 0) =~= Seq::<Stake>::empty());
        }
        while i < n
            invariant
                i <= n,
                n == entries@.len(),
                self.wf(),
                start == old(self)@,
                capacity == start.config.max_unstake_requests,
                maturity == start.maturity(),
                self@ == (StakingState { unstaking: self@.unstaking, ..start }),
                maps.len() == i + 1,
                saved@.len() == i,
                maps[0] == start.unstaking,
                maps[i as int] == self@.unstaking,
                forall|j: int| 0 <= j <= i ==> spec_unstaking_wf(#[trigger] maps[j]),
                forall|j: int|
                    0 <= j < i ==> (#[trigger] saved@[j])@ == spec_ledger_in(
                        maps[j],
                        entries@[j].owner,
                    ) && saved@[j].wf(),
                puts.len() == i,
                forall|j: int|
                    0 <= j < i ==> maps[j + 1] == spec_put_ledger(
                        maps[j],
                        entries@[j].owner,
                        #[trigger] puts[j],
                    ),
                spec_unstake_all(start.unstaking, entries@.subrange(0, i as int), maturity, capacity as int)
                    == Ok::<Map<AccountId, Seq<UnstakeEntry>>, Error>(maps[i as int]),
            decreases n - i,
        {
            let e = entries[i];
            let before = self.ledger_copy(e.owner);
            let ghost next = entries@.subrange(0, i as int + 1);
            proof {
                assert(next.drop_last() =~= entries@.subrange(0, i as int));
                assert(next.last() == e);
            }
            match self.plan_unstake(e.owner, e.amount, capacity) {
                Ok(ledger) => {
                    self.put_ledger(e.owner, ledger);
                    saved.push(before);
                    proof {
                        let m = maps[i as int];
                        maps = maps.push(self@.unstaking);
                        puts = puts.push(ledger@);
                        assert(maps[i as int + 1] == spec_put_ledger(m, e.owner, puts[i as int]));
                    }
                },
                Err(error) => {
                    proof {
                        lemma_unstake_all_fails(
                            start.unstaking,
                            entries@,
                            i as int + 1,
                            maturity,
                            capacity as int,
                        );
                    }
                    // put back what has been changed so far, last change first
                    let mut k: usize = i;
                    while k > 0
                        invariant
                            k <= i,
                            i < n,
                            n == entries@.len(),
                            self.wf(),
                            start == old(self)@,
                            capacity == start.config.max_unstake_requests,
                            maturity == start.maturity(),
                            spec_unstake_all(
                                start.unstaking,
                                entries@,
                                maturity,
                                capacity as int,
                            ) == Err::<Map<AccountId, Seq<UnstakeEntry>>, Error>(error),
                            self@ == (StakingState { unstaking: self@.unstaking, ..start }),
                            maps.len() == i + 1,
                            saved@.len() == k,
                            maps[0] == start.unstaking,
                            maps[k as int] == self@.unstaking,
                            forall|j: int| 0 <= j <= i ==> spec_unstaking_wf(#[trigger] maps[j]),
                            forall|j: int|
                                0 <= j < k ==> (#[trigger] saved@[j])@ == spec_ledger_in(
                                    maps[j],
                                    entries@[j].owner,
                                ) && saved@[j].wf(),
                            puts.len() == i,
                            forall|j: int|
                                0 <= j < i ==> maps[j + 1] == spec_put_ledger(
                                    maps[j],
                                    entries@[j].owner,
                                    #[trigger] puts[j],
                                ),
                        decreases k,
                    {
                        let ledger = saved.pop().unwrap();
                        proof {
                            let j = k as int - 1;
                            assert(maps[j + 1] == spec_put_ledger(
                                maps[j],
                                entries@[j].owner,
                                puts[j],
                            ));
                            lemma_put_back(maps[j], entries@[j].owner, puts[j]);
                        }
                        self.put_ledger(entries[k - 1].owner, ledger);
                        k -= 1;
                    }
                    return Err(error);
                },
            }
            i += 1;
        }
        proof {
            assert(entries@.subrange(0, n as int) =~= entries@);
        }
        Ok(())
    }

    /// Takes the delegation to `collator` off each owner of `entries`.
    fn drop_all(&mut self, entries: &Vec<Stake>, count: usize, collator: AccountId)
        requires
            old(self).wf(),
            count <= entries@.len(),
        ensures
            final(self).wf(),
            final(self)@ == (StakingState {
                delegator_state: spec_drop_all(
                    old(self)@.delegator_state,
                    entries@.subrange(0, count as int),
                    collator,
                ),
                ..old(self)@
            }),
    {
        let ghost start = self@;
        let mut i: usize = 0;
        proof {
            assert(entries@.subrange(0, 0) =~= Seq::<Stake>::empty());
        }
        while i < count
            invariant
                i <= count,
                count <= entries@.len(),
                self.wf(),
                self@ == (StakingState {
                    delegator_state: spec_drop_all(
                        start.delegator_state,
                        entries@.subrange(0, i as int),
                        collator,
                    ),
                    ..start
                }),
            decreases count - i,
        {
            proof {
                let next = entries@.subrange(0, i as int + 1);
                assert(next.drop_last() =~= entries@.subrange(0, i as int));
                assert(next.last() == entries@[i as int]);
            }
            self.drop_delegation(entries[i].owner, collator);
            i += 1;
        }
    }

    /// Takes the candidate `id` out of the pool, all at once or not at all.
    fn remove_candidate(&mut self, id: AccountId, forced: bool) -> (r: Result<(), Error>)
        requires
            old(self).wf(),
            old(self)@.candidate_pool.dom().contains(id),
        ensures
            final(self).wf(),
            match r {
                Ok(()) => old(self)@.remove_candidate(id, forced) == Ok::<StakingState, Error>(
                    final(self)@,
                ),
                Err(e) => old(self)@.remove_candidate(id, forced) == Err::<StakingState, Error>(e)
                    && final(self)@ == old(self)@,
            },
    {
        let ghost start = self@;
        let (stake, total, mut entries) = {
            let c = self.candidate_pool.get(id).unwrap();
            (c.stake, c.total, c.delegators.to_vec())
        };
        let count = entries.len();
        entries.push(Stake { owner: id, amount: stake });
        let plan = self.plan_top_exit(id);
        proof {
            assert(entries@.subrange(0, count as int) =~= start.candidate_pool[id].delegators);
            lemma_top_unlisted(
                start.candidate_pool,
                plan.top@,
                start.candidate_pool.remove(id),
                id,
            );
        }
        match self.unstake_all(&entries) {
            Ok(()) => {},
            Err(e) => {
                return Err(e);
            },
        }
        self.drop_all(&entries, count, id);
        self.candidate_pool.remove(id);
        self.top_candidates = plan.top;
        self.total_collator_stake = plan.total;
        match plan.outcome {
            Ok(true) => {
                self.events.push(Event::LeftTopCandidates(id));
            },
            _ => {},
        }
        if forced {
            self.events.push(Event::CollatorRemoved(id, total));
        } else {
            self.events.push(Event::CandidateLeft(id, total));
        }
        Ok(())
    }

    /// Carries out the exit of the candidate `id`; anyone may ask for it.
    ///
    /// The call is turned down if `id` is no candidate, if it has not asked
    /// to leave, if its exit round has not come, or if the unstaking backlog
    /// of the candidate or of one of its delegators has no room. Otherwise
    /// the candidate leaves the pool; its own stake and every delegation to
    /// it stay locked until they mature.
    pub fn execute_leave_candidates(&mut self, id: AccountId) -> (r: Result<(), Error>)
        requires
            old(self).wf(),
        ensures
            final(self).wf(),
            match r {
                Ok(()) => old(self)@.execute_leave_candidates(id) == Ok::<StakingState, Error>(
                    final(self)@,
                ),
                Err(e) => old(self)@.execute_leave_candidates(id) == Err::<StakingState, Error>(e)
                    && final(self)@ == old(self)@,
            },
    {
        match self.candidate_pool.get(id) {
            Some(c) => {
                if !c.is_leaving() {
                    return Err(Error::NotLeaving);
                }
                if !c.can_exit(self.round.current) {
                    return Err(Error::CannotLeaveYet);
                }
            },
            None => {
                return Err(Error::CandidateNotFound);
            },
        }
        self.remove_candidate(id, false)
    }

    /// Removes the candidate `id` at once, without the delay of a regular
    /// exit.
    ///
    /// The call is turned down if `id` is no candidate, if the list of top
    /// candidates is no longer than the least number of collators, or if the unstaking backlog of the candidate or of one of its
    /// delegators has no room.
    pub fn force_remove_candidate(&mut self, id: AccountId) -> (r: Result<(), Error>)
        requires
            old(self).wf(),
        ensures
            final(self).wf(),
            match r {
                Ok(()) => old(self)@.force_remove_candidate(id) == Ok::<StakingState, Error>(
                    final(self)@,
                ),
                Err(e) => old(self)@.force_remove_candidate(id) == Err::<StakingState, Error>(e)
                    && final(self)@ == old(self)@,
            },
    {
        if !self.candidate_pool.contains_key(id) {
            return Err(Error::CandidateNotFound);
        }
        if self.top_candidates.len() <= self.config.min_collators as usize {
            return Err(Error::TooFewCollatorCandidates);
        }
        self.remove_candidate(id, true)
    }
}

} // verus!
