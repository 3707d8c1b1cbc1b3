//! A delegator leaves: all its delegations are revoked at once.

use vstd::prelude::*;
use crate::engine::{lemma_inactive_unlisted};
use crate::error::Error;
use crate::set::{AccountId, Balance, OrderedSet, Stake};
use crate::state::{spec_ledger_in, spec_put_ledger, StakePallet, StakingState};
use crate::types::{Candidate, Event, TotalStake};
use crate::unstaking::{UnstakeEntry, UnstakingLedger};

verus! {

/// The state after `who` has left each of the candidates that
/// `delegations` names, one after the other. The first candidate that
/// cannot be left decides the error.
pub open spec fn spec_leave_all(s: StakingState, who: AccountId, delegations: Seq<Stake>) -> Result<
    StakingState,
    Error,
>
    decreases delegations.len(),
{
    if delegations.len() == 0 {
        Ok(s)
    } else {
        match spec_leave_all(s, who, delegations.drop_last()) {
            Err(e) => Err(e),
            Ok(t) => t.delegator_leaves_collator(
                who,
                delegations.last().owner,
                delegations.last().amount,
            ),
        }
    }
}

/// Leaving that fails for the first few candidates fails in the same way
/// for all of them.
pub proof fn lemma_leave_all_fails(s: StakingState, who: AccountId, delegations: Seq<Stake>, k: int)
    requires
        0 <= k <= delegations.len(),
        spec_leave_all(s, who, delegations.subrange(0, k)) is Err,
    ensures
        spec_leave_all(s, who, delegations) == spec_leave_all(s, who, delegations.subrange(0, k)),
    decreases delegations.len(),
{
    if k == delegations.len() {
        assert(delegations.subrange(0, k) =~= delegations);
    } else {
        assert(delegations.drop_last().subrange(0, k) =~= delegations.subrange(0, k));
        lemma_leave_all_fails(s, who, delegations.drop_last(), k);
    }
}

/// The backlogs `m` differ from `m0` at most in the backlog of `who`.
pub open spec fn spec_same_but(
    m0: Map<AccountId, Seq<UnstakeEntry>>,
    m: Map<AccountId, Seq<UnstakeEntry>>,
    who: AccountId,
) -> bool {
    forall|k: AccountId|
        k != who ==> (#[trigger] m.dom().contains(k)) == m0.dom().contains(k) && (m.dom().contains(k)
            ==> m[k] == m0[k])
}

/// What leaving candidates does not touch: between `start` and `s` only
/// candidates, the list of top candidates with its total stake, the backlog
/// of `who` and the reports may differ, and what had been reported is still
/// there.
pub open spec fn spec_leave_frame(start: StakingState, s: StakingState, who: AccountId) -> bool {
    &&& s.config == start.config
    &&& s.block_number == start.block_number
    &&& s.max_selected_candidates == start.max_selected_candidates
    &&& s.max_candidate_stake == start.max_candidate_stake
    &&& s.round == start.round
    &&& s.new_round_forced == start.new_round_forced
    &&& s.delegator_state == start.delegator_state
    &&& s.last_delegation == start.last_delegation
    &&& s.collator_blocks == start.collator_blocks
    &&& spec_same_but(start.unstaking, s.unstaking, who)
    &&& start.events.len() <= s.events.len()
    &&& s.events.subrange(0, start.events.len() as int) == start.events
}

/// Leaving one candidate changes that candidate and nothing that leaving
/// does not touch.
pub proof fn lemma_leave_step(
    start: StakingState,
    s: StakingState,
    who: AccountId,
    collator: AccountId,
    amount: Balance,
)
    requires
        s.wf(),
        spec_leave_frame(start, s, who),
        s.delegator_leaves_collator(who, collator, amount) is Ok,
    ensures
        spec_leave_frame(start, s.delegator_leaves_collator(who, collator, amount)->Ok_0, who),
        s.candidate_pool.dom().contains(collator),
        s.delegator_leaves_collator(who, collator, amount)->Ok_0.candidate_pool
            == s.candidate_pool.insert(
            collator,
            s.delegator_leaves_collator(who, collator, amount)->Ok_0.candidate_pool[collator],
        ),
{
    let t = s.delegator_leaves_collator(who, collator, amount)->Ok_0;
    let after = s.candidate_pool[collator].with_delegators(
        crate::set::spec_remove(s.candidate_pool[collator].delegators, who),
    );
    assert(s.candidate_pool.dom().contains(collator));
    assert(after.id == collator);
    assert(s.unstaked(who, amount, s.voluntary_capacity()) is Ok);
    assert(s.with_stored_candidate(after) is Ok);
    let mid = s.with_stored_candidate(after)->Ok_0;
    assert(mid.candidate_pool == s.candidate_pool.insert(collator, after));
    assert(s.events.len() <= mid.events.len() && mid.events.subrange(0, s.events.len() as int)
        =~= s.events);
    assert(t.events.subrange(0, start.events.len() as int) =~= s.events.subrange(
        0,
        start.events.len() as int,
    ));
}

impl StakingState {
    /// The delegator `who` revokes all its delegations and is no delegator
    /// any more.
    pub open spec fn leave_delegators(self, who: AccountId) -> Result<StakingState, Error> {
        if !self.delegator_state.dom().contains(who) {
            Err(Error::DelegatorNotFound)
        } else {
            match spec_leave_all(self, who, self.delegator_state[who].delegations) {
                Err(e) => Err(e),
                Ok(t) => Ok(
                    StakingState {
                        delegator_state: t.delegator_state.remove(who),
                        events: t.events.push(
                            Event::DelegatorLeft(who, self.delegator_state[who].total),
                        ),
                        ..t
                    },
                ),
            }
        }
    }
}

impl StakePallet {
    /// The delegator `who` no longer backs the candidate `collator` with
    /// `amount`.
    pub(crate) fn leave_collator(&mut self, who: AccountId, collator: AccountId, amount: Balance) -> (r:
        Result<(), Error>)
        requires
            old(self).wf(),
        ensures
            final(self).wf(),
            match r {
                Ok(()) => old(self)@.delegator_leaves_collator(who, collator, amount) == Ok::<
                    StakingState,
                    Error,
                >(final(self)@),
                Err(e) => old(self)@.delegator_leaves_collator(who, collator, amount) == Err::<
                    StakingState,
                    Error,
                >(e) && final(self)@ == old(self)@,
            },
    {
        let mut candidate = match self.candidate_pool.get(collator) {
            Some(c) => c.clone_candidate(),
            None => {
                return Err(Error::CandidateNotFound);
            },
        };
        proof {
            lemma_inactive_unlisted(self@, collator);
        }
        if candidate.rm_delegator(who).is_none() {
            return Err(Error::DelegatorNotFound);
        }
        let after_total = candidate.total;
        let ledger = match self.plan_unstake(who, amount, self.voluntary_capacity()) {
            Ok(ledger) => ledger,
            Err(e) => {
                return Err(e);
            },
        };
        let plan = match self.plan_stored(&candidate) {
            Ok(plan) => plan,
            Err(e) => {
                return Err(e);
            },
        };
        self.store_candidate(candidate, plan);
        self.put_ledger(who, ledger);
        self.deposit_event(Event::DelegatorLeftCollator(who, collator, amount, after_total));
        Ok(())
    }

    /// Puts the engine back to where it was before `who` began to leave:
    /// the candidates in `saved`, last one first, then the list of top
    /// candidates, its total stake, the backlog of `who` and the reports.
    fn undo_leaving(
        &mut self,
        who: AccountId,
        delegations: &Vec<Stake>,
        stored: Vec<Candidate>,
        top: OrderedSet,
        total: TotalStake,
        ledger: UnstakingLedger,
        reported: usize,
        Ghost(start): Ghost<StakingState>,
        Ghost(states): Ghost<Seq<StakingState>>,
    )
        requires
            old(self).candidate_pool.wf(),
            old(self).delegator_state.wf(),
            old(self).unstaking.wf(),
            old(self).last_delegation.wf(),
            start.wf(),
            stored@.len() + 1 == states.len(),
            stored@.len() <= delegations@.len(),
            states[0] == start,
            old(self)@ == states[stored@.len() as int],
            forall|j: int| 0 <= j < states.len() ==> spec_leave_frame(start, #[trigger] states[j], who),
            forall|j: int|
                0 <= j < stored@.len() ==> {
                    &&& (#[trigger] stored@[j])@ == states[j].candidate_pool[delegations@[j].owner]
                    &&& states[j].candidate_pool.dom().contains(delegations@[j].owner)
                    &&& states[j + 1].candidate_pool == states[j].candidate_pool.insert(
                        delegations@[j].owner,
                        states[j + 1].candidate_pool[delegations@[j].owner],
                    )
                },
            top@ == start.top_candidates,
            total == start.total_collator_stake,
            ledger@ == start.ledger_of(who),
            reported == start.events.len(),
        ensures
            final(self).wf(),
            final(self)@ == start,
    {
        let mut saved = stored;
        let mut k: usize = saved.len();
        proof {
            assert forall|j: int| 0 <= j < k implies {
                &&& (#[trigger] saved@[j])@ == states[j].candidate_pool[delegations@[j].owner]
                &&& states[j].candidate_pool.dom().contains(delegations@[j].owner)
                &&& states[j + 1].candidate_pool == states[j].candidate_pool.insert(
                    delegations@[j].owner,
                    states[j + 1].candidate_pool[delegations@[j].owner],
                )
            } by {
                assert(saved@[j] == stored@[j]);
            }
        }
        while k > 0
            invariant
                k == saved@.len(),
                k + 1 <= states.len(),
                k <= delegations@.len(),
                self.candidate_pool.wf(),
                self.delegator_state.wf(),
                self.unstaking.wf(),
                self.last_delegation.wf(),
                self@ == (StakingState {
                    candidate_pool: states[k as int].candidate_pool,
                    ..old(self)@
                }),
                forall|j: int|
                    0 <= j < k ==> {
                        &&& (#[trigger] saved@[j])@ == states[j].candidate_pool[delegations@[j].owner]
                        &&& states[j].candidate_pool.dom().contains(delegations@[j].owner)
                        &&& states[j + 1].candidate_pool == states[j].candidate_pool.insert(
                            delegations@[j].owner,
                            states[j + 1].candidate_pool[delegations@[j].owner],
                        )
                    },
            decreases k,
        {
            let ghost j = k as int - 1;
            let ghost before = saved@[j]@;
            let candidate = saved.pop().unwrap();
            proof {
                assert(before == states[j].candidate_pool[delegations@[j].owner]);
                assert(states[j + 1].candidate_pool.insert(delegations@[j].owner, before)
                    =~= states[j].candidate_pool);
            }
            self.candidate_pool.insert(delegations[k - 1].owner, candidate);
            k -= 1;
        }
        let ghost last = old(self)@;
        proof {
            assert(spec_leave_frame(start, last, who));
            assert(spec_put_ledger(last.unstaking, who, spec_ledger_in(start.unstaking, who))
                =~= start.unstaking);
        }
        self.top_candidates = top;
        self.total_collator_stake = total;
        if ledger.is_empty() {
            self.unstaking.remove(who);
        } else {
            self.unstaking.insert(who, ledger);
        }
        self.events.truncate(reported);
    }

    /// The delegator `who` revokes all its delegations.
    ///
    /// The call is turned down if `who` is no delegator, if one of the
    /// candidates it backs does not know it, or if the unstaking backlog of
    /// `who` has no room. Otherwise every delegation stays locked until it
    /// matures, and `who` is no delegator any more.
    pub fn leave_delegators(&mut self, who: AccountId) -> (r: Result<(), Error>)
        requires
            old(self).wf(),
        ensures
            final(self).wf(),
            match r {
                Ok(()) => old(self)@.leave_delegators(who) == Ok::<StakingState, Error>(final(self)@),
                Err(e) => old(self)@.leave_delegators(who) == Err::<StakingState, Error>(e)
                    && final(self)@ == old(self)@,
            },
    {
        let ghost start = self@;
        let (delegations, total) = match self.delegator_state.get(who) {
            Some(d) => (d.delegations.to_vec(), d.total),
            None => {
                return Err(Error::DelegatorNotFound);
            },
        };
        let top = self.top_candidates.clone_set();
        let stake = self.total_collator_stake;
        let ledger = self.ledger_copy(who);
        let reported = self.events.len();
        let mut saved: Vec<Candidate> = Vec::new();
        let ghost mut states: Seq<StakingState> = seq![start];
        let n = delegations.len();
        let mut i: usize = 0;
        proof {
            assert(delegations@.subrange(0, 0) =~= Seq::<Stake>::empty());
            assert(start.events.subrange(0, start.events.len() as int) =~= start.events);
        }
        while i < n
            invariant
                i <= n,
                n == delegations@.len(),
                self.wf(),
                start == old(self)@,
                start.wf(),
                start.delegator_state.dom().contains(who),
                delegations@ == start.delegator_state[who].delegations,
                total == start.delegator_state[who].total,
                top@ == start.top_candidates,
                stake == start.total_collator_stake,
                ledger@ == start.ledger_of(who),
                reported == start.events.len(),
                states.len() == i + 1,
                saved@.len() == i,
                states[0] == start,
                states[i as int] == self@,
                forall|j: int| 0 <= j < states.len() ==> spec_leave_frame(start, #[trigger] states[j], who),
                forall|j: int|
                    0 <= j < i ==> {
                        &&& (#[trigger] saved@[j])@ == states[j].candidate_pool[delegations@[j].owner]
                        &&& states[j].candidate_pool.dom().contains(delegations@[j].owner)
                        &&& states[j + 1].candidate_pool == states[j].candidate_pool.insert(
                            delegations@[j].owner,
                            states[j + 1].candidate_pool[delegations@[j].owner],
                        )
                    },
                spec_leave_all(start, who, delegations@.subrange(0, i as int)) == Ok::<
                    StakingState,
                    Error,
                >(self@),
            decreases n - i,
        {
            let d = delegations[i];
            let ghost next = delegations@.subrange(0, i as int + 1);
            proof {
                assert(next.drop_last() =~= delegations@.subrange(0, i as int));
                assert(next.last() == d);
            }
            let before = match self.candidate_pool.get(d.owner) {
                Some(c) => Some(c.clone_candidate()),
                None => None,
            };
            let ghost s = self@;
            let done = self.leave_collator(who, d.owner, d.amount);
            match (done, before) {
                (Ok(()), Some(candidate)) => {
                    proof {
                        lemma_leave_step(start, s, who, d.owner, d.amount);
                        states = states.push(self@);
                    }
                    saved.push(candidate);
                },
                (Ok(()), None) => {
                    proof {
                        assert(false);
                    }
                },
                (Err(e), _) => {
                    proof {
                        lemma_leave_all_fails(start, who, delegations@, i as int + 1);
                    }
                    self.undo_leaving(
                        who,
                        &delegations,
                        saved,
                        top,
                        stake,
                        ledger,
                        reported,
                        Ghost(start),
                        Ghost(states),
                    );
                    return Err(e);
                },
            }
            i += 1;
        }
        proof {
            assert(delegations@.subrange(0, n as int) =~= delegations@);
        }
        self.delegator_state.remove(who);
        self.events.push(Event::DelegatorLeft(who, total));
        Ok(())
    }
}

} // verus!
