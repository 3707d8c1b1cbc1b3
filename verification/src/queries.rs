//! Reading the state of the engine, and unlocking what has matured.

use vstd::prelude::*;
use crate::error::Error;
use crate::set::{AccountId, Balance, OrderedSet};
use crate::state::{StakePallet, StakingState};
use crate::types::{Candidate, Delegator, Event, RoundInfo, TotalStake};
use crate::unstaking::{
    lemma_unlock, lemma_unlock_nothing_matured, spec_matured, spec_total, spec_unlock,
    BlockNumber, UnstakeEntry, UnstakingLedger,
};

verus! {

impl StakingState {
    /// What `who` has at stake: its own stake as a candidate, or the sum of
    /// its delegations.
    pub open spec fn staked_of(self, who: AccountId) -> Balance {
        if self.candidate_pool.dom().contains(who) {
            self.candidate_pool[who].stake
        } else if self.delegator_state.dom().contains(who) {
            self.delegator_state[who].total
        } else {
            0
        }
    }

    /// What of the balance of `who` is locked: what it has at stake and
    /// what waits in its unstaking backlog. It stops at the largest balance.
    pub open spec fn locked_of(self, who: AccountId) -> Balance {
        if self.staked_of(who) + spec_total(self.ledger_of(who)) > u128::MAX {
            u128::MAX
        } else {
            (self.staked_of(who) + spec_total(self.ledger_of(who))) as Balance
        }
    }

    /// The state after what has matured in the backlog of `target` has been
    /// unlocked. Where nothing has matured, nothing changes.
    pub open spec fn unlock_unstaked(self, target: AccountId) -> Result<StakingState, Error> {
        if self.ledger_of(target).len() == 0 {
            Err(Error::UnstakingIsEmpty)
        } else if spec_matured(self.ledger_of(target), self.block_number) == 0 {
            Ok(self)
        } else {
            Ok(self.with_ledger(target, spec_unlock(self.ledger_of(target), self.block_number)))
        }
    }
}

/// Unlocking when nothing in the backlog has matured changes nothing.
pub proof fn lemma_unlock_unstaked_nothing_matured(s: StakingState, target: AccountId)
    requires
        s.ledger_of(target).len() > 0,
        forall|j: int|
            0 <= j < s.ledger_of(target).len() ==> (#[trigger] s.ledger_of(target)[j]).block
                > s.block_number,
    ensures
        s.unlock_unstaked(target) == Ok::<StakingState, Error>(s),
{
    lemma_unlock_nothing_matured(s.ledger_of(target), s.block_number);
}

/// Unlocking a second time in the same block changes nothing: the first
/// time has taken everything that had matured.
pub proof fn lemma_unlock_unstaked_twice(s: StakingState, target: AccountId)
    requires
        s.wf(),
        s.unlock_unstaked(target) is Ok,
        s.unlock_unstaked(target)->Ok_0.ledger_of(target).len() > 0,
    ensures
        s.unlock_unstaked(target)->Ok_0.unlock_unstaked(target) == s.unlock_unstaked(target),
{
    let ledger = s.ledger_of(target);
    let now = s.block_number;
    assert(s.unstaking.dom().contains(target));
    lemma_unlock(ledger, now);
    let t = s.unlock_unstaked(target)->Ok_0;
    if spec_matured(ledger, now) != 0 {
        let rest = spec_unlock(ledger, now);
        assert(t.ledger_of(target) == rest);
        assert forall|j: int| 0 <= j < rest.len() implies (#[trigger] rest[j]).block > now by {
            assert(rest[j] == ledger[j + spec_matured(ledger, now)]);
        }
        lemma_unlock_nothing_matured(rest, now);
    }
}

impl StakePallet {
    /// The block that is being executed.
    pub fn block_number(&self) -> (r: BlockNumber)
        ensures
            r == self@.block_number,
    {
        self.block_number
    }

    /// Tells the engine which block is being executed.
    pub fn set_block_number(&mut self, now: BlockNumber)
        requires
            old(self).wf(),
        ensures
            final(self).wf(),
            final(self)@ == (StakingState { block_number: now, ..old(self)@ }),
    {
        self.block_number = now;
    }

    pub fn round(&self) -> (r: RoundInfo)
        ensures
            r == self@.round,
    {
        self.round
    }

    pub fn max_selected_candidates(&self) -> (r: u32)
        ensures
            r == self@.max_selected_candidates,
    {
        self.max_selected_candidates
    }

    pub fn max_candidate_stake(&self) -> (r: Balance)
        ensures
            r == self@.max_candidate_stake,
    {
        self.max_candidate_stake
    }

    pub fn new_round_forced(&self) -> (r: bool)
        ensures
            r == self@.new_round_forced,
    {
        self.new_round_forced
    }

    /// The stake behind the selected candidates.
    pub fn total_collator_stake(&self) -> (r: TotalStake)
        ensures
            r == self@.total_collator_stake,
    {
        self.total_collator_stake
    }

    /// The list of top candidates, highest total stake first.
    pub fn top_candidates(&self) -> (r: OrderedSet)
        ensures
            r@ == self@.top_candidates,
    {
        self.top_candidates.clone_set()
    }

    /// The selected candidates: the first `max_selected_candidates` of the
    /// list of top candidates, in its order.
    pub fn selected_candidates(&self) -> (r: Vec<AccountId>)
        ensures
            r@ == self@.selected_candidates(),
    {
        let n = self.max_selected_candidates as usize;
        let len = self.top_candidates.len();
        let k = if n < len { n } else { len };
        let mut selected: Vec<AccountId> = Vec::new();
        let mut i: usize = 0;
        while i < k
            invariant
                i <= k,
                k <= self@.top_candidates.len(),
                selected@.len() == i,
                forall|j: int| 0 <= j < i ==> selected@[j] == self@.top_candidates[j].owner,
            decreases k - i,
        {
            selected.push(self.top_candidates.get(i).unwrap().owner);
            i += 1;
        }
        proof {
            assert(selected@ =~= self@.selected_candidates());
        }
        selected
    }

    /// Number of candidates in the pool.
    pub fn candidate_count(&self) -> (r: usize)
        requires
            self.wf(),
        ensures
            r == self@.candidate_pool.dom().len(),
    {
        self.candidate_pool.len()
    }

    /// The candidate `id`, if there is one.
    pub fn candidate_pool(&self, id: AccountId) -> (r: Option<Candidate>)
        requires
            self.wf(),
        ensures
            match r {
                Some(c) => self@.candidate_pool.dom().contains(id) && c@ == self@.candidate_pool[id],
                None => !self@.candidate_pool.dom().contains(id),
            },
    {
        match self.candidate_pool.get(id) {
            Some(c) => Some(c.clone_candidate()),
            None => None,
        }
    }

    /// Whether `id` is a candidate.
    pub fn is_active_candidate(&self, id: AccountId) -> (r: bool)
        ensures
            r == self@.candidate_pool.dom().contains(id),
    {
        self.candidate_pool.contains_key(id)
    }

    /// The delegator `id`, if there is one.
    pub fn delegator_state(&self, id: AccountId) -> (r: Option<Delegator>)
        requires
            self.wf(),
        ensures
            match r {
                Some(d) => self@.delegator_state.dom().contains(id) && d@ == self@.delegator_state[id],
                None => !self@.delegator_state.dom().contains(id),
            },
    {
        match self.delegator_state.get(id) {
            Some(d) => Some(d.clone_delegator()),
            None => None,
        }
    }

    /// Whether `id` is a delegator.
    pub fn is_delegator(&self, id: AccountId) -> (r: bool)
        ensures
            r == self@.delegator_state.dom().contains(id),
    {
        self.delegator_state.contains_key(id)
    }

    /// The unstaking backlog of `id`; empty if it has none.
    pub fn unstaking(&self, id: AccountId) -> (r: UnstakingLedger)
        requires
            self.wf(),
        ensures
            r@ == self@.ledger_of(id),
            r.wf(),
    {
        self.ledger_copy(id)
    }

    /// What `who` has at stake.
    pub fn staked(&self, who: AccountId) -> (r: Balance)
        requires
            self.wf(),
        ensures
            r == self@.staked_of(who),
    {
        match self.candidate_pool.get(who) {
            Some(c) => c.stake,
            None => match self.delegator_state.get(who) {
                Some(d) => d.total,
                None => 0,
            },
        }
    }

    /// What of the balance of `who` the host has to keep locked.
    pub fn locked_balance(&self, who: AccountId) -> (r: Balance)
        requires
            self.wf(),
        ensures
            r == self@.locked_of(who),
    {
        let staked = self.staked(who);
        let waiting = match self.unstaking.get(who) {
            Some(ledger) => ledger.total(),
            None => {
                proof {
                    assert(spec_total(Seq::<UnstakeEntry>::empty()) == 0);
                }
                0
            },
        };
        staked.saturating_add(waiting)
    }

    /// What the engine has reported so far.
    pub fn events(&self) -> (r: Vec<Event>)
        ensures
            r@ == self@.events,
    {
        let mut out: Vec<Event> = Vec::new();
        let mut i: usize = 0;
        while i < self.events.len()
            invariant
                i <= self.events.len(),
                out@ == self.events@.subrange(0, i as int),
            decreases self.events.len() - i,
        {
            out.push(self.events[i]);
            proof {
                assert(out@ =~= self.events@.subrange(0, i as int + 1));
            }
            i += 1;
        }
        proof {
            assert(self.events@.subrange(0, i as int) =~= self.events@);
        }
        out
    }

    /// Forgets what has been reported so far.
    pub fn clear_events(&mut self)
        requires
            old(self).wf(),
        ensures
            final(self).wf(),
            final(self)@ == (StakingState { events: Seq::<Event>::empty(), ..old(self)@ }),
    {
        self.events = Vec::new();
    }

    /// Unlocks what has matured in the unstaking backlog of `target` and
    /// answers with the amount that is free again.
    ///
    /// The call is turned down if `target` has no backlog. If nothing has
    /// matured yet, nothing changes and the answer is zero.
    pub fn unlock_unstaked(&mut self, target: AccountId) -> (r: Result<Balance, Error>)
        requires
            old(self).wf(),
        ensures
            final(self).wf(),
            match r {
                Ok(unlocked) => old(self)@.unlock_unstaked(target) == Ok::<StakingState, Error>(
                    final(self)@,
                ) && unlocked == spec_total(old(self)@.ledger_of(target)) - spec_total(
                    final(self)@.ledger_of(target),
                ),
                Err(e) => old(self)@.unlock_unstaked(target) == Err::<StakingState, Error>(e)
                    && final(self)@ == old(self)@,
            },
            (forall|j: int|
                0 <= j < old(self)@.ledger_of(target).len() ==> (#[trigger] old(self)@.ledger_of(
                    target,
                )[j]).block > old(self)@.block_number) ==> final(self)@ == old(self)@,
    {
        let mut ledger = self.ledger_copy(target);
        if ledger.is_empty() {
            return Err(Error::UnstakingIsEmpty);
        }
        let before = ledger.len();
        proof {
            lemma_unlock(ledger@, self@.block_number);
            if forall|j: int|
                0 <= j < ledger@.len() ==> (#[trigger] ledger@[j]).block > self@.block_number {
                lemma_unlock_nothing_matured(ledger@, self@.block_number);
            }
        }
        let unlocked = ledger.unlock_matured(self.block_number);
        if ledger.len() == before {
            proof {
                assert(ledger@ =~= old(self)@.ledger_of(target));
            }
            return Ok(unlocked);
        }
        self.put_ledger(target, ledger);
        Ok(unlocked)
    }
}

} // verus!
