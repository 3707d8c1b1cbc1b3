//! The records of the staking ledger: candidates, delegators, rounds and
//! the notifications that the engine emits.

use vstd::prelude::*;
use crate::arithmetic::Permill;
use crate::error::Error;
use crate::set::{
    lemma_index_of, lemma_insert, lemma_insert_bounded, lemma_remove, lemma_remove_wf,
    lemma_sum_bounds, spec_contains, spec_index_of, spec_insert, spec_insert_bounded,
    spec_insert_bounded_result, spec_remove, spec_sum, spec_wf, AccountId, Balance,
    BoundedInsertError, OrderedSet, Stake,
};
use crate::unstaking::BlockNumber;

verus! {

pub type RoundIndex = u32;

pub type SessionIndex = u32;

/// Where a candidate stands in its life cycle.
#[derive(Clone, Copy, Debug, PartialEq, Eq, Structural)]
pub enum CandidateStatus {
    /// Eligible for selection.
    Active,
    /// Has asked to leave; may be removed from the given round on.
    Leaving(RoundIndex),
    /// Neither selected nor leaving.
    Idle,
}

/// Sum of the stakes behind the selected candidates.
#[derive(Clone, Copy, Debug, PartialEq, Eq, Structural)]
pub struct TotalStake {
    /// Sum of the selected candidates' own stakes.
    pub collators: Balance,
    /// Sum of what is delegated to the selected candidates.
    pub delegators: Balance,
}

/// How often a delegator has delegated in a round.
#[derive(Clone, Copy, Debug, PartialEq, Eq, Structural)]
pub struct DelegationCounter {
    pub round: RoundIndex,
    pub counter: u32,
}

impl View for DelegationCounter {
    type V = DelegationCounter;

    open spec fn view(&self) -> DelegationCounter {
        *self
    }
}

/// An amount to pay out to an account.
#[derive(Clone, Copy, Debug, PartialEq, Eq, Structural)]
pub struct Reward {
    pub owner: AccountId,
    pub amount: Balance,
}

/// The current round.
#[derive(Clone, Copy, Debug, PartialEq, Eq, Structural)]
pub struct RoundInfo {
    /// Index of the round.
    pub current: RoundIndex,
    /// First block of the round.
    pub first: BlockNumber,
    /// Number of blocks in the round.
    pub length: BlockNumber,
}

impl RoundInfo {
    /// A round is over once `length` blocks have passed since its first.
    pub open spec fn spec_should_update(self, now: BlockNumber) -> bool {
        now >= self.first && now - self.first >= self.length
    }

    /// The round that starts at block `now`.
    pub open spec fn spec_update(self, now: BlockNumber) -> RoundInfo {
        RoundInfo {
            current: if self.current == u32::MAX { self.current } else { (self.current + 1) as u32 },
            first: now,
            length: self.length,
        }
    }

    pub fn new(current: RoundIndex, first: BlockNumber, length: BlockNumber) -> (r: RoundInfo)
        ensures
            r == (RoundInfo { current, first, length }),
    {
        RoundInfo { current, first, length }
    }

    /// Whether the round is over at block `now`.
    pub fn should_update(&self, now: BlockNumber) -> (r: bool)
        ensures
            r == self.spec_should_update(now),
    {
        now >= self.first && now - self.first >= self.length
    }

    /// Starts the next round at block `now`.
    pub fn update(&mut self, now: BlockNumber)
        ensures
            *final(self) == old(self).spec_update(now),
    {
        self.current = self.current.saturating_add(1);
        self.first = now;
    }
}

/// What the engine reports of a call.
#[derive(Clone, Copy, Debug, PartialEq, Eq, Structural)]
pub enum Event {
    /// A new round has started: first block, round index.
    NewRound(BlockNumber, RoundIndex),
    /// An account has entered the list of top candidates.
    EnteredTopCandidates(AccountId),
    /// An account has left the list of top candidates.
    LeftTopCandidates(AccountId),
    /// An account has become a candidate: account, stake.
    JoinedCollatorCandidates(AccountId, Balance),
    /// A candidate has raised its stake: account, stake before, stake after.
    CollatorStakedMore(AccountId, Balance, Balance),
    /// A candidate has lowered its stake: account, stake before, stake after.
    CollatorStakedLess(AccountId, Balance, Balance),
    /// A candidate has asked to leave: current round, account, round of exit.
    CollatorScheduledExit(RoundIndex, AccountId, RoundIndex),
    /// A candidate has withdrawn its request to leave.
    CollatorCanceledExit(AccountId),
    /// A candidate has left: account, total stake that was behind it.
    CandidateLeft(AccountId, Balance),
    /// A candidate has been removed by force: account, total stake.
    CollatorRemoved(AccountId, Balance),
    /// The highest stake a candidate may have has changed.
    MaxCandidateStakeChanged(Balance),
    /// A delegator has raised a delegation: delegator, candidate, the
    /// candidate's total before and after.
    DelegatorStakedMore(AccountId, AccountId, Balance, Balance),
    /// A delegator has lowered a delegation: delegator, candidate, the
    /// candidate's total before and after.
    DelegatorStakedLess(AccountId, AccountId, Balance, Balance),
    /// An account has left the set of delegators: account, what it had staked.
    DelegatorLeft(AccountId, Balance),
    /// An account has delegated: delegator, amount, candidate, the
    /// candidate's new total.
    Delegation(AccountId, Balance, AccountId, Balance),
    /// A delegation has pushed another out: new delegator, its amount, the
    /// delegator pushed out, its amount, candidate, the candidate's new total.
    DelegationReplaced(AccountId, Balance, AccountId, Balance, AccountId, Balance),
    /// A delegation has been revoked: delegator, candidate, amount, the
    /// candidate's new total.
    DelegatorLeftCollator(AccountId, AccountId, Balance, Balance),
    /// The number of selected candidates has changed: before, after.
    MaxSelectedCandidatesSet(u32, u32),
    /// The length of a round has changed: round, its first block, length
    /// before, length after.
    BlocksPerRoundSet(RoundIndex, BlockNumber, BlockNumber, BlockNumber),
}

/// A candidate as contracts speak of it.
pub struct CandidateView {
    pub id: AccountId,
    pub stake: Balance,
    pub delegators: Seq<Stake>,
    pub total: Balance,
    pub status: CandidateStatus,
    pub commission: Permill,
}

impl CandidateView {
    /// The delegators are an ordered set, the total is the candidate's own
    /// stake plus everything delegated to it, and the commission is a
    /// fraction.
    pub open spec fn wf(self) -> bool {
        &&& spec_wf(self.delegators)
        &&& self.total == self.stake + spec_sum(self.delegators)
        &&& self.commission.wf()
    }

    pub open spec fn is_active(self) -> bool {
        self.status == CandidateStatus::Active
    }

    pub open spec fn is_leaving(self) -> bool {
        self.status is Leaving
    }

    /// A leaving candidate may go from its exit round on.
    pub open spec fn can_exit(self, round: RoundIndex) -> bool {
        match self.status {
            CandidateStatus::Leaving(when) => round >= when,
            _ => false,
        }
    }

    /// The candidate with its own stake set to `stake`.
    pub open spec fn with_stake(self, stake: Balance) -> CandidateView {
        CandidateView {
            stake,
            total: (stake + spec_sum(self.delegators)) as Balance,
            ..self
        }
    }

    /// The candidate with its delegators replaced.
    pub open spec fn with_delegators(self, delegators: Seq<Stake>) -> CandidateView {
        CandidateView {
            delegators,
            total: (self.stake + spec_sum(delegators)) as Balance,
            ..self
        }
    }

    pub open spec fn with_status(self, status: CandidateStatus) -> CandidateView {
        CandidateView { status, ..self }
    }

    pub open spec fn with_commission(self, commission: Permill) -> CandidateView {
        CandidateView { commission, ..self }
    }
}

/// The candidate after `stake` has been added to its delegators, of whom it
/// may have `capacity`, and the delegator that was pushed out, if any.
///
/// Someone who delegates to the candidate already is turned down; so is a
/// stake that does not exceed the lowest if the set is full, and one that
/// makes the total too large for a balance.
pub open spec fn spec_add_delegator(c: CandidateView, stake: Stake, capacity: int) -> Result<
    (CandidateView, Option<Stake>),
    Error,
> {
    let delegators = spec_insert_bounded(c.delegators, stake, capacity);
    match spec_insert_bounded_result(c.delegators, stake, capacity) {
        Ok(false) => Err(Error::DelegatorExists),
        Err(BoundedInsertError::Rejected) => Err(Error::TooManyDelegators),
        Ok(true) => if c.stake + spec_sum(delegators) > u128::MAX {
            Err(Error::Overflow)
        } else {
            Ok((c.with_delegators(delegators), None))
        },
        Err(BoundedInsertError::Evicted(old)) => if c.stake + spec_sum(delegators) > u128::MAX {
            Err(Error::Overflow)
        } else {
            Ok((c.with_delegators(delegators), Some(old)))
        },
    }
}

/// A collator candidate: its own stake and what is delegated to it.
#[derive(Clone, Debug, PartialEq, Eq)]
pub struct Candidate {
    pub id: AccountId,
    /// The candidate's own stake.
    pub stake: Balance,
    /// Who delegates to the candidate, and how much.
    pub delegators: OrderedSet,
    /// Own stake plus all delegations.
    pub total: Balance,
    pub status: CandidateStatus,
    /// Share of the delegators' rewards that the candidate keeps.
    pub commission: Permill,
}

impl View for Candidate {
    type V = CandidateView;

    open spec fn view(&self) -> CandidateView {
        CandidateView {
            id: self.id,
            stake: self.stake,
            delegators: self.delegators@,
            total: self.total,
            status: self.status,
            commission: self.commission,
        }
    }
}

impl Candidate {
    pub open spec fn wf(&self) -> bool {
        self@.wf()
    }

    /// A new active candidate without delegators and without commission.
    pub fn new(id: AccountId, stake: Balance) -> (r: Candidate)
        ensures
            r.wf(),
            r@ == (CandidateView {
                id,
                stake,
                delegators: Seq::<Stake>::empty(),
                total: stake,
                status: CandidateStatus::Active,
                commission: Permill { parts: 0 },
            }),
    {
        Candidate {
            id,
            stake,
            delegators: OrderedSet::new(),
            total: stake,
            status: CandidateStatus::Active,
            commission: Permill::zero(),
        }
    }

    /// A copy of the candidate.
    pub fn clone_candidate(&self) -> (r: Candidate)
        ensures
            r@ == self@,
    {
        Candidate {
            id: self.id,
            stake: self.stake,
            delegators: self.delegators.clone_set(),
            total: self.total,
            status: self.status,
            commission: self.commission,
        }
    }

    pub fn is_active(&self) -> (r: bool)
        ensures
            r == self@.is_active(),
    {
        match self.status {
            CandidateStatus::Active => true,
            _ => false,
        }
    }

    pub fn is_leaving(&self) -> (r: bool)
        ensures
            r == self@.is_leaving(),
    {
        match self.status {
            CandidateStatus::Leaving(_) => true,
            _ => false,
        }
    }

    /// Whether the candidate has asked to leave and may go in round `round`.
    pub fn can_exit(&self, round: RoundIndex) -> (r: bool)
        ensures
            r == self@.can_exit(round),
    {
        match self.status {
            CandidateStatus::Leaving(when) => round >= when,
            _ => false,
        }
    }

    /// Sets the candidate's own stake; `Overflow` if the total no longer
    /// fits.
    pub fn set_stake(&mut self, stake: Balance) -> (r: Result<(), Error>)
        requires
            old(self).wf(),
        ensures
            final(self).wf(),
            stake + spec_sum(old(self)@.delegators) <= u128::MAX ==> r == Ok::<(), Error>(())
                && final(self)@ == old(self)@.with_stake(stake),
            stake + spec_sum(old(self)@.delegators) > u128::MAX ==> r == Err::<(), Error>(
                Error::Overflow,
            ) && final(self)@ == old(self)@,
    {
        proof {
            lemma_sum_bounds(self.delegators@);
        }
        let delegated = self.total - self.stake;
        if stake > u128::MAX - delegated {
            Err(Error::Overflow)
        } else {
            self.stake = stake;
            self.total = stake + delegated;
            Ok(())
        }
    }

    /// Replaces the delegators; `Overflow` if the total no longer fits.
    pub fn set_delegators(&mut self, delegators: OrderedSet, delegated: Balance) -> (r: Result<
        (),
        Error,
    >)
        requires
            old(self).wf(),
            delegators.wf(),
            delegated == spec_sum(delegators@),
        ensures
            final(self).wf(),
            old(self)@.stake + delegated <= u128::MAX ==> r == Ok::<(), Error>(()) && final(self)@
                == old(self)@.with_delegators(delegators@),
            old(self)@.stake + delegated > u128::MAX ==> r == Err::<(), Error>(Error::Overflow)
                && final(self)@ == old(self)@,
    {
        if delegated > u128::MAX - self.stake {
            Err(Error::Overflow)
        } else {
            self.delegators = delegators;
            self.total = self.stake + delegated;
            Ok(())
        }
    }

    /// Adds `stake` to the delegators, of whom there may be `capacity`. The
    /// answer is the delegator that was pushed out, if any.
    pub fn add_delegator(&mut self, stake: Stake, capacity: usize) -> (r: Result<Option<Stake>, Error>)
        requires
            old(self).wf(),
        ensures
            final(self).wf(),
            old(self)@.delegators.len() <= capacity ==> final(self)@.delegators.len() <= capacity,
            forall|o: AccountId|
                o != stake.owner && !spec_contains(old(self)@.delegators, o) ==> !spec_contains(
                    final(self)@.delegators,
                    o,
                ),
            match r {
                Ok(kicked) => spec_add_delegator(old(self)@, stake, capacity as int) == Ok::<
                    (CandidateView, Option<Stake>),
                    Error,
                >((final(self)@, kicked)),
                Err(e) => spec_add_delegator(old(self)@, stake, capacity as int) == Err::<
                    (CandidateView, Option<Stake>),
                    Error,
                >(e) && final(self)@ == old(self)@,
            },
    {
        let ghost before = self@.delegators;
        proof {
            lemma_sum_bounds(before);
            lemma_insert_bounded(before, stake, capacity as int);
            lemma_insert(before, stake);
            if before.len() > 0 {
                lemma_insert(before.drop_last(), stake);
                assert(before.drop_last() =~= before.remove(before.len() - 1));
                lemma_remove_wf(before, before.len() - 1);
                lemma_index_of(before.drop_last(), stake.owner);
                lemma_index_of(before, stake.owner);
                if spec_contains(before.drop_last(), stake.owner) {
                    let i = spec_index_of(before.drop_last(), stake.owner);
                    assert(before.drop_last()[i] == before[i]);
                }
            }
        }
        let mut set = self.delegators.clone_set();
        let delegated = self.total - self.stake;
        let (rest, kicked) = match set.try_insert_bounded(stake, capacity) {
            Ok(true) => (delegated, None),
            Ok(false) => {
                return Err(Error::DelegatorExists);
            },
            Err(BoundedInsertError::Evicted(old)) => (delegated - old.amount, Some(old)),
            Err(BoundedInsertError::Rejected) => {
                return Err(Error::TooManyDelegators);
            },
        };
        if stake.amount > u128::MAX - rest {
            return Err(Error::Overflow);
        }
        match self.set_delegators(set, rest + stake.amount) {
            Ok(()) => Ok(kicked),
            Err(e) => Err(e),
        }
    }

    /// Gives the delegator that `stake` names the amount of `stake`. The
    /// delegator must be one already.
    pub fn set_delegator(&mut self, stake: Stake) -> (r: Result<(), Error>)
        requires
            old(self).wf(),
            spec_contains(old(self)@.delegators, stake.owner),
        ensures
            final(self).wf(),
            final(self)@.delegators.len() == old(self)@.delegators.len(),
            forall|o: AccountId|
                spec_contains(final(self)@.delegators, o) == spec_contains(old(self)@.delegators, o),
            old(self)@.stake + spec_sum(spec_insert(old(self)@.delegators, stake)) <= u128::MAX ==> r
                == Ok::<(), Error>(()) && final(self)@ == old(self)@.with_delegators(
                spec_insert(old(self)@.delegators, stake),
            ),
            old(self)@.stake + spec_sum(spec_insert(old(self)@.delegators, stake)) > u128::MAX ==> r
                == Err::<(), Error>(Error::Overflow) && final(self)@ == old(self)@,
    {
        let ghost before = self@.delegators;
        proof {
            lemma_sum_bounds(before);
            lemma_insert(before, stake);
            lemma_index_of(before, stake.owner);
        }
        let mut set = self.delegators.clone_set();
        let delegated = self.total - self.stake;
        let old_amount = set.find(stake.owner).unwrap().amount;
        set.insert(stake);
        let rest = delegated - old_amount;
        if stake.amount > u128::MAX - rest {
            return Err(Error::Overflow);
        }
        self.set_delegators(set, rest + stake.amount)
    }

    /// Takes `who` off the delegators and answers with its entry.
    pub fn rm_delegator(&mut self, who: AccountId) -> (r: Option<Stake>)
        requires
            old(self).wf(),
        ensures
            final(self).wf(),
            final(self)@ == old(self)@.with_delegators(spec_remove(old(self)@.delegators, who)),
            final(self)@.delegators.len() <= old(self)@.delegators.len(),
            final(self)@.total <= old(self)@.total,
            forall|o: AccountId|
                !spec_contains(old(self)@.delegators, o) ==> !spec_contains(final(self)@.delegators, o),
            r == if spec_contains(old(self)@.delegators, who) {
                Some(old(self)@.delegators[spec_index_of(old(self)@.delegators, who)])
            } else {
                None
            },
    {
        let ghost before = self@.delegators;
        proof {
            lemma_sum_bounds(before);
            lemma_remove(before, who);
            lemma_index_of(before, who);
        }
        let mut set = self.delegators.clone_set();
        let delegated = self.total - self.stake;
        match set.remove(who) {
            Some(e) => match self.set_delegators(set, delegated - e.amount) {
                Ok(()) => Some(e),
                Err(_) => None,
            },
            None => None,
        }
    }

    /// Marks the candidate as leaving from round `round` on.
    pub fn leave_candidates(&mut self, round: RoundIndex)
        ensures
            final(self)@ == old(self)@.with_status(CandidateStatus::Leaving(round)),
    {
        self.status = CandidateStatus::Leaving(round);
    }

    /// Makes the candidate active again.
    pub fn revert_leaving(&mut self)
        ensures
            final(self)@ == old(self)@.with_status(CandidateStatus::Active),
    {
        self.status = CandidateStatus::Active;
    }

    /// Sets the share of the delegators' rewards that the candidate keeps.
    pub fn set_commission(&mut self, commission: Permill)
        ensures
            final(self)@ == old(self)@.with_commission(commission),
    {
        self.commission = commission;
    }
}

/// A delegator as contracts speak of it.
pub struct DelegatorView {
    pub delegations: Seq<Stake>,
    pub total: Balance,
}

impl DelegatorView {
    /// The delegations are an ordered set and the total is their sum.
    pub open spec fn wf(self) -> bool {
        &&& spec_wf(self.delegations)
        &&& self.total == spec_sum(self.delegations)
    }
}

impl DelegatorView {
    /// The delegator with the delegation that `stake` names set to its
    /// amount.
    pub open spec fn with_delegation(self, stake: Stake) -> DelegatorView {
        DelegatorView {
            delegations: spec_insert(self.delegations, stake),
            total: spec_sum(spec_insert(self.delegations, stake)) as Balance,
        }
    }

    /// The delegator without its delegation to `collator`.
    pub open spec fn without_delegation(self, collator: AccountId) -> DelegatorView {
        DelegatorView {
            delegations: spec_remove(self.delegations, collator),
            total: spec_sum(spec_remove(self.delegations, collator)) as Balance,
        }
    }
}

/// A delegator: the candidates it backs, and with how much.
#[derive(Clone, Debug, PartialEq, Eq)]
pub struct Delegator {
    /// One entry per backed candidate; the owner is the candidate.
    pub delegations: OrderedSet,
    /// Sum of all delegations.
    pub total: Balance,
}

impl View for Delegator {
    type V = DelegatorView;

    open spec fn view(&self) -> DelegatorView {
        DelegatorView { delegations: self.delegations@, total: self.total }
    }
}

impl Delegator {
    pub open spec fn wf(&self) -> bool {
        self@.wf()
    }

    /// A delegator with a single delegation.
    pub fn new(collator: AccountId, amount: Balance) -> (r: Delegator)
        ensures
            r.wf(),
            r@ == (DelegatorView {
                delegations: seq![Stake { owner: collator, amount }],
                total: amount,
            }),
    {
        let mut delegations = OrderedSet::new();
        delegations.insert(Stake { owner: collator, amount });
        proof {
            lemma_insert(Seq::<Stake>::empty(), Stake { owner: collator, amount });
            crate::set::lemma_index_of(Seq::<Stake>::empty(), collator);
            crate::seq_lib::lemma_first(Seq::<Stake>::empty(), |e: Stake| e.amount < amount);
            assert(delegations@ =~= seq![Stake { owner: collator, amount }]);
            assert(spec_sum(Seq::<Stake>::empty()) == 0);
        }
        Delegator { delegations, total: amount }
    }

    /// A copy of the delegator.
    pub fn clone_delegator(&self) -> (r: Delegator)
        ensures
            r@ == self@,
    {
        Delegator { delegations: self.delegations.clone_set(), total: self.total }
    }

    /// Replaces the delegation to the candidate that `stake` names, or adds
    /// it; `Overflow` if the total no longer fits.
    pub fn set_delegation(&mut self, stake: Stake) -> (r: Result<(), Error>)
        requires
            old(self).wf(),
        ensures
            final(self).wf(),
            spec_sum(spec_insert(old(self)@.delegations, stake)) <= u128::MAX ==> r == Ok::<
                (),
                Error,
            >(()) && final(self)@ == (DelegatorView {
                delegations: spec_insert(old(self)@.delegations, stake),
                total: spec_sum(spec_insert(old(self)@.delegations, stake)) as Balance,
            }),
            spec_sum(spec_insert(old(self)@.delegations, stake)) > u128::MAX ==> r == Err::<
                (),
                Error,
            >(Error::Overflow) && final(self)@ == old(self)@,
    {
        proof {
            lemma_insert(self.delegations@, stake);
            lemma_sum_bounds(self.delegations@);
            crate::set::lemma_index_of(self.delegations@, stake.owner);
        }
        let before = match self.delegations.find(stake.owner) {
            Some(s) => s.amount,
            None => 0,
        };
        let rest = self.total - before;
        if stake.amount > u128::MAX - rest {
            Err(Error::Overflow)
        } else {
            self.delegations.insert(stake);
            self.total = rest + stake.amount;
            Ok(())
        }
    }

    /// Drops the delegation to `collator` and answers with its amount.
    pub fn rm_delegation(&mut self, collator: AccountId) -> (r: Option<Balance>)
        requires
            old(self).wf(),
        ensures
            final(self).wf(),
            final(self)@ == (DelegatorView {
                delegations: spec_remove(old(self)@.delegations, collator),
                total: spec_sum(spec_remove(old(self)@.delegations, collator)) as Balance,
            }),
            r == if spec_contains(old(self)@.delegations, collator) {
                Some(
                    old(self)@.delegations[spec_index_of(old(self)@.delegations, collator)].amount,
                )
            } else {
                None
            },
    {
        proof {
            lemma_remove(self.delegations@, collator);
            lemma_sum_bounds(self.delegations@);
            crate::set::lemma_index_of(self.delegations@, collator);
        }
        match self.delegations.remove(collator) {
            Some(s) => {
                self.total = self.total - s.amount;
                Some(s.amount)
            },
            None => None,
        }
    }
}

} // verus!
