//! The state of the staking engine and what is always true of it.

use vstd::prelude::*;
use crate::account_map::AccountMap;
use crate::error::Error;
use crate::seq_lib::spec_prefix_sum;
use crate::set::{
    lemma_index_of, lemma_index_of_at, lemma_insert, lemma_insert_bounded, lemma_insert_shape,
    lemma_remove, lemma_remove_wf, lemma_sum_bounds, spec_contains, spec_index_of,
    spec_insert_bounded, spec_insert_bounded_result, spec_remove, spec_wf, AccountId, Balance,
    BoundedInsertError, OrderedSet, Stake,
};
use crate::tally::{
    lemma_tally_is, spec_descending, spec_tally, spec_tally_of, tally_insert, tally_remove,
};
use crate::types::{
    Candidate, CandidateView, DelegationCounter, Delegator, DelegatorView, Event, RoundIndex,
    RoundInfo, TotalStake,
};
use crate::unstaking::{spec_ledger_wf, BlockNumber, UnstakeEntry, UnstakingLedger};

verus! {

/// The fixed parameters of the engine.
#[derive(Clone, Copy, Debug, PartialEq, Eq, Structural)]
pub struct Config {
    /// Shortest round that can be set.
    pub min_blocks_per_round: BlockNumber,
    /// Length of a round at genesis.
    pub default_blocks_per_round: BlockNumber,
    /// Number of blocks for which unstaked funds stay locked.
    pub stake_duration: BlockNumber,
    /// Number of rounds between a request to leave and the exit.
    pub exit_queue_delay: RoundIndex,
    /// Least number of selected candidates, and of top candidates that must
    /// remain when one leaves.
    pub min_collators: u32,
    /// How often a delegator may delegate in one round.
    pub max_delegations_per_round: u32,
    /// How many delegators a candidate may have.
    pub max_delegators_per_collator: u32,
    /// How many candidates a delegator may back.
    pub max_collators_per_delegator: u32,
    /// Length of the list of top candidates.
    pub max_top_candidates: u32,
    /// Least stake of a candidate.
    pub min_collator_candidate_stake: Balance,
    /// Least amount of a single delegation.
    pub min_delegation: Balance,
    /// Least total stake of a delegator.
    pub min_delegator_stake: Balance,
    /// How many entries an unstaking backlog may hold.
    pub max_unstake_requests: u32,
    /// What a database read and a database write cost.
    pub db_weight: crate::weights::RuntimeDbWeight,
}

/// A block author and the number of blocks it authored in the session.
#[derive(Clone, Copy, Debug, PartialEq, Eq, Structural)]
pub struct AuthorBlocks {
    pub author: AccountId,
    pub blocks: u32,
}

/// The state of the engine as contracts speak of it.
pub struct StakingState {
    pub config: Config,
    pub block_number: BlockNumber,
    pub max_selected_candidates: u32,
    pub max_candidate_stake: Balance,
    pub round: RoundInfo,
    pub new_round_forced: bool,
    pub candidate_pool: Map<AccountId, CandidateView>,
    pub delegator_state: Map<AccountId, DelegatorView>,
    pub unstaking: Map<AccountId, Seq<UnstakeEntry>>,
    pub last_delegation: Map<AccountId, DelegationCounter>,
    pub collator_blocks: Seq<AuthorBlocks>,
    pub top_candidates: Seq<Stake>,
    pub total_collator_stake: TotalStake,
    pub events: Seq<Event>,
}

/// The own stake of the candidate `owner`; nothing for a stranger.
pub open spec fn spec_stake_of(pool: Map<AccountId, CandidateView>, owner: AccountId) -> int {
    if pool.dom().contains(owner) {
        pool[owner].stake as int
    } else {
        0
    }
}

/// The own stakes of the listed candidates, in the order of the list.
pub open spec fn spec_self_stakes(pool: Map<AccountId, CandidateView>, top: Seq<Stake>) -> Seq<int> {
    Seq::new(top.len(), |i: int| spec_stake_of(pool, top[i].owner))
}

/// The total stakes of the listed candidates, in the order of the list.
pub open spec fn spec_amounts(top: Seq<Stake>) -> Seq<int> {
    Seq::new(top.len(), |i: int| top[i].amount as int)
}

/// Sum of the total stakes of the first `n` listed candidates.
pub open spec fn spec_selected_total(top: Seq<Stake>, n: int) -> int {
    spec_prefix_sum(spec_amounts(top), n)
}

/// The stake behind the first `n` listed candidates, split into their own
/// and what is delegated to them.
pub open spec fn spec_total_stake_of(
    pool: Map<AccountId, CandidateView>,
    top: Seq<Stake>,
    n: int,
) -> TotalStake {
    spec_tally_of(spec_self_stakes(pool, top), spec_amounts(top), n)
}

/// The selected candidates: the owners of the first `n` entries of the list.
pub open spec fn spec_selected(top: Seq<Stake>, n: int) -> Seq<AccountId> {
    Seq::new(
        if n < top.len() { n as nat } else { top.len() },
        |i: int| top[i].owner,
    )
}

/// Every candidate is well formed, stored under its own id, within the
/// limit on delegators, and does not delegate to itself.
pub open spec fn spec_pool_wf(pool: Map<AccountId, CandidateView>, config: Config) -> bool {
    forall|id: AccountId| #[trigger]
        pool.dom().contains(id) ==> {
            &&& pool[id].wf()
            &&& pool[id].id == id
            &&& pool[id].delegators.len() <= config.max_delegators_per_collator
            &&& !spec_contains(pool[id].delegators, id)
        }
}

/// Each listed entry is an active candidate with its total stake, of which
/// its own stake is a part.
pub open spec fn spec_top_entries_ok(pool: Map<AccountId, CandidateView>, top: Seq<Stake>) -> bool {
    forall|i: int|
        0 <= i < top.len() ==> {
            &&& pool.dom().contains((#[trigger] top[i]).owner)
            &&& pool[top[i].owner].total == top[i].amount
            &&& pool[top[i].owner].stake <= top[i].amount
            &&& pool[top[i].owner].is_active()
        }
}

/// The list of top candidates is an ordered set within its limit, and each
/// entry is an active candidate with its total stake.
pub open spec fn spec_top_wf(
    pool: Map<AccountId, CandidateView>,
    top: Seq<Stake>,
    config: Config,
) -> bool {
    &&& spec_wf(top)
    &&& top.len() <= config.max_top_candidates
    &&& spec_top_entries_ok(pool, top)
}

/// Every delegator is well formed and is no candidate.
pub open spec fn spec_delegators_wf(
    delegators: Map<AccountId, DelegatorView>,
    pool: Map<AccountId, CandidateView>,
) -> bool {
    forall|id: AccountId| #[trigger]
        delegators.dom().contains(id) ==> delegators[id].wf() && !pool.dom().contains(id)
}

/// Every unstaking backlog that is kept is well formed and not empty.
pub open spec fn spec_unstaking_wf(unstaking: Map<AccountId, Seq<UnstakeEntry>>) -> bool {
    forall|id: AccountId| #[trigger]
        unstaking.dom().contains(id) ==> spec_ledger_wf(unstaking[id]) && unstaking[id].len() > 0
}

/// The backlog that `unstaking` holds for `who`; empty if it holds none.
pub open spec fn spec_ledger_in(unstaking: Map<AccountId, Seq<UnstakeEntry>>, who: AccountId) -> Seq<
    UnstakeEntry,
> {
    if unstaking.dom().contains(who) {
        unstaking[who]
    } else {
        Seq::empty()
    }
}

/// The backlogs with `ledger` as that of `who`. An empty backlog is not
/// kept.
pub open spec fn spec_put_ledger(
    unstaking: Map<AccountId, Seq<UnstakeEntry>>,
    who: AccountId,
    ledger: Seq<UnstakeEntry>,
) -> Map<AccountId, Seq<UnstakeEntry>> {
    if ledger.len() == 0 {
        unstaking.remove(who)
    } else {
        unstaking.insert(who, ledger)
    }
}

/// Putting back the backlog that an account had undoes whatever was put in
/// its place.
pub proof fn lemma_put_back(
    unstaking: Map<AccountId, Seq<UnstakeEntry>>,
    who: AccountId,
    ledger: Seq<UnstakeEntry>,
)
    requires
        spec_unstaking_wf(unstaking),
    ensures
        spec_put_ledger(
            spec_put_ledger(unstaking, who, ledger),
            who,
            spec_ledger_in(unstaking, who),
        ) == unstaking,
{
    assert(spec_put_ledger(
        spec_put_ledger(unstaking, who, ledger),
        who,
        spec_ledger_in(unstaking, who),
    ) =~= unstaking);
}

impl StakingState {
    /// The selected candidates of this state.
    pub open spec fn selected_candidates(self) -> Seq<AccountId> {
        spec_selected(self.top_candidates, self.max_selected_candidates as int)
    }

    /// What is true of every state that the engine reaches.
    pub open spec fn wf(self) -> bool {
        &&& spec_pool_wf(self.candidate_pool, self.config)
        &&& spec_top_wf(self.candidate_pool, self.top_candidates, self.config)
        &&& spec_selected_total(self.top_candidates, self.max_selected_candidates as int)
            <= u128::MAX
        &&& self.total_collator_stake == spec_total_stake_of(
            self.candidate_pool,
            self.top_candidates,
            self.max_selected_candidates as int,
        )
        &&& spec_delegators_wf(self.delegator_state, self.candidate_pool)
        &&& spec_unstaking_wf(self.unstaking)
    }

    /// The state with `event` reported.
    pub open spec fn with_event(self, event: Event) -> StakingState {
        StakingState { events: self.events.push(event), ..self }
    }
}

/// The staking engine: candidates, delegators, unstaking backlogs, the
/// list of top candidates and the round.
#[derive(Debug)]
pub struct StakePallet {
    pub config: Config,
    /// The block that is being executed.
    pub block_number: BlockNumber,
    /// How many of the top candidates are selected.
    pub max_selected_candidates: u32,
    /// The highest stake a candidate may have.
    pub max_candidate_stake: Balance,
    pub round: RoundInfo,
    /// Whether a new round starts with the next block, whatever its number.
    pub new_round_forced: bool,
    pub candidate_pool: AccountMap<Candidate>,
    pub delegator_state: AccountMap<Delegator>,
    pub unstaking: AccountMap<UnstakingLedger>,
    pub last_delegation: AccountMap<DelegationCounter>,
    /// Who authored how many blocks in the running session.
    pub collator_blocks: Vec<AuthorBlocks>,
    /// The active candidates with the highest total stake, highest first.
    pub top_candidates: OrderedSet,
    /// The stake behind the selected candidates.
    pub total_collator_stake: TotalStake,
    /// What the engine has reported so far.
    pub events: Vec<Event>,
}

impl View for StakePallet {
    type V = StakingState;

    open spec fn view(&self) -> StakingState {
        StakingState {
            config: self.config,
            block_number: self.block_number,
            max_selected_candidates: self.max_selected_candidates,
            max_candidate_stake: self.max_candidate_stake,
            round: self.round,
            new_round_forced: self.new_round_forced,
            candidate_pool: self.candidate_pool@,
            delegator_state: self.delegator_state@,
            unstaking: self.unstaking@,
            last_delegation: self.last_delegation@,
            collator_blocks: self.collator_blocks@,
            top_candidates: self.top_candidates@,
            total_collator_stake: self.total_collator_stake,
            events: self.events@,
        }
    }
}

/// A list of top candidates and the total stake that goes with it, worked
/// out but not yet put in place.
pub struct TopPlan {
    pub top: OrderedSet,
    pub total: TotalStake,
    /// What became of the candidate's entry.
    pub outcome: Result<bool, BoundedInsertError>,
}

/// The own stakes and totals of a list of top candidates tally with their
/// sum as the state holds it.
pub proof fn lemma_state_tally(s: StakingState)
    requires
        s.wf(),
    ensures
        spec_tally(
            spec_self_stakes(s.candidate_pool, s.top_candidates),
            spec_amounts(s.top_candidates),
            s.max_selected_candidates as int,
            s.total_collator_stake,
        ),
        spec_descending(spec_amounts(s.top_candidates)),
{
    let selfs = spec_self_stakes(s.candidate_pool, s.top_candidates);
    let amounts = spec_amounts(s.top_candidates);
    let n = s.max_selected_candidates as int;
    assert forall|i: int| 0 <= i < selfs.len() implies 0 <= #[trigger] selfs[i] <= amounts[i] by {
        let e = s.top_candidates[i];
        assert(s.candidate_pool.dom().contains(e.owner));
    }
    crate::seq_lib::lemma_prefix_sum_le(selfs, amounts, n);
    crate::seq_lib::lemma_prefix_sum_bounds(selfs, n);
    assert forall|i: int, j: int| 0 <= i < j < amounts.len() implies amounts[i] >= amounts[j] by {
        assert(s.top_candidates[i].amount >= s.top_candidates[j].amount);
    }
}

/// Taking an entry out of the list takes its own stake and its total out
/// of the two lists that go with it; what stays is still in order and
/// still matches the pool.
pub proof fn lemma_top_remove(pool: Map<AccountId, CandidateView>, top: Seq<Stake>, p: int)
    requires
        spec_wf(top),
        spec_top_entries_ok(pool, top),
        0 <= p < top.len(),
    ensures
        spec_wf(top.remove(p)),
        spec_top_entries_ok(pool, top.remove(p)),
        spec_self_stakes(pool, top.remove(p)) == spec_self_stakes(pool, top).remove(p),
        spec_amounts(top.remove(p)) == spec_amounts(top).remove(p),
        !spec_contains(top.remove(p), top[p].owner),
        forall|o: AccountId| !spec_contains(top, o) ==> !spec_contains(top.remove(p), o),
{
    let t1 = top.remove(p);
    lemma_remove_wf(top, p);
    assert forall|i: int| 0 <= i < t1.len() implies {
        &&& pool.dom().contains((#[trigger] t1[i]).owner)
        &&& pool[t1[i].owner].total == t1[i].amount
        &&& pool[t1[i].owner].stake <= t1[i].amount
        &&& pool[t1[i].owner].is_active()
    } by {
        let k = if i < p { i } else { i + 1 };
        assert(t1[i] == top[k]);
    }
    assert(spec_self_stakes(pool, t1) =~= spec_self_stakes(pool, top).remove(p));
    assert(spec_amounts(t1) =~= spec_amounts(top).remove(p));
    assert forall|o: AccountId| !spec_contains(top, o) implies !spec_contains(t1, o) by {
        lemma_index_of(top, o);
        lemma_index_of(t1, o);
        let f = spec_index_of(t1, o);
        if f < t1.len() {
            let k = if f < p { f } else { f + 1 };
            assert(t1[f] == top[k]);
            lemma_index_of_at(top, k);
        }
    }
}

/// Putting the entry of a candidate into a list that does not have it puts
/// its own stake and its total into the two lists that go with it; the new
/// list matches the pool once the pool holds the candidate.
pub proof fn lemma_top_insert(
    pool: Map<AccountId, CandidateView>,
    top: Seq<Stake>,
    q: int,
    after: CandidateView,
)
    requires
        spec_wf(top),
        spec_top_entries_ok(pool, top),
        !spec_contains(top, after.id),
        0 <= q <= top.len(),
        after.is_active(),
        after.stake <= after.total,
    ensures
        spec_top_entries_ok(
            pool.insert(after.id, after),
            top.insert(q, Stake { owner: after.id, amount: after.total }),
        ),
        spec_self_stakes(
            pool.insert(after.id, after),
            top.insert(q, Stake { owner: after.id, amount: after.total }),
        ) == spec_self_stakes(pool, top).insert(q, after.stake as int),
        spec_amounts(top.insert(q, Stake { owner: after.id, amount: after.total })) == spec_amounts(
            top,
        ).insert(q, after.total as int),
{
    let pool2 = pool.insert(after.id, after);
    let stake = Stake { owner: after.id, amount: after.total };
    let t2 = top.insert(q, stake);
    lemma_index_of(top, after.id);
    assert forall|i: int| 0 <= i < top.len() implies (#[trigger] top[i]).owner != after.id by {}
    assert forall|i: int| 0 <= i < t2.len() implies {
        &&& pool2.dom().contains((#[trigger] t2[i]).owner)
        &&& pool2[t2[i].owner].total == t2[i].amount
        &&& pool2[t2[i].owner].stake <= t2[i].amount
        &&& pool2[t2[i].owner].is_active()
    } by {
        if i != q {
            let k = if i < q { i } else { i - 1 };
            assert(t2[i] == top[k]);
        }
    }
    assert forall|i: int| 0 <= i < t2.len() implies #[trigger] spec_self_stakes(pool2, t2)[i]
        == spec_self_stakes(pool, top).insert(q, after.stake as int)[i] by {
        if i != q {
            let k = if i < q { i } else { i - 1 };
            assert(t2[i] == top[k]);
        }
    }
    assert(spec_self_stakes(pool2, t2) =~= spec_self_stakes(pool, top).insert(q, after.stake as int));
    assert(spec_amounts(t2) =~= spec_amounts(top).insert(q, after.total as int));
}

/// A pool that changes only at an account that is not listed leaves the
/// list matching.
pub proof fn lemma_top_unlisted(
    pool: Map<AccountId, CandidateView>,
    top: Seq<Stake>,
    pool2: Map<AccountId, CandidateView>,
    id: AccountId,
)
    requires
        spec_top_entries_ok(pool, top),
        !spec_contains(top, id),
        forall|o: AccountId| o != id ==> pool2.dom().contains(o) == pool.dom().contains(o),
        forall|o: AccountId| o != id && pool.dom().contains(o) ==> pool2[o] == pool[o],
    ensures
        spec_top_entries_ok(pool2, top),
        spec_self_stakes(pool2, top) == spec_self_stakes(pool, top),
{
    lemma_index_of(top, id);
    assert forall|i: int| 0 <= i < top.len() implies (#[trigger] top[i]).owner != id by {}
    assert forall|i: int| 0 <= i < top.len() implies {
        &&& pool2.dom().contains((#[trigger] top[i]).owner)
        &&& pool2[top[i].owner].total == top[i].amount
        &&& pool2[top[i].owner].stake <= top[i].amount
        &&& pool2[top[i].owner].is_active()
    } by {
        assert(pool.dom().contains(top[i].owner));
    }
    assert(spec_self_stakes(pool2, top) =~= spec_self_stakes(pool, top));
}

impl StakePallet {
    /// The parts hold together, and the state is one that the engine
    /// reaches.
    pub open spec fn wf(&self) -> bool {
        &&& self.candidate_pool.wf()
        &&& self.delegator_state.wf()
        &&& self.unstaking.wf()
        &&& self.last_delegation.wf()
        &&& self@.wf()
    }

    /// The own stake of the candidate `owner`; nothing for a stranger.
    pub(crate) fn stake_of(&self, owner: AccountId) -> (r: Balance)
        requires
            self.candidate_pool.wf(),
        ensures
            r == spec_stake_of(self@.candidate_pool, owner),
    {
        match self.candidate_pool.get(owner) {
            Some(c) => c.stake,
            None => 0,
        }
    }

    /// The own stake and the total of the entry at position `i` of `top`.
    fn entry_at(&self, top: &OrderedSet, i: usize) -> (r: Option<(Balance, Balance)>)
        requires
            self.candidate_pool.wf(),
        ensures
            r == if i < top@.len() {
                Some(
                    (
                        spec_stake_of(self@.candidate_pool, top@[i as int].owner) as Balance,
                        top@[i as int].amount,
                    ),
                )
            } else {
                None
            },
    {
        match top.get(i) {
            Some(e) => Some((self.stake_of(e.owner), e.amount)),
            None => None,
        }
    }

    /// The total stake that goes with the list `top`, which comes from the
    /// list `t0` with total stake `ts0` by taking out the entry at
    /// `removal`, if any, and putting in the entry of the active candidate
    /// `after`. `pool` is the pool that `t0` matches; it has the own stakes
    /// of the engine's pool.
    fn plan_tally(
        &self,
        t0: &OrderedSet,
        ts0: TotalStake,
        top: &OrderedSet,
        removal: Option<usize>,
        after: &Candidate,
        Ghost(pool): Ghost<Map<AccountId, CandidateView>>,
    ) -> (r: Result<TotalStake, Error>)
        requires
            self.candidate_pool.wf(),
            after.wf(),
            after@.is_active(),
            spec_wf(t0@),
            spec_top_entries_ok(pool, t0@),
            spec_tally(
                spec_self_stakes(pool, t0@),
                spec_amounts(t0@),
                self@.max_selected_candidates as int,
                ts0,
            ),
            forall|o: AccountId| spec_stake_of(pool, o) == spec_stake_of(self@.candidate_pool, o),
            match removal {
                Some(p) => p < t0@.len() && !spec_contains(t0@.remove(p as int), after@.id) && top@
                    == t0@.remove(p as int).insert(
                    spec_index_of(top@, after@.id),
                    Stake { owner: after@.id, amount: after@.total },
                ),
                None => !spec_contains(t0@, after@.id) && top@ == t0@.insert(
                    spec_index_of(top@, after@.id),
                    Stake { owner: after@.id, amount: after@.total },
                ),
            },
            0 <= spec_index_of(top@, after@.id) < top@.len(),
            top@.len() == t0@.len() + if removal.is_some() { 0int } else { 1int },
        ensures
            spec_top_entries_ok(pool.insert(after@.id, after@), top@),
            match r {
                Ok(t) => spec_tally(
                    spec_self_stakes(pool.insert(after@.id, after@), top@),
                    spec_amounts(top@),
                    self@.max_selected_candidates as int,
                    t,
                ),
                Err(e) => e == Error::Overflow && spec_selected_total(
                    top@,
                    self@.max_selected_candidates as int,
                ) > u128::MAX,
            },
    {
        let n = self.max_selected_candidates as usize;
        let ghost t1 = match removal {
            Some(p) => t0@.remove(p as int),
            None => t0@,
        };
        proof {
            lemma_sum_bounds(after@.delegators);
        }
        // the entry that is at position n - 1 once the removal is done
        let leaving = if n == 0 {
            None
        } else {
            match removal {
                Some(p) => if n - 1 < p {
                    self.entry_at(t0, n - 1)
                } else {
                    self.entry_at(t0, n)
                },
                None => self.entry_at(t0, n - 1),
            }
        };
        let ts1 = match removal {
            Some(p) => {
                let removed = self.entry_at(t0, p).unwrap();
                let entering = if p < n {
                    self.entry_at(t0, n)
                } else {
                    None
                };
                proof {
                    lemma_top_remove(pool, t0@, p as int);
                    assert(spec_descending(spec_amounts(t0@))) by {
                        assert forall|i: int, j: int| 0 <= i < j < t0@.len() implies spec_amounts(
                            t0@,
                        )[i] >= spec_amounts(t0@)[j] by {
                            assert(t0@[i].amount >= t0@[j].amount);
                        }
                    }
                }
                tally_remove(
                    ts0,
                    n,
                    p,
                    removed,
                    entering,
                    Ghost(spec_self_stakes(pool, t0@)),
                    Ghost(spec_amounts(t0@)),
                )
            },
            None => ts0,
        };
        let q = top.position(after.id).unwrap();
        proof {
            lemma_top_insert(pool, t1, q as int, after@);
            if n >= 1 && n - 1 < t1.len() {
                if removal.is_some() && n - 1 >= removal.unwrap() {
                    assert(t1[n - 1] == t0@[n as int]);
                } else {
                    assert(t1[n - 1] == t0@[n - 1]);
                }
            }
        }
        tally_insert(
            ts1,
            n,
            q,
            (after.stake, after.total),
            leaving,
            Ghost(spec_self_stakes(pool, t1)),
            Ghost(spec_amounts(t1)),
        )
    }

    /// Works out the list of top candidates and the total stake for the
    /// case that the active candidate `after` takes the place of what the
    /// pool holds under its id. `t0` is the list and `ts0` the total stake
    /// to start from, `pool` the pool that they match; it has the own
    /// stakes of the engine's pool.
    pub(crate) fn plan_top_entry(
        &self,
        t0: &OrderedSet,
        ts0: TotalStake,
        after: &Candidate,
        Ghost(pool): Ghost<Map<AccountId, CandidateView>>,
    ) -> (r: Result<TopPlan, Error>)
        requires
            self.candidate_pool.wf(),
            after.wf(),
            after@.is_active(),
            spec_top_wf(pool, t0@, self@.config),
            spec_tally(
                spec_self_stakes(pool, t0@),
                spec_amounts(t0@),
                self@.max_selected_candidates as int,
                ts0,
            ),
            forall|o: AccountId| spec_stake_of(pool, o) == spec_stake_of(self@.candidate_pool, o),
        ensures
            match r {
                Ok(plan) => {
                    &&& plan.top@ == spec_insert_bounded(
                        t0@,
                        Stake { owner: after@.id, amount: after@.total },
                        self@.config.max_top_candidates as int,
                    )
                    &&& plan.outcome == spec_insert_bounded_result(
                        t0@,
                        Stake { owner: after@.id, amount: after@.total },
                        self@.config.max_top_candidates as int,
                    )
                    &&& spec_tally(
                        spec_self_stakes(pool.insert(after@.id, after@), plan.top@),
                        spec_amounts(plan.top@),
                        self@.max_selected_candidates as int,
                        plan.total,
                    )
                    &&& plan.total == spec_total_stake_of(
                        pool.insert(after@.id, after@),
                        plan.top@,
                        self@.max_selected_candidates as int,
                    )
                    &&& spec_top_wf(pool.insert(after@.id, after@), plan.top@, self@.config)
                },
                Err(e) => {
                    &&& e == Error::Overflow
                    &&& spec_selected_total(
                        spec_insert_bounded(
                            t0@,
                            Stake { owner: after@.id, amount: after@.total },
                            self@.config.max_top_candidates as int,
                        ),
                        self@.max_selected_candidates as int,
                    ) > u128::MAX
                },
            },
    {
        let stake = Stake { owner: after.id, amount: after.total };
        let cap = self.config.max_top_candidates as usize;
        let mut top = t0.clone_set();
        let len = top.len();
        let ghost pool2 = pool.insert(after@.id, after@);
        proof {
            lemma_index_of(t0@, after@.id);
            lemma_insert_bounded(t0@, stake, cap as int);
        }
        let before = top.position(after.id);
        let outcome = top.try_insert_bounded(stake, cap);
        let removal: Option<usize> = match outcome {
            Ok(_) => before,
            Err(BoundedInsertError::Evicted(_)) => Some(len - 1),
            Err(BoundedInsertError::Rejected) => {
                proof {
                    lemma_top_unlisted(pool, t0@, pool2, after@.id);
                    lemma_tally_is(
                        spec_self_stakes(pool2, t0@),
                        spec_amounts(t0@),
                        self@.max_selected_candidates as int,
                        ts0,
                    );
                }
                return Ok(TopPlan { top, total: ts0, outcome });
            },
        };
        proof {
            lemma_insert(t0@, stake);
            match removal {
                Some(p) => {
                    if before.is_some() {
                        lemma_insert_shape(t0@, stake);
                        lemma_remove_wf(t0@, p as int);
                    } else {
                        lemma_insert(t0@.drop_last(), stake);
                        let t1 = t0@.drop_last();
                        assert(t1 =~= t0@.remove(p as int));
                        lemma_top_remove(pool, t0@, p as int);
                        lemma_insert_shape(t1, stake);
                        lemma_index_of(t1, after@.id);
                    }
                },
                None => {
                    lemma_insert_shape(t0@, stake);
                },
            }
        }
        match self.plan_tally(t0, ts0, &top, removal, after, Ghost(pool)) {
            Ok(total) => {
                proof {
                    lemma_tally_is(
                        spec_self_stakes(pool2, top@),
                        spec_amounts(top@),
                        self@.max_selected_candidates as int,
                        total,
                    );
                }
                Ok(TopPlan { top, total, outcome })
            },
            Err(e) => Err(e),
        }
    }

    /// Works out the list of top candidates and the total stake for the
    /// case that the candidate `id` leaves the list.
    pub(crate) fn plan_top_exit(&self, id: AccountId) -> (r: TopPlan)
        requires
            self.wf(),
        ensures
            r.top@ == spec_remove(self@.top_candidates, id),
            r.outcome == Ok::<bool, BoundedInsertError>(spec_contains(self@.top_candidates, id)),
            spec_selected_total(r.top@, self@.max_selected_candidates as int) <= u128::MAX,
            r.total == spec_total_stake_of(
                self@.candidate_pool,
                r.top@,
                self@.max_selected_candidates as int,
            ),
            spec_wf(r.top@),
            r.top@.len() <= self@.top_candidates.len(),
            spec_top_entries_ok(self@.candidate_pool, r.top@),
            !spec_contains(r.top@, id),
    {
        let n = self.max_selected_candidates as usize;
        let mut top = self.top_candidates.clone_set();
        let len = top.len();
        let ts = self.total_collator_stake;
        let ghost pool = self@.candidate_pool;
        let ghost t0 = self@.top_candidates;
        let ghost selfs = spec_self_stakes(pool, t0);
        let ghost amounts = spec_amounts(t0);
        proof {
            lemma_state_tally(self@);
            lemma_index_of(t0, id);
            lemma_remove(t0, id);
            lemma_tally_is(selfs, amounts, n as int, ts);
        }
        match top.position(id) {
            Some(p) => {
                let removed = top.get(p).unwrap();
                let removed_self = self.stake_of(removed.owner);
                let entering = if p < n && n < len {
                    let e = top.get(n).unwrap();
                    Some((self.stake_of(e.owner), e.amount))
                } else {
                    None
                };
                let total = tally_remove(
                    ts,
                    n,
                    p,
                    (removed_self, removed.amount),
                    entering,
                    Ghost(selfs),
                    Ghost(amounts),
                );
                top.remove(id);
                proof {
                    let t1 = top@;
                    assert(t1 == t0.remove(p as int));
                    assert(selfs.remove(p as int) =~= spec_self_stakes(pool, t1));
                    assert(amounts.remove(p as int) =~= spec_amounts(t1));
                    lemma_tally_is(
                        spec_self_stakes(pool, t1),
                        spec_amounts(t1),
                        n as int,
                        total,
                    );
                    lemma_top_remove(pool, t0, p as int);
                }
                TopPlan { top, total, outcome: Ok(true) }
            },
            None => TopPlan { top, total: ts, outcome: Ok(false) },
        }
    }
}

} // verus!
