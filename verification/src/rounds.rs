//! Rounds and sessions: who authored, when a round ends, what the session
//! pays, and the settings that governance may change.

use vstd::prelude::*;
use crate::arithmetic::Permill;
use crate::error::Error;
use crate::rewards::{
    get_collator_reward_per_session, get_delgators_reward_per_session, spec_collator_reward,
    spec_delegator_reward,
};
use crate::seq_lib::{
    lemma_first_is, lemma_prefix_sum_bounds, lemma_prefix_sum_full, spec_first, spec_prefix_sum,
};
use crate::set::{AccountId, Balance};
use crate::state::{
    lemma_state_tally, spec_amounts, spec_selected_total, spec_self_stakes, spec_total_stake_of,
    AuthorBlocks, StakePallet, StakingState,
};
use crate::types::{CandidateView, Event, Reward, RoundInfo, TotalStake};
use crate::unstaking::BlockNumber;
use crate::weights::Weight;

verus! {

/// The test for being the entry of `author`.
pub open spec fn spec_is_author(author: AccountId) -> spec_fn(AuthorBlocks) -> bool {
    |b: AuthorBlocks| b.author == author
}

/// Where `author` stands in the record of authored blocks, or its length.
pub open spec fn spec_author_index(blocks: Seq<AuthorBlocks>, author: AccountId) -> int {
    spec_first(blocks, spec_is_author(author))
}

/// How many blocks `author` has authored according to the record.
pub open spec fn spec_blocks_of(blocks: Seq<AuthorBlocks>, author: AccountId) -> u32 {
    if spec_author_index(blocks, author) < blocks.len() {
        blocks[spec_author_index(blocks, author)].blocks
    } else {
        0
    }
}

/// The record after `author` has authored one more block. A new author
/// goes to the end; a count stops at the largest number.
pub open spec fn spec_note(blocks: Seq<AuthorBlocks>, author: AccountId) -> Seq<AuthorBlocks> {
    let i = spec_author_index(blocks, author);
    if i < blocks.len() {
        blocks.update(
            i,
            AuthorBlocks {
                author,
                blocks: if blocks[i].blocks == u32::MAX {
                    u32::MAX
                } else {
                    (blocks[i].blocks + 1) as u32
                },
            },
        )
    } else {
        blocks.push(AuthorBlocks { author, blocks: 1 })
    }
}

/// `blocks * total`, stopping at the largest balance.
pub open spec fn spec_weight_of(blocks: u32, total: Balance) -> Balance {
    if blocks * total > u128::MAX {
        u128::MAX
    } else {
        (blocks * total) as Balance
    }
}

/// Whether `author` is paid for its blocks: it is a candidate and has not
/// asked to leave.
pub open spec fn spec_earns(pool: Map<AccountId, CandidateView>, author: AccountId) -> bool {
    pool.dom().contains(author) && !pool[author].is_leaving()
}

/// Sum over the authors that are paid of the number of blocks times the
/// candidate's total stake. It stops at the largest balance.
pub open spec fn spec_staking_num(pool: Map<AccountId, CandidateView>, blocks: Seq<AuthorBlocks>) -> Balance
    decreases blocks.len(),
{
    if blocks.len() == 0 {
        0
    } else {
        let rest = spec_staking_num(pool, blocks.drop_last());
        let term = if spec_earns(pool, blocks.last().author) {
            spec_weight_of(blocks.last().blocks, pool[blocks.last().author].total)
        } else {
            0
        };
        if rest + term > u128::MAX {
            u128::MAX
        } else {
            (rest + term) as Balance
        }
    }
}

/// What a candidate and its delegators are paid: the candidate first, then
/// the delegators in the order of its delegator set.
pub open spec fn spec_candidate_rewards(c: CandidateView, blocks: u32, total: Balance, pot: Balance) -> Seq<
    Reward,
> {
    seq![
        Reward {
            owner: c.id,
            amount: spec_collator_reward(c.commission, c.stake, c.delegators, blocks, total, pot) as Balance,
        },
    ] + Seq::new(
        c.delegators.len(),
        |i: int|
            Reward {
                owner: c.delegators[i].owner,
                amount: spec_delegator_reward(c.commission, blocks, c.delegators[i].amount, total, pot) as Balance,
            },
    )
}

/// What the session pays: for each author that is paid, in the order of the
/// record, what the candidate and its delegators are paid. An author that
/// is no candidate any more, or is leaving, is paid nothing, and neither
/// are its delegators.
pub open spec fn spec_session_rewards(
    pool: Map<AccountId, CandidateView>,
    blocks: Seq<AuthorBlocks>,
    total: Balance,
    pot: Balance,
) -> Seq<Reward>
    decreases blocks.len(),
{
    if blocks.len() == 0 {
        Seq::empty()
    } else {
        let rest = spec_session_rewards(pool, blocks.drop_last(), total, pot);
        if spec_earns(pool, blocks.last().author) {
            rest + spec_candidate_rewards(
                pool[blocks.last().author],
                blocks.last().blocks,
                total,
                pot,
            )
        } else {
            rest
        }
    }
}

impl StakingState {
    /// The next round starts with the next block.
    pub open spec fn force_new_round(self) -> StakingState {
        StakingState { new_round_forced: true, ..self }
    }

    /// Rounds last `new` blocks from now on.
    pub open spec fn set_blocks_per_round(self, new: BlockNumber) -> Result<StakingState, Error> {
        if new < self.config.min_blocks_per_round {
            Err(Error::CannotSetBelowMin)
        } else {
            Ok(
                StakingState {
                    round: RoundInfo { length: new, ..self.round },
                    events: self.events.push(
                        Event::BlocksPerRoundSet(
                            self.round.current,
                            self.round.first,
                            self.round.length,
                            new,
                        ),
                    ),
                    ..self
                },
            )
        }
    }

    /// The first `new` of the top candidates are selected from now on.
    pub open spec fn set_max_selected_candidates(self, new: u32) -> Result<StakingState, Error> {
        if new < self.config.min_collators {
            Err(Error::CannotSetBelowMin)
        } else if new > self.config.max_top_candidates {
            Err(Error::CannotSetAboveMax)
        } else if spec_selected_total(self.top_candidates, new as int) > u128::MAX {
            Err(Error::Overflow)
        } else {
            Ok(
                StakingState {
                    max_selected_candidates: new,
                    total_collator_stake: spec_total_stake_of(
                        self.candidate_pool,
                        self.top_candidates,
                        new as int,
                    ),
                    events: self.events.push(
                        Event::MaxSelectedCandidatesSet(self.max_selected_candidates, new),
                    ),
                    ..self
                },
            )
        }
    }

    /// Whether some candidate has more than `limit` of its own at stake.
    pub open spec fn some_stake_above(self, limit: Balance) -> bool {
        exists|id: AccountId| #[trigger]
            self.candidate_pool.dom().contains(id) && self.candidate_pool[id].stake > limit
    }

    /// A candidate may have `new` of its own at stake from now on.
    pub open spec fn set_max_candidate_stake(self, new: Balance) -> Result<StakingState, Error> {
        if new < self.config.min_collator_candidate_stake {
            Err(Error::CannotSetBelowMin)
        } else if self.some_stake_above(new) {
            Err(Error::ValStakeAboveMax)
        } else {
            Ok(
                StakingState {
                    max_candidate_stake: new,
                    events: self.events.push(Event::MaxCandidateStakeChanged(new)),
                    ..self
                },
            )
        }
    }

    /// `author` has authored a block.
    pub open spec fn note_author(self, author: AccountId) -> StakingState {
        StakingState { collator_blocks: spec_note(self.collator_blocks, author), ..self }
    }

    /// Whether the round, and with it the session, ends at block `now`: its
    /// length has passed since its first block, or a new round is forced.
    pub open spec fn should_end_session(self, now: BlockNumber) -> bool {
        self.new_round_forced || self.round.spec_should_update(now)
    }

    /// What the session that ends now pays out of `pot`.
    pub open spec fn session_rewards(self, pot: Balance) -> Seq<Reward> {
        spec_session_rewards(
            self.candidate_pool,
            self.collator_blocks,
            spec_staking_num(self.candidate_pool, self.collator_blocks),
            pot,
        )
    }

    /// The state at the start of block `now`. At the end of a round the
    /// next round starts with this block and the record of authored blocks
    /// starts anew.
    pub open spec fn on_initialize(self, now: BlockNumber) -> StakingState {
        if self.should_end_session(now) {
            StakingState {
                block_number: now,
                round: self.round.spec_update(now),
                new_round_forced: false,
                collator_blocks: Seq::empty(),
                events: self.events.push(
                    Event::NewRound(now, self.round.spec_update(now).current),
                ),
                ..self
            }
        } else {
            StakingState { block_number: now, ..self }
        }
    }
}

/// What the start of a block brings.
pub struct BlockOutcome {
    /// Whether a new round has started with this block.
    pub new_round: bool,
    /// What the session that ended with the round pays.
    pub rewards: Vec<Reward>,
}

impl StakePallet {
    /// Makes the next round start with the next block, whatever its number.
    pub fn force_new_round(&mut self)
        requires
            old(self).wf(),
        ensures
            final(self).wf(),
            final(self)@ == old(self)@.force_new_round(),
    {
        self.new_round_forced = true;
    }

    /// Sets the length of a round; the running round is measured by the new
    /// length at once. A length below the minimum is turned down.
    pub fn set_blocks_per_round(&mut self, new: BlockNumber) -> (r: Result<(), Error>)
        requires
            old(self).wf(),
        ensures
            final(self).wf(),
            match r {
                Ok(()) => old(self)@.set_blocks_per_round(new) == Ok::<StakingState, Error>(
                    final(self)@,
                ),
                Err(e) => old(self)@.set_blocks_per_round(new) == Err::<StakingState, Error>(e)
                    && final(self)@ == old(self)@,
            },
    {
        if new < self.config.min_blocks_per_round {
            return Err(Error::CannotSetBelowMin);
        }
        let old_length = self.round.length;
        self.round.length = new;
        self.events.push(
            Event::BlocksPerRoundSet(self.round.current, self.round.first, old_length, new),
        );
        Ok(())
    }

    /// Sets how many of the top candidates are selected and works out the
    /// stake behind them anew.
    ///
    /// A number below the least number of collators or above the length of
    /// the list of top candidates is turned down, and so is one with which
    /// the stake behind the selected no longer fits a balance.
    pub fn set_max_selected_candidates(&mut self, new: u32) -> (r: Result<(), Error>)
        requires
            old(self).wf(),
        ensures
            final(self).wf(),
            match r {
                Ok(()) => old(self)@.set_max_selected_candidates(new) == Ok::<StakingState, Error>(
                    final(self)@,
                ),
                Err(e) => old(self)@.set_max_selected_candidates(new) == Err::<StakingState, Error>(
                    e,
                ) && final(self)@ == old(self)@,
            },
    {
        if new < self.config.min_collators {
            return Err(Error::CannotSetBelowMin);
        }
        if new > self.config.max_top_candidates {
            return Err(Error::CannotSetAboveMax);
        }
        let ghost pool = self@.candidate_pool;
        let ghost top = self@.top_candidates;
        let ghost selfs = spec_self_stakes(pool, top);
        let ghost amounts = spec_amounts(top);
        proof {
            lemma_state_tally(self@);
            assert forall|i: int| 0 <= i < amounts.len() implies 0 <= amounts[i] by {}
            lemma_prefix_sum_bounds(amounts, new as int);
            lemma_prefix_sum_bounds(selfs, new as int);
        }
        let len = self.top_candidates.len();
        let k = if (new as usize) < len { new as usize } else { len };
        let mut collators: Balance = 0;
        let mut all: Balance = 0;
        let mut i: usize = 0;
        while i < k
            invariant
                i <= k,
                k <= len,
                k <= new,
                len == top.len(),
                top == self@.top_candidates,
                pool == self@.candidate_pool,
                self.wf(),
                self@ == old(self)@,
                new >= self@.config.min_collators,
                new <= self@.config.max_top_candidates,
                selfs == spec_self_stakes(pool, top),
                amounts == spec_amounts(top),
                collators == spec_prefix_sum(selfs, i as int),
                all == spec_prefix_sum(amounts, i as int),
                collators <= all,
                forall|j: int| 0 <= j < selfs.len() ==> 0 <= #[trigger] selfs[j] <= amounts[j],
                forall|j: int| j <= new ==> spec_prefix_sum(amounts, j) <= spec_prefix_sum(
                    amounts,
                    new as int,
                ),
            decreases k - i,
        {
            let e = self.top_candidates.get(i).unwrap();
            let own = self.stake_of(e.owner);
            proof {
                assert(selfs[i as int] == own);
                assert(amounts[i as int] == e.amount);
                assert(spec_prefix_sum(amounts, i as int + 1) <= spec_prefix_sum(
                    amounts,
                    new as int,
                ));
            }
            if e.amount > u128::MAX - all {
                return Err(Error::Overflow);
            }
            all = all + e.amount;
            collators = collators + own;
            i += 1;
        }
        proof {
            if new as int > len {
                lemma_prefix_sum_full(selfs, new as int);
                lemma_prefix_sum_full(amounts, new as int);
            }
        }
        let before = self.max_selected_candidates;
        self.max_selected_candidates = new;
        self.total_collator_stake = TotalStake { collators, delegators: all - collators };
        self.events.push(Event::MaxSelectedCandidatesSet(before, new));
        Ok(())
    }

    /// Sets the highest stake a candidate may have of its own.
    ///
    /// A limit below the least stake of a candidate is turned down, and so
    /// is one that a candidate exceeds already.
    pub fn set_max_candidate_stake(&mut self, new: Balance) -> (r: Result<(), Error>)
        requires
            old(self).wf(),
        ensures
            final(self).wf(),
            match r {
                Ok(()) => old(self)@.set_max_candidate_stake(new) == Ok::<StakingState, Error>(
                    final(self)@,
                ),
                Err(e) => old(self)@.set_max_candidate_stake(new) == Err::<StakingState, Error>(e)
                    && final(self)@ == old(self)@,
            },
    {
        if new < self.config.min_collator_candidate_stake {
            return Err(Error::CannotSetBelowMin);
        }
        proof {
            self.candidate_pool.lemma_view();
        }
        let n = self.candidate_pool.len();
        let mut i: usize = 0;
        while i < n
            invariant
                i <= n,
                n == self.candidate_pool.spec_len(),
                self.wf(),
                self@ == old(self)@,
                new >= self@.config.min_collator_candidate_stake,
                forall|j: int| 0 <= j < i ==> (#[trigger] self.candidate_pool.values@[j])@.stake <= new,
            decreases n - i,
        {
            let c = self.candidate_pool.value_at(i);
            if c.stake > new {
                proof {
                    self.candidate_pool.lemma_view();
                    let id = self.candidate_pool.keys@[i as int];
                    assert(self@.candidate_pool.dom().contains(id));
                    assert(self@.candidate_pool[id].stake > new);
                }
                return Err(Error::ValStakeAboveMax);
            }
            i += 1;
        }
        proof {
            self.candidate_pool.lemma_view();
            if self@.some_stake_above(new) {
                let id = choose|id: AccountId| #[trigger]
                    self@.candidate_pool.dom().contains(id) && self@.candidate_pool[id].stake > new;
                let j = crate::account_map::spec_key_index(self.candidate_pool.keys@, id);
                assert(self.candidate_pool.keys@[j] == id);
                assert(self.candidate_pool.values@[j]@.stake <= new);
            }
        }
        self.max_candidate_stake = new;
        self.events.push(Event::MaxCandidateStakeChanged(new));
        Ok(())
    }

    /// Records that `author` has authored a block of the running session.
    pub fn note_author(&mut self, author: AccountId)
        requires
            old(self).wf(),
        ensures
            final(self).wf(),
            final(self)@ == old(self)@.note_author(author),
    {
        let i = self.author_index(author);
        if i < self.collator_blocks.len() {
            let b = self.collator_blocks[i];
            self.collator_blocks.set(
                i,
                AuthorBlocks { author, blocks: b.blocks.saturating_add(1) },
            );
        } else {
            self.collator_blocks.push(AuthorBlocks { author, blocks: 1 });
        }
    }

    /// Where `author` stands in the record of authored blocks.
    fn author_index(&self, author: AccountId) -> (r: usize)
        ensures
            r == spec_author_index(self@.collator_blocks, author),
            r <= self@.collator_blocks.len(),
    {
        let mut i: usize = 0;
        while i < self.collator_blocks.len() && self.collator_blocks[i].author != author
            invariant
                i <= self.collator_blocks.len(),
                forall|j: int| 0 <= j < i ==> (#[trigger] self.collator_blocks@[j]).author != author,
            decreases self.collator_blocks.len() - i,
        {
            i += 1;
        }
        proof {
            assert forall|j: int| 0 <= j < i implies !spec_is_author(author)(
                #[trigger] self.collator_blocks@[j],
            ) by {}
            lemma_first_is(self.collator_blocks@, spec_is_author(author), i as int);
        }
        i
    }

    /// How many blocks `author` has authored in the running session.
    pub fn collator_blocks(&self, author: AccountId) -> (r: u32)
        ensures
            r == spec_blocks_of(self@.collator_blocks, author),
    {
        let i = self.author_index(author);
        if i < self.collator_blocks.len() {
            self.collator_blocks[i].blocks
        } else {
            0
        }
    }

    /// Whether the session ends at block `now`.
    pub fn should_end_session(&self, now: BlockNumber) -> (r: bool)
        ensures
            r == self@.should_end_session(now),
    {
        self.new_round_forced || self.round.should_update(now)
    }

    /// How far the running round has come at block `now`: the blocks passed
    /// since its first as a fraction of its length.
    pub fn estimate_current_session_progress(&self, now: BlockNumber) -> (r: Option<Permill>)
        ensures
            r.is_some(),
            r.unwrap().wf(),
            r.unwrap().parts == crate::arithmetic::spec_from_rational(
                if now >= self@.round.first {
                    now - self@.round.first
                } else {
                    0
                },
                self@.round.length as int,
                crate::arithmetic::PERMILL_ACCURACY as int,
            ),
    {
        let passed = now.saturating_sub(self.round.first);
        Some(Permill::from_rational(passed, self.round.length))
    }

    /// The block at which the running round ends, whatever block `now` is;
    /// it stops at the largest block number.
    pub fn estimate_next_session_rotation(&self, now: BlockNumber) -> (r: Option<BlockNumber>)
        ensures
            r == Some(
                if self@.round.first + self@.round.length > u64::MAX {
                    u64::MAX
                } else {
                    (self@.round.first + self@.round.length) as BlockNumber
                },
            ),
    {
        Some(self.round.first.saturating_add(self.round.length))
    }

    /// The collators of a new session: the selected candidates.
    pub fn new_session(&self, new_index: u32) -> (r: Option<Vec<AccountId>>)
        ensures
            r.is_some(),
            r.unwrap()@ == self@.selected_candidates(),
    {
        Some(self.selected_candidates())
    }

    /// Sum over the authors of the running session that are paid of the
    /// number of their blocks times their total stake, and what it cost to
    /// read the candidates.
    pub fn get_total_collator_staking_num(&self) -> (r: (Weight, Balance))
        requires
            self.wf(),
        ensures
            r.1 == spec_staking_num(self@.candidate_pool, self@.collator_blocks),
            r.0 == self@.config.db_weight.spec_reads(self@.collator_blocks.len() as u64),
    {
        let mut total: Balance = 0;
        let n = self.collator_blocks.len();
        let mut i: usize = 0;
        proof {
            assert(self@.collator_blocks.subrange(0, 0) =~= Seq::<AuthorBlocks>::empty());
        }
        while i < n
            invariant
                i <= n,
                n == self@.collator_blocks.len(),
                self.wf(),
                total == spec_staking_num(
                    self@.candidate_pool,
                    self@.collator_blocks.subrange(0, i as int),
                ),
            decreases n - i,
        {
            let b = self.collator_blocks[i];
            proof {
                let next = self@.collator_blocks.subrange(0, i as int + 1);
                assert(next.drop_last() =~= self@.collator_blocks.subrange(0, i as int));
                assert(next.last() == b);
            }
            match self.candidate_pool.get(b.author) {
                Some(c) => {
                    if !c.is_leaving() {
                        let term = match (b.blocks as u128).checked_mul(c.total) {
                            Some(t) => t,
                            None => u128::MAX,
                        };
                        total = total.saturating_add(term);
                    }
                },
                None => {},
            }
            i += 1;
        }
        proof {
            assert(self@.collator_blocks.subrange(0, n as int) =~= self@.collator_blocks);
        }
        (self.config.db_weight.reads(n as u64), total)
    }

    /// What the running session pays out of `pot` if it ends now.
    pub fn session_rewards(&self, pot: Balance) -> (r: Vec<Reward>)
        requires
            self.wf(),
        ensures
            r@ == self@.session_rewards(pot),
    {
        let (_, total) = self.get_total_collator_staking_num();
        let mut rewards: Vec<Reward> = Vec::new();
        let n = self.collator_blocks.len();
        let mut i: usize = 0;
        proof {
            assert(self@.collator_blocks.subrange(0, 0) =~= Seq::<AuthorBlocks>::empty());
        }
        while i < n
            invariant
                i <= n,
                n == self@.collator_blocks.len(),
                self.wf(),
                rewards@ == spec_session_rewards(
                    self@.candidate_pool,
                    self@.collator_blocks.subrange(0, i as int),
                    total,
                    pot,
                ),
            decreases n - i,
        {
            let b = self.collator_blocks[i];
            proof {
                let next = self@.collator_blocks.subrange(0, i as int + 1);
                assert(next.drop_last() =~= self@.collator_blocks.subrange(0, i as int));
                assert(next.last() == b);
            }
            let earning = match self.candidate_pool.get(b.author) {
                Some(c) => if c.is_leaving() {
                    None
                } else {
                    Some(c)
                },
                None => None,
            };
            match earning {
                Some(c) => {
                    proof {
                        assert(self@.candidate_pool[b.author].wf());
                        crate::rewards::lemma_collator_reward_bounds(
                            c@.commission,
                            c@.stake,
                            c@.delegators,
                            b.blocks,
                            total,
                            pot,
                        );
                    }
                    let ghost before = rewards@;
                    let own = get_collator_reward_per_session(c, b.blocks, total, pot);
                    let others = get_delgators_reward_per_session(c, b.blocks, total, pot);
                    rewards.push(own);
                    let m = others.len();
                    let mut j: usize = 0;
                    while j < m
                        invariant
                            j <= m,
                            m == others@.len(),
                            rewards@ == before.push(own) + others@.subrange(0, j as int),
                        decreases m - j,
                    {
                        rewards.push(others[j]);
                        proof {
                            assert(rewards@ =~= before.push(own) + others@.subrange(
                                0,
                                j as int + 1,
                            ));
                        }
                        j += 1;
                    }
                    proof {
                        let expected = spec_candidate_rewards(c@, b.blocks, total, pot);
                        assert(others@.subrange(0, m as int) =~= others@);
                        assert forall|k: int| 0 <= k < others@.len() implies others@[k]
                            == expected[k + 1] by {
                            crate::rewards::lemma_reward_bounds(
                                c@.commission,
                                b.blocks,
                                c@.delegators[k].amount,
                                total,
                                pot,
                            );
                        }
                        assert(before.push(own) + others@ =~= before + expected);
                    }
                },
                None => {},
            }
            i += 1;
        }
        proof {
            assert(self@.collator_blocks.subrange(0, n as int) =~= self@.collator_blocks);
        }
        rewards
    }

    /// Starts block `now`. If the round is over or a new round is forced,
    /// the next round starts with this block; the answer then holds what
    /// the session that ended pays out of `pot`, and the record of authored
    /// blocks starts anew.
    pub fn on_initialize(&mut self, now: BlockNumber, pot: Balance) -> (r: BlockOutcome)
        requires
            old(self).wf(),
        ensures
            final(self).wf(),
            final(self)@ == old(self)@.on_initialize(now),
            r.new_round == old(self)@.should_end_session(now),
            r.rewards@ == if r.new_round {
                old(self)@.session_rewards(pot)
            } else {
                Seq::<Reward>::empty()
            },
    {
        if self.should_end_session(now) {
            let rewards = self.session_rewards(pot);
            self.block_number = now;
            self.round.update(now);
            self.new_round_forced = false;
            self.collator_blocks = Vec::new();
            self.events.push(Event::NewRound(now, self.round.current));
            BlockOutcome { new_round: true, rewards }
        } else {
            self.block_number = now;
            BlockOutcome { new_round: false, rewards: Vec::new() }
        }
    }
}

} // verus!
