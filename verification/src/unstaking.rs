//! The unstaking backlog of one account: amounts that are no longer staked
//! but stay locked until a block in the future.

use vstd::prelude::*;
use crate::error::Error;
use crate::seq_lib::{lemma_first, lemma_first_is, spec_first};
use crate::set::Balance;

verus! {

pub type BlockNumber = u64;

/// An amount that unlocks at `block`.
#[derive(Clone, Copy, Debug, PartialEq, Eq, Structural)]
pub struct UnstakeEntry {
    pub block: BlockNumber,
    pub amount: Balance,
}

/// The entries are in strictly ascending order of their block.
pub open spec fn spec_ascending(s: Seq<UnstakeEntry>) -> bool {
    forall|i: int, j: int| 0 <= i < j < s.len() ==> (#[trigger] s[i]).block < (#[trigger] s[j]).block
}

/// Sum of all amounts.
pub open spec fn spec_total(s: Seq<UnstakeEntry>) -> int
    decreases s.len(),
{
    if s.len() == 0 {
        0
    } else {
        s[0].amount + spec_total(s.subrange(1, s.len() as int))
    }
}

/// No entry is empty.
pub open spec fn spec_positive(s: Seq<UnstakeEntry>) -> bool {
    forall|i: int| 0 <= i < s.len() ==> (#[trigger] s[i]).amount > 0
}

/// What every backlog satisfies: ascending blocks, no empty entry, and a
/// total that fits the balance type.
pub open spec fn spec_ledger_wf(s: Seq<UnstakeEntry>) -> bool {
    spec_ascending(s) && spec_positive(s) && spec_total(s) <= u128::MAX
}

/// Index of the first entry that unlocks at `block` or later.
pub open spec fn spec_slot(s: Seq<UnstakeEntry>, block: BlockNumber) -> int {
    spec_first(s, |e: UnstakeEntry| e.block >= block)
}

/// Whether there is an entry that unlocks exactly at `block`.
pub open spec fn spec_has_block(s: Seq<UnstakeEntry>, block: BlockNumber) -> bool {
    spec_slot(s, block) < s.len() && s[spec_slot(s, block)].block == block
}

/// The backlog after `amount` has been added at `maturity`, with room for
/// `capacity` entries: an entry at that block grows; otherwise a new entry
/// goes in at its place if there is room. Adding nothing changes nothing.
pub open spec fn spec_increase(
    s: Seq<UnstakeEntry>,
    amount: Balance,
    maturity: BlockNumber,
    capacity: int,
) -> Result<Seq<UnstakeEntry>, Error> {
    let i = spec_slot(s, maturity);
    if amount == 0 {
        Ok(s)
    } else if spec_total(s) + amount > u128::MAX {
        Err(Error::Overflow)
    } else if spec_has_block(s, maturity) {
        Ok(s.update(i, UnstakeEntry { block: maturity, amount: (s[i].amount + amount) as Balance }))
    } else if s.len() >= capacity {
        Err(Error::NoMoreUnstaking)
    } else {
        Ok(s.insert(i, UnstakeEntry { block: maturity, amount }))
    }
}

/// The backlog after `amount` has been staked again: it is taken off the
/// entries that unlock first, emptied entries disappear.
pub open spec fn spec_consume(s: Seq<UnstakeEntry>, amount: Balance) -> Seq<UnstakeEntry>
    decreases s.len(),
{
    if s.len() == 0 || amount == 0 {
        s
    } else if s[0].amount > amount {
        s.update(0, UnstakeEntry { block: s[0].block, amount: (s[0].amount - amount) as Balance })
    } else {
        spec_consume(s.subrange(1, s.len() as int), (amount - s[0].amount) as Balance)
    }
}

/// Number of entries that have unlocked by block `now`.
pub open spec fn spec_matured(s: Seq<UnstakeEntry>, now: BlockNumber) -> int {
    spec_first(s, |e: UnstakeEntry| e.block > now)
}

/// The backlog without the entries that have unlocked by block `now`.
pub open spec fn spec_unlock(s: Seq<UnstakeEntry>, now: BlockNumber) -> Seq<UnstakeEntry> {
    s.subrange(spec_matured(s, now), s.len() as int)
}

/// The total splits at any index.
pub proof fn lemma_total_split(s: Seq<UnstakeEntry>, k: int)
    requires
        0 <= k <= s.len(),
    ensures
        spec_total(s) == spec_total(s.subrange(0, k)) + spec_total(s.subrange(k, s.len() as int)),
        0 <= spec_total(s),
    decreases s.len(),
{
    if s.len() == 0 {
        assert(s.subrange(0, k) =~= s);
    } else if k == 0 {
        assert(s.subrange(k, s.len() as int) =~= s);
        lemma_total_split(s.subrange(1, s.len() as int), 0);
    } else {
        let t = s.subrange(1, s.len() as int);
        lemma_total_split(t, k - 1);
        assert(t.subrange(0, k - 1) =~= s.subrange(0, k).subrange(1, k));
        assert(t.subrange(k - 1, t.len() as int) =~= s.subrange(k, s.len() as int));
        assert(s.subrange(0, k)[0] == s[0]);
    }
}

/// The total is never negative, and no entry exceeds it. Only the empty
/// backlog of a well-formed kind has a total of zero.
pub proof fn lemma_total_bounds(s: Seq<UnstakeEntry>)
    ensures
        0 <= spec_total(s),
        forall|i: int| 0 <= i < s.len() ==> (#[trigger] s[i]).amount <= spec_total(s),
    decreases s.len(),
{
    if s.len() > 0 {
        let t = s.subrange(1, s.len() as int);
        lemma_total_bounds(t);
        assert forall|i: int| 0 <= i < s.len() implies (#[trigger] s[i]).amount <= spec_total(s) by {
            if i > 0 {
                assert(s[i] == t[i - 1]);
            }
        }
    }
}

/// Changing one amount changes the total by the difference.
pub proof fn lemma_total_update(s: Seq<UnstakeEntry>, i: int, e: UnstakeEntry)
    requires
        0 <= i < s.len(),
    ensures
        spec_total(s.update(i, e)) == spec_total(s) - s[i].amount + e.amount,
    decreases s.len(),
{
    let t = s.subrange(1, s.len() as int);
    let u = s.update(i, e);
    if i == 0 {
        assert(u.subrange(1, u.len() as int) =~= t);
    } else {
        lemma_total_update(t, i - 1, e);
        assert(u.subrange(1, u.len() as int) =~= t.update(i - 1, e));
    }
}

/// A new entry raises the total by its amount.
pub proof fn lemma_total_insert(s: Seq<UnstakeEntry>, i: int, e: UnstakeEntry)
    requires
        0 <= i <= s.len(),
    ensures
        spec_total(s.insert(i, e)) == spec_total(s) + e.amount,
    decreases s.len(),
{
    let u = s.insert(i, e);
    if i == 0 {
        assert(u.subrange(1, u.len() as int) =~= s);
    } else {
        let t = s.subrange(1, s.len() as int);
        lemma_total_insert(t, i - 1, e);
        assert(u.subrange(1, u.len() as int) =~= t.insert(i - 1, e));
    }
}

/// Adding to the backlog keeps it well formed and raises its total by the
/// amount; the entry count grows by at most one and stays within capacity
/// unless an existing entry grew.
pub proof fn lemma_increase(s: Seq<UnstakeEntry>, amount: Balance, maturity: BlockNumber, capacity: int)
    requires
        spec_ledger_wf(s),
    ensures
        match spec_increase(s, amount, maturity, capacity) {
            Ok(t) => {
                &&& spec_ledger_wf(t)
                &&& spec_total(t) == spec_total(s) + amount
                &&& (amount > 0 ==> spec_has_block(t, maturity))
                &&& (amount == 0 || spec_has_block(s, maturity) ==> t.len() == s.len())
                &&& (amount > 0 && !spec_has_block(s, maturity) ==> t.len() == s.len() + 1 && t.len()
                    <= capacity)
            },
            Err(e) => e == Error::Overflow || (e == Error::NoMoreUnstaking && s.len() >= capacity
                && !spec_has_block(s, maturity)),
        },
{
    let p = |e: UnstakeEntry| e.block >= maturity;
    lemma_first(s, p);
    let i = spec_slot(s, maturity);
    assert forall|j: int| 0 <= j < i implies (#[trigger] s[j]).block < maturity by {
        assert(!p(s[j]));
    }
    if i < s.len() {
        assert(p(s[i]));
    }
    lemma_total_bounds(s);
    if amount > 0 && spec_total(s) + amount <= u128::MAX {
        if spec_has_block(s, maturity) {
            let e = UnstakeEntry { block: maturity, amount: (s[i].amount + amount) as Balance };
            let t = s.update(i, e);
            lemma_total_update(s, i, e);
            assert(p(t[i]));
            assert forall|a: int, b: int| 0 <= a < b < t.len() implies (#[trigger] t[a]).block < (
            #[trigger] t[b]).block by {
                assert(s[a].block < s[b].block);
            }
            assert forall|j: int| 0 <= j < t.len() implies (#[trigger] t[j]).amount > 0 by {
                if j != i {
                    assert(t[j] == s[j]);
                }
            }
            assert forall|j: int| 0 <= j < i implies !p(#[trigger] t[j]) by {
                assert(t[j] == s[j]);
            }
            lemma_first_is(t, p, i);
        } else if s.len() < capacity {
            let e = UnstakeEntry { block: maturity, amount };
            let t = s.insert(i, e);
            lemma_total_insert(s, i, e);
            assert forall|a: int, b: int| 0 <= a < b < t.len() implies (#[trigger] t[a]).block < (
            #[trigger] t[b]).block by {
                let a2 = if a < i { a } else { a - 1 };
                let b2 = if b < i { b } else { b - 1 };
                if a != i {
                    assert(t[a] == s[a2]);
                }
                if b != i {
                    assert(t[b] == s[b2]);
                }
            }
            assert forall|j: int| 0 <= j < t.len() implies (#[trigger] t[j]).amount > 0 by {
                if j != i {
                    let j2 = if j < i { j } else { j - 1 };
                    assert(t[j] == s[j2]);
                }
            }
            assert(p(t[i]));
            assert forall|j: int| 0 <= j < i implies !p(#[trigger] t[j]) by {
                assert(t[j] == s[j]);
            }
            lemma_first_is(t, p, i);
        }
    }
}

/// Staking again keeps the backlog well formed and lowers its total by the
/// amount, or to zero if the amount covers it all.
pub proof fn lemma_consume(s: Seq<UnstakeEntry>, amount: Balance)
    requires
        spec_ledger_wf(s),
    ensures
        spec_ledger_wf(spec_consume(s, amount)),
        spec_total(spec_consume(s, amount)) == if amount <= spec_total(s) {
            spec_total(s) - amount
        } else {
            0
        },
        spec_consume(s, amount).len() <= s.len(),
        amount >= spec_total(s) ==> spec_consume(s, amount).len() == 0,
        forall|j: int|
            0 <= j < spec_consume(s, amount).len() ==> s.len() > 0 && s[0].block <= (
            #[trigger] spec_consume(s, amount)[j]).block,
    decreases s.len(),
{
    lemma_total_bounds(s);
    if s.len() == 0 || amount == 0 {
        if s.len() > 0 {
            assert(s[0].amount > 0);
        }
    } else if s[0].amount > amount {
        let e = UnstakeEntry { block: s[0].block, amount: (s[0].amount - amount) as Balance };
        let t = s.update(0, e);
        lemma_total_update(s, 0, e);
        lemma_total_split(s.subrange(1, s.len() as int), 0);
        assert forall|a: int, b: int| 0 <= a < b < t.len() implies (#[trigger] t[a]).block < (
        #[trigger] t[b]).block by {
            assert(t[b] == s[b]);
            if a != 0 {
                assert(t[a] == s[a]);
            }
        }
        assert forall|j: int| 0 <= j < t.len() implies (#[trigger] t[j]).amount > 0 by {
            if j > 0 {
                assert(t[j] == s[j]);
            }
        }
        assert forall|j: int| 0 <= j < t.len() implies s[0].block <= (#[trigger] t[j]).block by {
            if j > 0 {
                assert(t[j] == s[j]);
            }
        }
    } else {
        let rest = s.subrange(1, s.len() as int);
        assert forall|a: int, b: int| 0 <= a < b < rest.len() implies (#[trigger] rest[a]).block < (
        #[trigger] rest[b]).block by {
            assert(rest[a] == s[a + 1] && rest[b] == s[b + 1]);
        }
        assert forall|j: int| 0 <= j < rest.len() implies (#[trigger] rest[j]).amount > 0 by {
            assert(rest[j] == s[j + 1]);
        }
        lemma_total_bounds(rest);
        lemma_consume(rest, (amount - s[0].amount) as Balance);
        let c = spec_consume(rest, (amount - s[0].amount) as Balance);
        assert forall|j: int| 0 <= j < c.len() implies s[0].block <= (#[trigger] c[j]).block by {
            assert(rest[0] == s[1]);
        }
    }
}

/// Unlocking keeps the backlog well formed; what stays unlocks after
/// `now`, what left had unlocked by `now`.
pub proof fn lemma_unlock(s: Seq<UnstakeEntry>, now: BlockNumber)
    requires
        spec_ledger_wf(s),
    ensures
        spec_ledger_wf(spec_unlock(s, now)),
        0 <= spec_matured(s, now) <= s.len(),
        forall|j: int| 0 <= j < spec_matured(s, now) ==> (#[trigger] s[j]).block <= now,
        forall|j: int| spec_matured(s, now) <= j < s.len() ==> (#[trigger] s[j]).block > now,
        spec_total(spec_unlock(s, now)) <= spec_total(s),
{
    let p = |e: UnstakeEntry| e.block > now;
    lemma_first(s, p);
    let k = spec_matured(s, now);
    assert forall|j: int| 0 <= j < k implies (#[trigger] s[j]).block <= now by {
        assert(!p(s[j]));
    }
    if k < s.len() {
        assert(p(s[k]));
    }
    lemma_total_split(s, k);
    lemma_total_split(s.subrange(0, k), 0);
    let t = spec_unlock(s, now);
    assert forall|a: int, b: int| 0 <= a < b < t.len() implies (#[trigger] t[a]).block < (
    #[trigger] t[b]).block by {
        assert(t[a] == s[a + k] && t[b] == s[b + k]);
    }
    assert forall|j: int| 0 <= j < t.len() implies (#[trigger] t[j]).amount > 0 by {
        assert(t[j] == s[j + k]);
    }
    assert forall|j: int| k <= j < s.len() implies (#[trigger] s[j]).block > now by {
        if j > k {
            assert(s[k].block < s[j].block);
        }
    }
}

/// Unlocking when nothing has matured changes nothing.
pub proof fn lemma_unlock_nothing_matured(s: Seq<UnstakeEntry>, now: BlockNumber)
    requires
        forall|j: int| 0 <= j < s.len() ==> (#[trigger] s[j]).block > now,
    ensures
        spec_unlock(s, now) == s,
        spec_matured(s, now) == 0,
{
    lemma_first_is(s, |e: UnstakeEntry| e.block > now, 0);
    assert(s.subrange(0, s.len() as int) =~= s);
}

/// In an empty backlog every block finds its slot at the front.
pub proof fn lemma_first_slot(s: Seq<UnstakeEntry>, block: BlockNumber)
    requires
        s.len() == 0,
    ensures
        spec_slot(s, block) == 0,
        !spec_has_block(s, block),
{
    lemma_first_is(s, |e: UnstakeEntry| e.block >= block, 0);
}

/// Staking an amount and unstaking the same amount right away leaves a
/// single entry of that amount at the new maturity, provided the backlog
/// held no more than the amount before: what was waiting is used up by the
/// stake, and the unstake makes one entry, not two.
pub proof fn lemma_restake_then_unstake(
    s: Seq<UnstakeEntry>,
    amount: Balance,
    maturity: BlockNumber,
    capacity: int,
)
    requires
        spec_ledger_wf(s),
        amount > 0,
        spec_total(s) <= amount,
        capacity >= 1,
    ensures
        spec_increase(spec_consume(s, amount), amount, maturity, capacity) == Ok::<
            Seq<UnstakeEntry>,
            Error,
        >(seq![UnstakeEntry { block: maturity, amount }]),
{
    lemma_consume(s, amount);
    let c = spec_consume(s, amount);
    assert(c.len() == 0);
    lemma_first_is(c, |e: UnstakeEntry| e.block >= maturity, 0);
    assert(c.insert(0, UnstakeEntry { block: maturity, amount }) =~= seq![
        UnstakeEntry { block: maturity, amount },
    ]);
}

/// Two amounts unstaked for the same block share one entry.
pub proof fn lemma_unstake_twice_same_block(
    s: Seq<UnstakeEntry>,
    a: Balance,
    b: Balance,
    maturity: BlockNumber,
    capacity: int,
)
    requires
        spec_ledger_wf(s),
        a > 0,
        b > 0,
        spec_increase(s, a, maturity, capacity) is Ok,
        spec_total(s) + a + b <= u128::MAX,
    ensures
        spec_increase(s, (a + b) as Balance, maturity, capacity) is Ok,
        spec_increase(spec_increase(s, a, maturity, capacity)->Ok_0, b, maturity, capacity)
            == spec_increase(s, (a + b) as Balance, maturity, capacity),
{
    lemma_increase(s, a, maturity, capacity);
    let t = spec_increase(s, a, maturity, capacity)->Ok_0;
    lemma_increase(t, b, maturity, capacity);
    let i = spec_slot(s, maturity);
    let p = |e: UnstakeEntry| e.block >= maturity;
    lemma_first(s, p);
    lemma_first(t, p);
    lemma_total_bounds(s);
    lemma_total_bounds(t);
    if spec_has_block(s, maturity) {
        let e1 = UnstakeEntry { block: maturity, amount: (s[i].amount + a) as Balance };
        assert(t == s.update(i, e1));
        assert(p(t[i]));
        assert forall|j: int| 0 <= j < i implies !p(#[trigger] t[j]) by {
            assert(t[j] == s[j]);
        }
        lemma_first_is(t, p, i);
        assert(t.update(i, UnstakeEntry { block: maturity, amount: (t[i].amount + b) as Balance })
            =~= s.update(
            i,
            UnstakeEntry { block: maturity, amount: (s[i].amount + (a + b) as Balance) as Balance },
        ));
    } else {
        let e1 = UnstakeEntry { block: maturity, amount: a };
        assert(t == s.insert(i, e1));
        assert(p(t[i]));
        assert forall|j: int| 0 <= j < i implies !p(#[trigger] t[j]) by {
            assert(t[j] == s[j]);
        }
        lemma_first_is(t, p, i);
        assert(t.update(i, UnstakeEntry { block: maturity, amount: (t[i].amount + b) as Balance })
            =~= s.insert(i, UnstakeEntry { block: maturity, amount: (a + b) as Balance }));
    }
}

/// The unstaking backlog of one account, in ascending order of the block at
/// which each amount unlocks.
#[derive(Clone, Debug, PartialEq, Eq)]
pub struct UnstakingLedger {
    pub entries: Vec<UnstakeEntry>,
}

impl View for UnstakingLedger {
    type V = Seq<UnstakeEntry>;

    open spec fn view(&self) -> Seq<UnstakeEntry> {
        self.entries@
    }
}

impl UnstakingLedger {
    pub open spec fn wf(&self) -> bool {
        spec_ledger_wf(self@)
    }

    pub fn new() -> (r: UnstakingLedger)
        ensures
            r@ == Seq::<UnstakeEntry>::empty(),
            r.wf(),
    {
        UnstakingLedger { entries: Vec::new() }
    }

    pub fn len(&self) -> (r: usize)
        ensures
            r == self@.len(),
    {
        self.entries.len()
    }

    pub fn is_empty(&self) -> (r: bool)
        ensures
            r == (self@.len() == 0),
    {
        self.entries.len() == 0
    }

    /// A copy of the backlog.
    pub fn clone_ledger(&self) -> (r: UnstakingLedger)
        ensures
            r@ == self@,
    {
        let mut entries: Vec<UnstakeEntry> = Vec::new();
        let mut i: usize = 0;
        while i < self.entries.len()
            invariant
                i <= self.entries.len(),
                entries@ == self.entries@.subrange(0, i as int),
            decreases self.entries.len() - i,
        {
            entries.push(self.entries[i]);
            proof {
                assert(entries@ =~= self.entries@.subrange(0, i as int + 1));
            }
            i += 1;
        }
        proof {
            assert(self.entries@.subrange(0, i as int) =~= self.entries@);
        }
        UnstakingLedger { entries }
    }

    /// Index of the first entry that unlocks at `block` or later.
    fn slot(&self, block: BlockNumber) -> (r: usize)
        ensures
            r == spec_slot(self@, block),
            r <= self@.len(),
    {
        let mut i: usize = 0;
        while i < self.entries.len() && self.entries[i].block < block
            invariant
                i <= self.entries.len(),
                forall|j: int| 0 <= j < i ==> (#[trigger] self.entries@[j]).block < block,
            decreases self.entries.len() - i,
        {
            i += 1;
        }
        proof {
            lemma_first_is(self@, |e: UnstakeEntry| e.block >= block, i as int);
        }
        i
    }

    /// The amount that unlocks at `block`, if any does.
    pub fn get(&self, block: BlockNumber) -> (r: Option<Balance>)
        ensures
            r == if spec_has_block(self@, block) {
                Some(self@[spec_slot(self@, block)].amount)
            } else {
                None
            },
    {
        let i = self.slot(block);
        if i < self.entries.len() && self.entries[i].block == block {
            Some(self.entries[i].amount)
        } else {
            None
        }
    }

    /// Sum of all amounts in the backlog.
    pub fn total(&self) -> (r: Balance)
        requires
            self.wf(),
        ensures
            r == spec_total(self@),
    {
        let mut acc: Balance = 0;
        let mut i: usize = 0;
        proof {
            assert(self@.subrange(0, self@.len() as int) =~= self@);
        }
        while i < self.entries.len()
            invariant
                i <= self.entries.len(),
                acc + spec_total(self@.subrange(i as int, self@.len() as int)) == spec_total(self@),
                spec_total(self@) <= u128::MAX,
            decreases self.entries.len() - i,
        {
            proof {
                let t = self@.subrange(i as int, self@.len() as int);
                assert(t[0] == self@[i as int]);
                assert(t.subrange(1, t.len() as int) =~= self@.subrange(
                    i as int + 1,
                    self@.len() as int,
                ));
                lemma_total_split(t.subrange(1, t.len() as int), 0);
            }
            acc = acc + self.entries[i].amount;
            i += 1;
        }
        acc
    }

    /// Adds `amount` to what unlocks at `maturity`. An entry for that block
    /// grows; otherwise a new entry is made, which fails with
    /// `NoMoreUnstaking` if the backlog already holds `capacity` entries.
    pub fn increase_unstake(&mut self, amount: Balance, maturity: BlockNumber, capacity: usize) -> (r:
        Result<(), Error>)
        requires
            old(self).wf(),
        ensures
            final(self).wf(),
            match r {
                Ok(()) => spec_increase(old(self)@, amount, maturity, capacity as int) == Ok::<
                    Seq<UnstakeEntry>,
                    Error,
                >(final(self)@),
                Err(e) => spec_increase(old(self)@, amount, maturity, capacity as int) == Err::<
                    Seq<UnstakeEntry>,
                    Error,
                >(e) && final(self)@ == old(self)@,
            },
    {
        proof {
            lemma_increase(self@, amount, maturity, capacity as int);
        }
        if amount == 0 {
            return Ok(());
        }
        let total = self.total();
        if total > u128::MAX - amount {
            return Err(Error::Overflow);
        }
        let i = self.slot(maturity);
        if i < self.entries.len() && self.entries[i].block == maturity {
            proof {
                lemma_total_bounds(self@);
            }
            let grown = UnstakeEntry { block: maturity, amount: self.entries[i].amount + amount };
            self.entries.set(i, grown);
            Ok(())
        } else if self.entries.len() >= capacity {
            Err(Error::NoMoreUnstaking)
        } else {
            self.entries.insert(i, UnstakeEntry { block: maturity, amount });
            Ok(())
        }
    }

    /// Takes `amount` off the backlog because it is staked again, from the
    /// entries that unlock first. The answer is what was taken off: the
    /// amount, or the whole backlog if that is less.
    pub fn decrease_unstake_on_restake(&mut self, amount: Balance) -> (r: Balance)
        requires
            old(self).wf(),
        ensures
            final(self).wf(),
            final(self)@ == spec_consume(old(self)@, amount),
            r == spec_total(old(self)@) - spec_total(final(self)@),
            r == if amount <= spec_total(old(self)@) { amount as int } else { spec_total(old(self)@) },
    {
        proof {
            lemma_consume(self@, amount);
        }
        let mut left: Balance = amount;
        while self.entries.len() > 0 && left > 0 && self.entries[0].amount <= left
            invariant
                self.wf(),
                spec_consume(self@, left) == spec_consume(old(self)@, amount),
                left <= amount,
                spec_total(old(self)@) - spec_total(self@) == amount - left,
            decreases self.entries.len(),
        {
            proof {
                let s = self@;
                let rest = s.subrange(1, s.len() as int);
                assert(rest =~= s.remove(0));
                assert forall|a: int, b: int| 0 <= a < b < rest.len() implies (
                #[trigger] rest[a]).block < (#[trigger] rest[b]).block by {
                    assert(rest[a] == s[a + 1] && rest[b] == s[b + 1]);
                }
                assert forall|j: int| 0 <= j < rest.len() implies (#[trigger] rest[j]).amount > 0 by {
                    assert(rest[j] == s[j + 1]);
                }
                lemma_total_bounds(rest);
            }
            let e = self.entries.remove(0);
            left = left - e.amount;
        }
        if self.entries.len() > 0 && left > 0 {
            let first = self.entries[0];
            proof {
                lemma_consume(self@, left);
            }
            self.entries.set(0, UnstakeEntry { block: first.block, amount: first.amount - left });
            amount
        } else {
            proof {
                lemma_consume(self@, left);
                lemma_total_bounds(self@);
            }
            amount - left
        }
    }

    /// Drops every entry that has unlocked by block `now` and answers with
    /// the sum of the dropped amounts. If nothing has unlocked yet, the
    /// backlog stays as it is and the answer is zero.
    pub fn unlock_matured(&mut self, now: BlockNumber) -> (r: Balance)
        requires
            old(self).wf(),
        ensures
            final(self).wf(),
            final(self)@ == spec_unlock(old(self)@, now),
            r == spec_total(old(self)@) - spec_total(final(self)@),
            forall|j: int| 0 <= j < final(self)@.len() ==> (#[trigger] final(self)@[j]).block > now,
            (forall|j: int| 0 <= j < old(self)@.len() ==> (#[trigger] old(self)@[j]).block > now) ==> r
                == 0 && final(self)@ == old(self)@,
    {
        proof {
            lemma_unlock(self@, now);
            assert(self@.subrange(0, self@.len() as int) =~= self@);
            if forall|j: int| 0 <= j < self@.len() ==> (#[trigger] self@[j]).block > now {
                lemma_unlock_nothing_matured(self@, now);
            }
        }
        let ghost before = self@;
        let mut unlocked: Balance = 0;
        let ghost mut k: int = 0;
        while self.entries.len() > 0 && self.entries[0].block <= now
            invariant
                0 <= k <= before.len(),
                self@ == before.subrange(k, before.len() as int),
                forall|j: int| 0 <= j < k ==> (#[trigger] before[j]).block <= now,
                unlocked + spec_total(self@) == spec_total(before),
                spec_total(before) <= u128::MAX,
            decreases self.entries.len(),
        {
            proof {
                let s = self@;
                assert(s[0] == before[k]);
                assert(s.subrange(1, s.len() as int) =~= s.remove(0));
                assert(s.remove(0) =~= before.subrange(k + 1, before.len() as int));
                lemma_total_bounds(s.subrange(1, s.len() as int));
            }
            let e = self.entries.remove(0);
            unlocked = unlocked + e.amount;
            proof {
                k = k + 1;
            }
        }
        proof {
            if self@.len() > 0 {
                assert(self@[0] == before[k]);
            }
            lemma_first_is(before, |e: UnstakeEntry| e.block > now, k);
        }
        unlocked
    }
}

} // verus!
