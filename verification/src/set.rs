//! A set of stakes kept in order: the highest amount first, every owner at
//! most once. Among equal amounts the entry that reached the amount first
//! stays in front.

use vstd::prelude::*;
use crate::seq_lib::{lemma_first, lemma_first_is, spec_first};

verus! {

pub type AccountId = u64;

pub type Balance = u128;

/// An amount staked by or for an account.
#[derive(Clone, Copy, Debug, PartialEq, Eq, Structural)]
pub struct Stake {
    pub owner: AccountId,
    pub amount: Balance,
}

/// The amounts never increase from front to back.
pub open spec fn spec_sorted(s: Seq<Stake>) -> bool {
    forall|i: int, j: int| 0 <= i < j < s.len() ==> (#[trigger] s[i]).amount >= (#[trigger] s[j]).amount
}

/// No owner occurs twice.
pub open spec fn spec_unique(s: Seq<Stake>) -> bool {
    forall|i: int, j: int| 0 <= i < j < s.len() ==> (#[trigger] s[i]).owner != (#[trigger] s[j]).owner
}

/// What every ordered set satisfies.
pub open spec fn spec_wf(s: Seq<Stake>) -> bool {
    spec_sorted(s) && spec_unique(s)
}

/// Index of the entry of `owner`, or the length if there is none.
pub open spec fn spec_index_of(s: Seq<Stake>, owner: AccountId) -> int {
    spec_first(s, |e: Stake| e.owner == owner)
}

/// Whether `owner` has an entry.
pub open spec fn spec_contains(s: Seq<Stake>, owner: AccountId) -> bool {
    spec_index_of(s, owner) < s.len()
}

/// Index of the first entry with less than `amount`: where a newcomer with
/// `amount` goes, behind everyone who has as much.
pub open spec fn spec_first_below(s: Seq<Stake>, amount: Balance) -> int {
    spec_first(s, |e: Stake| e.amount < amount)
}

/// Index of the first entry with at most `amount`: where an entry that has
/// come down to `amount` goes, in front of everyone who has as much.
pub open spec fn spec_first_not_above(s: Seq<Stake>, amount: Balance) -> int {
    spec_first(s, |e: Stake| e.amount <= amount)
}

/// Sum of all amounts.
pub open spec fn spec_sum(s: Seq<Stake>) -> int
    decreases s.len(),
{
    if s.len() == 0 {
        0
    } else {
        spec_sum(s.drop_last()) + s.last().amount
    }
}

/// The set after `stake` has been put in.
///
/// A new owner goes behind all entries with at least the same amount. An
/// owner who is in the set already gets the new amount, moves forward past
/// all entries with less when the amount has grown, and moves back past all
/// entries with more when it has shrunk.
pub open spec fn spec_insert(s: Seq<Stake>, stake: Stake) -> Seq<Stake> {
    let p = spec_index_of(s, stake.owner);
    if p == s.len() {
        s.insert(spec_first_below(s, stake.amount), stake)
    } else if stake.amount == s[p].amount {
        s
    } else {
        let rest = s.remove(p);
        if stake.amount > s[p].amount {
            rest.insert(spec_first_below(rest, stake.amount), stake)
        } else {
            rest.insert(spec_first_not_above(rest, stake.amount), stake)
        }
    }
}

/// The set without the entry of `owner`.
pub open spec fn spec_remove(s: Seq<Stake>, owner: AccountId) -> Seq<Stake> {
    let p = spec_index_of(s, owner);
    if p == s.len() {
        s
    } else {
        s.remove(p)
    }
}

/// Why a bounded insertion did not simply add or update an entry.
#[derive(Clone, Copy, Debug, PartialEq, Eq, Structural)]
pub enum BoundedInsertError {
    /// The set was full; the stake went in and this entry, the lowest one,
    /// went out.
    Evicted(Stake),
    /// The set was full and the stake did not exceed the lowest entry. The
    /// set is unchanged.
    Rejected,
}

/// The set after a bounded insertion of `stake` with room for `capacity`.
pub open spec fn spec_insert_bounded(s: Seq<Stake>, stake: Stake, capacity: int) -> Seq<Stake> {
    if spec_contains(s, stake.owner) || s.len() < capacity {
        spec_insert(s, stake)
    } else if s.len() > 0 && stake.amount > s.last().amount {
        spec_insert(s.drop_last(), stake)
    } else {
        s
    }
}

/// What a bounded insertion of `stake` answers.
pub open spec fn spec_insert_bounded_result(s: Seq<Stake>, stake: Stake, capacity: int) -> Result<
    bool,
    BoundedInsertError,
> {
    if spec_contains(s, stake.owner) {
        Ok(false)
    } else if s.len() < capacity {
        Ok(true)
    } else if s.len() > 0 && stake.amount > s.last().amount {
        Err(BoundedInsertError::Evicted(s.last()))
    } else {
        Err(BoundedInsertError::Rejected)
    }
}

/// In a set without duplicates, an owner's entry is at `spec_index_of`.
pub proof fn lemma_index_of(s: Seq<Stake>, owner: AccountId)
    ensures
        0 <= spec_index_of(s, owner) <= s.len(),
        spec_contains(s, owner) ==> s[spec_index_of(s, owner)].owner == owner,
        forall|j: int| 0 <= j < spec_index_of(s, owner) ==> (#[trigger] s[j]).owner != owner,
        spec_unique(s) ==> forall|j: int|
            0 <= j < s.len() && j != spec_index_of(s, owner) ==> (#[trigger] s[j]).owner != owner,
{
    let p = |e: Stake| e.owner == owner;
    lemma_first(s, p);
    let f = spec_first(s, p);
    assert forall|j: int| 0 <= j < f implies (#[trigger] s[j]).owner != owner by {
        assert(!p(s[j]));
    }
    if f < s.len() {
        assert(p(s[f]));
    }
}

/// The entry at index `i` of a set without duplicates is found at `i`.
pub proof fn lemma_index_of_at(s: Seq<Stake>, i: int)
    requires
        spec_unique(s),
        0 <= i < s.len(),
    ensures
        spec_index_of(s, s[i].owner) == i,
        spec_contains(s, s[i].owner),
{
    lemma_index_of(s, s[i].owner);
    let f = spec_index_of(s, s[i].owner);
    if f != i {
        if f < s.len() {
            assert(s[f].owner == s[i].owner);
        }
    }
}

/// Taking an entry out lowers the sum by its amount.
pub proof fn lemma_sum_remove(s: Seq<Stake>, i: int)
    requires
        0 <= i < s.len(),
    ensures
        spec_sum(s.remove(i)) == spec_sum(s) - s[i].amount,
    decreases s.len(),
{
    if i == s.len() - 1 {
        assert(s.remove(i) =~= s.drop_last());
    } else {
        lemma_sum_remove(s.drop_last(), i);
        assert(s.remove(i).drop_last() =~= s.drop_last().remove(i));
        assert(s.remove(i).last() == s.last());
    }
}

/// Putting an entry in raises the sum by its amount.
pub proof fn lemma_sum_insert(s: Seq<Stake>, i: int, e: Stake)
    requires
        0 <= i <= s.len(),
    ensures
        spec_sum(s.insert(i, e)) == spec_sum(s) + e.amount,
    decreases s.len(),
{
    if i == s.len() {
        assert(s.insert(i, e).drop_last() =~= s);
    } else {
        lemma_sum_insert(s.drop_last(), i, e);
        assert(s.insert(i, e).drop_last() =~= s.drop_last().insert(i, e));
        assert(s.insert(i, e).last() == s.last());
    }
}

/// The sum is never negative, and no entry exceeds it.
pub proof fn lemma_sum_bounds(s: Seq<Stake>)
    ensures
        0 <= spec_sum(s),
        forall|i: int| 0 <= i < s.len() ==> (#[trigger] s[i]).amount <= spec_sum(s),
    decreases s.len(),
{
    if s.len() > 0 {
        lemma_sum_bounds(s.drop_last());
        assert forall|i: int| 0 <= i < s.len() implies (#[trigger] s[i]).amount <= spec_sum(s) by {
            if i < s.len() - 1 {
                assert(s[i] == s.drop_last()[i]);
            }
        }
    }
}

/// Taking an entry out keeps the set in order and without duplicates.
pub proof fn lemma_remove_wf(s: Seq<Stake>, i: int)
    requires
        spec_wf(s),
        0 <= i < s.len(),
    ensures
        spec_wf(s.remove(i)),
        !spec_contains(s.remove(i), s[i].owner),
        forall|o: AccountId| o != s[i].owner ==> (spec_contains(s.remove(i), o) <==> spec_contains(s, o)),
{
    let r = s.remove(i);
    assert forall|a: int, b: int| 0 <= a < b < r.len() implies (#[trigger] r[a]).amount >= (
    #[trigger] r[b]).amount && r[a].owner != r[b].owner by {
        let a2 = if a < i { a } else { a + 1 };
        let b2 = if b < i { b } else { b + 1 };
        assert(r[a] == s[a2] && r[b] == s[b2]);
    }
    lemma_index_of(r, s[i].owner);
    let f = spec_index_of(r, s[i].owner);
    if f < r.len() {
        let f2 = if f < i { f } else { f + 1 };
        assert(r[f] == s[f2]);
    }
    assert forall|o: AccountId| o != s[i].owner implies (spec_contains(r, o) <==> spec_contains(s, o)) by {
        lemma_index_of(r, o);
        lemma_index_of(s, o);
        let fr = spec_index_of(r, o);
        let fs = spec_index_of(s, o);
        if fr < r.len() {
            let f2 = if fr < i { fr } else { fr + 1 };
            assert(r[fr] == s[f2]);
            assert(s[f2].owner == o);
        }
        if fs < s.len() {
            let f2 = if fs < i { fs } else { fs - 1 };
            assert(r[f2] == s[fs]);
            assert(r[f2].owner == o);
        }
    }
}

/// Putting a new owner in at a place where the order allows it keeps the
/// set in order and without duplicates.
pub proof fn lemma_insert_at_wf(s: Seq<Stake>, q: int, e: Stake)
    requires
        spec_wf(s),
        !spec_contains(s, e.owner),
        0 <= q <= s.len(),
        forall|j: int| 0 <= j < q ==> (#[trigger] s[j]).amount >= e.amount,
        forall|j: int| q <= j < s.len() ==> (#[trigger] s[j]).amount <= e.amount,
    ensures
        spec_wf(s.insert(q, e)),
        spec_index_of(s.insert(q, e), e.owner) == q,
        forall|o: AccountId| o != e.owner ==> (spec_contains(s.insert(q, e), o) <==> spec_contains(s, o)),
{
    let r = s.insert(q, e);
    lemma_index_of(s, e.owner);
    assert forall|a: int, b: int| 0 <= a < b < r.len() implies (#[trigger] r[a]).amount >= (
    #[trigger] r[b]).amount && r[a].owner != r[b].owner by {
        let a2 = if a < q { a } else { a - 1 };
        let b2 = if b < q { b } else { b - 1 };
        if a != q {
            assert(r[a] == s[a2]);
        }
        if b != q {
            assert(r[b] == s[b2]);
        }
    }
    assert(r[q] == e);
    lemma_index_of_at(r, q);
    assert forall|o: AccountId| o != e.owner implies (spec_contains(r, o) <==> spec_contains(s, o)) by {
        lemma_index_of(r, o);
        lemma_index_of(s, o);
        let fr = spec_index_of(r, o);
        let fs = spec_index_of(s, o);
        if fr < r.len() {
            assert(fr != q);
            let f2 = if fr < q { fr } else { fr - 1 };
            assert(r[fr] == s[f2]);
            assert(s[f2].owner == o);
        }
        if fs < s.len() {
            let f2 = if fs < q { fs } else { fs + 1 };
            assert(r[f2] == s[fs]);
            assert(r[f2].owner == o);
        }
    }
}

/// In an ordered set, the place behind all entries with at least `amount`
/// has only smaller entries after it.
pub proof fn lemma_first_below(s: Seq<Stake>, amount: Balance)
    requires
        spec_sorted(s),
    ensures
        0 <= spec_first_below(s, amount) <= s.len(),
        forall|j: int| 0 <= j < spec_first_below(s, amount) ==> (#[trigger] s[j]).amount >= amount,
        forall|j: int| spec_first_below(s, amount) <= j < s.len() ==> (#[trigger] s[j]).amount < amount,
{
    let p = |e: Stake| e.amount < amount;
    lemma_first(s, p);
    let f = spec_first(s, p);
    assert forall|j: int| 0 <= j < f implies (#[trigger] s[j]).amount >= amount by {
        assert(!p(s[j]));
    }
    if f < s.len() {
        assert(p(s[f]));
    }
}

/// In an ordered set, the place behind all entries with more than `amount`
/// has only entries with at most `amount` after it.
pub proof fn lemma_first_not_above(s: Seq<Stake>, amount: Balance)
    requires
        spec_sorted(s),
    ensures
        0 <= spec_first_not_above(s, amount) <= s.len(),
        forall|j: int| 0 <= j < spec_first_not_above(s, amount) ==> (#[trigger] s[j]).amount > amount,
        forall|j: int|
            spec_first_not_above(s, amount) <= j < s.len() ==> (#[trigger] s[j]).amount <= amount,
{
    let p = |e: Stake| e.amount <= amount;
    lemma_first(s, p);
    let f = spec_first(s, p);
    assert forall|j: int| 0 <= j < f implies (#[trigger] s[j]).amount > amount by {
        assert(!p(s[j]));
    }
    if f < s.len() {
        assert(p(s[f]));
    }
}

/// The set made of `stakes`, put in one after the other.
pub open spec fn spec_from_seq(stakes: Seq<Stake>) -> Seq<Stake>
    decreases stakes.len(),
{
    if stakes.len() == 0 {
        Seq::empty()
    } else {
        spec_insert(spec_from_seq(stakes.drop_last()), stakes.last())
    }
}

/// The set stays in order and without duplicates when a stake is put in;
/// the owner is in it afterwards with the new amount, every other owner is
/// in it exactly if it was before, and the sum follows the amounts.
pub proof fn lemma_insert(s: Seq<Stake>, stake: Stake)
    requires
        spec_wf(s),
    ensures
        spec_wf(spec_insert(s, stake)),
        spec_contains(spec_insert(s, stake), stake.owner),
        spec_insert(s, stake)[spec_index_of(spec_insert(s, stake), stake.owner)] == stake,
        forall|o: AccountId|
            o != stake.owner ==> (spec_contains(spec_insert(s, stake), o) <==> spec_contains(s, o)),
        spec_contains(s, stake.owner) ==> spec_insert(s, stake).len() == s.len() && spec_sum(
            spec_insert(s, stake),
        ) == spec_sum(s) - s[spec_index_of(s, stake.owner)].amount + stake.amount,
        !spec_contains(s, stake.owner) ==> spec_insert(s, stake).len() == s.len() + 1 && spec_sum(
            spec_insert(s, stake),
        ) == spec_sum(s) + stake.amount,
{
    lemma_index_of(s, stake.owner);
    let p = spec_index_of(s, stake.owner);
    if p == s.len() {
        lemma_first_below(s, stake.amount);
        let q = spec_first_below(s, stake.amount);
        lemma_insert_at_wf(s, q, stake);
        lemma_sum_insert(s, q, stake);
    } else if stake.amount == s[p].amount {
        assert(s[p] == stake);
    } else {
        let rest = s.remove(p);
        lemma_remove_wf(s, p);
        lemma_sum_remove(s, p);
        if stake.amount > s[p].amount {
            lemma_first_below(rest, stake.amount);
            let q = spec_first_below(rest, stake.amount);
            lemma_insert_at_wf(rest, q, stake);
            lemma_sum_insert(rest, q, stake);
        } else {
            lemma_first_not_above(rest, stake.amount);
            let q = spec_first_not_above(rest, stake.amount);
            lemma_insert_at_wf(rest, q, stake);
            lemma_sum_insert(rest, q, stake);
        }
    }
}

/// How a stake goes in: the owner's former entry, if there was one, is
/// taken out, and the stake is put where the owner is found afterwards.
/// Every other entry of the new set is an entry of the old one.
pub proof fn lemma_insert_shape(s: Seq<Stake>, stake: Stake)
    requires
        spec_wf(s),
    ensures
        ({
            let p = spec_index_of(s, stake.owner);
            let t = spec_insert(s, stake);
            let q = spec_index_of(t, stake.owner);
            &&& 0 <= p <= s.len()
            &&& 0 <= q < t.len()
            &&& t[q] == stake
            &&& p < s.len() ==> t == s.remove(p).insert(q, stake)
            &&& p == s.len() ==> t == s.insert(q, stake)
        }),
{
    lemma_index_of(s, stake.owner);
    lemma_insert(s, stake);
    let p = spec_index_of(s, stake.owner);
    let t = spec_insert(s, stake);
    lemma_index_of(t, stake.owner);
    if p == s.len() {
        lemma_first_below(s, stake.amount);
        lemma_insert_at_wf(s, spec_first_below(s, stake.amount), stake);
    } else if stake.amount == s[p].amount {
        assert(s[p] == stake);
        lemma_index_of_at(s, p);
        assert(s =~= s.remove(p).insert(p, stake));
    } else {
        let rest = s.remove(p);
        lemma_remove_wf(s, p);
        if stake.amount > s[p].amount {
            lemma_first_below(rest, stake.amount);
            lemma_insert_at_wf(rest, spec_first_below(rest, stake.amount), stake);
        } else {
            lemma_first_not_above(rest, stake.amount);
            lemma_insert_at_wf(rest, spec_first_not_above(rest, stake.amount), stake);
        }
    }
}

/// The set stays in order and without duplicates when an owner is taken
/// out; every other owner is in it exactly if it was before, and the sum
/// drops by the amount that left.
pub proof fn lemma_remove(s: Seq<Stake>, owner: AccountId)
    requires
        spec_wf(s),
    ensures
        spec_wf(spec_remove(s, owner)),
        !spec_contains(spec_remove(s, owner), owner),
        forall|o: AccountId| o != owner ==> (spec_contains(spec_remove(s, owner), o) <==> spec_contains(s, o)),
        spec_contains(s, owner) ==> spec_remove(s, owner).len() == s.len() - 1 && spec_sum(
            spec_remove(s, owner),
        ) == spec_sum(s) - s[spec_index_of(s, owner)].amount,
        !spec_contains(s, owner) ==> spec_remove(s, owner) == s,
{
    lemma_index_of(s, owner);
    let p = spec_index_of(s, owner);
    if p < s.len() {
        lemma_remove_wf(s, p);
        lemma_sum_remove(s, p);
    }
}

/// A bounded insertion keeps the set in order and without duplicates, and
/// a set that was within the capacity stays within it.
pub proof fn lemma_insert_bounded(s: Seq<Stake>, stake: Stake, capacity: int)
    requires
        spec_wf(s),
    ensures
        spec_wf(spec_insert_bounded(s, stake, capacity)),
        s.len() <= capacity ==> spec_insert_bounded(s, stake, capacity).len() <= capacity,
{
    lemma_insert(s, stake);
    if !(spec_contains(s, stake.owner) || s.len() < capacity) {
        if s.len() > 0 && stake.amount > s.last().amount {
            let t = s.drop_last();
            assert(t =~= s.remove(s.len() - 1));
            lemma_remove_wf(s, s.len() - 1);
            lemma_insert(t, stake);
            lemma_index_of(t, stake.owner);
            lemma_index_of(s, stake.owner);
            if spec_contains(t, stake.owner) {
                assert(t[spec_index_of(t, stake.owner)] == s[spec_index_of(t, stake.owner)]);
            }
        }
    }
}

/// A set of stakes in descending order of amount, at most one per owner.
#[derive(Clone, Debug, PartialEq, Eq)]
pub struct OrderedSet {
    pub list: Vec<Stake>,
}

impl View for OrderedSet {
    type V = Seq<Stake>;

    open spec fn view(&self) -> Seq<Stake> {
        self.list@
    }
}

impl OrderedSet {
    /// In order and without duplicates.
    pub open spec fn wf(&self) -> bool {
        spec_wf(self@)
    }

    pub fn new() -> (r: OrderedSet)
        ensures
            r@ == Seq::<Stake>::empty(),
            r.wf(),
    {
        OrderedSet { list: Vec::new() }
    }

    /// Makes a set of `stakes`, whatever their order: they are put in one
    /// after the other, so that of two stakes of one owner the later one
    /// counts.
    pub fn from_vec(stakes: Vec<Stake>) -> (r: OrderedSet)
        ensures
            r@ == spec_from_seq(stakes@),
            r.wf(),
    {
        let mut set = OrderedSet::new();
        let mut i: usize = 0;
        proof {
            assert(stakes@.subrange(0, 0) =~= Seq::<Stake>::empty());
        }
        while i < stakes.len()
            invariant
                i <= stakes.len(),
                set.wf(),
                set@ == spec_from_seq(stakes@.subrange(0, i as int)),
            decreases stakes.len() - i,
        {
            proof {
                let next = stakes@.subrange(0, i as int + 1);
                assert(next.drop_last() =~= stakes@.subrange(0, i as int));
                assert(next.last() == stakes@[i as int]);
            }
            set.insert(stakes[i]);
            i += 1;
        }
        proof {
            assert(stakes@.subrange(0, stakes@.len() as int) =~= stakes@);
        }
        set
    }

    /// Takes a list that is in order and has no duplicates as it stands.
    pub fn from_sorted_set(list: Vec<Stake>) -> (r: OrderedSet)
        requires
            spec_wf(list@),
        ensures
            r@ == list@,
            r.wf(),
    {
        OrderedSet { list }
    }

    pub fn len(&self) -> (r: usize)
        ensures
            r == self@.len(),
    {
        self.list.len()
    }

    pub fn is_empty(&self) -> (r: bool)
        ensures
            r == (self@.len() == 0),
    {
        self.list.len() == 0
    }

    /// The entry at position `i`.
    pub fn get(&self, i: usize) -> (r: Option<Stake>)
        ensures
            r == if i < self@.len() { Some(self@[i as int]) } else { None },
    {
        if i < self.list.len() {
            Some(self.list[i])
        } else {
            None
        }
    }

    /// A copy of the set.
    pub fn clone_set(&self) -> (r: OrderedSet)
        ensures
            r@ == self@,
    {
        let mut list: Vec<Stake> = Vec::new();
        let mut i: usize = 0;
        while i < self.list.len()
            invariant
                i <= self.list.len(),
                list@ == self.list@.subrange(0, i as int),
            decreases self.list.len() - i,
        {
            list.push(self.list[i]);
            proof {
                assert(list@ =~= self.list@.subrange(0, i as int + 1));
            }
            i += 1;
        }
        proof {
            assert(self.list@.subrange(0, i as int) =~= self.list@);
        }
        OrderedSet { list }
    }

    /// The entries, highest amount first.
    pub fn to_vec(&self) -> (r: Vec<Stake>)
        ensures
            r@ == self@,
    {
        self.clone_set().list
    }

    /// Index of the first entry that `owner` has, or the length.
    fn first_of_owner(&self, owner: AccountId) -> (r: usize)
        ensures
            r == spec_index_of(self@, owner),
            r <= self@.len(),
    {
        let mut i: usize = 0;
        while i < self.list.len() && self.list[i].owner != owner
            invariant
                i <= self.list.len(),
                forall|j: int| 0 <= j < i ==> (#[trigger] self.list@[j]).owner != owner,
            decreases self.list.len() - i,
        {
            i += 1;
        }
        proof {
            lemma_first_is(self@, |e: Stake| e.owner == owner, i as int);
        }
        i
    }

    /// Index of the first entry with less than `amount`, or the length.
    fn first_below(&self, amount: Balance) -> (r: usize)
        ensures
            r == spec_first_below(self@, amount),
            r <= self@.len(),
    {
        let mut i: usize = 0;
        while i < self.list.len() && self.list[i].amount >= amount
            invariant
                i <= self.list.len(),
                forall|j: int| 0 <= j < i ==> (#[trigger] self.list@[j]).amount >= amount,
            decreases self.list.len() - i,
        {
            i += 1;
        }
        proof {
            lemma_first_is(self@, |e: Stake| e.amount < amount, i as int);
        }
        i
    }

    /// Index of the first entry with at most `amount`, or the length.
    fn first_not_above(&self, amount: Balance) -> (r: usize)
        ensures
            r == spec_first_not_above(self@, amount),
            r <= self@.len(),
    {
        let mut i: usize = 0;
        while i < self.list.len() && self.list[i].amount > amount
            invariant
                i <= self.list.len(),
                forall|j: int| 0 <= j < i ==> (#[trigger] self.list@[j]).amount > amount,
            decreases self.list.len() - i,
        {
            i += 1;
        }
        proof {
            lemma_first_is(self@, |e: Stake| e.amount <= amount, i as int);
        }
        i
    }

    /// Position of the entry of `owner`.
    pub fn position(&self, owner: AccountId) -> (r: Option<usize>)
        ensures
            match r {
                Some(i) => spec_contains(self@, owner) && i == spec_index_of(self@, owner),
                None => !spec_contains(self@, owner),
            },
    {
        let i = self.first_of_owner(owner);
        if i < self.list.len() {
            Some(i)
        } else {
            None
        }
    }

    /// Whether `owner` has an entry.
    pub fn contains(&self, owner: AccountId) -> (r: bool)
        ensures
            r == spec_contains(self@, owner),
    {
        self.first_of_owner(owner) < self.list.len()
    }

    /// The entry of `owner`.
    pub fn find(&self, owner: AccountId) -> (r: Option<Stake>)
        ensures
            r == if spec_contains(self@, owner) {
                Some(self@[spec_index_of(self@, owner)])
            } else {
                None
            },
    {
        let i = self.first_of_owner(owner);
        if i < self.list.len() {
            Some(self.list[i])
        } else {
            None
        }
    }

    /// Puts `stake` in. The answer is `true` if the owner is new to the set
    /// and `false` if the owner was there and now has the new amount.
    pub fn insert(&mut self, stake: Stake) -> (r: bool)
        requires
            old(self).wf(),
        ensures
            final(self)@ == spec_insert(old(self)@, stake),
            final(self).wf(),
            r == !spec_contains(old(self)@, stake.owner),
    {
        proof {
            lemma_insert(self@, stake);
        }
        let p = self.first_of_owner(stake.owner);
        if p == self.list.len() {
            let q = self.first_below(stake.amount);
            self.list.insert(q, stake);
            true
        } else {
            let old_amount = self.list[p].amount;
            if stake.amount != old_amount {
                self.list.remove(p);
                let q = if stake.amount > old_amount {
                    self.first_below(stake.amount)
                } else {
                    self.first_not_above(stake.amount)
                };
                self.list.insert(q, stake);
            }
            false
        }
    }

    /// Takes the entry of `owner` out and hands it back.
    pub fn remove(&mut self, owner: AccountId) -> (r: Option<Stake>)
        requires
            old(self).wf(),
        ensures
            final(self)@ == spec_remove(old(self)@, owner),
            final(self).wf(),
            r == if spec_contains(old(self)@, owner) {
                Some(old(self)@[spec_index_of(old(self)@, owner)])
            } else {
                None
            },
    {
        proof {
            lemma_remove(self@, owner);
        }
        let p = self.first_of_owner(owner);
        if p < self.list.len() {
            let e = self.list.remove(p);
            Some(e)
        } else {
            None
        }
    }

    /// Puts `stake` into a set that may hold `capacity` entries.
    ///
    /// An owner who is in the set gets the new amount (`Ok(false)`). A new
    /// owner goes in if there is room (`Ok(true)`). If the set is full, a
    /// stake above the lowest entry takes its place and the lowest entry is
    /// handed back as evicted; any other stake is rejected.
    pub fn try_insert_bounded(&mut self, stake: Stake, capacity: usize) -> (r: Result<
        bool,
        BoundedInsertError,
    >)
        requires
            old(self).wf(),
        ensures
            final(self)@ == spec_insert_bounded(old(self)@, stake, capacity as int),
            r == spec_insert_bounded_result(old(self)@, stake, capacity as int),
            final(self).wf(),
            old(self)@.len() <= capacity ==> final(self)@.len() <= capacity,
    {
        proof {
            lemma_insert_bounded(self@, stake, capacity as int);
        }
        let n = self.list.len();
        if self.contains(stake.owner) {
            self.insert(stake);
            Ok(false)
        } else if n < capacity {
            self.insert(stake);
            Ok(true)
        } else if n > 0 && stake.amount > self.list[n - 1].amount {
            let lowest = self.list[n - 1];
            proof {
                assert(self@.drop_last() =~= self@.remove(n - 1));
                lemma_remove_wf(self@, n - 1);
            }
            self.list.remove(n - 1);
            self.insert(stake);
            Err(BoundedInsertError::Evicted(lowest))
        } else {
            Err(BoundedInsertError::Rejected)
        }
    }
}

} // verus!
