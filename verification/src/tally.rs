//! Keeping the sum of the stakes behind the selected candidates up to date
//! while the list of top candidates changes by one entry.
//!
//! The selected candidates are the first `n` of the list. `selfs` holds each
//! listed candidate's own stake and `amounts` its total stake, in the order
//! of the list.

use vstd::prelude::*;
use crate::error::Error;
use crate::seq_lib::{
    lemma_prefix_sum_bounds, lemma_prefix_sum_insert, lemma_prefix_sum_le,
    lemma_prefix_sum_remove, spec_prefix_sum,
};
use crate::set::Balance;
use crate::types::TotalStake;

verus! {

/// `ts` is the sum over the first `n` listed candidates: their own stakes
/// under `collators`, the rest of their totals under `delegators`. Own
/// stakes never exceed totals, and the sum of the totals is a balance.
pub open spec fn spec_tally(selfs: Seq<int>, amounts: Seq<int>, n: int, ts: TotalStake) -> bool {
    &&& selfs.len() == amounts.len()
    &&& forall|i: int| 0 <= i < selfs.len() ==> 0 <= #[trigger] selfs[i] <= amounts[i]
    &&& ts.collators == spec_prefix_sum(selfs, n)
    &&& ts.collators + ts.delegators == spec_prefix_sum(amounts, n)
    &&& spec_prefix_sum(amounts, n) <= u128::MAX
}

/// The amounts never increase from front to back.
pub open spec fn spec_descending(amounts: Seq<int>) -> bool {
    forall|i: int, j: int| 0 <= i < j < amounts.len() ==> amounts[i] >= amounts[j]
}

/// The one sum that tallies with the lists.
pub open spec fn spec_tally_of(selfs: Seq<int>, amounts: Seq<int>, n: int) -> TotalStake {
    TotalStake {
        collators: spec_prefix_sum(selfs, n) as Balance,
        delegators: (spec_prefix_sum(amounts, n) - spec_prefix_sum(selfs, n)) as Balance,
    }
}

/// A sum that tallies is the sum of the lists.
pub proof fn lemma_tally_is(selfs: Seq<int>, amounts: Seq<int>, n: int, ts: TotalStake)
    requires
        spec_tally(selfs, amounts, n, ts),
    ensures
        ts == spec_tally_of(selfs, amounts, n),
{
}

/// The sum after the entry at position `p` has left the list. `removed` is
/// the own stake and the total of that entry, `entering` those of the entry
/// at position `n`, which moves up among the selected.
pub(crate) fn tally_remove(
    ts: TotalStake,
    n: usize,
    p: usize,
    removed: (Balance, Balance),
    entering: Option<(Balance, Balance)>,
    Ghost(selfs): Ghost<Seq<int>>,
    Ghost(amounts): Ghost<Seq<int>>,
) -> (r: TotalStake)
    requires
        spec_tally(selfs, amounts, n as int, ts),
        spec_descending(amounts),
        p < selfs.len(),
        removed.0 == selfs[p as int],
        removed.1 == amounts[p as int],
        p < n ==> entering == (if n < selfs.len() {
            Some((selfs[n as int] as Balance, amounts[n as int] as Balance))
        } else {
            None::<(Balance, Balance)>
        }),
    ensures
        spec_tally(selfs.remove(p as int), amounts.remove(p as int), n as int, r),
        spec_descending(amounts.remove(p as int)),
{
    proof {
        assert forall|i: int| 0 <= i < amounts.len() implies 0 <= amounts[i] by {
            assert(0 <= selfs[i] <= amounts[i]);
        }
        lemma_prefix_sum_remove(selfs, p as int, n as int);
        lemma_prefix_sum_remove(amounts, p as int, n as int);
        lemma_prefix_sum_bounds(selfs, n as int);
        lemma_prefix_sum_bounds(amounts, n as int);
        lemma_prefix_sum_le(selfs.remove(p as int), amounts.remove(p as int), n as int);
        lemma_prefix_sum_bounds(selfs.remove(p as int), n as int);
        let a2 = amounts.remove(p as int);
        assert forall|i: int, j: int| 0 <= i < j < a2.len() implies a2[i] >= a2[j] by {
            let i2 = if i < p { i } else { i + 1 };
            let j2 = if j < p { j } else { j + 1 };
            assert(a2[i] == amounts[i2] && a2[j] == amounts[j2]);
        }
        if p < n && n < selfs.len() {
            assert(amounts[p as int] >= amounts[n as int]);
        }
    }
    if p < n {
        let all = ts.collators + ts.delegators;
        let (enter_self, enter_amount) = match entering {
            Some((s, a)) => (s, a),
            None => (0, 0),
        };
        let all2 = all - removed.1 + enter_amount;
        let collators = ts.collators - removed.0 + enter_self;
        TotalStake { collators, delegators: all2 - collators }
    } else {
        ts
    }
}

/// The sum after an entry with own stake `inserted.0` and total
/// `inserted.1` has gone into the list at position `q`. `leaving` is the
/// own stake and the total of the entry at position `n - 1`, which drops
/// out of the selected if the new entry goes in before it. The answer is
/// `Overflow` exactly if the selected totals no longer sum to a balance.
pub(crate) fn tally_insert(
    ts: TotalStake,
    n: usize,
    q: usize,
    inserted: (Balance, Balance),
    leaving: Option<(Balance, Balance)>,
    Ghost(selfs): Ghost<Seq<int>>,
    Ghost(amounts): Ghost<Seq<int>>,
) -> (r: Result<TotalStake, Error>)
    requires
        spec_tally(selfs, amounts, n as int, ts),
        q <= selfs.len(),
        inserted.0 <= inserted.1,
        q < n ==> leaving == (if n - 1 < selfs.len() {
            Some((selfs[n - 1] as Balance, amounts[n - 1] as Balance))
        } else {
            None::<(Balance, Balance)>
        }),
    ensures
        match r {
            Ok(t) => spec_tally(
                selfs.insert(q as int, inserted.0 as int),
                amounts.insert(q as int, inserted.1 as int),
                n as int,
                t,
            ),
            Err(e) => e == Error::Overflow && spec_prefix_sum(
                amounts.insert(q as int, inserted.1 as int),
                n as int,
            ) > u128::MAX,
        },
{
    proof {
        assert forall|i: int| 0 <= i < amounts.len() implies 0 <= amounts[i] by {
            assert(0 <= selfs[i] <= amounts[i]);
        }
        lemma_prefix_sum_insert(selfs, q as int, inserted.0 as int, n as int);
        lemma_prefix_sum_insert(amounts, q as int, inserted.1 as int, n as int);
        lemma_prefix_sum_bounds(selfs, n as int);
        lemma_prefix_sum_bounds(amounts, n as int);
        lemma_prefix_sum_bounds(selfs, n as int - 1);
        lemma_prefix_sum_bounds(amounts, n as int - 1);
        lemma_prefix_sum_le(
            selfs.insert(q as int, inserted.0 as int),
            amounts.insert(q as int, inserted.1 as int),
            n as int,
        );
        lemma_prefix_sum_le(selfs, amounts, n as int - 1);
    }
    if q < n {
        let all = ts.collators + ts.delegators;
        let (leave_self, leave_amount) = match leaving {
            Some((s, a)) => (s, a),
            None => (0, 0),
        };
        let all1 = all - leave_amount;
        let collators1 = ts.collators - leave_self;
        if inserted.1 > u128::MAX - all1 {
            Err(Error::Overflow)
        } else {
            let all2 = all1 + inserted.1;
            let collators = collators1 + inserted.0;
            Ok(TotalStake { collators, delegators: all2 - collators })
        }
    } else {
        Ok(ts)
    }
}

} // verus!
