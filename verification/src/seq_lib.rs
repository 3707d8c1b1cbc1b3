//! Small facts about sequences that the rest of the crate builds on: the
//! first index at which a predicate holds, and sums over a prefix.

use vstd::prelude::*;

verus! {

/// Index of the first element that satisfies `p`, or the length if none does.
pub open spec fn spec_first<T>(s: Seq<T>, p: spec_fn(T) -> bool) -> int
    decreases s.len(),
{
    if s.len() == 0 {
        0
    } else if p(s[0]) {
        0
    } else {
        1 + spec_first(s.subrange(1, s.len() as int), p)
    }
}

/// `spec_first` is the one index that has `p` at it and not before it.
pub proof fn lemma_first<T>(s: Seq<T>, p: spec_fn(T) -> bool)
    ensures
        0 <= spec_first(s, p) <= s.len(),
        forall|j: int| 0 <= j < spec_first(s, p) ==> !p(#[trigger] s[j]),
        spec_first(s, p) < s.len() ==> p(s[spec_first(s, p)]),
    decreases s.len(),
{
    if s.len() > 0 && !p(s[0]) {
        let t = s.subrange(1, s.len() as int);
        lemma_first(t, p);
        assert forall|j: int| 0 <= j < spec_first(s, p) implies !p(#[trigger] s[j]) by {
            if j > 0 {
                assert(s[j] == t[j - 1]);
            }
        }
        if spec_first(s, p) < s.len() {
            assert(s[spec_first(s, p)] == t[spec_first(t, p)]);
        }
    }
}

/// An index that has `p` at it (or is the length) and not before it is
/// `spec_first`.
pub proof fn lemma_first_is<T>(s: Seq<T>, p: spec_fn(T) -> bool, i: int)
    requires
        0 <= i <= s.len(),
        forall|j: int| 0 <= j < i ==> !p(#[trigger] s[j]),
        i < s.len() ==> p(s[i]),
    ensures
        spec_first(s, p) == i,
{
    lemma_first(s, p);
    let f = spec_first(s, p);
    if f < i {
        assert(!p(s[f]));
    }
    if i < f {
        assert(!p(s[i]));
    }
}

/// Sum of the first `k` elements of `v`; elements that `v` does not have
/// count as zero.
pub open spec fn spec_prefix_sum(v: Seq<int>, k: int) -> int
    decreases k,
{
    if k <= 0 {
        0
    } else {
        spec_prefix_sum(v, k - 1) + if k - 1 < v.len() {
            v[k - 1]
        } else {
            0
        }
    }
}

/// Prefix sums of sequences that agree on the prefix are equal.
pub proof fn lemma_prefix_sum_agree(v: Seq<int>, w: Seq<int>, k: int)
    requires
        v.len() == w.len() || (k <= v.len() && k <= w.len()),
        forall|i: int| 0 <= i < k && i < v.len() ==> v[i] == w[i],
    ensures
        spec_prefix_sum(v, k) == spec_prefix_sum(w, k),
    decreases k,
{
    if k > 0 {
        lemma_prefix_sum_agree(v, w, k - 1);
    }
}

/// Beyond the end of the sequence the prefix sum no longer grows.
pub proof fn lemma_prefix_sum_full(v: Seq<int>, k: int)
    requires
        k >= v.len(),
    ensures
        spec_prefix_sum(v, k) == spec_prefix_sum(v, v.len() as int),
    decreases k,
{
    if k > v.len() {
        lemma_prefix_sum_full(v, k - 1);
    }
}

/// A prefix sum of non-negative numbers is non-negative, grows with the
/// prefix, and is at least each of its terms.
pub proof fn lemma_prefix_sum_bounds(v: Seq<int>, k: int)
    requires
        forall|i: int| 0 <= i < v.len() ==> 0 <= v[i],
    ensures
        0 <= spec_prefix_sum(v, k),
        forall|j: int| j <= k ==> spec_prefix_sum(v, j) <= spec_prefix_sum(v, k),
        forall|i: int| 0 <= i < k && i < v.len() ==> v[i] <= spec_prefix_sum(v, k),
    decreases k,
{
    if k > 0 {
        lemma_prefix_sum_bounds(v, k - 1);
        assert forall|j: int| j <= k implies spec_prefix_sum(v, j) <= spec_prefix_sum(v, k) by {
            if j < k {
                assert(spec_prefix_sum(v, j) <= spec_prefix_sum(v, k - 1));
            }
        }
    } else {
        assert forall|j: int| j <= k implies spec_prefix_sum(v, j) <= spec_prefix_sum(v, k) by {
            assert(spec_prefix_sum(v, j) == 0);
        }
    }
}

/// A sequence that is nowhere larger has no larger prefix sum.
pub proof fn lemma_prefix_sum_le(v: Seq<int>, w: Seq<int>, k: int)
    requires
        v.len() == w.len(),
        forall|i: int| 0 <= i < v.len() ==> v[i] <= w[i],
    ensures
        spec_prefix_sum(v, k) <= spec_prefix_sum(w, k),
    decreases k,
{
    if k > 0 {
        lemma_prefix_sum_le(v, w, k - 1);
    }
}

/// Taking the element at `p` out: a prefix that reached past `p` loses it
/// and gains the element that followed the prefix.
pub proof fn lemma_prefix_sum_remove(v: Seq<int>, p: int, k: int)
    requires
        0 <= p < v.len(),
        0 <= k,
    ensures
        spec_prefix_sum(v.remove(p), k) == if p < k {
            spec_prefix_sum(v, k + 1) - v[p]
        } else {
            spec_prefix_sum(v, k)
        },
    decreases k,
{
    let r = v.remove(p);
    if k > 0 {
        lemma_prefix_sum_remove(v, p, k - 1);
        if k - 1 < r.len() {
            if k - 1 < p {
                assert(r[k - 1] == v[k - 1]);
            } else {
                assert(r[k - 1] == v[k]);
            }
        }
    }
}

/// Putting `x` in at `q`: a prefix that reaches past `q` gains it and loses
/// its former last element.
pub proof fn lemma_prefix_sum_insert(v: Seq<int>, q: int, x: int, k: int)
    requires
        0 <= q <= v.len(),
        0 <= k,
    ensures
        spec_prefix_sum(v.insert(q, x), k) == if q < k {
            spec_prefix_sum(v, k - 1) + x
        } else {
            spec_prefix_sum(v, k)
        },
    decreases k,
{
    let r = v.insert(q, x);
    if k > 0 {
        lemma_prefix_sum_insert(v, q, x, k - 1);
        if k - 1 < r.len() {
            if k - 1 < q {
                assert(r[k - 1] == v[k - 1]);
            } else if k - 1 == q {
                assert(r[k - 1] == x);
            } else {
                assert(r[k - 1] == v[k - 2]);
            }
        }
    }
}

} // verus!
