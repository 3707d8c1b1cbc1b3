//! A small map from account to value, kept in the order in which the
//! accounts were first put in.

use vstd::prelude::*;
use crate::seq_lib::{lemma_first, lemma_first_is, spec_first};
use crate::set::AccountId;

verus! {

/// The test for being `key`.
pub open spec fn spec_is_key(key: AccountId) -> spec_fn(AccountId) -> bool {
    |k: AccountId| k == key
}

/// Index of `key` among `keys`, or the length if it is not among them.
pub open spec fn spec_key_index(keys: Seq<AccountId>, key: AccountId) -> int {
    spec_first(keys, spec_is_key(key))
}

/// No key occurs twice.
pub open spec fn spec_distinct(keys: Seq<AccountId>) -> bool {
    forall|i: int, j: int| 0 <= i < j < keys.len() ==> keys[i] != keys[j]
}

/// Where a key is, in a list without duplicates.
pub proof fn lemma_key_index(keys: Seq<AccountId>, key: AccountId)
    ensures
        0 <= spec_key_index(keys, key) <= keys.len(),
        spec_key_index(keys, key) < keys.len() ==> keys[spec_key_index(keys, key)] == key,
        forall|j: int| 0 <= j < spec_key_index(keys, key) ==> keys[j] != key,
        spec_distinct(keys) ==> forall|j: int|
            0 <= j < keys.len() && j != spec_key_index(keys, key) ==> keys[j] != key,
{
    let p = spec_is_key(key);
    lemma_first(keys, p);
    let f = spec_first(keys, p);
    assert forall|j: int| 0 <= j < f implies keys[j] != key by {
        assert(!p(keys[j]));
    }
    if f < keys.len() {
        assert(p(keys[f]));
    }
}

/// The key at index `i` of a list without duplicates is found at `i`.
pub proof fn lemma_key_index_at(keys: Seq<AccountId>, i: int)
    requires
        spec_distinct(keys),
        0 <= i < keys.len(),
    ensures
        spec_key_index(keys, keys[i]) == i,
{
    lemma_key_index(keys, keys[i]);
}

/// A map from account to value.
#[derive(Debug)]
pub struct AccountMap<V> {
    pub keys: Vec<AccountId>,
    pub values: Vec<V>,
}

impl<V: View> View for AccountMap<V> {
    type V = Map<AccountId, V::V>;

    closed spec fn view(&self) -> Map<AccountId, V::V> {
        Map::new(
            |k: AccountId| spec_key_index(self.keys@, k) < self.keys@.len(),
            |k: AccountId| self.values@[spec_key_index(self.keys@, k)]@,
        )
    }
}

impl<V: View> AccountMap<V> {
    /// Every key has its value, and no key occurs twice.
    pub open spec fn wf(&self) -> bool {
        self.keys@.len() == self.values@.len() && spec_distinct(self.keys@)
    }

    /// Number of accounts in the map.
    pub open spec fn spec_len(&self) -> nat {
        self.keys@.len()
    }

    /// The value stored for `key`, as it is, where the key is in the map.
    pub open spec fn spec_value(&self, key: AccountId) -> V {
        self.values@[spec_key_index(self.keys@, key)]
    }

    /// The keys and the domain of the view are the same accounts, and the
    /// view of a stored value is the view's value.
    pub proof fn lemma_view(&self)
        requires
            self.wf(),
        ensures
            forall|i: int|
                0 <= i < self.keys@.len() ==> self@.dom().contains(#[trigger] self.keys@[i]) && self@[self.keys@[i]]
                    == self.values@[i]@,
            forall|k: AccountId|
                self@.dom().contains(k) ==> 0 <= spec_key_index(self.keys@, k) < self.keys@.len()
                    && self.keys@[spec_key_index(self.keys@, k)] == k,
    {
        assert forall|i: int| 0 <= i < self.keys@.len() implies self@.dom().contains(
            #[trigger] self.keys@[i],
        ) && self@[self.keys@[i]] == self.values@[i]@ by {
            lemma_key_index_at(self.keys@, i);
        }
        assert forall|k: AccountId| self@.dom().contains(k) implies 0 <= spec_key_index(
            self.keys@,
            k,
        ) < self.keys@.len() && self.keys@[spec_key_index(self.keys@, k)] == k by {
            lemma_key_index(self.keys@, k);
        }
    }

    /// The map holds as many accounts as it has keys.
    pub proof fn lemma_len(&self)
        requires
            self.wf(),
        ensures
            self@.dom().finite(),
            self@.dom().len() == self.spec_len(),
    {
        self.lemma_view();
        let keys = self.keys@;
        assert(keys.no_duplicates());
        keys.unique_seq_to_set();
        assert forall|k: AccountId| self@.dom().contains(k) <==> keys.to_set().contains(k) by {
            lemma_key_index(keys, k);
            if keys.to_set().contains(k) {
                let i = choose|i: int| 0 <= i < keys.len() && keys[i] == k;
                lemma_key_index_at(keys, i);
            }
        }
        assert(self@.dom() =~= keys.to_set());
    }

    pub fn new() -> (r: AccountMap<V>)
        ensures
            r.wf(),
            r@ == Map::<AccountId, V::V>::empty(),
            r.spec_len() == 0,
    {
        let r = AccountMap { keys: Vec::new(), values: Vec::new() };
        assert(r@ =~= Map::<AccountId, V::V>::empty());
        r
    }

    /// Number of accounts in the map.
    pub fn len(&self) -> (r: usize)
        ensures
            r == self.spec_len(),
            self.wf() ==> r == self@.dom().len(),
    {
        proof {
            if self.wf() {
                self.lemma_len();
            }
        }
        self.keys.len()
    }

    /// Index of `key`, or the number of keys if it is not in the map.
    fn index_of(&self, key: AccountId) -> (r: usize)
        ensures
            r == spec_key_index(self.keys@, key),
            r <= self.keys@.len(),
    {
        let mut i: usize = 0;
        while i < self.keys.len() && self.keys[i] != key
            invariant
                i <= self.keys.len(),
                forall|j: int| 0 <= j < i ==> self.keys@[j] != key,
            decreases self.keys.len() - i,
        {
            i += 1;
        }
        proof {
            lemma_first_is(self.keys@, spec_is_key(key), i as int);
        }
        i
    }

    /// Whether `key` is in the map.
    pub fn contains_key(&self, key: AccountId) -> (r: bool)
        ensures
            r == self@.dom().contains(key),
    {
        self.index_of(key) < self.keys.len()
    }

    /// The value of `key`.
    pub fn get(&self, key: AccountId) -> (r: Option<&V>)
        requires
            self.wf(),
        ensures
            match r {
                Some(v) => self@.dom().contains(key) && v@ == self@[key] && *v == self.spec_value(key),
                None => !self@.dom().contains(key),
            },
    {
        let i = self.index_of(key);
        if i < self.keys.len() {
            Some(&self.values[i])
        } else {
            None
        }
    }

    /// The key at position `i`, in the order of first insertion.
    pub fn key_at(&self, i: usize) -> (r: AccountId)
        requires
            self.wf(),
            i < self.spec_len(),
        ensures
            r == self.keys@[i as int],
            self@.dom().contains(r),
    {
        proof {
            self.lemma_view();
        }
        self.keys[i]
    }

    /// The value at position `i`, in the order of first insertion.
    pub fn value_at(&self, i: usize) -> (r: &V)
        requires
            self.wf(),
            i < self.spec_len(),
        ensures
            *r == self.values@[i as int],
            r@ == self@[self.keys@[i as int]],
    {
        proof {
            self.lemma_view();
        }
        &self.values[i]
    }

    /// Stores `value` for `key`, in place of what was stored before.
    pub fn insert(&mut self, key: AccountId, value: V)
        requires
            old(self).wf(),
        ensures
            final(self).wf(),
            final(self)@ == old(self)@.insert(key, value@),
            final(self).spec_value(key) == value,
            final(self).spec_len() == old(self).spec_len() + if old(self)@.dom().contains(key) {
                0int
            } else {
                1int
            },
    {
        let i = self.index_of(key);
        let ghost keys0 = self.keys@;
        let ghost values0 = self.values@;
        if i < self.keys.len() {
            self.values.set(i, value);
            proof {
                assert forall|k: AccountId| #[trigger]
                    self@.dom().contains(k) == old(self)@.insert(key, value@).dom().contains(k) by {
                    lemma_key_index(keys0, k);
                }
                assert forall|k: AccountId| self@.dom().contains(k) implies #[trigger] self@[k] == old(
                    self,
                )@.insert(key, value@)[k] by {
                    lemma_key_index(keys0, k);
                    lemma_key_index(keys0, key);
                    let f = spec_key_index(keys0, k);
                    if k != key {
                        assert(f != i);
                        assert(self.values@[f] == values0[f]);
                    } else {
                        assert(self.values@[f] == value);
                    }
                }
                assert(self@ =~= old(self)@.insert(key, value@));
            }
        } else {
            proof {
                lemma_key_index(keys0, key);
            }
            self.keys.push(key);
            self.values.push(value);
            proof {
                let keys1 = self.keys@;
                assert forall|a: int, b: int| 0 <= a < b < keys1.len() implies keys1[a] != keys1[b] by {
                    if b == keys0.len() {
                        assert(keys1[a] == keys0[a]);
                    }
                }
                assert forall|k: AccountId| true implies spec_key_index(keys1, k) == spec_key_index(
                    keys0,
                    k,
                ) + if k == key { 0int } else if spec_key_index(keys0, k) == keys0.len() { 1int } else { 0int } by {
                    lemma_key_index(keys0, k);
                    let f = spec_key_index(keys0, k);
                    if f < keys0.len() {
                        assert forall|j: int| 0 <= j < f implies !spec_is_key(k)(
                            #[trigger] keys1[j],
                        ) by {
                            assert(keys1[j] == keys0[j]);
                        }
                        assert(keys1[f] == keys0[f]);
                        lemma_first_is(keys1, spec_is_key(k), f);
                    } else if k == key {
                        assert forall|j: int| 0 <= j < f implies !spec_is_key(k)(
                            #[trigger] keys1[j],
                        ) by {
                            assert(keys1[j] == keys0[j]);
                        }
                        lemma_first_is(keys1, spec_is_key(k), f);
                    } else {
                        assert forall|j: int| 0 <= j < keys1.len() implies !spec_is_key(k)(
                            #[trigger] keys1[j],
                        ) by {
                            if j < keys0.len() {
                                assert(keys1[j] == keys0[j]);
                            }
                        }
                        lemma_first_is(keys1, spec_is_key(k), keys1.len() as int);
                    }
                }
                assert forall|k: AccountId| #[trigger]
                    self@.dom().contains(k) == old(self)@.insert(key, value@).dom().contains(k) by {
                    lemma_key_index(keys0, k);
                }
                assert forall|k: AccountId| self@.dom().contains(k) implies #[trigger] self@[k] == old(
                    self,
                )@.insert(key, value@)[k] by {
                    lemma_key_index(keys0, k);
                    if k != key {
                        assert(self.values@[spec_key_index(keys0, k)] == values0[spec_key_index(
                            keys0,
                            k,
                        )]);
                    }
                }
                assert(self@ =~= old(self)@.insert(key, value@));
            }
        }
    }

    /// Takes `key` out of the map and hands its value back.
    pub fn remove(&mut self, key: AccountId) -> (r: Option<V>)
        requires
            old(self).wf(),
        ensures
            final(self).wf(),
            final(self)@ == old(self)@.remove(key),
            match r {
                Some(v) => old(self)@.dom().contains(key) && v@ == old(self)@[key] && v == old(
                    self,
                ).spec_value(key) && final(self).spec_len() == old(self).spec_len() - 1,
                None => !old(self)@.dom().contains(key) && final(self).spec_len() == old(self).spec_len(),
            },
    {
        let i = self.index_of(key);
        let ghost keys0 = self.keys@;
        let ghost values0 = self.values@;
        if i < self.keys.len() {
            self.keys.remove(i);
            let v = self.values.remove(i);
            proof {
                let keys1 = self.keys@;
                lemma_key_index(keys0, key);
                assert forall|a: int, b: int| 0 <= a < b < keys1.len() implies keys1[a] != keys1[b] by {
                    let a2 = if a < i { a } else { a + 1 };
                    let b2 = if b < i { b } else { b + 1 };
                    assert(keys1[a] == keys0[a2] && keys1[b] == keys0[b2]);
                }
                assert forall|k: AccountId| true implies spec_key_index(keys1, k) == (if k == key {
                    keys1.len() as int
                } else if spec_key_index(keys0, k) > i {
                    spec_key_index(keys0, k) - 1
                } else {
                    spec_key_index(keys0, k)
                }) by {
                    lemma_key_index(keys0, k);
                    let f = spec_key_index(keys0, k);
                    let g = if k == key {
                        keys1.len() as int
                    } else if f > i {
                        f - 1
                    } else {
                        f
                    };
                    assert forall|j: int| 0 <= j < g implies !spec_is_key(k)(
                        #[trigger] keys1[j],
                    ) by {
                        let j2 = if j < i { j } else { j + 1 };
                        assert(keys1[j] == keys0[j2]);
                    }
                    if g < keys1.len() {
                        let g2 = if g < i { g } else { g + 1 };
                        assert(keys1[g] == keys0[g2]);
                    }
                    lemma_first_is(keys1, spec_is_key(k), g);
                }
                assert forall|k: AccountId| #[trigger]
                    self@.dom().contains(k) == old(self)@.remove(key).dom().contains(k) by {
                    lemma_key_index(keys0, k);
                }
                assert forall|k: AccountId| self@.dom().contains(k) implies #[trigger] self@[k] == old(
                    self,
                )@.remove(key)[k] by {
                    lemma_key_index(keys0, k);
                    let f = spec_key_index(keys0, k);
                    let g = if f > i { f - 1 } else { f };
                    assert(self.values@[g] == values0[f]);
                }
                assert(self@ =~= old(self)@.remove(key));
            }
            Some(v)
        } else {
            proof {
                assert(self@ =~= old(self)@.remove(key));
            }
            None
        }
    }
}

} // verus!
