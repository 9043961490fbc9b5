//! A finite map with keys compared by meaning.

use vstd::prelude::*;
use crate::seqs::{lemma_filter_all, lemma_filter_one, lemma_push_contains};
use crate::value::{list_contains, Value};

verus! {

/// A finite map: `keys[i]` is mapped to `values[i]`, and no key occurs twice.
pub struct Table<K: Value, V> {
    keys: Vec<K>,
    values: Vec<V>,
}

impl<K: Value, V> Table<K, V> {
    #[verifier::type_invariant]
    pub closed spec fn distinct(self) -> bool {
        &&& self.keys@.len() == self.values@.len()
        &&& forall|i: int, j: int| #![trigger self.keys@[i], self.keys@[j]]
            0 <= i < j < self.keys@.len() ==> self.keys@[i].deep_view() != self.keys@[j].deep_view()
    }

    /// Entry `i` is the one of `key`.
    spec fn has(self, key: <K as DeepView>::V, i: int) -> bool {
        0 <= i < self.keys@.len() && self.keys@[i].deep_view() == key
    }

    pub closed spec fn view(&self) -> Map<<K as DeepView>::V, V> {
        Map::new(
            |k: <K as DeepView>::V| exists|i: int| self.has(k, i),
            |k: <K as DeepView>::V| self.values@[choose|i: int| self.has(k, i)],
        )
    }

    /// The keys in the order in which they were entered.
    pub closed spec fn order(&self) -> Seq<<K as DeepView>::V> {
        Seq::new(self.keys@.len(), |i: int| self.keys@[i].deep_view())
    }

    proof fn lemma_entry(self, key: <K as DeepView>::V, i: int)
        requires
            self.distinct(),
            self.has(key, i),
        ensures
            self.view().dom().contains(key),
            self.view()[key] == self.values@[i],
    {
        let j = choose|j: int| self.has(key, j);
        assert(self.has(key, j));
        if i < j {
            assert(self.keys@[i].deep_view() != self.keys@[j].deep_view());
        } else if j < i {
            assert(self.keys@[j].deep_view() != self.keys@[i].deep_view());
        }
    }

    /// Replacing the value of entry `i` updates the map at its key.
    proof fn lemma_update(self, key: <K as DeepView>::V, i: int)
        requires
            self.distinct(),
            self.has(key, i),
        ensures
            forall|t: Self| #![trigger t.view()]
                t.keys == self.keys && t.values@ == self.values@.update(i, t.values@[i])
                    ==> t.view() == self.view().insert(key, t.values@[i]),
    {
        assert forall|t: Self| #![trigger t.view()]
            t.keys == self.keys && t.values@ == self.values@.update(i, t.values@[i])
            implies t.view() == self.view().insert(key, t.values@[i]) by {
            assert forall|k: <K as DeepView>::V| self.view().dom().contains(k) <==> #[trigger]
                t.view().dom().contains(k) by {
                if exists|n: int| self.has(k, n) {
                    let n = choose|n: int| self.has(k, n);
                    assert(t.has(k, n));
                }
                if exists|n: int| t.has(k, n) {
                    let n = choose|n: int| t.has(k, n);
                    assert(self.has(k, n));
                }
            }
            assert(t.has(key, i));
            t.lemma_entry(key, i);
            self.lemma_entry(key, i);
            assert forall|k: <K as DeepView>::V| k != key && self.view().dom().contains(k) implies
                #[trigger] t.view()[k] == self.view()[k] by {
                let n = choose|n: int| self.has(k, n);
                assert(t.has(k, n));
                t.lemma_entry(k, n);
                self.lemma_entry(k, n);
            }
            assert(t.view() =~= self.view().insert(key, t.values@[i]));
        }
    }

    proof fn lemma_push(self, key: <K as DeepView>::V, t: Self)
        requires
            self.distinct(),
            t.distinct(),
            forall|i: int| !self.has(key, i),
            t.keys@.len() == self.keys@.len() + 1,
            forall|i: int| 0 <= i < self.keys@.len() ==> t.keys@[i] == self.keys@[i] && t.values@[i]
                == self.values@[i],
            t.keys@[self.keys@.len() as int].deep_view() == key,
        ensures
            t@ == self@.insert(key, t.values@[self.keys@.len() as int]),
            t.order() == self.order().push(key),
    {
        let n = self.keys@.len() as int;
        assert(t.has(key, n));
        t.lemma_entry(key, n);
        assert forall|k: <K as DeepView>::V| #[trigger] t@.dom().contains(k) <==> k == key || self@.dom().contains(k) by {
            if exists|i: int| self.has(k, i) {
                let i = choose|i: int| self.has(k, i);
                assert(t.has(k, i));
            }
            if exists|i: int| t.has(k, i) {
                let i = choose|i: int| t.has(k, i);
                if i < n {
                    assert(self.has(k, i));
                }
            }
        }
        assert forall|k: <K as DeepView>::V| k != key && self@.dom().contains(k) implies #[trigger] t@[k] == self@[k] by {
            let i = choose|i: int| self.has(k, i);
            assert(t.has(k, i));
            t.lemma_entry(k, i);
            self.lemma_entry(k, i);
        }
        assert(t@ =~= self@.insert(key, t.values@[n]));
        assert(t.order() =~= self.order().push(key));
    }

    proof fn lemma_remove(self, key: <K as DeepView>::V, at: int, t: Self)
        requires
            self.distinct(),
            t.distinct(),
            self.has(key, at),
            t.keys@ == self.keys@.remove(at),
            t.values@ == self.values@.remove(at),
        ensures
            t@ == self@.remove(key),
            t.order() == self.order().filter(|k: <K as DeepView>::V| k != key),
    {
        assert forall|k: <K as DeepView>::V| #[trigger] t@.dom().contains(k) <==> k != key && self@.dom().contains(k) by {
            if k != key && exists|i: int| self.has(k, i) {
                let i = choose|i: int| self.has(k, i);
                assert(i != at);
                if i < at {
                    assert(t.has(k, i));
                } else {
                    assert(t.has(k, i - 1));
                }
            }
            if exists|i: int| t.has(k, i) {
                let i = choose|i: int| t.has(k, i);
                if i < at {
                    assert(self.has(k, i));
                    assert(self.keys@[i].deep_view() != self.keys@[at].deep_view());
                } else {
                    assert(self.has(k, i + 1));
                    assert(self.keys@[at].deep_view() != self.keys@[i + 1].deep_view());
                }
            }
        }
        assert forall|k: <K as DeepView>::V| k != key && self@.dom().contains(k) implies #[trigger] t@[k] == self@[k] by {
            let i = choose|i: int| self.has(k, i);
            self.lemma_entry(k, i);
            if i < at {
                assert(t.has(k, i));
                t.lemma_entry(k, i);
            } else {
                assert(t.has(k, i - 1));
                t.lemma_entry(k, i - 1);
            }
        }
        assert(t@ =~= self@.remove(key));
        let keep = |k: <K as DeepView>::V| k != key;
        let before = self.order().subrange(0, at);
        let after = self.order().subrange(at + 1, self.order().len() as int);
        assert(self.order() =~= before + seq![key] + after);
        assert forall|i: int| 0 <= i < before.len() implies keep(#[trigger] before[i]) by {
            assert(self.keys@[i].deep_view() != self.keys@[at].deep_view());
        }
        assert forall|i: int| 0 <= i < after.len() implies keep(#[trigger] after[i]) by {
            assert(self.keys@[at].deep_view() != self.keys@[at + 1 + i].deep_view());
        }
        lemma_filter_all(before, keep);
        lemma_filter_all(after, keep);
        lemma_filter_one(key, keep);
        Seq::filter_distributes_over_add(before + seq![key], after, keep);
        Seq::filter_distributes_over_add(before, seq![key], keep);
        assert(t.order() =~= before + after);
        assert(before + Seq::<<K as DeepView>::V>::empty() + after =~= before + after);
    }

    /// A table with no entry.
    pub fn new() -> (r: Self)
        ensures
            r@ == Map::<<K as DeepView>::V, V>::empty(),
            r.order() == Seq::<<K as DeepView>::V>::empty(),
    {
        let r = Table { keys: Vec::new(), values: Vec::new() };
        assert(r@ =~= Map::<<K as DeepView>::V, V>::empty());
        assert(r.order() =~= Seq::<<K as DeepView>::V>::empty());
        r
    }

    fn find(&self, key: &K) -> (r: Option<usize>)
        ensures
            match r {
                Some(i) => self.has(key.deep_view(), i as int),
                None => forall|i: int| !self.has(key.deep_view(), i),
            },
    {
        let mut i: usize = 0;
        while i < self.keys.len()
            invariant
                i <= self.keys@.len(),
                forall|j: int| 0 <= j < i ==> !self.has(key.deep_view(), j),
            decreases self.keys@.len() - i,
        {
            if self.keys[i].same(key) {
                return Some(i);
            }
            i += 1;
        }
        None
    }

    /// The order lists each key of the table once, and nothing else.
    pub proof fn lemma_order(&self)
        requires
            self.distinct(),
        ensures
            self.order().no_duplicates(),
            self.order().to_set() == self@.dom(),
            self.order().len() == self@.len(),
            self@.dom().finite(),
            forall|i: int| 0 <= i < self.order().len() ==> self@.dom().contains(#[trigger] self.order()[i]),
    {
        assert forall|i: int, j: int| 0 <= i < self.order().len() && 0 <= j < self.order().len() && i
            != j implies self.order()[i] != self.order()[j] by {
            if i < j {
                assert(self.keys@[i].deep_view() != self.keys@[j].deep_view());
            } else {
                assert(self.keys@[j].deep_view() != self.keys@[i].deep_view());
            }
        }
        assert forall|k: <K as DeepView>::V| self.order().to_set().contains(k) <==> self@.dom().contains(k) by {
            if self.order().contains(k) {
                let i = choose|i: int| 0 <= i < self.order().len() && self.order()[i] == k;
                assert(self.has(k, i));
            }
            if exists|i: int| self.has(k, i) {
                let i = choose|i: int| self.has(k, i);
                assert(self.order()[i] == k);
            }
        }
        assert(self.order().to_set() =~= self@.dom());
        self.order().unique_seq_to_set();
        vstd::seq_lib::seq_to_set_is_finite(self.order());
        assert forall|i: int| 0 <= i < self.order().len() implies self@.dom().contains(#[trigger] self.order()[i]) by {
            assert(self.order().to_set().contains(self.order()[i]));
        }
    }

    /// The number of keys.
    pub fn len(&self) -> (r: usize)
        ensures
            r == self@.len(),
            r == self.order().len(),
    {
        proof {
            use_type_invariant(self);
            self.lemma_order();
        }
        self.keys.len()
    }

    /// Whether `key` has a value.
    pub fn contains(&self, key: &K) -> (r: bool)
        ensures
            r == self@.dom().contains(key.deep_view()),
    {
        let found = self.find(key);
        found.is_some()
    }

    /// The value of `key`.
    pub fn get(&self, key: &K) -> (r: Option<&V>)
        ensures
            match r {
                Some(v) => self@.dom().contains(key.deep_view()) && *v == self@[key.deep_view()],
                None => !self@.dom().contains(key.deep_view()),
            },
    {
        proof {
            use_type_invariant(self);
        }
        match self.find(key) {
            Some(i) => {
                proof {
                    self.lemma_entry(key.deep_view(), i as int);
                }
                Some(&self.values[i])
            },
            None => None,
        }
    }

    /// The key that stands at place `i` of the order.
    pub fn key_at(&self, i: usize) -> (r: &K)
        requires
            i < self.order().len(),
        ensures
            r.deep_view() == self.order()[i as int],
            self@.dom().contains(r.deep_view()),
    {
        proof {
            use_type_invariant(self);
            self.lemma_order();
        }
        &self.keys[i]
    }

    /// The value of the key that stands at place `i` of the order.
    pub fn value_at(&self, i: usize) -> (r: &V)
        requires
            i < self.order().len(),
        ensures
            self@.dom().contains(self.order()[i as int]),
            *r == self@[self.order()[i as int]],
    {
        proof {
            use_type_invariant(self);
            self.lemma_order();
            assert(self.has(self.order()[i as int], i as int));
            self.lemma_entry(self.order()[i as int], i as int);
        }
        &self.values[i]
    }

    /// Gives `key` the value `value`, replacing the one it had.
    pub fn insert(&mut self, key: K, value: V)
        ensures
            final(self)@ == old(self)@.insert(key.deep_view(), value),
            final(self).order() == if old(self)@.dom().contains(key.deep_view()) {
                old(self).order()
            } else {
                old(self).order().push(key.deep_view())
            },
    {
        proof {
            use_type_invariant(&*self);
        }
        match self.find(&key) {
            Some(i) => {
                proof {
                    self.lemma_entry(key.deep_view(), i as int);
                    self.lemma_update(key.deep_view(), i as int);
                }
                self.values[i] = value;
                assert(self.order() =~= old(self).order());
            },
            None => {
                let mut taken = Table::new();
                std::mem::swap(&mut taken, self);
                let Table { mut keys, mut values } = taken;
                keys.push(key);
                values.push(value);
                proof {
                    let n = old(self).keys@.len() as int;
                    assert forall|i: int| 0 <= i < n implies keys@[i].deep_view() != keys@[n].deep_view() by {
                        assert(!old(self).has(key.deep_view(), i));
                    }
                }
                *self = Table { keys, values };
                proof {
                    old(self).lemma_push(key.deep_view(), *self);
                }
            },
        }
    }

    /// Takes `key` and its value out.
    pub fn remove(&mut self, key: &K) -> (r: Option<V>)
        ensures
            final(self)@ == old(self)@.remove(key.deep_view()),
            final(self).order() == old(self).order().filter(|k: <K as DeepView>::V| k != key.deep_view()),
            match r {
                Some(v) => old(self)@.dom().contains(key.deep_view()) && v == old(self)@[key.deep_view()],
                None => !old(self)@.dom().contains(key.deep_view()),
            },
    {
        proof {
            use_type_invariant(&*self);
        }
        match self.find(key) {
            Some(i) => {
                proof {
                    self.lemma_entry(key.deep_view(), i as int);
                }
                let mut taken = Table::new();
                std::mem::swap(&mut taken, self);
                let Table { mut keys, mut values } = taken;
                keys.remove(i);
                let value = values.remove(i);
                *self = Table { keys, values };
                proof {
                    old(self).lemma_remove(key.deep_view(), i as int, *self);
                }
                Some(value)
            },
            None => {
                proof {
                    assert(self@ =~= self@.remove(key.deep_view()));
                    let keep = |k: <K as DeepView>::V| k != key.deep_view();
                    assert forall|i: int| 0 <= i < self.order().len() implies keep(#[trigger] self.order()[i]) by {
                        assert(!self.has(key.deep_view(), i));
                    }
                    lemma_filter_all(self.order(), keep);
                }
                None
            },
        }
    }

    /// Takes out every key that does not stand in `keep`.
    pub fn retain_keys(&mut self, keep: &Vec<K>)
        ensures
            final(self)@ == old(self)@.restrict(keep.deep_view().to_set()),
    {
        proof {
            use_type_invariant(&*self);
            self.lemma_order();
        }
        let keys: Vec<K> = self.keys.copy();
        let ghost wanted = keep.deep_view();
        let ghost listed = keys.deep_view();
        assert(listed =~= self.order());
        let mut i: usize = 0;
        while i < keys.len()
            invariant
                i <= keys@.len(),
                listed == keys.deep_view(),
                wanted == keep.deep_view(),
                listed.to_set() == old(self)@.dom(),
                forall|k: <K as DeepView>::V| #[trigger] self@.dom().contains(k) <==> old(self)@.dom().contains(k)
                    && (wanted.contains(k) || !listed.take(i as int).contains(k)),
                forall|k: <K as DeepView>::V| self@.dom().contains(k) ==> #[trigger] self@[k] == old(self)@[k],
            decreases keys@.len() - i,
        {
            let ghost before = self@;
            let ghost key = keys@[i as int].deep_view();
            if !list_contains(keep, &keys[i]) {
                self.remove(&keys[i]);
            }
            proof {
                let seen = listed.take(i as int);
                let more = listed.take(i + 1);
                assert(more =~= seen.push(key));
                lemma_push_contains(seen, key);
                assert forall|k: <K as DeepView>::V| #[trigger] self@.dom().contains(k) <==> old(self)@.dom().contains(k)
                    && (wanted.contains(k) || !more.contains(k)) by {
                    assert(before.dom().contains(k) <==> old(self)@.dom().contains(k) && (wanted.contains(k)
                        || !seen.contains(k)));
                    assert(more.contains(k) <==> seen.contains(k) || k == key);
                }
            }
            i += 1;
        }
        proof {
            assert(listed.take(keys@.len() as int) =~= listed);
            assert forall|k: <K as DeepView>::V| #[trigger] self@.dom().contains(k) <==> old(self)@.dom().contains(k)
                && wanted.to_set().contains(k) by {
                if old(self)@.dom().contains(k) {
                    assert(listed.to_set().contains(k));
                }
            }
            assert(self@ =~= old(self)@.restrict(wanted.to_set()));
        }
    }

    /// The value of `key`, for change in place.
    pub fn get_mut(&mut self, key: &K) -> (r: Option<&mut V>)
        ensures
            match r {
                Some(v) => {
                    &&& old(self)@.dom().contains(key.deep_view())
                    &&& *v == old(self)@[key.deep_view()]
                    &&& final(self)@ == old(self)@.insert(key.deep_view(), *final(v))
                },
                None => !old(self)@.dom().contains(key.deep_view()) && *final(self) == *old(self),
            },
    {
        proof { use_type_invariant(&*self); }
        match self.find(key) {
            Some(i) => {
                proof {
                    self.lemma_entry(key.deep_view(), i as int);
                    self.lemma_update(key.deep_view(), i as int);
                }
                Some(&mut self.values[i])
            }
            None => None,
        }
    }
}

} // verus!
