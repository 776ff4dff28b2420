//! An insertion-ordered table keyed by text.
//!
//! Every map of the library (skill progress, attempt counters, trainees,
//! rooms, curricula, agent histories) is a `Table`: a vector of entries in
//! which no key occurs twice. Its model is a `Map` from the key's text to
//! the value, together with the order in which the keys were first added.
use vstd::prelude::*;

verus! {

/// A key of a [`Table`]: a value that stands for a piece of text.
pub trait TableKey {
    /// The text by which the key is found.
    spec fn key_view(&self) -> Seq<char>;

    /// The text of the key.
    fn key_string(&self) -> (s: &String)
        ensures
            s@ == self.key_view(),
    ;
}

impl TableKey for String {
    open spec fn key_view(&self) -> Seq<char> {
        self@
    }

    fn key_string(&self) -> (s: &String) {
        self
    }
}

/// A map from text keys to values that remembers the order in which keys
/// were first inserted.
#[derive(Debug, Clone)]
pub struct Table<K, V> {
    entries: Vec<(K, V)>,
}

impl<K: TableKey, V> Table<K, V> {
    /// The keys, in table order.
    pub closed spec fn keys(self) -> Seq<Seq<char>> {
        self.entries@.map_values(|e: (K, V)| e.0.key_view())
    }

    /// The values, in table order.
    pub closed spec fn values(self) -> Seq<V> {
        self.entries@.map_values(|e: (K, V)| e.1)
    }

    /// Well-formedness: one value per key, and no key twice.
    pub open spec fn wf(self) -> bool {
        &&& self.keys().len() == self.values().len()
        &&& self.keys().no_duplicates()
    }

    /// The number of entries.
    pub open spec fn size(self) -> nat {
        self.keys().len()
    }

    /// The model: each key's text mapped to its value.
    pub open spec fn view(&self) -> Map<Seq<char>, V> {
        Map::new(
            |k: Seq<char>| self.keys().contains(k),
            |k: Seq<char>| self.values()[self.keys().index_of(k)],
        )
    }

    /// The value stored under `k`, if any.
    pub open spec fn lookup(self, k: Seq<char>) -> Option<V> {
        if self@.contains_key(k) {
            Some(self@[k])
        } else {
            None
        }
    }

    /// In a well-formed table the entry at position `i` is what the model
    /// holds under its key.
    pub proof fn lemma_entry(self, i: int)
        requires
            self.wf(),
            0 <= i < self.size(),
        ensures
            self@.contains_key(self.keys()[i]),
            self@[self.keys()[i]] == self.values()[i],
            self.keys().index_of(self.keys()[i]) == i,
    {
        let k = self.keys()[i];
        assert(self.keys().contains(k));
        let j = self.keys().index_of(k);
        assert(0 <= j < self.keys().len() && self.keys()[j] == k);
    }

    /// In a well-formed table every entry is in the model, and the model's
    /// domain is exactly the set of keys, of the same size as the table.
    pub proof fn lemma_model(self)
        requires
            self.wf(),
        ensures
            forall|i: int|
                0 <= i < self.size() ==> #[trigger] self@.contains_key(self.keys()[i])
                    && self@[self.keys()[i]] == self.values()[i],
            self@.dom() == self.keys().to_set(),
            self@.dom().finite(),
            self@.dom().len() == self.size(),
    {
        assert forall|i: int| 0 <= i < self.size() implies #[trigger] self@.contains_key(
            self.keys()[i],
        ) && self@[self.keys()[i]] == self.values()[i] by {
            self.lemma_entry(i);
        }
        assert(self@.dom() =~= self.keys().to_set());
        self.keys().unique_seq_to_set();
        vstd::seq_lib::seq_to_set_is_finite(self.keys());
    }

    /// An empty table.
    pub fn new() -> (t: Self)
        ensures
            t.wf(),
            t.keys() == Seq::<Seq<char>>::empty(),
            t.values() == Seq::<V>::empty(),
            t@ == Map::<Seq<char>, V>::empty(),
    {
        let t = Table { entries: Vec::new() };
        assert(t.keys() =~= Seq::<Seq<char>>::empty());
        assert(t.values() =~= Seq::<V>::empty());
        assert(t@ =~= Map::<Seq<char>, V>::empty());
        t
    }

    /// The number of entries, which in a well-formed table is the number of
    /// keys in the model.
    pub fn len(&self) -> (n: usize)
        ensures
            n == self.size(),
            n == self.values().len(),
            self.wf() ==> n == self@.dom().len(),
    {
        proof {
            if self.wf() {
                self.lemma_model();
            }
        }
        self.entries.len()
    }

    /// Whether the table holds no entry.
    pub fn is_empty(&self) -> (b: bool)
        ensures
            b == (self.size() == 0),
            self.wf() ==> (b == (self@.dom().len() == 0)),
    {
        proof {
            if self.wf() {
                self.lemma_model();
            }
        }
        self.entries.len() == 0
    }

    /// The position of the entry whose key is `key`, if there is one.
    pub fn index_of(&self, key: &str) -> (r: Option<usize>)
        ensures
            match r {
                Some(i) => i < self.size() && self.keys()[i as int] == key@,
                None => !self.keys().contains(key@) && !self@.contains_key(key@),
            },
    {
        let wanted: String = key.to_owned();
        let n = self.entries.len();
        let mut i: usize = 0;
        while i < n
            invariant
                n == self.entries@.len(),
                wanted@ == key@,
                i <= n,
                forall|j: int| 0 <= j < i ==> self.keys()[j] != key@,
            decreases n - i,
        {
            if self.entries[i].0.key_string().eq(&wanted) {
                return Some(i);
            }
            i = i + 1;
        }
        None
    }

    /// Whether some entry has the key `key`.
    pub fn contains_key(&self, key: &str) -> (b: bool)
        ensures
            b == self@.contains_key(key@),
    {
        match self.index_of(key) {
            Some(i) => {
                assert(self.keys().contains(key@)) by {
                    assert(self.keys()[i as int] == key@);
                }
                true
            },
            None => false,
        }
    }

    /// The value stored under `key`, if any.
    pub fn get(&self, key: &str) -> (r: Option<&V>)
        requires
            self.wf(),
        ensures
            r matches Some(v) ==> self@.contains_key(key@) && *v == self@[key@],
            r is None <==> !self@.contains_key(key@),
    {
        match self.index_of(key) {
            Some(i) => {
                proof {
                    self.lemma_entry(i as int);
                }
                Some(&self.entries[i].1)
            },
            None => None,
        }
    }

    /// The value at position `i`.
    pub fn value_at(&self, i: usize) -> (v: &V)
        requires
            i < self.size(),
        ensures
            *v == self.values()[i as int],
    {
        &self.entries[i].1
    }

    /// Stores `value` under `key`. A key already present keeps its position
    /// and has its value replaced; a new key goes after all others. Returns
    /// the value that was stored under the key before, if any.
    pub fn insert(&mut self, key: K, value: V) -> (prev: Option<V>)
        requires
            old(self).wf(),
        ensures
            final(self).wf(),
            final(self)@ == old(self)@.insert(key.key_view(), value),
            prev == old(self).lookup(key.key_view()),
            old(self).keys().contains(key.key_view()) ==> {
                &&& final(self).keys() == old(self).keys()
                &&& final(self).values() == old(self).values().update(
                    old(self).keys().index_of(key.key_view()),
                    value,
                )
            },
            !old(self).keys().contains(key.key_view()) ==> {
                &&& final(self).keys() == old(self).keys().push(key.key_view())
                &&& final(self).values() == old(self).values().push(value)
            },
    {
        let ghost k = key.key_view();
        let ghost pre = *self;
        match self.index_of(key.key_string().as_str()) {
            Some(i) => {
                proof {
                    pre.lemma_entry(i as int);
                }
                let (_k0, v0) = self.entries.remove(i);
                self.entries.insert(i, (key, value));
                proof {
                    assert(self.entries@ =~= pre.entries@.update(i as int, (key, value)));
                    assert(self.keys() =~= pre.keys());
                    assert(self.values() =~= pre.values().update(i as int, value));
                    self.lemma_model();
                    pre.lemma_model();
                    assert(self@ =~= pre@.insert(k, value)) by {
                        assert forall|x: Seq<char>| #[trigger] self@.contains_key(x) implies self@[x]
                            == pre@.insert(k, value)[x] by {
                            let j = self.keys().index_of(x);
                            self.lemma_entry(j);
                            if j != i {
                                pre.lemma_entry(j);
                            }
                        }
                    }
                }
                Some(v0)
            },
            None => {
                self.entries.push((key, value));
                proof {
                    assert(self.keys() =~= pre.keys().push(k));
                    assert(self.values() =~= pre.values().push(value));
                    self.lemma_model();
                    pre.lemma_model();
                    assert(self@ =~= pre@.insert(k, value)) by {
                        assert forall|x: Seq<char>| pre@.insert(k, value).contains_key(x) implies #[trigger] self@.contains_key(x) by {
                            if x == k {
                                assert(self.keys()[pre.size() as int] == k);
                            } else {
                                let j = pre.keys().index_of(x);
                                pre.lemma_entry(j);
                                assert(self.keys()[j] == x);
                            }
                        }
                        assert forall|x: Seq<char>| #[trigger] self@.contains_key(x) implies self@[x]
                            == pre@.insert(k, value)[x] by {
                            let j = self.keys().index_of(x);
                            self.lemma_entry(j);
                            if x != k {
                                pre.lemma_entry(j);
                            }
                        }
                    }
                }
                None
            },
        }
    }

    /// Takes out the entry at position `i`; the entries after it move up.
    pub fn remove_at(&mut self, i: usize) -> (entry: (K, V))
        requires
            old(self).wf(),
            i < old(self).size(),
        ensures
            final(self).wf(),
            entry.0.key_view() == old(self).keys()[i as int],
            entry.1 == old(self).values()[i as int],
            final(self).keys() == old(self).keys().remove(i as int),
            final(self).values() == old(self).values().remove(i as int),
            final(self)@ == old(self)@.remove(entry.0.key_view()),
    {
        let ghost pre = *self;
        let e = self.entries.remove(i);
        proof {
            let k = e.0.key_view();
            assert(self.keys() =~= pre.keys().remove(i as int));
            assert(self.values() =~= pre.values().remove(i as int));
            pre.lemma_model();
            self.lemma_model();
            assert(self@ =~= pre@.remove(k)) by {
                assert forall|x: Seq<char>| pre@.remove(k).contains_key(x) implies #[trigger] self@.contains_key(x) by {
                    let j = pre.keys().index_of(x);
                    pre.lemma_entry(j);
                    if j < i {
                        assert(self.keys()[j] == x);
                    } else {
                        assert(self.keys()[j - 1] == x);
                    }
                }
                assert forall|x: Seq<char>| #[trigger] self@.contains_key(x) implies pre@.remove(k).contains_key(x) && self@[x] == pre@[x] by {
                    let j = self.keys().index_of(x);
                    self.lemma_entry(j);
                    if j < i {
                        pre.lemma_entry(j);
                        assert(pre.keys()[j] != pre.keys()[i as int]);
                    } else {
                        pre.lemma_entry(j + 1);
                        assert(pre.keys()[j + 1] != pre.keys()[i as int]);
                    }
                }
            }
        }
        e
    }

    /// Puts an entry back at position `i`; the entries from `i` on move down.
    /// The key must not be in the table.
    pub fn insert_at(&mut self, i: usize, key: K, value: V)
        requires
            old(self).wf(),
            i <= old(self).size(),
            !old(self)@.contains_key(key.key_view()),
        ensures
            final(self).wf(),
            final(self).keys() == old(self).keys().insert(i as int, key.key_view()),
            final(self).values() == old(self).values().insert(i as int, value),
            final(self)@ == old(self)@.insert(key.key_view(), value),
    {
        let ghost pre = *self;
        let ghost k = key.key_view();
        self.entries.insert(i, (key, value));
        proof {
            assert(self.keys() =~= pre.keys().insert(i as int, k));
            assert(self.values() =~= pre.values().insert(i as int, value));
            pre.lemma_model();
            assert(!pre.keys().contains(k));
            assert(self.keys().no_duplicates()) by {
                assert forall|a: int, b: int|
                    0 <= a < self.size() && 0 <= b < self.size() && a != b implies self.keys()[a]
                    != self.keys()[b] by {
                    if a != i as int && b != i as int {
                        let pa = if a < i { a } else { a - 1 };
                        let pb = if b < i { b } else { b - 1 };
                        assert(self.keys()[a] == pre.keys()[pa]);
                        assert(self.keys()[b] == pre.keys()[pb]);
                    } else if a == i as int {
                        let pb = if b < i { b } else { b - 1 };
                        assert(self.keys()[b] == pre.keys()[pb]);
                    } else {
                        let pa = if a < i { a } else { a - 1 };
                        assert(self.keys()[a] == pre.keys()[pa]);
                    }
                }
            }
            self.lemma_model();
            assert(self@ =~= pre@.insert(k, value)) by {
                assert forall|x: Seq<char>| pre@.insert(k, value).contains_key(x) implies #[trigger] self@.contains_key(x) by {
                    if x == k {
                        assert(self.keys()[i as int] == k);
                    } else {
                        let j = pre.keys().index_of(x);
                        pre.lemma_entry(j);
                        if j < i {
                            assert(self.keys()[j] == x);
                        } else {
                            assert(self.keys()[j + 1] == x);
                        }
                    }
                }
                assert forall|x: Seq<char>| #[trigger] self@.contains_key(x) implies pre@.insert(k, value).contains_key(x) && self@[x] == pre@.insert(k, value)[x] by {
                    let j = self.keys().index_of(x);
                    self.lemma_entry(j);
                    if j < i {
                        pre.lemma_entry(j);
                    } else if j > i {
                        pre.lemma_entry(j - 1);
                    }
                }
            }
        }
    }

    /// Removes the entry under `key`, returning its value; the entries after
    /// it keep their order.
    pub fn remove(&mut self, key: &str) -> (prev: Option<V>)
        requires
            old(self).wf(),
        ensures
            final(self).wf(),
            final(self)@ == old(self)@.remove(key@),
            prev == old(self).lookup(key@),
            !old(self)@.contains_key(key@) ==> final(self).keys() == old(self).keys()
                && final(self).values() == old(self).values(),
    {
        match self.index_of(key) {
            Some(i) => {
                proof {
                    self.lemma_entry(i as int);
                }
                let (_k, v) = self.remove_at(i);
                Some(v)
            },
            None => None,
        }
    }
}

} // verus!
