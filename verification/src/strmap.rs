//! A map from texts to values that keeps its keys in the order of their insertion.
use vstd::prelude::*;

use crate::text;

verus! {

/// One key with its value.
pub struct Entry<V> {
    /// The key.
    pub key: String,
    /// The value that belongs to the key.
    pub value: V,
}

/// A map from texts to values. No key occurs twice; a key that is inserted
/// again keeps its place and gets the new value.
pub struct StringMap<V> {
    entries: Vec<Entry<V>>,
}

impl<V> View for StringMap<V> {
    type V = Map<Seq<char>, V>;

    closed spec fn view(&self) -> Map<Seq<char>, V> {
        Map::new(
            |k: Seq<char>| self.keys().contains(k),
            |k: Seq<char>| self.entries@[self.keys().index_of(k)].value,
        )
    }
}

impl<V> StringMap<V> {
    /// The keys in the order of their insertion.
    pub closed spec fn keys(&self) -> Seq<Seq<char>> {
        Seq::new(self.entries@.len(), |i: int| self.entries@[i].key@)
    }

    /// No key occurs twice.
    pub open spec fn wf(&self) -> bool {
        self.keys().no_duplicates()
    }

    proof fn lemma_at(&self, i: int)
        requires
            self.wf(),
            0 <= i < self.keys().len(),
        ensures
            self@.contains_key(self.keys()[i]),
            self@[self.keys()[i]] == self.entries@[i].value,
    {
        let k = self.keys()[i];
        assert(self.keys().contains(k));
        let j = self.keys().index_of(k);
        assert(self.keys()[j] == k && 0 <= j < self.keys().len());
        assert(i == j);
    }

    /// The keys are exactly those that the map holds a value for.
    pub proof fn lemma_keys(&self)
        ensures
            forall|k: Seq<char>| #[trigger] self@.contains_key(k) <==> self.keys().contains(k),
    {
    }

    /// The map without entries.
    pub fn new() -> (r: StringMap<V>)
        ensures
            r.wf(),
            r.keys() == Seq::<Seq<char>>::empty(),
            r@ == Map::<Seq<char>, V>::empty(),
    {
        let r: StringMap<V> = StringMap { entries: Vec::new() };
        assert(r.keys() =~= Seq::<Seq<char>>::empty());
        assert(r@ =~= Map::<Seq<char>, V>::empty());
        r
    }

    /// The number of keys.
    pub fn len(&self) -> (r: usize)
        ensures
            r == self.keys().len(),
    {
        self.entries.len()
    }

    fn index_of_key(&self, key: &str) -> (r: Option<usize>)
        requires
            self.wf(),
        ensures
            match r {
                Some(i) => i < self.keys().len() && self.keys()[i as int] == key@,
                None => !self.keys().contains(key@),
            },
    {
        let mut i: usize = 0;
        while i < self.entries.len()
            invariant
                i <= self.entries.len(),
                forall|j: int| 0 <= j < i ==> self.keys()[j] != key@,
            decreases self.entries.len() - i,
        {
            if text::same(self.entries[i].key.as_str(), key) {
                return Some(i);
            }
            i = i + 1;
        }
        None
    }

    /// Whether the map holds a value for `key`.
    pub fn contains_key(&self, key: &str) -> (r: bool)
        requires
            self.wf(),
        ensures
            r == self@.contains_key(key@),
    {
        self.index_of_key(key).is_some()
    }

    /// The value that belongs to `key`.
    pub fn get(&self, key: &str) -> (r: Option<&V>)
        requires
            self.wf(),
        ensures
            match r {
                Some(v) => self@.contains_key(key@) && *v == self@[key@],
                None => !self@.contains_key(key@),
            },
    {
        match self.index_of_key(key) {
            Some(i) => {
                proof {
                    self.lemma_at(i as int);
                }
                Some(&self.entries[i].value)
            },
            None => None,
        }
    }

    /// The key at place `i`.
    pub fn key_at(&self, i: usize) -> (r: Option<&String>)
        requires
            self.wf(),
        ensures
            match r {
                Some(k) => i < self.keys().len() && k@ == self.keys()[i as int]
                    && self@.contains_key(k@),
                None => i >= self.keys().len(),
            },
    {
        if i < self.entries.len() {
            proof {
                self.lemma_at(i as int);
            }
            Some(&self.entries[i].key)
        } else {
            None
        }
    }

    /// The value at place `i`.
    pub fn value_at(&self, i: usize) -> (r: &V)
        requires
            self.wf(),
            i < self.keys().len(),
        ensures
            *r == self@[self.keys()[i as int]],
    {
        proof {
            self.lemma_at(i as int);
        }
        &self.entries[i].value
    }

    /// Gives `key` the value `value`. A new key comes last.
    pub fn insert(&mut self, key: String, value: V)
        requires
            old(self).wf(),
        ensures
            final(self).wf(),
            final(self)@ == old(self)@.insert(key@, value),
            final(self).keys() == if old(self)@.contains_key(key@) {
                old(self).keys()
            } else {
                old(self).keys().push(key@)
            },
    {
        let ghost before = *self;
        match self.index_of_key(key.as_str()) {
            Some(i) => {
                let ghost k = key@;
                self.entries.set(i, Entry { key, value });
                proof {
                    assert(self.keys() =~= before.keys());
                    assert forall|q: Seq<char>| self@.contains_key(q) implies self@[q]
                        == before@.insert(k, value)[q] by {
                        let j = self.keys().index_of(q);
                        assert(self.keys()[j] == q && 0 <= j < self.keys().len());
                        self.lemma_at(j);
                        before.lemma_at(j);
                    }
                    before.lemma_at(i as int);
                    assert(self@ =~= before@.insert(k, value));
                }
            },
            None => {
                let ghost k = key@;
                self.entries.push(Entry { key, value });
                proof {
                    assert(self.keys() =~= before.keys().push(k));
                    let n = before.keys().len() as int;
                    assert(self.keys()[n] == k);
                    assert(self.keys().no_duplicates());
                    assert forall|q: Seq<char>|
                        self@.contains_key(q) <==> before@.insert(k, value).contains_key(q) by {
                        if before.keys().contains(q) {
                            let j = before.keys().index_of(q);
                            assert(self.keys()[j] == q);
                        }
                    }
                    assert forall|q: Seq<char>| self@.contains_key(q) implies self@[q]
                        == before@.insert(k, value)[q] by {
                        let j = self.keys().index_of(q);
                        assert(self.keys()[j] == q && 0 <= j < self.keys().len());
                        self.lemma_at(j);
                        if j < n {
                            before.lemma_at(j);
                        }
                    }
                    assert(self@ =~= before@.insert(k, value));
                }
            },
        }
    }

    /// Takes `key` and its value out of the map.
    pub fn remove(&mut self, key: &str)
        requires
            old(self).wf(),
        ensures
            final(self).wf(),
            final(self)@ == old(self)@.remove(key@),
            final(self).keys() == old(self).keys().remove_value(key@),
    {
        let ghost before = *self;
        match self.index_of_key(key) {
            Some(i) => {
                self.entries.remove(i);
                proof {
                    let at = before.keys().index_of(key@);
                    assert(before.keys().contains(key@));
                    assert(at == i);
                    assert(before.keys().index_of_first(key@) == Some(at)) by {
                        before.keys().index_of_first_ensures(key@);
                    }
                    assert(self.keys() =~= before.keys().remove(i as int));
                    assert forall|q: Seq<char>|
                        self@.contains_key(q) <==> before@.remove(key@).contains_key(q) by {
                        if self.keys().contains(q) {
                            let j = self.keys().index_of(q);
                            assert(self.keys()[j] == q);
                            let m = if j < i { j } else { j + 1 };
                            assert(before.keys()[m] == q);
                        }
                        if before.keys().contains(q) && q != key@ {
                            let m = before.keys().index_of(q);
                            assert(before.keys()[m] == q);
                            let j = if m < i { m } else { m - 1 };
                            assert(self.keys()[j] == q);
                        }
                    }
                    assert forall|q: Seq<char>| self@.contains_key(q) implies self@[q]
                        == before@.remove(key@)[q] by {
                        let j = self.keys().index_of(q);
                        assert(self.keys()[j] == q && 0 <= j < self.keys().len());
                        self.lemma_at(j);
                        let m = if j < i { j } else { j + 1 };
                        before.lemma_at(m);
                    }
                    assert(self@ =~= before@.remove(key@));
                }
            },
            None => {
                proof {
                    before.keys().index_of_first_ensures(key@);
                    assert(self@ =~= before@.remove(key@));
                }
            },
        }
    }

    /// Takes all entries out of the map.
    pub fn clear(&mut self)
        ensures
            final(self).wf(),
            final(self)@ == Map::<Seq<char>, V>::empty(),
            final(self).keys() == Seq::<Seq<char>>::empty(),
    {
        self.entries.clear();
        assert(self.keys() =~= Seq::<Seq<char>>::empty());
        assert(self@ =~= Map::<Seq<char>, V>::empty());
    }
}

} // verus!
