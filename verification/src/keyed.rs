//! Values found by a text.

use vstd::prelude::*;

use crate::text::same_text;

verus! {

/// A map from texts to values, in the order in which the texts were first put
/// in.
#[derive(Debug)]
pub struct Keyed<V> {
    entries: Vec<(String, V)>,
}

impl<V> Keyed<V> {
    /// The texts, in order.
    pub closed spec fn keys(&self) -> Seq<Seq<char>> {
        self.entries@.map_values(|e: (String, V)| e.0@)
    }

    /// The values, in the order of their texts.
    pub closed spec fn values(&self) -> Seq<V> {
        self.entries@.map_values(|e: (String, V)| e.1)
    }

    /// No text comes twice.
    pub closed spec fn wf(&self) -> bool {
        self.keys().no_duplicates()
    }

    /// The value under each text.
    pub open spec fn view(&self) -> Map<Seq<char>, V> {
        Map::new(
            |k: Seq<char>| self.keys().contains(k),
            |k: Seq<char>| self.values()[self.keys().index_of(k)],
        )
    }

    /// In a well-formed map the value under the `i`-th text is the `i`-th one.
    pub proof fn lemma_at(&self, i: int)
        requires
            self.wf(),
            0 <= i < self.keys().len(),
        ensures
            self.view().contains_key(self.keys()[i]),
            self.view()[self.keys()[i]] == self.values()[i],
    {
        let k = self.keys()[i];
        assert(self.keys().contains(k));
        let j = self.keys().index_of(k);
        assert(self.keys()[j] == k);
        assert(i == j);
    }

    pub fn new() -> (r: Keyed<V>)
        ensures
            r.wf(),
            r.keys().len() == 0,
            r.view() == Map::<Seq<char>, V>::empty(),
    {
        let r = Keyed { entries: Vec::new() };
        assert(r.view() =~= Map::<Seq<char>, V>::empty());
        r
    }

    fn find(&self, key: &str) -> (r: Option<usize>)
        ensures
            match r {
                Some(i) => i < self.entries@.len() && self.keys()[i as int] == key@,
                None => !self.keys().contains(key@),
            },
    {
        let mut i: usize = 0;
        while i < self.entries.len()
            invariant
                i <= self.entries.len(),
                forall|j: int| 0 <= j < i ==> self.keys()[j] != key@,
            decreases self.entries.len() - i,
        {
            if same_text(self.entries[i].0.as_str(), key) {
                return Some(i);
            }
            i = i + 1;
        }
        None
    }

    pub fn len(&self) -> (n: usize)
        ensures
            n == self.keys().len(),
    {
        self.entries.len()
    }

    /// The text and the value at a place.
    pub fn at(&self, i: usize) -> (r: (&str, &V))
        requires
            i < self.keys().len(),
        ensures
            r.0@ == self.keys()[i as int],
            *r.1 == self.values()[i as int],
    {
        let e = &self.entries[i];
        (e.0.as_str(), &e.1)
    }

    pub fn get(&self, key: &str) -> (r: Option<&V>)
        requires
            self.wf(),
        ensures
            match r {
                Some(v) => self.view().contains_key(key@) && *v == self.view()[key@],
                None => !self.view().contains_key(key@),
            },
    {
        match self.find(key) {
            Some(i) => {
                proof {
                    self.lemma_at(i as int);
                }
                Some(&self.entries[i].1)
            },
            None => None,
        }
    }

    /// Puts a value in, in place of one under the same text.
    pub fn insert(&mut self, key: String, value: V)
        requires
            old(self).wf(),
        ensures
            final(self).wf(),
            final(self).view() == old(self).view().insert(key@, value),
            old(self).view().contains_key(key@) ==> final(self).keys() == old(self).keys(),
            !old(self).view().contains_key(key@) ==> final(self).keys() == old(self).keys().push(
                key@,
            ),
    {
        let ghost before = *self;
        match self.find(key.as_str()) {
            Some(i) => {
                self.entries[i].1 = value;
                proof {
                    assert(self.keys() =~= before.keys());
                    before.lemma_at(i as int);
                    assert(self.values() =~= before.values().update(i as int, value));
                    assert forall|k: Seq<char>| #[trigger] self.view().contains_key(k) implies
                        self.view()[k] == before.view().insert(key@, value)[k] by {
                        let j = self.keys().index_of(k);
                        assert(self.keys()[j] == k);
                        self.lemma_at(j);
                        before.lemma_at(j);
                    }
                    assert(self.view() =~= before.view().insert(key@, value));
                }
            },
            None => {
                let ghost k0 = key@;
                self.entries.push((key, value));
                proof {
                    assert(self.keys() =~= before.keys().push(k0));
                    assert(self.values() =~= before.values().push(value));
                    let n = before.keys().len();
                    assert forall|k: Seq<char>| self.keys().contains(k) <==> (
                    before.keys().contains(k) || k == k0) by {
                        if before.keys().contains(k) {
                            let j = before.keys().index_of(k);
                            assert(self.keys()[j] == k);
                        }
                        if k == k0 {
                            assert(self.keys()[n as int] == k0);
                        }
                    }
                    assert forall|k: Seq<char>| #[trigger] self.view().contains_key(k) implies
                        self.view()[k] == before.view().insert(k0, value)[k] by {
                        let j = self.keys().index_of(k);
                        assert(self.keys()[j] == k);
                        self.lemma_at(j);
                        if j < n {
                            assert(before.keys()[j] == k);
                            before.lemma_at(j);
                        }
                    }
                    assert(self.view() =~= before.view().insert(k0, value));
                }
            },
        }
    }

    /// Takes out what is under a text.
    pub fn remove(&mut self, key: &str) -> (r: Option<V>)
        requires
            old(self).wf(),
        ensures
            final(self).wf(),
            final(self).view() == old(self).view().remove(key@),
            match r {
                Some(v) => old(self).view().contains_key(key@) && v == old(self).view()[key@],
                None => !old(self).view().contains_key(key@),
            },
    {
        let ghost before = *self;
        match self.find(key) {
            Some(i) => {
                let e = self.entries.remove(i);
                proof {
                    before.lemma_at(i as int);
                    assert(self.keys() =~= before.keys().remove(i as int));
                    assert(self.values() =~= before.values().remove(i as int));
                    assert(self.keys().no_duplicates());
                    assert forall|k: Seq<char>| self.keys().contains(k) <==> (
                    before.keys().contains(k) && k != key@) by {
                        if self.keys().contains(k) {
                            let j = self.keys().index_of(k);
                            assert(self.keys()[j] == k);
                            let b = if j < i {
                                j
                            } else {
                                j + 1
                            };
                            assert(before.keys()[b] == k);
                        }
                        if before.keys().contains(k) && k != key@ {
                            let b = before.keys().index_of(k);
                            assert(before.keys()[b] == k);
                            let j = if b < i {
                                b
                            } else {
                                b - 1
                            };
                            assert(self.keys()[j] == k);
                        }
                    }
                    assert forall|k: Seq<char>| #[trigger] self.view().contains_key(k) implies
                        self.view()[k] == before.view().remove(key@)[k] by {
                        let j = self.keys().index_of(k);
                        assert(self.keys()[j] == k);
                        self.lemma_at(j);
                        let b = if j < i {
                            j
                        } else {
                            j + 1
                        };
                        assert(before.keys()[b] == k);
                        before.lemma_at(b);
                    }
                    assert(self.view() =~= before.view().remove(key@));
                }
                Some(e.1)
            },
            None => {
                assert(self.view() =~= before.view().remove(key@));
                None
            },
        }
    }
}

} // verus!
