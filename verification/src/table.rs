//! A small map keyed by text, kept as a list in insertion order.

use vstd::prelude::*;

verus! {

/// A finite map from text keys to values. No key occurs twice; entries keep the
/// order in which their keys were first inserted.
pub struct Table<V> {
    keys: Vec<String>,
    values: Vec<V>,
}

/// The position of the key `k` in `keys`, where it occurs.
pub open spec fn position_of(keys: Seq<String>, k: Seq<char>) -> int {
    choose|i: int| 0 <= i < keys.len() && keys[i]@ == k
}

impl<V> Table<V> {
    /// The keys in insertion order.
    pub closed spec fn spec_keys(&self) -> Seq<String> {
        self.keys@
    }

    /// The values, each at the position of its key.
    pub closed spec fn spec_values(&self) -> Seq<V> {
        self.values@
    }

    /// Keys and values pair up, and no key occurs twice.
    pub open spec fn wf(&self) -> bool {
        &&& self.spec_keys().len() == self.spec_values().len()
        &&& forall|i: int, j: int|
            0 <= i < j < self.spec_keys().len() ==> self.spec_keys()[i]@ != self.spec_keys()[j]@
    }

    /// Whether `k` is a key of the table.
    pub open spec fn has(&self, k: Seq<char>) -> bool {
        exists|i: int| 0 <= i < self.spec_keys().len() && #[trigger] self.spec_keys()[i]@ == k
    }

    /// The table as a map.
    pub open spec fn view(&self) -> Map<Seq<char>, V> {
        Map::new(|k: Seq<char>| self.has(k), |k: Seq<char>| self.spec_values()[position_of(self.spec_keys(), k)])
    }

    /// In a well-formed table the entry at position `i` is what the map holds
    /// under the key at `i`.
    pub proof fn lemma_entry(&self, i: int)
        requires
            self.wf(),
            0 <= i < self.spec_keys().len(),
        ensures
            self.has(self.spec_keys()[i]@),
            self@.contains_key(self.spec_keys()[i]@),
            position_of(self.spec_keys(), self.spec_keys()[i]@) == i,
            self@[self.spec_keys()[i]@] == self.spec_values()[i],
    {
        let k = self.spec_keys()[i]@;
        assert(self.spec_keys()[i]@ == k);
        let p = position_of(self.spec_keys(), k);
        assert(0 <= p < self.spec_keys().len() && self.spec_keys()[p]@ == k);
        if p < i {
            assert(self.spec_keys()[p]@ != self.spec_keys()[i]@);
        } else if i < p {
            assert(self.spec_keys()[i]@ != self.spec_keys()[p]@);
        }
    }

    /// An empty table.
    pub fn new() -> (t: Self)
        ensures
            t.wf(),
            t@ == Map::<Seq<char>, V>::empty(),
            t.spec_keys().len() == 0,
    {
        let t = Table { keys: Vec::new(), values: Vec::new() };
        proof {
            assert(t@ =~= Map::<Seq<char>, V>::empty());
        }
        t
    }

    /// The number of entries.
    pub fn len(&self) -> (n: usize)
        requires
            self.wf(),
        ensures
            n == self.spec_keys().len(),
            n == self.spec_values().len(),
    {
        self.keys.len()
    }

    /// The position of `key`, if the table has it.
    pub fn index_of(&self, key: &String) -> (res: Option<usize>)
        requires
            self.wf(),
        ensures
            res is Some <==> self@.contains_key(key@),
            res matches Some(i) ==> i < self.spec_keys().len() && self.spec_keys()[i as int]@ == key@
                && self@[key@] == self.spec_values()[i as int],
    {
        let mut i: usize = 0;
        while i < self.keys.len()
            invariant
                i <= self.keys.len(),
                self.wf(),
                forall|j: int| 0 <= j < i ==> self.spec_keys()[j]@ != key@,
            decreases self.keys.len() - i,
        {
            if self.keys[i] == *key {
                proof {
                    self.lemma_entry(i as int);
                }
                return Some(i);
            }
            i = i + 1;
        }
        None
    }

    /// The key at position `i`.
    pub fn key_at(&self, i: usize) -> (k: &String)
        requires
            self.wf(),
            i < self.spec_keys().len(),
        ensures
            *k == self.spec_keys()[i as int],
            self@.contains_key(k@),
    {
        proof {
            self.lemma_entry(i as int);
        }
        &self.keys[i]
    }

    /// The value at position `i`.
    pub fn value_at(&self, i: usize) -> (v: &V)
        requires
            self.wf(),
            i < self.spec_keys().len(),
        ensures
            *v == self.spec_values()[i as int],
            *v == self@[self.spec_keys()[i as int]@],
    {
        proof {
            self.lemma_entry(i as int);
        }
        &self.values[i]
    }

    /// The value under `key`, if the table has it.
    pub fn get(&self, key: &String) -> (res: Option<&V>)
        requires
            self.wf(),
        ensures
            res is Some <==> self@.contains_key(key@),
            res matches Some(v) ==> *v == self@[key@],
    {
        match self.index_of(key) {
            Some(i) => Some(&self.values[i]),
            None => None,
        }
    }

    /// Replaces the value at position `i`.
    pub fn set_at(&mut self, i: usize, value: V)
        requires
            old(self).wf(),
            i < old(self).spec_keys().len(),
        ensures
            final(self).wf(),
            final(self).spec_keys() == old(self).spec_keys(),
            final(self).spec_values() == old(self).spec_values().update(i as int, value),
            final(self)@ == old(self)@.insert(old(self).spec_keys()[i as int]@, value),
    {
        let ghost before = *self;
        self.values.set(i, value);
        proof {
            let after = *self;
            let k = before.spec_keys()[i as int]@;
            assert forall|q: Seq<char>| after.has(q) == before.has(q) by {}
            assert forall|q: Seq<char>| #[trigger] after@.contains_key(q) implies after@[q]
                == before@.insert(k, value)[q] by {
                let p = position_of(after.spec_keys(), q);
                before.lemma_entry(p);
                before.lemma_entry(i as int);
            }
            before.lemma_entry(i as int);
            assert(after@ =~= before@.insert(k, value));
        }
    }

    /// Replaces the value at position `i` and returns the value that was there.
    pub fn replace_at(&mut self, i: usize, value: V) -> (previous: V)
        requires
            old(self).wf(),
            i < old(self).spec_keys().len(),
        ensures
            final(self).wf(),
            final(self).spec_keys() == old(self).spec_keys(),
            final(self).spec_values() == old(self).spec_values().update(i as int, value),
            final(self)@ == old(self)@.insert(old(self).spec_keys()[i as int]@, value),
            previous == old(self).spec_values()[i as int],
            previous == old(self)@[old(self).spec_keys()[i as int]@],
    {
        let ghost before = *self;
        self.values.push(value);
        let previous = self.values.swap_remove(i);
        proof {
            let after = *self;
            let k = before.spec_keys()[i as int]@;
            assert(after.spec_values() =~= before.spec_values().update(i as int, value));
            assert(after.spec_keys() == before.spec_keys());
            assert forall|q: Seq<char>| after.has(q) == before.has(q) by {}
            assert forall|q: Seq<char>| #[trigger] after@.contains_key(q) implies after@[q]
                == before@.insert(k, value)[q] by {
                let p = position_of(after.spec_keys(), q);
                before.lemma_entry(p);
                before.lemma_entry(i as int);
            }
            before.lemma_entry(i as int);
            assert(after@ =~= before@.insert(k, value));
        }
        previous
    }

    /// Puts `value` under `key`: in place of the value that the key had, or as a
    /// new last entry.
    pub fn insert(&mut self, key: String, value: V)
        requires
            old(self).wf(),
        ensures
            final(self).wf(),
            final(self)@ == old(self)@.insert(key@, value),
            old(self)@.contains_key(key@) ==> final(self).spec_keys() == old(self).spec_keys(),
            !old(self)@.contains_key(key@) ==> final(self).spec_keys() == old(self).spec_keys().push(key),
    {
        let ghost before = *self;
        match self.index_of(&key) {
            Some(i) => {
                self.set_at(i, value);
            },
            None => {
                self.keys.push(key);
                self.values.push(value);
                proof {
                    let after = *self;
                    let n = before.spec_keys().len() as int;
                    assert forall|i: int, j: int| 0 <= i < j < after.spec_keys().len() implies after.spec_keys()[i]@
                        != after.spec_keys()[j]@ by {
                        if j == n {
                            assert(before.spec_keys()[i]@ == after.spec_keys()[i]@);
                            assert(!before.has(key@));
                        }
                    }
                    assert(after.spec_keys()[n]@ == key@);
                    assert forall|q: Seq<char>| after.has(q) == (before.has(q) || q == key@) by {
                        if before.has(q) {
                            let p = choose|p: int| 0 <= p < n && #[trigger] before.spec_keys()[p]@ == q;
                            assert(after.spec_keys()[p]@ == q);
                        }
                        if after.has(q) && q != key@ {
                            let p = choose|p: int| 0 <= p < n + 1 && #[trigger] after.spec_keys()[p]@ == q;
                            assert(before.spec_keys()[p]@ == q);
                        }
                    }
                    assert forall|q: Seq<char>| #[trigger] after@.contains_key(q) implies after@[q]
                        == before@.insert(key@, value)[q] by {
                        let p = position_of(after.spec_keys(), q);
                        after.lemma_entry(p);
                        if p < n {
                            assert(before.spec_keys()[p]@ == q);
                            before.lemma_entry(p);
                        }
                    }
                    assert(after@ =~= before@.insert(key@, value));
                }
            },
        }
    }

    /// Takes the entry under `key` out of the table and returns its value.
    pub fn remove(&mut self, key: &String) -> (res: Option<V>)
        requires
            old(self).wf(),
        ensures
            final(self).wf(),
            final(self)@ == old(self)@.remove(key@),
            res is Some <==> old(self)@.contains_key(key@),
            res matches Some(v) ==> v == old(self)@[key@],
    {
        let ghost before = *self;
        match self.index_of(key) {
            Some(i) => {
                let _ = self.keys.remove(i);
                let v = self.values.remove(i);
                proof {
                    let after = *self;
                    let n = before.spec_keys().len() as int;
                    assert forall|a: int| 0 <= a < n - 1 implies #[trigger] after.spec_keys()[a]
                        == before.spec_keys()[if a < i { a } else { a + 1 }] by {}
                    assert forall|a: int, b: int| 0 <= a < b < after.spec_keys().len() implies after.spec_keys()[a]@
                        != after.spec_keys()[b]@ by {
                        let a0 = if a < i { a } else { a + 1 };
                        let b0 = if b < i { b } else { b + 1 };
                        assert(before.spec_keys()[a0]@ != before.spec_keys()[b0]@);
                    }
                    assert forall|q: Seq<char>| after.has(q) == (before.has(q) && q != key@) by {
                        if before.has(q) && q != key@ {
                            let p = choose|p: int| 0 <= p < n && #[trigger] before.spec_keys()[p]@ == q;
                            let lower = if p < i { p } else { p - 1 };
                            assert(after.spec_keys()[lower]@ == q);
                        }
                        if after.has(q) {
                            let p = choose|p: int| 0 <= p < n - 1 && #[trigger] after.spec_keys()[p]@ == q;
                            let upper = if p < i { p } else { p + 1 };
                            assert(before.spec_keys()[upper]@ == q);
                            if upper < i {
                                assert(before.spec_keys()[upper]@ != before.spec_keys()[i as int]@);
                            } else {
                                assert(before.spec_keys()[i as int]@ != before.spec_keys()[upper]@);
                            }
                        }
                    }
                    assert forall|q: Seq<char>| #[trigger] after@.contains_key(q) implies after@[q]
                        == before@.remove(key@)[q] by {
                        let p = position_of(after.spec_keys(), q);
                        after.lemma_entry(p);
                        let upper = if p < i { p } else { p + 1 };
                        assert(before.spec_keys()[upper]@ == q);
                        before.lemma_entry(upper);
                    }
                    assert(after@ =~= before@.remove(key@));
                }
                Some(v)
            },
            None => {
                proof {
                    assert(self@ =~= before@.remove(key@));
                }
                None
            },
        }
    }
}

} // verus!
