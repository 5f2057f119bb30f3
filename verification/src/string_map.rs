//! A map keyed by strings, viewed as a `Map` from character sequences to values.
use vstd::prelude::*;
use crate::text::str_eq;

verus! {

/// A map from strings to values, in which no key occurs twice.
#[derive(Debug)]
pub struct StringMap<V> {
    entries: Vec<(String, V)>,
}

impl<V> View for StringMap<V> {
    type V = Map<Seq<char>, V>;

    closed spec fn view(&self) -> Map<Seq<char>, V> {
        Map::new(
            |k: Seq<char>| self.holds_key(k),
            |k: Seq<char>| self.entries@[choose|i: int| self.key_at(i, k)].1,
        )
    }
}

impl<V> StringMap<V> {
    /// No key occurs twice.
    #[verifier::type_invariant]
    closed spec fn keys_unique(self) -> bool {
        forall|i: int, j: int|
            0 <= i < self.entries@.len() && 0 <= j < self.entries@.len() && i != j
                ==> #[trigger] self.entries@[i].0@ != #[trigger] self.entries@[j].0@
    }

    closed spec fn key_at(&self, i: int, k: Seq<char>) -> bool {
        0 <= i < self.entries@.len() && self.entries@[i].0@ == k
    }

    closed spec fn holds_key(&self, k: Seq<char>) -> bool {
        exists|i: int| self.key_at(i, k)
    }

    proof fn lemma_entry(&self, i: int)
        requires
            self.keys_unique(),
            0 <= i < self.entries@.len(),
        ensures
            self@.contains_key(self.entries@[i].0@),
            self@[self.entries@[i].0@] == self.entries@[i].1,
    {
        let k = self.entries@[i].0@;
        assert(self.key_at(i, k));
        let j = choose|j: int| self.key_at(j, k);
        assert(self.entries@[j].0@ == self.entries@[i].0@);
    }

    /// The empty map.
    pub fn new() -> (r: Self)
        ensures
            r@ == Map::<Seq<char>, V>::empty(),
    {
        let r = StringMap { entries: Vec::new() };
        assert(r@ =~= Map::<Seq<char>, V>::empty());
        r
    }

    /// The number of keys.
    pub fn len(&self) -> (r: usize)
        ensures
            r == self@.len(),
    {
        proof {
            use_type_invariant(self);
            self.lemma_len();
        }
        self.entries.len()
    }

    proof fn lemma_len(&self)
        requires
            self.keys_unique(),
        ensures
            self@.dom().finite(),
            self@.len() == self.entries@.len(),
        decreases self.entries@.len(),
    {
        let keys = self.entries@.map_values(|e: (String, V)| e.0@);
        assert forall|k: Seq<char>| self@.dom().contains(k) == keys.to_set().contains(k) by {
            if self.holds_key(k) {
                let i = choose|i: int| self.key_at(i, k);
                assert(keys[i] == k);
            }
            if keys.contains(k) {
                let i = choose|i: int| 0 <= i < keys.len() && keys[i] == k;
                assert(self.key_at(i, k));
            }
        }
        assert(self@.dom() =~= keys.to_set());
        assert forall|i: int, j: int|
            0 <= i < keys.len() && 0 <= j < keys.len() && i != j implies keys[i] != keys[j] by {
            assert(self.entries@[i].0@ != self.entries@[j].0@);
        }
        assert(keys.no_duplicates());
        keys.unique_seq_to_set();
    }

    /// The position of `key`, if it is a key.
    fn find(&self, key: &str) -> (r: Option<usize>)
        ensures
            match r {
                Some(i) => self.key_at(i as int, key@),
                None => !self.holds_key(key@),
            },
    {
        let mut i: usize = 0;
        while i < self.entries.len()
            invariant
                i <= self.entries@.len(),
                forall|j: int| 0 <= j < i ==> self.entries@[j].0@ != key@,
            decreases self.entries@.len() - i,
        {
            if str_eq(self.entries[i].0.as_str(), key) {
                return Some(i);
            }
            i = i + 1;
        }
        None
    }

    /// Whether `key` is a key.
    pub fn contains_key(&self, key: &str) -> (r: bool)
        ensures
            r == self@.contains_key(key@),
    {
        self.find(key).is_some()
    }

    /// The value of `key`, if it is a key.
    pub fn get(&self, key: &str) -> (r: Option<&V>)
        ensures
            match r {
                Some(v) => self@.contains_key(key@) && *v == self@[key@],
                None => !self@.contains_key(key@),
            },
    {
        proof {
            use_type_invariant(self);
        }
        match self.find(key) {
            Some(i) => {
                proof {
                    self.lemma_entry(i as int);
                }
                Some(&self.entries[i].1)
            },
            None => None,
        }
    }

    /// Sets the value of `key`, giving back the value it had, if any.
    pub fn insert(&mut self, key: String, value: V) -> (r: Option<V>)
        ensures
            final(self)@ == old(self)@.insert(key@, value),
            r == (if old(self)@.contains_key(key@) {
                Some(old(self)@[key@])
            } else {
                None
            }),
    {
        proof {
            use_type_invariant(&*self);
        }
        let ghost old_map = self@;
        let ghost k = key@;
        match self.find(key.as_str()) {
            Some(i) => {
                proof {
                    self.lemma_entry(i as int);
                }
                let mut entries: Vec<(String, V)> = Vec::new();
                std::mem::swap(&mut entries, &mut self.entries);
                let (old_key, old_value) = entries.remove(i);
                entries.insert(i, (old_key, value));
                proof {
                    assert forall|a: int, b: int|
                        0 <= a < entries@.len() && 0 <= b < entries@.len() && a != b
                            implies #[trigger] entries@[a].0@ != #[trigger] entries@[b].0@ by {
                        assert(entries@[a].0 == old(self).entries@[a].0);
                        assert(entries@[b].0 == old(self).entries@[b].0);
                    }
                }
                self.entries = entries;
                proof {
                    assert forall|a: int, b: int|
                        0 <= a < self.entries@.len() && 0 <= b < self.entries@.len() && a != b
                            implies #[trigger] self.entries@[a].0@ != #[trigger] self.entries@[b].0@ by {
                        assert(self.entries@[a].0 == old(self).entries@[a].0);
                        assert(self.entries@[b].0 == old(self).entries@[b].0);
                    }
                    assert forall|kk: Seq<char>| self.holds_key(kk) == old(self).holds_key(kk) by {
                        if self.holds_key(kk) {
                            let j = choose|j: int| self.key_at(j, kk);
                            assert(old(self).key_at(j, kk));
                        }
                        if old(self).holds_key(kk) {
                            let j = choose|j: int| old(self).key_at(j, kk);
                            assert(self.key_at(j, kk));
                        }
                    }
                    assert forall|kk: Seq<char>| self.holds_key(kk) implies self@[kk] == (
                    if kk == k {
                        value
                    } else {
                        old_map[kk]
                    }) by {
                        let j = choose|j: int| self.key_at(j, kk);
                        self.lemma_entry(j);
                        if kk != k {
                            assert(j != i);
                            old(self).lemma_entry(j);
                        }
                    }
                    assert(self@ =~= old_map.insert(k, value));
                }
                Some(old_value)
            },
            None => {
                let mut entries: Vec<(String, V)> = Vec::new();
                std::mem::swap(&mut entries, &mut self.entries);
                entries.push((key, value));
                proof {
                    let n = old(self).entries@.len() as int;
                    assert forall|a: int, b: int|
                        0 <= a < entries@.len() && 0 <= b < entries@.len() && a != b
                            implies #[trigger] entries@[a].0@ != #[trigger] entries@[b].0@ by {
                        if a == n {
                            assert(!old(self).key_at(b, k));
                        } else if b == n {
                            assert(!old(self).key_at(a, k));
                        }
                    }
                }
                self.entries = entries;
                proof {
                    let n = old(self).entries@.len() as int;
                    assert forall|kk: Seq<char>| self.holds_key(kk) == (old(self).holds_key(kk)
                        || kk == k) by {
                        if self.holds_key(kk) {
                            let j = choose|j: int| self.key_at(j, kk);
                            if j < n {
                                assert(old(self).key_at(j, kk));
                            }
                        }
                        if old(self).holds_key(kk) {
                            let j = choose|j: int| old(self).key_at(j, kk);
                            assert(self.key_at(j, kk));
                        }
                        if kk == k {
                            assert(self.key_at(n, kk));
                        }
                    }
                    assert forall|kk: Seq<char>| self.holds_key(kk) implies self@[kk] == (
                    if kk == k {
                        value
                    } else {
                        old_map[kk]
                    }) by {
                        let j = choose|j: int| self.key_at(j, kk);
                        self.lemma_entry(j);
                        if kk != k {
                            assert(j != n);
                            old(self).lemma_entry(j);
                        } else if j < n {
                            assert(old(self).key_at(j, kk));
                        }
                    }
                    assert(self@ =~= old_map.insert(k, value));
                }
                None
            },
        }
    }

    /// The keys, each once, in no promised order.
    pub fn keys(&self) -> (r: Vec<String>)
        ensures
            r@.len() == self@.len(),
            forall|i: int| 0 <= i < r@.len() ==> self@.contains_key(#[trigger] r@[i]@),
            forall|k: Seq<char>|
                #[trigger] self@.contains_key(k) ==> exists|i: int| 0 <= i < r@.len() && r@[i]@ == k,
    {
        proof {
            use_type_invariant(self);
            self.lemma_len();
        }
        let mut r: Vec<String> = Vec::new();
        let mut i: usize = 0;
        while i < self.entries.len()
            invariant
                self.keys_unique(),
                i <= self.entries@.len(),
                r@.len() == i,
                forall|j: int| 0 <= j < i ==> #[trigger] r@[j]@ == self.entries@[j].0@,
            decreases self.entries@.len() - i,
        {
            r.push(self.entries[i].0.clone());
            i = i + 1;
        }
        proof {
            assert forall|j: int| 0 <= j < r@.len() implies self@.contains_key(#[trigger] r@[j]@) by {
                self.lemma_entry(j);
            }
            assert forall|k: Seq<char>| #[trigger] self@.contains_key(k) implies exists|j: int|
                0 <= j < r@.len() && r@[j]@ == k by {
                let j = choose|j: int| self.key_at(j, k);
                assert(r@[j]@ == k);
            }
        }
        r
    }
}

impl<V: Clone> Clone for StringMap<V> {
    /// A map with the same keys, each value cloned.
    fn clone(&self) -> (r: Self)
        ensures
            r@.dom() == self@.dom(),
            forall|k: Seq<char>| #[trigger] r@.contains_key(k) ==> cloned::<V>(self@[k], r@[k]),
    {
        proof {
            use_type_invariant(self);
        }
        let mut entries: Vec<(String, V)> = Vec::new();
        let mut i: usize = 0;
        while i < self.entries.len()
            invariant
                self.keys_unique(),
                i <= self.entries@.len(),
                entries@.len() == i,
                forall|j: int| 0 <= j < i ==> #[trigger] entries@[j].0@ == self.entries@[j].0@,
                forall|j: int|
                    0 <= j < i ==> cloned::<V>(self.entries@[j].1, #[trigger] entries@[j].1),
            decreases self.entries@.len() - i,
        {
            let k = self.entries[i].0.clone();
            let v = self.entries[i].1.clone();
            entries.push((k, v));
            i = i + 1;
        }
        let r = StringMap { entries };
        proof {
            assert forall|kk: Seq<char>| r.holds_key(kk) == self.holds_key(kk) by {
                if r.holds_key(kk) {
                    let j = choose|j: int| r.key_at(j, kk);
                    assert(self.key_at(j, kk));
                }
                if self.holds_key(kk) {
                    let j = choose|j: int| self.key_at(j, kk);
                    assert(r.key_at(j, kk));
                }
            }
            assert(r@.dom() =~= self@.dom());
            assert forall|kk: Seq<char>| #[trigger] r@.contains_key(kk) implies cloned::<V>(
                self@[kk],
                r@[kk],
            ) by {
                let j = choose|j: int| r.key_at(j, kk);
                r.lemma_entry(j);
                self.lemma_entry(j);
            }
        }
        r
    }
}

} // verus!
