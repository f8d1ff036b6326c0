//! A map keyed by strings, kept as a list of entries with distinct keys.
//!
//! The relay and the node keep several tables keyed by an identifier (bridges,
//! nodes, sessions, announced services); this is the one structure behind
//! them. Its view is a `Map` from the key's characters to the value.
use vstd::prelude::*;

verus! {

/// A table from string keys to values; each key occurs at most once.
#[derive(Debug)]
pub struct KeyedList<V> {
    entries: Vec<(String, V)>,
}

/// Whether `i` is a position of key `k` in `e`.
pub open spec fn key_at<V>(e: Seq<(String, V)>, i: int, k: Seq<char>) -> bool {
    0 <= i < e.len() && e[i].0@ == k
}

/// Keys in `e` are pairwise distinct.
pub open spec fn distinct_keys<V>(e: Seq<(String, V)>) -> bool {
    forall|i: int, j: int|
        0 <= i < e.len() && 0 <= j < e.len() && i != j ==> #[trigger] e[i].0@ != #[trigger] e[j].0@
}

/// The map that an entry list stands for.
pub open spec fn map_of<V>(e: Seq<(String, V)>) -> Map<Seq<char>, V> {
    Map::new(
        |k: Seq<char>| exists|i: int| key_at(e, i, k),
        |k: Seq<char>| e[choose|i: int| key_at(e, i, k)].1,
    )
}

impl<V> KeyedList<V> {
    #[verifier::type_invariant]
    spec fn inv(self) -> bool {
        distinct_keys(self.entries@)
    }

    /// The table as a map.
    pub closed spec fn view(&self) -> Map<Seq<char>, V> {
        map_of(self.entries@)
    }

    /// Number of entries.
    pub closed spec fn spec_len(&self) -> nat {
        self.entries@.len()
    }

    /// Key of the entry at position `i`.
    pub closed spec fn spec_key(&self, i: int) -> Seq<char> {
        self.entries@[i].0@
    }

    /// Value of the entry at position `i`.
    pub closed spec fn spec_value(&self, i: int) -> V {
        self.entries@[i].1
    }

    proof fn lemma_unique(self, i: int, k: Seq<char>)
        requires
            distinct_keys(self.entries@),
            key_at(self.entries@, i, k),
        ensures
            self@.contains_key(k),
            self@[k] == self.entries@[i].1,
    {
        let e = self.entries@;
        let j = choose|j: int| key_at(e, j, k);
        assert(key_at(e, j, k));
        assert(j == i);
    }

    /// An empty table.
    pub fn new() -> (res: Self)
        ensures
            res@ == Map::<Seq<char>, V>::empty(),
            res.spec_len() == 0,
    {
        let res = Self { entries: Vec::new() };
        assert(res@ =~= Map::<Seq<char>, V>::empty());
        res
    }

    /// Number of entries; the positions below it enumerate the table, each
    /// key at exactly one of them.
    pub fn len(&self) -> (res: usize)
        ensures
            res == self.spec_len(),
            forall|i: int|
                0 <= i < self.spec_len() ==> self@.contains_key(#[trigger] self.spec_key(i))
                    && self@[self.spec_key(i)] == self.spec_value(i),
            forall|k: Seq<char>|
                #[trigger] self@.contains_key(k) ==> exists|i: int|
                    0 <= i < self.spec_len() && self.spec_key(i) == k,
            forall|i: int, j: int|
                0 <= i < self.spec_len() && 0 <= j < self.spec_len() && i != j ==> self.spec_key(i)
                    != self.spec_key(j),
    {
        proof {
            use_type_invariant(self);
            assert forall|i: int| 0 <= i < self.spec_len() implies self@.contains_key(
                #[trigger] self.spec_key(i),
            ) && self@[self.spec_key(i)] == self.spec_value(i) by {
                self.lemma_unique(i, self.spec_key(i));
            }
            assert forall|k: Seq<char>| #[trigger] self@.contains_key(k) implies exists|i: int|
                0 <= i < self.spec_len() && self.spec_key(i) == k by {
                let i = choose|i: int| key_at(self.entries@, i, k);
                assert(self.spec_key(i) == k);
            }
        }
        self.entries.len()
    }

    /// Position of `key`, if present.
    fn position(&self, key: &String) -> (res: Option<usize>)
        ensures
            match res {
                Some(i) => key_at(self.entries@, i as int, key@),
                None => !self@.contains_key(key@),
            },
    {
        let mut i: usize = 0;
        while i < self.entries.len()
            invariant
                0 <= i <= self.entries@.len(),
                forall|j: int| 0 <= j < i ==> self.entries@[j].0@ != key@,
            decreases self.entries.len() - i,
        {
            if self.entries[i].0 == *key {
                return Some(i);
            }
            i = i + 1;
        }
        None
    }

    /// The value stored under `key`.
    pub fn get(&self, key: &String) -> (res: Option<&V>)
        ensures
            match res {
                Some(v) => self@.contains_key(key@) && *v == self@[key@],
                None => !self@.contains_key(key@),
            },
    {
        proof {
            use_type_invariant(self);
        }
        match self.position(key) {
            Some(i) => {
                proof {
                    self.lemma_unique(i as int, key@);
                }
                Some(&self.entries[i].1)
            },
            None => None,
        }
    }

    /// Whether `key` is present.
    pub fn contains_key(&self, key: &String) -> (res: bool)
        ensures
            res == self@.contains_key(key@),
    {
        self.get(key).is_some()
    }

    /// The entry at position `i`.
    pub fn entry(&self, i: usize) -> (res: (&String, &V))
        requires
            i < self.spec_len(),
        ensures
            res.0@ == self.spec_key(i as int),
            *res.1 == self.spec_value(i as int),
    {
        let e = &self.entries[i];
        (&e.0, &e.1)
    }

    /// Stores `value` under `key`, replacing any previous value.
    pub fn insert(&mut self, key: String, value: V)
        ensures
            final(self)@ == old(self)@.insert(key@, value),
    {
        proof {
            use_type_invariant(&*self);
        }
        let ghost k = key@;
        let ghost old_e = self.entries@;
        let mut entries: Vec<(String, V)> = Vec::new();
        match self.position(&key) {
            Some(i) => {
                std::mem::swap(&mut entries, &mut self.entries);
                entries.set(i, (key, value));
                proof {
                    let e = entries@;
                    assert(e =~= old_e.update(i as int, (e[i as int].0, value)));
                    assert forall|a: int, b: int|
                        0 <= a < e.len() && 0 <= b < e.len() && a != b implies #[trigger] e[a].0@
                        != #[trigger] e[b].0@ by {
                        if a != i && b != i {
                            assert(old_e[a].0@ != old_e[b].0@);
                        } else if a == i {
                            assert(old_e[i as int].0@ != old_e[b].0@);
                        } else {
                            assert(old_e[a].0@ != old_e[i as int].0@);
                        }
                    }
                }
            },
            None => {
                std::mem::swap(&mut entries, &mut self.entries);
                entries.push((key, value));
                proof {
                    let e = entries@;
                    assert forall|a: int, b: int|
                        0 <= a < e.len() && 0 <= b < e.len() && a != b implies #[trigger] e[a].0@
                        != #[trigger] e[b].0@ by {
                        if a < old_e.len() && b < old_e.len() {
                            assert(old_e[a].0@ != old_e[b].0@);
                        } else if a == old_e.len() {
                            assert(!key_at(old_e, b, k));
                        } else {
                            assert(!key_at(old_e, a, k));
                        }
                    }
                }
            },
        }
        self.entries = entries;
        proof {
            let e = self.entries@;
            let m = old(self)@.insert(k, value);
            assert forall|q: Seq<char>| #[trigger] self@.contains_key(q) == m.contains_key(q) by {
                if m.contains_key(q) && q != k {
                    let j = choose|j: int| key_at(old_e, j, q);
                    assert(key_at(e, j, q));
                }
                if self@.contains_key(q) && q != k {
                    let j = choose|j: int| key_at(e, j, q);
                    assert(key_at(old_e, j, q));
                }
                if q == k {
                    let j = if key_at(e, old_e.len() as int, k) {
                        old_e.len() as int
                    } else {
                        choose|j: int| key_at(old_e, j, k)
                    };
                    assert(key_at(e, j, k));
                }
            }
            assert forall|q: Seq<char>| #[trigger] self@.contains_key(q) implies self@[q]
                == m[q] by {
                let j = choose|j: int| key_at(e, j, q);
                self.lemma_unique(j, q);
                if q != k {
                    assert(key_at(old_e, j, q));
                    old(self).lemma_unique(j, q);
                }
            }
            assert(self@ =~= m);
        }
    }

    /// Removes `key`; returns the value it had.
    pub fn remove(&mut self, key: &String) -> (res: Option<V>)
        ensures
            final(self)@ == old(self)@.remove(key@),
            res == (if old(self)@.contains_key(key@) {
                Some(old(self)@[key@])
            } else {
                None
            }),
    {
        proof {
            use_type_invariant(&*self);
        }
        let ghost k = key@;
        let ghost old_e = self.entries@;
        match self.position(key) {
            Some(i) => {
                proof {
                    old(self).lemma_unique(i as int, k);
                }
                let mut entries: Vec<(String, V)> = Vec::new();
                std::mem::swap(&mut entries, &mut self.entries);
                let (_, v) = entries.remove(i);
                proof {
                    let e = entries@;
                    assert forall|a: int| 0 <= a < e.len() implies #[trigger] e[a] == old_e[if a
                        < i {
                        a
                    } else {
                        a + 1
                    }] by {}
                    assert forall|a: int, b: int|
                        0 <= a < e.len() && 0 <= b < e.len() && a != b implies #[trigger] e[a].0@
                        != #[trigger] e[b].0@ by {
                        let a2 = if a < i {
                            a
                        } else {
                            a + 1
                        };
                        let b2 = if b < i {
                            b
                        } else {
                            b + 1
                        };
                        assert(e[a] == old_e[a2]);
                        assert(e[b] == old_e[b2]);
                        assert(old_e[a2].0@ != old_e[b2].0@);
                    }
                }
                self.entries = entries;
                proof {
                    let e = self.entries@;
                    let m = old(self)@.remove(k);
                    assert forall|a: int| 0 <= a < e.len() implies #[trigger] e[a] == old_e[if a
                        < i {
                        a
                    } else {
                        a + 1
                    }] by {}
                    assert forall|q: Seq<char>| #[trigger] self@.contains_key(q)
                        == m.contains_key(q) by {
                        if m.contains_key(q) {
                            let j = choose|j: int| key_at(old_e, j, q);
                            assert(j != i);
                            let j2 = if j < i {
                                j
                            } else {
                                j - 1
                            };
                            assert(e[j2] == old_e[j]);
                            assert(key_at(e, j2, q));
                        }
                        if self@.contains_key(q) {
                            let j = choose|j: int| key_at(e, j, q);
                            let j2 = if j < i {
                                j
                            } else {
                                j + 1
                            };
                            assert(e[j] == old_e[j2]);
                            assert(key_at(old_e, j2, q));
                            assert(j2 != i);
                        }
                    }
                    assert forall|q: Seq<char>| #[trigger] self@.contains_key(q) implies self@[q]
                        == m[q] by {
                        let j = choose|j: int| key_at(e, j, q);
                        self.lemma_unique(j, q);
                        let j2 = if j < i {
                            j
                        } else {
                            j + 1
                        };
                        assert(e[j] == old_e[j2]);
                        old(self).lemma_unique(j2, q);
                    }
                    assert(self@ =~= m);
                }
                Some(v)
            },
            None => {
                assert(old(self)@.remove(k) =~= old(self)@);
                None
            },
        }
    }
}

} // verus!
