//! A map keyed by tier name, kept sorted by name.
//!
//! It stands where a `HashMap<String, _>` would: lookups and upserts behave
//! as a map, and walking it yields the entries in name order, so every
//! listing built from it is deterministic.

use vstd::prelude::*;
use crate::text::{lex_lt, compare_str, Order, lemma_lex_irreflexive, lemma_lex_total, lemma_lex_transitive};

verus! {

/// The keys are in strictly increasing `lex_lt` order.
pub open spec fn sorted_keys(keys: Seq<Seq<char>>) -> bool {
    forall|i: int, j: int| 0 <= i < j < keys.len() ==> lex_lt(#[trigger] keys[i], #[trigger] keys[j])
}

/// Strictly sorted keys are pairwise distinct.
pub proof fn lemma_sorted_distinct(keys: Seq<Seq<char>>, i: int, j: int)
    requires
        sorted_keys(keys),
        0 <= i < keys.len(),
        0 <= j < keys.len(),
        i != j,
    ensures
        keys[i] != keys[j],
{
    if i < j {
        assert(lex_lt(keys[i], keys[j]));
        lemma_lex_irreflexive(keys[i]);
    } else {
        assert(lex_lt(keys[j], keys[i]));
        lemma_lex_irreflexive(keys[j]);
    }
}

/// Position of `k` in `keys` (meaningful when `keys.contains(k)`).
pub open spec fn pos_of(keys: Seq<Seq<char>>, k: Seq<char>) -> int {
    choose|i: int| 0 <= i < keys.len() && keys[i] == k
}

/// The map described by parallel key and value sequences.
pub open spec fn map_of<T>(keys: Seq<Seq<char>>, vals: Seq<T>) -> Map<Seq<char>, T> {
    Map::new(|k: Seq<char>| keys.contains(k), |k: Seq<char>| vals[pos_of(keys, k)])
}

/// In a sorted key sequence, the position of a present key is its index.
pub proof fn lemma_pos_of(keys: Seq<Seq<char>>, i: int)
    requires
        sorted_keys(keys),
        0 <= i < keys.len(),
    ensures
        pos_of(keys, keys[i]) == i,
        keys.contains(keys[i]),
{
    assert(keys[i] == keys[i]);
    let p = pos_of(keys, keys[i]);
    if p != i {
        lemma_sorted_distinct(keys, p, i);
    }
}

/// With sorted keys, `map_of` holds exactly the stored pairs.
pub proof fn lemma_map_shape<T>(keys: Seq<Seq<char>>, vals: Seq<T>)
    requires
        sorted_keys(keys),
        keys.len() == vals.len(),
    ensures
        forall|i: int| 0 <= i < keys.len() ==> pos_of(keys, #[trigger] keys[i]) == i,
        forall|i: int| 0 <= i < keys.len() ==> #[trigger] map_of(keys, vals).contains_key(keys[i])
            && map_of(keys, vals)[keys[i]] == vals[i],
        forall|k: Seq<char>| #[trigger] map_of(keys, vals).contains_key(k) <==> keys.contains(k),
{
    assert forall|i: int| 0 <= i < keys.len() implies pos_of(keys, #[trigger] keys[i]) == i by {
        lemma_pos_of(keys, i);
    }
}

/// Name-sorted association list.
#[derive(Debug)]
pub struct NameMap<T> {
    entries: Vec<(String, T)>,
}

impl<T> NameMap<T> {
    /// The keys, in stored (sorted) order.
    pub closed spec fn key_seq(&self) -> Seq<Seq<char>> {
        self.entries@.map_values(|e: (String, T)| e.0@)
    }

    /// The values, in key order.
    pub closed spec fn value_seq(&self) -> Seq<T> {
        self.entries@.map_values(|e: (String, T)| e.1)
    }

    /// The map view: each stored name to its value.
    pub open spec fn as_map(&self) -> Map<Seq<char>, T> {
        map_of(self.key_seq(), self.value_seq())
    }

    #[verifier::type_invariant]
    closed spec fn inv(&self) -> bool {
        sorted_keys(self.key_seq())
    }

    /// An empty map.
    pub fn new() -> (m: Self)
        ensures
            m.as_map() == Map::<Seq<char>, T>::empty(),
            m.key_seq() == Seq::<Seq<char>>::empty(),
    {
        let m = NameMap { entries: Vec::new() };
        assert(m.key_seq() =~= Seq::<Seq<char>>::empty());
        assert(m.as_map() =~= Map::<Seq<char>, T>::empty());
        m
    }

    /// Number of entries.
    pub fn len(&self) -> (n: usize)
        ensures
            n == self.key_seq().len(),
    {
        self.entries.len()
    }

    /// Where `k` is (`Ok`) or would be inserted to keep the order (`Err`).
    fn locate(&self, k: &str) -> (r: Result<usize, usize>)
        ensures
            match r {
                Ok(i) => i < self.key_seq().len() && self.key_seq()[i as int] == k@,
                Err(i) => i <= self.key_seq().len() && !self.key_seq().contains(k@)
                    && (forall|j: int| 0 <= j < i ==> lex_lt(#[trigger] self.key_seq()[j], k@))
                    && (forall|j: int| i <= j < self.key_seq().len() ==> lex_lt(k@, #[trigger] self.key_seq()[j])),
            },
    {
        proof {
            use_type_invariant(self);
        }
        let n = self.entries.len();
        let mut i: usize = 0;
        while i < n
            invariant
                n == self.key_seq().len(),
                i <= n,
                sorted_keys(self.key_seq()),
                forall|j: int| 0 <= j < i ==> lex_lt(#[trigger] self.key_seq()[j], k@),
            decreases n - i,
        {
            let c = compare_str(self.entries[i].0.as_str(), k);
            assert(self.key_seq()[i as int] == self.entries@[i as int].0@);
            match c {
                Order::Less => {},
                Order::Equal => {
                    return Ok(i);
                },
                Order::Greater => {
                    assert forall|j: int| i <= j < n implies lex_lt(k@, #[trigger] self.key_seq()[j]) by {
                        if j > i {
                            lemma_lex_transitive(k@, self.key_seq()[i as int], self.key_seq()[j]);
                        }
                    }
                    assert(!self.key_seq().contains(k@)) by {
                        if self.key_seq().contains(k@) {
                            let j = choose|j: int| 0 <= j < n && self.key_seq()[j] == k@;
                            lemma_lex_irreflexive(k@);
                        }
                    }
                    return Err(i);
                },
            }
            i += 1;
        }
        assert(!self.key_seq().contains(k@)) by {
            if self.key_seq().contains(k@) {
                let j = choose|j: int| 0 <= j < n && self.key_seq()[j] == k@;
                lemma_lex_irreflexive(k@);
            }
        }
        Err(n)
    }

    /// The value stored under `k`, if any.
    pub fn get(&self, k: &str) -> (r: Option<&T>)
        ensures
            r == (if self.as_map().contains_key(k@) {
                Some(&self.as_map()[k@])
            } else {
                None::<&T>
            }),
    {
        proof {
            use_type_invariant(self);
            lemma_map_shape(self.key_seq(), self.value_seq());
        }
        match self.locate(k) {
            Ok(i) => {
                assert(self.value_seq()[i as int] == self.entries@[i as int].1);
                Some(&self.entries[i].1)
            },
            Err(_) => None,
        }
    }

    /// Stores `v` under `k`, returning the value it replaces.
    pub fn insert(&mut self, k: String, v: T) -> (r: Option<T>)
        ensures
            final(self).as_map() == old(self).as_map().insert(k@, v),
            r == (if old(self).as_map().contains_key(k@) {
                Some(old(self).as_map()[k@])
            } else {
                None::<T>
            }),
    {
        proof {
            use_type_invariant(&*self);
            lemma_map_shape(self.key_seq(), self.value_seq());
        }
        let ghost old_keys = self.key_seq();
        let ghost old_vals = self.value_seq();
        let loc = self.locate(k.as_str());
        let mut es: Vec<(String, T)> = Vec::new();
        std::mem::swap(&mut es, &mut self.entries);
        assert(es@.map_values(|e: (String, T)| e.0@) == old_keys);
        assert(es@.map_values(|e: (String, T)| e.1) == old_vals);
        let ghost kv = k@;
        let r = match loc {
            Ok(i) => {
                let old_entry = es.remove(i);
                es.insert(i, (k, v));
                Some(old_entry.1)
            },
            Err(i) => {
                es.insert(i, (k, v));
                None
            },
        };
        let ghost new_keys = es@.map_values(|e: (String, T)| e.0@);
        let ghost new_vals = es@.map_values(|e: (String, T)| e.1);
        match loc {
            Ok(i) => {
                assert(new_keys =~= old_keys.update(i as int, kv));
                assert(new_vals =~= old_vals.update(i as int, v));
                assert(sorted_keys(new_keys));
            },
            Err(i) => {
                assert(new_keys =~= old_keys.insert(i as int, kv));
                assert(new_vals =~= old_vals.insert(i as int, v));
                assert(sorted_keys(new_keys)) by {
                    assert forall|a: int, b: int| 0 <= a < b < new_keys.len() implies lex_lt(
                        #[trigger] new_keys[a],
                        #[trigger] new_keys[b],
                    ) by {
                        if b < i {
                        } else if a < i && b == i {
                        } else if a < i {
                            lemma_lex_transitive(new_keys[a], kv, new_keys[b]);
                        } else if a == i {
                        } else {
                        }
                    }
                }
            },
        }
        self.entries = es;
        proof {
            lemma_map_shape(new_keys, new_vals);
            assert(self.key_seq() == new_keys);
            assert(self.value_seq() == new_vals);
            let m_new = self.as_map();
            let m_old = map_of(old_keys, old_vals);
            assert forall|key: Seq<char>| #[trigger] m_new.contains_key(key) <==> m_old.insert(kv, v).contains_key(key) by {
                match loc {
                    Ok(i) => {
                        if new_keys.contains(key) {
                            let j = choose|j: int| 0 <= j < new_keys.len() && new_keys[j] == key;
                            if j != i {
                                assert(old_keys[j] == key);
                            }
                        }
                        if old_keys.contains(key) {
                            let j = choose|j: int| 0 <= j < old_keys.len() && old_keys[j] == key;
                            if j != i {
                                assert(new_keys[j] == key);
                            }
                        }
                        assert(new_keys[i as int] == kv);
                    },
                    Err(i) => {
                        if new_keys.contains(key) {
                            let j = choose|j: int| 0 <= j < new_keys.len() && new_keys[j] == key;
                            if j < i {
                                assert(old_keys[j] == key);
                            } else if j > i {
                                assert(old_keys[j - 1] == key);
                            }
                        }
                        if old_keys.contains(key) {
                            let j = choose|j: int| 0 <= j < old_keys.len() && old_keys[j] == key;
                            if j < i {
                                assert(new_keys[j] == key);
                            } else {
                                assert(new_keys[j + 1] == key);
                            }
                        }
                        assert(new_keys[i as int] == kv);
                    },
                }
            }
            assert forall|key: Seq<char>| #[trigger] m_new.contains_key(key) implies m_new[key] == m_old.insert(kv, v)[key] by {
                let j = choose|j: int| 0 <= j < new_keys.len() && new_keys[j] == key;
                lemma_pos_of(new_keys, j);
                assert(m_new[key] == new_vals[j]);
                if key == kv {
                    match loc {
                        Ok(i) => {
                            if j != i {
                                lemma_sorted_distinct(new_keys, i as int, j);
                            }
                        },
                        Err(i) => {
                            if j != i {
                                lemma_sorted_distinct(new_keys, i as int, j);
                            }
                        },
                    }
                } else {
                    match loc {
                        Ok(i) => {
                            assert(j != i);
                            lemma_pos_of(old_keys, j);
                            assert(old_keys[j] == key);
                        },
                        Err(i) => {
                            if j < i {
                                lemma_pos_of(old_keys, j);
                                assert(old_keys[j] == key);
                            } else {
                                assert(j > i);
                                lemma_pos_of(old_keys, j - 1);
                                assert(old_keys[j - 1] == key);
                            }
                        },
                    }
                }
            }
            assert(m_new =~= m_old.insert(kv, v));
            match loc {
                Ok(i) => {
                    lemma_pos_of(old_keys, i as int);
                },
                Err(i) => {},
            }
        }
        r
    }

    /// References to the values, in name order; the names are sorted and
    /// each pairs with the value at the same position.
    pub fn values(&self) -> (r: Vec<&T>)
        ensures
            r@.len() == self.value_seq().len(),
            forall|i: int| 0 <= i < r@.len() ==> *r@[i] == self.value_seq()[i],
            self.key_seq().len() == self.value_seq().len(),
            sorted_keys(self.key_seq()),
            forall|i: int| 0 <= i < self.key_seq().len() ==> #[trigger] self.as_map().contains_key(self.key_seq()[i])
                && self.as_map()[self.key_seq()[i]] == self.value_seq()[i],
            forall|k: Seq<char>| #[trigger] self.as_map().contains_key(k) <==> self.key_seq().contains(k),
    {
        proof {
            use_type_invariant(self);
            lemma_map_shape(self.key_seq(), self.value_seq());
        }
        let mut r: Vec<&T> = Vec::new();
        let mut i: usize = 0;
        while i < self.entries.len()
            invariant
                i <= self.entries@.len(),
                r@.len() == i,
                forall|j: int| 0 <= j < i ==> *r@[j] == self.value_seq()[j],
            decreases self.entries.len() - i,
        {
            r.push(&self.entries[i].1);
            i += 1;
        }
        r
    }

    /// Copies of the names, in order.
    pub fn names(&self) -> (r: Vec<String>)
        ensures
            r@.len() == self.key_seq().len(),
            forall|i: int| 0 <= i < r@.len() ==> r@[i]@ == self.key_seq()[i],
    {
        let mut r: Vec<String> = Vec::new();
        let mut i: usize = 0;
        while i < self.entries.len()
            invariant
                i <= self.entries@.len(),
                r@.len() == i,
                forall|j: int| 0 <= j < i ==> r@[j]@ == self.key_seq()[j],
            decreases self.entries.len() - i,
        {
            r.push(self.entries[i].0.clone());
            i += 1;
        }
        r
    }
}

} // verus!
