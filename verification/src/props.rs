//! A string-to-string map that keeps its entries in insertion order.
//!
//! POM properties, property updates and resolved property tables are maps from
//! a property name to a value. [`PropertyMap`] holds them as a list of entries
//! with distinct keys; inserting an existing key replaces its value in place.

use vstd::prelude::*;

use crate::text::str_eq;

verus! {

/// The keys of `p` are pairwise distinct.
pub open spec fn distinct_keys(p: Seq<(Seq<char>, Seq<char>)>) -> bool {
    forall|i: int, j: int|
        0 <= i < p.len() && 0 <= j < p.len() && i != j ==> #[trigger] p[i].0 != #[trigger] p[j].0
}

/// Some entry of `p` has key `k`.
pub open spec fn has_key(p: Seq<(Seq<char>, Seq<char>)>, k: Seq<char>) -> bool {
    exists|i: int| 0 <= i < p.len() && #[trigger] p[i].0 == k
}

/// The position of the entry of `p` with key `k`.
pub open spec fn key_index(p: Seq<(Seq<char>, Seq<char>)>, k: Seq<char>) -> int {
    choose|i: int| 0 <= i < p.len() && #[trigger] p[i].0 == k
}

/// The map that a list of entries with distinct keys stands for.
pub open spec fn pairs_map(p: Seq<(Seq<char>, Seq<char>)>) -> Map<Seq<char>, Seq<char>> {
    Map::new(|k: Seq<char>| has_key(p, k), |k: Seq<char>| p[key_index(p, k)].1)
}

/// The entries after inserting `(k, v)`: the value of an existing key is
/// replaced in place, a new key goes to the end.
pub open spec fn pairs_insert(p: Seq<(Seq<char>, Seq<char>)>, k: Seq<char>, v: Seq<char>) -> Seq<
    (Seq<char>, Seq<char>),
> {
    if has_key(p, k) {
        p.update(key_index(p, k), (k, v))
    } else {
        p.push((k, v))
    }
}

/// In a list with distinct keys, the entry found for `k` is the one at `i`.
pub proof fn lemma_key_index(p: Seq<(Seq<char>, Seq<char>)>, i: int)
    requires
        distinct_keys(p),
        0 <= i < p.len(),
    ensures
        has_key(p, p[i].0),
        key_index(p, p[i].0) == i,
{
    assert(has_key(p, p[i].0)) by {
        assert(p[i].0 == p[i].0);
    }
}

/// Inserting keeps the keys distinct and inserts into the map.
pub proof fn lemma_pairs_insert(p: Seq<(Seq<char>, Seq<char>)>, k: Seq<char>, v: Seq<char>)
    requires
        distinct_keys(p),
    ensures
        distinct_keys(pairs_insert(p, k, v)),
        pairs_map(pairs_insert(p, k, v)) == pairs_map(p).insert(k, v),
{
    let q = pairs_insert(p, k, v);
    if has_key(p, k) {
        let idx = key_index(p, k);
        assert forall|a: int, b: int|
            0 <= a < q.len() && 0 <= b < q.len() && a != b implies #[trigger] q[a].0
            != #[trigger] q[b].0 by {
            assert(p[idx].0 == k);
        }
    } else {
        assert forall|a: int, b: int|
            0 <= a < q.len() && 0 <= b < q.len() && a != b implies #[trigger] q[a].0
            != #[trigger] q[b].0 by {
            if a == p.len() as int {
                assert(q[b] == p[b]);
            } else if b == p.len() as int {
                assert(q[a] == p[a]);
            }
        }
    }
    assert forall|key: Seq<char>| #[trigger] pairs_map(q).contains_key(key) == pairs_map(p).insert(
        k,
        v,
    ).contains_key(key) by {
        if has_key(q, key) {
            let j = choose|j: int| 0 <= j < q.len() && #[trigger] q[j].0 == key;
            if key != k {
                assert(p[j].0 == key);
            }
        }
        if key != k && has_key(p, key) {
            let j = choose|j: int| 0 <= j < p.len() && #[trigger] p[j].0 == key;
            assert(q[j].0 == key);
        }
        if key == k {
            if has_key(p, k) {
                assert(q[key_index(p, k)].0 == k);
            } else {
                assert(q[p.len() as int].0 == k);
            }
        }
    }
    assert forall|key: Seq<char>| #[trigger] pairs_map(q).contains_key(key) implies pairs_map(q)[key]
        == pairs_map(p).insert(k, v)[key] by {
        let j = key_index(q, key);
        lemma_key_index(q, j);
        if key == k {
            if has_key(p, k) {
                lemma_key_index(q, key_index(p, k));
            } else {
                lemma_key_index(q, p.len() as int);
            }
        } else {
            assert(q[j] == p[j]);
            lemma_key_index(p, j);
        }
    }
    assert(pairs_map(q) =~= pairs_map(p).insert(k, v));
}

/// A map from property names to values, in insertion order.
#[derive(Debug)]
pub struct PropertyMap {
    entries: Vec<(String, String)>,
}

impl PropertyMap {
    /// The entries, in order, as pairs of character sequences.
    pub closed spec fn pairs(self) -> Seq<(Seq<char>, Seq<char>)> {
        self.entries@.map_values(|e: (String, String)| (e.0@, e.1@))
    }

    #[verifier::type_invariant]
    closed spec fn keys_are_distinct(self) -> bool {
        distinct_keys(self.pairs())
    }

    /// An empty map.
    pub fn new() -> (m: Self)
        ensures
            m.pairs() == Seq::<(Seq<char>, Seq<char>)>::empty(),
    {
        let m = PropertyMap { entries: Vec::new() };
        assert(m.pairs() =~= Seq::<(Seq<char>, Seq<char>)>::empty());
        m
    }

    /// The number of entries.
    pub fn len(&self) -> (n: usize)
        ensures
            n == self.pairs().len(),
            distinct_keys(self.pairs()),
    {
        proof {
            use_type_invariant(self);
        }
        self.entries.len()
    }

    /// The map has no entry.
    pub fn is_empty(&self) -> (b: bool)
        ensures
            b == (self.pairs().len() == 0),
            b == (self@ == Map::<Seq<char>, Seq<char>>::empty()),
    {
        proof {
            use_type_invariant(self);
            if self.pairs().len() > 0 {
                lemma_key_index(self.pairs(), 0);
                assert(self@.contains_key(self.pairs()[0].0));
            } else {
                assert(self@ =~= Map::<Seq<char>, Seq<char>>::empty());
            }
        }
        self.entries.len() == 0
    }

    /// The key of entry `i`.
    pub fn key_at(&self, i: usize) -> (k: &String)
        requires
            i < self.pairs().len(),
        ensures
            k@ == self.pairs()[i as int].0,
    {
        &self.entries[i].0
    }

    /// The value of entry `i`.
    pub fn value_at(&self, i: usize) -> (v: &String)
        requires
            i < self.pairs().len(),
        ensures
            v@ == self.pairs()[i as int].1,
    {
        &self.entries[i].1
    }

    /// The position of the entry with key `key`, if any.
    pub fn position(&self, key: &str) -> (r: Option<usize>)
        ensures
            distinct_keys(self.pairs()),
            r matches Some(i) ==> i < self.pairs().len() && self.pairs()[i as int].0 == key@
                && key_index(self.pairs(), key@) == i,
            r is Some <==> has_key(self.pairs(), key@),
    {
        proof {
            use_type_invariant(self);
        }
        let mut i: usize = 0;
        while i < self.entries.len()
            invariant
                i <= self.entries@.len(),
                distinct_keys(self.pairs()),
                forall|j: int| 0 <= j < i ==> #[trigger] self.pairs()[j].0 != key@,
            decreases self.entries@.len() - i,
        {
            if str_eq(self.entries[i].0.as_str(), key) {
                proof {
                    lemma_key_index(self.pairs(), i as int);
                }
                return Some(i);
            }
            i = i + 1;
        }
        None
    }

    /// The value stored under `key`.
    pub fn get(&self, key: &str) -> (r: Option<&String>)
        ensures
            r matches Some(v) ==> self@.contains_key(key@) && self@[key@] == v@,
            r is None ==> !self@.contains_key(key@),
    {
        match self.position(key) {
            Some(i) => Some(&self.entries[i].1),
            None => None,
        }
    }

    /// Some entry has key `key`.
    pub fn contains_key(&self, key: &str) -> (b: bool)
        ensures
            b == self@.contains_key(key@),
    {
        self.position(key).is_some()
    }

    /// Stores `value` under `key`, replacing the value an existing entry holds.
    pub fn insert(&mut self, key: String, value: String)
        ensures
            final(self).pairs() == pairs_insert(old(self).pairs(), key@, value@),
            final(self)@ == old(self)@.insert(key@, value@),
    {
        proof {
            use_type_invariant(&*self);
            lemma_pairs_insert(self.pairs(), key@, value@);
        }
        let ghost p = self.pairs();
        match self.position(key.as_str()) {
            Some(i) => {
                let mut entries: Vec<(String, String)> = Vec::new();
                std::mem::swap(&mut entries, &mut self.entries);
                entries.set(i, (key, value));
                proof {
                    assert(entries@.map_values(|e: (String, String)| (e.0@, e.1@)) =~= pairs_insert(
                        p,
                        key@,
                        value@,
                    ));
                }
                self.entries = entries;
            },
            None => {
                let mut entries: Vec<(String, String)> = Vec::new();
                std::mem::swap(&mut entries, &mut self.entries);
                entries.push((key, value));
                proof {
                    assert(entries@.map_values(|e: (String, String)| (e.0@, e.1@)) =~= pairs_insert(
                        p,
                        key@,
                        value@,
                    ));
                }
                self.entries = entries;
            },
        }
    }

    /// A copy of the map with the same entries in the same order.
    pub fn copy(&self) -> (m: Self)
        ensures
            m.pairs() == self.pairs(),
    {
        proof {
            use_type_invariant(self);
        }
        let mut entries: Vec<(String, String)> = Vec::new();
        let mut i: usize = 0;
        while i < self.entries.len()
            invariant
                i <= self.entries@.len(),
                entries@.map_values(|e: (String, String)| (e.0@, e.1@)) == self.pairs().subrange(
                    0,
                    i as int,
                ),
            decreases self.entries@.len() - i,
        {
            let k = self.entries[i].0.clone();
            let v = self.entries[i].1.clone();
            let ghost before = entries@;
            entries.push((k, v));
            assert(self.pairs()[i as int] == (self.entries@[i as int].0@, self.entries@[i as int].1@));
            assert(entries@ == before.push((k, v)));
            assert(entries@.map_values(|e: (String, String)| (e.0@, e.1@)) =~= before.map_values(
                |e: (String, String)| (e.0@, e.1@),
            ).push((k@, v@)));
            assert(self.pairs().subrange(0, i as int + 1) =~= self.pairs().subrange(0, i as int).push(
                self.pairs()[i as int],
            ));
            i = i + 1;
            assert(entries@.map_values(|e: (String, String)| (e.0@, e.1@)) =~= self.pairs().subrange(
                0,
                i as int,
            ));
        }
        assert(self.pairs().subrange(0, self.pairs().len() as int) =~= self.pairs());
        PropertyMap { entries }
    }
}

impl View for PropertyMap {
    type V = Map<Seq<char>, Seq<char>>;

    open spec fn view(&self) -> Map<Seq<char>, Seq<char>> {
        pairs_map(self.pairs())
    }
}

/// Reading after writing: after inserting `(k, v)` the map gives `v` for `k`
/// and what it gave before for every other key; an existing key keeps its
/// position, a new key comes last.
pub proof fn lemma_read_after_write(p: Seq<(Seq<char>, Seq<char>)>, k: Seq<char>, v: Seq<char>, other: Seq<char>)
    requires
        distinct_keys(p),
        other != k,
    ensures
        pairs_map(pairs_insert(p, k, v)).contains_key(k),
        pairs_map(pairs_insert(p, k, v))[k] == v,
        pairs_map(pairs_insert(p, k, v)).contains_key(other) == pairs_map(p).contains_key(other),
        pairs_map(p).contains_key(other) ==> pairs_map(pairs_insert(p, k, v))[other] == pairs_map(p)[other],
        has_key(p, k) ==> pairs_insert(p, k, v).len() == p.len() && pairs_insert(p, k, v)[key_index(p, k)] == (k, v),
        !has_key(p, k) ==> pairs_insert(p, k, v) == p.push((k, v)),
{
    lemma_pairs_insert(p, k, v);
}

} // verus!
