//! A small association map with `u64` keys, backed by a vector of entries
//! whose keys are kept unique.
//!
//! The relay keeps two such maps: connection id to reported hosting address,
//! and connection id to peer IP. Both need exact cardinality reasoning (the
//! aggregate status depends on whether zero, one, or more peers host), so the
//! map's view is a mathematical `Map<u64, V>` and every operation states its
//! effect on that view.

use vstd::prelude::*;

verus! {

broadcast use vstd::set::group_set_axioms;

/// The mathematical contents of an entry list: later entries win, though a
/// well-formed map never holds two entries with one key.
pub open spec fn map_of<V>(s: Seq<(u64, V)>) -> Map<u64, V>
    decreases s.len(),
{
    if s.len() == 0 {
        Map::empty()
    } else {
        map_of(s.drop_last()).insert(s.last().0, s.last().1)
    }
}

/// No two entries share a key.
pub open spec fn unique_keys<V>(s: Seq<(u64, V)>) -> bool {
    forall|i: int, j: int| 0 <= i < j < s.len() ==> s[i].0 != s[j].0
}

/// A key is in the contents exactly when some entry carries it.
pub proof fn lemma_map_of_contains<V>(s: Seq<(u64, V)>, k: u64)
    ensures
        map_of(s).dom().contains(k) <==> exists|i: int| 0 <= i < s.len() && s[i].0 == k,
    decreases s.len(),
{
    if s.len() > 0 {
        let d = s.drop_last();
        lemma_map_of_contains(d, k);
        assert(forall|i: int| 0 <= i < d.len() ==> d[i] == s[i]);
        if map_of(s).dom().contains(k) {
            if k == s.last().0 {
                assert(s[s.len() - 1].0 == k);
            } else {
                let i = choose|i: int| 0 <= i < d.len() && d[i].0 == k;
                assert(s[i].0 == k);
            }
        }
        if exists|i: int| 0 <= i < s.len() && s[i].0 == k {
            let i = choose|i: int| 0 <= i < s.len() && s[i].0 == k;
            if i < s.len() - 1 {
                assert(d[i].0 == k);
            }
        }
    }
}

/// With unique keys, the entry at any index gives that key's value.
pub proof fn lemma_map_of_index<V>(s: Seq<(u64, V)>, i: int)
    requires
        unique_keys(s),
        0 <= i < s.len(),
    ensures
        map_of(s).dom().contains(s[i].0),
        map_of(s)[s[i].0] == s[i].1,
    decreases s.len(),
{
    let d = s.drop_last();
    assert(forall|j: int| 0 <= j < d.len() ==> d[j] == s[j]);
    if i < s.len() - 1 {
        lemma_map_of_index(d, i);
    }
}

/// With unique keys, the contents have exactly one element per entry.
pub proof fn lemma_map_of_len<V>(s: Seq<(u64, V)>)
    requires
        unique_keys(s),
    ensures
        map_of(s).dom().finite(),
        map_of(s).dom().len() == s.len(),
    decreases s.len(),
{
    if s.len() == 0 {
        assert(map_of(s).dom() =~= Set::<u64>::empty());
    } else {
        let d = s.drop_last();
        assert(forall|j: int| 0 <= j < d.len() ==> d[j] == s[j]);
        lemma_map_of_len(d);
        lemma_map_of_contains(d, s.last().0);
        assert(!map_of(d).dom().contains(s.last().0));
        assert(map_of(s).dom() =~= map_of(d).dom().insert(s.last().0));
    }
}

/// A map with `u64` keys: insertion order is kept, keys stay unique, and the
/// view is the corresponding mathematical map.
pub struct AssocMap<V> {
    entries: Vec<(u64, V)>,
}

impl<V> View for AssocMap<V> {
    type V = Map<u64, V>;

    closed spec fn view(&self) -> Map<u64, V> {
        map_of(self.entries@)
    }
}

impl<V: Copy> AssocMap<V> {
    /// Well-formedness: no key occurs twice.
    pub closed spec fn inv(&self) -> bool {
        unique_keys(self.entries@)
    }

    /// The entries as a sequence, for contracts that need their order.
    pub closed spec fn entry_seq(&self) -> Seq<(u64, V)> {
        self.entries@
    }

    pub proof fn lemma_entry_seq(&self)
        requires
            self.inv(),
        ensures
            unique_keys(self.entry_seq()),
            self@ == map_of(self.entry_seq()),
            self@.dom().finite(),
            self@.dom().len() == self.entry_seq().len(),
    {
        lemma_map_of_len(self.entries@);
    }

    pub fn new() -> (r: Self)
        ensures
            r.inv(),
            r@ == Map::<u64, V>::empty(),
            r.entry_seq() == Seq::<(u64, V)>::empty(),
    {
        let r = AssocMap { entries: Vec::new() };
        proof {
            assert(r.entries@ =~= Seq::<(u64, V)>::empty());
        }
        r
    }

    /// How many keys the map holds.
    pub fn len(&self) -> (n: usize)
        requires
            self.inv(),
        ensures
            n == self@.dom().len(),
    {
        proof {
            lemma_map_of_len(self.entries@);
        }
        self.entries.len()
    }

    /// Index of the entry carrying `key`, if any.
    fn index_of(&self, key: u64) -> (r: Option<usize>)
        ensures
            match r {
                Some(i) => i < self.entries@.len() && self.entries@[i as int].0 == key,
                None => forall|i: int| 0 <= i < self.entries@.len() ==> self.entries@[i].0 != key,
            },
    {
        let mut i: usize = 0;
        while i < self.entries.len()
            invariant
                i <= self.entries@.len(),
                forall|j: int| 0 <= j < i ==> self.entries@[j].0 != key,
            decreases self.entries@.len() - i,
        {
            if self.entries[i].0 == key {
                return Some(i);
            }
            i = i + 1;
        }
        None
    }

    pub fn contains(&self, key: u64) -> (r: bool)
        ensures
            r == self@.dom().contains(key),
    {
        proof {
            lemma_map_of_contains(self.entries@, key);
        }
        match self.index_of(key) {
            Some(_) => true,
            None => false,
        }
    }

    pub fn get(&self, key: u64) -> (r: Option<V>)
        requires
            self.inv(),
        ensures
            r == if self@.dom().contains(key) {
                Some(self@[key])
            } else {
                None::<V>
            },
    {
        proof {
            lemma_map_of_contains(self.entries@, key);
        }
        match self.index_of(key) {
            Some(i) => {
                proof {
                    lemma_map_of_index(self.entries@, i as int);
                }
                Some(self.entries[i].1)
            },
            None => None,
        }
    }

    /// Inserts or replaces; returns the value previously under `key`.
    pub fn insert(&mut self, key: u64, value: V) -> (prev: Option<V>)
        requires
            old(self).inv(),
        ensures
            final(self).inv(),
            final(self)@ == old(self)@.insert(key, value),
            prev == if old(self)@.dom().contains(key) {
                Some(old(self)@[key])
            } else {
                None::<V>
            },
    {
        proof {
            lemma_map_of_contains(self.entries@, key);
        }
        match self.index_of(key) {
            Some(i) => {
                let ghost s = self.entries@;
                proof {
                    lemma_map_of_index(s, i as int);
                }
                let p = self.entries[i].1;
                self.entries[i] = (key, value);
                proof {
                    lemma_map_of_update(s, i as int, value);
                }
                Some(p)
            },
            None => {
                let ghost s = self.entries@;
                self.entries.push((key, value));
                proof {
                    assert(self.entries@.drop_last() =~= s);
                    assert(self.entries@.last() == (key, value));
                }
                None
            },
        }
    }

    /// Removes `key` if present; returns the value it held.
    pub fn remove(&mut self, key: u64) -> (prev: Option<V>)
        requires
            old(self).inv(),
        ensures
            final(self).inv(),
            final(self)@ == old(self)@.remove(key),
            prev == if old(self)@.dom().contains(key) {
                Some(old(self)@[key])
            } else {
                None::<V>
            },
    {
        proof {
            lemma_map_of_contains(self.entries@, key);
        }
        match self.index_of(key) {
            Some(i) => {
                let ghost s = self.entries@;
                proof {
                    lemma_map_of_index(s, i as int);
                }
                let e = self.entries.remove(i);
                proof {
                    lemma_map_of_remove(s, i as int);
                }
                Some(e.1)
            },
            None => {
                proof {
                    assert(map_of(self.entries@).remove(key) =~= map_of(self.entries@));
                }
                None
            },
        }
    }

    /// Any one entry; with exactly one key in the map this is the entry.
    pub fn first(&self) -> (r: (u64, V))
        requires
            self.inv(),
            self@.dom().len() > 0,
        ensures
            self@.dom().contains(r.0),
            self@[r.0] == r.1,
    {
        proof {
            lemma_map_of_len(self.entries@);
            lemma_map_of_index(self.entries@, 0);
        }
        self.entries[0]
    }

    /// All keys, in insertion order.
    pub fn keys(&self) -> (r: Vec<u64>)
        requires
            self.inv(),
        ensures
            r@.len() == self@.dom().len(),
            forall|i: int| 0 <= i < r@.len() ==> self@.dom().contains(#[trigger] r@[i]),
            forall|k: u64|
                self@.dom().contains(k) ==> exists|i: int| 0 <= i < r@.len() && r@[i] == k,
            forall|i: int, j: int| 0 <= i < j < r@.len() ==> r@[i] != r@[j],
    {
        let mut r: Vec<u64> = Vec::new();
        let mut i: usize = 0;
        while i < self.entries.len()
            invariant
                i <= self.entries@.len(),
                r@.len() == i,
                forall|j: int| 0 <= j < i ==> r@[j] == self.entries@[j].0,
            decreases self.entries@.len() - i,
        {
            r.push(self.entries[i].0);
            i = i + 1;
        }
        proof {
            lemma_map_of_len(self.entries@);
            assert forall|j: int| 0 <= j < r@.len() implies self@.dom().contains(
                #[trigger] r@[j],
            ) by {
                lemma_map_of_index(self.entries@, j);
            }
            assert forall|k: u64| self@.dom().contains(k) implies exists|j: int|
                0 <= j < r@.len() && r@[j] == k by {
                lemma_map_of_contains(self.entries@, k);
                let j = choose|j: int| 0 <= j < self.entries@.len() && self.entries@[j].0 == k;
                assert(r@[j] == k);
            }
        }
        r
    }
}

/// Replacing the entry that carries a key updates that key's value alone.
proof fn lemma_map_of_update<V>(s: Seq<(u64, V)>, i: int, value: V)
    requires
        unique_keys(s),
        0 <= i < s.len(),
    ensures
        unique_keys(s.update(i, (s[i].0, value))),
        map_of(s.update(i, (s[i].0, value))) == map_of(s).insert(s[i].0, value),
{
    let k = s[i].0;
    let t = s.update(i, (k, value));
    assert(forall|j: int| 0 <= j < t.len() ==> t[j].0 == s[j].0);
    assert forall|x: u64| #[trigger]
        map_of(t).dom().contains(x) == map_of(s).insert(k, value).dom().contains(x) by {
        lemma_map_of_contains(t, x);
        lemma_map_of_contains(s, x);
    }
    assert forall|x: u64| map_of(t).dom().contains(x) implies map_of(t)[x] == map_of(s).insert(
        k,
        value,
    )[x] by {
        lemma_map_of_contains(t, x);
        let j = choose|j: int| 0 <= j < t.len() && t[j].0 == x;
        lemma_map_of_index(t, j);
        if x == k {
            assert(j == i);
        } else {
            assert(j != i);
            lemma_map_of_index(s, j);
        }
    }
    assert(map_of(t) =~= map_of(s).insert(k, value));
}

/// Removing the entry that carries a key removes that key alone.
proof fn lemma_map_of_remove<V>(s: Seq<(u64, V)>, i: int)
    requires
        unique_keys(s),
        0 <= i < s.len(),
    ensures
        unique_keys(s.remove(i)),
        map_of(s.remove(i)) == map_of(s).remove(s[i].0),
{
    let k = s[i].0;
    let t = s.remove(i);
    assert(forall|j: int| 0 <= j < i ==> t[j] == s[j]);
    assert(forall|j: int| i <= j < t.len() ==> t[j] == s[j + 1]);
    assert forall|x: u64| #[trigger]
        map_of(t).dom().contains(x) == map_of(s).remove(k).dom().contains(x) by {
        lemma_map_of_contains(t, x);
        lemma_map_of_contains(s, x);
        if exists|j: int| 0 <= j < t.len() && t[j].0 == x {
            let j = choose|j: int| 0 <= j < t.len() && t[j].0 == x;
            if j < i {
                assert(s[j].0 == x);
            } else {
                assert(s[j + 1].0 == x);
            }
        }
        if x != k && exists|j: int| 0 <= j < s.len() && s[j].0 == x {
            let j = choose|j: int| 0 <= j < s.len() && s[j].0 == x;
            assert(j != i);
            if j < i {
                assert(t[j].0 == x);
            } else {
                assert(t[j - 1].0 == x);
            }
        }
    }
    assert forall|x: u64| map_of(t).dom().contains(x) implies map_of(t)[x] == map_of(s).remove(
        k,
    )[x] by {
        lemma_map_of_contains(t, x);
        let j = choose|j: int| 0 <= j < t.len() && t[j].0 == x;
        lemma_map_of_index(t, j);
        if j < i {
            lemma_map_of_index(s, j);
        } else {
            lemma_map_of_index(s, j + 1);
        }
    }
    assert(map_of(t) =~= map_of(s).remove(k));
}

} // verus!
