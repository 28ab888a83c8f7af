//! Keyed storage tables.
//!
//! A contract keeps its persistent entries in `Table`s: association lists
//! whose keys are pairwise distinct, seen by the proofs as a finite `Map`
//! from the keys' views to the stored values.
use vstd::prelude::*;

verus! {

/// A key that can be compared and copied in a way that agrees with its view.
pub trait TableKey: View + Sized {
    fn same_key(&self, other: &Self) -> (b: bool)
        ensures
            b == (self@ == other@),
    ;

    fn copy_key(&self) -> (r: Self)
        ensures
            r@ == self@,
    ;
}

impl TableKey for u64 {
    fn same_key(&self, other: &Self) -> (b: bool) {
        *self == *other
    }

    fn copy_key(&self) -> (r: Self) {
        *self
    }
}

impl<A: TableKey, B: TableKey> TableKey for (A, B) {
    fn same_key(&self, other: &Self) -> (b: bool) {
        self.0.same_key(&other.0) && self.1.same_key(&other.1)
    }

    fn copy_key(&self) -> (r: Self) {
        (self.0.copy_key(), self.1.copy_key())
    }
}

/// The map that a list of entries denotes; a later entry for a key wins.
pub open spec fn map_of<K: View, V>(s: Seq<(K, V)>) -> Map<K::V, V>
    decreases s.len(),
{
    if s.len() == 0 {
        Map::empty()
    } else {
        map_of(s.drop_last()).insert(s.last().0@, s.last().1)
    }
}

/// No two entries share a key.
pub open spec fn keys_unique<K: View, V>(s: Seq<(K, V)>) -> bool {
    forall|i: int, j: int|
        0 <= i < s.len() && 0 <= j < s.len() && i != j ==> #[trigger] s[i].0@ != #[trigger] s[j].0@
}

pub proof fn lemma_map_of_dom<K: View, V>(s: Seq<(K, V)>, k: K::V)
    ensures
        map_of(s).contains_key(k) <==> exists|i: int| 0 <= i < s.len() && #[trigger] s[i].0@ == k,
    decreases s.len(),
{
    if s.len() > 0 {
        let t = s.drop_last();
        lemma_map_of_dom(t, k);
        if map_of(s).contains_key(k) {
            if s.last().0@ == k {
                assert(s[s.len() - 1].0@ == k);
            } else {
                let i = choose|i: int| 0 <= i < t.len() && #[trigger] t[i].0@ == k;
                assert(s[i] == t[i]);
            }
        }
        if exists|i: int| 0 <= i < s.len() && #[trigger] s[i].0@ == k {
            let i = choose|i: int| 0 <= i < s.len() && #[trigger] s[i].0@ == k;
            if i < s.len() - 1 {
                assert(t[i] == s[i]);
            }
        }
    }
}

pub proof fn lemma_map_of_value<K: View, V>(s: Seq<(K, V)>, i: int)
    requires
        keys_unique(s),
        0 <= i < s.len(),
    ensures
        map_of(s).contains_key(s[i].0@),
        map_of(s)[s[i].0@] == s[i].1,
    decreases s.len(),
{
    let t = s.drop_last();
    if i < s.len() - 1 {
        assert(keys_unique(t)) by {
            assert forall|a: int, b: int|
                0 <= a < t.len() && 0 <= b < t.len() && a != b implies #[trigger] t[a].0@
                != #[trigger] t[b].0@ by {
                assert(t[a] == s[a] && t[b] == s[b]);
            }
        }
        lemma_map_of_value(t, i);
        assert(t[i] == s[i]);
        assert(s[s.len() - 1].0@ != s[i].0@);
    }
}

/// Two lists of entries with the same keys and values, entry by entry,
/// denote the same map.
pub proof fn lemma_map_of_same<K: View, V>(s: Seq<(K, V)>, t: Seq<(K, V)>)
    requires
        s.len() == t.len(),
        forall|j: int| 0 <= j < s.len() ==> #[trigger] s[j].0@ == t[j].0@ && s[j].1 == t[j].1,
    ensures
        map_of(s) == map_of(t),
    decreases s.len(),
{
    if s.len() > 0 {
        let a = s.drop_last();
        let b = t.drop_last();
        assert forall|j: int| 0 <= j < a.len() implies #[trigger] a[j].0@ == b[j].0@ && a[j].1
            == b[j].1 by {
            assert(a[j] == s[j] && b[j] == t[j]);
        }
        lemma_map_of_same(a, b);
        assert(s[s.len() - 1].0@ == t[t.len() - 1].0@);
    }
}

/// A table of entries with pairwise distinct keys.
pub struct Table<K: View, V> {
    entries: Vec<(K, V)>,
}

impl<K: View, V> View for Table<K, V> {
    type V = Map<K::V, V>;

    closed spec fn view(&self) -> Map<K::V, V> {
        map_of(self.entries@)
    }
}

impl<K: View, V> Table<K, V> {
    #[verifier::type_invariant]
    spec fn distinct_keys(self) -> bool {
        keys_unique(self.entries@)
    }
}

impl<K: TableKey, V> Table<K, V> {
    pub fn new() -> (t: Self)
        ensures
            t@ == Map::<K::V, V>::empty(),
    {
        Table { entries: Vec::new() }
    }

    fn find(&self, k: &K) -> (r: Option<usize>)
        ensures
            match r {
                Some(i) => i < self.entries@.len() && self.entries@[i as int].0@ == k@,
                None => forall|i: int|
                    0 <= i < self.entries@.len() ==> #[trigger] self.entries@[i].0@ != k@,
            },
    {
        let mut i: usize = 0;
        while i < self.entries.len()
            invariant
                i <= self.entries@.len(),
                forall|j: int| 0 <= j < i ==> #[trigger] self.entries@[j].0@ != k@,
            decreases self.entries@.len() - i,
        {
            if self.entries[i].0.same_key(k) {
                return Some(i);
            }
            i = i + 1;
        }
        None
    }

    /// The stored entries, each key once, for walking the whole table.
    pub fn entries(&self) -> (r: &Vec<(K, V)>)
        ensures
            map_of(r@) == self@,
            keys_unique(r@),
    {
        proof {
            use_type_invariant(self);
        }
        &self.entries
    }

    pub fn contains_key(&self, k: &K) -> (b: bool)
        ensures
            b == self@.contains_key(k@),
    {
        proof {
            lemma_map_of_dom(self.entries@, k@);
        }
        self.find(k).is_some()
    }

    pub fn get(&self, k: &K) -> (r: Option<&V>)
        ensures
            r == (if self@.contains_key(k@) {
                Some(&self@[k@])
            } else {
                None
            }),
    {
        proof {
            use_type_invariant(self);
            lemma_map_of_dom(self.entries@, k@);
        }
        match self.find(k) {
            Some(i) => {
                proof {
                    lemma_map_of_value(self.entries@, i as int);
                }
                Some(&self.entries[i].1)
            },
            None => None,
        }
    }

    /// Stores `v` under `k`, replacing what was stored there.
    pub fn set(&mut self, k: K, v: V)
        ensures
            final(self)@ == old(self)@.insert(k@, v),
    {
        proof {
            use_type_invariant(&*self);
        }
        let ghost old_entries = self.entries@;
        match self.find(&k) {
            Some(i) => {
                let ghost kv = k@;
                let mut entries = Vec::new();
                std::mem::swap(&mut entries, &mut self.entries);
                entries.set(i, (k, v));
                let ghost new_entries = entries@;
                assert(new_entries == old_entries.update(i as int, new_entries[i as int]));
                assert(keys_unique(new_entries)) by {
                    assert forall|a: int, b: int|
                        0 <= a < new_entries.len() && 0 <= b < new_entries.len() && a
                            != b implies #[trigger] new_entries[a].0@
                        != #[trigger] new_entries[b].0@ by {
                        if a != i && b != i {
                            assert(new_entries[a] == old_entries[a]);
                            assert(new_entries[b] == old_entries[b]);
                        } else if a == i {
                            assert(new_entries[b] == old_entries[b]);
                            assert(old_entries[a].0@ == kv);
                        } else {
                            assert(new_entries[a] == old_entries[a]);
                            assert(old_entries[b].0@ == kv);
                        }
                    }
                }
                proof {
                    Self::lemma_update(old_entries, new_entries, i as int);
                }
                self.entries = entries;
            },
            None => {
                let ghost kv = k@;
                let mut entries = Vec::new();
                std::mem::swap(&mut entries, &mut self.entries);
                entries.push((k, v));
                let ghost new_entries = entries@;
                assert(new_entries.drop_last() == old_entries);
                assert(keys_unique(new_entries)) by {
                    assert forall|a: int, b: int|
                        0 <= a < new_entries.len() && 0 <= b < new_entries.len() && a
                            != b implies #[trigger] new_entries[a].0@
                        != #[trigger] new_entries[b].0@ by {
                        if a < old_entries.len() {
                            assert(new_entries[a] == old_entries[a]);
                        }
                        if b < old_entries.len() {
                            assert(new_entries[b] == old_entries[b]);
                        }
                    }
                }
                self.entries = entries;
            },
        }
    }

    proof fn lemma_update(old_entries: Seq<(K, V)>, new_entries: Seq<(K, V)>, i: int)
        requires
            keys_unique(old_entries),
            keys_unique(new_entries),
            0 <= i < old_entries.len(),
            new_entries.len() == old_entries.len(),
            new_entries[i].0@ == old_entries[i].0@,
            forall|j: int| 0 <= j < old_entries.len() && j != i ==> new_entries[j] == old_entries[j],
        ensures
            map_of(new_entries) == map_of(old_entries).insert(old_entries[i].0@, new_entries[i].1),
    {
        let k = old_entries[i].0@;
        let m = map_of(old_entries).insert(k, new_entries[i].1);
        assert forall|x: K::V| #[trigger] map_of(new_entries).contains_key(x) == m.contains_key(x) by {
            lemma_map_of_dom(new_entries, x);
            lemma_map_of_dom(old_entries, x);
            if map_of(new_entries).contains_key(x) {
                let j = choose|j: int| 0 <= j < new_entries.len() && #[trigger] new_entries[j].0@ == x;
                if j != i {
                    assert(old_entries[j].0@ == x);
                }
            }
            if m.contains_key(x) && x != k {
                let j = choose|j: int| 0 <= j < old_entries.len() && #[trigger] old_entries[j].0@ == x;
                assert(new_entries[j].0@ == x);
            }
        }
        assert forall|x: K::V| #[trigger] map_of(new_entries).contains_key(x) implies map_of(
            new_entries,
        )[x] == m[x] by {
            lemma_map_of_dom(new_entries, x);
            let j = choose|j: int| 0 <= j < new_entries.len() && #[trigger] new_entries[j].0@ == x;
            lemma_map_of_value(new_entries, j);
            if j != i {
                lemma_map_of_value(old_entries, j);
            }
        }
        assert(map_of(new_entries) =~= m);
    }

    /// Removes the entry stored under `k` and hands back its value.
    pub fn take(&mut self, k: &K) -> (r: Option<V>)
        ensures
            final(self)@ == old(self)@.remove(k@),
            r is None ==> *final(self) == *old(self),
            r == (if old(self)@.contains_key(k@) {
                Some(old(self)@[k@])
            } else {
                None
            }),
    {
        proof {
            use_type_invariant(&*self);
            lemma_map_of_dom(self.entries@, k@);
        }
        let ghost old_entries = self.entries@;
        match self.find(k) {
            Some(i) => {
                proof {
                    lemma_map_of_value(old_entries, i as int);
                }
                let mut entries = Vec::new();
                std::mem::swap(&mut entries, &mut self.entries);
                let (_, v) = entries.remove(i);
                let ghost new_entries = entries@;
                assert(forall|j: int|
                    0 <= j < new_entries.len() ==> #[trigger] new_entries[j] == (if j < i {
                        old_entries[j]
                    } else {
                        old_entries[j + 1]
                    }));
                assert(keys_unique(new_entries)) by {
                    assert forall|a: int, b: int|
                        0 <= a < new_entries.len() && 0 <= b < new_entries.len() && a
                            != b implies #[trigger] new_entries[a].0@
                        != #[trigger] new_entries[b].0@ by {
                        let a2 = if a < i {
                            a
                        } else {
                            a + 1
                        };
                        let b2 = if b < i {
                            b
                        } else {
                            b + 1
                        };
                        assert(old_entries[a2].0@ != old_entries[b2].0@);
                    }
                }
                proof {
                    let m = map_of(old_entries).remove(k@);
                    assert forall|x: K::V| #[trigger]
                        map_of(new_entries).contains_key(x) == m.contains_key(x) by {
                        lemma_map_of_dom(new_entries, x);
                        lemma_map_of_dom(old_entries, x);
                        if map_of(new_entries).contains_key(x) {
                            let j = choose|j: int|
                                0 <= j < new_entries.len() && #[trigger] new_entries[j].0@ == x;
                            let j2 = if j < i {
                                j
                            } else {
                                j + 1
                            };
                            assert(old_entries[j2].0@ == x);
                            assert(j2 != i);
                        }
                        if m.contains_key(x) {
                            let j = choose|j: int|
                                0 <= j < old_entries.len() && #[trigger] old_entries[j].0@ == x;
                            assert(j != i);
                            if j < i {
                                assert(new_entries[j].0@ == x);
                            } else {
                                assert(new_entries[j - 1].0@ == x);
                            }
                        }
                    }
                    assert forall|x: K::V| #[trigger]
                        map_of(new_entries).contains_key(x) implies map_of(new_entries)[x]
                        == m[x] by {
                        lemma_map_of_dom(new_entries, x);
                        let j = choose|j: int|
                            0 <= j < new_entries.len() && #[trigger] new_entries[j].0@ == x;
                        let j2 = if j < i {
                            j
                        } else {
                            j + 1
                        };
                        lemma_map_of_value(new_entries, j);
                        lemma_map_of_value(old_entries, j2);
                    }
                    assert(map_of(new_entries) =~= m);
                }
                self.entries = entries;
                Some(v)
            },
            None => {
                assert(map_of(old_entries).remove(k@) =~= map_of(old_entries));
                None
            },
        }
    }
}

impl<K: TableKey, V: Copy> Table<K, V> {
    /// A separate table with the same entries.
    pub fn duplicate(&self) -> (r: Self)
        ensures
            r@ == self@,
    {
        proof {
            use_type_invariant(self);
        }
        let mut entries: Vec<(K, V)> = Vec::new();
        let mut i: usize = 0;
        while i < self.entries.len()
            invariant
                i <= self.entries@.len(),
                keys_unique(self.entries@),
                entries@.len() == i,
                forall|j: int|
                    0 <= j < i ==> #[trigger] entries@[j].0@ == self.entries@[j].0@
                        && entries@[j].1 == self.entries@[j].1,
            decreases self.entries@.len() - i,
        {
            let k = self.entries[i].0.copy_key();
            let v = self.entries[i].1;
            entries.push((k, v));
            i = i + 1;
        }
        proof {
            lemma_map_of_same(entries@, self.entries@);
            assert forall|a: int, b: int|
                0 <= a < entries@.len() && 0 <= b < entries@.len() && a != b implies #[trigger] entries@[a].0@
                != #[trigger] entries@[b].0@ by {
                assert(self.entries@[a].0@ != self.entries@[b].0@);
            }
        }
        Table { entries }
    }
}

} // verus!
