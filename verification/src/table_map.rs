//! The contents of one table of the store: a map from keys to values, kept as
//! a list of rows whose keys are pairwise distinct.
use vstd::prelude::*;

verus! {

/// Keys of a table: their equality and copies are decided by their views.
pub trait KeyEq: View + Sized {
    fn key_eq(&self, other: &Self) -> (r: bool)
        ensures
            r == (self@ == other@),
    ;

    fn key_clone(&self) -> (r: Self)
        ensures
            r@ == self@,
    ;
}

impl KeyEq for String {
    fn key_eq(&self, other: &Self) -> (r: bool) {
        *self == *other
    }

    fn key_clone(&self) -> (r: Self) {
        self.clone()
    }
}

impl KeyEq for i64 {
    fn key_eq(&self, other: &Self) -> (r: bool) {
        *self == *other
    }

    fn key_clone(&self) -> (r: Self) {
        *self
    }
}

/// Values that can be copied, the copy having the same view.
pub trait ValueCopy: View + Sized {
    fn copy_value(&self) -> (r: Self)
        ensures
            r@ == self@,
    ;
}

impl ValueCopy for String {
    fn copy_value(&self) -> (r: Self) {
        self.clone()
    }
}

impl ValueCopy for () {
    fn copy_value(&self) -> (r: Self) {
        ()
    }
}

impl<A: ValueCopy, B: ValueCopy> ValueCopy for (A, B) {
    fn copy_value(&self) -> (r: Self) {
        (self.0.copy_value(), self.1.copy_value())
    }
}

/// No two rows have keys with the same view.
pub open spec fn distinct_keys<K: View, V>(s: Seq<(K, V)>) -> bool {
    forall|i: int, j: int| 0 <= i < j < s.len() ==> s[i].0@ != s[j].0@
}

/// The map that a list of rows stands for; a later row wins over an earlier one.
pub open spec fn map_of<K: View, V: View>(s: Seq<(K, V)>) -> Map<K::V, V::V>
    decreases s.len(),
{
    if s.len() == 0 {
        Map::empty()
    } else {
        map_of(s.drop_last()).insert(s.last().0@, s.last().1@)
    }
}

pub proof fn lemma_map_of_contains<K: View, V: View>(s: Seq<(K, V)>, k: K::V)
    ensures
        map_of(s).contains_key(k) <==> exists|i: int| 0 <= i < s.len() && s[i].0@ == k,
    decreases s.len(),
{
    if s.len() > 0 {
        lemma_map_of_contains(s.drop_last(), k);
        if map_of(s).contains_key(k) {
            if s.last().0@ != k {
                let i = choose|i: int| 0 <= i < s.len() - 1 && s.drop_last()[i].0@ == k;
                assert(s[i].0@ == k);
            } else {
                assert(s[s.len() - 1].0@ == k);
            }
        }
        if exists|i: int| 0 <= i < s.len() && s[i].0@ == k {
            let i = choose|i: int| 0 <= i < s.len() && s[i].0@ == k;
            if i < s.len() - 1 {
                assert(s.drop_last()[i].0@ == k);
            }
        }
    }
}

pub proof fn lemma_map_of_index<K: View, V: View>(s: Seq<(K, V)>, i: int)
    requires
        distinct_keys(s),
        0 <= i < s.len(),
    ensures
        map_of(s).contains_key(s[i].0@),
        map_of(s)[s[i].0@] == s[i].1@,
    decreases s.len(),
{
    lemma_map_of_contains(s, s[i].0@);
    if i < s.len() - 1 {
        lemma_map_of_index(s.drop_last(), i);
        assert(s.drop_last()[i] == s[i]);
    }
}

pub proof fn lemma_map_of_push<K: View, V: View>(s: Seq<(K, V)>, e: (K, V))
    ensures
        map_of(s.push(e)) == map_of(s).insert(e.0@, e.1@),
{
    assert(s.push(e).drop_last() =~= s);
}

pub proof fn lemma_map_of_update<K: View, V: View>(s: Seq<(K, V)>, i: int, e: (K, V))
    requires
        distinct_keys(s),
        0 <= i < s.len(),
        s[i].0@ == e.0@,
    ensures
        map_of(s.update(i, e)) == map_of(s).insert(e.0@, e.1@),
        distinct_keys(s.update(i, e)),
    decreases s.len(),
{
    let t = s.update(i, e);
    if i == s.len() - 1 {
        assert(t.drop_last() =~= s.drop_last());
        assert(map_of(t) =~= map_of(s).insert(e.0@, e.1@));
    } else {
        assert(t.drop_last() =~= s.drop_last().update(i, e));
        lemma_map_of_update(s.drop_last(), i, e);
        assert(s.last().0@ != e.0@);
        assert(map_of(t) =~= map_of(s).insert(e.0@, e.1@));
    }
}

pub proof fn lemma_map_of_remove<K: View, V: View>(s: Seq<(K, V)>, i: int)
    requires
        distinct_keys(s),
        0 <= i < s.len(),
    ensures
        map_of(s.remove(i)) == map_of(s).remove(s[i].0@),
        distinct_keys(s.remove(i)),
    decreases s.len(),
{
    let t = s.remove(i);
    let k = s[i].0@;
    if i == s.len() - 1 {
        assert(t =~= s.drop_last());
        lemma_map_of_contains(s.drop_last(), k);
        assert(map_of(t) =~= map_of(s).remove(k));
    } else {
        assert(t.drop_last() =~= s.drop_last().remove(i));
        assert(t.last() == s.last());
        lemma_map_of_remove(s.drop_last(), i);
        assert(s.last().0@ != k);
        assert(map_of(t) =~= map_of(s).remove(k));
    }
}

/// Two lists of rows with the same views stand for the same map.
pub proof fn lemma_map_of_same_views<K: View, V: View>(s: Seq<(K, V)>, t: Seq<(K, V)>)
    requires
        s.len() == t.len(),
        forall|i: int| 0 <= i < s.len() ==> s[i].0@ == t[i].0@ && s[i].1@ == t[i].1@,
    ensures
        map_of(s) == map_of(t),
        distinct_keys(s) ==> distinct_keys(t),
    decreases s.len(),
{
    if s.len() > 0 {
        lemma_map_of_same_views(s.drop_last(), t.drop_last());
    }
}

/// A table: rows of a key and a value, no key twice.
pub struct TableMap<K, V> {
    entries: Vec<(K, V)>,
}

impl<K: KeyEq, V: View> View for TableMap<K, V> {
    type V = Map<K::V, V::V>;

    open spec fn view(&self) -> Map<K::V, V::V> {
        map_of(self.rows())
    }
}

impl<K: KeyEq, V: View> TableMap<K, V> {
    /// The rows in their stored order.
    pub closed spec fn rows(&self) -> Seq<(K, V)> {
        self.entries@
    }

    /// The rows hold no key twice.
    pub open spec fn wf(&self) -> bool {
        distinct_keys(self.rows())
    }

    /// An empty table.
    pub fn new() -> (r: Self)
        ensures
            r.wf(),
            r@ == Map::<K::V, V::V>::empty(),
            r.rows().len() == 0,
    {
        TableMap { entries: Vec::new() }
    }

    /// The rows of the table, which stand for its map.
    pub fn entries(&self) -> (r: &Vec<(K, V)>)
        requires
            self.wf(),
        ensures
            r@ == self.rows(),
            distinct_keys(r@),
            map_of(r@) == self@,
    {
        &self.entries
    }

    /// The number of rows, one per key.
    pub fn len(&self) -> (r: usize)
        ensures
            r == self.rows().len(),
    {
        self.entries.len()
    }

    /// The position of the row with key `k`.
    fn find(&self, k: &K) -> (r: Option<usize>)
        requires
            self.wf(),
        ensures
            match r {
                Some(i) => i < self.rows().len() && self.rows()[i as int].0@ == k@,
                None => !self@.contains_key(k@),
            },
    {
        let mut i: usize = 0;
        while i < self.entries.len()
            invariant
                i <= self.entries@.len(),
                forall|j: int| 0 <= j < i ==> self.entries@[j].0@ != k@,
            decreases self.entries.len() - i,
        {
            if self.entries[i].0.key_eq(k) {
                return Some(i);
            }
            i += 1;
        }
        proof {
            lemma_map_of_contains(self.rows(), k@);
        }
        None
    }

    /// Whether a row with key `k` exists.
    pub fn contains_key(&self, k: &K) -> (r: bool)
        requires
            self.wf(),
        ensures
            r == self@.contains_key(k@),
    {
        match self.find(k) {
            Some(i) => {
                proof {
                    lemma_map_of_index(self.rows(), i as int);
                }
                true
            },
            None => false,
        }
    }

    /// The value stored under `k`.
    pub fn get(&self, k: &K) -> (r: Option<&V>)
        requires
            self.wf(),
        ensures
            match r {
                Some(v) => self@.contains_key(k@) && v@ == self@[k@],
                None => !self@.contains_key(k@),
            },
    {
        match self.find(k) {
            Some(i) => {
                proof {
                    lemma_map_of_index(self.rows(), i as int);
                }
                Some(&self.entries[i].1)
            },
            None => None,
        }
    }

    /// Stores `v` under `k`; returns the value it replaces.
    pub fn insert(&mut self, k: K, v: V) -> (r: Option<V>)
        requires
            old(self).wf(),
        ensures
            final(self).wf(),
            final(self)@ == old(self)@.insert(k@, v@),
            match r {
                Some(o) => old(self)@.contains_key(k@) && o@ == old(self)@[k@],
                None => !old(self)@.contains_key(k@),
            },
    {
        match self.find(&k) {
            Some(i) => {
                proof {
                    lemma_map_of_index(self.rows(), i as int);
                    lemma_map_of_update(self.rows(), i as int, (k, v));
                }
                let old_row = self.entries.remove(i);
                self.entries.insert(i, (k, v));
                proof {
                    assert(self.entries@ =~= old(self).entries@.update(i as int, (k, v)));
                }
                Some(old_row.1)
            },
            None => {
                proof {
                    lemma_map_of_push(self.rows(), (k, v));
                    lemma_map_of_contains(self.rows(), k@);
                }
                self.entries.push((k, v));
                proof {
                    assert(self.rows() == old(self).rows().push((k, v)));
                    assert forall|i: int, j: int|
                        0 <= i < j < self.rows().len() implies self.rows()[i].0@
                        != self.rows()[j].0@ by {
                        if j == self.rows().len() - 1 {
                            assert(old(self).rows()[i].0@ != k@);
                        } else {
                            assert(self.rows()[i] == old(self).rows()[i]);
                            assert(self.rows()[j] == old(self).rows()[j]);
                        }
                    }
                }
                None
            },
        }
    }

    /// Deletes the row with key `k`; returns its value.
    pub fn remove(&mut self, k: &K) -> (r: Option<V>)
        requires
            old(self).wf(),
        ensures
            final(self).wf(),
            final(self)@ == old(self)@.remove(k@),
            match r {
                Some(o) => old(self)@.contains_key(k@) && o@ == old(self)@[k@],
                None => !old(self)@.contains_key(k@),
            },
    {
        match self.find(k) {
            Some(i) => {
                proof {
                    lemma_map_of_index(self.rows(), i as int);
                    lemma_map_of_remove(self.rows(), i as int);
                }
                let row = self.entries.remove(i);
                Some(row.1)
            },
            None => {
                proof {
                    assert(old(self)@.remove(k@) =~= old(self)@);
                }
                None
            },
        }
    }

    /// A copy of the value stored under `k`.
    pub fn get_copy(&self, k: &K) -> (r: Option<V>)
        where
            V: ValueCopy,
        requires
            self.wf(),
        ensures
            match r {
                Some(v) => self@.contains_key(k@) && v@ == self@[k@],
                None => !self@.contains_key(k@),
            },
    {
        match self.get(k) {
            Some(v) => Some(v.copy_value()),
            None => None,
        }
    }

    /// A copy of the rows.
    pub fn to_vec(&self) -> (r: Vec<(K, V)>)
        where
            V: ValueCopy,
        requires
            self.wf(),
        ensures
            distinct_keys(r@),
            map_of(r@) == self@,
            r@.len() == self.rows().len(),
            forall|i: int|
                0 <= i < r@.len() ==> r@[i].0@ == self.rows()[i].0@ && r@[i].1@
                    == self.rows()[i].1@,
    {
        let mut r: Vec<(K, V)> = Vec::new();
        let mut i: usize = 0;
        while i < self.entries.len()
            invariant
                i <= self.entries@.len(),
                r@.len() == i,
                forall|j: int|
                    0 <= j < i ==> r@[j].0@ == self.entries@[j].0@ && r@[j].1@
                        == self.entries@[j].1@,
            decreases self.entries.len() - i,
        {
            let k = self.entries[i].0.key_clone();
            let v = self.entries[i].1.copy_value();
            r.push((k, v));
            i += 1;
        }
        proof {
            lemma_map_of_same_views(self.rows(), r@);
        }
        r
    }

    /// Copies of the rows whose keys `keep` accepts, in their stored order.
    pub fn rows_where(&self, keep: &Vec<K>) -> (r: Vec<(K, V)>)
        where
            V: ValueCopy,
        requires
            self.wf(),
        ensures
            distinct_keys(r@),
            map_of(r@) == self@.restrict(keep@.map_values(|k: K| k@).to_set()),
    {
        let ghost keys = keep@.map_values(|k: K| k@).to_set();
        let mut r: Vec<(K, V)> = Vec::new();
        let mut i: usize = 0;
        while i < self.entries.len()
            invariant
                i <= self.entries@.len(),
                distinct_keys(self.entries@),
                keys == keep@.map_values(|k: K| k@).to_set(),
                distinct_keys(r@),
                forall|j: int| 0 <= j < r@.len() ==> keys.contains(#[trigger] r@[j].0@),
                map_of(r@) == map_of(self.entries@.take(i as int)).restrict(keys),
                forall|j: int|
                    0 <= j < r@.len() ==> exists|m: int|
                        0 <= m < i && #[trigger] r@[j].0@ == self.entries@[m].0@,
            decreases self.entries.len() - i,
        {
            let mut found = false;
            let mut m: usize = 0;
            while m < keep.len()
                invariant
                    m <= keep@.len(),
                    i < self.entries@.len(),
                    found ==> keys.contains(self.entries@[i as int].0@),
                    !found ==> forall|q: int| 0 <= q < m ==> keep@[q]@ != self.entries@[i as int].0@,
                    keys == keep@.map_values(|k: K| k@).to_set(),
                decreases keep.len() - m,
            {
                if keep[m].key_eq(&self.entries[i].0) {
                    assert(keep@.map_values(|k: K| k@)[m as int] == keep@[m as int]@);
                    found = true;
                }
                m += 1;
            }
            proof {
                if keys.contains(self.entries@[i as int].0@) && !found {
                    let kv = keep@.map_values(|k: K| k@);
                    assert(kv.contains(self.entries@[i as int].0@));
                    let q = choose|q: int| 0 <= q < kv.len() && #[trigger] kv[q] == self.entries@[i as int].0@;
                    assert(keep@[q]@ == self.entries@[i as int].0@);
                }
                assert(self.entries@.take(i + 1) =~= self.entries@.take(i as int).push(
                    self.entries@[i as int],
                ));
                lemma_map_of_push(self.entries@.take(i as int), self.entries@[i as int]);
            }
            if found {
                let k = self.entries[i].0.key_clone();
                let v = self.entries[i].1.copy_value();
                let ghost before = r@;
                proof {
                    lemma_map_of_push(before, (k, v));
                    assert forall|j: int| 0 <= j < before.len() implies before[j].0@ != k@ by {
                        let mm = choose|mm: int|
                            0 <= mm < i && #[trigger] before[j].0@ == self.entries@[mm].0@;
                        assert(self.entries@[mm].0@ != self.entries@[i as int].0@);
                    }
                }
                r.push((k, v));
                proof {
                    assert(r@ == before.push((k, v)));
                    assert(map_of(r@) =~= map_of(self.entries@.take(i + 1)).restrict(keys));
                    assert forall|j: int| 0 <= j < r@.len() implies exists|mm: int|
                        0 <= mm < i + 1 && #[trigger] r@[j].0@ == self.entries@[mm].0@ by {
                        if j < before.len() {
                            assert(r@[j] == before[j]);
                            let mm = choose|mm: int|
                                0 <= mm < i && #[trigger] before[j].0@ == self.entries@[mm].0@;
                        } else {
                            assert(r@[j].0@ == self.entries@[i as int].0@);
                        }
                    }
                }
            } else {
                proof {
                    assert(map_of(r@) =~= map_of(self.entries@.take(i + 1)).restrict(keys));
                }
            }
            i += 1;
        }
        assert(self.entries@.take(self.entries@.len() as int) =~= self.entries@);
        r
    }

    /// Deletes every row.
    pub fn clear(&mut self)
        ensures
            final(self).wf(),
            final(self)@ == Map::<K::V, V::V>::empty(),
    {
        self.entries = Vec::new();
    }
}

} // verus!
