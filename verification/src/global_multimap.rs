//! A registry of builders by key, with a value built by each kept for reuse.
use vstd::prelude::*;

verus! {

/// A value that names itself by a key.
pub trait GetKeyStr {
    fn key_str(&self) -> &str;
}

/// Something that makes values of type `T`.
pub trait Builder<T> {
    fn build(&self) -> T;
}

/// The map that rows of a key and a value stand for; a later row wins.
pub open spec fn keyed_map<V>(rows: Seq<(String, V)>) -> Map<Seq<char>, V>
    decreases rows.len(),
{
    if rows.len() == 0 {
        Map::empty()
    } else {
        keyed_map(rows.drop_last()).insert(rows.last().0@, rows.last().1)
    }
}

/// No key occurs twice.
pub open spec fn keys_distinct<V>(rows: Seq<(String, V)>) -> bool {
    forall|i: int, j: int| 0 <= i < j < rows.len() ==> rows[i].0@ != rows[j].0@
}

proof fn lemma_keyed_contains<V>(rows: Seq<(String, V)>, k: Seq<char>)
    ensures
        keyed_map(rows).contains_key(k) <==> exists|i: int| 0 <= i < rows.len() && rows[i].0@ == k,
    decreases rows.len(),
{
    if rows.len() > 0 {
        lemma_keyed_contains(rows.drop_last(), k);
        if keyed_map(rows).contains_key(k) && rows.last().0@ != k {
            let i = choose|i: int| 0 <= i < rows.len() - 1 && rows.drop_last()[i].0@ == k;
            assert(rows[i].0@ == k);
        }
        if keyed_map(rows).contains_key(k) && rows.last().0@ == k {
            assert(rows[rows.len() - 1].0@ == k);
        }
        if exists|i: int| 0 <= i < rows.len() && rows[i].0@ == k {
            let i = choose|i: int| 0 <= i < rows.len() && rows[i].0@ == k;
            if i < rows.len() - 1 {
                assert(rows.drop_last()[i].0@ == k);
            }
        }
    }
}

proof fn lemma_keyed_index<V>(rows: Seq<(String, V)>, i: int)
    requires
        keys_distinct(rows),
        0 <= i < rows.len(),
    ensures
        keyed_map(rows).contains_key(rows[i].0@),
        keyed_map(rows)[rows[i].0@] == rows[i].1,
    decreases rows.len(),
{
    lemma_keyed_contains(rows, rows[i].0@);
    if i < rows.len() - 1 {
        lemma_keyed_index(rows.drop_last(), i);
        assert(rows.drop_last()[i] == rows[i]);
    }
}

proof fn lemma_keyed_update<V>(rows: Seq<(String, V)>, i: int, e: (String, V))
    requires
        keys_distinct(rows),
        0 <= i < rows.len(),
        rows[i].0@ == e.0@,
    ensures
        keyed_map(rows.update(i, e)) == keyed_map(rows).insert(e.0@, e.1),
        keys_distinct(rows.update(i, e)),
    decreases rows.len(),
{
    let t = rows.update(i, e);
    if i == rows.len() - 1 {
        assert(t.drop_last() =~= rows.drop_last());
        assert(keyed_map(t) =~= keyed_map(rows).insert(e.0@, e.1));
    } else {
        assert(t.drop_last() =~= rows.drop_last().update(i, e));
        lemma_keyed_update(rows.drop_last(), i, e);
        assert(rows.last().0@ != e.0@);
        assert(keyed_map(t) =~= keyed_map(rows).insert(e.0@, e.1));
    }
}

/// The position of the row with key `key`, where there is one.
fn find_key<V>(rows: &Vec<(String, V)>, key: &str) -> (r: Option<usize>)
    ensures
        match r {
            Some(i) => i < rows@.len() && rows@[i as int].0@ == key@,
            None => forall|j: int| 0 <= j < rows@.len() ==> rows@[j].0@ != key@,
        },
{
    let k = String::from_str(key);
    let mut i: usize = 0;
    while i < rows.len()
        invariant
            i <= rows@.len(),
            k@ == key@,
            forall|j: int| 0 <= j < i ==> rows@[j].0@ != key@,
        decreases rows.len() - i,
    {
        if rows[i].0 == k {
            return Some(i);
        }
        i += 1;
    }
    None
}

/// The position of the row with key `key`, which is there.
fn position_of<V>(rows: &Vec<(String, V)>, key: &str) -> (r: usize)
    requires
        keyed_map(rows@).contains_key(key@),
    ensures
        r < rows@.len() && rows@[r as int].0@ == key@,
{
    proof {
        lemma_keyed_contains(rows@, key@);
    }
    let k = String::from_str(key);
    let mut i: usize = 0;
    loop
        invariant
            i <= rows@.len(),
            k@ == key@,
            exists|j: int| i <= j < rows@.len() && rows@[j].0@ == key@,
        decreases rows.len() - i,
    {
        if rows[i].0 == k {
            return i;
        }
        i += 1;
    }
}

/// Sets the row of `key` to `value`, adding one where there is none.
pub(crate) fn put_row<V>(rows: &mut Vec<(String, V)>, key: String, value: V)
    requires
        keys_distinct(old(rows)@),
    ensures
        keys_distinct(final(rows)@),
        keyed_map(final(rows)@) == keyed_map(old(rows)@).insert(key@, value),
{
    match find_key(rows, key.as_str()) {
        Some(i) => {
            let ghost e = (key, value);
            proof {
                lemma_keyed_update(rows@, i as int, e);
            }
            rows.set(i, (key, value));
            assert(rows@ == old(rows)@.update(i as int, e));
        },
        None => {
            let ghost before = rows@;
            rows.push((key, value));
            proof {
                assert(rows@.drop_last() =~= before);
                assert forall|a: int, b: int| 0 <= a < b < rows@.len() implies rows@[a].0@ != rows@[b].0@ by {
                    if b == rows@.len() - 1 {
                        assert(before[a].0@ != key@);
                    }
                }
            }
        },
    }
}

/// Whether `v` names itself by `k`: its `key_str` gives `k`.
pub open spec fn names_itself<T: GetKeyStr>(v: T, k: Seq<char>) -> bool {
    exists|s: &str| #[trigger] call_ensures(T::key_str, (&v,), s) && s@ == k
}

/// Builders by key, with a value built by each, kept for reuse.
pub struct GlobalMultimap<T, B: Builder<T>> {
    builders: Vec<(String, B)>,
    values: Vec<(String, T)>,
}

impl<T, B: Builder<T>> GlobalMultimap<T, B> {
    /// The builders, by key.
    pub closed spec fn builders(&self) -> Map<Seq<char>, B> {
        keyed_map(self.builders@)
    }

    /// The values built so far, by key.
    pub closed spec fn values(&self) -> Map<Seq<char>, T> {
        keyed_map(self.values@)
    }

    /// No key twice, and a value only where there is a builder.
    pub closed spec fn wf(&self) -> bool {
        &&& keys_distinct(self.builders@)
        &&& keys_distinct(self.values@)
        &&& forall|k: Seq<char>| #[trigger] self.values().contains_key(k) ==> self.builders().contains_key(k)
    }

    pub fn new() -> (r: Self)
        ensures
            r.wf(),
            r.builders() == Map::<Seq<char>, B>::empty(),
            r.values() == Map::<Seq<char>, T>::empty(),
    {
        GlobalMultimap { builders: Vec::new(), values: Vec::new() }
    }

    /// Builds a value with `solver_builder` and files the builder and the value
    /// under the key that the value names itself by.
    pub fn register_builder(&mut self, solver_builder: B)
        where
            T: GetKeyStr,
        requires
            old(self).wf(),
        ensures
            final(self).wf(),
            exists|k: Seq<char>|
                {
                    &&& #[trigger] final(self).builders() == old(self).builders().insert(k, solver_builder)
                    &&& final(self).values().dom() == old(self).values().dom().insert(k)
                    &&& call_ensures(B::build, (&solver_builder,), final(self).values()[k])
                    &&& names_itself(final(self).values()[k], k)
                    &&& forall|j: Seq<char>|
                        j != k && #[trigger] old(self).values().contains_key(j) ==> final(self).values()[j]
                            == old(self).values()[j]
                },
    {
        let value = solver_builder.build();
        let key_str = value.key_str();
        let key = String::from_str(key_str);
        let ghost k = key@;
        assert(names_itself(value, k));
        put_row(&mut self.builders, key.clone(), solver_builder);
        put_row(&mut self.values, key, value);
        assert(self.values().dom() =~= old(self).values().dom().insert(k));
        assert(self.builders() == old(self).builders().insert(k, solver_builder));
        assert(self.values()[k] == value);
    }

    /// A value built anew by the builder filed under `key`; `None` where there is
    /// none.
    pub fn build(&self, key: &str) -> (r: Option<T>)
        requires
            self.wf(),
        ensures
            r is Some <==> self.builders().contains_key(key@),
            r matches Some(v) ==> call_ensures(B::build, (&self.builders()[key@],), v),
    {
        proof {
            lemma_keyed_contains(self.builders@, key@);
        }
        match find_key(&self.builders, key) {
            Some(i) => {
                proof {
                    lemma_keyed_index(self.builders@, i as int);
                }
                Some(self.builders[i].1.build())
            },
            None => None,
        }
    }
}

impl<T, B: Builder<T>> Default for GlobalMultimap<T, B> {
    fn default() -> (r: Self)
        ensures
            r.wf(),
            r.builders() == Map::<Seq<char>, B>::empty(),
            r.values() == Map::<Seq<char>, T>::empty(),
    {
        GlobalMultimap::new()
    }
}

/// A key of a registry under which a value is kept, with the registry.
pub struct GlobalMultimapItem<'gm, 's, T, B: Builder<T>> {
    key: &'s str,
    global_multimap: &'gm GlobalMultimap<T, B>,
}

impl<'gm, 's, T, B: Builder<T>> GlobalMultimapItem<'gm, 's, T, B> {
    #[verifier::type_invariant]
    closed spec fn inv(self) -> bool {
        &&& self.global_multimap.wf()
        &&& self.global_multimap.values().contains_key(self.key@)
    }

    /// The key.
    pub closed spec fn spec_key(&self) -> Seq<char> {
        self.key@
    }

    /// The registry.
    pub closed spec fn registry(&self) -> GlobalMultimap<T, B> {
        *self.global_multimap
    }

    /// The item of `key`: where no value is kept under it but a builder is filed,
    /// a value is built and kept first; `None` where neither is there.
    pub fn new(global_multimap: &'gm mut GlobalMultimap<T, B>, key: &'s str) -> (r: Option<
        GlobalMultimapItem<'gm, 's, T, B>,
    >)
        requires
            old(global_multimap).wf(),
        ensures
            final(global_multimap).wf(),
            final(global_multimap).builders() == old(global_multimap).builders(),
            old(global_multimap).values().contains_key(key@) ==> final(global_multimap).values()
                == old(global_multimap).values(),
            !old(global_multimap).values().contains_key(key@) && old(global_multimap).builders().contains_key(key@)
                ==> final(global_multimap).values().dom() == old(global_multimap).values().dom().insert(key@)
                && call_ensures(B::build, (&old(global_multimap).builders()[key@],), final(global_multimap).values()[key@]),
            forall|j: Seq<char>|
                j != key@ && #[trigger] old(global_multimap).values().contains_key(j) ==> final(global_multimap).values()[j]
                    == old(global_multimap).values()[j],
            r is Some <==> (old(global_multimap).values().contains_key(key@) || old(global_multimap).builders().contains_key(key@)),
            match r {
                Some(item) => item.spec_key() == key@ && item.registry() == *final(global_multimap),
                None => *final(global_multimap) == *old(global_multimap),
            },
    {
        proof {
            lemma_keyed_contains(global_multimap.values@, key@);
            lemma_keyed_contains(global_multimap.builders@, key@);
        }
        if find_key(&global_multimap.values, key).is_some() {
            let gm: &'gm GlobalMultimap<T, B> = global_multimap;
            Some(GlobalMultimapItem { key, global_multimap: gm })
        } else {
            match find_key(&global_multimap.builders, key) {
                Some(i) => {
                    proof {
                        lemma_keyed_index(global_multimap.builders@, i as int);
                    }
                    let solver = global_multimap.builders[i].1.build();
                    put_row(&mut global_multimap.values, String::from_str(key), solver);
                    assert(global_multimap.values().dom() =~= old(global_multimap).values().dom().insert(
                        key@,
                    ));
                    let gm: &'gm GlobalMultimap<T, B> = global_multimap;
                    Some(GlobalMultimapItem { key, global_multimap: gm })
                },
                None => None,
            }
        }
    }
}

impl<'gm, 's, T, B: Builder<T>> GlobalMultimapItem<'gm, 's, T, B> {
    /// A value built anew by the builder filed under the key.
    pub fn get(&self) -> (r: T)
        ensures
            self.registry().builders().contains_key(self.spec_key()),
            call_ensures(B::build, (&self.registry().builders()[self.spec_key()],), r),
    {
        proof {
            use_type_invariant(self);
        }
        let i = position_of(&self.global_multimap.builders, self.key);
        proof {
            lemma_keyed_index(self.global_multimap.builders@, i as int);
        }
        self.global_multimap.builders[i].1.build()
    }

    /// A view of the value kept under the key.
    pub fn get_ref(&self) -> (r: GlobalMultimapItemReadGuard<'gm, 's, T, B>)
        ensures
            r.spec_key() == self.spec_key(),
            r.registry() == self.registry(),
    {
        proof {
            use_type_invariant(self);
        }
        GlobalMultimapItemReadGuard { global_multimap: self.global_multimap, key: self.key }
    }
}

impl<'gm, 's, T, B: Builder<T>> GlobalMultimapItem<'gm, 's, T, B> {
    /// The key, as `GetKeyStr` hands it out.
    pub fn key(&self) -> (r: &'s str)
        ensures
            r@ == self.spec_key(),
    {
        self.key
    }
}

impl<'gm, 's, T, B: Builder<T>> GetKeyStr for GlobalMultimapItem<'gm, 's, T, B> {
    fn key_str(&self) -> (r: &str)
        ensures
            r@ == self.spec_key(),
    {
        self.key()
    }
}

/// A view of the value kept under a key of a registry.
pub struct GlobalMultimapItemReadGuard<'a, 's, T, B: Builder<T>> {
    global_multimap: &'a GlobalMultimap<T, B>,
    key: &'s str,
}

impl<'a, 's, T, B: Builder<T>> GlobalMultimapItemReadGuard<'a, 's, T, B> {
    #[verifier::type_invariant]
    closed spec fn inv(self) -> bool {
        &&& self.global_multimap.wf()
        &&& self.global_multimap.values().contains_key(self.key@)
    }

    /// The key.
    pub closed spec fn spec_key(&self) -> Seq<char> {
        self.key@
    }

    /// The registry.
    pub closed spec fn registry(&self) -> GlobalMultimap<T, B> {
        *self.global_multimap
    }

    /// The value kept under the key.
    pub fn get(&self) -> (r: &T)
        ensures
            self.registry().values().contains_key(self.spec_key()),
            *r == self.registry().values()[self.spec_key()],
    {
        proof {
            use_type_invariant(self);
        }
        let i = position_of(&self.global_multimap.values, self.key);
        proof {
            lemma_keyed_index(self.global_multimap.values@, i as int);
        }
        &self.global_multimap.values[i].1
    }
}

} // verus!
