//! Lists of values compared by their views: copies, membership and unions.
use crate::table_map::{KeyEq, ValueCopy};
use vstd::prelude::*;

verus! {

/// The views of the elements of a list.
pub open spec fn seq_views<T: View>(s: Seq<T>) -> Seq<T::V> {
    s.map_values(|x: T| x@)
}

pub proof fn lemma_seq_views_push<T: View>(s: Seq<T>, x: T)
    ensures
        seq_views(s.push(x)) == seq_views(s).push(x@),
        forall|v: T::V| #[trigger]
            seq_views(s.push(x)).contains(v) <==> (seq_views(s).contains(v) || v == x@),
{
    assert(seq_views(s.push(x)) =~= seq_views(s).push(x@));
    assert forall|v: T::V| #[trigger]
        seq_views(s.push(x)).contains(v) implies (seq_views(s).contains(v) || v == x@) by {
        let i = choose|i: int| 0 <= i < seq_views(s.push(x)).len() && seq_views(s.push(x))[i] == v;
        if i < s.len() {
            assert(seq_views(s)[i] == v);
        }
    }
    assert forall|v: T::V| (seq_views(s).contains(v) || v == x@) implies #[trigger] seq_views(
        s.push(x),
    ).contains(v) by {
        if v == x@ {
            assert(seq_views(s.push(x))[s.len() as int] == v);
        } else {
            let i = choose|i: int| 0 <= i < seq_views(s).len() && seq_views(s)[i] == v;
            assert(seq_views(s.push(x))[i] == v);
        }
    }
}

/// A copy of each element, in order.
pub fn copy_vec<T: ValueCopy>(v: &Vec<T>) -> (r: Vec<T>)
    ensures
        seq_views(r@) == seq_views(v@),
{
    let mut r: Vec<T> = Vec::new();
    let mut i: usize = 0;
    while i < v.len()
        invariant
            i <= v.len(),
            seq_views(r@) == seq_views(v@.take(i as int)),
        decreases v.len() - i,
    {
        let x = v[i].copy_value();
        proof {
            lemma_seq_views_push(r@, x);
            assert(v@.take(i + 1) =~= v@.take(i as int).push(v@[i as int]));
            lemma_seq_views_push(v@.take(i as int), v@[i as int]);
        }
        r.push(x);
        i += 1;
    }
    assert(v@.take(v.len() as int) =~= v@);
    r
}

/// Whether an element of `v` has the view of `x`.
pub fn contains_view<T: KeyEq>(v: &Vec<T>, x: &T) -> (r: bool)
    ensures
        r == seq_views(v@).contains(x@),
{
    let mut i: usize = 0;
    while i < v.len()
        invariant
            i <= v.len(),
            forall|j: int| 0 <= j < i ==> v@[j]@ != x@,
        decreases v.len() - i,
    {
        if v[i].key_eq(x) {
            assert(seq_views(v@)[i as int] == x@);
            return true;
        }
        i += 1;
    }
    proof {
        if seq_views(v@).contains(x@) {
            let j = choose|j: int| 0 <= j < seq_views(v@).len() && seq_views(v@)[j] == x@;
            assert(v@[j]@ == x@);
        }
    }
    false
}

/// Appends to `r` a copy of each element of `src` whose view is not yet in `r`.
fn extend_distinct<T: KeyEq>(r: &mut Vec<T>, src: &Vec<T>)
    requires
        seq_views(old(r)@).no_duplicates(),
    ensures
        seq_views(final(r)@).no_duplicates(),
        forall|v: T::V| #[trigger]
            seq_views(final(r)@).contains(v) <==> (seq_views(old(r)@).contains(v) || seq_views(
                src@,
            ).contains(v)),
{
    let mut i: usize = 0;
    while i < src.len()
        invariant
            i <= src.len(),
            seq_views(r@).no_duplicates(),
            forall|v: T::V| #[trigger]
                seq_views(r@).contains(v) <==> (seq_views(old(r)@).contains(v) || seq_views(
                    src@.take(i as int),
                ).contains(v)),
        decreases src.len() - i,
    {
        proof {
            assert(src@.take(i + 1) =~= src@.take(i as int).push(src@[i as int]));
            lemma_seq_views_push(src@.take(i as int), src@[i as int]);
        }
        if !contains_view(r, &src[i]) {
            let x = src[i].key_clone();
            let ghost before = r@;
            proof {
                lemma_seq_views_push(before, x);
            }
            r.push(x);
            proof {
                assert(seq_views(r@) == seq_views(before).push(x@));
                assert forall|a: int, b: int|
                    0 <= a < b < seq_views(r@).len() implies seq_views(r@)[a] != seq_views(
                    r@,
                )[b] by {
                    if b == before.len() {
                        assert(seq_views(before)[a] == seq_views(r@)[a]);
                        assert(seq_views(before).contains(seq_views(r@)[a]));
                    } else {
                        assert(seq_views(before)[a] == seq_views(r@)[a]);
                        assert(seq_views(before)[b] == seq_views(r@)[b]);
                    }
                }
            }
        }
        i += 1;
    }
    assert(src@.take(src.len() as int) =~= src@);
}

/// The elements of `new` and of `old`, each view once.
pub fn union_distinct<T: KeyEq>(new: &Vec<T>, old: &Vec<T>) -> (r: Vec<T>)
    ensures
        seq_views(r@).no_duplicates(),
        forall|v: T::V| #[trigger]
            seq_views(r@).contains(v) <==> (seq_views(new@).contains(v) || seq_views(
                old@,
            ).contains(v)),
{
    let mut r: Vec<T> = Vec::new();
    assert(seq_views(r@) =~= Seq::<T::V>::empty());
    extend_distinct(&mut r, new);
    extend_distinct(&mut r, old);
    r
}

/// The elements of `v`, each view once.
pub fn dedup<T: KeyEq>(v: &Vec<T>) -> (r: Vec<T>)
    ensures
        seq_views(r@).no_duplicates(),
        forall|x: T::V| #[trigger] seq_views(r@).contains(x) <==> seq_views(v@).contains(x),
{
    let mut r: Vec<T> = Vec::new();
    assert(seq_views(r@) =~= Seq::<T::V>::empty());
    extend_distinct(&mut r, v);
    r
}

} // verus!
