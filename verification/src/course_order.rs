//! Which courses a sign-in run looks at, and in what order.
use crate::course::CourseData;
use crate::model::{Course, CourseInfo};
use vstd::prelude::*;

verus! {

/// Seconds in a day.
pub const SECS_PER_DAY: u64 = 86400;

/// A course unused for this many seconds is left out of a run.
pub const UNUSED_LIMIT_SECS: u64 = 13824000;

/// The default choice and order of the courses of a run.
pub struct DefaultCourseDataSorter;

/// What the order of courses looks at.
#[derive(Clone, Copy)]
pub struct CourseKey {
    pub course: Course,
    pub ended: bool,
    /// `u64::MAX` where the course was never used.
    pub recently_used_timestamp_secs: u64,
}

/// Whether a course with these facts takes part in a run at time `now`: it has not
/// ended, it has been used (a course that never had a sign-in is left out), and its
/// last use lies ahead of `now` or less than `UNUSED_LIMIT_SECS` before it.
pub open spec fn kept(ended: bool, used: u64, now: u64) -> bool {
    !ended && used != u64::MAX && (used > now || now - used < UNUSED_LIMIT_SECS)
}

/// Whether an ended course was last used exactly a week ago (counted in whole days).
pub open spec fn week_old(used: u64, now: u64) -> bool {
    now > used && (now - used) / (SECS_PER_DAY as int) == 7
}

/// The rank of a course in the order: ended courses first; among them those used a
/// week ago first, then the most recently used; the others by course number, then
/// by class number.
pub open spec fn rank(k: CourseKey, now: u64) -> (int, int, int) {
    if k.ended {
        (0, if week_old(k.recently_used_timestamp_secs, now) { 0 } else { 1 }, 0 - k.recently_used_timestamp_secs)
    } else {
        (1, k.course.course_id as int, k.course.class_id as int)
    }
}

/// Lexicographic order of ranks.
pub open spec fn rank_less(a: (int, int, int), b: (int, int, int)) -> bool {
    a.0 < b.0 || (a.0 == b.0 && (a.1 < b.1 || (a.1 == b.1 && a.2 < b.2)))
}

/// Whether `a` comes strictly before `b` at time `now`.
pub open spec fn key_before(a: CourseKey, b: CourseKey, now: u64) -> bool {
    rank_less(rank(a, now), rank(b, now))
}

/// Whether a sequence of keys is in order: no key comes strictly before one that
/// stands ahead of it.
pub open spec fn keys_sorted(s: Seq<CourseKey>, now: u64) -> bool {
    forall|i: int, j: int| 0 <= i < j < s.len() ==> !key_before(#[trigger] s[j], #[trigger] s[i], now)
}

/// The key of a stored course.
pub open spec fn key_of(c: Course, info_ended: bool, used: u64) -> CourseKey {
    CourseKey { course: c, ended: info_ended, recently_used_timestamp_secs: used }
}

/// The order is transitive.
pub proof fn lemma_before_transitive(a: CourseKey, b: CourseKey, c: CourseKey, now: u64)
    requires
        key_before(a, b, now),
        key_before(b, c, now),
    ensures
        key_before(a, c, now),
{
}

/// The order is a strict one.
pub proof fn lemma_before_irreflexive(a: CourseKey, now: u64)
    ensures
        !key_before(a, a, now),
{
}

/// Two keys that neither comes before the other have the same rank; for courses
/// that have not ended, that is the same course.
pub proof fn lemma_before_total(a: CourseKey, b: CourseKey, now: u64)
    ensures
        key_before(a, b, now) || key_before(b, a, now) || rank(a, now) == rank(b, now),
        (!a.ended && !b.ended && rank(a, now) == rank(b, now)) ==> a.course == b.course,
{
}

/// The keys of the entries that take part in a run at time `now`, in their order.
pub open spec fn kept_keys(es: Seq<(Course, (CourseInfo, CourseData))>, now: u64) -> Seq<CourseKey>
    decreases es.len(),
{
    if es.len() == 0 {
        Seq::<CourseKey>::empty()
    } else {
        let e = es.last();
        let k = key_of(e.0, e.1.0.ended, e.1.1@.recently_used_timestamp_secs);
        if kept(k.ended, k.recently_used_timestamp_secs, now) {
            kept_keys(es.drop_last(), now).push(k)
        } else {
            kept_keys(es.drop_last(), now)
        }
    }
}

/// The courses of a sequence of keys.
pub open spec fn key_courses(s: Seq<CourseKey>) -> Seq<Course> {
    s.map_values(|k: CourseKey| k.course)
}

/// How many of `len` items a limit lets through.
pub open spec fn limited(len: nat, limit: Option<usize>) -> nat {
    match limit {
        Some(n) => if n < len {
            n as nat
        } else {
            len
        },
        None => len,
    }
}

/// Whether `a` comes strictly before `b` at time `now`.
pub fn before(a: &CourseKey, b: &CourseKey, now: u64) -> (r: bool)
    ensures
        r == key_before(*a, *b, now),
{
    if a.ended != b.ended {
        a.ended
    } else if a.ended {
        let da = now > a.recently_used_timestamp_secs && (now - a.recently_used_timestamp_secs)
            / SECS_PER_DAY == 7;
        let db = now > b.recently_used_timestamp_secs && (now - b.recently_used_timestamp_secs)
            / SECS_PER_DAY == 7;
        if da != db {
            da
        } else {
            a.recently_used_timestamp_secs > b.recently_used_timestamp_secs
        }
    } else {
        a.course.course_id < b.course.course_id || (a.course.course_id == b.course.course_id
            && a.course.class_id < b.course.class_id)
    }
}

/// The keys in order; equal keys keep their order.
pub fn sort_keys(keys: &Vec<CourseKey>, now: u64) -> (r: Vec<CourseKey>)
    ensures
        r@.to_multiset() == keys@.to_multiset(),
        keys_sorted(r@, now),
{
    let mut r: Vec<CourseKey> = Vec::new();
    let mut i: usize = 0;
    assert(keys@.take(0) =~= r@);
    while i < keys.len()
        invariant
            i <= keys@.len(),
            r@.to_multiset() == keys@.take(i as int).to_multiset(),
            keys_sorted(r@, now),
        decreases keys.len() - i,
    {
        let x = keys[i];
        let mut p: usize = 0;
        while p < r.len() && !before(&x, &r[p], now)
            invariant
                p <= r@.len(),
                forall|q: int| 0 <= q < p ==> !key_before(x, #[trigger] r@[q], now),
            decreases r.len() - p,
        {
            p += 1;
        }
        let ghost old_r = r@;
        r.insert(p, x);
        proof {
            assert(keys@.take(i + 1) =~= keys@.take(i as int).push(x));
            assert(r@ == old_r.insert(p as int, x));
            vstd::seq_lib::to_multiset_insert(old_r, p as int, x);
            vstd::seq_lib::to_multiset_build(keys@.take(i as int), x);
            assert forall|a: int, b: int| 0 <= a < b < r@.len() implies !key_before(
                #[trigger] r@[b],
                #[trigger] r@[a],
                now,
            ) by {
                if a < p && b == p {
                } else if a < p && b > p {
                    assert(r@[b] == old_r[b - 1]);
                } else if a == p {
                    assert(r@[b] == old_r[b - 1]);
                    if key_before(old_r[b - 1], x, now) {
                        assert(p < old_r.len());
                        assert(key_before(x, old_r[p as int], now));
                        lemma_before_transitive(old_r[b - 1], x, old_r[p as int], now);
                        if b - 1 > p {
                            assert(!key_before(old_r[b - 1], old_r[p as int], now));
                        } else {
                            lemma_before_irreflexive(old_r[p as int], now);
                        }
                    }
                } else if a > p {
                    assert(r@[a] == old_r[a - 1]);
                    assert(r@[b] == old_r[b - 1]);
                }
            }
        }
        i += 1;
    }
    assert(keys@.take(keys@.len() as int) =~= keys@);
    r
}

/// The key of a stored course.
pub fn key_from(course: &Course, info: &CourseInfo, data: &CourseData) -> (r: CourseKey)
    ensures
        r == key_of(*course, info.ended, data@.recently_used_timestamp_secs),
{
    CourseKey {
        course: *course,
        ended: info.ended,
        recently_used_timestamp_secs: *data.recently_used_timestamp(),
    }
}

impl DefaultCourseDataSorter {
    /// Whether the course takes part in a run at time `now_secs`, as `kept` states.
    pub fn filter(a: (&Course, &CourseInfo, &CourseData), now_secs: u64) -> (r: bool)
        ensures
            r == kept(a.1.ended, a.2@.recently_used_timestamp_secs, now_secs),
    {
        let used = *a.2.recently_used_timestamp();
        !a.1.ended && used != u64::MAX && (used > now_secs || now_secs - used < UNUSED_LIMIT_SECS)
    }
}

/// The courses of a run, in the order they are visited: where `course` is given,
/// that one (it must be among `courses`); else those that `filter` keeps, in the order of `key_before`; at most
/// `limit` of them where a limit is given.
pub fn select_run_courses(
    courses: &Vec<(Course, (CourseInfo, CourseData))>,
    course: Option<Course>,
    limit: Option<usize>,
    now_secs: u64,
) -> (r: Vec<Course>)
    requires
        course matches Some(c) ==> exists|i: int| 0 <= i < courses@.len() && courses@[i].0 == c,
    ensures
        match course {
            Some(c) => r@ == seq![c].take(limited(1, limit) as int),
            None => exists|s: Seq<CourseKey>|
                #![trigger keys_sorted(s, now_secs)]
                s.to_multiset() == kept_keys(courses@, now_secs).to_multiset() && keys_sorted(
                    s,
                    now_secs,
                ) && r@ == key_courses(s).take(limited(s.len(), limit) as int),
        },
{
    let mut r: Vec<Course> = Vec::new();
    match course {
        Some(c) => {
            let keep = match limit {
                Some(n) => n > 0,
                None => true,
            };
            if keep {
                r.push(c);
            }
            assert(r@ =~= seq![c].take(limited(1, limit) as int));
        },
        None => {
            let mut keys: Vec<CourseKey> = Vec::new();
            let mut i: usize = 0;
            while i < courses.len()
                invariant
                    i <= courses@.len(),
                    keys@ == kept_keys(courses@.take(i as int), now_secs),
                decreases courses.len() - i,
            {
                let e = &courses[i];
                proof {
                    assert(courses@.take(i + 1).drop_last() =~= courses@.take(i as int));
                    assert(courses@.take(i + 1).last() == courses@[i as int]);
                }
                if DefaultCourseDataSorter::filter((&e.0, &e.1.0, &e.1.1), now_secs) {
                    keys.push(key_from(&e.0, &e.1.0, &e.1.1));
                }
                i += 1;
            }
            assert(courses@.take(courses@.len() as int) =~= courses@);
            let sorted = sort_keys(&keys, now_secs);
            let n: usize = match limit {
                Some(l) => if l < sorted.len() {
                    l
                } else {
                    sorted.len()
                },
                None => sorted.len(),
            };
            let mut j: usize = 0;
            while j < n
                invariant
                    j <= n,
                    n <= sorted@.len(),
                    r@ == key_courses(sorted@).take(j as int),
                decreases n - j,
            {
                r.push(sorted[j].course);
                proof {
                    assert(key_courses(sorted@).take(j + 1) =~= key_courses(sorted@).take(j as int).push(
                        sorted@[j as int].course,
                    ));
                }
                j += 1;
            }
            assert(keys_sorted(sorted@, now_secs));
        },
    }
    r
}

} // verus!
