//! What the `courses` command lists, and how fetched courses are stored.
use crate::course::{is_merge, CourseData, CourseDataView, CourseStoreData, CourseTable};
use crate::model::{Course, CourseInfo, CourseInfoView};
use crate::seqs::{contains_view, copy_vec, seq_views};
use crate::text::{trimmed_pieces, views};
use crate::account::uid_list_spec;
use vstd::prelude::*;

verus! {

/// The options of the `courses` command.
pub struct CoursesParser {
    /// The uids whose courses are listed, separated by commas; every account's
    /// where none is given.
    pub uid: Option<String>,
    /// Fetch the courses anew before listing them.
    pub fresh: bool,
}

/// The `courses` command.
pub struct CoursesCmdApp;

/// Whether two lists of uids share one.
pub open spec fn shares_user(users: Seq<Seq<char>>, uids: Seq<Seq<char>>) -> bool {
    exists|u: Seq<char>| #[trigger] users.contains(u) && uids.contains(u)
}

/// The entries of the first `n` courses that a listing shows: where `uids` is
/// given, those with a user among them.
pub open spec fn listed_courses(
    es: Seq<(Course, (CourseInfo, CourseData))>,
    uids: Option<Seq<Seq<char>>>,
    n: int,
) -> Seq<(Course, CourseInfoView)>
    decreases n,
{
    if n <= 0 {
        Seq::empty()
    } else {
        let e = es[n - 1];
        let show = match uids {
            Some(us) => shares_user(e.1.1@.users, us),
            None => true,
        };
        if show {
            listed_courses(es, uids, n - 1).push((e.0, e.1.0@))
        } else {
            listed_courses(es, uids, n - 1)
        }
    }
}

/// The uids that a listing keeps to: the pieces of the given list, unless the
/// courses were fetched anew.
pub open spec fn listing_uids(p: CoursesParser) -> Option<Seq<Seq<char>>> {
    match p.uid {
        Some(u) => if p.fresh {
            None
        } else {
            Some(uid_list_spec(u@))
        },
        None => None,
    }
}

/// What is stored for a fetched course: never used, its users, no places.
pub open spec fn fetched_data(info: CourseInfoView, users: Seq<Seq<char>>) -> (CourseInfoView, CourseDataView) {
    (info, CourseDataView { recently_used_timestamp_secs: u64::MAX, users, locations: Seq::empty() })
}

/// Whether `r` is `old` after each fetched course is merged in with its users, as
/// `merge_course` merges.
pub open spec fn merged_all(
    r: Map<Course, (CourseInfoView, CourseDataView)>,
    old: Map<Course, (CourseInfoView, CourseDataView)>,
    fetched: Seq<(Course, CourseInfo, Vec<String>)>,
    update_info: bool,
) -> bool {
    &&& forall|c: Course| #[trigger] r.contains_key(c) <==> (old.contains_key(c) || exists|i: int|
        0 <= i < fetched.len() && fetched[i].0 == c)
    &&& forall|c: Course|
        #![trigger r[c]]
        old.contains_key(c) && (forall|i: int| 0 <= i < fetched.len() ==> fetched[i].0 != c) ==> r[c]
            == old[c]
    &&& forall|i: int| #![trigger fetched[i]] 0 <= i < fetched.len() ==> {
        let c = fetched[i].0;
        let new = fetched_data(fetched[i].1@, views(fetched[i].2@));
        if old.contains_key(c) {
            is_merge(r[c], old[c], new, update_info)
        } else {
            r[c] == new
        }
    }
}

impl CoursesCmdApp {
    /// The courses that a listing shows, with what is known of them: where a uid
    /// list is given and the courses were not fetched anew, those with a user among
    /// its trimmed pieces; else all of them.
    pub fn listed(courses: &Vec<(Course, (CourseInfo, CourseData))>, parser: &CoursesParser) -> (r: Vec<
        (Course, CourseInfo),
    >)
        ensures
            r@.map_values(|x: (Course, CourseInfo)| (x.0, x.1@)) == listed_courses(
                courses@,
                listing_uids(*parser),
                courses@.len() as int,
            ),
    {
        let ghost uids = listing_uids(*parser);
        let set: Option<Vec<String>> = match &parser.uid {
            Some(u) => if parser.fresh {
                None
            } else {
                Some(trimmed_pieces(u.as_str(), ','))
            },
            None => None,
        };
        let mut r: Vec<(Course, CourseInfo)> = Vec::new();
        let mut i: usize = 0;
        while i < courses.len()
            invariant
                i <= courses@.len(),
                match uids {
                    Some(us) => set matches Some(s) && views(s@) == us,
                    None => set is None,
                },
                r@.map_values(|x: (Course, CourseInfo)| (x.0, x.1@)) == listed_courses(courses@, uids, i as int),
            decreases courses.len() - i,
        {
            let e = &courses[i];
            let show = match &set {
                Some(s) => {
                    let users = e.1.1.users();
                    let mut found = false;
                    let mut j: usize = 0;
                    while j < users.len()
                        invariant
                            j <= users@.len(),
                            found == exists|k: int| 0 <= k < j && views(s@).contains(#[trigger] users@[k]@),
                        decreases users.len() - j,
                    {
                        if contains_view(s, &users[j]) {
                            assert(views(s@) == crate::seqs::seq_views(s@));
                            found = true;
                        } else {
                            assert(views(s@) == crate::seqs::seq_views(s@));
                        }
                        j += 1;
                    }
                    proof {
                        let us = views(users@);
                        if found {
                            let k = choose|k: int| 0 <= k < users@.len() && views(s@).contains(#[trigger] users@[k]@);
                            assert(us[k] == users@[k]@);
                            assert(us.contains(us[k]));
                        }
                        if shares_user(us, views(s@)) {
                            let u = choose|u: Seq<char>| #[trigger] us.contains(u) && views(s@).contains(u);
                            let k = choose|k: int| 0 <= k < us.len() && us[k] == u;
                            assert(views(s@).contains(users@[k]@));
                        }
                    }
                    found
                },
                None => true,
            };
            let ghost before = r@;
            if show {
                r.push((e.0, e.1.0.duplicate()));
                assert(r@.map_values(|x: (Course, CourseInfo)| (x.0, x.1@)) =~= before.map_values(
                    |x: (Course, CourseInfo)| (x.0, x.1@),
                ).push((e.0, e.1.0@)));
            }
            i += 1;
        }
        r
    }

    /// Stores each fetched course with its users, merged with what is stored as
    /// `merge_course` merges; returns, in the same order, what is stored of each now.
    pub fn merge_fetched(
        table: &mut CourseTable,
        fetched: &Vec<(Course, CourseInfo, Vec<String>)>,
        update_info: bool,
    ) -> (r: Vec<(Course, CourseStoreData)>)
        requires
            old(table).wf(),
            forall|i: int, j: int| 0 <= i < j < fetched@.len() ==> fetched@[i].0 != fetched@[j].0,
        ensures
            final(table).wf(),
            merged_all(final(table)@, old(table)@, fetched@, update_info),
            r@.len() == fetched@.len(),
            forall|i: int| #![trigger r@[i]] 0 <= i < r@.len() ==> r@[i].0 == fetched@[i].0 && r@[i].1@
                == final(table)@[fetched@[i].0],
    {
        let ghost start = table@;
        let mut r: Vec<(Course, CourseStoreData)> = Vec::new();
        let mut i: usize = 0;
        while i < fetched.len()
            invariant
                i <= fetched@.len(),
                table.wf(),
                forall|a: int, b: int| 0 <= a < b < fetched@.len() ==> fetched@[a].0 != fetched@[b].0,
                merged_all(table@, start, fetched@.take(i as int), update_info),
                r@.len() == i,
                forall|k: int| #![trigger r@[k]] 0 <= k < i ==> r@[k].0 == fetched@[k].0 && r@[k].1@
                    == table@[fetched@[k].0],
            decreases fetched.len() - i,
        {
            let e = &fetched[i];
            let users = copy_vec(&e.2);
            assert(views(users@) == seq_views(users@));
            assert(views(e.2@) == seq_views(e.2@));
            let data = CourseData::new(u64::MAX, users, Vec::new());
            assert(data@.locations =~= Seq::<crate::model::GeoaddrView>::empty());
            let ghost before = table@;
            let stored = table.merge_course(&e.0, (e.1.duplicate(), data), update_info);
            proof {
                let c = e.0;
                let fs = fetched@.take(i + 1);
                assert(fetched@.take(i as int) =~= fs.take(i as int));
                assert forall|x: Course| #[trigger] table@.contains_key(x) <==> (start.contains_key(x) || exists|k: int|
                    0 <= k < fs.len() && fs[k].0 == x) by {
                    if x == c {
                        assert(fs[i as int].0 == x);
                    }
                    if exists|k: int| 0 <= k < fs.len() && fs[k].0 == x {
                        let k = choose|k: int| 0 <= k < fs.len() && fs[k].0 == x;
                        if k < i {
                            assert(fetched@.take(i as int)[k].0 == x);
                        }
                    }
                }
                assert forall|x: Course|
                    #![trigger table@[x]]
                    start.contains_key(x) && (forall|k: int| 0 <= k < fs.len() ==> fs[k].0 != x) implies table@[x]
                        == start[x] by {
                    assert(fs[i as int].0 == c);
                    assert forall|k: int| 0 <= k < i implies fetched@.take(i as int)[k].0 != x by {
                        assert(fs[k].0 != x);
                    }
                }
                assert forall|k: int| #![trigger fs[k]] 0 <= k < fs.len() implies {
                    let ck = fs[k].0;
                    let new = fetched_data(fs[k].1@, views(fs[k].2@));
                    if start.contains_key(ck) {
                        is_merge(table@[ck], start[ck], new, update_info)
                    } else {
                        table@[ck] == new
                    }
                } by {
                    if k < i {
                        assert(fetched@.take(i as int)[k] == fs[k]);
                        assert(fs[k].0 != c);
                        let pk = fetched@.take(i as int)[k];
                        assert(before[pk.0] == table@[pk.0]);
                    } else {
                        assert(fs[k] == fetched@[i as int]);
                        assert(forall|m: int| 0 <= m < i ==> fetched@.take(i as int)[m].0 != c);
                        if start.contains_key(c) {
                            assert(before.contains_key(c));
                            assert(before[c] == start[c]);
                        } else {
                            assert(!before.contains_key(c));
                        }
                    }
                }
            }
            r.push((e.0, stored));
            proof {
                assert forall|k: int| #![trigger r@[k]] 0 <= k < i + 1 implies r@[k].0 == fetched@[k].0 && r@[k].1@
                    == table@[fetched@[k].0] by {
                    if k < i {
                        assert(fetched@[k].0 != e.0);
                    }
                }
            }
            i += 1;
        }
        assert(fetched@.take(fetched@.len() as int) =~= fetched@);
        r
    }
}

} // verus!
