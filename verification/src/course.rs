//! What is kept of each course, and the table of courses.
use crate::model::{Course, CourseInfo, CourseInfoView, Geoaddr, GeoaddrView};
use crate::seqs::{copy_vec, dedup, seq_views, union_distinct};
use crate::table_map::{distinct_keys, map_of, TableMap, ValueCopy};
use crate::text::views;
use vstd::prelude::*;

verus! {

/// What is kept of a course: when it was last used (seconds; `u64::MAX` for
/// never), the uids of its users and its places.
pub struct CourseData {
    recently_used_timestamp_secs: u64,
    users: Vec<String>,
    locations: Vec<Geoaddr>,
}

pub struct CourseDataView {
    pub recently_used_timestamp_secs: u64,
    pub users: Seq<Seq<char>>,
    pub locations: Seq<GeoaddrView>,
}

impl View for CourseData {
    type V = CourseDataView;

    closed spec fn view(&self) -> CourseDataView {
        CourseDataView {
            recently_used_timestamp_secs: self.recently_used_timestamp_secs,
            users: views(self.users@),
            locations: seq_views(self.locations@),
        }
    }
}

impl ValueCopy for CourseData {
    fn copy_value(&self) -> (r: Self) {
        let users = copy_vec(&self.users);
        assert(views(users@) == seq_views(users@));
        assert(views(self.users@) == seq_views(self.users@));
        CourseData {
            recently_used_timestamp_secs: self.recently_used_timestamp_secs,
            users,
            locations: copy_vec(&self.locations),
        }
    }
}

/// The same elements, each once.
pub open spec fn same_elements<T>(r: Seq<T>, s: Seq<T>) -> bool {
    &&& r.no_duplicates()
    &&& forall|x: T| #[trigger] r.contains(x) <==> s.contains(x)
}

/// The elements of both lists, each once.
pub open spec fn is_union<T>(r: Seq<T>, a: Seq<T>, b: Seq<T>) -> bool {
    &&& r.no_duplicates()
    &&& forall|x: T| #[trigger] r.contains(x) <==> (a.contains(x) || b.contains(x))
}

impl CourseData {
    pub fn new(recently_used_timestamp_secs: u64, users: Vec<String>, locations: Vec<Geoaddr>) -> (r:
        CourseData)
        ensures
            r@ == (CourseDataView {
                recently_used_timestamp_secs,
                users: views(users@),
                locations: seq_views(locations@),
            }),
    {
        CourseData { recently_used_timestamp_secs, users, locations }
    }

    pub fn recently_used_timestamp(&self) -> (r: &u64)
        ensures
            *r == self@.recently_used_timestamp_secs,
    {
        &self.recently_used_timestamp_secs
    }

    pub fn users(&self) -> (r: &Vec<String>)
        ensures
            views(r@) == self@.users,
    {
        &self.users
    }

    pub fn locations(&self) -> (r: &Vec<Geoaddr>)
        ensures
            seq_views(r@) == self@.locations,
    {
        &self.locations
    }

    pub fn decompose(self) -> (r: (u64, Vec<String>, Vec<Geoaddr>))
        ensures
            r.0 == self@.recently_used_timestamp_secs,
            views(r.1@) == self@.users,
            seq_views(r.2@) == self@.locations,
    {
        (self.recently_used_timestamp_secs, self.users, self.locations)
    }

    pub fn set_recently_used_timestamp(&mut self, recently_used_timestamp_secs: u64)
        ensures
            final(self)@ == (CourseDataView { recently_used_timestamp_secs, ..old(self)@ }),
    {
        self.recently_used_timestamp_secs = recently_used_timestamp_secs;
    }

    /// Sets the users to the uids of `users`, each once.
    pub fn set_users(&mut self, users: &Vec<String>)
        ensures
            final(self)@.recently_used_timestamp_secs == old(self)@.recently_used_timestamp_secs,
            final(self)@.locations == old(self)@.locations,
            same_elements(final(self)@.users, views(users@)),
    {
        let d = dedup(users);
        assert(views(d@) == seq_views(d@));
        assert(views(users@) == seq_views(users@));
        self.users = d;
    }

    /// Sets the places to those of `locations`, each once.
    pub fn set_locations(&mut self, locations: &Vec<Geoaddr>)
        ensures
            final(self)@.recently_used_timestamp_secs == old(self)@.recently_used_timestamp_secs,
            final(self)@.users == old(self)@.users,
            same_elements(final(self)@.locations, seq_views(locations@)),
    {
        self.locations = dedup(locations);
    }

    /// Adds a user.
    pub fn push_user(&mut self, user: String)
        ensures
            final(self)@ == (CourseDataView { users: old(self)@.users.push(user@), ..old(self)@ }),
    {
        self.users.push(user);
        assert(views(self.users@) =~= views(old(self).users@).push(user@));
    }

    /// Adds a place.
    pub fn push_location(&mut self, location: Geoaddr)
        ensures
            final(self)@ == (CourseDataView {
                locations: old(self)@.locations.push(location@),
                ..old(self)@
            }),
    {
        self.locations.push(location);
        assert(seq_views(self.locations@) =~= seq_views(old(self).locations@).push(location@));
    }
}

/// A course as stored: what is known of it and what is kept of it.
pub type CourseStoreData = (CourseInfo, CourseData);

/// How `merge_course` combines a stored entry `old` with a new one `new`: the info
/// of `new` where `update_info`, else that of `old`; the time of `new`; the users
/// and the places of both, each once.
pub open spec fn is_merge(
    r: (CourseInfoView, CourseDataView),
    old: (CourseInfoView, CourseDataView),
    new: (CourseInfoView, CourseDataView),
    update_info: bool,
) -> bool {
    &&& r.0 == if update_info {
        new.0
    } else {
        old.0
    }
    &&& r.1.recently_used_timestamp_secs == new.1.recently_used_timestamp_secs
    &&& is_union(r.1.users, new.1.users, old.1.users)
    &&& is_union(r.1.locations, new.1.locations, old.1.locations)
}

/// Merging the same entry a second time changes nothing but, possibly, the order
/// of the users and of the places.
pub proof fn lemma_merge_twice(
    r1: (CourseInfoView, CourseDataView),
    r2: (CourseInfoView, CourseDataView),
    old: (CourseInfoView, CourseDataView),
    new: (CourseInfoView, CourseDataView),
    update_info: bool,
)
    requires
        is_merge(r1, old, new, update_info),
        is_merge(r2, r1, new, update_info),
    ensures
        r2.0 == r1.0,
        r2.1.recently_used_timestamp_secs == r1.1.recently_used_timestamp_secs,
        forall|u: Seq<char>| #[trigger] r2.1.users.contains(u) <==> r1.1.users.contains(u),
        forall|g: GeoaddrView| #[trigger] r2.1.locations.contains(g) <==> r1.1.locations.contains(g),
{
}

/// Whether `update_recently_used_time` takes a new time `t` over a stored one:
/// where none is stored (`u64::MAX`) or `t` is later.
pub open spec fn takes_time(stored: u64, t: u64) -> bool {
    stored == u64::MAX || t > stored
}

/// The time kept for a course only moves forward: a new time is taken over a kept
/// one only where it is later, unless the course was never used.
pub proof fn lemma_recent_time_moves_forward(stored: u64, t: u64)
    ensures
        takes_time(stored, t) && stored != u64::MAX ==> t > stored,
        !takes_time(stored, t) ==> stored != u64::MAX && t <= stored,
{
}

/// The courses, by course.
pub struct CourseTable {
    map: TableMap<Course, CourseStoreData>,
}

impl View for CourseTable {
    type V = Map<Course, (CourseInfoView, CourseDataView)>;

    closed spec fn view(&self) -> Map<Course, (CourseInfoView, CourseDataView)> {
        self.map@
    }
}

impl CourseTable {
    pub closed spec fn wf(&self) -> bool {
        self.map.wf()
    }

    pub fn new() -> (r: CourseTable)
        ensures
            r.wf(),
            r@ == Map::<Course, (CourseInfoView, CourseDataView)>::empty(),
    {
        CourseTable { map: TableMap::new() }
    }

    /// Whether the course is stored.
    pub fn contains_key(&self, course: &Course) -> (r: bool)
        requires
            self.wf(),
        ensures
            r == self@.contains_key(*course),
    {
        self.map.contains_key(course)
    }

    /// Stores `data` for `course`; returns what it replaces.
    pub fn insert_course(&mut self, course: &Course, data: CourseStoreData) -> (r: Option<
        CourseStoreData,
    >)
        requires
            old(self).wf(),
        ensures
            final(self).wf(),
            final(self)@ == old(self)@.insert(*course, data@),
            match r {
                Some(o) => old(self)@.contains_key(*course) && o@ == old(self)@[*course],
                None => !old(self)@.contains_key(*course),
            },
    {
        self.map.insert(*course, data)
    }

    /// The same as `insert_course`.
    pub fn update_course(&mut self, course: &Course, data: CourseStoreData) -> (r: Option<
        CourseStoreData,
    >)
        requires
            old(self).wf(),
        ensures
            final(self).wf(),
            final(self)@ == old(self)@.insert(*course, data@),
            match r {
                Some(o) => old(self)@.contains_key(*course) && o@ == old(self)@[*course],
                None => !old(self)@.contains_key(*course),
            },
    {
        self.insert_course(course, data)
    }

    /// What is stored of `course`.
    pub fn get_course(&self, course: &Course) -> (r: Option<CourseStoreData>)
        requires
            self.wf(),
        ensures
            match r {
                Some(d) => self@.contains_key(*course) && d@ == self@[*course],
                None => !self@.contains_key(*course),
            },
    {
        self.map.get_copy(course)
    }

    /// Every course with what is stored of it.
    pub fn get_courses(&self) -> (r: Vec<(Course, CourseStoreData)>)
        requires
            self.wf(),
        ensures
            distinct_keys(r@),
            map_of(r@) == self@,
    {
        self.map.to_vec()
    }

    /// Deletes every course.
    pub fn delete(&mut self)
        ensures
            final(self).wf(),
            final(self)@ == Map::<Course, (CourseInfoView, CourseDataView)>::empty(),
    {
        self.map.clear();
    }

    /// Stores `data` for `course`, merged as `is_merge` states with what is stored
    /// already; returns what is stored now.
    pub fn merge_course(&mut self, course: &Course, data: CourseStoreData, update_info: bool) -> (r:
        CourseStoreData)
        requires
            old(self).wf(),
        ensures
            final(self).wf(),
            final(self)@ == old(self)@.insert(*course, r@),
            old(self)@.contains_key(*course) ==> is_merge(
                r@,
                old(self)@[*course],
                data@,
                update_info,
            ),
            !old(self)@.contains_key(*course) ==> r@ == data@,
    {
        let merged = match self.map.get(course) {
            Some(old_entry) => {
                let (info, new_data) = data;
                let users = union_distinct(&new_data.users, &old_entry.1.users);
                let locations = union_distinct(&new_data.locations, &old_entry.1.locations);
                assert(views(users@) == seq_views(users@));
                assert(views(new_data.users@) == seq_views(new_data.users@));
                assert(views(old_entry.1.users@) == seq_views(old_entry.1.users@));
                let info = if update_info {
                    info
                } else {
                    old_entry.0.duplicate()
                };
                (info, CourseData::new(new_data.recently_used_timestamp_secs, users, locations))
            },
            None => data,
        };
        let stored = merged.copy_value();
        let _ = self.map.insert(*course, stored);
        merged
    }

    /// Takes `recently_used_timestamp_secs` as the time `course` was last used
    /// where `takes_time` allows; returns whether it did. An unknown course is
    /// left alone.
    pub fn update_recently_used_time(&mut self, course: &Course, recently_used_timestamp_secs: u64) -> (r:
        bool)
        requires
            old(self).wf(),
        ensures
            final(self).wf(),
            r == (old(self)@.contains_key(*course) && takes_time(
                old(self)@[*course].1.recently_used_timestamp_secs,
                recently_used_timestamp_secs,
            )),
            r ==> final(self)@ == old(self)@.insert(
                *course,
                (
                    old(self)@[*course].0,
                    CourseDataView { recently_used_timestamp_secs, ..old(self)@[*course].1 },
                ),
            ),
            !r ==> final(self)@ == old(self)@,
    {
        match self.map.get_copy(course) {
            None => false,
            Some(entry) => {
                let (info, mut data) = entry;
                if u64::MAX == data.recently_used_timestamp_secs || recently_used_timestamp_secs
                    > data.recently_used_timestamp_secs {
                    data.set_recently_used_timestamp(recently_used_timestamp_secs);
                    let _ = self.map.insert(*course, (info, data));
                    true
                } else {
                    false
                }
            },
        }
    }

    /// Adds `user` to the users of `course`, if the course is stored.
    pub fn insert_uid(&mut self, course: &Course, user: &str)
        requires
            old(self).wf(),
        ensures
            final(self).wf(),
            old(self)@.contains_key(*course) ==> final(self)@ == old(self)@.insert(
                *course,
                (
                    old(self)@[*course].0,
                    CourseDataView {
                        users: old(self)@[*course].1.users.push(user@),
                        ..old(self)@[*course].1
                    },
                ),
            ),
            !old(self)@.contains_key(*course) ==> final(self)@ == old(self)@,
    {
        match self.map.get_copy(course) {
            None => {},
            Some(entry) => {
                let (info, mut data) = entry;
                data.push_user(String::from_str(user));
                let _ = self.map.insert(*course, (info, data));
            },
        }
    }

    /// Sets the users of `course` to `users`, each once, if the course is stored;
    /// returns what was stored before.
    pub fn update_users(&mut self, course: &Course, users: &Vec<String>) -> (r: Option<
        CourseStoreData,
    >)
        requires
            old(self).wf(),
        ensures
            final(self).wf(),
            match r {
                Some(o) => {
                    &&& old(self)@.contains_key(*course)
                    &&& o@ == old(self)@[*course]
                    &&& final(self)@.dom() == old(self)@.dom()
                    &&& forall|c: Course|
                        c != *course && #[trigger] old(self)@.contains_key(c) ==> final(self)@[c]
                            == old(self)@[c]
                    &&& final(self)@[*course].0 == o@.0
                    &&& final(self)@[*course].1.recently_used_timestamp_secs
                        == o@.1.recently_used_timestamp_secs
                    &&& final(self)@[*course].1.locations == o@.1.locations
                    &&& same_elements(final(self)@[*course].1.users, views(users@))
                },
                None => !old(self)@.contains_key(*course) && final(self)@ == old(self)@,
            },
    {
        match self.map.get_copy(course) {
            None => None,
            Some(entry) => {
                let (info, mut data) = entry;
                data.set_users(users);
                let r = self.map.insert(*course, (info, data));
                assert(final(self)@.dom() =~= old(self)@.dom());
                r
            },
        }
    }
}

} // verus!
