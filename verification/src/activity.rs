//! Activities of courses, and the table that caches them with their users.
use crate::model::Course;
use crate::seqs::copy_vec;
use crate::table_map::{distinct_keys, map_of, TableMap, ValueCopy};
use crate::text::views;
use vstd::prelude::*;

verus! {

/// An activity of a course; a sign-in is one kind of activity.
pub struct Activity {
    pub id: String,
    pub name: String,
    pub course: Course,
    pub start_time_mills: u64,
    pub status_code: i32,
    /// Whether the activity is a sign-in.
    pub is_sign: bool,
    /// Whether a sign-in is still open.
    pub valid: bool,
}

pub struct ActivityView {
    pub id: Seq<char>,
    pub name: Seq<char>,
    pub course: Course,
    pub start_time_mills: u64,
    pub status_code: i32,
    pub is_sign: bool,
    pub valid: bool,
}

impl View for Activity {
    type V = ActivityView;

    open spec fn view(&self) -> ActivityView {
        ActivityView {
            id: self.id@,
            name: self.name@,
            course: self.course,
            start_time_mills: self.start_time_mills,
            status_code: self.status_code,
            is_sign: self.is_sign,
            valid: self.valid,
        }
    }
}

impl ValueCopy for Activity {
    fn copy_value(&self) -> (r: Self) {
        Activity {
            id: self.id.clone(),
            name: self.name.clone(),
            course: self.course,
            start_time_mills: self.start_time_mills,
            status_code: self.status_code,
            is_sign: self.is_sign,
            valid: self.valid,
        }
    }
}

impl Activity {
    /// Sets the status code.
    pub fn set_status_code(&mut self, status: i32)
        ensures
            final(self)@ == (ActivityView { status_code: status, ..old(self)@ }),
    {
        self.status_code = status;
    }
}

/// An activity with the uids of the users it was seen by.
pub struct ActivityEntry {
    pub activity: Activity,
    pub users: Vec<String>,
}

impl View for ActivityEntry {
    type V = (ActivityView, Seq<Seq<char>>);

    open spec fn view(&self) -> (ActivityView, Seq<Seq<char>>) {
        (self.activity@, views(self.users@))
    }
}

impl ValueCopy for ActivityEntry {
    fn copy_value(&self) -> (r: Self) {
        let users = copy_vec(&self.users);
        assert(views(users@) == crate::seqs::seq_views(users@));
        assert(views(self.users@) == crate::seqs::seq_views(self.users@));
        ActivityEntry { activity: self.activity.copy_value(), users }
    }
}

/// The cached activities, by id.
pub struct ActivityTable {
    map: TableMap<String, ActivityEntry>,
}

impl View for ActivityTable {
    type V = Map<Seq<char>, (ActivityView, Seq<Seq<char>>)>;

    closed spec fn view(&self) -> Map<Seq<char>, (ActivityView, Seq<Seq<char>>)> {
        self.map@
    }
}

impl ActivityTable {
    pub closed spec fn wf(&self) -> bool {
        self.map.wf()
    }

    pub fn new() -> (r: ActivityTable)
        ensures
            r.wf(),
            r@ == Map::<Seq<char>, (ActivityView, Seq<Seq<char>>)>::empty(),
    {
        ActivityTable { map: TableMap::new() }
    }

    /// Every cached activity with its users.
    pub fn iter(&self) -> (r: Vec<(String, ActivityEntry)>)
        requires
            self.wf(),
        ensures
            distinct_keys(r@),
            map_of(r@) == self@,
    {
        self.map.to_vec()
    }

    /// The activity cached under `key`.
    pub fn get(&self, key: &String) -> (r: Option<ActivityEntry>)
        requires
            self.wf(),
        ensures
            match r {
                Some(v) => self@.contains_key(key@) && v@ == self@[key@],
                None => !self@.contains_key(key@),
            },
    {
        self.map.get_copy(key)
    }

    /// Deletes the activity cached under `key`; returns it.
    pub fn remove(&mut self, key: &String) -> (r: Option<ActivityEntry>)
        requires
            old(self).wf(),
        ensures
            final(self).wf(),
            final(self)@ == old(self)@.remove(key@),
            match r {
                Some(v) => old(self)@.contains_key(key@) && v@ == old(self)@[key@],
                None => !old(self)@.contains_key(key@),
            },
    {
        self.map.remove(key)
    }

    /// Caches `value` under `key`; returns what it replaces.
    pub fn insert(&mut self, key: String, value: ActivityEntry) -> (r: Option<ActivityEntry>)
        requires
            old(self).wf(),
        ensures
            final(self).wf(),
            final(self)@ == old(self)@.insert(key@, value@),
            match r {
                Some(v) => old(self)@.contains_key(key@) && v@ == old(self)@[key@],
                None => !old(self)@.contains_key(key@),
            },
    {
        self.map.insert(key, value)
    }

    /// Sets the status code of the activity cached under `active_id`; returns
    /// whether there was one.
    pub fn update_status(&mut self, active_id: &String, status: i32) -> (r: bool)
        requires
            old(self).wf(),
        ensures
            final(self).wf(),
            r == old(self)@.contains_key(active_id@),
            r ==> final(self)@ == old(self)@.insert(
                active_id@,
                (
                    ActivityView { status_code: status, ..old(self)@[active_id@].0 },
                    old(self)@[active_id@].1,
                ),
            ),
            !r ==> final(self)@ == old(self)@,
    {
        match self.map.get_copy(active_id) {
            Some(entry) => {
                let mut entry = entry;
                entry.activity.set_status_code(status);
                let _ = self.map.insert(active_id.clone(), entry);
                true
            },
            None => false,
        }
    }
}

impl ActivityTable {
    /// Caches each row in turn, as an import does; returns, for each row, whether
    /// it replaced a cached activity.
    pub fn import_rows(&mut self, rows: Vec<(String, ActivityEntry)>) -> (r: Vec<bool>)
        requires
            old(self).wf(),
        ensures
            final(self).wf(),
            final(self)@ == old(self)@.union_prefer_right(map_of(rows@)),
            r@.len() == rows@.len(),
            forall|i: int| #![trigger r@[i]] 0 <= i < r@.len() ==> r@[i] == old(self)@.union_prefer_right(
                map_of(rows@.take(i)),
            ).contains_key(rows@[i].0@),
    {
        let ghost start = self@;
        let ghost all = rows@;
        let mut replaced: Vec<bool> = Vec::new();
        assert(all.take(0) =~= Seq::<(String, ActivityEntry)>::empty());
        assert(start.union_prefer_right(map_of(all.take(0))) =~= start);
        let mut i: usize = 0;
        let n = rows.len();
        while i < n
            invariant
                n == all.len(),
                all == rows@,
                i <= n,
                self.wf(),
                self@ == start.union_prefer_right(map_of(all.take(i as int))),
                replaced@.len() == i,
                forall|j: int| #![trigger replaced@[j]] 0 <= j < i ==> replaced@[j] == start.union_prefer_right(
                    map_of(all.take(j)),
                ).contains_key(all[j].0@),
            decreases n - i,
        {
            let k = rows[i].0.clone();
            let v = rows[i].1.copy_value();
            proof {
                assert(all.take(i + 1) =~= all.take(i as int).push(all[i as int]));
                crate::table_map::lemma_map_of_push(all.take(i as int), all[i as int]);
            }
            let old_value = self.insert(k, v);
            proof {
                assert(self@ =~= start.union_prefer_right(map_of(all.take(i + 1))));
            }
            replaced.push(old_value.is_some());
            i += 1;
        }
        assert(all.take(n as int) =~= all);
        replaced
    }
}

} // verus!
