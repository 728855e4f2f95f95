//! All tables of the store together, and the operations that span several of them.
use crate::account::{AccountDataView, AccountTable};
use crate::activity::{ActivityEntry, ActivityTable, ActivityView};
use crate::config::{CommonDataTable, KeyTypeView};
use crate::course::{is_union, takes_time, CourseDataView, CourseTable};
use crate::error::StoreError;
use crate::exclude::ExcludeTable;
use crate::location::{alias_of, AliasTable, LocationTable, LocationTableData, LocationTableDataView};
use crate::model::{Course, CourseInfoView, Geoaddr, GeoaddrView, Geolocation, GeolocationView};
use crate::seqs::union_distinct;
use crate::table_map::ValueCopy;
use crate::text::views;
use vstd::prelude::*;

verus! {

/// Every table of the store.
pub struct Tables {
    pub accounts: AccountTable,
    pub common_data: CommonDataTable,
    pub courses: CourseTable,
    pub locations: LocationTable,
    pub aliases: AliasTable,
    pub activities: ActivityTable,
    pub excludes: ExcludeTable,
}

pub type CourseMap = Map<Course, (CourseInfoView, CourseDataView)>;

pub type LocationMap = Map<GeolocationView, LocationTableDataView>;

pub type AliasMap = Map<Seq<char>, GeoaddrView>;

/// The contents of every table.
pub struct TablesView {
    pub accounts: Map<Seq<char>, AccountDataView>,
    pub common_data: Map<KeyTypeView, Seq<char>>,
    pub courses: CourseMap,
    pub locations: LocationMap,
    pub aliases: AliasMap,
    pub activities: Map<Seq<char>, (ActivityView, Seq<Seq<char>>)>,
    pub excludes: Set<i64>,
}

impl View for Tables {
    type V = TablesView;

    open spec fn view(&self) -> TablesView {
        TablesView {
            accounts: self.accounts@,
            common_data: self.common_data@,
            courses: self.courses@,
            locations: self.locations@,
            aliases: self.aliases@,
            activities: self.activities@,
            excludes: self.excludes@,
        }
    }
}

/// A course entry with one more place.
pub open spec fn with_place(
    e: (CourseInfoView, CourseDataView),
    g: GeoaddrView,
) -> (CourseInfoView, CourseDataView) {
    (e.0, CourseDataView { locations: e.1.locations.push(g), ..e.1 })
}

/// The courses after the place `g` is added to each stored course of `cs` in turn.
pub open spec fn file_place(m: CourseMap, cs: Seq<Course>, g: GeoaddrView) -> CourseMap
    decreases cs.len(),
{
    if cs.len() == 0 {
        m
    } else {
        let m2 = file_place(m, cs.drop_last(), g);
        let c = cs.last();
        if m2.contains_key(c) {
            m2.insert(c, with_place(m2[c], g))
        } else {
            m2
        }
    }
}

/// The position of the first course of `cs` that is not stored; `cs.len()` if all are.
pub open spec fn first_missing(m: CourseMap, cs: Seq<Course>) -> int
    decreases cs.len(),
{
    if cs.len() == 0 {
        0
    } else if !m.contains_key(cs[0]) {
        0
    } else {
        1 + first_missing(m, cs.drop_first())
    }
}

pub proof fn lemma_file_place_dom(m: CourseMap, cs: Seq<Course>, g: GeoaddrView)
    ensures
        file_place(m, cs, g).dom() == m.dom(),
    decreases cs.len(),
{
    if cs.len() > 0 {
        lemma_file_place_dom(m, cs.drop_last(), g);
        assert(file_place(m, cs, g).dom() =~= m.dom());
    }
}

pub proof fn lemma_first_missing(m: CourseMap, cs: Seq<Course>, i: int)
    requires
        0 <= i <= cs.len(),
        forall|k: int| 0 <= k < i ==> m.contains_key(cs[k]),
        i == cs.len() || !m.contains_key(cs[i]),
    ensures
        first_missing(m, cs) == i,
    decreases cs.len(),
{
    if cs.len() > 0 && i > 0 {
        assert forall|k: int| 0 <= k < i - 1 implies m.contains_key(cs.drop_first()[k]) by {
            assert(cs.drop_first()[k] == cs[k + 1]);
        }
        if i < cs.len() {
            assert(cs.drop_first()[i - 1] == cs[i]);
        }
        lemma_first_missing(m, cs.drop_first(), i - 1);
    }
}

pub proof fn lemma_first_missing_bounds(m: CourseMap, cs: Seq<Course>)
    ensures
        0 <= first_missing(m, cs) <= cs.len(),
        forall|k: int| 0 <= k < first_missing(m, cs) ==> m.contains_key(cs[k]),
        first_missing(m, cs) < cs.len() ==> !m.contains_key(cs[first_missing(m, cs)]),
    decreases cs.len(),
{
    if cs.len() > 0 && m.contains_key(cs[0]) {
        lemma_first_missing_bounds(m, cs.drop_first());
        assert forall|k: int| 0 <= k < first_missing(m, cs) implies m.contains_key(cs[k]) by {
            if k > 0 {
                assert(cs[k] == cs.drop_first()[k - 1]);
            }
        }
        if first_missing(m, cs) < cs.len() {
            assert(cs[first_missing(m, cs)] == cs.drop_first()[first_missing(m, cs) - 1]);
        }
    }
}

/// `add_location`: the place goes into the table of places with its courses, and
/// is added to each course of `cs` in turn; it stops with an error at the first
/// course that is not stored. Returns the tables after, and whether it succeeded.
pub open spec fn add_location_spec(
    t: TablesView,
    loc: GeolocationView,
    addr: Seq<char>,
    cs: Seq<Course>,
) -> (TablesView, bool) {
    let g = GeoaddrView { place_name: addr, geolocation: loc };
    let i = first_missing(t.courses, cs);
    (
        TablesView {
            locations: t.locations.insert(loc, LocationTableDataView { unhandled_addr: addr, courses: cs }),
            courses: file_place(t.courses, cs.take(i), g),
            ..t
        },
        i == cs.len(),
    )
}

/// The aliases after each of `names` is made to name `g`, in turn.
pub open spec fn insert_aliases(m: AliasMap, names: Seq<Seq<char>>, g: GeoaddrView) -> AliasMap
    decreases names.len(),
{
    if names.len() == 0 {
        m
    } else {
        insert_aliases(m, names.drop_last(), g).insert(names.last(), g)
    }
}

/// `insert_location`: `add_location`, and where it succeeds each of `names` is
/// made an alias of the place.
pub open spec fn insert_location_spec(
    t: TablesView,
    loc: GeolocationView,
    addr: Seq<char>,
    cs: Seq<Course>,
    names: Seq<Seq<char>>,
) -> (TablesView, bool) {
    let (t2, ok) = add_location_spec(t, loc, addr, cs);
    if ok {
        (
            TablesView {
                aliases: insert_aliases(
                    t2.aliases,
                    names,
                    GeoaddrView { place_name: addr, geolocation: loc },
                ),
                ..t2
            },
            true,
        )
    } else {
        (t2, false)
    }
}

/// The aliases left when the place at `loc` is deleted: those of other places.
pub open spec fn aliases_without(m: AliasMap, loc: GeolocationView) -> AliasMap {
    m.restrict(m.dom().filter(|a: Seq<char>| !alias_of(m, a, loc)))
}

/// `delete_location`: the position leaves the table of places, and where it was
/// there, every alias of a place at it goes too.
pub open spec fn delete_location_spec(t: TablesView, loc: GeolocationView) -> TablesView {
    TablesView {
        locations: t.locations.remove(loc),
        aliases: if t.locations.contains_key(loc) {
            aliases_without(t.aliases, loc)
        } else {
            t.aliases
        },
        ..t
    }
}

/// Every alias names a place at a stored position.
pub open spec fn aliases_resolve(t: TablesView) -> bool {
    forall|a: Seq<char>| #[trigger] t.aliases.contains_key(a) ==> t.locations.contains_key(t.aliases[a].geolocation)
}

/// Making each of `names` an alias of `g` leaves every alias naming `g` or what it
/// named before.
proof fn lemma_insert_aliases(m: AliasMap, names: Seq<Seq<char>>, g: GeoaddrView)
    ensures
        forall|a: Seq<char>| #[trigger] insert_aliases(m, names, g).contains_key(a) ==> (m.contains_key(a)
            && insert_aliases(m, names, g)[a] == m[a]) || insert_aliases(m, names, g)[a] == g,
    decreases names.len(),
{
    if names.len() > 0 {
        lemma_insert_aliases(m, names.drop_last(), g);
        let prev = insert_aliases(m, names.drop_last(), g);
        assert(insert_aliases(m, names, g) == prev.insert(names.last(), g));
        assert forall|a: Seq<char>| #[trigger] insert_aliases(m, names, g).contains_key(a) implies (m.contains_key(a)
            && insert_aliases(m, names, g)[a] == m[a]) || insert_aliases(m, names, g)[a] == g by {
            if a != names.last() {
                assert(prev.contains_key(a));
            }
        }
    }
}

/// Storing a place keeps every alias naming a stored position.
pub proof fn lemma_add_location_keeps_aliases(t: TablesView, loc: GeolocationView, addr: Seq<char>, cs: Seq<Course>)
    requires
        aliases_resolve(t),
    ensures
        aliases_resolve(add_location_spec(t, loc, addr, cs).0),
{
}

/// Storing a place with aliases keeps every alias naming a stored position.
pub proof fn lemma_insert_location_keeps_aliases(
    t: TablesView,
    loc: GeolocationView,
    addr: Seq<char>,
    cs: Seq<Course>,
    names: Seq<Seq<char>>,
)
    requires
        aliases_resolve(t),
    ensures
        aliases_resolve(insert_location_spec(t, loc, addr, cs, names).0),
{
    let t2 = add_location_spec(t, loc, addr, cs).0;
    lemma_add_location_keeps_aliases(t, loc, addr, cs);
    lemma_insert_aliases(t2.aliases, names, GeoaddrView { place_name: addr, geolocation: loc });
}

/// Deleting a position keeps every alias naming a stored position.
pub proof fn lemma_delete_location_keeps_aliases(t: TablesView, loc: GeolocationView)
    requires
        aliases_resolve(t),
    ensures
        aliases_resolve(delete_location_spec(t, loc)),
{
    let r = delete_location_spec(t, loc);
    assert forall|a: Seq<char>| #[trigger] r.aliases.contains_key(a) implies r.locations.contains_key(
        r.aliases[a].geolocation,
    ) by {
        if t.locations.contains_key(loc) {
            assert(t.aliases.dom().filter(|b: Seq<char>| !alias_of(t.aliases, b, loc)).contains(a));
            assert(!alias_of(t.aliases, a, loc));
        }
    }
}

/// Deleting a stored place takes it out of the table of places together with
/// every alias of a place at its position, and leaves every other place and
/// every other alias as it was.
pub proof fn lemma_delete_location_clears(t: TablesView, loc: GeolocationView)
    requires
        t.locations.contains_key(loc),
    ensures
        !delete_location_spec(t, loc).locations.contains_key(loc),
        forall|a: Seq<char>| !alias_of(#[trigger] delete_location_spec(t, loc).aliases, a, loc),
        forall|g: GeolocationView|
            g != loc && #[trigger] t.locations.contains_key(g) ==> delete_location_spec(t, loc).locations.contains_key(g)
                && delete_location_spec(t, loc).locations[g] == t.locations[g],
        forall|a: Seq<char>|
            #[trigger] t.aliases.contains_key(a) && !alias_of(t.aliases, a, loc) ==> delete_location_spec(
                t,
                loc,
            ).aliases.contains_key(a) && delete_location_spec(t, loc).aliases[a] == t.aliases[a],
{
    let r = delete_location_spec(t, loc);
    assert forall|a: Seq<char>| !alias_of(#[trigger] r.aliases, a, loc) by {
        if r.aliases.contains_key(a) {
            assert(t.aliases.dom().filter(|b: Seq<char>| !alias_of(t.aliases, b, loc)).contains(a));
        }
    }
    assert forall|a: Seq<char>|
        #[trigger] t.aliases.contains_key(a) && !alias_of(t.aliases, a, loc) implies r.aliases.contains_key(a)
            && r.aliases[a] == t.aliases[a] by {
        assert(t.aliases.dom().filter(|b: Seq<char>| !alias_of(t.aliases, b, loc)).contains(a));
    }
}

impl Tables {
    pub open spec fn wf(&self) -> bool {
        &&& self.accounts.wf()
        &&& self.common_data.wf()
        &&& self.courses.wf()
        &&& self.locations.wf()
        &&& self.aliases.wf()
        &&& self.activities.wf()
        &&& self.excludes.wf()
    }

    /// Empty tables.
    pub fn new() -> (r: Tables)
        ensures
            r.wf(),
            r@.accounts.is_empty(),
            r@.common_data.is_empty(),
            r@.courses.is_empty(),
            r@.locations.is_empty(),
            r@.aliases.is_empty(),
            r@.activities.is_empty(),
            r@.excludes.is_empty(),
            aliases_resolve(r@),
    {
        Tables {
            accounts: AccountTable::new(),
            common_data: CommonDataTable::new(),
            courses: CourseTable::new(),
            locations: LocationTable::new(),
            aliases: AliasTable::new(),
            activities: ActivityTable::new(),
            excludes: ExcludeTable::new(),
        }
    }
}

impl LocationTable {
    /// Stores the place `unhandled_addr` at `location` for `courses`, and adds it to
    /// the places of each of those courses in turn, as `add_location_spec` states;
    /// a course that is not stored is a `LogicError`, met after the courses before
    /// it were served.
    pub fn add_location(
        db: &mut Tables,
        location: &Geolocation,
        unhandled_addr: &String,
        courses: &Vec<Course>,
    ) -> (r: Result<(), StoreError>)
        requires
            old(db).wf(),
        ensures
            final(db).wf(),
            final(db)@ == add_location_spec(old(db)@, location@, unhandled_addr@, courses@).0,
            r is Ok == add_location_spec(old(db)@, location@, unhandled_addr@, courses@).1,
            r matches Err(e) ==> e is LogicError,
            aliases_resolve(old(db)@) ==> aliases_resolve(final(db)@),
    {
        proof {
            if aliases_resolve(old(db)@) {
                lemma_add_location_keeps_aliases(old(db)@, location@, unhandled_addr@, courses@);
            }
        }
        let ghost t = db@;
        let ghost g = GeoaddrView { place_name: unhandled_addr@, geolocation: location@ };
        let _ = db.locations.insert(
            location.duplicate(),
            LocationTableData { unhandled_addr: unhandled_addr.clone(), courses: courses.clone() },
        );
        let mut i: usize = 0;
        proof {
            assert(courses@.take(0) =~= Seq::<Course>::empty());
        }
        while i < courses.len()
            invariant
                i <= courses@.len(),
                db.wf(),
                db@ == (TablesView {
                    locations: t.locations.insert(
                        location@,
                        LocationTableDataView { unhandled_addr: unhandled_addr@, courses: courses@ },
                    ),
                    courses: file_place(t.courses, courses@.take(i as int), g),
                    ..t
                }),
                forall|k: int| 0 <= k < i ==> t.courses.contains_key(courses@[k]),
                t == old(db)@,
                g == (GeoaddrView { place_name: unhandled_addr@, geolocation: location@ }),
            decreases courses.len() - i,
        {
            let c = courses[i];
            proof {
                lemma_file_place_dom(t.courses, courses@.take(i as int), g);
                assert(courses@.take(i + 1) =~= courses@.take(i as int).push(c));
                assert(courses@.take(i + 1).drop_last() =~= courses@.take(i as int));
            }
            match db.courses.get_course(&c) {
                Some(entry) => {
                    let (info, mut data) = entry;
                    data.push_location(Geoaddr::new(unhandled_addr.clone(), location.duplicate()));
                    let _ = db.courses.insert_course(&c, (info, data));
                },
                None => {
                    proof {
                        assert(!db@.courses.contains_key(c));
                        assert(!db@.courses.dom().contains(c));
                        assert(!t.courses.dom().contains(c));
                        assert(!t.courses.contains_key(courses@[i as int]));
                        lemma_first_missing(t.courses, courses@, i as int);
                        assert(first_missing(t.courses, courses@) == i);
                    }
                    return Err(
                        StoreError::LogicError(
                            String::from_str("the course is not stored, no place can be set for it"),
                        ),
                    );
                },
            }
            i += 1;
        }
        proof {
            lemma_first_missing(t.courses, courses@, courses@.len() as int);
            assert(courses@.take(courses@.len() as int) =~= courses@);
        }
        Ok(())
    }

    /// `add_location`, then, where it succeeds, makes each of `aliases` name the
    /// place, as `insert_location_spec` states.
    pub fn insert_location(
        db: &mut Tables,
        location: &Geolocation,
        unhandled_addr: &String,
        courses: &Vec<Course>,
        aliases: &Vec<String>,
    ) -> (r: Result<(), StoreError>)
        requires
            old(db).wf(),
        ensures
            final(db).wf(),
            final(db)@ == insert_location_spec(
                old(db)@,
                location@,
                unhandled_addr@,
                courses@,
                views(aliases@),
            ).0,
            r is Ok == insert_location_spec(
                old(db)@,
                location@,
                unhandled_addr@,
                courses@,
                views(aliases@),
            ).1,
            aliases_resolve(old(db)@) ==> aliases_resolve(final(db)@),
    {
        proof {
            if aliases_resolve(old(db)@) {
                lemma_insert_location_keeps_aliases(
                    old(db)@,
                    location@,
                    unhandled_addr@,
                    courses@,
                    views(aliases@),
                );
            }
        }
        match LocationTable::add_location(db, location, unhandled_addr, courses) {
            Err(e) => return Err(e),
            Ok(()) => {},
        }
        let ghost t2 = db@;
        let ghost g = GeoaddrView { place_name: unhandled_addr@, geolocation: location@ };
        let mut i: usize = 0;
        proof {
            assert(views(aliases@).take(0) =~= Seq::<Seq<char>>::empty());
        }
        while i < aliases.len()
            invariant
                i <= aliases@.len(),
                db.wf(),
                db@ == (TablesView {
                    aliases: insert_aliases(t2.aliases, views(aliases@).take(i as int), g),
                    ..t2
                }),
                g == (GeoaddrView { place_name: unhandled_addr@, geolocation: location@ }),
            decreases aliases.len() - i,
        {
            let addr = Geoaddr::new(unhandled_addr.clone(), location.duplicate());
            db.aliases.add_alias(aliases[i].as_str(), addr);
            proof {
                assert(views(aliases@)[i as int] == aliases@[i as int]@);
                assert(views(aliases@).take(i + 1).drop_last() =~= views(aliases@).take(i as int));
            }
            i += 1;
        }
        assert(views(aliases@).take(aliases@.len() as int) =~= views(aliases@));
        Ok(())
    }

    /// Deletes the place at `location` and, where it was stored, every alias of a
    /// place at that position, as `delete_location_spec` states.
    pub fn delete_location(db: &mut Tables, location: &Geolocation)
        requires
            old(db).wf(),
        ensures
            final(db).wf(),
            final(db)@ == delete_location_spec(old(db)@, location@),
            aliases_resolve(old(db)@) ==> aliases_resolve(final(db)@),
    {
        proof {
            if aliases_resolve(old(db)@) {
                lemma_delete_location_keeps_aliases(old(db)@, location@);
            }
        }
        let removed = db.locations.remove(location);
        match removed {
            Some(_) => {
                db.aliases.delete_aliases_of(location);
                proof {
                    assert(db@.aliases =~= aliases_without(old(db)@.aliases, location@));
                }
            },
            None => {},
        }
    }
}

/// How `merge` caches an activity: where its key is cached already, the new
/// activity with the users of both, each once, the courses unchanged; else the
/// new entry as it is, and its course takes the activity's start as the time it
/// was last used, as `update_recently_used_time` does.
pub open spec fn merge_courses(
    t: TablesView,
    key: Seq<char>,
    entry: (ActivityView, Seq<Seq<char>>),
) -> CourseMap {
    let c = entry.0.course;
    if !t.activities.contains_key(key) && t.courses.contains_key(c) && takes_time(
        t.courses[c].1.recently_used_timestamp_secs,
        entry.0.start_time_mills,
    ) {
        t.courses.insert(
            c,
            (
                t.courses[c].0,
                CourseDataView {
                    recently_used_timestamp_secs: entry.0.start_time_mills,
                    ..t.courses[c].1
                },
            ),
        )
    } else {
        t.courses
    }
}

/// Merging an activity never moves a course's last use backwards and changes
/// nothing else of the courses: where the activity is not cached yet, its course
/// takes the start time only where its stored time is unset (`u64::MAX`) or
/// earlier; every other time stays as it is.
pub proof fn lemma_merge_time_forward(
    t: TablesView,
    key: Seq<char>,
    entry: (ActivityView, Seq<Seq<char>>),
    c: Course,
)
    requires
        t.courses.contains_key(c),
    ensures
        merge_courses(t, key, entry).dom() == t.courses.dom(),
        merge_courses(t, key, entry)[c].0 == t.courses[c].0,
        merge_courses(t, key, entry)[c].1.users == t.courses[c].1.users,
        merge_courses(t, key, entry)[c].1.locations == t.courses[c].1.locations,
        ({
            let before = t.courses[c].1.recently_used_timestamp_secs;
            let after = merge_courses(t, key, entry)[c].1.recently_used_timestamp_secs;
            let start = entry.0.start_time_mills;
            &&& before != u64::MAX ==> after >= before
            &&& after == if c == entry.0.course && !t.activities.contains_key(key) && (before == u64::MAX
                || before < start) {
                start
            } else {
                before
            }
        }),
{
    assert(merge_courses(t, key, entry).dom() =~= t.courses.dom());
}

impl ActivityTable {
    /// Caches `entry` under `key`, merged as `merge_courses` states; returns what is
    /// cached now.
    pub fn merge(db: &mut Tables, key: &String, entry: ActivityEntry) -> (r: ActivityEntry)
        requires
            old(db).wf(),
        ensures
            final(db).wf(),
            final(db)@ == (TablesView {
                activities: old(db)@.activities.insert(key@, r@),
                courses: merge_courses(old(db)@, key@, entry@),
                ..old(db)@
            }),
            r@.0 == entry@.0,
            old(db)@.activities.contains_key(key@) ==> is_union(
                r@.1,
                old(db)@.activities[key@].1,
                entry@.1,
            ),
            !old(db)@.activities.contains_key(key@) ==> r@.1 == entry@.1,
    {
        let merged = match db.activities.get(key) {
            Some(old_entry) => {
                let users = union_distinct(&old_entry.users, &entry.users);
                assert(views(users@) == crate::seqs::seq_views(users@));
                assert(views(old_entry.users@) == crate::seqs::seq_views(old_entry.users@));
                assert(views(entry.users@) == crate::seqs::seq_views(entry.users@));
                ActivityEntry { activity: entry.activity, users }
            },
            None => {
                let _ = db.courses.update_recently_used_time(
                    &entry.activity.course,
                    entry.activity.start_time_mills,
                );
                entry
            },
        };
        let _ = db.activities.insert(key.clone(), merged.copy_value());
        merged
    }
}

} // verus!
