//! The decisions of the `location` and `locations` commands on the store.
use crate::course::{CourseDataView, is_union};
use crate::location::{alias_of, LocationTable};
use crate::model::{
    parse_geoaddr_spec, Course, Geoaddr, GeoaddrView, Geolocation, GeolocationOrUnhandledGeoaddr,
    GeolocationView,
};
use crate::seqs::{lemma_seq_views_push, seq_views, union_distinct};
use crate::store::{add_location_spec, aliases_resolve, delete_location_spec, file_place, with_place, Tables, TablesView};
use crate::text::{trim, trim_spec, views};
use vstd::prelude::*;

verus! {

/// What `LocationParser::add` did.
pub enum AddOutcome {
    /// The text is no place, and no alias was given or it names none.
    NoPlace,
    /// The place is stored already and neither a course nor an alias was given:
    /// nothing was done.
    AlreadyStored,
    /// The place is stored; where an alias was given it names the place, and
    /// `replaced` is the place it named before.
    Done { replaced: Option<Geoaddr> },
}

/// The `remove` subcommands of `location`.
pub enum Remove {
    /// Deletes the place at `location`, or else at the place that `alias` names.
    Locations { location: Option<GeolocationOrUnhandledGeoaddr>, alias: Option<String> },
    /// Deletes an alias.
    Aliases { alias: String },
}

/// The `reduce` subcommands of `location`.
pub enum ReduceType {
    /// Deletes places, with their aliases.
    Locations,
    /// Deletes aliases only; of the place at `location` where it is given.
    Aliases { location: Option<GeolocationOrUnhandledGeoaddr> },
}

/// What a `reduce` is to delete.
pub struct ReducePlan {
    pub locations: Vec<Geolocation>,
    pub aliases: Vec<String>,
    pub delete_locations: bool,
}

/// The `location` command.
pub struct LocationParser {}

/// The course a new place is bound to: the one given, else the global course.
pub open spec fn bound_course(course: Option<Course>) -> Course {
    match course {
        Some(c) => c,
        None => Course { course_id: -1i64, class_id: -1i64 },
    }
}

/// The courses a new place is bound to: the one given, else the global course
/// where it is stored, else none.
pub open spec fn new_place_courses(t: TablesView, course: Option<Course>) -> Seq<Course> {
    match course {
        Some(c) => seq![c],
        None => if t.courses.contains_key(bound_course(None)) {
            seq![bound_course(None)]
        } else {
            Seq::<Course>::empty()
        },
    }
}

/// Whether `add` may run: it stops the program where a course is given that is
/// invalid and not the global one, or that is not stored while a new place is to
/// be bound to it or a stored place is to serve it, and where a stored place that
/// is to serve a course serves one that is not stored.
pub open spec fn add_allowed(t: TablesView, location_str: Seq<char>, course: Option<Course>) -> bool {
    &&& course matches Some(c) ==> !c.spec_invalid() || c.spec_is_global_course()
    &&& (parse_geoaddr_spec(location_str) is Some && course is Some) ==> t.courses.contains_key(course->0)
    &&& (parse_geoaddr_spec(location_str) is Some && course is Some && t.locations.contains_key(
        parse_geoaddr_spec(location_str)->0.geolocation,
    )) ==> {
        let gv = parse_geoaddr_spec(location_str)->0.geolocation;
        forall|k: int|
            0 <= k < t.locations[gv].courses.len() ==> t.courses.contains_key(
                #[trigger] t.locations[gv].courses[k],
            )
    }
}

/// The view of an optional string.
pub open spec fn opt_view(a: Option<String>) -> Option<Seq<char>> {
    match a {
        Some(s) => Some(s@),
        None => None,
    }
}

/// The tables after the alias `alias`, where given, is made to name `g`.
pub open spec fn with_alias(t: TablesView, alias: Option<Seq<char>>, g: GeoaddrView) -> TablesView {
    match alias {
        Some(a) => TablesView { aliases: t.aliases.insert(a, g), ..t },
        None => t,
    }
}

/// The position that `remove` is to act on.
pub open spec fn remove_target(
    t: TablesView,
    location: Option<GeolocationView>,
    alias: Option<Seq<char>>,
) -> Option<GeolocationView> {
    match location {
        Some(g) => Some(g),
        None => match alias {
            Some(a) => if t.aliases.contains_key(a) {
                Some(t.aliases[a].geolocation)
            } else {
                None
            },
            None => None,
        },
    }
}

/// The view of a position given either way.
pub open spec fn target_view(l: GeolocationOrUnhandledGeoaddr) -> GeolocationView {
    match l {
        GeolocationOrUnhandledGeoaddr::Geolocation(g) => g@,
        GeolocationOrUnhandledGeoaddr::UnhandledGeoaddr(a) => a@.geolocation,
    }
}

/// The tables after each position of `locs` is deleted in turn, with its aliases.
pub open spec fn delete_locations_spec(t: TablesView, locs: Seq<GeolocationView>) -> TablesView
    decreases locs.len(),
{
    if locs.len() == 0 {
        t
    } else {
        delete_location_spec(delete_locations_spec(t, locs.drop_last()), locs.last())
    }
}

/// The aliases after each of `names` is deleted.
pub open spec fn remove_aliases(m: Map<Seq<char>, GeoaddrView>, names: Seq<Seq<char>>) -> Map<Seq<char>, GeoaddrView>
    decreases names.len(),
{
    if names.len() == 0 {
        m
    } else {
        remove_aliases(m, names.drop_last()).remove(names.last())
    }
}

/// The aliases after `remove_aliases`: those of `m` that are not among `names`,
/// naming what they named before.
pub proof fn lemma_remove_aliases(m: Map<Seq<char>, GeoaddrView>, names: Seq<Seq<char>>)
    ensures
        forall|a: Seq<char>| #[trigger] remove_aliases(m, names).contains_key(a) <==> (m.contains_key(a) && !names.contains(a)),
        forall|a: Seq<char>| #[trigger] remove_aliases(m, names).contains_key(a) ==> remove_aliases(m, names)[a] == m[a],
    decreases names.len(),
{
    if names.len() > 0 {
        lemma_remove_aliases(m, names.drop_last());
        assert(names.last() == names[names.len() - 1]);
        let prev = remove_aliases(m, names.drop_last());
        assert(remove_aliases(m, names) == prev.remove(names.last()));
        assert forall|a: Seq<char>| #[trigger] remove_aliases(m, names).contains_key(a) <==> (m.contains_key(a)
            && !names.contains(a)) by {
            assert(prev.contains_key(a) <==> (m.contains_key(a) && !names.drop_last().contains(a)));
            if names.contains(a) && a != names.last() {
                let k = choose|k: int| 0 <= k < names.len() && names[k] == a;
                assert(k < names.len() - 1);
                assert(names.drop_last()[k] == a);
                assert(names.drop_last().contains(a));
            }
            if names.drop_last().contains(a) {
                let k = choose|k: int| 0 <= k < names.len() - 1 && names.drop_last()[k] == a;
                assert(names[k] == a);
            }
            if a == names.last() {
                assert(names[names.len() - 1] == a);
            }
        }
    }
}

/// Deleting positions in turn keeps no alias that was not there, and changes
/// none that stays; every position deleted is gone.
pub proof fn lemma_delete_locations(t: TablesView, locs: Seq<GeolocationView>)
    ensures
        forall|a: Seq<char>| #[trigger] delete_locations_spec(t, locs).aliases.contains_key(a) ==> t.aliases.contains_key(a)
            && delete_locations_spec(t, locs).aliases[a] == t.aliases[a],
        forall|k: int| 0 <= k < locs.len() ==> !delete_locations_spec(t, locs).locations.contains_key(#[trigger] locs[k]),
    decreases locs.len(),
{
    if locs.len() > 0 {
        let init = locs.drop_last();
        lemma_delete_locations(t, init);
        let t1 = delete_locations_spec(t, init);
        let r = delete_location_spec(t1, locs.last());
        assert forall|a: Seq<char>| #[trigger] r.aliases.contains_key(a) implies t.aliases.contains_key(a)
            && r.aliases[a] == t.aliases[a] by {
            if t1.locations.contains_key(locs.last()) {
                assert(t1.aliases.dom().filter(|b: Seq<char>| !alias_of(t1.aliases, b, locs.last())).contains(a));
            }
        }
        assert forall|k: int| 0 <= k < locs.len() implies !r.locations.contains_key(#[trigger] locs[k]) by {
            if k < locs.len() - 1 {
                assert(init[k] == locs[k]);
            }
        }
    }
}

/// Carrying out a `reduce` plan keeps every alias naming a stored position.
pub proof fn lemma_reduce_keeps_aliases(
    t: TablesView,
    ps: Seq<GeolocationView>,
    names: Seq<Seq<char>>,
    delete_locations: bool,
)
    requires
        aliases_resolve(t),
    ensures
        aliases_resolve(apply_reduce_spec(t, ps, names, delete_locations)),
    decreases ps.len(),
{
    if delete_locations && ps.len() > 0 {
        lemma_reduce_keeps_aliases(t, ps.drop_last(), Seq::<Seq<char>>::empty(), true);
        let t0 = delete_locations_spec(t, ps.drop_last());
        assert(remove_aliases(t0.aliases, Seq::<Seq<char>>::empty()) == t0.aliases);
        assert(apply_reduce_spec(t, ps.drop_last(), Seq::<Seq<char>>::empty(), true) =~= t0);
        crate::store::lemma_delete_location_keeps_aliases(t0, ps.last());
    }
    let t1 = if delete_locations {
        delete_locations_spec(t, ps)
    } else {
        t
    };
    lemma_remove_aliases(t1.aliases, names);
}

/// After a `reduce` plan whose aliases include every alias of a place at one of
/// its positions is carried out, no alias names a place at any of them; where
/// places were to go, none of its positions is stored any more.
pub proof fn lemma_reduce_clears(
    t: TablesView,
    ps: Seq<GeolocationView>,
    names: Seq<Seq<char>>,
    delete_locations: bool,
)
    requires
        forall|a: Seq<char>, k: int|
            #![trigger alias_of(t.aliases, a, ps[k])]
            0 <= k < ps.len() && alias_of(t.aliases, a, ps[k]) ==> names.contains(a),
    ensures
        forall|a: Seq<char>, k: int|
            #![trigger alias_of(apply_reduce_spec(t, ps, names, delete_locations).aliases, a, ps[k])]
            0 <= k < ps.len() ==> !alias_of(apply_reduce_spec(t, ps, names, delete_locations).aliases, a, ps[k]),
        delete_locations ==> forall|k: int|
            0 <= k < ps.len() ==> !apply_reduce_spec(t, ps, names, delete_locations).locations.contains_key(
                #[trigger] ps[k],
            ),
{
    let t1 = if delete_locations {
        delete_locations_spec(t, ps)
    } else {
        t
    };
    lemma_delete_locations(t, ps);
    lemma_remove_aliases(t1.aliases, names);
    let r = apply_reduce_spec(t, ps, names, delete_locations);
    assert forall|a: Seq<char>, k: int|
        #![trigger alias_of(r.aliases, a, ps[k])]
        0 <= k < ps.len() implies !alias_of(r.aliases, a, ps[k]) by {
        if alias_of(r.aliases, a, ps[k]) {
            assert(t1.aliases.contains_key(a));
            assert(t.aliases.contains_key(a) && t.aliases[a] == t1.aliases[a]);
            assert(alias_of(t.aliases, a, ps[k]));
            assert(names.contains(a));
        }
    }
}

impl LocationParser {
    /// Adds the place written in `location_str` (`name,lon,lat,alt`), or else the
    /// place that the alias `location_str` names, and makes `alias` name it:
    /// a new place is bound to `course`, or where none is given to the global
    /// course, as `new_place_courses` states; a stored place is made to serve `course` too, where one is given, and
    /// is left as it is where none is.
    pub fn add(
        db: &mut Tables,
        location_str: &str,
        alias: Option<String>,
        course: Option<Course>,
    ) -> (r: AddOutcome)
        requires
            old(db).wf(),
            add_allowed(old(db)@, location_str@, course),
        ensures
            final(db).wf(),
            match parse_geoaddr_spec(location_str@) {
                Some(g) => if old(db)@.locations.contains_key(g.geolocation) {
                    match course {
                        None => match alias {
                            None => r is AlreadyStored && final(db)@ == old(db)@,
                            Some(a) => r is Done && final(db)@ == with_alias(old(db)@, Some(a@), g),
                        },
                        Some(c) => r is Done && exists|cs: Seq<Course>|
                            is_union(cs, old(db)@.locations[g.geolocation].courses, seq![c])
                                && final(db)@ == with_alias(
                                add_location_spec(old(db)@, g.geolocation, g.place_name, cs).0,
                                opt_view(alias),
                                g,
                            ),
                    }
                } else {
                    let cs = new_place_courses(old(db)@, course);
                    &&& r is Done
                    &&& final(db)@ == with_alias(
                        add_location_spec(old(db)@, g.geolocation, g.place_name, cs).0,
                        opt_view(alias),
                        g,
                    )
                    &&& final(db)@.locations[g.geolocation].courses == cs
                    &&& cs.len() == 1 ==> final(db)@.courses == old(db)@.courses.insert(
                        cs[0],
                        (old(db)@.courses[cs[0]].0, CourseDataView {
                            locations: old(db)@.courses[cs[0]].1.locations.push(g),
                            ..old(db)@.courses[cs[0]].1
                        }),
                    )
                    &&& cs.len() == 0 ==> final(db)@.courses == old(db)@.courses
                },
                None => match alias {
                    None => r is NoPlace && final(db)@ == old(db)@,
                    Some(a) => {
                        let key = trim_spec(location_str@);
                        if old(db)@.aliases.contains_key(key) {
                            r is Done && final(db)@ == with_alias(old(db)@, Some(a@), old(db)@.aliases[key])
                        } else {
                            r is NoPlace && final(db)@ == old(db)@
                        }
                    },
                },
            },
            r matches AddOutcome::Done { replaced } ==> match alias {
                Some(a) => match replaced {
                    Some(o) => old(db)@.aliases.contains_key(a@) && o@ == old(db)@.aliases[a@],
                    None => !old(db)@.aliases.contains_key(a@),
                },
                None => replaced is None,
            },
            aliases_resolve(old(db)@) ==> aliases_resolve(final(db)@),
    {
        let ghost mut cs_w = Seq::<Course>::empty();
        let ghost mut mid = old(db)@;
        let target: Geoaddr = match Geoaddr::parse(location_str) {
            Some(g) => {
                if db.locations.has_location(&g.geolocation) {
                    match course {
                        None => {
                            if alias.is_none() {
                                return AddOutcome::AlreadyStored;
                            }
                        },
                        Some(c) => {
                            let existing = db.locations.get_courses(&g.geolocation);
                            let mut one: Vec<Course> = Vec::new();
                            one.push(c);
                            let cs = union_distinct(&existing, &one);
                            proof {
                                assert(seq_views(cs@) =~= cs@);
                                assert(seq_views(existing@) =~= existing@);
                                assert(seq_views(one@) =~= one@);
                                assert(one@ =~= seq![c]);
                                let t = old(db)@;
                                let gv = g@.geolocation;
                                assert(parse_geoaddr_spec(location_str@) == Some(g@));
                                assert(t.locations.contains_key(gv));
                                assert(t.courses.contains_key(c));
                                assert(existing@ == t.locations[gv].courses);
                                assert(cs@ == seq_views(cs@));
                                assert(existing@ == seq_views(existing@));
                                assert(one@ == seq_views(one@));
                                assert forall|x: Course| #[trigger] cs@.contains(x) implies t.courses.contains_key(x) by {
                                    assert(seq_views(cs@).contains(x));
                                    assert(seq_views(existing@).contains(x) || seq_views(one@).contains(x));
                                    if existing@.contains(x) {
                                        let j = choose|j: int| 0 <= j < existing@.len() && #[trigger] existing@[j] == x;
                                        assert(0 <= j < t.locations[gv].courses.len());
                                        assert(t.locations[gv].courses[j] == x);
                                        assert(add_allowed(t, location_str@, course));
                                        assert(parse_geoaddr_spec(location_str@)->0.geolocation == gv);
                                        assert(t.courses.contains_key(t.locations[gv].courses[j]));
                                    } else {
                                        assert(one@.contains(x));
                                        assert(x == c);
                                    }
                                }
                                assert forall|k: int| 0 <= k < cs@.len() implies t.courses.contains_key(
                                    #[trigger] cs@[k],
                                ) by {
                                    assert(cs@.contains(cs@[k]));
                                }
                                crate::store::lemma_first_missing(t.courses, cs@, cs@.len() as int);
                            }
                            let res = LocationTable::add_location(
                                db,
                                &g.geolocation,
                                &g.unhandled_place_name,
                                &cs,
                            );
                            assert(res is Ok);
                            proof {
                                cs_w = cs@;
                                mid = db@;
                            }
                        },
                    }
                } else {
                    let mut one: Vec<Course> = Vec::new();
                    match course {
                        Some(c) => one.push(c),
                        None => {
                            let global = Course::global_course();
                            if db.courses.contains_key(&global) {
                                one.push(global);
                            }
                        },
                    }
                    proof {
                        assert(one@ =~= new_place_courses(old(db)@, course));
                        crate::store::lemma_first_missing(old(db)@.courses, one@, one@.len() as int);
                        assert(one@.take(one@.len() as int) =~= one@);
                    }
                    let res = LocationTable::add_location(db, &g.geolocation, &g.unhandled_place_name, &one);
                    assert(res is Ok);
                    proof {
                        mid = db@;
                    }
                }
                g
            },
            None => {
                match alias {
                    None => {
                        return AddOutcome::NoPlace;
                    },
                    Some(_) => {},
                }
                match db.aliases.get_location(trim(location_str)) {
                    Some(g) => {
                        proof {
                            if aliases_resolve(old(db)@) {
                                assert(db@.aliases.contains_key(trim_spec(location_str@)));
                                assert(db@.locations.contains_key(g@.geolocation));
                            }
                        }
                        g
                    },
                    None => {
                        return AddOutcome::NoPlace;
                    },
                }
            },
        };
        proof {
            if parse_geoaddr_spec(location_str@) is Some {
                mid = db@;
            }
        }
        let ghost before_alias = db@;
        let ghost al = opt_view(alias);
        let r = match alias {
            Some(a) => {
                let replaced = db.aliases.update_alias(a.as_str(), &target);
                AddOutcome::Done { replaced }
            },
            None => AddOutcome::Done { replaced: None },
        };
        proof {
            assert(db@ == with_alias(before_alias, al, target@));
            if aliases_resolve(old(db)@) {
                assert(aliases_resolve(before_alias));
                assert(before_alias.locations.contains_key(target@.geolocation));
                assert forall|a: Seq<char>| #[trigger] db@.aliases.contains_key(a) implies db@.locations.contains_key(
                    db@.aliases[a].geolocation,
                ) by {
                    if al == Some(a) {
                        assert(db@.aliases[a] == target@);
                    } else {
                        assert(before_alias.aliases.contains_key(a));
                    }
                }
            }
            if let Some(gv) = parse_geoaddr_spec(location_str@) {
                if old(db)@.locations.contains_key(gv.geolocation) && course is Some {
                    assert(is_union(cs_w, old(db)@.locations[gv.geolocation].courses, seq![course->0]));
                    assert(before_alias == add_location_spec(old(db)@, gv.geolocation, gv.place_name, cs_w).0);
                }
                if !old(db)@.locations.contains_key(gv.geolocation) {
                    let m = old(db)@.courses;
                    let one = new_place_courses(old(db)@, course);
                    assert(one.take(one.len() as int) =~= one);
                    assert(file_place(m, Seq::<Course>::empty(), gv) == m);
                    if one.len() == 1 {
                        let b = one[0];
                        assert(one.drop_last() =~= Seq::<Course>::empty());
                        assert(one.last() == b);
                        assert(file_place(m, one, gv) == m.insert(b, with_place(m[b], gv)));
                    } else {
                        assert(one =~= Seq::<Course>::empty());
                    }
                    assert(db@.courses == before_alias.courses);
                }
            }
        }
        r
    }

    /// Deletes what `command` names, as `remove_target` and `delete_location_spec`
    /// state; returns whether there was something to delete.
    pub fn remove(db: &mut Tables, command: Remove) -> (r: bool)
        requires
            old(db).wf(),
        ensures
            final(db).wf(),
            match command {
                Remove::Locations { location, alias } => {
                    let target = remove_target(
                        old(db)@,
                        match location { Some(l) => Some(target_view(l)), None => None },
                        opt_view(alias),
                    );
                    match target {
                        Some(g) => if old(db)@.locations.contains_key(g) {
                            r && final(db)@ == delete_location_spec(old(db)@, g)
                        } else {
                            !r && final(db)@ == old(db)@
                        },
                        None => !r && final(db)@ == old(db)@,
                    }
                },
                Remove::Aliases { alias } => if old(db)@.aliases.contains_key(alias@) {
                    r && final(db)@ == (TablesView { aliases: old(db)@.aliases.remove(alias@), ..old(db)@ })
                } else {
                    !r && final(db)@ == old(db)@
                },
            },
            aliases_resolve(old(db)@) ==> aliases_resolve(final(db)@),
    {
        proof {
            if aliases_resolve(old(db)@) {
                assert forall|g: GeolocationView| aliases_resolve(#[trigger] delete_location_spec(old(db)@, g)) by {
                    crate::store::lemma_delete_location_keeps_aliases(old(db)@, g);
                }
            }
        }
        match command {
            Remove::Locations { location, alias } => {
                let target: Option<Geolocation> = match location {
                    Some(l) => Some(l.into_geolocation()),
                    None => match alias {
                        Some(a) => match db.aliases.get_location(a.as_str()) {
                            Some(g) => Some(g.geolocation),
                            None => None,
                        },
                        None => None,
                    },
                };
                match target {
                    Some(g) => {
                        if db.locations.has_location(&g) {
                            let names = db.aliases.get_aliases(&g);
                            LocationTable::delete_location(db, &g);
                            let ghost after = db@;
                            let mut i: usize = 0;
                            proof {
                                assert forall|a: Seq<char>| views(names@).contains(a) implies !after.aliases.contains_key(a) by {
                                }
                            }
                            while i < names.len()
                                invariant
                                    i <= names@.len(),
                                    db.wf(),
                                    db@ == after,
                                    forall|a: Seq<char>| #[trigger] views(names@).contains(a) ==> !after.aliases.contains_key(a),
                                decreases names.len() - i,
                            {
                                assert(views(names@)[i as int] == names@[i as int]@);
                                assert(views(names@).contains(names@[i as int]@));
                                let _ = db.aliases.delete_alias(names[i].as_str());
                                assert(db@.aliases =~= after.aliases);
                                i += 1;
                            }
                            true
                        } else {
                            false
                        }
                    },
                    None => false,
                }
            },
            Remove::Aliases { alias } => {
                if db.aliases.has_alias(alias.as_str()) {
                    let _ = db.aliases.delete_alias(alias.as_str());
                    true
                } else {
                    false
                }
            },
        }
    }
}

/// The course that `reduce` and `locations` act on: the one given, else the
/// global course where `global`.
pub open spec fn chosen_course(course: Option<Course>, global: bool) -> Option<Course> {
    match course {
        Some(c) => Some(c),
        None => if global {
            Some(Course { course_id: -1i64, class_id: -1i64 })
        } else {
            None
        },
    }
}

/// The positions of a list of places.
pub open spec fn positions(ls: Seq<GeoaddrView>) -> Seq<GeolocationView> {
    ls.map_values(|g: GeoaddrView| g.geolocation)
}

/// Whether `ps` are the positions that `reduce` acts on: those of the places of
/// the chosen course (none where it is not stored); else every stored position,
/// each once, where `all`; else none; and where aliases of a given position are to
/// go, that position alone.
pub open spec fn is_reduce_positions(
    t: TablesView,
    reduce_type_location: Option<GeolocationView>,
    all: bool,
    course: Option<Course>,
    global: bool,
    ps: Seq<GeolocationView>,
) -> bool {
    match reduce_type_location {
        Some(g) => ps == seq![g],
        None => match chosen_course(course, global) {
            Some(c) => ps == if t.courses.contains_key(c) {
                positions(t.courses[c].1.locations)
            } else {
                Seq::<GeolocationView>::empty()
            },
            None => if all {
                &&& ps.no_duplicates()
                &&& forall|g: GeolocationView| #[trigger] ps.contains(g) <==> t.locations.contains_key(g)
            } else {
                ps.len() == 0
            },
        },
    }
}

/// A `reduce` for a chosen course (the one given, or the global one), with no
/// single position named, acts on exactly the positions of that course's stored
/// places, in their order, and on none where the course is not stored: a stored
/// position that no place of the course has is never among them.
pub proof fn lemma_reduce_course_positions(
    t: TablesView,
    all: bool,
    course: Option<Course>,
    global: bool,
    c: Course,
    ps: Seq<GeolocationView>,
)
    requires
        course == Some(c) || (course is None && global && c == (Course { course_id: -1i64, class_id: -1i64 })),
        is_reduce_positions(t, None, all, course, global, ps),
    ensures
        t.courses.contains_key(c) ==> ps.len() == t.courses[c].1.locations.len() && forall|i: int|
            0 <= i < ps.len() ==> #[trigger] ps[i] == t.courses[c].1.locations[i].geolocation,
        !t.courses.contains_key(c) ==> ps.len() == 0,
        forall|g: GeolocationView| #[trigger] ps.contains(g) ==> t.courses.contains_key(c) && exists|i: int|
            0 <= i < t.courses[c].1.locations.len() && #[trigger] t.courses[c].1.locations[i].geolocation == g,
{
    assert(chosen_course(course, global) == Some(c));
    assert forall|g: GeolocationView| #[trigger] ps.contains(g) implies t.courses.contains_key(c) && exists|i: int|
        0 <= i < t.courses[c].1.locations.len() && #[trigger] t.courses[c].1.locations[i].geolocation == g by {
        let k = choose|k: int| 0 <= k < ps.len() && ps[k] == g;
        assert(ps[k] == t.courses[c].1.locations[k].geolocation);
    }
}

/// A `reduce` of the aliases of one named position acts on that position alone;
/// with no course chosen it acts on every stored position once where `all`, and
/// on none otherwise.
pub proof fn lemma_reduce_other_positions(
    t: TablesView,
    named: Option<GeolocationView>,
    all: bool,
    course: Option<Course>,
    global: bool,
    ps: Seq<GeolocationView>,
)
    requires
        is_reduce_positions(t, named, all, course, global, ps),
    ensures
        named matches Some(g) ==> ps.len() == 1 && ps[0] == g,
        named is None && course is None && !global && all ==> ps.no_duplicates() && forall|g: GeolocationView|
            #[trigger] ps.contains(g) <==> t.locations.contains_key(g),
        named is None && course is None && !global && !all ==> ps.len() == 0,
{
}

/// The position whose aliases alone a `reduce` is to delete, where one is given.
pub open spec fn reduce_target(t: ReduceType) -> Option<GeolocationView> {
    match t {
        ReduceType::Aliases { location: Some(l) } => Some(target_view(l)),
        _ => None,
    }
}

/// The tables after a `reduce` plan is carried out.
pub open spec fn apply_reduce_spec(
    t: TablesView,
    ps: Seq<GeolocationView>,
    names: Seq<Seq<char>>,
    delete_locations: bool,
) -> TablesView {
    let t1 = if delete_locations {
        delete_locations_spec(t, ps)
    } else {
        t
    };
    TablesView { aliases: remove_aliases(t1.aliases, names), ..t1 }
}

/// The positions of `locs`.
fn positions_of(locs: &Vec<Geoaddr>) -> (r: Vec<Geolocation>)
    ensures
        seq_views(r@) == positions(seq_views(locs@)),
{
    let mut r: Vec<Geolocation> = Vec::new();
    let mut i: usize = 0;
    while i < locs.len()
        invariant
            i <= locs@.len(),
            seq_views(r@) == positions(seq_views(locs@.take(i as int))),
        decreases locs.len() - i,
    {
        let g = locs[i].geolocation.duplicate();
        proof {
            lemma_seq_views_push(r@, g);
            assert(locs@.take(i + 1) =~= locs@.take(i as int).push(locs@[i as int]));
            lemma_seq_views_push(locs@.take(i as int), locs@[i as int]);
        }
        r.push(g);
        assert(seq_views(r@) =~= positions(seq_views(locs@.take(i + 1))));
        i += 1;
    }
    assert(locs@.take(locs@.len() as int) =~= locs@);
    r
}

impl LocationParser {
    /// What a `reduce` is to delete: `None` where it finds no position, or, where
    /// only aliases are to go, no alias. The positions are as
    /// `is_reduce_positions` states; the aliases are those of places at them.
    pub fn reduce_plan(
        db: &Tables,
        reduce_type: ReduceType,
        all: bool,
        course: Option<Course>,
        global: bool,
    ) -> (r: Option<ReducePlan>)
        requires
            db.wf(),
        ensures
            ({
                let rl = reduce_target(reduce_type);
                let delete = reduce_type is Locations;
                match r {
                    Some(plan) => {
                        &&& is_reduce_positions(db@, rl, all, course, global, seq_views(plan.locations@))
                        &&& plan.locations@.len() > 0
                        &&& plan.delete_locations == delete
                        &&& forall|a: Seq<char>| #[trigger] views(plan.aliases@).contains(a) <==> exists|k: int|
                            0 <= k < plan.locations@.len() && alias_of(db@.aliases, a, #[trigger] plan.locations@[k]@)
                        &&& (!delete ==> plan.aliases@.len() > 0)
                    },
                    None => exists|ps: Seq<GeolocationView>|
                        is_reduce_positions(db@, rl, all, course, global, ps) && (ps.len() == 0 || (!delete
                            && forall|a: Seq<char>, k: int| #![trigger alias_of(db@.aliases, a, ps[k])]
                                0 <= k < ps.len() ==> !alias_of(db@.aliases, a, ps[k]))),
                }
            }),
    {
        let chosen = match course {
            Some(c) => Some(c),
            None => if global {
                Some(Course::global_course())
            } else {
                None
            },
        };
        let mut locations: Vec<Geolocation> = match chosen {
            Some(c) => match db.courses.get_course(&c) {
                Some(entry) => {
                    let ps = positions_of(entry.1.locations());
                    assert(entry@.1.locations == db@.courses[c].1.locations);
                    ps
                },
                None => {
                    let ps: Vec<Geolocation> = Vec::new();
                    assert(seq_views(ps@) =~= Seq::<GeolocationView>::empty());
                    ps
                },
            },
            None => if all {
                let rows = db.locations.get_locations();
                let mut ps: Vec<Geolocation> = Vec::new();
                let mut i: usize = 0;
                while i < rows.len()
                    invariant
                        i <= rows@.len(),
                        ps@.len() == i,
                        forall|j: int| 0 <= j < i ==> #[trigger] ps@[j]@ == rows@[j].0@,
                    decreases rows.len() - i,
                {
                    ps.push(rows[i].0.duplicate());
                    i += 1;
                }
                proof {
                    assert forall|a: int, b: int| 0 <= a < b < seq_views(ps@).len() implies seq_views(ps@)[a] != seq_views(ps@)[b] by {
                        assert(rows@[a].0@ != rows@[b].0@);
                    }
                    assert forall|g: GeolocationView| #[trigger] seq_views(ps@).contains(g) <==> db@.locations.contains_key(g) by {
                        crate::table_map::lemma_map_of_contains(rows@, g);
                        if seq_views(ps@).contains(g) {
                            let j = choose|j: int| 0 <= j < seq_views(ps@).len() && seq_views(ps@)[j] == g;
                            assert(rows@[j].0@ == g);
                        }
                        if db@.locations.contains_key(g) {
                            let j = choose|j: int| 0 <= j < rows@.len() && rows@[j].0@ == g;
                            assert(seq_views(ps@)[j] == g);
                        }
                    }
                }
                ps
            } else {
                let ps: Vec<Geolocation> = Vec::new();
                assert(seq_views(ps@) =~= Seq::<GeolocationView>::empty());
                ps
            },
        };
        let ghost rl = reduce_target(reduce_type);
        let delete_locations = match reduce_type {
            ReduceType::Locations => true,
            ReduceType::Aliases { location } => {
                match location {
                    Some(l) => {
                        let g = l.into_geolocation();
                        locations = Vec::new();
                        locations.push(g);
                        assert(seq_views(locations@) =~= seq![g@]);
                    },
                    None => {},
                }
                false
            },
        };
        let ghost ps = seq_views(locations@);
        assert(is_reduce_positions(db@, rl, all, course, global, ps));
        if locations.len() == 0 {
            assert(ps.len() == 0);
            return None;
        }
        let mut aliases: Vec<String> = Vec::new();
        let mut i: usize = 0;
        while i < locations.len()
            invariant
                i <= locations@.len(),
                db.wf(),
                forall|a: Seq<char>| #[trigger] views(aliases@).contains(a) <==> exists|k: int|
                    0 <= k < i && alias_of(db@.aliases, a, #[trigger] locations@[k]@),
            decreases locations.len() - i,
        {
            let found = db.aliases.get_aliases(&locations[i]);
            let mut j: usize = 0;
            let ghost before = views(aliases@);
            while j < found.len()
                invariant
                    j <= found@.len(),
                    forall|a: Seq<char>| #[trigger] views(aliases@).contains(a) <==> (before.contains(a)
                        || views(found@.take(j as int)).contains(a)),
                decreases found.len() - j,
            {
                let ghost b2 = aliases@;
                proof {
                    lemma_seq_views_push(b2, found@[j as int]);
                    assert(views(b2) == seq_views(b2));
                    assert(views(b2.push(found@[j as int])) == seq_views(b2.push(found@[j as int])));
                    assert(found@.take(j + 1) =~= found@.take(j as int).push(found@[j as int]));
                    lemma_seq_views_push(found@.take(j as int), found@[j as int]);
                    assert(views(found@.take(j + 1)) == seq_views(found@.take(j + 1)));
                    assert(views(found@.take(j as int)) == seq_views(found@.take(j as int)));
                }
                aliases.push(found[j].clone());
                j += 1;
            }
            proof {
                assert(found@.take(found@.len() as int) =~= found@);
                assert forall|a: Seq<char>| #[trigger] views(aliases@).contains(a) <==> exists|k: int|
                    0 <= k < i + 1 && alias_of(db@.aliases, a, #[trigger] locations@[k]@) by {
                    if views(aliases@).contains(a) && !before.contains(a) {
                        assert(alias_of(db@.aliases, a, locations@[i as int]@));
                    }
                    if exists|k: int| 0 <= k < i + 1 && alias_of(db@.aliases, a, #[trigger] locations@[k]@) {
                        let k = choose|k: int| 0 <= k < i + 1 && alias_of(db@.aliases, a, #[trigger] locations@[k]@);
                        if k == i {
                            assert(views(found@).contains(a));
                        } else {
                            assert(before.contains(a));
                        }
                    }
                }
            }
            i += 1;
        }
        if !delete_locations && aliases.len() == 0 {
            proof {
                assert forall|a: Seq<char>, k: int| #![trigger alias_of(db@.aliases, a, ps[k])]
                    0 <= k < ps.len() implies !alias_of(db@.aliases, a, ps[k]) by {
                    assert(ps[k] == locations@[k]@);
                    if alias_of(db@.aliases, a, ps[k]) {
                        assert(views(aliases@).contains(a));
                    }
                }
            }
            assert(is_reduce_positions(db@, rl, all, course, global, ps));
            return None;
        }
        Some(ReducePlan { locations, aliases, delete_locations })
    }

    /// Carries out a `reduce` plan: where places are to go, deletes each position
    /// in turn as `delete_location` does; then deletes each alias of the plan.
    pub fn apply_reduce(db: &mut Tables, plan: &ReducePlan)
        requires
            old(db).wf(),
        ensures
            final(db).wf(),
            final(db)@ == apply_reduce_spec(
                old(db)@,
                seq_views(plan.locations@),
                views(plan.aliases@),
                plan.delete_locations,
            ),
            aliases_resolve(old(db)@) ==> aliases_resolve(final(db)@),
    {
        proof {
            if aliases_resolve(old(db)@) {
                lemma_reduce_keeps_aliases(
                    old(db)@,
                    seq_views(plan.locations@),
                    views(plan.aliases@),
                    plan.delete_locations,
                );
            }
        }
        let ghost ps = seq_views(plan.locations@);
        if plan.delete_locations {
            let mut i: usize = 0;
            assert(ps.take(0) =~= Seq::<GeolocationView>::empty());
            while i < plan.locations.len()
                invariant
                    i <= plan.locations@.len(),
                    db.wf(),
                    ps == seq_views(plan.locations@),
                    db@ == delete_locations_spec(old(db)@, ps.take(i as int)),
                decreases plan.locations.len() - i,
            {
                LocationTable::delete_location(db, &plan.locations[i]);
                proof {
                    assert(ps.take(i + 1).drop_last() =~= ps.take(i as int));
                    assert(ps[i as int] == plan.locations@[i as int]@);
                }
                i += 1;
            }
            assert(ps.take(plan.locations@.len() as int) =~= ps);
        }
        let ghost t1 = db@;
        let ghost ns = views(plan.aliases@);
        let mut j: usize = 0;
        assert(ns.take(0) =~= Seq::<Seq<char>>::empty());
        while j < plan.aliases.len()
            invariant
                j <= plan.aliases@.len(),
                db.wf(),
                ns == views(plan.aliases@),
                db@ == (TablesView { aliases: remove_aliases(t1.aliases, ns.take(j as int)), ..t1 }),
            decreases plan.aliases.len() - j,
        {
            let _ = db.aliases.delete_alias(plan.aliases[j].as_str());
            proof {
                assert(ns.take(j + 1).drop_last() =~= ns.take(j as int));
                assert(ns[j as int] == plan.aliases@[j as int]@);
            }
            j += 1;
        }
        assert(ns.take(plan.aliases@.len() as int) =~= ns);
    }
}

} // verus!
