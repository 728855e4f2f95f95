//! What the `locations` command lists.
use crate::location_cmd::chosen_course;
use crate::model::{Course, Geoaddr, GeoaddrView};
use crate::seqs::{lemma_seq_views_push, seq_views};
use crate::store::{Tables, TablesView};
use crate::text::{texts_sorted, views};
use vstd::prelude::*;

verus! {

/// The options of the `locations` command.
pub struct LocationsParser {
    /// List the places of the global course.
    pub global: bool,
    /// List the places of this course.
    pub course: Option<Course>,
    /// Write each line in a longer form.
    pub pretty: bool,
    /// List the places only.
    pub short: bool,
}

/// The `locations` command.
pub struct LocationsCmdApp;

/// What the `locations` command lists.
pub enum LocationListing {
    /// Places only.
    Places(Vec<Geoaddr>),
    /// The places of a course, each with its aliases.
    OfCourse(Course, Vec<(Geoaddr, Vec<String>)>),
    /// Every place, with the courses it serves and its aliases.
    All(Vec<(Geoaddr, Vec<Course>, Vec<String>)>),
}

/// The places of course `c`; none where it is not stored.
pub open spec fn course_places(t: TablesView, c: Course) -> Seq<GeoaddrView> {
    if t.courses.contains_key(c) {
        t.courses[c].1.locations
    } else {
        Seq::<GeoaddrView>::empty()
    }
}

/// Whether `names` are the aliases that name exactly the place `g`, each once, in
/// the order of `str`.
pub open spec fn aliases_of_place(t: TablesView, g: GeoaddrView, names: Seq<Seq<char>>) -> bool {
    &&& texts_sorted(names)
    &&& names.no_duplicates()
    &&& forall|a: Seq<char>| #[trigger] names.contains(a) <==> (t.aliases.contains_key(a) && t.aliases[a] == g)
}

/// Whether `g` is the place stored at its position.
pub open spec fn stored_place(t: TablesView, g: GeoaddrView) -> bool {
    &&& t.locations.contains_key(g.geolocation)
    &&& t.locations[g.geolocation].unhandled_addr == g.place_name
}

/// Whether `ps` are the stored places, each position once.
pub open spec fn all_places(t: TablesView, ps: Seq<GeoaddrView>) -> bool {
    &&& forall|i: int, j: int| 0 <= i < j < ps.len() ==> ps[i].geolocation != ps[j].geolocation
    &&& forall|i: int| 0 <= i < ps.len() ==> stored_place(t, #[trigger] ps[i])
    &&& forall|g| #[trigger] t.locations.contains_key(g) ==> exists|i: int|
        0 <= i < ps.len() && #[trigger] ps[i].geolocation == g
}

/// The places of course `c`, each with its aliases.
fn course_rows(db: &Tables, c: &Course) -> (r: Vec<(Geoaddr, Vec<String>)>)
    requires
        db.wf(),
    ensures
        r@.len() == course_places(db@, *c).len(),
        forall|i: int| #![trigger r@[i]] 0 <= i < r@.len() ==> {
            &&& r@[i].0@ == course_places(db@, *c)[i]
            &&& aliases_of_place(db@, r@[i].0@, views(r@[i].1@))
        },
{
    let mut rows: Vec<(Geoaddr, Vec<String>)> = Vec::new();
    match db.courses.get_course(c) {
        Some(entry) => {
            let locs = entry.1.locations();
            let mut i: usize = 0;
            while i < locs.len()
                invariant
                    db.wf(),
                    i <= locs@.len(),
                    seq_views(locs@) == db@.courses[*c].1.locations,
                    db@.courses.contains_key(*c),
                    rows@.len() == i,
                    forall|k: int| #![trigger rows@[k]] 0 <= k < i ==> {
                        &&& rows@[k].0@ == locs@[k]@
                        &&& aliases_of_place(db@, rows@[k].0@, views(rows@[k].1@))
                    },
                decreases locs.len() - i,
            {
                let names = db.aliases.get_aliases_of_place(&locs[i]);
                rows.push((locs[i].duplicate(), names));
                i += 1;
            }
        },
        None => {},
    }
    rows
}

/// Every place, with the courses it serves and its aliases.
fn all_rows(db: &Tables) -> (r: Vec<(Geoaddr, Vec<Course>, Vec<String>)>)
    requires
        db.wf(),
    ensures
        all_places(db@, r@.map_values(|x: (Geoaddr, Vec<Course>, Vec<String>)| x.0@)),
        forall|i: int| #![trigger r@[i]] 0 <= i < r@.len() ==> {
            &&& r@[i].1@ == db@.locations[r@[i].0@.geolocation].courses
            &&& aliases_of_place(db@, r@[i].0@, views(r@[i].2@))
        },
{
    let places = db.locations.get_geoaddrs();
    let mut rows: Vec<(Geoaddr, Vec<Course>, Vec<String>)> = Vec::new();
    let mut i: usize = 0;
    while i < places.len()
        invariant
            db.wf(),
            i <= places@.len(),
            rows@.len() == i,
            forall|k: int| #![trigger rows@[k]] 0 <= k < i ==> {
                &&& rows@[k].0@ == places@[k].0@
                &&& rows@[k].1@ == places@[k].1@
                &&& aliases_of_place(db@, rows@[k].0@, views(rows@[k].2@))
            },
        decreases places.len() - i,
    {
        let names = db.aliases.get_aliases_of_place(&places[i].0);
        rows.push((places[i].0.duplicate(), places[i].1.clone(), names));
        i += 1;
    }
    proof {
        let ps = rows@.map_values(|x: (Geoaddr, Vec<Course>, Vec<String>)| x.0@);
        assert forall|k: int| 0 <= k < ps.len() implies ps[k] == places@[k].0@ by {
            assert(rows@[k].0@ == places@[k].0@);
        }
        assert forall|g| #[trigger] db@.locations.contains_key(g) implies exists|k: int|
            0 <= k < ps.len() && #[trigger] ps[k].geolocation == g by {
            let k = choose|k: int| 0 <= k < places@.len() && #[trigger] places@[k].0@.geolocation == g;
            assert(ps[k].geolocation == g);
        }
        assert forall|k: int| 0 <= k < ps.len() implies stored_place(db@, #[trigger] ps[k]) by {
            assert(places@[k].0@ == ps[k]);
        }
        assert forall|k: int| #![trigger rows@[k]] 0 <= k < rows@.len() implies rows@[k].1@
            == db@.locations[rows@[k].0@.geolocation].courses by {
            assert(places@[k].0@ == rows@[k].0@);
        }
    }
    rows
}

impl LocationsCmdApp {
    /// What the command lists: with `short`, the places of the chosen course, or
    /// every stored place where no course is chosen; else the places of the chosen
    /// course with their aliases, or every place with its courses and aliases. The
    /// chosen course is the one given, else the global one where `global`.
    pub fn listing(db: &Tables, parser: &LocationsParser) -> (r: LocationListing)
        requires
            db.wf(),
        ensures
            match r {
                LocationListing::Places(v) => parser.short && match chosen_course(parser.course, parser.global) {
                    Some(c) => seq_views(v@) == course_places(db@, c),
                    None => all_places(db@, seq_views(v@)),
                },
                LocationListing::OfCourse(c, rows) => {
                    &&& !parser.short
                    &&& chosen_course(parser.course, parser.global) == Some(c)
                    &&& rows@.len() == course_places(db@, c).len()
                    &&& forall|i: int| #![trigger rows@[i]] 0 <= i < rows@.len() ==> {
                        &&& rows@[i].0@ == course_places(db@, c)[i]
                        &&& aliases_of_place(db@, rows@[i].0@, views(rows@[i].1@))
                    }
                },
                LocationListing::All(rows) => {
                    &&& !parser.short
                    &&& chosen_course(parser.course, parser.global) is None
                    &&& all_places(db@, rows@.map_values(|x: (Geoaddr, Vec<Course>, Vec<String>)| x.0@))
                    &&& forall|i: int| #![trigger rows@[i]] 0 <= i < rows@.len() ==> {
                        &&& rows@[i].1@ == db@.locations[rows@[i].0@.geolocation].courses
                        &&& aliases_of_place(db@, rows@[i].0@, views(rows@[i].2@))
                    }
                },
            },
    {
        let course = match parser.course {
            Some(c) => Some(c),
            None => if parser.global {
                Some(Course::global_course())
            } else {
                None
            },
        };
        if parser.short {
            match course {
                Some(c) => {
                    let rows = course_rows(db, &c);
                    let mut v: Vec<Geoaddr> = Vec::new();
                    let mut i: usize = 0;
                    while i < rows.len()
                        invariant
                            i <= rows@.len(),
                            seq_views(v@) == rows@.take(i as int).map_values(
                                |x: (Geoaddr, Vec<String>)| x.0@,
                            ),
                        decreases rows.len() - i,
                    {
                        let g = rows[i].0.duplicate();
                        proof {
                            lemma_seq_views_push(v@, g);
                            assert(rows@.take(i + 1) =~= rows@.take(i as int).push(rows@[i as int]));
                        }
                        v.push(g);
                        assert(seq_views(v@) =~= rows@.take(i + 1).map_values(
                            |x: (Geoaddr, Vec<String>)| x.0@,
                        ));
                        i += 1;
                    }
                    assert(rows@.take(rows@.len() as int) =~= rows@);
                    assert(seq_views(v@) =~= course_places(db@, c));
                    LocationListing::Places(v)
                },
                None => {
                    let rows = all_rows(db);
                    let ghost ps = rows@.map_values(|x: (Geoaddr, Vec<Course>, Vec<String>)| x.0@);
                    let mut v: Vec<Geoaddr> = Vec::new();
                    let mut i: usize = 0;
                    while i < rows.len()
                        invariant
                            i <= rows@.len(),
                            ps == rows@.map_values(|x: (Geoaddr, Vec<Course>, Vec<String>)| x.0@),
                            seq_views(v@) == ps.take(i as int),
                        decreases rows.len() - i,
                    {
                        let g = rows[i].0.duplicate();
                        proof {
                            lemma_seq_views_push(v@, g);
                        }
                        v.push(g);
                        assert(seq_views(v@) =~= ps.take(i + 1));
                        i += 1;
                    }
                    assert(ps.take(rows@.len() as int) =~= ps);
                    LocationListing::Places(v)
                },
            }
        } else {
            match course {
                Some(c) => LocationListing::OfCourse(c, course_rows(db, &c)),
                None => LocationListing::All(all_rows(db)),
            }
        }
    }
}

} // verus!
