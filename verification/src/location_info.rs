//! Where a sign-in by place finds its place: from the text the user gave, or
//! from the places of the course.
use crate::model::{parse_geoaddr_spec, Course, Geoaddr, GeoaddrView};
use crate::store::{Tables, TablesView};
use vstd::prelude::*;

verus! {

/// Finds the places of sign-ins in the store.
pub struct DefaultLocationInfoGetter<'a>(pub &'a Tables);

/// The place that a trimmed text names: the place of the alias it is, else the
/// place it reads as.
pub open spec fn place_by_text(t: TablesView, s: Seq<char>) -> Option<GeoaddrView> {
    if t.aliases.contains_key(s) {
        Some(t.aliases[s])
    } else {
        parse_geoaddr_spec(s)
    }
}

/// The first place of `course`, where it is stored and has one.
pub open spec fn fallback_place(t: TablesView, course: Course) -> Option<GeoaddrView> {
    if t.courses.contains_key(course) && t.courses[course].1.locations.len() > 0 {
        Some(t.courses[course].1.locations[0])
    } else {
        None
    }
}

/// The fallback place of a stored course whose places start with `p` is `p`,
/// whatever follows; a course with no places, or not stored, has none.
pub proof fn lemma_fallback_first(t: TablesView, course: Course, p: GeoaddrView, rest: Seq<GeoaddrView>)
    ensures
        t.courses.contains_key(course) && t.courses[course].1.locations == seq![p] + rest ==> fallback_place(
            t,
            course,
        ) == Some(p),
        !t.courses.contains_key(course) || t.courses[course].1.locations.len() == 0 ==> fallback_place(
            t,
            course,
        ) is None,
{
    if t.courses.contains_key(course) && t.courses[course].1.locations == seq![p] + rest {
        assert(t.courses[course].1.locations[0] == p);
    }
}

/// Filing another place under a course that has places already leaves its
/// fallback place as it was.
pub proof fn lemma_fallback_kept_by_new_place(t: TablesView, u: TablesView, course: Course, g: GeoaddrView)
    requires
        t.courses.contains_key(course),
        t.courses[course].1.locations.len() > 0,
        u.courses.contains_key(course),
        u.courses[course].1.locations == t.courses[course].1.locations.push(g),
    ensures
        fallback_place(u, course) == fallback_place(t, course),
{
    assert(u.courses[course].1.locations[0] == t.courses[course].1.locations[0]);
}

impl<'a> DefaultLocationInfoGetter<'a> {
    pub fn new(db: &'a Tables) -> (r: Self)
        ensures
            r.0 == db,
    {
        DefaultLocationInfoGetter(db)
    }

    /// The place that `trimmed_location_str` names, as `place_by_text` states.
    pub fn get_location_by_location_str(&self, trimmed_location_str: &str) -> (r: Option<Geoaddr>)
        requires
            self.0.wf(),
        ensures
            match r {
                Some(g) => place_by_text(self.0@, trimmed_location_str@) == Some(g@),
                None => place_by_text(self.0@, trimmed_location_str@) is None,
            },
    {
        match self.0.aliases.get_location(trimmed_location_str) {
            Some(g) => Some(g),
            None => Geoaddr::parse(trimmed_location_str),
        }
    }

    /// The place to sign in at where none was given, as `fallback_place` states.
    pub fn get_fallback_location(&self, course: &Course) -> (r: Option<Geoaddr>)
        requires
            self.0.wf(),
        ensures
            match r {
                Some(g) => fallback_place(self.0@, *course) == Some(g@),
                None => fallback_place(self.0@, *course) is None,
            },
    {
        match self.0.courses.get_course(course) {
            Some(entry) => {
                let locs = entry.1.locations();
                if locs.len() > 0 {
                    assert(locs@[0]@ == crate::seqs::seq_views(locs@)[0]);
                    Some(locs[0].duplicate())
                } else {
                    None
                }
            },
            None => None,
        }
    }
}

} // verus!
