//! The records that the store keeps about courses and places, with their text forms.
use crate::table_map::{KeyEq, ValueCopy};
use crate::text::{
    int_text, i64_to_text, lemma_i64_text_round_trip, lemma_int_text_plain, lemma_split_plain,
    lemma_split_push_field, parse_i64, parse_i64_spec, split_char, split_spec, trim, trim_spec,
    views,
};
use vstd::prelude::*;

verus! {

/// A course, named by its course number and its class number.
#[derive(Clone, Copy, PartialEq, Eq, Structural, Hash, Debug, PartialOrd, Ord)]
pub struct Course {
    pub course_id: i64,
    pub class_id: i64,
}

impl View for Course {
    type V = Course;

    open spec fn view(&self) -> Course {
        *self
    }
}

impl KeyEq for Course {
    fn key_eq(&self, other: &Self) -> (r: bool) {
        self.course_id == other.course_id && self.class_id == other.class_id
    }

    fn key_clone(&self) -> (r: Self) {
        *self
    }
}

/// The text of a course: `course_id,class_id`.
pub open spec fn course_text(c: Course) -> Seq<char> {
    int_text(c.course_id as int) + seq![','] + int_text(c.class_id as int)
}

/// The course read from `s`: two integers separated by a comma, each possibly
/// surrounded by white space.
pub open spec fn parse_course_spec(s: Seq<char>) -> Option<Course> {
    let parts = split_spec(s, ',');
    if parts.len() == 2 {
        match (parse_i64_spec(trim_spec(parts[0])), parse_i64_spec(trim_spec(parts[1]))) {
            (Some(a), Some(b)) => Some(Course { course_id: a, class_id: b }),
            _ => None,
        }
    } else {
        None
    }
}

impl Course {
    /// The course under which places that belong to no course are filed.
    pub fn global_course() -> (r: Course)
        ensures
            r == (Course { course_id: -1i64, class_id: -1i64 }),
    {
        Course { course_id: -1, class_id: -1 }
    }

    pub open spec fn spec_is_global_course(&self) -> bool {
        self.course_id == -1 && self.class_id == -1
    }

    /// Whether this is the course of global places.
    pub fn is_global_course(&self) -> (r: bool)
        ensures
            r == self.spec_is_global_course(),
    {
        self.course_id == -1 && self.class_id == -1
    }

    pub open spec fn spec_invalid(&self) -> bool {
        self.course_id < 0 || self.class_id < 0
    }

    /// Whether a number of the course is negative, so that it names no real course.
    pub fn invalid(&self) -> (r: bool)
        ensures
            r == self.spec_invalid(),
    {
        self.course_id < 0 || self.class_id < 0
    }

    /// Writes the course as `course_id,class_id`.
    pub fn to_text(&self) -> (r: String)
        ensures
            r@ == course_text(*self),
    {
        let mut s = i64_to_text(self.course_id);
        proof {
            reveal_strlit(",");
        }
        s.append(",");
        let t = i64_to_text(self.class_id);
        s.append(t.as_str());
        s
    }

    /// Reads a course written as `course_id,class_id`.
    pub fn parse(s: &str) -> (r: Option<Course>)
        ensures
            r == parse_course_spec(s@),
    {
        let parts = split_char(s, ',');
        assert(views(parts@) == split_spec(s@, ','));
        if parts.len() != 2 {
            return None;
        }
        assert(views(parts@)[0] == parts@[0]@);
        assert(views(parts@)[1] == parts@[1]@);
        let a = parse_i64(trim(parts[0].as_str()));
        let b = parse_i64(trim(parts[1].as_str()));
        match (a, b) {
            (Some(a), Some(b)) => Some(Course { course_id: a, class_id: b }),
            _ => None,
        }
    }
}

/// What a course is known by besides its numbers.
pub struct CourseInfo {
    pub name: String,
    pub ended: bool,
}

pub struct CourseInfoView {
    pub name: Seq<char>,
    pub ended: bool,
}

impl View for CourseInfo {
    type V = CourseInfoView;

    open spec fn view(&self) -> CourseInfoView {
        CourseInfoView { name: self.name@, ended: self.ended }
    }
}

impl CourseInfo {
    pub fn duplicate(&self) -> (r: CourseInfo)
        ensures
            r@ == self@,
    {
        CourseInfo { name: self.name.clone(), ended: self.ended }
    }
}

/// A position: longitude, latitude and altitude, as written.
pub struct Geolocation {
    pub lon: String,
    pub lat: String,
    pub alt: String,
}

pub struct GeolocationView {
    pub lon: Seq<char>,
    pub lat: Seq<char>,
    pub alt: Seq<char>,
}

impl View for Geolocation {
    type V = GeolocationView;

    open spec fn view(&self) -> GeolocationView {
        GeolocationView { lon: self.lon@, lat: self.lat@, alt: self.alt@ }
    }
}

impl KeyEq for Geolocation {
    fn key_eq(&self, other: &Self) -> (r: bool) {
        let r = self.lon == other.lon && self.lat == other.lat && self.alt == other.alt;
        proof {
            if self.lon@ == other.lon@ && self.lat@ == other.lat@ && self.alt@ == other.alt@ {
                assert(self@ == other@);
            }
        }
        r
    }

    fn key_clone(&self) -> (r: Self) {
        Geolocation { lon: self.lon.clone(), lat: self.lat.clone(), alt: self.alt.clone() }
    }
}

/// The text of a position: `lon,lat,alt`.
pub open spec fn geolocation_text(g: GeolocationView) -> Seq<char> {
    g.lon + seq![','] + g.lat + seq![','] + g.alt
}

/// The position read from three comma separated fields, each trimmed and not empty.
pub open spec fn geolocation_of_fields(
    lon: Seq<char>,
    lat: Seq<char>,
    alt: Seq<char>,
) -> Option<GeolocationView> {
    let (lon, lat, alt) = (trim_spec(lon), trim_spec(lat), trim_spec(alt));
    if lon.len() > 0 && lat.len() > 0 && alt.len() > 0 {
        Some(GeolocationView { lon, lat, alt })
    } else {
        None
    }
}

/// The position read from `lon,lat,alt`.
pub open spec fn parse_geolocation_spec(s: Seq<char>) -> Option<GeolocationView> {
    let parts = split_spec(s, ',');
    if parts.len() == 3 {
        geolocation_of_fields(parts[0], parts[1], parts[2])
    } else {
        None
    }
}

fn geolocation_from_fields(lon: &str, lat: &str, alt: &str) -> (r: Option<Geolocation>)
    ensures
        match r {
            Some(g) => geolocation_of_fields(lon@, lat@, alt@) == Some(g@),
            None => geolocation_of_fields(lon@, lat@, alt@) is None,
        },
{
    let lon = trim(lon);
    let lat = trim(lat);
    let alt = trim(alt);
    if lon.unicode_len() > 0 && lat.unicode_len() > 0 && alt.unicode_len() > 0 {
        Some(
            Geolocation {
                lon: String::from_str(lon),
                lat: String::from_str(lat),
                alt: String::from_str(alt),
            },
        )
    } else {
        None
    }
}

impl Geolocation {
    pub fn duplicate(&self) -> (r: Geolocation)
        ensures
            r@ == self@,
    {
        self.key_clone()
    }

    /// Writes the position as `lon,lat,alt`.
    pub fn to_text(&self) -> (r: String)
        ensures
            r@ == geolocation_text(self@),
    {
        proof {
            reveal_strlit(",");
        }
        let mut s = self.lon.clone();
        s.append(",");
        s.append(self.lat.as_str());
        s.append(",");
        s.append(self.alt.as_str());
        assert(s@ =~= geolocation_text(self@));
        s
    }

    /// Reads a position written as `lon,lat,alt`.
    pub fn parse(s: &str) -> (r: Option<Geolocation>)
        ensures
            match r {
                Some(g) => parse_geolocation_spec(s@) == Some(g@),
                None => parse_geolocation_spec(s@) is None,
            },
    {
        let parts = split_char(s, ',');
        assert(views(parts@) == split_spec(s@, ','));
        if parts.len() != 3 {
            return None;
        }
        assert(views(parts@)[0] == parts@[0]@);
        assert(views(parts@)[1] == parts@[1]@);
        assert(views(parts@)[2] == parts@[2]@);
        geolocation_from_fields(parts[0].as_str(), parts[1].as_str(), parts[2].as_str())
    }
}

/// A place: the name it was given and its position.
pub struct Geoaddr {
    pub unhandled_place_name: String,
    pub geolocation: Geolocation,
}

pub struct GeoaddrView {
    pub place_name: Seq<char>,
    pub geolocation: GeolocationView,
}

impl View for Geoaddr {
    type V = GeoaddrView;

    open spec fn view(&self) -> GeoaddrView {
        GeoaddrView { place_name: self.unhandled_place_name@, geolocation: self.geolocation@ }
    }
}

impl KeyEq for Geoaddr {
    fn key_eq(&self, other: &Self) -> (r: bool) {
        let same_name = self.unhandled_place_name == other.unhandled_place_name;
        let same_place = self.geolocation.key_eq(&other.geolocation);
        proof {
            if same_name && same_place {
                assert(self@ == other@);
            }
        }
        same_name && same_place
    }

    fn key_clone(&self) -> (r: Self) {
        Geoaddr {
            unhandled_place_name: self.unhandled_place_name.clone(),
            geolocation: self.geolocation.key_clone(),
        }
    }
}

/// The text of a place: `name,lon,lat,alt`.
pub open spec fn geoaddr_text(g: GeoaddrView) -> Seq<char> {
    g.place_name + seq![','] + geolocation_text(g.geolocation)
}

/// The place read from `name,lon,lat,alt`: four comma separated fields, each
/// trimmed, the last three not empty.
pub open spec fn parse_geoaddr_spec(s: Seq<char>) -> Option<GeoaddrView> {
    let parts = split_spec(s, ',');
    if parts.len() == 4 {
        match geolocation_of_fields(parts[1], parts[2], parts[3]) {
            Some(g) => Some(GeoaddrView { place_name: trim_spec(parts[0]), geolocation: g }),
            None => None,
        }
    } else {
        None
    }
}

impl Geoaddr {
    pub fn new(unhandled_place_name: String, geolocation: Geolocation) -> (r: Geoaddr)
        ensures
            r@ == (GeoaddrView { place_name: unhandled_place_name@, geolocation: geolocation@ }),
    {
        Geoaddr { unhandled_place_name, geolocation }
    }

    pub fn duplicate(&self) -> (r: Geoaddr)
        ensures
            r@ == self@,
    {
        self.key_clone()
    }

    /// Writes the place as `name,lon,lat,alt`.
    pub fn to_text(&self) -> (r: String)
        ensures
            r@ == geoaddr_text(self@),
    {
        proof {
            reveal_strlit(",");
        }
        let mut s = self.unhandled_place_name.clone();
        s.append(",");
        let g = self.geolocation.to_text();
        s.append(g.as_str());
        assert(s@ =~= geoaddr_text(self@));
        s
    }

    /// Reads a place written as `name,lon,lat,alt`.
    pub fn parse(s: &str) -> (r: Option<Geoaddr>)
        ensures
            match r {
                Some(g) => parse_geoaddr_spec(s@) == Some(g@),
                None => parse_geoaddr_spec(s@) is None,
            },
    {
        let parts = split_char(s, ',');
        assert(views(parts@) == split_spec(s@, ','));
        if parts.len() != 4 {
            return None;
        }
        assert(views(parts@)[0] == parts@[0]@);
        assert(views(parts@)[1] == parts@[1]@);
        assert(views(parts@)[2] == parts@[2]@);
        assert(views(parts@)[3] == parts@[3]@);
        match geolocation_from_fields(parts[1].as_str(), parts[2].as_str(), parts[3].as_str()) {
            Some(g) => Some(
                Geoaddr { unhandled_place_name: String::from_str(trim(parts[0].as_str())), geolocation: g },
            ),
            None => None,
        }
    }
}

impl ValueCopy for Course {
    fn copy_value(&self) -> (r: Self) {
        *self
    }
}

impl ValueCopy for Geolocation {
    fn copy_value(&self) -> (r: Self) {
        self.key_clone()
    }
}

impl ValueCopy for Geoaddr {
    fn copy_value(&self) -> (r: Self) {
        self.key_clone()
    }
}

impl ValueCopy for CourseInfo {
    fn copy_value(&self) -> (r: Self) {
        self.duplicate()
    }
}

/// Either a place with its name, or a bare position.
pub enum GeolocationOrUnhandledGeoaddr {
    Geolocation(Geolocation),
    UnhandledGeoaddr(Geoaddr),
}

impl GeolocationOrUnhandledGeoaddr {
    /// The position it names.
    pub fn into_geolocation(self) -> (r: Geolocation)
        ensures
            r@ == match self {
                GeolocationOrUnhandledGeoaddr::Geolocation(g) => g@,
                GeolocationOrUnhandledGeoaddr::UnhandledGeoaddr(a) => a@.geolocation,
            },
    {
        match self {
            GeolocationOrUnhandledGeoaddr::Geolocation(g) => g,
            GeolocationOrUnhandledGeoaddr::UnhandledGeoaddr(a) => a.geolocation,
        }
    }

    /// Reads a place `name,lon,lat,alt`, or else a position `lon,lat,alt`.
    pub fn parse(s: &str) -> (r: Option<GeolocationOrUnhandledGeoaddr>)
        ensures
            match r {
                Some(GeolocationOrUnhandledGeoaddr::UnhandledGeoaddr(a)) => parse_geoaddr_spec(s@)
                    == Some(a@),
                Some(GeolocationOrUnhandledGeoaddr::Geolocation(g)) => parse_geoaddr_spec(s@) is None
                    && parse_geolocation_spec(s@) == Some(g@),
                None => parse_geoaddr_spec(s@) is None && parse_geolocation_spec(s@) is None,
            },
    {
        match Geoaddr::parse(s) {
            Some(a) => Some(GeolocationOrUnhandledGeoaddr::UnhandledGeoaddr(a)),
            None => match Geolocation::parse(s) {
                Some(g) => Some(GeolocationOrUnhandledGeoaddr::Geolocation(g)),
                None => None,
            },
        }
    }
}

/// Whether a field can be written between commas and read back: it holds no
/// comma and has no white space around it.
pub open spec fn plain_field(f: Seq<char>) -> bool {
    !f.contains(',') && trim_spec(f) == f
}

/// Writing a course and reading it back gives the same course.
pub proof fn lemma_course_text_round_trip(c: Course)
    ensures
        parse_course_spec(course_text(c)) == Some(c),
{
    let a = int_text(c.course_id as int);
    let b = int_text(c.class_id as int);
    lemma_int_text_plain(c.course_id as int);
    lemma_int_text_plain(c.class_id as int);
    lemma_split_plain(a, ',');
    lemma_split_push_field(a, ',', b);
    assert(split_spec(course_text(c), ',') =~= seq![a, b]);
    lemma_i64_text_round_trip(c.course_id);
    lemma_i64_text_round_trip(c.class_id);
}

/// Writing a position whose fields are plain and not empty and reading it back
/// gives the same position.
pub proof fn lemma_geolocation_text_round_trip(g: GeolocationView)
    requires
        plain_field(g.lon) && g.lon.len() > 0,
        plain_field(g.lat) && g.lat.len() > 0,
        plain_field(g.alt) && g.alt.len() > 0,
    ensures
        parse_geolocation_spec(geolocation_text(g)) == Some(g),
{
    lemma_split_plain(g.lon, ',');
    lemma_split_push_field(g.lon, ',', g.lat);
    lemma_split_push_field(g.lon + seq![','] + g.lat, ',', g.alt);
    assert(split_spec(geolocation_text(g), ',') =~= seq![g.lon, g.lat, g.alt]);
}

/// Writing a place whose fields are plain, the position's not empty, and
/// reading it back gives the same place.
pub proof fn lemma_geoaddr_text_round_trip(g: GeoaddrView)
    requires
        plain_field(g.place_name),
        plain_field(g.geolocation.lon) && g.geolocation.lon.len() > 0,
        plain_field(g.geolocation.lat) && g.geolocation.lat.len() > 0,
        plain_field(g.geolocation.alt) && g.geolocation.alt.len() > 0,
    ensures
        parse_geoaddr_spec(geoaddr_text(g)) == Some(g),
{
    let l = g.geolocation;
    lemma_split_plain(g.place_name, ',');
    lemma_split_push_field(g.place_name, ',', l.lon);
    lemma_split_push_field(g.place_name + seq![','] + l.lon, ',', l.lat);
    lemma_split_push_field(g.place_name + seq![','] + l.lon + seq![','] + l.lat, ',', l.alt);
    assert(geoaddr_text(g) =~= g.place_name + seq![','] + l.lon + seq![','] + l.lat + seq![','] + l.alt);
    assert(split_spec(geoaddr_text(g), ',') =~= seq![g.place_name, l.lon, l.lat, l.alt]);
}

} // verus!
