//! The table of places and the table of their aliases.
use crate::error::StoreError;
use crate::model::{Course, Geoaddr, GeoaddrView, Geolocation, GeolocationView};
use crate::seqs::{lemma_seq_views_push, seq_views};
use crate::table_map::{
    distinct_keys, lemma_map_of_contains, lemma_map_of_index, map_of, KeyEq, TableMap, ValueCopy,
};
use crate::text::{sorted_texts, texts_sorted, views};
use vstd::prelude::*;

verus! {

/// What is kept of a position: the name of the place and the courses it serves.
pub struct LocationTableData {
    pub unhandled_addr: String,
    pub courses: Vec<Course>,
}

pub struct LocationTableDataView {
    pub unhandled_addr: Seq<char>,
    pub courses: Seq<Course>,
}

impl View for LocationTableData {
    type V = LocationTableDataView;

    open spec fn view(&self) -> LocationTableDataView {
        LocationTableDataView { unhandled_addr: self.unhandled_addr@, courses: self.courses@ }
    }
}

impl ValueCopy for LocationTableData {
    fn copy_value(&self) -> (r: Self) {
        LocationTableData { unhandled_addr: self.unhandled_addr.clone(), courses: self.courses.clone() }
    }
}

/// The places, by position.
pub struct LocationTable {
    map: TableMap<Geolocation, LocationTableData>,
}

impl View for LocationTable {
    type V = Map<GeolocationView, LocationTableDataView>;

    closed spec fn view(&self) -> Map<GeolocationView, LocationTableDataView> {
        self.map@
    }
}

impl LocationTable {
    pub closed spec fn wf(&self) -> bool {
        self.map.wf()
    }

    pub fn new() -> (r: LocationTable)
        ensures
            r.wf(),
            r@ == Map::<GeolocationView, LocationTableDataView>::empty(),
    {
        LocationTable { map: TableMap::new() }
    }

    /// Whether the position is stored.
    pub fn has_location(&self, location: &Geolocation) -> (r: bool)
        requires
            self.wf(),
        ensures
            r == self@.contains_key(location@),
    {
        self.map.contains_key(location)
    }

    /// Stores `data` for `location`; returns what it replaces.
    pub fn insert(&mut self, location: Geolocation, data: LocationTableData) -> (r: Option<
        LocationTableData,
    >)
        requires
            old(self).wf(),
        ensures
            final(self).wf(),
            final(self)@ == old(self)@.insert(location@, data@),
            match r {
                Some(o) => old(self)@.contains_key(location@) && o@ == old(self)@[location@],
                None => !old(self)@.contains_key(location@),
            },
    {
        self.map.insert(location, data)
    }

    /// Deletes `location`; returns what was stored of it.
    pub fn remove(&mut self, location: &Geolocation) -> (r: Option<LocationTableData>)
        requires
            old(self).wf(),
        ensures
            final(self).wf(),
            final(self)@ == old(self)@.remove(location@),
            match r {
                Some(o) => old(self)@.contains_key(location@) && o@ == old(self)@[location@],
                None => !old(self)@.contains_key(location@),
            },
    {
        self.map.remove(location)
    }

    /// Every position with what is stored of it.
    pub fn get_locations(&self) -> (r: Vec<(Geolocation, LocationTableData)>)
        requires
            self.wf(),
        ensures
            distinct_keys(r@),
            map_of(r@) == self@,
    {
        self.map.to_vec()
    }

    /// Every place, with the courses it serves.
    pub fn get_geoaddrs(&self) -> (r: Vec<(Geoaddr, Vec<Course>)>)
        requires
            self.wf(),
        ensures
            forall|i: int, j: int|
                0 <= i < j < r@.len() ==> r@[i].0@.geolocation != r@[j].0@.geolocation,
            forall|i: int|
                #![trigger r@[i]]
                0 <= i < r@.len() ==> {
                    let g = r@[i].0@.geolocation;
                    &&& self@.contains_key(g)
                    &&& self@[g].unhandled_addr == r@[i].0@.place_name
                    &&& self@[g].courses == r@[i].1@
                },
            forall|g: GeolocationView|
                #[trigger] self@.contains_key(g) ==> exists|i: int|
                    0 <= i < r@.len() && #[trigger] r@[i].0@.geolocation == g,
    {
        let rows = self.map.to_vec();
        let mut r: Vec<(Geoaddr, Vec<Course>)> = Vec::new();
        let mut i: usize = 0;
        while i < rows.len()
            invariant
                i <= rows.len(),
                distinct_keys(rows@),
                map_of(rows@) == self@,
                r@.len() == i,
                forall|j: int|
                    #![trigger r@[j]]
                    0 <= j < i ==> r@[j].0@.geolocation == rows@[j].0@ && r@[j].0@.place_name
                        == rows@[j].1@.unhandled_addr && r@[j].1@ == rows@[j].1@.courses,
            decreases rows.len() - i,
        {
            let g = Geoaddr::new(rows[i].1.unhandled_addr.clone(), rows[i].0.key_clone());
            r.push((g, rows[i].1.courses.clone()));
            i += 1;
        }
        proof {
            assert forall|j: int|
                #![trigger r@[j]]
                0 <= j < r@.len() implies {
                let g = r@[j].0@.geolocation;
                &&& self@.contains_key(g)
                &&& self@[g].unhandled_addr == r@[j].0@.place_name
                &&& self@[g].courses == r@[j].1@
            } by {
                lemma_map_of_index(rows@, j);
            }
            assert forall|g: GeolocationView| #[trigger] self@.contains_key(g) implies exists|j: int|
                0 <= j < r@.len() && #[trigger] r@[j].0@.geolocation == g by {
                lemma_map_of_contains(rows@, g);
                let j = choose|j: int| 0 <= j < rows@.len() && rows@[j].0@ == g;
                assert(r@[j].0@.geolocation == g);
            }
        }
        r
    }

    /// The name of the place at `location`; a position that is not stored is an
    /// `UnexpectedNone` error.
    pub fn get_place_name(&self, location: &Geolocation) -> (r: Result<String, StoreError>)
        requires
            self.wf(),
        ensures
            match r {
                Ok(n) => self@.contains_key(location@) && n@ == self@[location@].unhandled_addr,
                Err(e) => !self@.contains_key(location@) && e is UnexpectedNone,
            },
    {
        match self.map.get(location) {
            Some(d) => Ok(d.unhandled_addr.clone()),
            None => Err(
                StoreError::UnexpectedNone(String::from_str("no place name for this position")),
            ),
        }
    }

    /// The courses that `location` serves; none where it is not stored.
    pub fn get_courses(&self, location: &Geolocation) -> (r: Vec<Course>)
        requires
            self.wf(),
        ensures
            r@ == if self@.contains_key(location@) {
                self@[location@].courses
            } else {
                Seq::<Course>::empty()
            },
    {
        match self.map.get(location) {
            Some(d) => d.courses.clone(),
            None => Vec::new(),
        }
    }
}

/// Whether the alias `a` of `aliases` names a place at `loc`.
pub open spec fn alias_of(aliases: Map<Seq<char>, GeoaddrView>, a: Seq<char>, loc: GeolocationView) -> bool {
    aliases.contains_key(a) && aliases[a].geolocation == loc
}

/// The aliases of places, by alias.
pub struct AliasTable {
    map: TableMap<String, Geoaddr>,
}

impl View for AliasTable {
    type V = Map<Seq<char>, GeoaddrView>;

    closed spec fn view(&self) -> Map<Seq<char>, GeoaddrView> {
        self.map@
    }
}

impl AliasTable {
    pub closed spec fn wf(&self) -> bool {
        self.map.wf()
    }

    pub fn new() -> (r: AliasTable)
        ensures
            r.wf(),
            r@ == Map::<Seq<char>, GeoaddrView>::empty(),
    {
        AliasTable { map: TableMap::new() }
    }

    pub fn has_alias(&self, alias: &str) -> (r: bool)
        requires
            self.wf(),
        ensures
            r == self@.contains_key(alias@),
    {
        self.map.contains_key(&String::from_str(alias))
    }

    /// Deletes `alias`; returns the place it named.
    pub fn delete_alias(&mut self, alias: &str) -> (r: Option<Geoaddr>)
        requires
            old(self).wf(),
        ensures
            final(self).wf(),
            final(self)@ == old(self)@.remove(alias@),
            match r {
                Some(o) => old(self)@.contains_key(alias@) && o@ == old(self)@[alias@],
                None => !old(self)@.contains_key(alias@),
            },
    {
        self.map.remove(&String::from_str(alias))
    }

    /// Makes `alias` name `location`.
    pub fn add_alias(&mut self, alias: &str, location: Geoaddr)
        requires
            old(self).wf(),
        ensures
            final(self).wf(),
            final(self)@ == old(self)@.insert(alias@, location@),
    {
        let _ = self.map.insert(String::from_str(alias), location);
    }

    /// Makes `alias` name `location`; returns the place it named before.
    pub fn update_alias(&mut self, alias: &str, location: &Geoaddr) -> (r: Option<Geoaddr>)
        requires
            old(self).wf(),
        ensures
            final(self).wf(),
            final(self)@ == old(self)@.insert(alias@, location@),
            match r {
                Some(o) => old(self)@.contains_key(alias@) && o@ == old(self)@[alias@],
                None => !old(self)@.contains_key(alias@),
            },
    {
        self.map.insert(String::from_str(alias), location.duplicate())
    }

    /// Every alias with the place it names.
    pub fn get_all_aliases(&self) -> (r: Vec<(String, Geoaddr)>)
        requires
            self.wf(),
        ensures
            distinct_keys(r@),
            map_of(r@) == self@,
    {
        self.map.to_vec()
    }

    /// The place that `alias` names.
    pub fn get_location(&self, alias: &str) -> (r: Option<Geoaddr>)
        requires
            self.wf(),
        ensures
            match r {
                Some(g) => self@.contains_key(alias@) && g@ == self@[alias@],
                None => !self@.contains_key(alias@),
            },
    {
        self.map.get_copy(&String::from_str(alias))
    }

    /// The aliases of the places at `location`, each once, in the order of `str`,
    /// which is the order in which the table keeps its keys.
    pub fn get_aliases(&self, location: &Geolocation) -> (r: Vec<String>)
        requires
            self.wf(),
        ensures
            texts_sorted(views(r@)),
            views(r@).no_duplicates(),
            forall|a: Seq<char>| #[trigger] views(r@).contains(a) <==> alias_of(self@, a, location@),
    {
        let rows = self.map.entries();
        let mut r: Vec<String> = Vec::new();
        let mut i: usize = 0;
        while i < rows.len()
            invariant
                i <= rows.len(),
                distinct_keys(rows@),
                map_of(rows@) == self@,
                views(r@).no_duplicates(),
                forall|a: Seq<char>| #[trigger]
                    views(r@).contains(a) ==> exists|m: int|
                        0 <= m < i && rows@[m].0@ == a && rows@[m].1@.geolocation == location@,
                forall|m: int|
                    0 <= m < i && rows@[m].1@.geolocation == location@ ==> views(r@).contains(
                        #[trigger] rows@[m].0@,
                    ),
            decreases rows.len() - i,
        {
            if rows[i].1.geolocation.key_eq(location) {
                let name = rows[i].0.clone();
                let ghost before = r@;
                proof {
                    lemma_seq_views_push(before, name);
                    assert(views(before) == seq_views(before));
                    assert(views(before.push(name)) == seq_views(before.push(name)));
                    if views(before).contains(name@) {
                        let m = choose|m: int|
                            0 <= m < i && rows@[m].0@ == name@ && rows@[m].1@.geolocation
                                == location@;
                        assert(rows@[m].0@ != rows@[i as int].0@);
                    }
                }
                r.push(name);
                proof {
                    assert(views(r@) == views(before).push(name@));
                    assert forall|a: int, b: int|
                        0 <= a < b < views(r@).len() implies views(r@)[a] != views(r@)[b] by {
                        if b == before.len() {
                            assert(views(before)[a] == views(r@)[a]);
                            assert(views(before).contains(views(r@)[a]));
                        } else {
                            assert(views(before)[a] == views(r@)[a]);
                            assert(views(before)[b] == views(r@)[b]);
                        }
                    }
                }
            }
            i += 1;
        }
        proof {
            assert forall|a: Seq<char>| #[trigger]
                views(r@).contains(a) <==> alias_of(self@, a, location@) by {
                if views(r@).contains(a) {
                    let m = choose|m: int|
                        0 <= m < rows@.len() && rows@[m].0@ == a && rows@[m].1@.geolocation
                            == location@;
                    lemma_map_of_index(rows@, m);
                }
                if alias_of(self@, a, location@) {
                    lemma_map_of_contains(rows@, a);
                    let m = choose|m: int| 0 <= m < rows@.len() && rows@[m].0@ == a;
                    lemma_map_of_index(rows@, m);
                }
            }
        }
        sorted_texts(&r)
    }

    /// What `and` makes of each alias of the places at `location`, the aliases
    /// taken in the order of `get_aliases`.
    pub fn get_aliases_and<B, F: Fn(String) -> B>(&self, location: &Geolocation, and: F) -> (r: Vec<B>)
        requires
            self.wf(),
            forall|a: String| #[trigger] and.requires((a,)),
        ensures
            exists|names: Seq<String>|
                {
                    &&& texts_sorted(#[trigger] views(names))
                    &&& views(names).no_duplicates()
                    &&& forall|a: Seq<char>| #[trigger] views(names).contains(a) <==> alias_of(self@, a, location@)
                    &&& names.len() == r@.len()
                    &&& forall|i: int| 0 <= i < r@.len() ==> call_ensures(and, (names[i],), #[trigger] r@[i])
                },
    {
        let names = self.get_aliases(location);
        let mut r: Vec<B> = Vec::new();
        let mut i: usize = 0;
        while i < names.len()
            invariant
                i <= names.len(),
                r@.len() == i,
                forall|a: String| #[trigger] and.requires((a,)),
                forall|k: int| 0 <= k < i ==> call_ensures(and, (names@[k],), #[trigger] r@[k]),
            decreases names.len() - i,
        {
            let name = names[i].clone();
            let b = and(name);
            r.push(b);
            i += 1;
        }
        proof {
            assert(names@.len() == r@.len());
            assert(forall|k: int| 0 <= k < r@.len() ==> call_ensures(and, (names@[k],), #[trigger] r@[k]));
        }
        r
    }

    /// The aliases that name exactly the place `place`, each once, in the order
    /// of `str`.
    pub fn get_aliases_of_place(&self, place: &Geoaddr) -> (r: Vec<String>)
        requires
            self.wf(),
        ensures
            texts_sorted(views(r@)),
            views(r@).no_duplicates(),
            forall|a: Seq<char>| #[trigger]
                views(r@).contains(a) <==> (self@.contains_key(a) && self@[a] == place@),
    {
        let rows = self.map.entries();
        let mut r: Vec<String> = Vec::new();
        let mut i: usize = 0;
        while i < rows.len()
            invariant
                i <= rows.len(),
                distinct_keys(rows@),
                map_of(rows@) == self@,
                views(r@).no_duplicates(),
                forall|a: Seq<char>| #[trigger]
                    views(r@).contains(a) ==> exists|m: int|
                        0 <= m < i && rows@[m].0@ == a && rows@[m].1@ == place@,
                forall|m: int|
                    0 <= m < i && rows@[m].1@ == place@ ==> views(r@).contains(
                        #[trigger] rows@[m].0@,
                    ),
            decreases rows.len() - i,
        {
            if rows[i].1.key_eq(place) {
                let name = rows[i].0.clone();
                let ghost before = r@;
                proof {
                    lemma_seq_views_push(before, name);
                    assert(views(before) == seq_views(before));
                    assert(views(before.push(name)) == seq_views(before.push(name)));
                    if views(before).contains(name@) {
                        let m = choose|m: int|
                            0 <= m < i && rows@[m].0@ == name@ && rows@[m].1@ == place@;
                        assert(rows@[m].0@ != rows@[i as int].0@);
                    }
                }
                r.push(name);
                proof {
                    assert(views(r@) == views(before).push(name@));
                    assert forall|a: int, b: int|
                        0 <= a < b < views(r@).len() implies views(r@)[a] != views(r@)[b] by {
                        if b == before.len() {
                            assert(views(before)[a] == views(r@)[a]);
                            assert(views(before).contains(views(r@)[a]));
                        } else {
                            assert(views(before)[a] == views(r@)[a]);
                            assert(views(before)[b] == views(r@)[b]);
                        }
                    }
                }
            }
            i += 1;
        }
        proof {
            assert forall|a: Seq<char>| #[trigger]
                views(r@).contains(a) <==> (self@.contains_key(a) && self@[a] == place@) by {
                if views(r@).contains(a) {
                    let m = choose|m: int|
                        0 <= m < rows@.len() && rows@[m].0@ == a && rows@[m].1@ == place@;
                    lemma_map_of_index(rows@, m);
                }
                if self@.contains_key(a) && self@[a] == place@ {
                    lemma_map_of_contains(rows@, a);
                    let m = choose|m: int| 0 <= m < rows@.len() && rows@[m].0@ == a;
                    lemma_map_of_index(rows@, m);
                }
            }
        }
        sorted_texts(&r)
    }

    /// Deletes every alias of a place at `location`.
    pub fn delete_aliases_of(&mut self, location: &Geolocation)
        requires
            old(self).wf(),
        ensures
            final(self).wf(),
            forall|a: Seq<char>| #[trigger]
                final(self)@.contains_key(a) <==> (old(self)@.contains_key(a) && !alias_of(
                    old(self)@,
                    a,
                    location@,
                )),
            forall|a: Seq<char>| #[trigger]
                final(self)@.contains_key(a) ==> final(self)@[a] == old(self)@[a],
    {
        let names = self.get_aliases(location);
        let mut i: usize = 0;
        while i < names.len()
            invariant
                i <= names.len(),
                self.wf(),
                forall|a: Seq<char>| #[trigger]
                    views(names@).contains(a) <==> alias_of(old(self)@, a, location@),
                forall|a: Seq<char>| #[trigger]
                    self@.contains_key(a) <==> (old(self)@.contains_key(a) && !views(
                        names@.take(i as int),
                    ).contains(a)),
                forall|a: Seq<char>| #[trigger]
                    self@.contains_key(a) ==> self@[a] == old(self)@[a],
            decreases names.len() - i,
        {
            proof {
                assert(names@.take(i + 1) =~= names@.take(i as int).push(names@[i as int]));
                lemma_seq_views_push(names@.take(i as int), names@[i as int]);
                assert(views(names@.take(i + 1)) == seq_views(names@.take(i + 1)));
                assert(views(names@.take(i as int)) == seq_views(names@.take(i as int)));
            }
            let _ = self.delete_alias(names[i].as_str());
            i += 1;
        }
        proof {
            assert(names@.take(names.len() as int) =~= names@);
        }
    }
}

} // verus!
