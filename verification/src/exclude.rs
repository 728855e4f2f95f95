//! The set of excluded course ids, and its text form: one decimal id per line.
use crate::table_map::{lemma_map_of_contains, map_of, TableMap};
use crate::text::{
    i64_to_text, int_text, is_digit, lemma_i64_text_round_trip, lemma_int_text_chars,
    lemma_nonempty_lines_of_lines, lines_spec, nonempty_lines, nonempty_lines_spec, parse_i64,
    parse_i64_spec, to_string_lines, views,
};
use vstd::prelude::*;

verus! {

/// The ids that the lines of `s` hold: each line that is not empty and reads as
/// an `i64`; other lines are skipped.
pub open spec fn ids_of_text(s: Seq<char>) -> Set<i64> {
    ids_in(nonempty_lines_spec(s))
}

/// The ids that the given lines read as.
pub open spec fn ids_in(ls: Seq<Seq<char>>) -> Set<i64> {
    Set::new(
        |id: i64| exists|k: int| 0 <= k < ls.len() && #[trigger] parse_i64_spec(ls[k]) == Some(id),
    )
}

pub proof fn lemma_ids_in_push(ls: Seq<Seq<char>>, l: Seq<char>)
    ensures
        ids_in(ls.push(l)) == match parse_i64_spec(l) {
            Some(id) => ids_in(ls).insert(id),
            None => ids_in(ls),
        },
{
    let t = ls.push(l);
    let r = match parse_i64_spec(l) {
        Some(id) => ids_in(ls).insert(id),
        None => ids_in(ls),
    };
    assert forall|id: i64| ids_in(t).contains(id) <==> r.contains(id) by {
        if ids_in(t).contains(id) {
            let k = choose|k: int| 0 <= k < t.len() && #[trigger] parse_i64_spec(t[k]) == Some(id);
            if k < ls.len() {
                assert(t[k] == ls[k]);
                assert(ids_in(ls).contains(id));
            }
        }
        if ids_in(ls).contains(id) {
            let k = choose|k: int| 0 <= k < ls.len() && #[trigger] parse_i64_spec(ls[k]) == Some(id);
            assert(t[k] == ls[k]);
            assert(ids_in(t).contains(id));
        }
        if parse_i64_spec(l) == Some(id) {
            assert(t[ls.len() as int] == l);
            assert(ids_in(t).contains(id));
        }
    }
    assert(ids_in(t) =~= r);
}

/// The ids read back from the text that `export_text` writes for `ids` are the
/// ids written: importing an export gives back the excluded set.
pub proof fn lemma_exclude_text_round_trip(ids: Seq<i64>)
    ensures
        ids_of_text(lines_spec(ids.map_values(|id: i64| int_text(id as int)))) == ids.to_set(),
{
    let ls = ids.map_values(|id: i64| int_text(id as int));
    assert forall|i: int| 0 <= i < ls.len() implies !(#[trigger] ls[i]).contains('\n') && ls[i].len() > 0 by {
        lemma_int_text_chars(ids[i] as int);
        if ls[i].contains('\n') {
            let k = choose|k: int| 0 <= k < ls[i].len() && ls[i][k] == '\n';
            assert(is_digit(ls[i][k]) || ls[i][k] == '-');
        }
    }
    lemma_nonempty_lines_of_lines(ls);
    assert forall|id: i64| ids_in(ls).contains(id) <==> ids.to_set().contains(id) by {
        if ids_in(ls).contains(id) {
            let k = choose|k: int| 0 <= k < ls.len() && #[trigger] parse_i64_spec(ls[k]) == Some(id);
            lemma_i64_text_round_trip(ids[k]);
            assert(ids.contains(id));
        }
        if ids.contains(id) {
            let k = choose|k: int| 0 <= k < ids.len() && ids[k] == id;
            lemma_i64_text_round_trip(ids[k]);
            assert(parse_i64_spec(ls[k]) == Some(id));
        }
    }
    assert(ids_in(ls) =~= ids.to_set());
}

/// The excluded course ids.
pub struct ExcludeTable {
    map: TableMap<i64, ()>,
}

impl View for ExcludeTable {
    type V = Set<i64>;

    closed spec fn view(&self) -> Set<i64> {
        self.map@.dom()
    }
}

impl ExcludeTable {
    pub closed spec fn wf(&self) -> bool {
        self.map.wf()
    }

    pub fn new() -> (r: ExcludeTable)
        ensures
            r.wf(),
            r@ == Set::<i64>::empty(),
    {
        ExcludeTable { map: TableMap::new() }
    }

    pub fn has_exclude(&self, id: i64) -> (r: bool)
        requires
            self.wf(),
        ensures
            r == self@.contains(id),
    {
        self.map.contains_key(&id)
    }

    /// The excluded ids, each once.
    pub fn get_excludes(&self) -> (r: Vec<i64>)
        requires
            self.wf(),
        ensures
            r@.no_duplicates(),
            r@.to_set() == self@,
    {
        let rows = self.map.entries();
        let mut r: Vec<i64> = Vec::new();
        let mut i: usize = 0;
        while i < rows.len()
            invariant
                i <= rows.len(),
                r@.len() == i,
                forall|j: int| 0 <= j < i ==> r@[j] == rows@[j].0,
            decreases rows.len() - i,
        {
            r.push(rows[i].0);
            i += 1;
        }
        proof {
            assert forall|a: int, b: int| 0 <= a < b < r@.len() implies r@[a] != r@[b] by {
                assert(rows@[a].0@ != rows@[b].0@);
            }
            assert forall|id: i64| r@.to_set().contains(id) <==> self@.contains(id) by {
                lemma_map_of_contains(rows@, id);
                if r@.contains(id) {
                    let j = choose|j: int| 0 <= j < r@.len() && r@[j] == id;
                    assert(rows@[j].0@ == id);
                }
                if self@.contains(id) {
                    let j = choose|j: int| 0 <= j < rows@.len() && rows@[j].0@ == id;
                    assert(r@[j] == id);
                }
            }
            assert(r@.to_set() =~= self@);
        }
        r
    }

    pub fn add_exclude(&mut self, id: i64)
        requires
            old(self).wf(),
        ensures
            final(self).wf(),
            final(self)@ == old(self)@.insert(id),
    {
        let _ = self.map.insert(id, ());
        assert(final(self)@ =~= old(self)@.insert(id));
    }

    pub fn delete_exclude(&mut self, id: i64)
        requires
            old(self).wf(),
        ensures
            final(self).wf(),
            final(self)@ == old(self)@.remove(id),
    {
        let _ = self.map.remove(&id);
        assert(final(self)@ =~= old(self)@.remove(id));
    }

    pub fn remove_all(&mut self)
        ensures
            final(self).wf(),
            final(self)@ == Set::<i64>::empty(),
    {
        self.map.clear();
        assert(final(self)@ =~= Set::<i64>::empty());
    }

    /// Makes the excluded ids exactly those of `excludes`.
    pub fn update_excludes(&mut self, excludes: &Vec<i64>)
        requires
            old(self).wf(),
        ensures
            final(self).wf(),
            final(self)@ == excludes@.to_set(),
    {
        self.remove_all();
        let mut i: usize = 0;
        while i < excludes.len()
            invariant
                i <= excludes.len(),
                self.wf(),
                self@ == excludes@.take(i as int).to_set(),
            decreases excludes.len() - i,
        {
            self.add_exclude(excludes[i]);
            proof {
                assert(excludes@.take(i + 1) =~= excludes@.take(i as int).push(excludes@[i as int]));
                excludes@.take(i as int).lemma_push_to_set_commute(excludes@[i as int]);
                assert(excludes@.take(i + 1).to_set() =~= excludes@.take(i as int).to_set().insert(
                    excludes@[i as int],
                ));
            }
            i += 1;
        }
        assert(excludes@.take(excludes.len() as int) =~= excludes@);
    }

    /// Adds the ids of the lines of `content` that read as `i64`s.
    pub fn import_text(&mut self, content: &str)
        requires
            old(self).wf(),
        ensures
            final(self).wf(),
            final(self)@ == old(self)@.union(ids_of_text(content@)),
    {
        let lines = nonempty_lines(content);
        let ghost ls = views(lines@);
        let mut i: usize = 0;
        proof {
            assert(ids_in(ls.take(0)) =~= Set::<i64>::empty());
            assert(self@ =~= old(self)@.union(ids_in(ls.take(0))));
        }
        while i < lines.len()
            invariant
                i <= lines.len(),
                self.wf(),
                ls == views(lines@),
                ls == nonempty_lines_spec(content@),
                self@ == old(self)@.union(ids_in(ls.take(i as int))),
            decreases lines.len() - i,
        {
            let parsed = parse_i64(lines[i].as_str());
            proof {
                assert(ls[i as int] == lines@[i as int]@);
                assert(ls.take(i + 1) =~= ls.take(i as int).push(ls[i as int]));
                lemma_ids_in_push(ls.take(i as int), ls[i as int]);
            }
            match parsed {
                Some(id) => {
                    self.add_exclude(id);
                },
                None => {},
            }
            proof {
                assert(self@ =~= old(self)@.union(ids_in(ls.take(i + 1))));
            }
            i += 1;
        }
        proof {
            assert(ls.take(lines.len() as int) =~= ls);
        }
    }

    /// The export text: one line per excluded id, in decimal.
    pub fn export_text(&self) -> (r: String)
        requires
            self.wf(),
        ensures
            exists|ids: Seq<i64>|
                ids.no_duplicates() && ids.to_set() == self@ && r@ == lines_spec(
                    ids.map_values(|id: i64| int_text(id as int)),
                ),
    {
        let ids = self.get_excludes();
        let mut lines: Vec<String> = Vec::new();
        let mut i: usize = 0;
        while i < ids.len()
            invariant
                i <= ids.len(),
                views(lines@) == ids@.take(i as int).map_values(|id: i64| int_text(id as int)),
            decreases ids.len() - i,
        {
            let t = i64_to_text(ids[i]);
            let ghost before = views(lines@);
            lines.push(t);
            proof {
                assert(views(lines@) =~= before.push(int_text(ids@[i as int] as int)));
                assert(ids@.take(i + 1) =~= ids@.take(i as int).push(ids@[i as int]));
                assert(views(lines@) =~= ids@.take(i + 1).map_values(|id: i64| int_text(id as int)));
            }
            i += 1;
        }
        assert(ids@.take(ids.len() as int) =~= ids@);
        to_string_lines(lines)
    }
}

} // verus!
