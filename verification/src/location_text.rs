//! The text form of places with their courses and aliases, for import and export:
//! one place per line, `course/course...$name,lon,lat,alt$alias/alias...`.
use crate::error::StoreError;
use crate::location::{alias_of, LocationTable};
use crate::model::{
    course_text, geoaddr_text, lemma_course_text_round_trip, parse_course_spec, parse_geoaddr_spec,
    Course, Geoaddr, GeoaddrView,
};
use crate::store::{aliases_resolve, insert_location_spec, Tables, TablesView};
use crate::table_map::{lemma_map_of_contains, lemma_map_of_index};
use crate::text::{
    int_text, is_digit, lemma_int_text_chars, lemma_int_text_plain, lemma_split_plain,
    lemma_split_push_field, lemma_trim_plain, lines_spec, nonempty_lines, nonempty_lines_spec,
    split_char, split_spec, texts_sorted, to_string_lines, trim, trim_all, trim_spec, trimmed_pieces, views,
};
use vstd::prelude::*;

verus! {

/// Strings joined, `sep` between each two.
pub open spec fn join_spec(parts: Seq<Seq<char>>, sep: Seq<char>) -> Seq<char>
    decreases parts.len(),
{
    if parts.len() == 0 {
        Seq::<char>::empty()
    } else if parts.len() == 1 {
        parts[0]
    } else {
        join_spec(parts.drop_last(), sep) + sep + parts.last()
    }
}

/// Joins `parts`, with `sep` between each two.
pub fn join(parts: &Vec<String>, sep: &str) -> (r: String)
    ensures
        r@ == join_spec(views(parts@), sep@),
{
    let mut s = String::new();
    let mut i: usize = 0;
    assert(views(parts@).take(0) =~= Seq::<Seq<char>>::empty());
    while i < parts.len()
        invariant
            i <= parts.len(),
            s@ == join_spec(views(parts@).take(i as int), sep@),
        decreases parts.len() - i,
    {
        if i > 0 {
            s.append(sep);
        }
        s.append(parts[i].as_str());
        proof {
            assert(views(parts@).take(i + 1).drop_last() =~= views(parts@).take(i as int));
            assert(views(parts@)[i as int] == parts@[i as int]@);
            if i == 0 {
                assert(s@ =~= join_spec(views(parts@).take(i + 1), sep@));
            }
        }
        i += 1;
    }
    assert(views(parts@).take(parts.len() as int) =~= views(parts@));
    s
}

/// A place with the courses it serves and its aliases.
pub struct LocationAndAliasesPairInternal {
    unhandled_geoaddr: Geoaddr,
    courses: Vec<Course>,
    aliases: Vec<String>,
}

pub struct PairView {
    pub geoaddr: GeoaddrView,
    pub courses: Seq<Course>,
    pub aliases: Seq<Seq<char>>,
}

impl View for LocationAndAliasesPairInternal {
    type V = PairView;

    closed spec fn view(&self) -> PairView {
        PairView {
            geoaddr: self.unhandled_geoaddr@,
            courses: self.courses@,
            aliases: views(self.aliases@),
        }
    }
}

/// The texts of courses.
pub open spec fn course_texts(cs: Seq<Course>) -> Seq<Seq<char>> {
    cs.map_values(|c: Course| course_text(c))
}

/// The texts of the courses joined by `/`.
pub fn courses_text(courses: &Vec<Course>) -> (r: String)
    ensures
        r@ == join_spec(course_texts(courses@), seq!['/']),
{
    let mut texts: Vec<String> = Vec::new();
    let mut i: usize = 0;
    while i < courses.len()
        invariant
            i <= courses@.len(),
            views(texts@) == course_texts(courses@.take(i as int)),
        decreases courses.len() - i,
    {
        let t = courses[i].to_text();
        let ghost before = views(texts@);
        texts.push(t);
        proof {
            assert(views(texts@) =~= before.push(course_text(courses@[i as int])));
            assert(courses@.take(i + 1) =~= courses@.take(i as int).push(courses@[i as int]));
            assert(views(texts@) =~= course_texts(courses@.take(i + 1)));
        }
        i += 1;
    }
    assert(courses@.take(courses@.len() as int) =~= courses@);
    proof {
        reveal_strlit("/");
        assert("/"@ =~= seq!['/']);
    }
    join(&texts, "/")
}

/// The line of a place: its courses joined by `/`, `$`, the place, `$`, its
/// aliases joined by `/`.
pub open spec fn pair_line_spec(p: PairView) -> Seq<char> {
    join_spec(course_texts(p.courses), seq!['/']) + seq!['$'] + geoaddr_text(p.geoaddr) + seq!['$']
        + join_spec(p.aliases, seq!['/'])
}

/// The course read from one piece of the course list; a piece that is no course
/// stands for the global course.
pub open spec fn course_or_global(s: Seq<char>) -> Course {
    match parse_course_spec(trim_spec(s)) {
        Some(c) => c,
        None => Course { course_id: -1i64, class_id: -1i64 },
    }
}

/// The place read from a line: at least three `$` separated parts; the first a
/// `/` separated list of courses, the second a place, the third a `/` separated
/// list of aliases, each trimmed. `None` where there are fewer parts or the
/// second is no place.
pub open spec fn parse_pair_spec(s: Seq<char>) -> Option<PairView> {
    let data = split_spec(s, '$');
    if data.len() <= 2 {
        None
    } else {
        match parse_geoaddr_spec(data[1]) {
            Some(g) => Some(
                PairView {
                    geoaddr: g,
                    courses: split_spec(data[0], '/').map_values(|p: Seq<char>| course_or_global(p)),
                    aliases: trim_all(split_spec(data[2], '/')),
                },
            ),
            None => None,
        }
    }
}

impl LocationAndAliasesPairInternal {
    pub fn new(unhandled_geoaddr: Geoaddr, courses: Vec<Course>, aliases: Vec<String>) -> (r: Self)
        ensures
            r@ == (PairView {
                geoaddr: unhandled_geoaddr@,
                courses: courses@,
                aliases: views(aliases@),
            }),
    {
        LocationAndAliasesPairInternal { unhandled_geoaddr, courses, aliases }
    }

    pub fn courses(&self) -> (r: &Vec<Course>)
        ensures
            r@ == self@.courses,
    {
        &self.courses
    }

    pub fn unhandled_geoaddr(&self) -> (r: &Geoaddr)
        ensures
            r@ == self@.geoaddr,
    {
        &self.unhandled_geoaddr
    }

    pub fn aliases(&self) -> (r: &Vec<String>)
        ensures
            views(r@) == self@.aliases,
    {
        &self.aliases
    }

    /// Writes the line of this place.
    pub fn to_line(&self) -> (r: String)
        ensures
            r@ == pair_line_spec(self@),
    {
        proof {
            reveal_strlit("/");
            reveal_strlit("$");
            assert("/"@ =~= seq!['/']);
            assert("$"@ =~= seq!['$']);
        }
        let mut s = courses_text(&self.courses);
        s.append("$");
        let g = self.unhandled_geoaddr.to_text();
        s.append(g.as_str());
        s.append("$");
        let a = join(&self.aliases, "/");
        s.append(a.as_str());
        assert(s@ =~= pair_line_spec(self@));
        s
    }

    /// Reads the line of a place, as `parse_pair_spec` states; a line it rejects
    /// is a parse error.
    pub fn parse(s: &str) -> (r: Result<LocationAndAliasesPairInternal, StoreError>)
        ensures
            match r {
                Ok(p) => parse_pair_spec(s@) == Some(p@),
                Err(e) => parse_pair_spec(s@) is None && (e matches StoreError::ParseError(m) && m@
                    == if split_spec(s@, '$').len() <= 2 {
                    "格式应为 `课程号,班级号/...$地址,经度,纬度,海拔$别名/...`"@
                } else {
                    "位置解析出错：位置的格式应为 `地址,经度,纬度,海拔`."@
                }),
            },
    {
        let data = split_char(s, '$');
        if data.len() <= 2 {
            return Err(
                StoreError::ParseError(
                    String::from_str("格式应为 `课程号,班级号/...$地址,经度,纬度,海拔$别名/...`"),
                ),
            );
        }
        assert(views(data@)[0] == data@[0]@);
        assert(views(data@)[1] == data@[1]@);
        assert(views(data@)[2] == data@[2]@);
        let pieces = split_char(data[0].as_str(), '/');
        let ghost ps = views(pieces@);
        let mut courses: Vec<Course> = Vec::new();
        let mut i: usize = 0;
        while i < pieces.len()
            invariant
                i <= pieces@.len(),
                ps == views(pieces@),
                courses@ == ps.take(i as int).map_values(|p: Seq<char>| course_or_global(p)),
            decreases pieces.len() - i,
        {
            let c = match Course::parse(trim(pieces[i].as_str())) {
                Some(c) => c,
                None => Course::global_course(),
            };
            proof {
                assert(ps[i as int] == pieces@[i as int]@);
                assert(ps.take(i + 1) =~= ps.take(i as int).push(ps[i as int]));
            }
            courses.push(c);
            assert(courses@ =~= ps.take(i + 1).map_values(|p: Seq<char>| course_or_global(p)));
            i += 1;
        }
        assert(ps.take(pieces@.len() as int) =~= ps);
        match Geoaddr::parse(data[1].as_str()) {
            None => Err(
                StoreError::ParseError(String::from_str("位置解析出错：位置的格式应为 `地址,经度,纬度,海拔`.")),
            ),
            Some(g) => {
                let aliases = trimmed_pieces(data[2].as_str(), '/');
                Ok(LocationAndAliasesPairInternal { unhandled_geoaddr: g, courses, aliases })
            },
        }
    }
}

/// The tables after the lines of `ls` are imported in turn: each line that reads
/// as a place is stored with `insert_location`; other lines are skipped.
pub open spec fn import_locations_spec(t: TablesView, ls: Seq<Seq<char>>) -> TablesView
    decreases ls.len(),
{
    if ls.len() == 0 {
        t
    } else {
        let t2 = import_locations_spec(t, ls.drop_last());
        match parse_pair_spec(ls.last()) {
            Some(p) => insert_location_spec(
                t2,
                p.geoaddr.geolocation,
                p.geoaddr.place_name,
                p.courses,
                p.aliases,
            ).0,
            None => t2,
        }
    }
}

/// Importing lines keeps every alias naming a stored position.
pub proof fn lemma_import_keeps_aliases(t: TablesView, ls: Seq<Seq<char>>)
    requires
        aliases_resolve(t),
    ensures
        aliases_resolve(import_locations_spec(t, ls)),
    decreases ls.len(),
{
    if ls.len() > 0 {
        lemma_import_keeps_aliases(t, ls.drop_last());
        let t2 = import_locations_spec(t, ls.drop_last());
        match parse_pair_spec(ls.last()) {
            Some(p) => {
                crate::store::lemma_insert_location_keeps_aliases(
                    t2,
                    p.geoaddr.geolocation,
                    p.geoaddr.place_name,
                    p.courses,
                    p.aliases,
                );
            },
            None => {},
        }
    }
}

/// Whether the lines of `ps` are an export of the places of `t`: one line per
/// stored place, with its courses and the aliases of places at its position in
/// the order of `str`.
pub open spec fn is_export_of(t: TablesView, ps: Seq<PairView>) -> bool {
    &&& forall|i: int, j: int|
        0 <= i < j < ps.len() ==> ps[i].geoaddr.geolocation != ps[j].geoaddr.geolocation
    &&& forall|i: int|
        #![trigger ps[i]]
        0 <= i < ps.len() ==> {
            let g = ps[i].geoaddr.geolocation;
            &&& t.locations.contains_key(g)
            &&& t.locations[g].unhandled_addr == ps[i].geoaddr.place_name
            &&& t.locations[g].courses == ps[i].courses
            &&& texts_sorted(ps[i].aliases)
            &&& ps[i].aliases.no_duplicates()
            &&& forall|a: Seq<char>| #[trigger]
                ps[i].aliases.contains(a) <==> alias_of(t.aliases, a, g)
        }
    &&& forall|g| #[trigger]
        t.locations.contains_key(g) ==> exists|i: int|
            0 <= i < ps.len() && #[trigger] ps[i].geoaddr.geolocation == g
}

impl LocationTable {
    /// Imports the lines of `content`, as `import_locations_spec` states.
    pub fn import_text(db: &mut Tables, content: &str)
        requires
            old(db).wf(),
        ensures
            final(db).wf(),
            final(db)@ == import_locations_spec(old(db)@, nonempty_lines_spec(content@)),
            aliases_resolve(old(db)@) ==> aliases_resolve(final(db)@),
    {
        proof {
            if aliases_resolve(old(db)@) {
                lemma_import_keeps_aliases(old(db)@, nonempty_lines_spec(content@));
            }
        }
        let lines = nonempty_lines(content);
        let ghost ls = views(lines@);
        let mut i: usize = 0;
        assert(ls.take(0) =~= Seq::<Seq<char>>::empty());
        while i < lines.len()
            invariant
                i <= lines@.len(),
                db.wf(),
                ls == views(lines@),
                ls == nonempty_lines_spec(content@),
                db@ == import_locations_spec(old(db)@, ls.take(i as int)),
            decreases lines.len() - i,
        {
            proof {
                assert(ls[i as int] == lines@[i as int]@);
                assert(ls.take(i + 1).drop_last() =~= ls.take(i as int));
                assert(ls.take(i + 1).last() == ls[i as int]);
            }
            match LocationAndAliasesPairInternal::parse(lines[i].as_str()) {
                Ok(p) => {
                    let _ = LocationTable::insert_location(
                        db,
                        &p.unhandled_geoaddr.geolocation,
                        &p.unhandled_geoaddr.unhandled_place_name,
                        &p.courses,
                        &p.aliases,
                    );
                },
                Err(_) => {},
            }
            i += 1;
        }
        assert(ls.take(lines@.len() as int) =~= ls);
    }

    /// The export text of the places of `db`: a line per stored place, as
    /// `is_export_of` states, each written as `pair_line_spec` states.
    pub fn export_text(db: &Tables) -> (r: String)
        requires
            db.wf(),
        ensures
            exists|ps: Seq<PairView>|
                is_export_of(db@, ps) && r@ == lines_spec(
                    ps.map_values(|p: PairView| pair_line_spec(p)),
                ),
    {
        let rows = db.locations.get_locations();
        let mut lines: Vec<String> = Vec::new();
        let mut pairs: Vec<LocationAndAliasesPairInternal> = Vec::new();
        let mut i: usize = 0;
        while i < rows.len()
            invariant
                i <= rows@.len(),
                db.wf(),
                crate::table_map::distinct_keys(rows@),
                crate::table_map::map_of(rows@) == db@.locations,
                pairs@.len() == i,
                views(lines@) == pairs@.map_values(|p: LocationAndAliasesPairInternal| pair_line_spec(p@)),
                forall|j: int|
                    #![trigger pairs@[j]]
                    0 <= j < i ==> {
                        let p = pairs@[j]@;
                        &&& p.geoaddr.geolocation == rows@[j].0@
                        &&& p.geoaddr.place_name == rows@[j].1@.unhandled_addr
                        &&& p.courses == rows@[j].1@.courses
                        &&& texts_sorted(p.aliases)
                        &&& p.aliases.no_duplicates()
                        &&& forall|a: Seq<char>| #[trigger]
                            p.aliases.contains(a) <==> alias_of(db@.aliases, a, rows@[j].0@)
                    },
            decreases rows.len() - i,
        {
            let aliases = db.aliases.get_aliases(&rows[i].0);
            let addr = Geoaddr::new(rows[i].1.unhandled_addr.clone(), rows[i].0.duplicate());
            let p = LocationAndAliasesPairInternal::new(addr, rows[i].1.courses.clone(), aliases);
            let line = p.to_line();
            let ghost before_lines = views(lines@);
            let ghost before_pairs = pairs@;
            lines.push(line);
            pairs.push(p);
            proof {
                assert(views(lines@) =~= before_lines.push(pair_line_spec(p@)));
                assert(pairs@ == before_pairs.push(p));
                assert(views(lines@) =~= pairs@.map_values(
                    |p: LocationAndAliasesPairInternal| pair_line_spec(p@),
                ));
            }
            i += 1;
        }
        let ghost ps = pairs@.map_values(|p: LocationAndAliasesPairInternal| p@);
        proof {
            assert forall|a: int, b: int| 0 <= a < b < ps.len() implies ps[a].geoaddr.geolocation
                != ps[b].geoaddr.geolocation by {
                assert(ps[a] == pairs@[a]@);
                assert(ps[b] == pairs@[b]@);
            }
            assert forall|j: int|
                #![trigger ps[j]]
                0 <= j < ps.len() implies {
                let g = ps[j].geoaddr.geolocation;
                &&& db@.locations.contains_key(g)
                &&& db@.locations[g].unhandled_addr == ps[j].geoaddr.place_name
                &&& db@.locations[g].courses == ps[j].courses
                &&& texts_sorted(ps[j].aliases)
                &&& ps[j].aliases.no_duplicates()
                &&& forall|a: Seq<char>| #[trigger]
                    ps[j].aliases.contains(a) <==> alias_of(db@.aliases, a, g)
            } by {
                assert(ps[j] == pairs@[j]@);
                lemma_map_of_index(rows@, j);
            }
            assert forall|g| #[trigger] db@.locations.contains_key(g) implies exists|j: int|
                0 <= j < ps.len() && #[trigger] ps[j].geoaddr.geolocation == g by {
                lemma_map_of_contains(rows@, g);
                let j = choose|j: int| 0 <= j < rows@.len() && rows@[j].0@ == g;
                assert(ps[j] == pairs@[j]@);
            }
            assert(ps.map_values(|p: PairView| pair_line_spec(p)) =~= views(lines@));
        }
        let r = to_string_lines(lines);
        assert(is_export_of(db@, ps) && r@ == lines_spec(ps.map_values(|p: PairView| pair_line_spec(p))));
        r
    }
}

/// Text made of two parts lacks a character that both lack.
proof fn lemma_concat_lacks(a: Seq<char>, b: Seq<char>, c: char)
    requires
        !a.contains(c),
        !b.contains(c),
    ensures
        !(a + b).contains(c),
{
    if (a + b).contains(c) {
        let k = choose|k: int| 0 <= k < (a + b).len() && (a + b)[k] == c;
        if k < a.len() {
            assert(a[k] == c);
        } else {
            assert(b[k - a.len()] == c);
        }
    }
}

/// Parts joined by a separator lack a character that the parts and the
/// separator lack.
proof fn lemma_join_lacks(parts: Seq<Seq<char>>, sep: char, c: char)
    requires
        sep != c,
        forall|i: int| 0 <= i < parts.len() ==> !(#[trigger] parts[i]).contains(c),
    ensures
        !join_spec(parts, seq![sep]).contains(c),
    decreases parts.len(),
{
    if parts.len() == 1 {
        assert(!parts[0].contains(c));
    } else if parts.len() > 1 {
        let init = parts.drop_last();
        assert forall|i: int| 0 <= i < init.len() implies !(#[trigger] init[i]).contains(c) by {
            assert(init[i] == parts[i]);
        }
        lemma_join_lacks(init, sep, c);
        assert(!seq![sep].contains(c)) by {
            if seq![sep].contains(c) {
                assert(seq![sep][0] == c);
            }
        }
        lemma_concat_lacks(join_spec(init, seq![sep]), seq![sep], c);
        assert(!parts.last().contains(c)) by {
            assert(parts[parts.len() - 1] == parts.last());
        }
        lemma_concat_lacks(join_spec(init, seq![sep]) + seq![sep], parts.last(), c);
    }
}

/// Splitting parts joined by a separator that none of them holds gives the parts.
proof fn lemma_split_join(parts: Seq<Seq<char>>, sep: char)
    requires
        parts.len() > 0,
        forall|i: int| 0 <= i < parts.len() ==> !(#[trigger] parts[i]).contains(sep),
    ensures
        split_spec(join_spec(parts, seq![sep]), sep) == parts,
    decreases parts.len(),
{
    if parts.len() == 1 {
        assert(!parts[0].contains(sep));
        lemma_split_plain(parts[0], sep);
        assert(parts =~= seq![parts[0]]);
    } else {
        let init = parts.drop_last();
        assert forall|i: int| 0 <= i < init.len() implies !(#[trigger] init[i]).contains(sep) by {
            assert(init[i] == parts[i]);
        }
        lemma_split_join(init, sep);
        assert(!parts.last().contains(sep)) by {
            assert(parts[parts.len() - 1] == parts.last());
        }
        lemma_split_push_field(join_spec(init, seq![sep]), sep, parts.last());
        assert(init.push(parts.last()) =~= parts);
    }
}

/// The text of a course holds only digits, `-` and `,`.
proof fn lemma_course_text_lacks(c: Course, ch: char)
    requires
        !is_digit(ch),
        ch != '-',
        ch != ',',
    ensures
        !course_text(c).contains(ch),
{
    lemma_int_text_chars(c.course_id as int);
    lemma_int_text_chars(c.class_id as int);
    let a = int_text(c.course_id as int);
    let b = int_text(c.class_id as int);
    assert(!a.contains(ch)) by {
        if a.contains(ch) {
            let k = choose|k: int| 0 <= k < a.len() && a[k] == ch;
            assert(is_digit(a[k]) || a[k] == '-');
        }
    }
    assert(!b.contains(ch)) by {
        if b.contains(ch) {
            let k = choose|k: int| 0 <= k < b.len() && b[k] == ch;
            assert(is_digit(b[k]) || b[k] == '-');
        }
    }
    assert(!seq![','].contains(ch)) by {
        if seq![','].contains(ch) {
            assert(seq![','][0] == ch);
        }
    }
    lemma_concat_lacks(a, seq![','], ch);
    lemma_concat_lacks(a + seq![','], b, ch);
}

/// Whether an alias can be written in a place line and read back: no `/`, no
/// `$`, and no white space around it.
pub open spec fn plain_alias(a: Seq<char>) -> bool {
    !a.contains('/') && !a.contains('$') && trim_spec(a) == a
}

/// Writing the line of a place and reading it back gives the same place, with
/// its courses and aliases, where the place reads back as itself, none of its
/// fields holds `$`, and it has at least one course and one alias, each plain.
/// (A line with no course reads back as one for the global course, and one with
/// no alias as one with an empty alias.)
pub proof fn lemma_pair_line_round_trip(p: PairView)
    requires
        p.courses.len() > 0,
        p.aliases.len() > 0,
        forall|i: int| 0 <= i < p.aliases.len() ==> plain_alias(#[trigger] p.aliases[i]),
        parse_geoaddr_spec(geoaddr_text(p.geoaddr)) == Some(p.geoaddr),
        !geoaddr_text(p.geoaddr).contains('$'),
    ensures
        parse_pair_spec(pair_line_spec(p)) == Some(p),
{
    let ct = course_texts(p.courses);
    let a = join_spec(ct, seq!['/']);
    let g = geoaddr_text(p.geoaddr);
    let b = join_spec(p.aliases, seq!['/']);
    assert forall|i: int| 0 <= i < ct.len() implies !(#[trigger] ct[i]).contains('$') && !ct[i].contains('/') by {
        lemma_course_text_lacks(p.courses[i], '$');
        lemma_course_text_lacks(p.courses[i], '/');
    }
    lemma_join_lacks(ct, '/', '$');
    assert forall|i: int| 0 <= i < p.aliases.len() implies !(#[trigger] p.aliases[i]).contains('$') by {
        assert(plain_alias(p.aliases[i]));
    }
    lemma_join_lacks(p.aliases, '/', '$');
    lemma_split_plain(a, '$');
    lemma_split_push_field(a, '$', g);
    lemma_split_push_field(a + seq!['$'] + g, '$', b);
    assert(pair_line_spec(p) =~= a + seq!['$'] + g + seq!['$'] + b);
    let data = split_spec(pair_line_spec(p), '$');
    assert(data =~= seq![a, g, b]);
    lemma_split_join(ct, '/');
    assert forall|i: int| 0 <= i < p.aliases.len() implies !(#[trigger] p.aliases[i]).contains('/') by {
        assert(plain_alias(p.aliases[i]));
    }
    lemma_split_join(p.aliases, '/');
    let cs = split_spec(a, '/').map_values(|q: Seq<char>| course_or_global(q));
    assert forall|i: int| 0 <= i < cs.len() implies cs[i] == p.courses[i] by {
        let c = p.courses[i];
        lemma_int_text_plain(c.course_id as int);
        lemma_course_text_lacks(c, ' ');
        lemma_course_text_round_trip(c);
        assert(ct[i] == course_text(c));
        let t = course_text(c);
        assert(t.len() > 0);
        lemma_int_text_chars(c.course_id as int);
        lemma_int_text_chars(c.class_id as int);
        assert(t[0] == int_text(c.course_id as int)[0]);
        assert(t[t.len() - 1] == int_text(c.class_id as int)[int_text(c.class_id as int).len() - 1]);
        lemma_trim_plain(t);
    }
    assert(cs =~= p.courses);
    let al = trim_all(split_spec(b, '/'));
    assert forall|i: int| 0 <= i < al.len() implies al[i] == p.aliases[i] by {
        assert(plain_alias(p.aliases[i]));
    }
    assert(al =~= p.aliases);
}

} // verus!
