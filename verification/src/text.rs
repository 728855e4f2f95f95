//! Text helpers: splitting, trimming, line framing and decimal integers.
use vstd::prelude::*;

verus! {

/// The Unicode `White_Space` property (PropList.txt).
pub open spec fn is_white_space(c: char) -> bool {
    let n = c as u32;
    ||| 0x9 <= n <= 0xd
    ||| n == 0x20
    ||| n == 0x85
    ||| n == 0xa0
    ||| n == 0x1680
    ||| 0x2000 <= n <= 0x200a
    ||| n == 0x2028
    ||| n == 0x2029
    ||| n == 0x202f
    ||| n == 0x205f
    ||| n == 0x3000
}

pub open spec fn trim_start_spec(s: Seq<char>) -> Seq<char>
    decreases s.len(),
{
    if s.len() > 0 && is_white_space(s[0]) {
        trim_start_spec(s.drop_first())
    } else {
        s
    }
}

pub open spec fn trim_end_spec(s: Seq<char>) -> Seq<char>
    decreases s.len(),
{
    if s.len() > 0 && is_white_space(s.last()) {
        trim_end_spec(s.drop_last())
    } else {
        s
    }
}

/// A string with its leading and trailing white space removed.
pub open spec fn trim_spec(s: Seq<char>) -> Seq<char> {
    trim_end_spec(trim_start_spec(s))
}

/// Trimming removes white space from both ends and nothing else: the result is
/// the text between a prefix and a suffix made of white space alone, and it
/// neither starts nor ends with white space.
pub proof fn lemma_trim_removes_ends(s: Seq<char>)
    ensures
        exists|i: int, j: int|
            #![trigger s.subrange(i, j)]
            0 <= i <= j <= s.len() && trim_spec(s) == s.subrange(i, j) && (forall|k: int|
                0 <= k < i ==> is_white_space(#[trigger] s[k])) && (forall|k: int|
                j <= k < s.len() ==> is_white_space(#[trigger] s[k])),
        trim_spec(s).len() > 0 ==> !is_white_space(trim_spec(s)[0]) && !is_white_space(
            trim_spec(s).last(),
        ),
{
    lemma_trim_start(s);
    let i = choose|i: int| 0 <= i <= s.len() && trim_start_spec(s) == s.subrange(i, s.len() as int) && (forall|k: int|
        0 <= k < i ==> is_white_space(#[trigger] s[k])) && (trim_start_spec(s).len() > 0 ==> !is_white_space(
        trim_start_spec(s)[0],
    ));
    let u = trim_start_spec(s);
    lemma_trim_end(u);
    let j = choose|j: int| 0 <= j <= u.len() && trim_end_spec(u) == u.subrange(0, j) && (forall|k: int|
        j <= k < u.len() ==> is_white_space(#[trigger] u[k])) && (trim_end_spec(u).len() > 0 ==> !is_white_space(
        trim_end_spec(u).last(),
    ));
    assert(trim_spec(s) =~= s.subrange(i, i + j));
    assert forall|k: int| i + j <= k < s.len() implies is_white_space(#[trigger] s[k]) by {
        assert(u[k - i] == s[k]);
    }
    if trim_spec(s).len() > 0 {
        assert(trim_spec(s)[0] == u[0]);
    }
}

proof fn lemma_trim_start(s: Seq<char>)
    ensures
        exists|i: int|
            0 <= i <= s.len() && trim_start_spec(s) == s.subrange(i, s.len() as int) && (forall|k: int|
                0 <= k < i ==> is_white_space(#[trigger] s[k])) && (trim_start_spec(s).len() > 0 ==> !is_white_space(
                trim_start_spec(s)[0],
            )),
    decreases s.len(),
{
    if s.len() > 0 && is_white_space(s[0]) {
        let t = s.drop_first();
        lemma_trim_start(t);
        let i = choose|i: int|
            0 <= i <= t.len() && trim_start_spec(t) == t.subrange(i, t.len() as int) && (forall|k: int|
                0 <= k < i ==> is_white_space(#[trigger] t[k])) && (trim_start_spec(t).len() > 0
                ==> !is_white_space(trim_start_spec(t)[0]));
        assert(trim_start_spec(s) =~= s.subrange(i + 1, s.len() as int));
        assert forall|k: int| 0 <= k < i + 1 implies is_white_space(#[trigger] s[k]) by {
            if k > 0 {
                assert(s[k] == t[k - 1]);
            }
        }
    } else {
        assert(trim_start_spec(s) =~= s.subrange(0, s.len() as int));
    }
}

proof fn lemma_trim_end(s: Seq<char>)
    ensures
        exists|j: int|
            0 <= j <= s.len() && trim_end_spec(s) == s.subrange(0, j) && (forall|k: int|
                j <= k < s.len() ==> is_white_space(#[trigger] s[k])) && (trim_end_spec(s).len() > 0
                ==> !is_white_space(trim_end_spec(s).last())),
    decreases s.len(),
{
    if s.len() > 0 && is_white_space(s.last()) {
        let t = s.drop_last();
        lemma_trim_end(t);
        let j = choose|j: int|
            0 <= j <= t.len() && trim_end_spec(t) == t.subrange(0, j) && (forall|k: int|
                j <= k < t.len() ==> is_white_space(#[trigger] t[k])) && (trim_end_spec(t).len() > 0
                ==> !is_white_space(trim_end_spec(t).last()));
        assert(trim_end_spec(s) =~= s.subrange(0, j));
        assert forall|k: int| j <= k < s.len() implies is_white_space(#[trigger] s[k]) by {
            if k < s.len() - 1 {
                assert(s[k] == t[k]);
            }
        }
    } else {
        assert(trim_end_spec(s) =~= s.subrange(0, s.len() as int));
    }
}

/// Whether `c` has the Unicode `White_Space` property.
pub fn is_white_space_char(c: char) -> (r: bool)
    ensures
        r == is_white_space(c),
{
    let n: u32 = c as u32;
    (0x9 <= n && n <= 0xd) || n == 0x20 || n == 0x85 || n == 0xa0 || n == 0x1680 || (0x2000 <= n
        && n <= 0x200a) || n == 0x2028 || n == 0x2029 || n == 0x202f || n == 0x205f || n == 0x3000
}

/// The string with leading and trailing white space removed, as `str::trim` does.
pub fn trim(s: &str) -> (r: &str)
    ensures
        r@ == trim_spec(s@),
{
    let n: usize = s.unicode_len();
    let mut i: usize = 0;
    assert(s@.subrange(0, n as int) =~= s@);
    while i < n && is_white_space_char(s.get_char(i))
        invariant
            n == s@.len(),
            i <= n,
            trim_start_spec(s@) == trim_start_spec(s@.subrange(i as int, n as int)),
        decreases n - i,
    {
        proof {
            let sub = s@.subrange(i as int, n as int);
            assert(sub[0] == s@[i as int]);
            assert(sub.drop_first() =~= s@.subrange(i + 1, n as int));
        }
        i += 1;
    }
    proof {
        let sub = s@.subrange(i as int, n as int);
        if i < n {
            assert(sub[0] == s@[i as int]);
        }
        assert(trim_start_spec(s@) == sub);
    }
    let mut j: usize = n;
    while j > i && is_white_space_char(s.get_char(j - 1))
        invariant
            n == s@.len(),
            i <= j <= n,
            trim_end_spec(s@.subrange(i as int, n as int)) == trim_end_spec(s@.subrange(i as int, j as int)),
        decreases j,
    {
        proof {
            let sub = s@.subrange(i as int, j as int);
            assert(sub.last() == s@[j - 1]);
            assert(sub.drop_last() =~= s@.subrange(i as int, j - 1));
        }
        j -= 1;
    }
    proof {
        let sub = s@.subrange(i as int, j as int);
        if j > i {
            assert(sub.last() == s@[j - 1]);
        }
        assert(trim_end_spec(sub) == sub);
    }
    s.substring_char(i, j)
}

/// The pieces of `s` between occurrences of `sep`, as `str::split` yields them:
/// one piece more than there are separators, empty pieces included.
pub open spec fn split_spec(s: Seq<char>, sep: char) -> Seq<Seq<char>>
    decreases s.len(),
{
    if s.len() == 0 {
        seq![Seq::<char>::empty()]
    } else {
        let p = split_spec(s.drop_last(), sep);
        if s.last() == sep {
            p.push(Seq::<char>::empty())
        } else {
            p.update(p.len() - 1, p.last().push(s.last()))
        }
    }
}

pub proof fn lemma_split_len(s: Seq<char>, sep: char)
    ensures
        split_spec(s, sep).len() >= 1,
    decreases s.len(),
{
    if s.len() > 0 {
        lemma_split_len(s.drop_last(), sep);
    }
}

/// The views of a vector of strings.
pub open spec fn views(v: Seq<String>) -> Seq<Seq<char>> {
    v.map_values(|x: String| x@)
}

/// Splits `s` at every occurrence of `sep`.
pub fn split_char(s: &str, sep: char) -> (r: Vec<String>)
    ensures
        views(r@) == split_spec(s@, sep),
{
    let n = s.unicode_len();
    let mut pieces: Vec<String> = Vec::new();
    let mut start: usize = 0;
    let mut i: usize = 0;
    assert(s@.take(0) =~= Seq::<char>::empty());
    assert(views(pieces@).push(s@.subrange(0, 0)) =~= split_spec(s@.take(0), sep));
    while i < n
        invariant
            n == s@.len(),
            start <= i <= n,
            views(pieces@).push(s@.subrange(start as int, i as int)) == split_spec(
                s@.take(i as int),
                sep,
            ),
        decreases n - i,
    {
        let c = s.get_char(i);
        proof {
            assert(s@.take(i + 1).drop_last() =~= s@.take(i as int));
            assert(s@.take(i + 1).last() == c);
            lemma_split_len(s@.take(i as int), sep);
        }
        if c == sep {
            let piece = String::from_str(s.substring_char(start, i));
            let ghost old_views = views(pieces@);
            pieces.push(piece);
            assert(views(pieces@) =~= old_views.push(s@.subrange(start as int, i as int)));
            start = i + 1;
            assert(s@.subrange(start as int, (i + 1) as int) =~= Seq::<char>::empty());
            assert(views(pieces@).push(s@.subrange(start as int, (i + 1) as int)) =~= split_spec(
                s@.take(i + 1),
                sep,
            ));
        } else {
            let ghost p = split_spec(s@.take(i as int), sep);
            assert(s@.subrange(start as int, (i + 1) as int) =~= s@.subrange(
                start as int,
                i as int,
            ).push(c));
            assert(views(pieces@).push(s@.subrange(start as int, (i + 1) as int)) =~= p.update(
                p.len() - 1,
                p.last().push(c),
            ));
        }
        i += 1;
    }
    let last = String::from_str(s.substring_char(start, n));
    pieces.push(last);
    assert(s@.take(n as int) =~= s@);
    assert(views(pieces@) =~= split_spec(s@, sep));
    pieces
}

/// The first position of `c` in `s`, if there is one.
pub open spec fn is_first_index(s: Seq<char>, c: char, i: int) -> bool {
    &&& 0 <= i < s.len()
    &&& s[i] == c
    &&& forall|k: int| 0 <= k < i ==> s[k] != c
}

/// `str::split_once`: the text before and after the first occurrence of `c`.
pub open spec fn split_once_spec(s: Seq<char>, c: char) -> Option<(Seq<char>, Seq<char>)> {
    if s.contains(c) {
        let i = choose|i: int| is_first_index(s, c, i);
        Some((s.take(i), s.skip(i + 1)))
    } else {
        None
    }
}

pub proof fn lemma_first_index_unique(s: Seq<char>, c: char, i: int, j: int)
    requires
        is_first_index(s, c, i),
        is_first_index(s, c, j),
    ensures
        i == j,
{
    if i < j {
        assert(s[i] != c);
    } else if j < i {
        assert(s[j] != c);
    }
}

/// Splits `s` at the first occurrence of `c`.
pub fn split_once(s: &str, c: char) -> (r: Option<(String, String)>)
    ensures
        match r {
            Some((a, b)) => split_once_spec(s@, c) == Some((a@, b@)),
            None => split_once_spec(s@, c) is None,
        },
{
    let n = s.unicode_len();
    let mut i: usize = 0;
    while i < n
        invariant
            n == s@.len(),
            i <= n,
            forall|k: int| 0 <= k < i ==> s@[k] != c,
        decreases n - i,
    {
        if s.get_char(i) == c {
            let a = String::from_str(s.substring_char(0, i));
            let b = String::from_str(s.substring_char(i + 1, n));
            proof {
                assert(is_first_index(s@, c, i as int));
                assert(s@.contains(c));
                let j = choose|j: int| is_first_index(s@, c, j);
                lemma_first_index_unique(s@, c, i as int, j);
                assert(a@ =~= s@.take(i as int));
                assert(b@ =~= s@.skip(i + 1));
            }
            return Some((a, b));
        }
        i += 1;
    }
    proof {
        if s@.contains(c) {
            let k = choose|k: int| 0 <= k < s@.len() && s@[k] == c;
            assert(s@[k] != c);
        }
    }
    None
}

/// The text of a list of lines, each followed by a line feed.
pub open spec fn lines_spec(items: Seq<Seq<char>>) -> Seq<char>
    decreases items.len(),
{
    if items.len() == 0 {
        Seq::<char>::empty()
    } else {
        lines_spec(items.drop_last()) + items.last().push('\n')
    }
}

/// Writes each item on a line of its own.
pub fn to_string_lines(data: Vec<String>) -> (r: String)
    ensures
        r@ == lines_spec(views(data@)),
{
    let mut contents = String::new();
    let mut i: usize = 0;
    proof {
        reveal_strlit("\n");
        assert(views(data@).take(0) =~= Seq::<Seq<char>>::empty());
    }
    while i < data.len()
        invariant
            i <= data.len(),
            contents@ == lines_spec(views(data@).take(i as int)),
            "\n"@ == seq!['\n'],
        decreases data.len() - i,
    {
        contents.append(data[i].as_str());
        contents.append("\n");
        proof {
            assert(views(data@).take(i + 1).drop_last() =~= views(data@).take(i as int));
            assert(contents@ =~= lines_spec(views(data@).take(i + 1)));
        }
        i += 1;
    }
    assert(views(data@).take(data.len() as int) =~= views(data@));
    contents
}

pub open spec fn is_nonempty(l: Seq<char>) -> bool {
    l.len() > 0
}

/// The lines of a text that are not empty, in order.
pub open spec fn nonempty_lines_spec(s: Seq<char>) -> Seq<Seq<char>> {
    split_spec(s, '\n').filter(|l: Seq<char>| is_nonempty(l))
}

/// The strings of `v` that hold at least one character, in order.
pub fn keep_nonempty(v: &Vec<String>) -> (r: Vec<String>)
    ensures
        views(r@) == views(v@).filter(|l: Seq<char>| is_nonempty(l)),
{
    let ghost pred = |l: Seq<char>| is_nonempty(l);
    let mut r: Vec<String> = Vec::new();
    let mut i: usize = 0;
    proof {
        assert(views(v@).take(0) =~= Seq::<Seq<char>>::empty());
        reveal(Seq::filter);
        assert(views(v@).take(0).filter(pred) =~= Seq::<Seq<char>>::empty());
    }
    while i < v.len()
        invariant
            i <= v.len(),
            views(r@) == views(v@).take(i as int).filter(pred),
            pred == (|l: Seq<char>| is_nonempty(l)),
        decreases v.len() - i,
    {
        proof {
            assert(views(v@).take(i + 1) =~= views(v@).take(i as int).push(v@[i as int]@));
            views(v@).take(i as int).lemma_filter_push(v@[i as int]@, pred);
        }
        assert(views(v@)[i as int] == v@[i as int]@);
        if v[i].as_str().unicode_len() > 0 {
            let line = v[i].clone();
            let ghost old_views = views(r@);
            r.push(line);
            assert(views(r@) =~= old_views.push(v@[i as int]@));
        } else {
            assert(v@[i as int]@.len() == 0);
            assert(!is_nonempty(v@[i as int]@));
            assert(!pred(v@[i as int]@));
        }
        i += 1;
    }
    assert(views(v@).take(v.len() as int) =~= views(v@));
    r
}

/// The lines of `contents` that hold at least one character.
pub fn nonempty_lines(contents: &str) -> (r: Vec<String>)
    ensures
        views(r@) == nonempty_lines_spec(contents@),
{
    let all = split_char(contents, '\n');
    keep_nonempty(&all)
}

/// Each string trimmed.
pub open spec fn trim_all(ps: Seq<Seq<char>>) -> Seq<Seq<char>> {
    ps.map_values(|p: Seq<char>| trim_spec(p))
}

/// The pieces of `s` between occurrences of `sep`, each trimmed.
pub fn trimmed_pieces(s: &str, sep: char) -> (r: Vec<String>)
    ensures
        views(r@) == trim_all(split_spec(s@, sep)),
{
    let pieces = split_char(s, sep);
    let mut r: Vec<String> = Vec::new();
    let mut i: usize = 0;
    while i < pieces.len()
        invariant
            i <= pieces.len(),
            views(pieces@) == split_spec(s@, sep),
            views(r@) == trim_all(views(pieces@).take(i as int)),
        decreases pieces.len() - i,
    {
        let t = String::from_str(trim(pieces[i].as_str()));
        let ghost old_views = views(r@);
        r.push(t);
        proof {
            assert(views(pieces@)[i as int] == pieces@[i as int]@);
            assert(views(r@) =~= old_views.push(trim_spec(pieces@[i as int]@)));
            assert(views(pieces@).take(i + 1) =~= views(pieces@).take(i as int).push(pieces@[i as int]@));
            assert(views(r@) =~= trim_all(views(pieces@).take(i + 1)));
        }
        i += 1;
    }
    assert(views(pieces@).take(pieces.len() as int) =~= views(pieces@));
    r
}

/// The trimmed pieces of `s` between occurrences of `sep` that are not empty.
pub open spec fn fields_spec(s: Seq<char>, sep: char) -> Seq<Seq<char>> {
    trim_all(split_spec(s, sep)).filter(|l: Seq<char>| is_nonempty(l))
}

/// The trimmed pieces of `s` between occurrences of `sep` that are not empty.
pub fn nonempty_fields(s: &str, sep: char) -> (r: Vec<String>)
    ensures
        views(r@) == fields_spec(s@, sep),
{
    let pieces = trimmed_pieces(s, sep);
    keep_nonempty(&pieces)
}

// ---------------------------------------------------------------------------
// Decimal integers.
pub open spec fn is_digit(c: char) -> bool {
    '0' <= c && c <= '9'
}

pub open spec fn digit_value(c: char) -> int {
    (c as int) - ('0' as int)
}

pub open spec fn all_digits(s: Seq<char>) -> bool {
    forall|i: int| 0 <= i < s.len() ==> is_digit(s[i])
}

/// The value of a string of decimal digits.
pub open spec fn digits_value(s: Seq<char>) -> int
    decreases s.len(),
{
    if s.len() == 0 {
        0
    } else {
        digits_value(s.drop_last()) * 10 + digit_value(s.last())
    }
}

/// The integer that `str::parse` reads from `s`: an optional `+` or `-`
/// followed by at least one decimal digit and nothing else.
pub open spec fn parse_int_spec(s: Seq<char>) -> Option<int> {
    if s.len() > 1 && (s[0] == '-' || s[0] == '+') && all_digits(s.drop_first()) {
        if s[0] == '-' {
            Some(-digits_value(s.drop_first()))
        } else {
            Some(digits_value(s.drop_first()))
        }
    } else if s.len() > 0 && all_digits(s) {
        Some(digits_value(s))
    } else {
        None
    }
}

/// `i64::from_str`: the integer read from `s`, if it is one and fits.
pub open spec fn parse_i64_spec(s: Seq<char>) -> Option<i64> {
    match parse_int_spec(s) {
        Some(v) => if i64::MIN <= v <= i64::MAX {
            Some(v as i64)
        } else {
            None
        },
        None => None,
    }
}

proof fn lemma_digits_value_nonneg(s: Seq<char>)
    requires
        all_digits(s),
    ensures
        digits_value(s) >= 0,
    decreases s.len(),
{
    if s.len() > 0 {
        lemma_digits_value_nonneg(s.drop_last());
    }
}

proof fn lemma_digits_value_monotone(s: Seq<char>, i: int)
    requires
        all_digits(s),
        0 <= i <= s.len(),
    ensures
        digits_value(s.take(i)) <= digits_value(s),
    decreases s.len() - i,
{
    if i < s.len() {
        lemma_digits_value_monotone(s, i + 1);
        assert(s.take(i + 1).drop_last() =~= s.take(i));
        lemma_digits_value_nonneg(s.take(i));
    } else {
        assert(s.take(i) =~= s);
    }
}

/// Reads the digits `s[from..]`; `None` where one is not a digit or the value
/// exceeds `bound`.
fn read_digits(s: &str, from: usize, bound: u64) -> (r: Option<u64>)
    requires
        from <= s@.len(),
        bound >= 9,
    ensures
        match r {
            Some(v) => all_digits(s@.skip(from as int)) && v == digits_value(s@.skip(from as int))
                && v <= bound,
            None => !all_digits(s@.skip(from as int)) || digits_value(s@.skip(from as int))
                > bound,
        },
{
    let n = s.unicode_len();
    let ghost t = s@.skip(from as int);
    let mut acc: u64 = 0;
    let mut i: usize = from;
    assert(t.take(0) =~= Seq::<char>::empty());
    while i < n
        invariant
            n == s@.len(),
            from <= i <= n,
            t == s@.skip(from as int),
            all_digits(t.take(i - from)),
            acc == digits_value(t.take(i - from)),
            acc <= bound,
            bound >= 9,
        decreases n - i,
    {
        let c = s.get_char(i);
        assert(t[i - from] == c);
        if !('0' <= c && c <= '9') {
            assert(!all_digits(t));
            return None;
        }
        let d: u64 = (c as u32 - '0' as u32) as u64;
        assert(d <= 9 && d == digit_value(c));
        proof {
            assert(t.take(i - from + 1).drop_last() =~= t.take(i - from));
            assert(all_digits(t.take(i - from + 1)));
        }
        if acc > (bound - d) / 10 {
            proof {
                assert(digits_value(t.take(i - from + 1)) == acc * 10 + d);
                assert(acc * 10 + d > bound) by (nonlinear_arith)
                    requires
                        acc > (bound - d) / 10,
                        d <= bound || d > bound,
                ;
                if all_digits(t) {
                    lemma_digits_value_monotone(t, i - from + 1);
                }
            }
            return None;
        }
        assert(acc * 10 + d <= bound) by (nonlinear_arith)
            requires
                acc <= (bound - d) / 10,
                d <= bound,
        ;
        acc = acc * 10 + d;
        i += 1;
    }
    assert(t.take(n - from) =~= t);
    Some(acc)
}

/// Reads a decimal `i64` as `str::parse::<i64>` does.
pub fn parse_i64(s: &str) -> (r: Option<i64>)
    ensures
        r == parse_i64_spec(s@),
{
    let n = s.unicode_len();
    if n == 0 {
        return None;
    }
    let c0 = s.get_char(0);
    if n > 1 && (c0 == '-' || c0 == '+') {
        assert(s@.skip(1) =~= s@.drop_first());
        if c0 == '-' {
            match read_digits(s, 1, 9223372036854775808u64) {
                Some(v) => {
                    if v == 9223372036854775808u64 {
                        Some(i64::MIN)
                    } else {
                        Some(-(v as i64))
                    }
                },
                None => None,
            }
        } else {
            match read_digits(s, 1, 9223372036854775807u64) {
                Some(v) => Some(v as i64),
                None => None,
            }
        }
    } else {
        assert(s@.skip(0) =~= s@);
        if n > 1 && (c0 == '-' || c0 == '+') {
            None
        } else {
            proof {
                if c0 == '-' || c0 == '+' {
                    assert(!is_digit(s@[0]));
                }
            }
            match read_digits(s, 0, 9223372036854775807u64) {
                Some(v) => Some(v as i64),
                None => None,
            }
        }
    }
}

/// The decimal digits of a natural number, without leading zeros.
pub open spec fn nat_text(n: nat) -> Seq<char>
    decreases n,
{
    if n < 10 {
        seq![digit_char(n)]
    } else {
        nat_text(n / 10).push(digit_char(n % 10))
    }
}

pub open spec fn digit_char(d: nat) -> char {
    if d == 0 {
        '0'
    } else if d == 1 {
        '1'
    } else if d == 2 {
        '2'
    } else if d == 3 {
        '3'
    } else if d == 4 {
        '4'
    } else if d == 5 {
        '5'
    } else if d == 6 {
        '6'
    } else if d == 7 {
        '7'
    } else if d == 8 {
        '8'
    } else {
        '9'
    }
}

/// The decimal text of an integer, with a `-` in front of a negative one.
pub open spec fn int_text(v: int) -> Seq<char> {
    if v < 0 {
        seq!['-'] + nat_text((-v) as nat)
    } else {
        nat_text(v as nat)
    }
}

fn digit_str(d: u64) -> (r: &'static str)
    requires
        d < 10,
    ensures
        r@ == seq![digit_char(d as nat)],
{
    proof {
        reveal_strlit("0");
        reveal_strlit("1");
        reveal_strlit("2");
        reveal_strlit("3");
        reveal_strlit("4");
        reveal_strlit("5");
        reveal_strlit("6");
        reveal_strlit("7");
        reveal_strlit("8");
        reveal_strlit("9");
    }
    if d == 0 {
        "0"
    } else if d == 1 {
        "1"
    } else if d == 2 {
        "2"
    } else if d == 3 {
        "3"
    } else if d == 4 {
        "4"
    } else if d == 5 {
        "5"
    } else if d == 6 {
        "6"
    } else if d == 7 {
        "7"
    } else if d == 8 {
        "8"
    } else {
        "9"
    }
}

fn u64_text(n: u64) -> (r: String)
    ensures
        r@ == nat_text(n as nat),
    decreases n,
{
    if n < 10 {
        String::from_str(digit_str(n))
    } else {
        let mut s = u64_text(n / 10);
        s.append(digit_str(n % 10));
        s
    }
}

/// Writes an `i64` in decimal, as its `Display` does.
pub fn i64_to_text(v: i64) -> (r: String)
    ensures
        r@ == int_text(v as int),
{
    if v < 0 {
        let m: u64 = if v == i64::MIN {
            9223372036854775808u64
        } else {
            (-v) as u64
        };
        let mut s = String::from_str("-");
        proof {
            reveal_strlit("-");
        }
        let t = u64_text(m);
        s.append(t.as_str());
        s
    } else {
        u64_text(v as u64)
    }
}

proof fn lemma_digit_char(d: nat)
    requires
        d < 10,
    ensures
        is_digit(digit_char(d)),
        digit_value(digit_char(d)) == d,
{
}

proof fn lemma_nat_text_digits(n: nat)
    ensures
        all_digits(nat_text(n)),
        digits_value(nat_text(n)) == n,
        nat_text(n).len() > 0,
    decreases n,
{
    lemma_digit_char(n % 10);
    if n < 10 {
        let t = nat_text(n);
        assert(t =~= seq![digit_char(n)]);
        assert(t.drop_last() =~= Seq::<char>::empty());
        assert(digits_value(t.drop_last()) == 0);
        assert(digits_value(t) == digits_value(t.drop_last()) * 10 + digit_value(t.last()));
        assert(n % 10 == n);
    } else {
        lemma_nat_text_digits(n / 10);
        let t = nat_text(n);
        assert(t.drop_last() =~= nat_text(n / 10));
        assert(t.last() == digit_char(n % 10));
        assert(digits_value(t) == digits_value(t.drop_last()) * 10 + digit_value(t.last()));
        assert(digits_value(t) == (n / 10) * 10 + n % 10);
    }
}

/// Writing an integer in decimal and reading it back gives the same integer.
pub proof fn lemma_i64_text_round_trip(v: i64)
    ensures
        parse_i64_spec(int_text(v as int)) == Some(v),
{
    if v < 0 {
        lemma_nat_text_digits((-v) as nat);
        let t = int_text(v as int);
        assert(t.drop_first() =~= nat_text((-v) as nat));
    } else {
        lemma_nat_text_digits(v as nat);
        assert(int_text(v as int)[0] != '-');
    }
}

/// The text of an integer is a sign or a digit in each place, and not empty.
pub proof fn lemma_int_text_chars(v: int)
    ensures
        int_text(v).len() > 0,
        forall|i: int| 0 <= i < int_text(v).len() ==> is_digit(#[trigger] int_text(v)[i]) || int_text(v)[i] == '-',
{
    if v < 0 {
        lemma_nat_text_digits((-v) as nat);
        let t = int_text(v);
        assert forall|i: int| 0 <= i < t.len() implies is_digit(#[trigger] t[i]) || t[i] == '-' by {
            if i > 0 {
                assert(t[i] == nat_text((-v) as nat)[i - 1]);
            }
        }
    } else {
        lemma_nat_text_digits(v as nat);
    }
}

/// Appending text that holds no separator extends the last piece.
pub proof fn lemma_split_append_plain(s: Seq<char>, t: Seq<char>, sep: char)
    requires
        !t.contains(sep),
    ensures
        split_spec(s + t, sep) == split_spec(s, sep).update(
            split_spec(s, sep).len() - 1,
            split_spec(s, sep).last() + t,
        ),
    decreases t.len(),
{
    lemma_split_len(s, sep);
    if t.len() == 0 {
        assert(s + t =~= s);
        assert(split_spec(s, sep).last() + t =~= split_spec(s, sep).last());
        assert(split_spec(s, sep).update(split_spec(s, sep).len() - 1, split_spec(s, sep).last() + t)
            =~= split_spec(s, sep));
    } else {
        let t0 = t.drop_last();
        let c = t.last();
        assert(!t0.contains(sep)) by {
            if t0.contains(sep) {
                let i = choose|i: int| 0 <= i < t0.len() && t0[i] == sep;
                assert(t[i] == sep);
            }
        }
        assert(c != sep) by {
            assert(t[t.len() - 1] == c);
        }
        lemma_split_append_plain(s, t0, sep);
        let u = s + t;
        assert(u.drop_last() =~= s + t0);
        assert(u.last() == c);
        let p = split_spec(s, sep);
        let q = split_spec(s + t0, sep);
        assert(q == p.update(p.len() - 1, p.last() + t0));
        assert(split_spec(u, sep) == q.update(q.len() - 1, q.last().push(c)));
        assert((p.last() + t0).push(c) =~= p.last() + t);
        assert(split_spec(u, sep) =~= p.update(p.len() - 1, p.last() + t));
    }
}

/// Splitting the text of lines that hold no line feed at line feeds gives the
/// lines back, and an empty piece after the last line feed.
pub proof fn lemma_split_lines(ls: Seq<Seq<char>>)
    requires
        forall|i: int| 0 <= i < ls.len() ==> !(#[trigger] ls[i]).contains('\n'),
    ensures
        split_spec(lines_spec(ls), '\n') == ls.push(Seq::<char>::empty()),
    decreases ls.len(),
{
    if ls.len() == 0 {
        assert(split_spec(Seq::<char>::empty(), '\n') =~= seq![Seq::<char>::empty()]);
        assert(ls.push(Seq::<char>::empty()) =~= seq![Seq::<char>::empty()]);
    } else {
        let init = ls.drop_last();
        let l = ls.last();
        assert forall|i: int| 0 <= i < init.len() implies !(#[trigger] init[i]).contains('\n') by {
            assert(init[i] == ls[i]);
        }
        lemma_split_len(lines_spec(init), '\n');
        lemma_split_lines(init);
        assert(!l.contains('\n')) by {
            assert(ls[ls.len() - 1] == l);
        }
        lemma_split_append_plain(lines_spec(init), l, '\n');
        let whole = lines_spec(ls);
        assert(whole =~= (lines_spec(init) + l).push('\n'));
        assert(whole.drop_last() =~= lines_spec(init) + l);
        assert(whole.last() == '\n');
        let p = init.push(Seq::<char>::empty());
        assert(p.last() + l =~= l);
        assert(p.update(p.len() - 1, l) =~= ls);
        assert(split_spec(whole, '\n') =~= ls.push(Seq::<char>::empty()));
    }
}

/// The lines that are not empty of the text of lines, none empty and none with
/// a line feed, are those lines.
pub proof fn lemma_nonempty_lines_of_lines(ls: Seq<Seq<char>>)
    requires
        forall|i: int| 0 <= i < ls.len() ==> !(#[trigger] ls[i]).contains('\n') && ls[i].len() > 0,
    ensures
        nonempty_lines_spec(lines_spec(ls)) == ls,
    decreases ls.len(),
{
    lemma_split_lines(ls);
    let pred = |l: Seq<char>| is_nonempty(l);
    ls.lemma_filter_push(Seq::<char>::empty(), pred);
    lemma_filter_all(ls, pred);
}

/// Keeping the items that all satisfy a predicate keeps them all.
pub proof fn lemma_filter_all<A>(s: Seq<A>, pred: spec_fn(A) -> bool)
    requires
        forall|i: int| 0 <= i < s.len() ==> pred(#[trigger] s[i]),
    ensures
        s.filter(pred) == s,
    decreases s.len(),
{
    if s.len() > 0 {
        let init = s.drop_last();
        assert forall|i: int| 0 <= i < init.len() implies pred(#[trigger] init[i]) by {
            assert(init[i] == s[i]);
        }
        lemma_filter_all(init, pred);
        init.lemma_filter_push(s.last(), pred);
        assert(init.push(s.last()) =~= s);
        assert(pred(s[s.len() - 1]));
    }
}

/// Text without the separator is a single piece.
pub proof fn lemma_split_plain(t: Seq<char>, sep: char)
    requires
        !t.contains(sep),
    ensures
        split_spec(t, sep) == seq![t],
{
    lemma_split_append_plain(Seq::<char>::empty(), t, sep);
    assert(Seq::<char>::empty() + t =~= t);
    assert(split_spec(Seq::<char>::empty(), sep) =~= seq![Seq::<char>::empty()]);
    assert(seq![Seq::<char>::empty()].update(0, Seq::<char>::empty() + t) =~= seq![t]);
}

/// A separator and then a piece without one add that piece.
pub proof fn lemma_split_push_field(s: Seq<char>, sep: char, t: Seq<char>)
    requires
        !t.contains(sep),
    ensures
        split_spec(s + seq![sep] + t, sep) == split_spec(s, sep).push(t),
{
    let u = s + seq![sep];
    assert(u =~= s.push(sep));
    assert(u.drop_last() =~= s);
    lemma_split_len(u, sep);
    lemma_split_append_plain(u, t, sep);
    let p = split_spec(u, sep);
    assert(p == split_spec(s, sep).push(Seq::<char>::empty()));
    assert(p.last() + t =~= t);
    assert(p.update(p.len() - 1, t) =~= split_spec(s, sep).push(t));
}

/// Text that neither starts nor ends with white space is its own trim.
pub proof fn lemma_trim_plain(s: Seq<char>)
    requires
        s.len() > 0 ==> !is_white_space(s[0]) && !is_white_space(s.last()),
    ensures
        trim_spec(s) == s,
{
}

/// The text of an integer is its own trim, and holds neither a comma nor a line
/// feed.
pub proof fn lemma_int_text_plain(v: int)
    ensures
        trim_spec(int_text(v)) == int_text(v),
        !int_text(v).contains(','),
        !int_text(v).contains('\n'),
{
    lemma_int_text_chars(v);
    let t = int_text(v);
    assert(is_digit(t[0]) || t[0] == '-');
    assert(is_digit(t[t.len() - 1]) || t[t.len() - 1] == '-');
    lemma_trim_plain(t);
    if t.contains(',') {
        let k = choose|k: int| 0 <= k < t.len() && t[k] == ',';
        assert(is_digit(t[k]) || t[k] == '-');
    }
    if t.contains('\n') {
        let k = choose|k: int| 0 <= k < t.len() && t[k] == '\n';
        assert(is_digit(t[k]) || t[k] == '-');
    }
}

/// The order of `str`: lexicographic on code points.
pub open spec fn text_less(a: Seq<char>, b: Seq<char>) -> bool
    decreases a.len(),
{
    if a.len() == 0 {
        b.len() > 0
    } else if b.len() == 0 {
        false
    } else if a[0] == b[0] {
        text_less(a.drop_first(), b.drop_first())
    } else {
        (a[0] as int) < (b[0] as int)
    }
}

/// Each text comes before every later one.
pub open spec fn texts_sorted(s: Seq<Seq<char>>) -> bool {
    forall|i: int, j: int| 0 <= i < j < s.len() ==> text_less(#[trigger] s[i], #[trigger] s[j])
}

pub proof fn lemma_text_less_irreflexive(a: Seq<char>)
    ensures
        !text_less(a, a),
    decreases a.len(),
{
    if a.len() > 0 {
        lemma_text_less_irreflexive(a.drop_first());
    }
}

pub proof fn lemma_text_less_total(a: Seq<char>, b: Seq<char>)
    requires
        a != b,
    ensures
        text_less(a, b) || text_less(b, a),
    decreases a.len(),
{
    if a.len() == 0 && b.len() == 0 {
        assert(a =~= b);
    } else if a.len() > 0 && b.len() > 0 && a[0] == b[0] {
        if a.drop_first() == b.drop_first() {
            assert(a =~= seq![a[0]] + a.drop_first());
            assert(b =~= seq![b[0]] + b.drop_first());
        }
        lemma_text_less_total(a.drop_first(), b.drop_first());
    }
}

pub proof fn lemma_text_less_trans(a: Seq<char>, b: Seq<char>, c: Seq<char>)
    requires
        text_less(a, b),
        text_less(b, c),
    ensures
        text_less(a, c),
    decreases a.len(),
{
    if a.len() > 0 && b.len() > 0 && c.len() > 0 && a[0] == b[0] && b[0] == c[0] {
        lemma_text_less_trans(a.drop_first(), b.drop_first(), c.drop_first());
    }
}

/// Whether `a` comes before `b` in the order of `str`.
pub fn text_less_exec(a: &str, b: &str) -> (r: bool)
    ensures
        r == text_less(a@, b@),
{
    let na: usize = a.unicode_len();
    let nb: usize = b.unicode_len();
    let mut i: usize = 0;
    assert(a@.skip(0) =~= a@);
    assert(b@.skip(0) =~= b@);
    while i < na && i < nb
        invariant
            na == a@.len(),
            nb == b@.len(),
            i <= na,
            i <= nb,
            text_less(a@, b@) == text_less(a@.skip(i as int), b@.skip(i as int)),
        decreases na - i,
    {
        let ca = a.get_char(i);
        let cb = b.get_char(i);
        proof {
            assert(a@.skip(i as int)[0] == ca);
            assert(b@.skip(i as int)[0] == cb);
            assert(a@.skip(i as int).drop_first() =~= a@.skip(i + 1));
            assert(b@.skip(i as int).drop_first() =~= b@.skip(i + 1));
        }
        if ca != cb {
            return ca < cb;
        }
        i += 1;
    }
    i == na && i < nb
}

/// The texts of `v` in the order of `str`.
pub fn sorted_texts(v: &Vec<String>) -> (r: Vec<String>)
    requires
        views(v@).no_duplicates(),
    ensures
        texts_sorted(views(r@)),
        views(r@).no_duplicates(),
        forall|a: Seq<char>| #[trigger] views(r@).contains(a) <==> views(v@).contains(a),
{
    let mut r: Vec<String> = Vec::new();
    let mut i: usize = 0;
    while i < v.len()
        invariant
            i <= v.len(),
            views(v@).no_duplicates(),
            texts_sorted(views(r@)),
            forall|a: Seq<char>| #[trigger] views(r@).contains(a) <==> views(v@).take(i as int).contains(a),
        decreases v.len() - i,
    {
        let x = v[i].clone();
        let mut p: usize = 0;
        while p < r.len() && !text_less_exec(x.as_str(), r[p].as_str())
            invariant
                p <= r.len(),
                forall|k: int| 0 <= k < p ==> !text_less(x@, #[trigger] views(r@)[k]),
            decreases r.len() - p,
        {
            p += 1;
        }
        let ghost s = views(r@);
        proof {
            assert forall|a: Seq<char>| s.contains(a) <==> views(v@).take(i as int).contains(a) by {
                assert(views(r@).contains(a) <==> views(v@).take(i as int).contains(a));
            }
            assert(views(v@)[i as int] == x@);
            if s.contains(x@) {
                let m = choose|m: int| 0 <= m < i && views(v@).take(i as int)[m] == x@;
                assert(views(v@)[m] == views(v@)[i as int]);
            }
        }
        r.insert(p, x);
        proof {
            let n = views(r@);
            assert(n =~= s.insert(p as int, x@));
            assert forall|a: int, b: int| 0 <= a < b < n.len() implies text_less(#[trigger] n[a], #[trigger] n[b]) by {
                if b < p {
                    assert(n[a] == s[a] && n[b] == s[b]);
                } else if b == p {
                    assert(n[a] == s[a]);
                    assert(!text_less(x@, s[a]));
                    assert(s.contains(s[a]));
                    lemma_text_less_total(x@, s[a]);
                } else if a > p {
                    assert(n[a] == s[a - 1] && n[b] == s[b - 1]);
                } else if a == p {
                    assert(n[b] == s[b - 1]);
                    assert(text_less(x@, s[p as int]));
                    if b - 1 > p {
                        lemma_text_less_trans(x@, s[p as int], s[b - 1]);
                    }
                } else {
                    assert(n[a] == s[a] && n[b] == s[b - 1]);
                }
            }
            assert(views(v@).take(i + 1) =~= views(v@).take(i as int).push(x@));
            assert forall|a: Seq<char>| #[trigger] n.contains(a) <==> views(v@).take(i + 1).contains(a) by {
                let t = views(v@).take(i as int);
                let t1 = views(v@).take(i + 1);
                assert(t1[i as int] == x@);
                if a == x@ {
                    assert(n[p as int] == a);
                    assert(t1.contains(a));
                } else {
                    if n.contains(a) {
                        let k = choose|k: int| 0 <= k < n.len() && n[k] == a;
                        if k < p {
                            assert(s[k] == a);
                        } else {
                            assert(s[k - 1] == a);
                        }
                        assert(s.contains(a));
                        assert(t.contains(a));
                        let m = choose|m: int| 0 <= m < i && t[m] == a;
                        assert(t1[m] == a);
                    }
                    if t1.contains(a) {
                        let k = choose|k: int| 0 <= k < i + 1 && t1[k] == a;
                        assert(k < i);
                        assert(t[k] == a);
                        assert(t.contains(a));
                        assert(s.contains(a));
                        let m = choose|m: int| 0 <= m < s.len() && s[m] == a;
                        if m < p {
                            assert(n[m] == a);
                        } else {
                            assert(n[m + 1] == a);
                        }
                    }
                }
            }
        }
        i += 1;
    }
    proof {
        assert(views(v@).take(v@.len() as int) =~= views(v@));
        assert forall|a: int, b: int| 0 <= a < b < views(r@).len() implies views(r@)[a] != views(r@)[b] by {
            lemma_text_less_irreflexive(views(r@)[a]);
        }
    }
    r
}

} // verus!
