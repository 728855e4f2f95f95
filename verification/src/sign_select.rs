//! Which activities a sign-in run handles or lists, and what it says when none is left.
use crate::activity::{Activity, ActivityView};
use crate::model::Course;
use crate::text::{i64_to_text, int_text};
use vstd::prelude::*;

verus! {

/// Whether a run handles activity `a`: a sign-in that is still open (or any
/// sign-in where `all`), and, where an id is given, the one with that id.
pub open spec fn sign_selected(a: ActivityView, all: bool, active_id: Option<i64>) -> bool {
    &&& a.is_sign
    &&& all || a.valid
    &&& match active_id {
        Some(id) => a.id == int_text(id as int),
        None => true,
    }
}

/// Whether a listing shows activity `a`: a sign-in that is still open, or any
/// sign-in where `all`.
pub open spec fn sign_listed(a: ActivityView, all: bool) -> bool {
    a.is_sign && (all || a.valid)
}

/// The positions, in order, of the first `n` activities for which `p` holds.
pub open spec fn positions_where(acts: Seq<Activity>, n: int, p: spec_fn(ActivityView) -> bool) -> Seq<usize>
    decreases n,
{
    if n <= 0 {
        Seq::<usize>::empty()
    } else if p(acts[n - 1]@) {
        positions_where(acts, n - 1, p).push((n - 1) as usize)
    } else {
        positions_where(acts, n - 1, p)
    }
}

/// The positions that `positions_where` keeps are, in increasing order, exactly
/// those below `n` whose activity `p` admits.
pub proof fn lemma_positions_where(acts: Seq<Activity>, n: int, p: spec_fn(ActivityView) -> bool)
    requires
        0 <= n <= acts.len(),
        acts.len() <= usize::MAX,
    ensures
        forall|k: int| 0 <= k < positions_where(acts, n, p).len() ==> {
            let i = #[trigger] positions_where(acts, n, p)[k];
            &&& i < n
            &&& p(acts[i as int]@)
        },
        forall|k: int, m: int| 0 <= k < m < positions_where(acts, n, p).len() ==> #[trigger] positions_where(acts, n, p)[k]
            < #[trigger] positions_where(acts, n, p)[m],
        forall|i: int| 0 <= i < n && p(acts[i]@) ==> #[trigger] positions_where(acts, n, p).contains(i as usize),
    decreases n,
{
    if n > 0 {
        lemma_positions_where(acts, n - 1, p);
        let prev = positions_where(acts, n - 1, p);
        let cur = positions_where(acts, n, p);
        if p(acts[n - 1]@) {
            assert(cur == prev.push((n - 1) as usize));
            assert(cur[prev.len() as int] == (n - 1) as usize);
            assert forall|k: int| 0 <= k < cur.len() implies {
                let i = #[trigger] cur[k];
                &&& i < n
                &&& p(acts[i as int]@)
            } by {
                if k < prev.len() {
                    assert(cur[k] == prev[k]);
                }
            }
            assert forall|k: int, m: int| 0 <= k < m < cur.len() implies #[trigger] cur[k] < #[trigger] cur[m] by {
                assert(cur[k] == prev[k]);
                if m < prev.len() {
                    assert(cur[m] == prev[m]);
                }
            }
            assert forall|i: int| 0 <= i < n && p(acts[i]@) implies #[trigger] positions_where(acts, n, p).contains(
                i as usize,
            ) by {
                if i < n - 1 {
                    assert(prev.contains(i as usize));
                    let k = choose|k: int| 0 <= k < prev.len() && prev[k] == i as usize;
                    assert(positions_where(acts, n, p)[k] == i as usize);
                }
            }
        } else {
            assert(cur == prev);
        }
    }
}

/// Every activity that a run selects is a sign-in, open unless `all`, and, where
/// an id is given, the one with that id; every such sign-in is selected.
pub proof fn lemma_selected_are_signs(acts: Seq<Activity>, all: bool, active_id: Option<i64>)
    requires
        acts.len() <= usize::MAX,
    ensures
        ({
            let s = positions_where(acts, acts.len() as int, |a: ActivityView| sign_selected(a, all, active_id));
            &&& forall|k: int| 0 <= k < s.len() ==> {
                let a = acts[#[trigger] s[k] as int]@;
                &&& s[k] < acts.len()
                &&& a.is_sign
                &&& all || a.valid
                &&& active_id matches Some(id) ==> a.id == int_text(id as int)
            }
            &&& forall|i: int| 0 <= i < acts.len() && acts[i]@.is_sign && (all || acts[i]@.valid) && (
            active_id matches Some(id) ==> acts[i]@.id == int_text(id as int)) ==> s.contains(i as usize)
        }),
{
    let p = |a: ActivityView| sign_selected(a, all, active_id);
    lemma_positions_where(acts, acts.len() as int, p);
}

/// A listing shows only sign-ins, open unless `all`, and every such one.
pub proof fn lemma_listed_are_signs(acts: Seq<Activity>, all: bool)
    requires
        acts.len() <= usize::MAX,
    ensures
        ({
            let s = positions_where(acts, acts.len() as int, |a: ActivityView| sign_listed(a, all));
            &&& forall|k: int| 0 <= k < s.len() ==> {
                let a = acts[#[trigger] s[k] as int]@;
                &&& s[k] < acts.len()
                &&& a.is_sign
                &&& all || a.valid
            }
            &&& forall|i: int| 0 <= i < acts.len() && acts[i]@.is_sign && (all || acts[i]@.valid) ==> s.contains(
                i as usize,
            )
        }),
{
    let p = |a: ActivityView| sign_listed(a, all);
    lemma_positions_where(acts, acts.len() as int, p);
}

/// A run from the cache looks at exactly the activities of the given course, in
/// order, or at every activity where none is given.
pub proof fn lemma_activities_of_course(acts: Seq<Activity>, course: Option<Course>)
    requires
        acts.len() <= usize::MAX,
    ensures
        ({
            let s = positions_where(
                acts,
                acts.len() as int,
                |a: ActivityView| course matches Some(c) ==> a.course == c,
            );
            &&& forall|k: int| 0 <= k < s.len() ==> #[trigger] s[k] < acts.len() && (course matches Some(c)
                ==> acts[s[k] as int]@.course == c)
            &&& forall|k: int, m: int| 0 <= k < m < s.len() ==> #[trigger] s[k] < #[trigger] s[m]
            &&& forall|i: int| #![trigger acts[i]] 0 <= i < acts.len() && (course matches Some(c) ==> acts[i]@.course == c) ==> s.contains(
                i as usize,
            )
        }),
{
    let p = |a: ActivityView| course matches Some(c) ==> a.course == c;
    lemma_positions_where(acts, acts.len() as int, p);
}

/// What a run is to do.
pub enum SignSelection {
    /// Handle the activities at these positions, in this order.
    Signs(Vec<usize>),
    /// An id was given and no sign-in has it: the run stops with an error, which
    /// names the accounts where some were given.
    NoSuchActivity { has_uid_arg: bool },
    /// No sign-in is left to handle.
    Empty,
}

/// The positions of the activities that `p` admits.
fn positions_of_activities(acts: &Vec<Activity>, all: bool, active_id: Option<i64>, listing: bool) -> (r: Vec<usize>)
    ensures
        listing ==> r@ == positions_where(acts@, acts@.len() as int, |a: ActivityView| sign_listed(a, all)),
        !listing ==> r@ == positions_where(acts@, acts@.len() as int, |a: ActivityView| sign_selected(a, all, active_id)),
{
    let ghost p = if listing {
        |a: ActivityView| sign_listed(a, all)
    } else {
        |a: ActivityView| sign_selected(a, all, active_id)
    };
    let id_text: Option<String> = match active_id {
        Some(id) => Some(i64_to_text(id)),
        None => None,
    };
    let mut r: Vec<usize> = Vec::new();
    let mut i: usize = 0;
    while i < acts.len()
        invariant
            i <= acts@.len(),
            r@ == positions_where(acts@, i as int, p),
            p == (if listing {
                |a: ActivityView| sign_listed(a, all)
            } else {
                |a: ActivityView| sign_selected(a, all, active_id)
            }),
            match active_id {
                Some(id) => id_text matches Some(t) && t@ == int_text(id as int),
                None => id_text is None,
            },
        decreases acts.len() - i,
    {
        let a = &acts[i];
        let id_ok = if listing {
            true
        } else {
            match &id_text {
                Some(t) => a.id == *t,
                None => true,
            }
        };
        if a.is_sign && (all || a.valid) && id_ok {
            r.push(i);
        }
        i += 1;
    }
    r
}

/// The activities that a run handles, as `sign_selected` states, or why there are
/// none.
pub fn select_signs(acts: &Vec<Activity>, all: bool, active_id: Option<i64>, has_uid_arg: bool) -> (r:
    SignSelection)
    ensures
        ({
            let s = positions_where(acts@, acts@.len() as int, |a: ActivityView| sign_selected(a, all, active_id));
            match r {
                SignSelection::Signs(ix) => s.len() > 0 && ix@ == s,
                SignSelection::NoSuchActivity { has_uid_arg: h } => s.len() == 0 && active_id is Some
                    && h == has_uid_arg,
                SignSelection::Empty => s.len() == 0 && active_id is None,
            }
        }),
{
    let ix = positions_of_activities(acts, all, active_id, false);
    if ix.len() > 0 {
        SignSelection::Signs(ix)
    } else if active_id.is_some() {
        SignSelection::NoSuchActivity { has_uid_arg }
    } else {
        SignSelection::Empty
    }
}

/// The activities that a listing shows, as `sign_listed` states.
pub fn listed_signs(acts: &Vec<Activity>, all: bool) -> (r: Vec<usize>)
    ensures
        r@ == positions_where(acts@, acts@.len() as int, |a: ActivityView| sign_listed(a, all)),
{
    positions_of_activities(acts, all, None, true)
}

/// The activities that a run from the cache looks at: those of `course` where one
/// is given, else all of them.
pub fn activities_of_course(acts: &Vec<Activity>, course: Option<Course>) -> (r: Vec<usize>)
    ensures
        r@ == positions_where(
            acts@,
            acts@.len() as int,
            |a: ActivityView| course matches Some(c) ==> a.course == c,
        ),
{
    let ghost p = |a: ActivityView| course matches Some(c) ==> a.course == c;
    let mut r: Vec<usize> = Vec::new();
    let mut i: usize = 0;
    while i < acts.len()
        invariant
            i <= acts@.len(),
            p == (|a: ActivityView| course matches Some(c) ==> a.course == c),
            r@ == positions_where(acts@, i as int, p),
        decreases acts.len() - i,
    {
        let keep = match course {
            Some(c) => acts[i].course.course_id == c.course_id && acts[i].course.class_id == c.class_id,
            None => true,
        };
        if keep {
            r.push(i);
        }
        i += 1;
    }
    r
}

/// The kinds of sign-in that the service tells apart.
pub enum SignKind {
    Photo,
    Normal,
    QrCode,
    Gesture,
    Signcode,
    Location,
    Unknown,
}

/// How a sign-in of a given kind is handled.
pub enum SignPlan {
    /// Sign with a photo.
    Photo,
    /// Sign as a plain sign-in; unknown kinds are handled so as well.
    Normal,
    /// Sign with a QR code.
    QrCode,
    /// Sign a gesture or sign-code sign-in with this code.
    WithCode(String),
    /// A gesture or sign-code sign-in with no code given: no account is signed in,
    /// and the run says why.
    MissingCode { gesture: bool },
    /// Sign at a position.
    Location,
}

/// How a sign-in of kind `kind` is handled, given the code `signcode` of the
/// run: a gesture or sign-code sign-in needs the code, and without one nobody
/// is signed in; an unknown kind is handled as a plain sign-in.
pub fn sign_plan(kind: SignKind, signcode: Option<String>) -> (r: SignPlan)
    ensures
        match kind {
            SignKind::Photo => r is Photo,
            SignKind::Normal => r is Normal,
            SignKind::QrCode => r is QrCode,
            SignKind::Location => r is Location,
            SignKind::Unknown => r is Normal,
            SignKind::Gesture => match signcode {
                Some(code) => r matches SignPlan::WithCode(c) && c@ == code@,
                None => r matches SignPlan::MissingCode { gesture } && gesture,
            },
            SignKind::Signcode => match signcode {
                Some(code) => r matches SignPlan::WithCode(c) && c@ == code@,
                None => r matches SignPlan::MissingCode { gesture } && !gesture,
            },
        },
{
    match kind {
        SignKind::Photo => SignPlan::Photo,
        SignKind::Normal => SignPlan::Normal,
        SignKind::QrCode => SignPlan::QrCode,
        SignKind::Location => SignPlan::Location,
        SignKind::Unknown => SignPlan::Normal,
        SignKind::Gesture => match signcode {
            Some(code) => SignPlan::WithCode(code),
            None => SignPlan::MissingCode { gesture: true },
        },
        SignKind::Signcode => match signcode {
            Some(code) => SignPlan::WithCode(code),
            None => SignPlan::MissingCode { gesture: false },
        },
    }
}

/// What a run says when a gesture (`gesture`) or sign-code sign-in named `name`
/// was given no code.
pub open spec fn missing_code_text(gesture: bool, name: Seq<char>) -> Seq<char> {
    (if gesture {
        "所有用户在手势签到["@
    } else {
        "所有用户在签到码签到["@
    }) + name + "]中签到失败！需要提供签到码！"@
}

/// The message of `SignPlan::MissingCode` for the sign-in named `name`.
pub fn missing_code_message(gesture: bool, name: &str) -> (r: String)
    ensures
        r@ == missing_code_text(gesture, name@),
{
    let mut s = if gesture {
        String::from_str("所有用户在手势签到[")
    } else {
        String::from_str("所有用户在签到码签到[")
    };
    s.append(name);
    s.append("]中签到失败！需要提供签到码！");
    s
}

} // verus!
