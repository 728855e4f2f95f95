//! The `account` and `accounts` commands.
use crate::account::{AccountData, AccountDataView, AccountTable};
use crate::config::cookies_key_spec;
use crate::course::{is_merge, CourseData, CourseDataView};
use crate::model::{Course, CourseInfo, CourseInfoView, GeoaddrView};
use crate::store::{CourseMap, Tables};
use crate::text::{split_once, split_once_spec};
use vstd::prelude::*;

verus! {

/// The `account` command.
pub enum AccountParser {
    /// Adds an account: `uname` is the phone number, or a login type, `:` and the
    /// name; `passwd` where given saves the question for it.
    Add { uname: String, passwd: Option<String> },
    /// Deletes the account of `uid`; `yes` skips the confirmation.
    Remove { uid: String, yes: bool },
}

/// The `accounts` command: lists the accounts, logging in anew where `fresh`.
pub struct AccountsParser {
    pub fresh: bool,
}

/// What the `account` command does to the store.
pub struct AccountCmdApp;

/// How an account name is read: a login type and the name, where the text holds a
/// `:`; else the whole text with the default login type.
pub open spec fn login_of(uname: Seq<char>) -> (Option<Seq<char>>, Seq<char>) {
    match split_once_spec(uname, ':') {
        Some((t, n)) => (Some(t), n),
        None => (None, uname),
    }
}

/// What logging an account in gave back: its uid, the name the service knows
/// it by, the encrypted password, the login type and the session's cookies.
pub struct LoggedIn {
    pub uid: String,
    pub name: String,
    pub enc_pwd: String,
    pub login_type: String,
    pub cookies: String,
}

/// Whether course `c` is among the fetched ones.
pub open spec fn fetched_at(fetched: Seq<(Course, CourseInfo)>, c: Course) -> bool {
    exists|i: int| 0 <= i < fetched.len() && #[trigger] fetched[i].0 == c
}

/// Whether the course fetched at `i` is fetched again later.
pub open spec fn fetched_later(fetched: Seq<(Course, CourseInfo)>, i: int) -> bool {
    exists|j: int| i < j < fetched.len() && #[trigger] fetched[j].0 == fetched[i].0
}

/// Whether `e` is what is stored for course `c` once the account `uid` has been
/// filed as one of its users: the info fetched last, never used, its users
/// before and `uid`, its places before, each once.
pub open spec fn entry_after_login(
    e: (CourseInfoView, CourseDataView),
    info: CourseInfoView,
    old: CourseMap,
    c: Course,
    uid: Seq<char>,
) -> bool {
    &&& e.0 == info
    &&& e.1.recently_used_timestamp_secs == u64::MAX
    &&& e.1.users.no_duplicates()
    &&& forall|u: Seq<char>| #[trigger] e.1.users.contains(u) <==> (u == uid || (old.contains_key(c)
        && old[c].1.users.contains(u)))
    &&& e.1.locations.no_duplicates()
    &&& forall|g: GeoaddrView| #[trigger] e.1.locations.contains(g) <==> (old.contains_key(c)
        && old[c].1.locations.contains(g))
}

/// Whether `r` is `old` after the account `uid` is filed as a user of each
/// fetched course in turn, as `merge_course` merges with the fetched info.
pub open spec fn courses_after_login(
    r: CourseMap,
    old: CourseMap,
    fetched: Seq<(Course, CourseInfo)>,
    uid: Seq<char>,
) -> bool {
    &&& forall|c: Course| #[trigger] r.contains_key(c) <==> (old.contains_key(c) || fetched_at(fetched, c))
    &&& forall|c: Course| #![trigger r[c]] old.contains_key(c) && !fetched_at(fetched, c) ==> r[c] == old[c]
    &&& forall|i: int|
        #![trigger fetched[i]]
        0 <= i < fetched.len() && !fetched_later(fetched, i) ==> entry_after_login(
            r[fetched[i].0],
            fetched[i].1@,
            old,
            fetched[i].0,
            uid,
        )
}

/// A course that is fetched at all is fetched a last time.
proof fn lemma_last_fetch(fetched: Seq<(Course, CourseInfo)>, c: Course)
    requires
        fetched_at(fetched, c),
    ensures
        exists|k: int| 0 <= k < fetched.len() && #[trigger] fetched[k].0 == c && !fetched_later(fetched, k),
    decreases fetched.len(),
{
    let n = fetched.len();
    if fetched[n - 1].0 == c {
        assert(!fetched_later(fetched, n - 1));
    } else {
        let init = fetched.drop_last();
        let i = choose|i: int| 0 <= i < n && #[trigger] fetched[i].0 == c;
        assert(init[i].0 == c);
        lemma_last_fetch(init, c);
        let k = choose|k: int| 0 <= k < init.len() && #[trigger] init[k].0 == c && !fetched_later(init, k);
        assert(fetched[k].0 == c);
        if fetched_later(fetched, k) {
            let j = choose|j: int| k < j < n && #[trigger] fetched[j].0 == fetched[k].0;
            assert(j < n - 1);
            assert(init[j].0 == init[k].0);
        }
    }
}

impl AccountCmdApp {
    /// The login type (none for the default one) and the name that `uname` gives.
    pub fn login_type_and_uname(uname: &str) -> (r: (Option<String>, String))
        ensures
            (match r.0 {
                Some(t) => Some(t@),
                None => None,
            }, r.1@) == login_of(uname@),
    {
        match split_once(uname, ':') {
            Some((t, n)) => (Some(t), n),
            None => (None, String::from_str(uname)),
        }
    }

    /// Deletes the account of `uid`; returns what was kept of it, `None` where
    /// there was none.
    pub fn remove(table: &mut AccountTable, uid: &str) -> (r: Option<AccountData>)
        requires
            old(table).wf(),
        ensures
            final(table).wf(),
            final(table)@ == old(table)@.remove(uid@),
            match r {
                Some(a) => old(table)@.contains_key(uid@) && a@ == old(table)@[uid@],
                None => !old(table)@.contains_key(uid@),
            },
    {
        table.delete_account(uid)
    }

    /// Takes in what logging in the account `uname` gave, and the courses then
    /// fetched for it where they could be: stores the session's cookies and the
    /// account under its uid, by the name that `uname` gives; then files the
    /// account as a user of each fetched course, as `courses_after_login` states.
    pub fn add_logged_in(
        db: &mut Tables,
        uname: &str,
        login: &LoggedIn,
        courses: Option<&Vec<(Course, CourseInfo)>>,
    )
        requires
            old(db).wf(),
        ensures
            final(db).wf(),
            final(db)@.accounts == old(db)@.accounts.insert(
                login.uid@,
                AccountDataView {
                    uname: login_of(uname@).1,
                    stu_name: login.name@,
                    enc_pwd: login.enc_pwd@,
                    login_type: login.login_type@,
                },
            ),
            final(db)@.common_data == old(db)@.common_data.insert(
                cookies_key_spec(login.uid@, login.login_type@),
                login.cookies@,
            ),
            match courses {
                Some(fetched) => courses_after_login(final(db)@.courses, old(db)@.courses, fetched@, login.uid@),
                None => final(db)@.courses == old(db)@.courses,
            },
            final(db)@.locations == old(db)@.locations,
            final(db)@.aliases == old(db)@.aliases,
            final(db)@.activities == old(db)@.activities,
            final(db)@.excludes == old(db)@.excludes,
    {
        let (_, name) = Self::login_type_and_uname(uname);
        db.common_data.store_cookies(login.cookies.clone(), login.uid.as_str(), login.login_type.as_str());
        let account = AccountData::new(name, login.name.clone(), login.enc_pwd.clone(), login.login_type.clone());
        db.accounts.add_account(login.uid.as_str(), &account);
        match courses {
            Some(fetched) => Self::file_user(db, login.uid.as_str(), fetched),
            None => {},
        }
    }

    /// Files the account `uid` as a user of each fetched course in turn.
    fn file_user(db: &mut Tables, uid: &str, fetched: &Vec<(Course, CourseInfo)>)
        requires
            old(db).wf(),
        ensures
            final(db).wf(),
            courses_after_login(final(db)@.courses, old(db)@.courses, fetched@, uid@),
            final(db)@.accounts == old(db)@.accounts,
            final(db)@.common_data == old(db)@.common_data,
            final(db)@.locations == old(db)@.locations,
            final(db)@.aliases == old(db)@.aliases,
            final(db)@.activities == old(db)@.activities,
            final(db)@.excludes == old(db)@.excludes,
    {
        let ghost start = db@;
        let mut i: usize = 0;
        while i < fetched.len()
            invariant
                i <= fetched@.len(),
                db.wf(),
                courses_after_login(db@.courses, start.courses, fetched@.take(i as int), uid@),
                db@.accounts == start.accounts,
                db@.common_data == start.common_data,
                db@.locations == start.locations,
                db@.aliases == start.aliases,
                db@.activities == start.activities,
                db@.excludes == start.excludes,
            decreases fetched.len() - i,
        {
            let c = fetched[i].0;
            let info = fetched[i].1.duplicate();
            let mut users: Vec<String> = Vec::new();
            users.push(String::from_str(uid));
            let data = CourseData::new(u64::MAX, users, Vec::new());
            let ghost prev = db@.courses;
            let ghost new = (info@, data@);
            assert(new.1.users =~= seq![uid@]);
            assert(new.1.locations =~= Seq::<GeoaddrView>::empty());
            let _ = db.courses.merge_course(&c, (info, data), true);
            proof {
                assert(db@.courses.dom() =~= prev.dom().insert(c));
                Self::lemma_file_step(db@.courses, prev, start.courses, fetched@, i as int, new, uid@);
            }
            i += 1;
        }
        assert(fetched@.take(fetched@.len() as int) =~= fetched@);
    }

    proof fn lemma_file_step(
        next: CourseMap,
        prev: CourseMap,
        old: CourseMap,
        fetched: Seq<(Course, CourseInfo)>,
        i: int,
        new: (CourseInfoView, CourseDataView),
        uid: Seq<char>,
    )
        requires
            0 <= i < fetched.len(),
            courses_after_login(prev, old, fetched.take(i), uid),
            new.0 == fetched[i].1@,
            new.1.recently_used_timestamp_secs == u64::MAX,
            new.1.users == seq![uid],
            new.1.locations == Seq::<GeoaddrView>::empty(),
            next.dom() == prev.dom().insert(fetched[i].0),
            forall|c: Course| c != fetched[i].0 && #[trigger] prev.contains_key(c) ==> next[c] == prev[c],
            prev.contains_key(fetched[i].0) ==> is_merge(next[fetched[i].0], prev[fetched[i].0], new, true),
            !prev.contains_key(fetched[i].0) ==> next[fetched[i].0] == new,
        ensures
            courses_after_login(next, old, fetched.take(i + 1), uid),
    {
        let t = fetched.take(i);
        let t1 = fetched.take(i + 1);
        let c = fetched[i].0;
        assert(t1[i] == fetched[i]);
        Self::lemma_step_keys(next, prev, old, fetched, i);
        Self::lemma_step_entry(next, prev, old, fetched, i, new, uid);
        assert forall|k: int| #![trigger t1[k]] 0 <= k < t1.len() && !fetched_later(t1, k) implies entry_after_login(
            next[t1[k].0],
            t1[k].1@,
            old,
            t1[k].0,
            uid,
        ) by {
            if k < i {
                assert(t1[k] == t[k]);
                if t[k].0 == c {
                    assert(t1[i].0 == t1[k].0);
                    assert(fetched_later(t1, k));
                }
                if fetched_later(t, k) {
                    let j = choose|j: int| k < j < t.len() && #[trigger] t[j].0 == t[k].0;
                    assert(t1[j].0 == t1[k].0);
                }
                assert(entry_after_login(prev[t[k].0], t[k].1@, old, t[k].0, uid));
                assert(prev.contains_key(t[k].0)) by {
                    assert(fetched_at(t, t[k].0));
                }
            }
        }
    }

    proof fn lemma_step_keys(
        next: CourseMap,
        prev: CourseMap,
        old: CourseMap,
        fetched: Seq<(Course, CourseInfo)>,
        i: int,
    )
        requires
            0 <= i < fetched.len(),
            forall|c: Course| #[trigger] prev.contains_key(c) <==> (old.contains_key(c) || fetched_at(fetched.take(i), c)),
            forall|c: Course| #![trigger prev[c]] old.contains_key(c) && !fetched_at(fetched.take(i), c) ==> prev[c] == old[c],
            next.dom() == prev.dom().insert(fetched[i].0),
            forall|c: Course| c != fetched[i].0 && #[trigger] prev.contains_key(c) ==> next[c] == prev[c],
        ensures
            forall|c: Course| #[trigger] next.contains_key(c) <==> (old.contains_key(c) || fetched_at(fetched.take(i + 1), c)),
            forall|c: Course| #![trigger next[c]] old.contains_key(c) && !fetched_at(fetched.take(i + 1), c) ==> next[c] == old[c],
    {
        let t = fetched.take(i);
        let t1 = fetched.take(i + 1);
        let c = fetched[i].0;
        assert(t1[i].0 == c);
        assert forall|d: Course| #[trigger] next.contains_key(d) <==> (old.contains_key(d) || fetched_at(t1, d)) by {
            if fetched_at(t, d) {
                let k = choose|k: int| 0 <= k < t.len() && #[trigger] t[k].0 == d;
                assert(t1[k].0 == d);
            }
            if fetched_at(t1, d) && d != c {
                let k = choose|k: int| 0 <= k < t1.len() && #[trigger] t1[k].0 == d;
                assert(t[k].0 == d);
            }
            if d == c {
                assert(next.dom().contains(d));
            }
        }
        assert forall|d: Course| #![trigger next[d]] old.contains_key(d) && !fetched_at(t1, d) implies next[d] == old[d] by {
            assert(d != c);
            if fetched_at(t, d) {
                let k = choose|k: int| 0 <= k < t.len() && #[trigger] t[k].0 == d;
                assert(t1[k].0 == d);
            }
            assert(prev.contains_key(d));
        }
    }

    proof fn lemma_step_entry(
        next: CourseMap,
        prev: CourseMap,
        old: CourseMap,
        fetched: Seq<(Course, CourseInfo)>,
        i: int,
        new: (CourseInfoView, CourseDataView),
        uid: Seq<char>,
    )
        requires
            0 <= i < fetched.len(),
            courses_after_login(prev, old, fetched.take(i), uid),
            new.0 == fetched[i].1@,
            new.1.recently_used_timestamp_secs == u64::MAX,
            new.1.users == seq![uid],
            new.1.locations == Seq::<GeoaddrView>::empty(),
            prev.contains_key(fetched[i].0) ==> is_merge(next[fetched[i].0], prev[fetched[i].0], new, true),
            !prev.contains_key(fetched[i].0) ==> next[fetched[i].0] == new,
        ensures
            entry_after_login(next[fetched[i].0], fetched[i].1@, old, fetched[i].0, uid),
    {
        let t = fetched.take(i);
        let c = fetched[i].0;
        let e = next[c];
        assert(new.1.users[0] == uid);
        assert forall|u: Seq<char>| new.1.users.contains(u) <==> u == uid by {
            if new.1.users.contains(u) {
                let k = choose|k: int| 0 <= k < new.1.users.len() && new.1.users[k] == u;
                assert(k == 0);
            }
        }
        if prev.contains_key(c) {
            if fetched_at(t, c) {
                lemma_last_fetch(t, c);
                let k = choose|k: int| 0 <= k < t.len() && #[trigger] t[k].0 == c && !fetched_later(t, k);
                assert(entry_after_login(prev[t[k].0], t[k].1@, old, t[k].0, uid));
            } else {
                assert(old.contains_key(c));
                assert(prev[c] == old[c]);
            }
            assert forall|u: Seq<char>| #[trigger] e.1.users.contains(u) <==> (u == uid || (old.contains_key(c)
                && old[c].1.users.contains(u))) by {
                assert(new.1.users.contains(u) <==> u == uid);
            }
            assert forall|g: GeoaddrView| #[trigger] e.1.locations.contains(g) <==> (old.contains_key(c)
                && old[c].1.locations.contains(g)) by {
                assert(!new.1.locations.contains(g));
            }
        } else {
            assert(!old.contains_key(c));
            assert forall|u: Seq<char>| #[trigger] e.1.users.contains(u) <==> (u == uid || (old.contains_key(c)
                && old[c].1.users.contains(u))) by {
                assert(new.1.users.contains(u) <==> u == uid);
            }
            assert(e.1.users.no_duplicates());
        }
    }
}

} // verus!
