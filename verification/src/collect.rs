//! Gathering the sessions of several accounts, one outcome at a time.
use crate::error::{spec_is_fatal, StoreError};
use crate::global_multimap::{keyed_map, keys_distinct, put_row};
use crate::text::views;
use vstd::prelude::*;

verus! {

/// Takes in what loading the account `uid` gave: a value is kept under `uid`; an
/// error that is fatal is handed back and ends the gathering; another error only
/// skips the account.
pub fn collect_step<T>(s: &mut Vec<(String, T)>, uid: String, outcome: Result<T, StoreError>) -> (r: Result<
    (),
    StoreError,
>)
    requires
        keys_distinct(old(s)@),
    ensures
        keys_distinct(final(s)@),
        match outcome {
            Ok(v) => r is Ok && keyed_map(final(s)@) == keyed_map(old(s)@).insert(uid@, v),
            Err(e) => final(s)@ == old(s)@ && if spec_is_fatal(e) {
                r == Err::<(), StoreError>(e)
            } else {
                r is Ok
            },
        },
{
    match outcome {
        Ok(v) => {
            put_row(s, uid, v);
            Ok(())
        },
        Err(e) => {
            if e.is_fatal() {
                Err(e)
            } else {
                Ok(())
            }
        },
    }
}

/// For each of `users` that has a session, the position of that session among
/// sessions of uids `uids` (no uid twice), in the order of `users`.
pub open spec fn sessions_of(users: Seq<Seq<char>>, uids: Seq<Seq<char>>) -> Seq<usize>
    decreases users.len(),
{
    if users.len() == 0 {
        Seq::<usize>::empty()
    } else {
        let prev = sessions_of(users.drop_last(), uids);
        let u = users.last();
        if uids.contains(u) {
            prev.push(choose|j: usize| j < uids.len() && uids[j as int] == u)
        } else {
            prev
        }
    }
}

/// The sessions of the users of a course or an activity, as `sessions_of` states.
pub fn session_positions(users: &Vec<String>, uids: &Vec<String>) -> (r: Vec<usize>)
    requires
        views(uids@).no_duplicates(),
    ensures
        r@ == sessions_of(views(users@), views(uids@)),
{
    let ghost us = views(users@);
    let ghost ks = views(uids@);
    let mut r: Vec<usize> = Vec::new();
    let mut i: usize = 0;
    assert(us.take(0) =~= Seq::<Seq<char>>::empty());
    while i < users.len()
        invariant
            i <= users@.len(),
            us == views(users@),
            ks == views(uids@),
            ks.no_duplicates(),
            r@ == sessions_of(us.take(i as int), ks),
        decreases users.len() - i,
    {
        proof {
            assert(us.take(i + 1).drop_last() =~= us.take(i as int));
            assert(us.take(i + 1).last() == users@[i as int]@);
        }
        let mut j: usize = 0;
        let mut found: Option<usize> = None;
        while j < uids.len() && found.is_none()
            invariant
                i < users@.len(),
                j <= uids@.len(),
                ks == views(uids@),
                match found {
                    Some(f) => f < uids@.len() && uids@[f as int]@ == users@[i as int]@,
                    None => forall|k: int| 0 <= k < j ==> uids@[k]@ != users@[i as int]@,
                },
            decreases uids.len() - j,
        {
            if uids[j] == users[i] {
                found = Some(j);
            }
            j += 1;
        }
        match found {
            Some(j) => {
                proof {
                    let u = users@[i as int]@;
                    assert(ks[j as int] == uids@[j as int]@);
                    assert(ks[j as int] == u);
                    assert(ks.contains(u));
                    let c = choose|c: usize| c < ks.len() && ks[c as int] == u;
                    assert(c == j) by {
                        if c != j {
                            assert(ks[c as int] == ks[j as int]);
                        }
                    }
                }
                r.push(j);
            },
            None => {
                proof {
                    let u = users@[i as int]@;
                    if ks.contains(u) {
                        let k = choose|k: int| 0 <= k < ks.len() && ks[k] == u;
                        assert(ks[k] == uids@[k]@);
                    }
                }
            },
        }
        i += 1;
    }
    assert(us.take(users@.len() as int) =~= us);
    r
}

} // verus!
