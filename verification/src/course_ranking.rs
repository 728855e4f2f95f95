//! The comparison that orders the courses of a sign-in run.
use crate::course::CourseData;
use crate::course_order::{before, key_before, key_from, key_of, DefaultCourseDataSorter};
use crate::model::{Course, CourseInfo};
use std::cmp::Ordering;
use vstd::prelude::*;

verus! {

impl DefaultCourseDataSorter {
    /// Compares two courses as `key_before` orders them: `Less` where `a` comes
    /// first, `Greater` where `b` does, `Equal` where neither does.
    pub fn sorter(
        a: (&Course, &CourseInfo, &CourseData),
        b: (&Course, &CourseInfo, &CourseData),
        now_secs: u64,
    ) -> (r: Ordering)
        ensures
            ({
                let ka = key_of(*a.0, a.1.ended, a.2@.recently_used_timestamp_secs);
                let kb = key_of(*b.0, b.1.ended, b.2@.recently_used_timestamp_secs);
                &&& (r == Ordering::Less) == key_before(ka, kb, now_secs)
                &&& (r == Ordering::Greater) == key_before(kb, ka, now_secs)
            }),
    {
        let ka = key_from(a.0, a.1, a.2);
        let kb = key_from(b.0, b.1, b.2);
        if before(&ka, &kb, now_secs) {
            Ordering::Less
        } else if before(&kb, &ka, now_secs) {
            Ordering::Greater
        } else {
            Ordering::Equal
        }
    }
}

} // verus!
