use cxlib_app::course::{CourseData, CourseTable};
use cxlib_app::course_order::{select_run_courses, sort_keys, CourseKey, DefaultCourseDataSorter};
use cxlib_app::courses_cmd::{CoursesCmdApp, CoursesParser};
use cxlib_app::model::{Course, CourseInfo};
use std::cmp::Ordering;

const DAY: u64 = 86400;

fn info(name: &str, ended: bool) -> CourseInfo {
    CourseInfo { name: name.to_string(), ended }
}

fn data(used: u64, users: &[&str]) -> CourseData {
    CourseData::new(used, users.iter().map(|s| s.to_string()).collect(), vec![])
}

fn c(a: i64, b: i64) -> Course {
    Course { course_id: a, class_id: b }
}

#[test]
fn merge_unions_users_and_keeps_info() {
    let mut t = CourseTable::new();
    let k = c(1, 2);
    let first = t.merge_course(&k, (info("A", false), data(5, &["u1"])), false);
    assert_eq!(first.0.name, "A");
    let second = t.merge_course(&k, (info("B", true), data(9, &["u2", "u1"])), false);
    assert_eq!(second.0.name, "A");
    assert_eq!(*second.1.recently_used_timestamp(), 9);
    let mut users = second.1.users().clone();
    users.sort();
    assert_eq!(users, vec!["u1", "u2"]);
    let third = t.merge_course(&k, (info("B", true), data(9, &[])), true);
    assert_eq!(third.0.name, "B");
    assert_eq!(third.1.users().len(), 2);
}

#[test]
fn recent_time_only_moves_forward() {
    let mut t = CourseTable::new();
    let k = c(1, 2);
    t.insert_course(&k, (info("A", false), data(u64::MAX, &[])));
    assert!(t.update_recently_used_time(&k, 100));
    assert!(!t.update_recently_used_time(&k, 50));
    assert_eq!(*t.get_course(&k).unwrap().1.recently_used_timestamp(), 100);
    assert!(t.update_recently_used_time(&k, 150));
    assert!(!t.update_recently_used_time(&c(9, 9), 150));
}

#[test]
fn users_are_set_each_once() {
    let mut t = CourseTable::new();
    let k = c(1, 2);
    t.insert_course(&k, (info("A", false), data(1, &["x"])));
    let old = t.update_users(&k, &vec!["a".to_string(), "b".to_string(), "a".to_string()]).unwrap();
    assert_eq!(old.1.users(), &vec!["x".to_string()]);
    let mut users = t.get_course(&k).unwrap().1.users().clone();
    users.sort();
    assert_eq!(users, vec!["a", "b"]);
    t.insert_uid(&k, "c");
    assert_eq!(t.get_course(&k).unwrap().1.users().len(), 3);
    assert!(t.update_users(&c(5, 5), &vec![]).is_none());
}

#[test]
fn filter_keeps_recent_open_courses() {
    let now = 1_000 * DAY;
    let open = info("A", false);
    let ended = info("B", true);
    assert!(!DefaultCourseDataSorter::filter((&c(1, 1), &open, &data(u64::MAX, &[])), now));
    assert!(DefaultCourseDataSorter::filter((&c(1, 1), &open, &data(now - 159 * DAY, &[])), now));
    assert!(!DefaultCourseDataSorter::filter((&c(1, 1), &open, &data(now - 160 * DAY, &[])), now));
    assert!(DefaultCourseDataSorter::filter((&c(1, 1), &open, &data(now + 5, &[])), now));
    assert!(!DefaultCourseDataSorter::filter((&c(1, 1), &ended, &data(u64::MAX, &[])), now));
}

#[test]
fn sorter_orders_ended_first_then_by_course() {
    let now = 100 * DAY;
    let open = info("A", false);
    let ended = info("B", true);
    let d = data(now - DAY, &[]);
    assert_eq!(DefaultCourseDataSorter::sorter((&c(1, 1), &ended, &d), (&c(0, 0), &open, &d), now), Ordering::Less);
    assert_eq!(DefaultCourseDataSorter::sorter((&c(0, 0), &open, &d), (&c(1, 1), &ended, &d), now), Ordering::Greater);
    assert_eq!(DefaultCourseDataSorter::sorter((&c(1, 2), &open, &d), (&c(1, 3), &open, &d), now), Ordering::Less);
    assert_eq!(DefaultCourseDataSorter::sorter((&c(2, 0), &open, &d), (&c(1, 3), &open, &d), now), Ordering::Greater);
    assert_eq!(DefaultCourseDataSorter::sorter((&c(2, 0), &open, &d), (&c(2, 0), &open, &d), now), Ordering::Equal);
    let week = data(now - 7 * DAY - 10, &[]);
    let recent = data(now - DAY, &[]);
    let older = data(now - 30 * DAY, &[]);
    assert_eq!(DefaultCourseDataSorter::sorter((&c(9, 9), &ended, &week), (&c(1, 1), &ended, &recent), now), Ordering::Less);
    assert_eq!(DefaultCourseDataSorter::sorter((&c(1, 1), &ended, &recent), (&c(9, 9), &ended, &older), now), Ordering::Less);
    assert_eq!(DefaultCourseDataSorter::sorter((&c(1, 1), &ended, &older), (&c(9, 9), &ended, &recent), now), Ordering::Greater);
}

#[test]
fn sort_keys_is_sorted_and_stable() {
    let now = 100 * DAY;
    let keys = vec![
        CourseKey { course: c(3, 0), ended: false, recently_used_timestamp_secs: 0 },
        CourseKey { course: c(1, 5), ended: false, recently_used_timestamp_secs: 0 },
        CourseKey { course: c(7, 7), ended: true, recently_used_timestamp_secs: 10 },
        CourseKey { course: c(1, 2), ended: false, recently_used_timestamp_secs: 0 },
    ];
    let sorted = sort_keys(&keys, now);
    let order: Vec<Course> = sorted.iter().map(|k| k.course).collect();
    assert_eq!(order, vec![c(7, 7), c(1, 2), c(1, 5), c(3, 0)]);
}

#[test]
fn run_courses_are_filtered_sorted_and_limited() {
    let now = 1_000 * DAY;
    let courses = vec![
        (c(5, 1), (info("E", false), data(u64::MAX, &[]))),
        (c(2, 1), (info("B", false), data(now - DAY, &[]))),
        (c(9, 1), (info("Old", false), data(now - 200 * DAY, &[]))),
        (c(3, 1), (info("Done", true), data(now - DAY, &[]))),
        (c(4, 1), (info("D", false), data(now, &[]))),
    ];
    assert_eq!(select_run_courses(&courses, None, None, now), vec![c(2, 1), c(4, 1)]);
    assert_eq!(select_run_courses(&courses, None, Some(1), now), vec![c(2, 1)]);
    assert_eq!(select_run_courses(&courses, None, Some(2), now), vec![c(2, 1), c(4, 1)]);
    assert_eq!(select_run_courses(&courses, None, Some(0), now), Vec::<Course>::new());
    assert_eq!(select_run_courses(&courses, Some(c(3, 1)), None, now), vec![c(3, 1)]);
    assert_eq!(select_run_courses(&courses, Some(c(3, 1)), Some(0), now), Vec::<Course>::new());
}

#[test]
fn listing_keeps_courses_of_the_given_uids() {
    let courses = vec![
        (c(1, 1), (info("A", false), data(0, &["u1", "u2"]))),
        (c(2, 2), (info("B", false), data(0, &["u3"]))),
        (c(3, 3), (info("C", false), data(0, &[]))),
    ];
    let some = CoursesCmdApp::listed(&courses, &CoursesParser { uid: Some(" u3 , u9".to_string()), fresh: false });
    assert_eq!(some.len(), 1);
    assert_eq!(some[0].0, c(2, 2));
    assert_eq!(some[0].1.name, "B");
    let all = CoursesCmdApp::listed(&courses, &CoursesParser { uid: None, fresh: false });
    assert_eq!(all.len(), 3);
    let fresh = CoursesCmdApp::listed(&courses, &CoursesParser { uid: Some("u3".to_string()), fresh: true });
    assert_eq!(fresh.len(), 3);
}

#[test]
fn fetched_courses_are_merged_in() {
    let mut t = CourseTable::new();
    t.insert_course(&c(1, 1), (info("A", false), data(42, &["u1"])));
    let fetched = vec![
        (c(1, 1), info("A2", false), vec!["u2".to_string()]),
        (c(2, 2), info("B", false), vec!["u2".to_string()]),
    ];
    let r = CoursesCmdApp::merge_fetched(&mut t, &fetched, false);
    assert_eq!(r.len(), 2);
    assert_eq!(r[0].0, c(1, 1));
    assert_eq!(r[0].1.0.name, "A");
    assert_eq!(*r[0].1.1.recently_used_timestamp(), u64::MAX);
    assert_eq!(r[0].1.1.users().len(), 2);
    assert_eq!(r[1].1.0.name, "B");
    assert_eq!(t.get_courses().len(), 2);
    let again = vec![(c(1, 1), info("A2", false), vec!["u2".to_string()])];
    let r2 = CoursesCmdApp::merge_fetched(&mut t, &again, true);
    assert_eq!(r2[0].1.0.name, "A2");
}
