use cxlib_app::course::CourseData;
use cxlib_app::location::LocationTable;
use cxlib_app::location_cmd::{AddOutcome, LocationParser, ReduceType, Remove};
use cxlib_app::location_text::{courses_text, join, LocationAndAliasesPairInternal};
use cxlib_app::locations_cmd::{LocationListing, LocationsCmdApp, LocationsParser};
use cxlib_app::model::{Course, CourseInfo, Geoaddr, Geolocation, GeolocationOrUnhandledGeoaddr};
use cxlib_app::store::Tables;

fn geo(lon: &str, lat: &str, alt: &str) -> Geolocation {
    Geolocation { lon: lon.to_string(), lat: lat.to_string(), alt: alt.to_string() }
}

fn store_course(db: &mut Tables, c: Course) {
    let info = CourseInfo { name: "Maths".to_string(), ended: false };
    db.courses.insert_course(&c, (info, CourseData::new(u64::MAX, vec![], vec![])));
}

/// An empty store that holds the global course, under which new places without a
/// course are filed.
fn store_with_global() -> Tables {
    let mut db = Tables::new();
    store_course(&mut db, Course::global_course());
    db
}

#[test]
fn add_new_place_with_alias() {
    let mut db = store_with_global();
    let r = LocationParser::add(&mut db, "Library,1,2,3", Some("lib".to_string()), None);
    assert!(matches!(r, AddOutcome::Done { replaced: None }));
    assert!(db.locations.has_location(&geo("1", "2", "3")));
    assert_eq!(db.locations.get_courses(&geo("1", "2", "3")), vec![Course::global_course()]);
    let named = db.aliases.get_location("lib").unwrap();
    assert_eq!(named.unhandled_place_name, "Library");
    let (_, data) = db.courses.get_course(&Course::global_course()).unwrap();
    assert_eq!(data.locations().len(), 1);
    assert_eq!(data.locations()[0].unhandled_place_name, "Library");
}

#[test]
fn add_by_alias_and_nothing() {
    let mut db = store_with_global();
    LocationParser::add(&mut db, "Library,1,2,3", Some("lib".to_string()), None);
    let r = LocationParser::add(&mut db, " lib ", Some("books".to_string()), None);
    assert!(matches!(r, AddOutcome::Done { replaced: None }));
    assert_eq!(db.aliases.get_location("books").unwrap().unhandled_place_name, "Library");
    let r = LocationParser::add(&mut db, "unknown", Some("x".to_string()), None);
    assert!(matches!(r, AddOutcome::NoPlace));
    let r = LocationParser::add(&mut db, "unknown", None, None);
    assert!(matches!(r, AddOutcome::NoPlace));
    let r = LocationParser::add(&mut db, "Library,1,2,3", None, None);
    assert!(matches!(r, AddOutcome::AlreadyStored));
    let r = LocationParser::add(&mut db, "Library,1,2,3", Some("more".to_string()), None);
    assert!(matches!(r, AddOutcome::Done { replaced: None }));
    assert_eq!(db.aliases.get_location("more").unwrap().unhandled_place_name, "Library");
    assert_eq!(db.locations.get_courses(&geo("1", "2", "3")), vec![Course::global_course()]);
}

#[test]
fn add_stored_place_for_a_course() {
    let mut db = store_with_global();
    let c = Course { course_id: 10, class_id: 20 };
    store_course(&mut db, c);
    LocationParser::add(&mut db, "Hall,5,6,7", None, None);
    let r = LocationParser::add(&mut db, "Hall,5,6,7", Some("hall".to_string()), Some(c));
    assert!(matches!(r, AddOutcome::Done { replaced: None }));
    assert_eq!(db.locations.get_courses(&geo("5", "6", "7")), vec![Course::global_course(), c]);
    let (_, data) = db.courses.get_course(&c).unwrap();
    assert_eq!(data.locations().len(), 1);
    assert_eq!(data.locations()[0].unhandled_place_name, "Hall");
    let r = LocationParser::add(&mut db, "Hall,5,6,7", Some("hall".to_string()), Some(c));
    match r {
        AddOutcome::Done { replaced: Some(old) } => assert_eq!(old.unhandled_place_name, "Hall"),
        _ => panic!("the alias named a place before"),
    }
    assert_eq!(db.locations.get_courses(&geo("5", "6", "7")), vec![Course::global_course(), c]);
}

#[test]
fn remove_place_takes_its_aliases() {
    let mut db = store_with_global();
    LocationParser::add(&mut db, "A,1,1,1", Some("a1".to_string()), None);
    LocationParser::add(&mut db, "a1", Some("a2".to_string()), None);
    assert!(db.aliases.has_alias("a2"));
    LocationParser::add(&mut db, "B,2,2,2", Some("b".to_string()), None);
    let gone = LocationParser::remove(
        &mut db,
        Remove::Locations { location: None, alias: Some("a1".to_string()) },
    );
    assert!(gone);
    assert!(!db.locations.has_location(&geo("1", "1", "1")));
    assert!(!db.aliases.has_alias("a1"));
    assert!(!db.aliases.has_alias("a2"));
    assert!(db.aliases.has_alias("b"));
    let again = LocationParser::remove(
        &mut db,
        Remove::Locations {
            location: Some(GeolocationOrUnhandledGeoaddr::Geolocation(geo("1", "1", "1"))),
            alias: None,
        },
    );
    assert!(!again);
    assert!(LocationParser::remove(&mut db, Remove::Aliases { alias: "b".to_string() }));
    assert!(!LocationParser::remove(&mut db, Remove::Aliases { alias: "b".to_string() }));
    assert!(db.locations.has_location(&geo("2", "2", "2")));
}

#[test]
fn reduce_aliases_of_one_position() {
    let mut db = store_with_global();
    LocationParser::add(&mut db, "A,1,1,1", Some("a1".to_string()), None);
    LocationParser::add(&mut db, "a1", Some("a2".to_string()), None);
    LocationParser::add(&mut db, "B,2,2,2", Some("b".to_string()), None);
    let plan = LocationParser::reduce_plan(
        &db,
        ReduceType::Aliases {
            location: Some(GeolocationOrUnhandledGeoaddr::Geolocation(geo("1", "1", "1"))),
        },
        false,
        None,
        false,
    )
    .unwrap();
    assert!(!plan.delete_locations);
    let mut names = plan.aliases.clone();
    names.sort();
    assert_eq!(names, vec!["a1", "a2"]);
    LocationParser::apply_reduce(&mut db, &plan);
    assert!(!db.aliases.has_alias("a1"));
    assert!(!db.aliases.has_alias("a2"));
    assert!(db.aliases.has_alias("b"));
    assert!(db.locations.has_location(&geo("1", "1", "1")));
}

#[test]
fn reduce_all_places() {
    let mut db = store_with_global();
    LocationParser::add(&mut db, "A,1,1,1", Some("a".to_string()), None);
    LocationParser::add(&mut db, "B,2,2,2", None, None);
    let plan = LocationParser::reduce_plan(&db, ReduceType::Locations, true, None, false).unwrap();
    assert!(plan.delete_locations);
    assert_eq!(plan.locations.len(), 2);
    LocationParser::apply_reduce(&mut db, &plan);
    assert_eq!(db.locations.get_locations().len(), 0);
    assert_eq!(db.aliases.get_all_aliases().len(), 0);
}

#[test]
fn reduce_finds_nothing() {
    let mut db = store_with_global();
    assert!(LocationParser::reduce_plan(&db, ReduceType::Locations, false, None, false).is_none());
    LocationParser::add(&mut db, "B,2,2,2", None, None);
    let r = LocationParser::reduce_plan(
        &db,
        ReduceType::Aliases { location: None },
        true,
        None,
        false,
    );
    assert!(r.is_none());
}

#[test]
fn place_line_and_back() {
    let p = LocationAndAliasesPairInternal::new(
        Geoaddr::new("Gate".to_string(), geo("1.5", "2.5", "3")),
        vec![Course { course_id: 1, class_id: 2 }, Course { course_id: 3, class_id: 4 }],
        vec!["g".to_string(), "door".to_string()],
    );
    let line = p.to_line();
    assert_eq!(line, "1,2/3,4$Gate,1.5,2.5,3$g/door");
    let back = LocationAndAliasesPairInternal::parse(&line).ok().unwrap();
    assert_eq!(back.courses(), p.courses());
    assert_eq!(back.aliases(), p.aliases());
    assert_eq!(back.unhandled_geoaddr().unhandled_place_name, "Gate");
}

#[test]
fn place_line_without_course_reads_as_global() {
    let back = LocationAndAliasesPairInternal::parse("$Gate,1,2,3$").ok().unwrap();
    assert_eq!(back.courses(), &vec![Course::global_course()]);
    assert_eq!(back.aliases(), &vec![String::new()]);
    assert!(LocationAndAliasesPairInternal::parse("only$two").is_err());
    assert!(LocationAndAliasesPairInternal::parse("1,2$nowhere$a").is_err());
}

#[test]
fn joins() {
    assert_eq!(join(&vec!["a".to_string(), "b".to_string()], "/"), "a/b");
    assert_eq!(join(&vec![], "/"), "");
    assert_eq!(courses_text(&vec![Course { course_id: 7, class_id: -1 }]), "7,-1");
}

#[test]
fn export_then_import_restores_the_places() {
    let mut db = store_with_global();
    let c = Course { course_id: 10, class_id: 20 };
    store_course(&mut db, c);
    LocationParser::add(&mut db, "Hall,5,6,7", Some("hall".to_string()), None);
    LocationParser::add(&mut db, "Hall,5,6,7", None, Some(c));
    let text = LocationTable::export_text(&db);
    assert_eq!(text, "-1,-1/10,20$Hall,5,6,7$hall\n");
    let mut fresh = store_with_global();
    store_course(&mut fresh, c);
    LocationTable::import_text(&mut fresh, &text);
    assert_eq!(fresh.locations.get_courses(&geo("5", "6", "7")), vec![Course::global_course(), c]);
    assert_eq!(fresh.aliases.get_location("hall").unwrap().unhandled_place_name, "Hall");
    assert_eq!(LocationTable::export_text(&fresh), text);
}

#[test]
fn listing_forms() {
    let mut db = store_with_global();
    let c = Course { course_id: 10, class_id: 20 };
    store_course(&mut db, c);
    LocationParser::add(&mut db, "Hall,5,6,7", Some("hall".to_string()), None);
    LocationParser::add(&mut db, "Hall,5,6,7", None, Some(c));
    LocationParser::add(&mut db, "Gate,1,1,1", None, None);
    let short_all = LocationsCmdApp::listing(
        &db,
        &LocationsParser { global: false, course: None, pretty: false, short: true },
    );
    match short_all {
        LocationListing::Places(v) => assert_eq!(v.len(), 2),
        _ => panic!("places expected"),
    }
    let of_course = LocationsCmdApp::listing(
        &db,
        &LocationsParser { global: false, course: Some(c), pretty: false, short: false },
    );
    match of_course {
        LocationListing::OfCourse(k, rows) => {
            assert_eq!(k, c);
            assert_eq!(rows.len(), 1);
            assert_eq!(rows[0].0.unhandled_place_name, "Hall");
            assert_eq!(rows[0].1, vec!["hall".to_string()]);
        }
        _ => panic!("rows of the course expected"),
    }
    let global = LocationsCmdApp::listing(
        &db,
        &LocationsParser { global: true, course: None, pretty: false, short: true },
    );
    match global {
        // Serving `c` as well files Hall under each of its courses once more.
        LocationListing::Places(v) => assert_eq!(v.len(), 3),
        _ => panic!("places expected"),
    }
    let all = LocationsCmdApp::listing(
        &db,
        &LocationsParser { global: false, course: None, pretty: true, short: false },
    );
    match all {
        LocationListing::All(rows) => {
            assert_eq!(rows.len(), 2);
            for (g, courses, aliases) in rows {
                if g.unhandled_place_name == "Hall" {
                    assert_eq!(courses, vec![Course::global_course(), c]);
                    assert_eq!(aliases, vec!["hall".to_string()]);
                } else {
                    assert_eq!(courses, vec![Course::global_course()]);
                    assert!(aliases.is_empty());
                }
            }
        }
        _ => panic!("every place expected"),
    }
}

#[test]
fn place_of_a_sign_in() {
    let mut db = store_with_global();
    let c = Course { course_id: 10, class_id: 20 };
    store_course(&mut db, c);
    LocationParser::add(&mut db, "Hall,5,6,7", Some("hall".to_string()), None);
    LocationParser::add(&mut db, "Hall,5,6,7", None, Some(c));
    let getter = cxlib_app::location_info::DefaultLocationInfoGetter::new(&db);
    assert_eq!(getter.get_location_by_location_str("hall").unwrap().unhandled_place_name, "Hall");
    assert_eq!(getter.get_location_by_location_str("Gate,1,2,3").unwrap().unhandled_place_name, "Gate");
    assert!(getter.get_location_by_location_str("nowhere").is_none());
    assert_eq!(getter.get_fallback_location(&c).unwrap().geolocation.lon, "5");
    assert!(getter.get_fallback_location(&Course { course_id: 1, class_id: 1 }).is_none());
}

#[test]
fn aliases_name_stored_places_after_commands() {
    let mut db = store_with_global();
    LocationParser::add(&mut db, "A,1,1,1", Some("a".to_string()), None);
    LocationParser::add(&mut db, "B,2,2,2", Some("b".to_string()), None);
    LocationParser::add(&mut db, "a", Some("also_a".to_string()), None);
    LocationTable::import_text(&mut db, "$C,3,3,3$c/cc\n");
    LocationParser::remove(&mut db, Remove::Locations { location: None, alias: Some("b".to_string()) });
    for (_, place) in db.aliases.get_all_aliases() {
        assert!(db.locations.has_location(&place.geolocation));
    }
    let mut names: Vec<String> = db.aliases.get_all_aliases().into_iter().map(|(a, _)| a).collect();
    names.sort();
    assert_eq!(names, vec!["a", "also_a", "c", "cc"]);
    assert!(db.locations.has_location(&geo("3", "3", "3")));
}

#[test]
fn place_for_an_unknown_course_is_a_logic_error() {
    let mut db = Tables::new();
    let known = Course { course_id: 1, class_id: 1 };
    store_course(&mut db, known);
    let unknown = Course { course_id: 2, class_id: 2 };
    let r = LocationTable::add_location(&mut db, &geo("1", "2", "3"), &"P".to_string(), &vec![known, unknown]);
    assert!(matches!(r, Err(cxlib_app::error::StoreError::LogicError(_))));
    assert!(db.locations.has_location(&geo("1", "2", "3")));
    assert_eq!(db.courses.get_course(&known).unwrap().1.locations().len(), 1);
    let r = LocationTable::insert_location(&mut db, &geo("4", "5", "6"), &"Q".to_string(), &vec![unknown], &vec!["q".to_string()]);
    assert!(r.is_err());
    assert!(!db.aliases.has_alias("q"));
    assert!(matches!(
        db.locations.get_place_name(&geo("9", "9", "9")),
        Err(cxlib_app::error::StoreError::UnexpectedNone(_))
    ));
    assert_eq!(db.locations.get_place_name(&geo("1", "2", "3")).ok().unwrap(), "P");
}

#[test]
fn place_line_errors_say_the_format() {
    match LocationAndAliasesPairInternal::parse("only$two") {
        Err(cxlib_app::error::StoreError::ParseError(m)) => {
            assert_eq!(m, "格式应为 `课程号,班级号/...$地址,经度,纬度,海拔$别名/...`")
        }
        _ => panic!("a parse error expected"),
    }
    match LocationAndAliasesPairInternal::parse("1,2$nowhere$a") {
        Err(cxlib_app::error::StoreError::ParseError(m)) => {
            assert_eq!(m, "位置解析出错：位置的格式应为 `地址,经度,纬度,海拔`.")
        }
        _ => panic!("a parse error expected"),
    }
}

#[test]
fn import_for_an_unstored_course_keeps_only_the_place() {
    let mut db = Tables::new();
    LocationTable::import_text(&mut db, "$C,3,3,3$c/cc\n");
    assert!(db.locations.has_location(&geo("3", "3", "3")));
    assert!(!db.aliases.has_alias("c"));
    assert!(!db.aliases.has_alias("cc"));
}

#[test]
fn aliases_come_in_key_order() {
    let mut db = store_with_global();
    LocationParser::add(&mut db, "Hall,5,6,7", Some("礼堂".to_string()), None);
    for a in ["b", "Z", "a", "ab"] {
        LocationParser::add(&mut db, "Hall,5,6,7", Some(a.to_string()), None);
    }
    LocationParser::add(&mut db, "Gate,1,1,1", Some("aa".to_string()), None);
    assert_eq!(db.aliases.get_aliases(&geo("5", "6", "7")), vec!["Z", "a", "ab", "b", "礼堂"]);
    let lens = db.aliases.get_aliases_and(&geo("5", "6", "7"), |a: String| a.chars().count());
    assert_eq!(lens, vec![1, 1, 2, 1, 2]);
    assert_eq!(db.aliases.get_aliases(&geo("1", "1", "1")), vec!["aa"]);
    let hall = db.aliases.get_location("ab").unwrap();
    assert_eq!(db.aliases.get_aliases_of_place(&hall), vec!["Z", "a", "ab", "b", "礼堂"]);
    assert!(db.aliases.get_aliases(&geo("9", "9", "9")).is_empty());
}

#[test]
fn trimmed_alias_finds_the_place() {
    let mut db = store_with_global();
    LocationParser::add(&mut db, "Hall,5,6,7", Some("hall".to_string()), None);
    let r = LocationParser::add(&mut db, "\u{3000} hall\t\n", Some("h".to_string()), None);
    assert!(matches!(r, AddOutcome::Done { replaced: None }));
    assert_eq!(cxlib_app::text::trim("\u{3000} a b\u{2009}"), "a b");
    assert_eq!(cxlib_app::text::trim("   "), "");
    assert_eq!(cxlib_app::text::trim(""), "");
}

#[test]
fn add_new_place_for_a_course() {
    let mut db = store_with_global();
    let c = Course { course_id: 10, class_id: 20 };
    store_course(&mut db, c);
    let r = LocationParser::add(&mut db, "Lab,8,9,10", None, Some(c));
    assert!(matches!(r, AddOutcome::Done { replaced: None }));
    assert_eq!(db.locations.get_courses(&geo("8", "9", "10")), vec![c]);
    let (_, data) = db.courses.get_course(&c).unwrap();
    assert_eq!(data.locations().len(), 1);
    assert_eq!(data.locations()[0].unhandled_place_name, "Lab");
    let (_, global) = db.courses.get_course(&Course::global_course()).unwrap();
    assert!(global.locations().is_empty());
}

#[test]
fn new_place_without_a_stored_global_course_serves_none() {
    let mut db = Tables::new();
    let r = LocationParser::add(&mut db, "Yard,4,4,4", Some("yard".to_string()), None);
    assert!(matches!(r, AddOutcome::Done { replaced: None }));
    assert_eq!(db.locations.get_courses(&geo("4", "4", "4")), Vec::<Course>::new());
    assert!(db.courses.get_course(&Course::global_course()).is_none());
    assert_eq!(db.aliases.get_location("yard").unwrap().unhandled_place_name, "Yard");
}
