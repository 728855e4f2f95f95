use cxlib_app::model::{Course, Geoaddr, Geolocation, GeolocationOrUnhandledGeoaddr};

fn geo(lon: &str, lat: &str, alt: &str) -> Geolocation {
    Geolocation { lon: lon.to_string(), lat: lat.to_string(), alt: alt.to_string() }
}

#[test]
fn course_text_and_back() {
    let c = Course { course_id: 123, class_id: -4 };
    assert_eq!(c.to_text(), "123,-4");
    assert_eq!(Course::parse("123,-4"), Some(c));
    assert_eq!(Course::parse(" 123 , -4 "), Some(c));
    assert_eq!(Course::parse("123"), None);
    assert_eq!(Course::parse("1,2,3"), None);
    assert_eq!(Course::parse("a,2"), None);
}

#[test]
fn global_and_invalid_courses() {
    let g = Course::global_course();
    assert_eq!(g, Course { course_id: -1, class_id: -1 });
    assert!(g.is_global_course());
    assert!(g.invalid());
    assert!(Course { course_id: -2, class_id: 1 }.invalid());
    assert!(!Course { course_id: -2, class_id: 1 }.is_global_course());
    assert!(!Course { course_id: 0, class_id: 0 }.invalid());
}

#[test]
fn geoaddr_text_and_back() {
    let g = Geoaddr::new("Library".to_string(), geo("116.3", "39.9", "50"));
    assert_eq!(g.to_text(), "Library,116.3,39.9,50");
    let back = Geoaddr::parse("Library,116.3,39.9,50").unwrap();
    assert_eq!(back.unhandled_place_name, "Library");
    assert_eq!(back.geolocation.lon, "116.3");
    assert_eq!(back.geolocation.alt, "50");
    let spaced = Geoaddr::parse("  Hall , 1 , 2 , 3 ").unwrap();
    assert_eq!(spaced.unhandled_place_name, "Hall");
    assert_eq!(spaced.geolocation.lat, "2");
    assert!(Geoaddr::parse("Hall,1,2").is_none());
    assert!(Geoaddr::parse("Hall,1, ,3").is_none());
    assert!(Geoaddr::parse(",1,2,3").is_some());
}

#[test]
fn geolocation_text_and_back() {
    let g = geo("1.5", "-2", "0");
    assert_eq!(g.to_text(), "1.5,-2,0");
    let back = Geolocation::parse("1.5,-2,0").unwrap();
    assert_eq!(back.lon, "1.5");
    assert_eq!(back.lat, "-2");
    assert!(Geolocation::parse("1,2").is_none());
}

#[test]
fn place_or_position() {
    match GeolocationOrUnhandledGeoaddr::parse("Gate,1,2,3") {
        Some(GeolocationOrUnhandledGeoaddr::UnhandledGeoaddr(a)) => {
            assert_eq!(a.unhandled_place_name, "Gate")
        }
        _ => panic!("a place was expected"),
    }
    match GeolocationOrUnhandledGeoaddr::parse("1,2,3") {
        Some(GeolocationOrUnhandledGeoaddr::Geolocation(g)) => assert_eq!(g.alt, "3"),
        _ => panic!("a position was expected"),
    }
    assert!(GeolocationOrUnhandledGeoaddr::parse("nothing").is_none());
    let p = GeolocationOrUnhandledGeoaddr::parse("Gate,1,2,3").unwrap().into_geolocation();
    assert_eq!(p.lon, "1");
}
