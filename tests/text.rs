use osm2streets::tags::Tags;
use osm2streets::text::{parse_millimeters, parse_usize};
use osm2streets::transform::Transformation;

#[test]
fn counts() {
    assert_eq!(parse_usize("3"), Some(3));
    assert_eq!(parse_usize("+12"), Some(12));
    assert_eq!(parse_usize("0"), Some(0));
    assert_eq!(parse_usize(""), None);
    assert_eq!(parse_usize("+"), None);
    assert_eq!(parse_usize("-1"), None);
    assert_eq!(parse_usize("2;3"), None);
    assert_eq!(parse_usize("99999999999999999999999"), None);
}

#[test]
fn meters() {
    assert_eq!(parse_millimeters("2"), Some(2000));
    assert_eq!(parse_millimeters("2.5"), Some(2500));
    assert_eq!(parse_millimeters("+0.1234"), Some(123));
    assert_eq!(parse_millimeters(".5"), Some(500));
    assert_eq!(parse_millimeters("3."), Some(3000));
    assert_eq!(parse_millimeters("."), None);
    assert_eq!(parse_millimeters("1.2.3"), None);
    assert_eq!(parse_millimeters("2 m"), None);
    assert_eq!(parse_millimeters("-1"), None);
}

#[test]
fn tag_dictionary() {
    let mut t = Tags::new();
    assert!(!t.contains_key("highway"));
    t.insert("highway", "primary");
    t.insert("highway", "secondary");
    t.insert("lanes", "2");
    assert!(t.is("highway", "secondary"));
    assert!(!t.is("highway", "primary"));
    assert_eq!(t.get("lanes").map(|s| s.as_str()), Some("2"));
    let c = t.copied();
    assert!(c.is("lanes", "2"));
}

#[test]
fn transformation_suites() {
    let full = Transformation::abstreet();
    assert_eq!(full.len(), 9);
    assert_eq!(full[0], Transformation::ClassifyIntersections);
    assert_eq!(full[1], Transformation::TrimDeadendCycleways);
    assert_eq!(full[2], Transformation::TrimDeadendCycleways);
    assert_eq!(full[3], Transformation::RemoveDisconnectedRoads);
    assert_eq!(
        full[5],
        Transformation::FindShortRoads {
            consolidate_all_intersections: false
        }
    );
    assert_eq!(full[8], Transformation::ShrinkOverlappingRoads);
    let clipped = Transformation::standard_for_clipped_areas();
    assert_eq!(clipped.len(), 7);
    assert!(!clipped.contains(&Transformation::RemoveDisconnectedRoads));
    assert_eq!(clipped[6], Transformation::ShrinkOverlappingRoads);
}

#[test]
fn transformation_names() {
    assert_eq!(
        Transformation::ClassifyIntersections.name(),
        "classify intersections"
    );
    assert_eq!(
        Transformation::FindShortRoads {
            consolidate_all_intersections: true
        }
        .name(),
        "find short roads"
    );
    assert_eq!(
        Transformation::MergeDualCarriageways.name(),
        "merge dual carriageways"
    );
    assert_eq!(Transformation::SnapCycleways.name(), "snap separate cycleways");
}
