use osm2streets::classic::{get_lane_specs_ltr, infer_sidewalk_tags, osm_separation_type};
use osm2streets::lane::{BufferType, Direction, DrivingSide, LaneSpec, LaneType, MapConfig};
use osm2streets::tags::Tags;

fn tags(pairs: &[(&str, &str)]) -> Tags {
    let mut t = Tags::new();
    for (k, v) in pairs {
        t.insert(k, v);
    }
    t
}

fn config(driving_side: DrivingSide, inferred_sidewalks: bool) -> MapConfig {
    MapConfig {
        driving_side,
        inferred_sidewalks,
        experimental_inference: false,
    }
}

fn kinds(lanes: &[LaneSpec]) -> Vec<(LaneType, Direction)> {
    lanes.iter().map(|l| (l.lt, l.dir)).collect()
}

use Direction::{Back, Fwd};
use LaneType::{
    Biking, Buffer, Bus, Construction, Driving, Footway, LightRail, Parking, SharedLeftTurn,
    SharedUse, Shoulder, Sidewalk,
};

#[test]
fn light_rail_is_one_lane() {
    let t = tags(&[("railway", "light_rail")]);
    for side in [DrivingSide::Right, DrivingSide::Left] {
        for inferred in [true, false] {
            let lanes = get_lane_specs_ltr(&t, &config(side, inferred));
            assert_eq!(kinds(&lanes), vec![(LightRail, Fwd)]);
        }
    }
}

#[test]
fn residential_two_lanes_inferred_sidewalks() {
    let t = tags(&[("highway", "residential"), ("lanes", "2")]);
    let lanes = get_lane_specs_ltr(&t, &config(DrivingSide::Right, true));
    assert_eq!(
        kinds(&lanes),
        vec![(Sidewalk, Back), (Driving, Back), (Driving, Fwd), (Sidewalk, Fwd)]
    );
}

#[test]
fn residential_three_lane_oneway() {
    let t = tags(&[
        ("highway", "residential"),
        ("lanes", "3"),
        ("oneway", "yes"),
        ("sidewalk", "both"),
    ]);
    let lanes = get_lane_specs_ltr(&t, &config(DrivingSide::Right, true));
    assert_eq!(
        kinds(&lanes),
        vec![
            (Sidewalk, Back),
            (Driving, Fwd),
            (Driving, Fwd),
            (Driving, Fwd),
            (Sidewalk, Fwd)
        ]
    );
}

#[test]
fn cycle_track_on_the_right() {
    let t = tags(&[
        ("highway", "tertiary"),
        ("lanes", "2"),
        ("cycleway:right", "track"),
        ("sidewalk", "both"),
    ]);
    let lanes = get_lane_specs_ltr(&t, &config(DrivingSide::Right, true));
    assert_eq!(
        kinds(&lanes),
        vec![
            (Sidewalk, Back),
            (Driving, Back),
            (Driving, Fwd),
            (Biking, Fwd),
            (Sidewalk, Fwd)
        ]
    );
}

#[test]
fn cycle_track_separated_by_kerb() {
    let t = tags(&[
        ("highway", "primary"),
        ("lanes", "2"),
        ("cycleway:right", "track"),
        ("cycleway:right:separation:left", "kerb"),
        ("sidewalk", "both"),
    ]);
    let lanes = get_lane_specs_ltr(&t, &config(DrivingSide::Right, true));
    assert_eq!(
        kinds(&lanes),
        vec![
            (Sidewalk, Back),
            (Driving, Back),
            (Driving, Fwd),
            (Buffer(BufferType::Curb), Fwd),
            (Biking, Fwd),
            (Sidewalk, Fwd)
        ]
    );
}

#[test]
fn oneway_cycleway_has_a_shoulder() {
    let t = tags(&[("highway", "cycleway"), ("oneway", "yes")]);
    for inferred in [true, false] {
        let lanes = get_lane_specs_ltr(&t, &config(DrivingSide::Right, inferred));
        assert_eq!(kinds(&lanes), vec![(Biking, Fwd), (Shoulder, Fwd)]);
    }
}

#[test]
fn oneway_cycleway_left_hand_puts_forward_side_on_the_left() {
    let t = tags(&[("highway", "cycleway"), ("oneway", "yes")]);
    let lanes = get_lane_specs_ltr(&t, &config(DrivingSide::Left, true));
    assert_eq!(kinds(&lanes), vec![(Shoulder, Fwd), (Biking, Fwd)]);
}

#[test]
fn centre_turn_lane_sits_in_the_middle() {
    let t = tags(&[
        ("highway", "residential"),
        ("lanes", "2"),
        ("centre_turn_lane", "yes"),
        ("sidewalk", "both"),
    ]);
    let lanes = get_lane_specs_ltr(&t, &config(DrivingSide::Right, true));
    assert_eq!(
        kinds(&lanes),
        vec![
            (Sidewalk, Back),
            (Driving, Back),
            (SharedLeftTurn, Fwd),
            (Driving, Fwd),
            (Sidewalk, Fwd)
        ]
    );
}

#[test]
fn two_way_cycleway_left_hand() {
    let t = tags(&[("highway", "cycleway"), ("foot", "no")]);
    let lanes = get_lane_specs_ltr(&t, &config(DrivingSide::Left, false));
    assert_eq!(kinds(&lanes), vec![(Biking, Fwd), (Biking, Back)]);
}

#[test]
fn footway_kinds() {
    let cfg = config(DrivingSide::Right, false);
    let crossing = tags(&[("highway", "footway"), ("footway", "crossing")]);
    assert_eq!(kinds(&get_lane_specs_ltr(&crossing, &cfg)), vec![(Sidewalk, Fwd)]);
    let shared = tags(&[("highway", "path"), ("bicycle", "designated")]);
    assert_eq!(kinds(&get_lane_specs_ltr(&shared, &cfg)), vec![(SharedUse, Fwd)]);
    let steps = tags(&[("highway", "steps")]);
    assert_eq!(kinds(&get_lane_specs_ltr(&steps, &cfg)), vec![(Footway, Fwd)]);
}

#[test]
fn input_tags_are_left_alone_and_calls_repeat() {
    let t = tags(&[("highway", "residential"), ("lanes", "2")]);
    let cfg = config(DrivingSide::Right, true);
    let first = get_lane_specs_ltr(&t, &cfg);
    let second = get_lane_specs_ltr(&t, &cfg);
    assert_eq!(first, second);
    assert!(!t.contains_key("sidewalk"));
}

#[test]
fn widths_are_positive_and_typical() {
    let t = tags(&[
        ("highway", "primary"),
        ("lanes", "4"),
        ("cycleway:both", "lane"),
        ("parking:lane:both", "parallel"),
        ("cycleway:right:separation:left", "planter"),
    ]);
    let lanes = get_lane_specs_ltr(&t, &config(DrivingSide::Right, true));
    assert!(!lanes.is_empty());
    for l in &lanes {
        assert!(l.width.mm > 0);
    }
    let driving = lanes.iter().find(|l| l.lt == Driving).unwrap();
    assert_eq!(driving.width.mm, 3048);
    let parking = lanes.iter().find(|l| l.lt == Parking).unwrap();
    assert_eq!(parking.width.mm, 2743);
    let buffer = lanes.iter().find(|l| l.lt == Buffer(BufferType::Planters)).unwrap();
    assert_eq!(buffer.width.mm, 2000);
}

#[test]
fn motorway_lanes_are_wider() {
    let t = tags(&[("highway", "motorway"), ("lanes", "2"), ("oneway", "yes")]);
    let lanes = get_lane_specs_ltr(&t, &config(DrivingSide::Right, true));
    assert_eq!(kinds(&lanes), vec![(Driving, Fwd), (Driving, Fwd)]);
    assert_eq!(lanes[0].width.mm, 3658);
}

#[test]
fn sidewalk_width_overrides() {
    let t = tags(&[
        ("highway", "residential"),
        ("sidewalk", "both"),
        ("sidewalk:left:width", "2.5"),
        ("sidewalk:right:width", "1.25"),
    ]);
    let right = get_lane_specs_ltr(&t, &config(DrivingSide::Right, false));
    assert_eq!(right[0].width.mm, 2500);
    assert_eq!(right[right.len() - 1].width.mm, 1250);
    let left = get_lane_specs_ltr(&t, &config(DrivingSide::Left, false));
    assert_eq!(left[0].width.mm, 2500);
    assert_eq!(left[left.len() - 1].width.mm, 1250);
}

#[test]
fn bad_sidewalk_width_is_ignored() {
    let t = tags(&[
        ("highway", "residential"),
        ("sidewalk", "right"),
        ("sidewalk:right:width", "wide"),
        ("sidewalk:left:width", "0"),
    ]);
    let lanes = get_lane_specs_ltr(&t, &config(DrivingSide::Right, false));
    assert_eq!(
        kinds(&lanes),
        vec![(Driving, Back), (Driving, Fwd), (Sidewalk, Fwd)]
    );
    assert_eq!(lanes[2].width.mm, 1500);
    assert_eq!(lanes[0].width.mm, 3048);
}

#[test]
fn mirrored_driving_side_reverses() {
    let t = tags(&[
        ("highway", "secondary"),
        ("lanes", "4"),
        ("cycleway", "lane"),
        ("sidewalk", "both"),
        ("centre_turn_lane", "yes"),
    ]);
    let right = get_lane_specs_ltr(&t, &config(DrivingSide::Right, true));
    let mut left = get_lane_specs_ltr(&t, &config(DrivingSide::Left, true));
    left.reverse();
    assert_eq!(right, left);
}

#[test]
fn construction_has_no_extras() {
    let t = tags(&[
        ("highway", "construction"),
        ("lanes", "2"),
        ("cycleway", "lane"),
        ("sidewalk", "both"),
        ("parking:lane:both", "parallel"),
    ]);
    let lanes = get_lane_specs_ltr(&t, &config(DrivingSide::Right, true));
    assert_eq!(kinds(&lanes), vec![(Construction, Back), (Construction, Fwd)]);
}

#[test]
fn access_no_with_bus_gives_bus_lanes() {
    let t = tags(&[("highway", "primary"), ("access", "no"), ("bus", "yes")]);
    let lanes = get_lane_specs_ltr(&t, &config(DrivingSide::Right, false));
    assert_eq!(kinds(&lanes), vec![(Bus, Back), (Bus, Fwd)]);
    let cond = tags(&[
        ("highway", "primary"),
        ("motor_vehicle:conditional", "no @ (7:00-9:00)"),
        ("bus", "yes"),
    ]);
    let lanes = get_lane_specs_ltr(&cond, &config(DrivingSide::Right, false));
    assert_eq!(kinds(&lanes), vec![(Bus, Back), (Bus, Fwd)]);
}

#[test]
fn bus_lane_specification() {
    let t = tags(&[
        ("highway", "primary"),
        ("lanes", "3"),
        ("oneway", "yes"),
        ("bus:lanes", "||designated"),
    ]);
    let lanes = get_lane_specs_ltr(&t, &config(DrivingSide::Right, false));
    assert_eq!(kinds(&lanes), vec![(Driving, Fwd), (Driving, Fwd), (Bus, Fwd)]);
    let wrong_count = tags(&[
        ("highway", "primary"),
        ("lanes", "3"),
        ("oneway", "yes"),
        ("bus:lanes", "|designated"),
    ]);
    let lanes = get_lane_specs_ltr(&wrong_count, &config(DrivingSide::Right, false));
    assert_eq!(kinds(&lanes), vec![(Driving, Fwd), (Driving, Fwd), (Driving, Fwd)]);
}

#[test]
fn backward_bus_lane_with_centre_lane() {
    let t = tags(&[
        ("highway", "primary"),
        ("lanes:forward", "2"),
        ("lanes:backward", "2"),
        ("lanes:both_ways", "1"),
        ("bus:lanes:forward", "|designated"),
        ("psv:lanes:backward", "designated|"),
    ]);
    let lanes = get_lane_specs_ltr(&t, &config(DrivingSide::Right, false));
    assert_eq!(
        kinds(&lanes),
        vec![
            (Driving, Back),
            (Bus, Back),
            (SharedLeftTurn, Fwd),
            (Driving, Fwd),
            (Bus, Fwd)
        ]
    );
}

#[test]
fn odd_lane_count_rounds_forward_up() {
    let t = tags(&[("highway", "primary"), ("lanes", "3")]);
    let lanes = get_lane_specs_ltr(&t, &config(DrivingSide::Right, false));
    assert_eq!(
        kinds(&lanes),
        vec![(Driving, Back), (Driving, Fwd), (Driving, Fwd)]
    );
    let one = tags(&[("highway", "primary"), ("lanes", "1")]);
    let lanes = get_lane_specs_ltr(&one, &config(DrivingSide::Right, false));
    assert_eq!(kinds(&lanes), vec![(Driving, Back), (Driving, Fwd)]);
}

#[test]
fn more_forward_lanes_than_lanes_does_not_fail() {
    let t = tags(&[("highway", "primary"), ("lanes", "2"), ("lanes:forward", "3")]);
    let lanes = get_lane_specs_ltr(&t, &config(DrivingSide::Right, false));
    assert_eq!(
        kinds(&lanes),
        vec![(Driving, Back), (Driving, Fwd), (Driving, Fwd), (Driving, Fwd)]
    );
}

#[test]
fn unparsable_lanes_fall_back() {
    let t = tags(&[("highway", "primary"), ("lanes", "two"), ("oneway", "yes")]);
    let lanes = get_lane_specs_ltr(&t, &config(DrivingSide::Right, false));
    assert_eq!(kinds(&lanes), vec![(Driving, Fwd)]);
}

#[test]
fn no_driving_lanes_and_nothing_else_is_empty() {
    let t = tags(&[
        ("highway", "primary"),
        ("lanes:forward", "0"),
        ("lanes:backward", "0"),
    ]);
    let lanes = get_lane_specs_ltr(&t, &config(DrivingSide::Right, false));
    assert!(lanes.is_empty());
}

#[test]
fn two_way_track_on_the_left_of_a_oneway() {
    let t = tags(&[
        ("highway", "primary"),
        ("oneway", "yes"),
        ("cycleway:left", "track"),
        ("cycleway:left:separation:right", "bollard"),
    ]);
    let lanes = get_lane_specs_ltr(&t, &config(DrivingSide::Right, false));
    assert_eq!(
        kinds(&lanes),
        vec![
            (Biking, Fwd),
            (Buffer(BufferType::FlexPosts), Fwd),
            (Driving, Fwd)
        ]
    );
}

#[test]
fn opposite_lane_and_two_way_right_track() {
    let t = tags(&[
        ("highway", "primary"),
        ("oneway", "yes"),
        ("cycleway", "opposite_lane"),
        ("cycleway:right", "track"),
        ("oneway:bicycle", "no"),
    ]);
    let lanes = get_lane_specs_ltr(&t, &config(DrivingSide::Right, false));
    assert_eq!(
        kinds(&lanes),
        vec![(Biking, Back), (Driving, Fwd), (Biking, Back), (Biking, Fwd)]
    );
    let left = get_lane_specs_ltr(&t, &config(DrivingSide::Left, false));
    assert_eq!(
        kinds(&left),
        vec![(Biking, Fwd), (Driving, Fwd), (Biking, Fwd), (Biking, Back)]
    );
}

#[test]
fn living_street_gets_shoulders() {
    let t = tags(&[("highway", "living_street")]);
    let lanes = get_lane_specs_ltr(&t, &config(DrivingSide::Right, false));
    assert_eq!(
        kinds(&lanes),
        vec![(Shoulder, Back), (Driving, Back), (Driving, Fwd), (Shoulder, Fwd)]
    );
}

#[test]
fn separate_sidewalks_on_a_oneway() {
    let t = tags(&[("highway", "primary"), ("oneway", "yes"), ("sidewalk", "separate")]);
    let lanes = get_lane_specs_ltr(&t, &config(DrivingSide::Right, true));
    assert_eq!(kinds(&lanes), vec![(Driving, Fwd), (Sidewalk, Fwd)]);
}

#[test]
fn separation_values() {
    let cases = [
        ("bollard", Some(BufferType::FlexPosts)),
        ("vertical_panel", Some(BufferType::FlexPosts)),
        ("kerb", Some(BufferType::Curb)),
        ("separation_kerb", Some(BufferType::Curb)),
        ("grass_verge", Some(BufferType::Planters)),
        ("planter", Some(BufferType::Planters)),
        ("tree_row", Some(BufferType::Planters)),
        ("guard_rail", Some(BufferType::JerseyBarrier)),
        ("jersey_barrier", Some(BufferType::JerseyBarrier)),
        ("railing", Some(BufferType::JerseyBarrier)),
        ("barred_area", Some(BufferType::Stripes)),
        ("dashed_line", Some(BufferType::Stripes)),
        ("solid_line", Some(BufferType::Stripes)),
        ("parking_lane", None),
        ("hedge", None),
    ];
    for (v, want) in cases {
        assert_eq!(osm_separation_type(&v.to_string()), want, "{}", v);
    }
}

fn inferred(pairs: &[(&str, &str)], side: DrivingSide, on: bool) -> Option<String> {
    let mut t = tags(pairs);
    infer_sidewalk_tags(&mut t, &config(side, on));
    t.get("sidewalk").cloned()
}

#[test]
fn sidewalk_inference() {
    let r = DrivingSide::Right;
    assert_eq!(inferred(&[("highway", "primary")], r, false), None);
    assert_eq!(
        inferred(&[("sidewalk", "left")], r, true),
        Some("left".to_string())
    );
    assert_eq!(
        inferred(&[("sidewalk:left", "no"), ("sidewalk:right", "yes")], r, true),
        Some("right".to_string())
    );
    assert_eq!(
        inferred(&[("sidewalk:left", "separate")], r, true),
        Some("both".to_string())
    );
    assert_eq!(
        inferred(&[("sidewalk:left", "no"), ("sidewalk:right", "no")], r, true),
        Some("none".to_string())
    );
    assert_eq!(
        inferred(&[("highway", "motorway")], r, true),
        Some("none".to_string())
    );
    assert_eq!(
        inferred(&[("highway", "primary"), ("junction", "roundabout")], r, true),
        Some("none".to_string())
    );
    assert_eq!(
        inferred(&[("highway", "primary"), ("oneway", "yes")], r, true),
        Some("right".to_string())
    );
    assert_eq!(
        inferred(&[("highway", "primary"), ("oneway", "yes")], DrivingSide::Left, true),
        Some("left".to_string())
    );
    assert_eq!(
        inferred(&[("highway", "residential"), ("oneway", "yes")], r, true),
        Some("both".to_string())
    );
    assert_eq!(
        inferred(
            &[
                ("highway", "residential"),
                ("oneway", "yes"),
                ("dual_carriageway", "yes")
            ],
            r,
            true
        ),
        Some("right".to_string())
    );
    assert_eq!(
        inferred(&[("highway", "primary")], r, true),
        Some("both".to_string())
    );
}

#[test]
fn left_track_on_a_oneway_goes_inside_the_centre_lane() {
    let t = tags(&[
        ("highway", "primary"),
        ("oneway", "yes"),
        ("centre_turn_lane", "yes"),
        ("cycleway:left", "track"),
    ]);
    let lanes = get_lane_specs_ltr(&t, &config(DrivingSide::Right, false));
    assert_eq!(
        kinds(&lanes),
        vec![(Biking, Fwd), (SharedLeftTurn, Fwd), (Driving, Fwd)]
    );
}

#[test]
fn buffers_on_both_sides_of_a_bike_lane() {
    let t = tags(&[
        ("highway", "primary"),
        ("oneway", "yes"),
        ("cycleway:right", "lane"),
        ("cycleway:right:separation:left", "solid_line"),
        ("cycleway:left:separation:right", "jersey_barrier"),
        ("cycleway:left:separation:left", "kerb"),
    ]);
    let lanes = get_lane_specs_ltr(&t, &config(DrivingSide::Right, false));
    assert_eq!(
        kinds(&lanes),
        vec![
            (Driving, Fwd),
            (Buffer(BufferType::Stripes), Fwd),
            (Biking, Fwd),
            (Buffer(BufferType::JerseyBarrier), Fwd)
        ]
    );
    assert_eq!(lanes[1].width.mm, 1500);
    assert_eq!(lanes[3].width.mm, 1500);
}

#[test]
fn left_hand_right_track_goes_backward() {
    let t = tags(&[
        ("highway", "primary"),
        ("lanes", "2"),
        ("cycleway:right", "track"),
        ("sidewalk", "both"),
    ]);
    let lanes = get_lane_specs_ltr(&t, &config(DrivingSide::Left, false));
    assert_eq!(
        kinds(&lanes),
        vec![
            (Sidewalk, Fwd),
            (Driving, Fwd),
            (Driving, Back),
            (Biking, Back),
            (Sidewalk, Back)
        ]
    );
}
