//! What lane inference computes, stated stage by stage over the
//! mathematical view of the tags. Each road side is listed from the
//! centerline outwards.

use crate::lane::{
    assembled, typical_lane, BufferType, Direction, Distance, DrivingSide, LaneSpec, LaneType,
    MapConfig,
};
use crate::tags::has_tag;
use crate::text::{parse_count, parse_millis};
use vstd::prelude::*;

verus! {

pub type TagMap = Map<Seq<char>, Seq<char>>;

// ---------------------------------------------------------------------------
// Sidewalk pre-pass
/// The value that the pre-pass gives the `sidewalk` tag, if it sets one.
pub open spec fn inferred_sidewalk(t: TagMap, cfg: MapConfig) -> Option<Seq<char>> {
    if t.contains_key("sidewalk"@) || !cfg.inferred_sidewalks {
        None
    } else if t.contains_key("sidewalk:left"@) || t.contains_key("sidewalk:right"@) {
        let right = !has_tag(t, "sidewalk:right"@, "no"@);
        let left = !has_tag(t, "sidewalk:left"@, "no"@);
        Some(
            if right && left {
                "both"@
            } else if right {
                "right"@
            } else if left {
                "left"@
            } else {
                "none"@
            },
        )
    } else if has_tag(t, "highway"@, "motorway"@) || has_tag(t, "highway"@, "motorway_link"@)
        || has_tag(t, "junction"@, "intersection"@) || has_tag(t, "junction"@, "roundabout"@)
        || has_tag(t, "foot"@, "no"@) || has_tag(t, "highway"@, "service"@) || has_tag(
        t,
        "highway"@,
        "cycleway"@,
    ) || has_tag(t, "highway"@, "pedestrian"@) || has_tag(t, "highway"@, "track"@) {
        Some("none"@)
    } else if has_tag(t, "oneway"@, "yes"@) {
        if (has_tag(t, "highway"@, "residential"@) || has_tag(t, "highway"@, "living_street"@))
            && !has_tag(t, "dual_carriageway"@, "yes"@) {
            Some("both"@)
        } else if cfg.driving_side == DrivingSide::Right {
            Some("right"@)
        } else {
            Some("left"@)
        }
    } else {
        Some("both"@)
    }
}

/// The tags after the sidewalk pre-pass.
pub open spec fn with_inferred_sidewalk(t: TagMap, cfg: MapConfig) -> TagMap {
    match inferred_sidewalk(t, cfg) {
        Some(v) => t.insert("sidewalk"@, v),
        None => t,
    }
}

// ---------------------------------------------------------------------------
// Special road classes
pub open spec fn fwd_lane(lt: LaneType, t: TagMap) -> LaneSpec {
    typical_lane(lt, Direction::Fwd, t)
}

pub open spec fn back_lane(lt: LaneType, t: TagMap) -> LaneSpec {
    typical_lane(lt, Direction::Back, t)
}

/// The sides of a cycleway: a bike lane each way (one only when it is
/// one-way), each with a shoulder to walk on unless walking is forbidden.
pub open spec fn cycleway_sides(t: TagMap) -> (Seq<LaneSpec>, Seq<LaneSpec>) {
    let f0 = seq![fwd_lane(LaneType::Biking, t)];
    let b0 = if has_tag(t, "oneway"@, "yes"@) {
        Seq::<LaneSpec>::empty()
    } else {
        seq![back_lane(LaneType::Biking, t)]
    };
    if has_tag(t, "foot"@, "no"@) {
        (f0, b0)
    } else {
        (
            f0.push(fwd_lane(LaneType::Shoulder, t)),
            if b0.len() > 0 {
                b0.push(back_lane(LaneType::Shoulder, t))
            } else {
                b0
            },
        )
    }
}

/// The lanes of rail, cycleways and pedestrian ways; `None` for other roads.
pub open spec fn special_road(t: TagMap, cfg: MapConfig) -> Option<Seq<LaneSpec>> {
    if has_tag(t, "railway"@, "light_rail"@) || has_tag(t, "railway"@, "rail"@) {
        Some(seq![fwd_lane(LaneType::LightRail, t)])
    } else if has_tag(t, "highway"@, "cycleway"@) {
        Some(assembled(cycleway_sides(t).0, cycleway_sides(t).1, cfg.driving_side))
    } else if has_tag(t, "highway"@, "footway"@) && (has_tag(t, "footway"@, "crossing"@)
        || has_tag(t, "footway"@, "sidewalk"@)) {
        Some(seq![fwd_lane(LaneType::Sidewalk, t)])
    } else if has_tag(t, "highway"@, "footway"@) || has_tag(t, "highway"@, "path"@) || has_tag(
        t,
        "highway"@,
        "pedestrian"@,
    ) || has_tag(t, "highway"@, "steps"@) || has_tag(t, "highway"@, "track"@) {
        if has_tag(t, "bicycle"@, "designated"@) || has_tag(t, "bicycle"@, "yes"@) || has_tag(
            t,
            "bicycle"@,
            "dismount"@,
        ) {
            Some(seq![fwd_lane(LaneType::SharedUse, t)])
        } else {
            Some(seq![fwd_lane(LaneType::Footway, t)])
        }
    } else {
        None
    }
}

// ---------------------------------------------------------------------------
// Driving lanes
pub open spec fn is_oneway(t: TagMap) -> bool {
    has_tag(t, "oneway"@, "yes"@) || has_tag(t, "oneway"@, "reversible"@) || has_tag(
        t,
        "junction"@,
        "roundabout"@,
    )
}

/// The count that tag `k` holds, if it is set and reads as a `usize`.
pub open spec fn count_tag(t: TagMap, k: Seq<char>) -> Option<nat> {
    if t.contains_key(k) {
        parse_count(t[k])
    } else {
        None
    }
}

pub open spec fn num_driving_fwd(t: TagMap) -> nat {
    match count_tag(t, "lanes:forward"@) {
        Some(n) => n,
        None => match count_tag(t, "lanes"@) {
            Some(n) => if is_oneway(t) {
                n
            } else {
                (n + 1) / 2
            },
            None => 1,
        },
    }
}

pub open spec fn num_driving_back(t: TagMap) -> nat {
    match count_tag(t, "lanes:backward"@) {
        Some(n) => n,
        None => match count_tag(t, "lanes"@) {
            Some(n) => {
                let base: nat = if n >= num_driving_fwd(t) {
                    (n - num_driving_fwd(t)) as nat
                } else {
                    0
                };
                if is_oneway(t) || base >= 1 {
                    base
                } else {
                    1
                }
            },
            None => if is_oneway(t) {
                0
            } else {
                1
            },
        },
    }
}

pub open spec fn starts_with_no(t: TagMap, k: Seq<char>) -> bool {
    t.contains_key(k) && "no"@.is_prefix_of(t[k])
}

/// The type of the road's driving lanes.
pub open spec fn driving_type(t: TagMap) -> LaneType {
    if has_tag(t, "access"@, "no"@) && (has_tag(t, "bus"@, "yes"@) || has_tag(t, "psv"@, "yes"@)
        || has_tag(t, "psv"@, "designated"@)) {
        LaneType::Bus
    } else if starts_with_no(t, "motor_vehicle:conditional"@) && has_tag(t, "bus"@, "yes"@) {
        LaneType::Bus
    } else if has_tag(t, "access"@, "no"@) || has_tag(t, "highway"@, "construction"@) {
        LaneType::Construction
    } else {
        LaneType::Driving
    }
}

pub open spec fn has_centre_turn_lane(t: TagMap) -> bool {
    has_tag(t, "lanes:both_ways"@, "1"@) || has_tag(t, "centre_turn_lane"@, "yes"@)
}

pub open spec fn initial_fwd(t: TagMap) -> Seq<LaneSpec> {
    let d = Seq::new(num_driving_fwd(t), |i: int| fwd_lane(driving_type(t), t));
    if has_centre_turn_lane(t) {
        seq![fwd_lane(LaneType::SharedLeftTurn, t)] + d
    } else {
        d
    }
}

pub open spec fn initial_back(t: TagMap) -> Seq<LaneSpec> {
    Seq::new(num_driving_back(t), |i: int| back_lane(driving_type(t), t))
}

// ---------------------------------------------------------------------------
// Bus lanes
/// The parts of `s` between `|` separators.
pub open spec fn split_bar(s: Seq<char>) -> Seq<Seq<char>>
    decreases s.len(),
{
    if s.len() == 0 {
        seq![Seq::<char>::empty()]
    } else {
        let r = split_bar(s.drop_last());
        if s.last() == '|' {
            r.push(Seq::empty())
        } else {
            r.update(r.len() - 1, r.last().push(s.last()))
        }
    }
}

pub open spec fn fwd_bus_lanes(t: TagMap) -> Option<Seq<char>> {
    if t.contains_key("bus:lanes:forward"@) {
        Some(t["bus:lanes:forward"@])
    } else if t.contains_key("psv:lanes:forward"@) {
        Some(t["psv:lanes:forward"@])
    } else if is_oneway(t) && t.contains_key("bus:lanes"@) {
        Some(t["bus:lanes"@])
    } else if is_oneway(t) && t.contains_key("psv:lanes"@) {
        Some(t["psv:lanes"@])
    } else {
        None
    }
}

pub open spec fn back_bus_lanes(t: TagMap) -> Option<Seq<char>> {
    if t.contains_key("bus:lanes:backward"@) {
        Some(t["bus:lanes:backward"@])
    } else if t.contains_key("psv:lanes:backward"@) {
        Some(t["psv:lanes:backward"@])
    } else {
        None
    }
}

/// `side` with the lanes that a per-lane specification marks `designated`
/// turned into bus lanes; the first `offset` lanes are not described by it.
/// A specification with the wrong number of parts changes nothing.
pub open spec fn with_bus_lanes(side: Seq<LaneSpec>, spec: Option<Seq<char>>, offset: int) -> Seq<
    LaneSpec,
> {
    match spec {
        None => side,
        Some(s) => {
            let parts = split_bar(s);
            if parts.len() + offset == side.len() {
                Seq::new(
                    side.len(),
                    |i: int|
                        if i >= offset && parts[i - offset] == "designated"@ {
                            LaneSpec { lt: LaneType::Bus, ..side[i] }
                        } else {
                            side[i]
                        },
                )
            } else {
                side
            }
        },
    }
}

pub open spec fn centre_offset(f: Seq<LaneSpec>) -> int {
    if f.len() > 0 && f[0].lt == LaneType::SharedLeftTurn {
        1
    } else {
        0
    }
}

// ---------------------------------------------------------------------------
// Bike lanes
pub open spec fn is_lane_or_track(t: TagMap, k: Seq<char>) -> bool {
    has_tag(t, k, "lane"@) || has_tag(t, k, "track"@)
}

pub open spec fn bike_sides(t: TagMap, cfg: MapConfig, f: Seq<LaneSpec>, b: Seq<LaneSpec>) -> (
    Seq<LaneSpec>,
    Seq<LaneSpec>,
) {
    let bf = fwd_lane(LaneType::Biking, t);
    let bb = back_lane(LaneType::Biking, t);
    let right_hand = cfg.driving_side == DrivingSide::Right;
    if is_lane_or_track(t, "cycleway"@) {
        (
            f.push(bf),
            if b.len() > 0 {
                b.push(bb)
            } else {
                b
            },
        )
    } else if is_lane_or_track(t, "cycleway:both"@) {
        (f.push(bf), b.push(bb))
    } else {
        let two_way_right = has_tag(t, "cycleway:right:oneway"@, "no"@) || has_tag(
            t,
            "oneway:bicycle"@,
            "no"@,
        );
        let (f1, b1) = if is_lane_or_track(t, "cycleway:right"@) {
            if right_hand {
                (
                    if two_way_right {
                        f.push(bb)
                    } else {
                        f
                    }.push(bf),
                    b,
                )
            } else {
                (
                    f,
                    if two_way_right {
                        b.push(bf)
                    } else {
                        b
                    }.push(bb),
                )
            }
        } else {
            (f, b)
        };
        let (f2, b2) = if has_tag(t, "cycleway:left"@, "opposite_lane"@) || has_tag(
            t,
            "cycleway"@,
            "opposite_lane"@,
        ) {
            if right_hand {
                (f1, b1.push(bb))
            } else {
                (f1.push(bf), b1)
            }
        } else {
            (f1, b1)
        };
        let two_way_left = has_tag(t, "cycleway:left:oneway"@, "no"@) || has_tag(
            t,
            "oneway:bicycle"@,
            "no"@,
        );
        if is_lane_or_track(t, "cycleway:left"@) || has_tag(
            t,
            "cycleway:left"@,
            "opposite_track"@,
        ) {
            if right_hand {
                if two_way_left {
                    (f2, b2.push(bf).push(bb))
                } else if is_oneway(t) {
                    (f2.insert(0, bf), b2)
                } else {
                    (f2, b2.push(bb))
                }
            } else {
                (
                    if two_way_left {
                        f2.push(bb)
                    } else {
                        f2
                    }.push(bf),
                    b2,
                )
            }
        } else {
            (f2, b2)
        }
    }
}

// ---------------------------------------------------------------------------
// Separation between bike lanes and their neighbours
/// The kind of separator that a `cycleway:*:separation:*` value names.
pub open spec fn separation_kind(v: Seq<char>) -> Option<BufferType> {
    if v == "bollard"@ || v == "vertical_panel"@ {
        Some(BufferType::FlexPosts)
    } else if v == "kerb"@ || v == "separation_kerb"@ {
        Some(BufferType::Curb)
    } else if v == "grass_verge"@ || v == "planter"@ || v == "tree_row"@ {
        Some(BufferType::Planters)
    } else if v == "guard_rail"@ || v == "jersey_barrier"@ || v == "railing"@ {
        Some(BufferType::JerseyBarrier)
    } else if v == "barred_area"@ || v == "dashed_line"@ || v == "solid_line"@ {
        Some(BufferType::Stripes)
    } else {
        None
    }
}

pub open spec fn separation_tag(t: TagMap, k: Seq<char>) -> Option<BufferType> {
    if t.contains_key(k) {
        separation_kind(t[k])
    } else {
        None
    }
}

/// The position of the first bike lane of `s`, or its length if it has none.
pub open spec fn first_bike(s: Seq<LaneSpec>) -> int
    decreases s.len(),
{
    if s.len() == 0 || s[0].lt == LaneType::Biking {
        0
    } else {
        1 + first_bike(s.drop_first())
    }
}

/// `s` with a separator of kind `kind` placed just before its first bike
/// lane, or just after it when `after` holds; unchanged without a bike lane.
pub open spec fn with_buffer(
    s: Seq<LaneSpec>,
    kind: Option<BufferType>,
    after: bool,
    dir: Direction,
    t: TagMap,
) -> Seq<LaneSpec> {
    match kind {
        None => s,
        Some(k) => if first_bike(s) < s.len() {
            s.insert(
                if after {
                    first_bike(s) + 1
                } else {
                    first_bike(s)
                },
                typical_lane(LaneType::Buffer(k), dir, t),
            )
        } else {
            s
        },
    }
}

pub open spec fn buffer_sides(t: TagMap, f: Seq<LaneSpec>, b: Seq<LaneSpec>) -> (
    Seq<LaneSpec>,
    Seq<LaneSpec>,
) {
    let f1 = with_buffer(
        f,
        separation_tag(t, "cycleway:right:separation:left"@),
        false,
        Direction::Fwd,
        t,
    );
    let b1 = with_buffer(
        b,
        separation_tag(t, "cycleway:left:separation:left"@),
        false,
        Direction::Back,
        t,
    );
    let f2 = with_buffer(
        f1,
        separation_tag(t, "cycleway:left:separation:right"@),
        true,
        Direction::Fwd,
        t,
    );
    (f2, b1)
}

// ---------------------------------------------------------------------------
// Parking, sidewalks, widths, shoulders
pub open spec fn parks(t: TagMap, k: Seq<char>) -> bool {
    has_tag(t, k, "parallel"@) || has_tag(t, k, "diagonal"@) || has_tag(t, k, "perpendicular"@)
}

pub open spec fn parking_sides(t: TagMap, f: Seq<LaneSpec>, b: Seq<LaneSpec>) -> (
    Seq<LaneSpec>,
    Seq<LaneSpec>,
) {
    (
        if parks(t, "parking:lane:right"@) || parks(t, "parking:lane:both"@) {
            f.push(fwd_lane(LaneType::Parking, t))
        } else {
            f
        },
        if parks(t, "parking:lane:left"@) || parks(t, "parking:lane:both"@) {
            b.push(back_lane(LaneType::Parking, t))
        } else {
            b
        },
    )
}

pub open spec fn sidewalk_sides(t: TagMap, cfg: MapConfig, f: Seq<LaneSpec>, b: Seq<LaneSpec>) -> (
    Seq<LaneSpec>,
    Seq<LaneSpec>,
) {
    let sf = fwd_lane(LaneType::Sidewalk, t);
    let sb = back_lane(LaneType::Sidewalk, t);
    let right_hand = cfg.driving_side == DrivingSide::Right;
    if has_tag(t, "sidewalk"@, "both"@) {
        (f.push(sf), b.push(sb))
    } else if has_tag(t, "sidewalk"@, "separate"@) && cfg.inferred_sidewalks {
        (
            f.push(sf),
            if b.len() > 0 {
                b.push(sb)
            } else {
                b
            },
        )
    } else if has_tag(t, "sidewalk"@, "right"@) {
        if right_hand {
            (f.push(sf), b)
        } else {
            (f, b.push(sb))
        }
    } else if has_tag(t, "sidewalk"@, "left"@) {
        if right_hand {
            (f, b.push(sb))
        } else {
            (f.push(sf), b)
        }
    } else {
        (f, b)
    }
}

/// The width, in millimeters, that tag `k` gives, if it reads as a positive
/// number of meters.
pub open spec fn width_tag(t: TagMap, k: Seq<char>) -> Option<u64> {
    if t.contains_key(k) {
        match parse_millis(t[k]) {
            Some(n) => if n > 0 {
                Some(n as u64)
            } else {
                None
            },
            None => None,
        }
    } else {
        None
    }
}

/// `s` with its outermost lane given width `w`, if both exist.
pub open spec fn with_outer_width(s: Seq<LaneSpec>, w: Option<u64>) -> Seq<LaneSpec> {
    match w {
        Some(mm) => if s.len() > 0 {
            s.update(s.len() - 1, LaneSpec { width: Distance { mm }, ..s.last() })
        } else {
            s
        },
        None => s,
    }
}

pub open spec fn width_sides(t: TagMap, cfg: MapConfig, f: Seq<LaneSpec>, b: Seq<LaneSpec>) -> (
    Seq<LaneSpec>,
    Seq<LaneSpec>,
) {
    let left = width_tag(t, "sidewalk:left:width"@);
    let right = width_tag(t, "sidewalk:right:width"@);
    if cfg.driving_side == DrivingSide::Right {
        (with_outer_width(f, right), with_outer_width(b, left))
    } else {
        (with_outer_width(f, left), with_outer_width(b, right))
    }
}

pub open spec fn needs_shoulder(s: Seq<LaneSpec>) -> bool {
    s.len() == 0 || s.last().lt != LaneType::Sidewalk
}

pub open spec fn no_walking(t: TagMap) -> bool {
    has_tag(t, "highway"@, "motorway"@) || has_tag(t, "highway"@, "motorway_link"@) || has_tag(
        t,
        "highway"@,
        "construction"@,
    ) || has_tag(t, "foot"@, "no"@) || has_tag(t, "access"@, "no"@) || has_tag(
        t,
        "motorroad"@,
        "yes"@,
    )
}

pub open spec fn shoulder_sides(t: TagMap, cfg: MapConfig, f: Seq<LaneSpec>, b: Seq<LaneSpec>) -> (
    Seq<LaneSpec>,
    Seq<LaneSpec>,
) {
    let nf = needs_shoulder(f) && !no_walking(t);
    let nb = needs_shoulder(b) && !no_walking(t) && !has_tag(t, "oneway"@, "yes"@);
    if cfg.inferred_sidewalks || has_tag(t, "highway"@, "living_street"@) {
        (
            if nf {
                f.push(fwd_lane(LaneType::Shoulder, t))
            } else {
                f
            },
            if nb {
                b.push(back_lane(LaneType::Shoulder, t))
            } else {
                b
            },
        )
    } else {
        (f, b)
    }
}

// ---------------------------------------------------------------------------
// The whole road
/// Whether a one-way cycle track on the left of a one-way road, with
/// right-hand driving, goes in next to the centerline of the forward side.
pub open spec fn bike_track_at_centre(t: TagMap, cfg: MapConfig) -> bool {
    &&& cfg.driving_side == DrivingSide::Right
    &&& !is_lane_or_track(t, "cycleway"@)
    &&& !is_lane_or_track(t, "cycleway:both"@)
    &&& is_lane_or_track(t, "cycleway:left"@) || has_tag(t, "cycleway:left"@, "opposite_track"@)
    &&& !has_tag(t, "cycleway:left:oneway"@, "no"@)
    &&& !has_tag(t, "oneway:bicycle"@, "no"@)
    &&& is_oneway(t)
}

/// Both sides of an ordinary road after the stages up to the bike lanes.
pub open spec fn sides_with_bikes(t: TagMap, cfg: MapConfig) -> (Seq<LaneSpec>, Seq<LaneSpec>) {
    let f0 = initial_fwd(t);
    let b0 = initial_back(t);
    bike_sides(
        t,
        cfg,
        with_bus_lanes(f0, fwd_bus_lanes(t), centre_offset(f0)),
        with_bus_lanes(b0, back_bus_lanes(t), 0),
    )
}

/// Both sides of an ordinary road (not rail, a cycleway or a pedestrian way).
pub open spec fn road_sides(t: TagMap, cfg: MapConfig) -> (Seq<LaneSpec>, Seq<LaneSpec>) {
    if driving_type(t) == LaneType::Construction {
        (initial_fwd(t), initial_back(t))
    } else {
        let s2 = sides_with_bikes(t, cfg);
        let s3 = buffer_sides(t, s2.0, s2.1);
        let s4 = if driving_type(t) == LaneType::Driving {
            parking_sides(t, s3.0, s3.1)
        } else {
            s3
        };
        let s5 = sidewalk_sides(t, cfg, s4.0, s4.1);
        let s6 = width_sides(t, cfg, s5.0, s5.1);
        shoulder_sides(t, cfg, s6.0, s6.1)
    }
}

/// The lanes, left to right, of a road whose tags have been through the
/// sidewalk pre-pass.
pub open spec fn lanes_of(t: TagMap, cfg: MapConfig) -> Seq<LaneSpec> {
    match special_road(t, cfg) {
        Some(s) => s,
        None => assembled(road_sides(t, cfg).0, road_sides(t, cfg).1, cfg.driving_side),
    }
}

/// The lanes, left to right, of a road with tags `t`.
pub open spec fn lane_specs(t: TagMap, cfg: MapConfig) -> Seq<LaneSpec> {
    lanes_of(with_inferred_sidewalk(t, cfg), cfg)
}

} // verus!
