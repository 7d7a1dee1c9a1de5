//! Properties of lane inference that hold for every input, proved from the
//! stage-by-stage statement of what inference computes.

use crate::inference::{
    back_bus_lanes, back_lane, bike_sides, bike_track_at_centre, buffer_sides, centre_offset,
    cycleway_sides, driving_type, first_bike, fwd_bus_lanes, fwd_lane, has_centre_turn_lane,
    initial_back, initial_fwd, is_lane_or_track, is_oneway, lane_specs, num_driving_back,
    num_driving_fwd, parking_sides, road_sides, separation_tag, shoulder_sides, sides_with_bikes,
    sidewalk_sides, special_road, width_sides, width_tag, with_buffer, with_bus_lanes,
    with_inferred_sidewalk, with_outer_width, TagMap,
};
use crate::lane::{
    assembled, typical_width, BufferType, Direction, DrivingSide, LaneSpec, LaneType, MapConfig,
};
use crate::tags::has_tag;
use vstd::prelude::*;

verus! {

/// Every lane of `s` has a positive width.
pub open spec fn widths_positive(s: Seq<LaneSpec>) -> bool {
    forall|i: int| 0 <= i < s.len() ==> (#[trigger] s[i]).width.mm > 0
}

proof fn lemma_typical_width_positive()
    ensures
        forall|lt: LaneType, t: TagMap| #[trigger] typical_width(lt, t) > 0,
{
    assert forall|lt: LaneType, t: TagMap| #[trigger] typical_width(lt, t) > 0 by {
        match lt {
            LaneType::Buffer(_) => {},
            _ => {},
        }
    }
}

proof fn lemma_assembled(f: Seq<LaneSpec>, b: Seq<LaneSpec>, side: DrivingSide)
    ensures
        assembled(f, b, side).len() == f.len() + b.len(),
        widths_positive(f) && widths_positive(b) ==> widths_positive(assembled(f, b, side)),
{
    let a = assembled(f, b, side);
    if widths_positive(f) && widths_positive(b) {
        assert forall|i: int| 0 <= i < a.len() implies (#[trigger] a[i]).width.mm > 0 by {
            match side {
                DrivingSide::Right => {
                    if i < b.len() {
                        assert(a[i] == b[b.len() - 1 - i]);
                    } else {
                        assert(a[i] == f[i - b.len()]);
                    }
                },
                DrivingSide::Left => {
                    if i < f.len() {
                        assert(a[i] == f[f.len() - 1 - i]);
                    } else {
                        assert(a[i] == b[i - f.len()]);
                    }
                },
            }
        }
    }
}

proof fn lemma_with_buffer(
    s: Seq<LaneSpec>,
    kind: Option<crate::lane::BufferType>,
    after: bool,
    dir: crate::lane::Direction,
    t: TagMap,
)
    requires
        0 <= first_bike(s) <= s.len(),
    ensures
        with_buffer(s, kind, after, dir, t).len() >= s.len(),
        widths_positive(s) ==> widths_positive(with_buffer(s, kind, after, dir, t)),
{
    lemma_typical_width_positive();
    if let Some(k) = kind {
        if first_bike(s) < s.len() {
            let pos = if after {
                first_bike(s) + 1
            } else {
                first_bike(s)
            };
            let l = crate::lane::typical_lane(LaneType::Buffer(k), dir, t);
            s.insert_ensures(pos, l);
            let r = s.insert(pos, l);
            if widths_positive(s) {
                assert forall|i: int| 0 <= i < r.len() implies (#[trigger] r[i]).width.mm > 0 by {
                    if i > pos {
                        assert(r[(i - 1) + 1] == s[i - 1]);
                    }
                }
            }
        }
    }
}

/// Pushing, inserting and updating with lanes of positive width keep all
/// widths positive; none of the stages after the first shortens a side.
proof fn lemma_stages(t: TagMap, cfg: MapConfig, f: Seq<LaneSpec>, b: Seq<LaneSpec>)
    ensures
        ({
            let s = bike_sides(t, cfg, f, b);
            s.0.len() >= f.len() && s.1.len() >= b.len() && (widths_positive(f)
                && widths_positive(b) ==> widths_positive(s.0) && widths_positive(s.1))
        }),
        ({
            let s = buffer_sides(t, f, b);
            s.0.len() >= f.len() && s.1.len() >= b.len() && (widths_positive(f)
                && widths_positive(b) ==> widths_positive(s.0) && widths_positive(s.1))
        }),
        ({
            let s = parking_sides(t, f, b);
            s.0.len() >= f.len() && s.1.len() >= b.len() && (widths_positive(f)
                && widths_positive(b) ==> widths_positive(s.0) && widths_positive(s.1))
        }),
        ({
            let s = sidewalk_sides(t, cfg, f, b);
            s.0.len() >= f.len() && s.1.len() >= b.len() && (widths_positive(f)
                && widths_positive(b) ==> widths_positive(s.0) && widths_positive(s.1))
        }),
        ({
            let s = width_sides(t, cfg, f, b);
            s.0.len() >= f.len() && s.1.len() >= b.len() && (widths_positive(f)
                && widths_positive(b) ==> widths_positive(s.0) && widths_positive(s.1))
        }),
        ({
            let s = shoulder_sides(t, cfg, f, b);
            s.0.len() >= f.len() && s.1.len() >= b.len() && (widths_positive(f)
                && widths_positive(b) ==> widths_positive(s.0) && widths_positive(s.1))
        }),
{
    lemma_typical_width_positive();
    let f1 = with_buffer(
        f,
        separation_tag(t, "cycleway:right:separation:left"@),
        false,
        Direction::Fwd,
        t,
    );
    lemma_first_bike_bound(f);
    lemma_first_bike_bound(b);
    lemma_first_bike_bound(f1);
    lemma_with_buffer(
        f,
        separation_tag(t, "cycleway:right:separation:left"@),
        false,
        Direction::Fwd,
        t,
    );
    lemma_with_buffer(
        b,
        separation_tag(t, "cycleway:left:separation:left"@),
        false,
        Direction::Back,
        t,
    );
    lemma_with_buffer(
        f1,
        separation_tag(t, "cycleway:left:separation:right"@),
        true,
        Direction::Fwd,
        t,
    );
}

proof fn lemma_first_bike_bound(s: Seq<LaneSpec>)
    ensures
        0 <= first_bike(s) <= s.len(),
    decreases s.len(),
{
    if s.len() > 0 && s[0].lt != LaneType::Biking {
        lemma_first_bike_bound(s.drop_first());
    }
}

proof fn lemma_bus_lanes(side: Seq<LaneSpec>, spec: Option<Seq<char>>, offset: int)
    ensures
        with_bus_lanes(side, spec, offset).len() == side.len(),
        forall|i: int|
            0 <= i < side.len() ==> (#[trigger] with_bus_lanes(side, spec, offset)[i]).width
                == side[i].width && with_bus_lanes(side, spec, offset)[i].dir == side[i].dir,
{
}

/// The sides of an ordinary road are at least as long as their driving
/// lanes, and all their widths are positive.
proof fn lemma_road_sides(t: TagMap, cfg: MapConfig)
    ensures
        road_sides(t, cfg).0.len() >= initial_fwd(t).len(),
        road_sides(t, cfg).1.len() >= initial_back(t).len(),
        widths_positive(road_sides(t, cfg).0),
        widths_positive(road_sides(t, cfg).1),
{
    lemma_typical_width_positive();
    let f0 = initial_fwd(t);
    let b0 = initial_back(t);
    assert(widths_positive(f0));
    assert(widths_positive(b0));
    let f1 = with_bus_lanes(f0, fwd_bus_lanes(t), centre_offset(f0));
    let b1 = with_bus_lanes(b0, back_bus_lanes(t), 0);
    lemma_bus_lanes(f0, fwd_bus_lanes(t), centre_offset(f0));
    lemma_bus_lanes(b0, back_bus_lanes(t), 0);
    assert(widths_positive(f1));
    assert(widths_positive(b1));
    lemma_stages(t, cfg, f1, b1);
    let s2 = sides_with_bikes(t, cfg);
    lemma_stages(t, cfg, s2.0, s2.1);
    let s3 = buffer_sides(t, s2.0, s2.1);
    lemma_stages(t, cfg, s3.0, s3.1);
    let s4 = if driving_type(t) == LaneType::Driving {
        parking_sides(t, s3.0, s3.1)
    } else {
        s3
    };
    lemma_stages(t, cfg, s4.0, s4.1);
    let s5 = sidewalk_sides(t, cfg, s4.0, s4.1);
    lemma_stages(t, cfg, s5.0, s5.1);
    let s6 = width_sides(t, cfg, s5.0, s5.1);
    lemma_stages(t, cfg, s6.0, s6.1);
}

/// Every lane that inference returns has a positive width.
pub proof fn lemma_widths_positive(t: TagMap, cfg: MapConfig)
    ensures
        widths_positive(lane_specs(t, cfg)),
{
    lemma_typical_width_positive();
    let tt = with_inferred_sidewalk(t, cfg);
    match special_road(tt, cfg) {
        Some(s) => {
            let c = cycleway_sides(tt);
            assert(widths_positive(c.0));
            assert(widths_positive(c.1));
            lemma_assembled(c.0, c.1, cfg.driving_side);
        },
        None => {
            lemma_road_sides(tt, cfg);
            lemma_assembled(road_sides(tt, cfg).0, road_sides(tt, cfg).1, cfg.driving_side);
        },
    }
}

/// Two inferences from equal tags and equal configurations give equal lanes.
pub proof fn lemma_deterministic(t1: TagMap, t2: TagMap, c1: MapConfig, c2: MapConfig)
    requires
        t1 == t2,
        c1 == c2,
    ensures
        lane_specs(t1, c1) == lane_specs(t2, c2),
{
}

/// The sidewalk pre-pass changes no tag but `sidewalk`.
proof fn lemma_prepass_frame(t: TagMap, cfg: MapConfig, k: Seq<char>)
    requires
        k != "sidewalk"@,
    ensures
        with_inferred_sidewalk(t, cfg).contains_key(k) == t.contains_key(k),
        t.contains_key(k) ==> with_inferred_sidewalk(t, cfg)[k] == t[k],
{
}

/// The keys that decide the class of a road, its driving lanes and their
/// type all differ from `sidewalk`; so the pre-pass leaves those alone.
proof fn lemma_prepass_keeps_road(t: TagMap, cfg: MapConfig)
    ensures
        special_road(with_inferred_sidewalk(t, cfg), cfg) is None <==> special_road(t, cfg) is None,
        driving_type(with_inferred_sidewalk(t, cfg)) == driving_type(t),
        num_driving_fwd(with_inferred_sidewalk(t, cfg)) == num_driving_fwd(t),
        num_driving_back(with_inferred_sidewalk(t, cfg)) == num_driving_back(t),
        has_centre_turn_lane(with_inferred_sidewalk(t, cfg)) == has_centre_turn_lane(t),
        bike_track_at_centre(with_inferred_sidewalk(t, cfg), cfg) == bike_track_at_centre(t, cfg),
{
    reveal_strlit("sidewalk");
    reveal_strlit("railway");
    reveal_strlit("highway");
    reveal_strlit("footway");
    reveal_strlit("bicycle");
    reveal_strlit("oneway");
    reveal_strlit("foot");
    reveal_strlit("junction");
    reveal_strlit("lanes");
    reveal_strlit("lanes:forward");
    reveal_strlit("lanes:backward");
    reveal_strlit("access");
    reveal_strlit("bus");
    reveal_strlit("psv");
    reveal_strlit("motor_vehicle:conditional");
    reveal_strlit("lanes:both_ways");
    reveal_strlit("centre_turn_lane");
    reveal_strlit("cycleway");
    reveal_strlit("cycleway:both");
    reveal_strlit("cycleway:left");
    reveal_strlit("cycleway:left:oneway");
    reveal_strlit("oneway:bicycle");
    let keys = seq![
        "railway"@,
        "highway"@,
        "footway"@,
        "bicycle"@,
        "oneway"@,
        "foot"@,
        "junction"@,
        "lanes"@,
        "lanes:forward"@,
        "lanes:backward"@,
        "access"@,
        "bus"@,
        "psv"@,
        "motor_vehicle:conditional"@,
        "lanes:both_ways"@,
        "centre_turn_lane"@,
        "cycleway"@,
        "cycleway:both"@,
        "cycleway:left"@,
        "cycleway:left:oneway"@,
        "oneway:bicycle"@,
    ];
    assert forall|i: int| 0 <= i < keys.len() implies #[trigger] keys[i] != "sidewalk"@ by {
        if i == 6 || i == 16 {
            assert(keys[i][0] != "sidewalk"@[0]);
        } else {
            assert(keys[i].len() != "sidewalk"@.len());
        }
    }
    assert forall|i: int| 0 <= i < keys.len() implies ({
        let k = #[trigger] keys[i];
        &&& with_inferred_sidewalk(t, cfg).contains_key(k) == t.contains_key(k)
        &&& t.contains_key(k) ==> with_inferred_sidewalk(t, cfg)[k] == t[k]
    }) by {
        lemma_prepass_frame(t, cfg, keys[i]);
    }
    assert(keys[0] == "railway"@);
    assert(keys[1] == "highway"@);
    assert(keys[2] == "footway"@);
    assert(keys[3] == "bicycle"@);
    assert(keys[4] == "oneway"@);
    assert(keys[5] == "foot"@);
    assert(keys[6] == "junction"@);
    assert(keys[7] == "lanes"@);
    assert(keys[8] == "lanes:forward"@);
    assert(keys[9] == "lanes:backward"@);
    assert(keys[10] == "access"@);
    assert(keys[11] == "bus"@);
    assert(keys[12] == "psv"@);
    assert(keys[13] == "motor_vehicle:conditional"@);
    assert(keys[14] == "lanes:both_ways"@);
    assert(keys[15] == "centre_turn_lane"@);
    assert(keys[16] == "cycleway"@);
    assert(keys[17] == "cycleway:both"@);
    assert(keys[18] == "cycleway:left"@);
    assert(keys[19] == "cycleway:left:oneway"@);
    assert(keys[20] == "oneway:bicycle"@);
}

/// Inference returns at least one lane for a road of a special class, and
/// for an ordinary road with at least one driving lane.
pub proof fn lemma_never_empty(t: TagMap, cfg: MapConfig)
    requires
        special_road(t, cfg) is Some || num_driving_fwd(t) + num_driving_back(t) > 0,
    ensures
        lane_specs(t, cfg).len() > 0,
{
    let tt = with_inferred_sidewalk(t, cfg);
    lemma_prepass_keeps_road(t, cfg);
    match special_road(tt, cfg) {
        Some(s) => {
            let c = cycleway_sides(tt);
            lemma_assembled(c.0, c.1, cfg.driving_side);
        },
        None => {
            lemma_road_sides(tt, cfg);
            lemma_assembled(road_sides(tt, cfg).0, road_sides(tt, cfg).1, cfg.driving_side);
        },
    }
}

/// On an ordinary road whose driving lanes are under construction, every
/// lane is under construction or the centre turn lane: no bike lanes,
/// parking, separators, sidewalks or shoulders.
pub proof fn lemma_construction_only(t: TagMap, cfg: MapConfig)
    requires
        special_road(t, cfg) is None,
        driving_type(t) == LaneType::Construction,
    ensures
        forall|i: int|
            0 <= i < lane_specs(t, cfg).len() ==> (#[trigger] lane_specs(t, cfg)[i]).lt
                == LaneType::Construction || lane_specs(t, cfg)[i].lt == LaneType::SharedLeftTurn,
{
    let tt = with_inferred_sidewalk(t, cfg);
    lemma_prepass_keeps_road(t, cfg);
    let f = initial_fwd(tt);
    let b = initial_back(tt);
    let a = assembled(f, b, cfg.driving_side);
    assert forall|i: int| 0 <= i < a.len() implies (#[trigger] a[i]).lt == LaneType::Construction
        || a[i].lt == LaneType::SharedLeftTurn by {
        match cfg.driving_side {
            DrivingSide::Right => {
                if i < b.len() {
                    assert(a[i] == b[b.len() - 1 - i]);
                } else {
                    assert(a[i] == f[i - b.len()]);
                }
            },
            DrivingSide::Left => {
                if i < f.len() {
                    assert(a[i] == f[f.len() - 1 - i]);
                } else {
                    assert(a[i] == b[i - f.len()]);
                }
            },
        }
    }
}

/// Whether the lane before or the lane after position `i` of `s` is a bike
/// lane.
pub open spec fn bike_beside(s: Seq<LaneSpec>, i: int) -> bool {
    (i > 0 && s[i - 1].lt == LaneType::Biking) || (i + 1 < s.len() && s[i + 1].lt
        == LaneType::Biking)
}

/// Every separator of `s` has a bike lane right next to it.
pub open spec fn buffers_beside_bikes(s: Seq<LaneSpec>) -> bool {
    forall|i: int| 0 <= i < s.len() && s[i].lt is Buffer ==> #[trigger] bike_beside(s, i)
}

spec fn bike_after(s: Seq<LaneSpec>, i: int) -> bool {
    i + 1 < s.len() && s[i + 1].lt == LaneType::Biking
}

/// Every separator of `s` has a bike lane just after it.
spec fn buffers_before_bikes(s: Seq<LaneSpec>) -> bool {
    forall|i: int| 0 <= i < s.len() && s[i].lt is Buffer ==> #[trigger] bike_after(s, i)
}

spec fn no_buffers(s: Seq<LaneSpec>) -> bool {
    forall|i: int| 0 <= i < s.len() ==> !((#[trigger] s[i]).lt is Buffer)
}

proof fn lemma_first_bike_is_bike(s: Seq<LaneSpec>)
    ensures
        0 <= first_bike(s) <= s.len(),
        first_bike(s) < s.len() ==> s[first_bike(s)].lt == LaneType::Biking,
        forall|j: int| 0 <= j < first_bike(s) ==> s[j].lt != LaneType::Biking,
    decreases s.len(),
{
    if s.len() > 0 && s[0].lt != LaneType::Biking {
        lemma_first_bike_is_bike(s.drop_first());
        assert forall|j: int| 0 <= j < first_bike(s) implies s[j].lt != LaneType::Biking by {
            if j > 0 {
                assert(s[j] == s.drop_first()[j - 1]);
            }
        }
    }
}

proof fn lemma_buffer_before(
    s: Seq<LaneSpec>,
    kind: Option<BufferType>,
    dir: Direction,
    t: TagMap,
)
    requires
        no_buffers(s),
    ensures
        buffers_before_bikes(with_buffer(s, kind, false, dir, t)),
{
    lemma_first_bike_is_bike(s);
    if let Some(k) = kind {
        let p = first_bike(s);
        if p < s.len() {
            let l = crate::lane::typical_lane(LaneType::Buffer(k), dir, t);
            s.insert_ensures(p, l);
            let r = s.insert(p, l);
            assert forall|i: int| 0 <= i < r.len() && r[i].lt is Buffer
                implies #[trigger] bike_after(r, i) by {
                if i < p {
                    assert(r[i] == s[i]);
                } else if i > p {
                    assert(r[(i - 1) + 1] == s[i - 1]);
                } else {
                    assert(r[p + 1] == s[p]);
                }
            }
        }
    }
}

proof fn lemma_buffer_after(
    s: Seq<LaneSpec>,
    kind: Option<BufferType>,
    dir: Direction,
    t: TagMap,
)
    requires
        buffers_before_bikes(s),
    ensures
        buffers_beside_bikes(with_buffer(s, kind, true, dir, t)),
{
    lemma_first_bike_is_bike(s);
    let r = with_buffer(s, kind, true, dir, t);
    if let Some(k) = kind {
        let q = first_bike(s);
        if q < s.len() {
            let l = crate::lane::typical_lane(LaneType::Buffer(k), dir, t);
            s.insert_ensures(q + 1, l);
            assert forall|i: int| 0 <= i < r.len() && r[i].lt is Buffer
                implies #[trigger] bike_beside(r, i) by {
                if i < q {
                    assert(r[i] == s[i]);
                    assert(bike_after(s, i));
                    assert(s[i + 1].lt == LaneType::Biking);
                    assert(i + 1 >= q);
                    assert(r[i + 1] == s[i + 1]);
                } else if i == q {
                    assert(r[i] == s[i]);
                } else if i == q + 1 {
                    assert(r[q] == s[q]);
                } else {
                    assert(r[(i - 1) + 1] == s[i - 1]);
                    assert(bike_after(s, i - 1));
                    assert(r[i + 1] == s[i]);
                }
            }
        }
    }
    if !(kind is Some && first_bike(s) < s.len()) {
        assert(r == s);
        lemma_before_is_beside(s);
    }
}

proof fn lemma_no_buffers_push(s: Seq<LaneSpec>, l: LaneSpec)
    requires
        no_buffers(s),
        !(l.lt is Buffer),
    ensures
        no_buffers(s.push(l)),
{
    assert forall|i: int| 0 <= i < s.push(l).len()
        implies !((#[trigger] s.push(l)[i]).lt is Buffer) by {
        if i < s.len() {
            assert(s.push(l)[i] == s[i]);
        }
    }
}

proof fn lemma_no_buffers_bikes(t: TagMap, cfg: MapConfig, f: Seq<LaneSpec>, b: Seq<LaneSpec>)
    requires
        no_buffers(f),
        no_buffers(b),
    ensures
        no_buffers(bike_sides(t, cfg, f, b).0),
        no_buffers(bike_sides(t, cfg, f, b).1),
{
    let bf = fwd_lane(LaneType::Biking, t);
    let bb = back_lane(LaneType::Biking, t);
    lemma_no_buffers_push(f, bf);
    lemma_no_buffers_push(f, bb);
    lemma_no_buffers_push(f.push(bb), bf);
    lemma_no_buffers_push(b, bb);
    lemma_no_buffers_push(b, bf);
    lemma_no_buffers_push(b.push(bf), bb);
    let two_way_right = has_tag(t, "cycleway:right:oneway"@, "no"@)
        || has_tag(t, "oneway:bicycle"@, "no"@);
    let f1 = if is_lane_or_track(t, "cycleway:right"@) && cfg.driving_side == DrivingSide::Right {
        if two_way_right { f.push(bb).push(bf) } else { f.push(bf) }
    } else {
        f
    };
    let b1 = if is_lane_or_track(t, "cycleway:right"@) && cfg.driving_side != DrivingSide::Right {
        if two_way_right { b.push(bf).push(bb) } else { b.push(bb) }
    } else {
        b
    };
    lemma_no_buffers_push(f1, bf);
    lemma_no_buffers_push(b1, bb);
    let f2 = if has_tag(t, "cycleway:left"@, "opposite_lane"@)
        || has_tag(t, "cycleway"@, "opposite_lane"@) {
        if cfg.driving_side == DrivingSide::Right { f1 } else { f1.push(bf) }
    } else {
        f1
    };
    let b2 = if has_tag(t, "cycleway:left"@, "opposite_lane"@)
        || has_tag(t, "cycleway"@, "opposite_lane"@) {
        if cfg.driving_side == DrivingSide::Right { b1.push(bb) } else { b1 }
    } else {
        b1
    };
    lemma_no_buffers_push(f2, bf);
    lemma_no_buffers_push(f2, bb);
    lemma_no_buffers_push(f2.push(bb), bf);
    lemma_no_buffers_push(b2, bb);
    lemma_no_buffers_push(b2, bf);
    lemma_no_buffers_push(b2.push(bf), bb);
    f2.insert_ensures(0, bf);
    let g = f2.insert(0, bf);
    assert forall|i: int| 0 <= i < g.len() implies !((#[trigger] g[i]).lt is Buffer) by {
        if i > 0 {
            assert(g[(i - 1) + 1] == f2[i - 1]);
        }
    }
}

proof fn lemma_no_buffers_until_bikes(t: TagMap, cfg: MapConfig)
    ensures
        no_buffers(sides_with_bikes(t, cfg).0),
        no_buffers(sides_with_bikes(t, cfg).1),
{
    let f0 = initial_fwd(t);
    let b0 = initial_back(t);
    assert(!(driving_type(t) is Buffer));
    assert(no_buffers(f0));
    assert(no_buffers(b0));
    let f1 = with_bus_lanes(f0, fwd_bus_lanes(t), centre_offset(f0));
    let b1 = with_bus_lanes(b0, back_bus_lanes(t), 0);
    assert(no_buffers(f1));
    assert(no_buffers(b1));
    lemma_no_buffers_bikes(t, cfg, f1, b1);
}

proof fn lemma_before_is_beside(s: Seq<LaneSpec>)
    requires
        buffers_before_bikes(s),
    ensures
        buffers_beside_bikes(s),
{
    assert forall|i: int| 0 <= i < s.len() && s[i].lt is Buffer
        implies #[trigger] bike_beside(s, i) by {
        assert(s[i].lt is Buffer);
        assert(bike_after(s, i));
    }
}

proof fn lemma_beside_push(s: Seq<LaneSpec>, l: LaneSpec)
    requires
        buffers_beside_bikes(s),
        !(l.lt is Buffer),
    ensures
        buffers_beside_bikes(s.push(l)),
{
    let r = s.push(l);
    assert forall|i: int| 0 <= i < r.len() && r[i].lt is Buffer
        implies #[trigger] bike_beside(r, i) by {
        assert(r[i] == s[i]);
        assert(s[i].lt is Buffer);
        assert(bike_beside(s, i));
        if i > 0 {
            assert(r[i - 1] == s[i - 1]);
        }
        if i + 1 < s.len() {
            assert(r[i + 1] == s[i + 1]);
        }
    }
}

proof fn lemma_beside_width(s: Seq<LaneSpec>, w: Option<u64>)
    requires
        buffers_beside_bikes(s),
    ensures
        buffers_beside_bikes(with_outer_width(s, w)),
{
    let r = with_outer_width(s, w);
    assert forall|i: int| 0 <= i < r.len() && r[i].lt is Buffer
        implies #[trigger] bike_beside(r, i) by {
        assert(r[i].lt == s[i].lt);
        assert(s[i].lt is Buffer);
        assert(bike_beside(s, i));
        if i > 0 {
            assert(r[i - 1].lt == s[i - 1].lt);
        }
        if i + 1 < r.len() {
            assert(r[i + 1].lt == s[i + 1].lt);
        }
    }
}

/// Pushing a lane that is no separator, or changing a width, keeps every
/// separator beside a bike lane.
proof fn lemma_beside_kept(t: TagMap, cfg: MapConfig, f: Seq<LaneSpec>, b: Seq<LaneSpec>)
    requires
        buffers_beside_bikes(f),
        buffers_beside_bikes(b),
    ensures
        buffers_beside_bikes(parking_sides(t, f, b).0),
        buffers_beside_bikes(parking_sides(t, f, b).1),
        buffers_beside_bikes(sidewalk_sides(t, cfg, f, b).0),
        buffers_beside_bikes(sidewalk_sides(t, cfg, f, b).1),
        buffers_beside_bikes(width_sides(t, cfg, f, b).0),
        buffers_beside_bikes(width_sides(t, cfg, f, b).1),
        buffers_beside_bikes(shoulder_sides(t, cfg, f, b).0),
        buffers_beside_bikes(shoulder_sides(t, cfg, f, b).1),
{
    lemma_beside_push(f, fwd_lane(LaneType::Parking, t));
    lemma_beside_push(b, back_lane(LaneType::Parking, t));
    lemma_beside_push(f, fwd_lane(LaneType::Sidewalk, t));
    lemma_beside_push(b, back_lane(LaneType::Sidewalk, t));
    lemma_beside_push(f, fwd_lane(LaneType::Shoulder, t));
    lemma_beside_push(b, back_lane(LaneType::Shoulder, t));
    lemma_beside_width(f, width_tag(t, "sidewalk:left:width"@));
    lemma_beside_width(f, width_tag(t, "sidewalk:right:width"@));
    lemma_beside_width(b, width_tag(t, "sidewalk:left:width"@));
    lemma_beside_width(b, width_tag(t, "sidewalk:right:width"@));
}

proof fn lemma_beside_reversed_then(x: Seq<LaneSpec>, y: Seq<LaneSpec>)
    requires
        buffers_beside_bikes(x),
        buffers_beside_bikes(y),
    ensures
        buffers_beside_bikes(x.reverse() + y),
{
    let a = x.reverse() + y;
    let n = x.len();
    assert forall|i: int| 0 <= i < a.len() && a[i].lt is Buffer
        implies #[trigger] bike_beside(a, i) by {
        if i < n {
            let k = n - 1 - i;
            assert(a[i] == x[k]);
            assert(x[k].lt is Buffer);
            assert(bike_beside(x, k));
            if k > 0 && x[k - 1].lt == LaneType::Biking {
                assert(a[i + 1] == x[k - 1]);
            } else {
                assert(a[i - 1] == x[k + 1]);
            }
        } else {
            let k = i - n;
            assert(a[i] == y[k]);
            assert(y[k].lt is Buffer);
            assert(bike_beside(y, k));
            if k > 0 && y[k - 1].lt == LaneType::Biking {
                assert(a[i - 1] == y[k - 1]);
            } else {
                assert(a[i + 1] == y[k + 1]);
            }
        }
    }
}

proof fn lemma_beside_assembled(f: Seq<LaneSpec>, b: Seq<LaneSpec>, side: DrivingSide)
    requires
        buffers_beside_bikes(f),
        buffers_beside_bikes(b),
    ensures
        buffers_beside_bikes(assembled(f, b, side)),
{
    lemma_beside_reversed_then(f, b);
    lemma_beside_reversed_then(b, f);
}

/// Every separator that inference returns stands right next to a bike lane.
pub proof fn lemma_buffers_beside_bikes(t: TagMap, cfg: MapConfig)
    ensures
        buffers_beside_bikes(lane_specs(t, cfg)),
{
    let tt = with_inferred_sidewalk(t, cfg);
    match special_road(tt, cfg) {
        Some(s) => {
            let c = cycleway_sides(tt);
            assert(no_buffers(c.0));
            assert(no_buffers(c.1));
            assert(buffers_beside_bikes(c.0));
            assert(buffers_beside_bikes(c.1));
            lemma_beside_assembled(c.0, c.1, cfg.driving_side);
            assert(buffers_beside_bikes(s));
        },
        None => {
            if driving_type(tt) == LaneType::Construction {
                let f = initial_fwd(tt);
                let b = initial_back(tt);
                assert(buffers_beside_bikes(f));
                assert(buffers_beside_bikes(b));
                lemma_beside_assembled(f, b, cfg.driving_side);
            } else {
                let s2 = sides_with_bikes(tt, cfg);
                lemma_no_buffers_until_bikes(tt, cfg);
                let f1 = with_buffer(
                    s2.0,
                    separation_tag(tt, "cycleway:right:separation:left"@),
                    false,
                    Direction::Fwd,
                    tt,
                );
                lemma_buffer_before(
                    s2.0,
                    separation_tag(tt, "cycleway:right:separation:left"@),
                    Direction::Fwd,
                    tt,
                );
                lemma_buffer_before(
                    s2.1,
                    separation_tag(tt, "cycleway:left:separation:left"@),
                    Direction::Back,
                    tt,
                );
                lemma_buffer_after(
                    f1,
                    separation_tag(tt, "cycleway:left:separation:right"@),
                    Direction::Fwd,
                    tt,
                );
                let s3 = buffer_sides(tt, s2.0, s2.1);
                let b1 = s3.1;
                lemma_before_is_beside(b1);
                lemma_beside_kept(tt, cfg, s3.0, s3.1);
                let s4 = if driving_type(tt) == LaneType::Driving {
                    parking_sides(tt, s3.0, s3.1)
                } else {
                    s3
                };
                lemma_beside_kept(tt, cfg, s4.0, s4.1);
                let s5 = sidewalk_sides(tt, cfg, s4.0, s4.1);
                lemma_beside_kept(tt, cfg, s5.0, s5.1);
                let s6 = width_sides(tt, cfg, s5.0, s5.1);
                lemma_beside_kept(tt, cfg, s6.0, s6.1);
                lemma_beside_assembled(
                    road_sides(tt, cfg).0,
                    road_sides(tt, cfg).1,
                    cfg.driving_side,
                );
            }
        },
    }
}

spec fn no_centre_lane(s: Seq<LaneSpec>) -> bool {
    forall|i: int| 0 <= i < s.len() ==> (#[trigger] s[i]).lt != LaneType::SharedLeftTurn
}

/// No lane of `s` but the innermost is a centre turn lane.
spec fn centre_lane_innermost(s: Seq<LaneSpec>) -> bool {
    forall|i: int| 1 <= i < s.len() ==> (#[trigger] s[i]).lt != LaneType::SharedLeftTurn
}

proof fn lemma_centre_push(s: Seq<LaneSpec>, l: LaneSpec)
    requires
        l.lt != LaneType::SharedLeftTurn,
    ensures
        centre_lane_innermost(s) ==> centre_lane_innermost(s.push(l)),
        no_centre_lane(s) ==> no_centre_lane(s.push(l)),
{
    let r = s.push(l);
    assert forall|i: int| 0 <= i < s.len() implies r[i] == s[i] by {}
    assert(r[s.len() as int] == l);
}

proof fn lemma_centre_insert(s: Seq<LaneSpec>, p: int, l: LaneSpec)
    requires
        l.lt != LaneType::SharedLeftTurn,
        0 <= p <= s.len(),
        p >= 1 || no_centre_lane(s),
    ensures
        centre_lane_innermost(s) ==> centre_lane_innermost(s.insert(p, l)),
        no_centre_lane(s) ==> no_centre_lane(s.insert(p, l)),
{
    s.insert_ensures(p, l);
    let r = s.insert(p, l);
    assert forall|i: int| p < i < r.len() implies r[i] == s[i - 1] by {
        assert(r[(i - 1) + 1] == s[i - 1]);
    }
}

proof fn lemma_centre_buffer(
    s: Seq<LaneSpec>,
    kind: Option<BufferType>,
    after: bool,
    dir: Direction,
    t: TagMap,
)
    requires
        centre_lane_innermost(s),
    ensures
        centre_lane_innermost(with_buffer(s, kind, after, dir, t)),
        no_centre_lane(s) ==> no_centre_lane(with_buffer(s, kind, after, dir, t)),
{
    lemma_first_bike_is_bike(s);
    if let Some(k) = kind {
        let q = first_bike(s);
        if q < s.len() {
            let l = crate::lane::typical_lane(LaneType::Buffer(k), dir, t);
            if q == 0 {
                assert(no_centre_lane(s)) by {
                    assert(s[0].lt == LaneType::Biking);
                }
            }
            lemma_centre_insert(s, if after { q + 1 } else { q }, l);
        }
    }
}

proof fn lemma_centre_width(s: Seq<LaneSpec>, w: Option<u64>)
    ensures
        centre_lane_innermost(s) ==> centre_lane_innermost(with_outer_width(s, w)),
        no_centre_lane(s) ==> no_centre_lane(with_outer_width(s, w)),
{
    let r = with_outer_width(s, w);
    assert forall|i: int| 0 <= i < s.len() implies r[i].lt == s[i].lt by {}
}

proof fn lemma_centre_bikes(t: TagMap, cfg: MapConfig, f: Seq<LaneSpec>, b: Seq<LaneSpec>)
    requires
        centre_lane_innermost(f),
        no_centre_lane(b),
        !no_centre_lane(f) ==> !bike_track_at_centre(t, cfg),
    ensures
        centre_lane_innermost(bike_sides(t, cfg, f, b).0),
        no_centre_lane(bike_sides(t, cfg, f, b).1),
        no_centre_lane(f) ==> no_centre_lane(bike_sides(t, cfg, f, b).0),
{
    let bf = fwd_lane(LaneType::Biking, t);
    let bb = back_lane(LaneType::Biking, t);
    lemma_centre_push(f, bf);
    lemma_centre_push(f, bb);
    lemma_centre_push(f.push(bb), bf);
    lemma_centre_push(b, bb);
    lemma_centre_push(b, bf);
    lemma_centre_push(b.push(bf), bb);
    // After the right-hand half.
    let two_way_right = has_tag(t, "cycleway:right:oneway"@, "no"@)
        || has_tag(t, "oneway:bicycle"@, "no"@);
    let f1 = if is_lane_or_track(t, "cycleway:right"@) && cfg.driving_side == DrivingSide::Right {
        if two_way_right { f.push(bb).push(bf) } else { f.push(bf) }
    } else {
        f
    };
    let b1 = if is_lane_or_track(t, "cycleway:right"@) && cfg.driving_side != DrivingSide::Right {
        if two_way_right { b.push(bf).push(bb) } else { b.push(bb) }
    } else {
        b
    };
    assert(centre_lane_innermost(f1));
    assert(no_centre_lane(b1));
    assert(no_centre_lane(f) ==> no_centre_lane(f1));
    lemma_centre_push(f1, bf);
    lemma_centre_push(b1, bb);
    let f2 = if has_tag(t, "cycleway:left"@, "opposite_lane"@)
        || has_tag(t, "cycleway"@, "opposite_lane"@) {
        if cfg.driving_side == DrivingSide::Right { f1 } else { f1.push(bf) }
    } else {
        f1
    };
    let b2 = if has_tag(t, "cycleway:left"@, "opposite_lane"@)
        || has_tag(t, "cycleway"@, "opposite_lane"@) {
        if cfg.driving_side == DrivingSide::Right { b1.push(bb) } else { b1 }
    } else {
        b1
    };
    assert(centre_lane_innermost(f2));
    assert(no_centre_lane(b2));
    assert(no_centre_lane(f) ==> no_centre_lane(f2));
    lemma_centre_push(f2, bf);
    lemma_centre_push(f2, bb);
    lemma_centre_push(f2.push(bb), bf);
    lemma_centre_push(b2, bb);
    lemma_centre_push(b2, bf);
    lemma_centre_push(b2.push(bf), bb);
    if no_centre_lane(f2) {
        lemma_centre_insert(f2, 0, bf);
    }
    assert(bike_sides(t, cfg, f, b).0 == f.push(bf) || bike_sides(t, cfg, f, b).0 == f
        || bike_sides(t, cfg, f, b).0 == f2 || bike_sides(t, cfg, f, b).0 == f2.push(bf)
        || bike_sides(t, cfg, f, b).0 == f2.push(bb).push(bf)
        || (bike_sides(t, cfg, f, b).0 == f2.insert(0, bf) && bike_track_at_centre(t, cfg)));
}

/// Where the centre turn lane stands in the output: just after the
/// backward side with right-hand driving, just before it with left-hand
/// driving; that is, at the centerline, on the forward side.
pub open spec fn centre_position(t: TagMap, cfg: MapConfig) -> int {
    let s = road_sides(with_inferred_sidewalk(t, cfg), cfg);
    if cfg.driving_side == DrivingSide::Right {
        s.1.len() as int
    } else {
        s.0.len() - 1
    }
}

proof fn lemma_centre_bus(side: Seq<LaneSpec>, spec: Option<Seq<char>>, offset: int)
    ensures
        centre_lane_innermost(side) ==> centre_lane_innermost(with_bus_lanes(side, spec, offset)),
        no_centre_lane(side) ==> no_centre_lane(with_bus_lanes(side, spec, offset)),
{
    let r = with_bus_lanes(side, spec, offset);
    assert forall|i: int| 0 <= i < side.len() implies r[i].lt == side[i].lt || r[i].lt
        == LaneType::Bus by {}
}

proof fn lemma_centre_kept(t: TagMap, cfg: MapConfig, f: Seq<LaneSpec>, b: Seq<LaneSpec>)
    requires
        centre_lane_innermost(f),
        no_centre_lane(b),
    ensures
        centre_lane_innermost(parking_sides(t, f, b).0),
        no_centre_lane(parking_sides(t, f, b).1),
        centre_lane_innermost(sidewalk_sides(t, cfg, f, b).0),
        no_centre_lane(sidewalk_sides(t, cfg, f, b).1),
        centre_lane_innermost(width_sides(t, cfg, f, b).0),
        no_centre_lane(width_sides(t, cfg, f, b).1),
        centre_lane_innermost(shoulder_sides(t, cfg, f, b).0),
        no_centre_lane(shoulder_sides(t, cfg, f, b).1),
{
    lemma_centre_push(f, fwd_lane(LaneType::Parking, t));
    lemma_centre_push(b, back_lane(LaneType::Parking, t));
    lemma_centre_push(f, fwd_lane(LaneType::Sidewalk, t));
    lemma_centre_push(b, back_lane(LaneType::Sidewalk, t));
    lemma_centre_push(f, fwd_lane(LaneType::Shoulder, t));
    lemma_centre_push(b, back_lane(LaneType::Shoulder, t));
    lemma_centre_width(f, width_tag(t, "sidewalk:left:width"@));
    lemma_centre_width(f, width_tag(t, "sidewalk:right:width"@));
    lemma_centre_width(b, width_tag(t, "sidewalk:left:width"@));
    lemma_centre_width(b, width_tag(t, "sidewalk:right:width"@));
}

proof fn lemma_centre_road(t: TagMap, cfg: MapConfig)
    requires
        !(has_centre_turn_lane(t) && bike_track_at_centre(t, cfg)),
    ensures
        centre_lane_innermost(road_sides(t, cfg).0),
        no_centre_lane(road_sides(t, cfg).1),
{
    let f0 = initial_fwd(t);
    let b0 = initial_back(t);
    assert(centre_lane_innermost(f0));
    assert(no_centre_lane(b0));
    assert(!has_centre_turn_lane(t) ==> no_centre_lane(f0));
    if driving_type(t) != LaneType::Construction {
        let f1 = with_bus_lanes(f0, fwd_bus_lanes(t), centre_offset(f0));
        let b1 = with_bus_lanes(b0, back_bus_lanes(t), 0);
        lemma_centre_bus(f0, fwd_bus_lanes(t), centre_offset(f0));
        lemma_centre_bus(b0, back_bus_lanes(t), 0);
        lemma_centre_bikes(t, cfg, f1, b1);
        let s2 = sides_with_bikes(t, cfg);
        let fa = with_buffer(
            s2.0,
            separation_tag(t, "cycleway:right:separation:left"@),
            false,
            Direction::Fwd,
            t,
        );
        lemma_centre_buffer(
            s2.0,
            separation_tag(t, "cycleway:right:separation:left"@),
            false,
            Direction::Fwd,
            t,
        );
        lemma_centre_buffer(
            s2.1,
            separation_tag(t, "cycleway:left:separation:left"@),
            false,
            Direction::Back,
            t,
        );
        lemma_centre_buffer(
            fa,
            separation_tag(t, "cycleway:left:separation:right"@),
            true,
            Direction::Fwd,
            t,
        );
        let s3 = buffer_sides(t, s2.0, s2.1);
        lemma_centre_kept(t, cfg, s3.0, s3.1);
        let s4 = if driving_type(t) == LaneType::Driving {
            parking_sides(t, s3.0, s3.1)
        } else {
            s3
        };
        lemma_centre_kept(t, cfg, s4.0, s4.1);
        let s5 = sidewalk_sides(t, cfg, s4.0, s4.1);
        lemma_centre_kept(t, cfg, s5.0, s5.1);
        let s6 = width_sides(t, cfg, s5.0, s5.1);
        lemma_centre_kept(t, cfg, s6.0, s6.1);
    }
}

/// There is at most one centre turn lane, and it stands at the centerline,
/// as the innermost lane of the forward side. This holds unless a one-way
/// cycle track on the left of a one-way road, with right-hand driving, takes
/// the place next to the centerline.
pub proof fn lemma_centre_lane_placement(t: TagMap, cfg: MapConfig)
    requires
        !(has_centre_turn_lane(t) && bike_track_at_centre(t, cfg)),
    ensures
        forall|i: int|
            0 <= i < lane_specs(t, cfg).len() && (#[trigger] lane_specs(t, cfg)[i]).lt
                == LaneType::SharedLeftTurn ==> i == centre_position(t, cfg),
{
    let tt = with_inferred_sidewalk(t, cfg);
    lemma_prepass_keeps_road(t, cfg);
    let a = lane_specs(t, cfg);
    match special_road(tt, cfg) {
        Some(s) => {
            let c = cycleway_sides(tt);
            assert(no_centre_lane(c.0));
            assert(no_centre_lane(c.1));
            assert forall|i: int| 0 <= i < a.len() implies (#[trigger] a[i]).lt
                != LaneType::SharedLeftTurn by {
                if has_tag(tt, "highway"@, "cycleway"@) && !has_tag(tt, "railway"@, "light_rail"@)
                    && !has_tag(tt, "railway"@, "rail"@) {
                    let (f, b) = (c.0, c.1);
                    match cfg.driving_side {
                        DrivingSide::Right => {
                            if i < b.len() {
                                assert(a[i] == b[b.len() - 1 - i]);
                            } else {
                                assert(a[i] == f[i - b.len()]);
                            }
                        },
                        DrivingSide::Left => {
                            if i < f.len() {
                                assert(a[i] == f[f.len() - 1 - i]);
                            } else {
                                assert(a[i] == b[i - f.len()]);
                            }
                        },
                    }
                }
            }
        },
        None => {
            lemma_centre_road(tt, cfg);
            let (f, b) = road_sides(tt, cfg);
            assert forall|i: int|
                0 <= i < a.len() && (#[trigger] a[i]).lt == LaneType::SharedLeftTurn implies i
                == centre_position(t, cfg) by {
                match cfg.driving_side {
                    DrivingSide::Right => {
                        if i < b.len() {
                            assert(a[i] == b[b.len() - 1 - i]);
                        } else {
                            assert(a[i] == f[i - b.len()]);
                        }
                    },
                    DrivingSide::Left => {
                        if i < f.len() {
                            assert(a[i] == f[f.len() - 1 - i]);
                        } else {
                            assert(a[i] == b[i - f.len()]);
                        }
                    },
                }
            }
        },
    }
}

/// The keys that lane inference reads, but for `sidewalk` itself, all
/// differ from `sidewalk`.
proof fn lemma_keys_differ_from_sidewalk()
    ensures
        "railway"@ != "sidewalk"@,
        "highway"@ != "sidewalk"@,
        "footway"@ != "sidewalk"@,
        "bicycle"@ != "sidewalk"@,
        "oneway"@ != "sidewalk"@,
        "foot"@ != "sidewalk"@,
        "junction"@ != "sidewalk"@,
        "lanes"@ != "sidewalk"@,
        "lanes:forward"@ != "sidewalk"@,
        "lanes:backward"@ != "sidewalk"@,
        "access"@ != "sidewalk"@,
        "bus"@ != "sidewalk"@,
        "psv"@ != "sidewalk"@,
        "motor_vehicle:conditional"@ != "sidewalk"@,
        "lanes:both_ways"@ != "sidewalk"@,
        "centre_turn_lane"@ != "sidewalk"@,
        "bus:lanes:forward"@ != "sidewalk"@,
        "psv:lanes:forward"@ != "sidewalk"@,
        "bus:lanes"@ != "sidewalk"@,
        "psv:lanes"@ != "sidewalk"@,
        "bus:lanes:backward"@ != "sidewalk"@,
        "psv:lanes:backward"@ != "sidewalk"@,
        "cycleway"@ != "sidewalk"@,
        "cycleway:both"@ != "sidewalk"@,
        "cycleway:right"@ != "sidewalk"@,
        "cycleway:right:oneway"@ != "sidewalk"@,
        "oneway:bicycle"@ != "sidewalk"@,
        "cycleway:left"@ != "sidewalk"@,
        "cycleway:left:oneway"@ != "sidewalk"@,
        "cycleway:right:separation:left"@ != "sidewalk"@,
        "cycleway:left:separation:left"@ != "sidewalk"@,
        "cycleway:left:separation:right"@ != "sidewalk"@,
        "parking:lane:right"@ != "sidewalk"@,
        "parking:lane:both"@ != "sidewalk"@,
        "parking:lane:left"@ != "sidewalk"@,
        "sidewalk:left:width"@ != "sidewalk"@,
        "sidewalk:right:width"@ != "sidewalk"@,
        "motorroad"@ != "sidewalk"@,
        "dual_carriageway"@ != "sidewalk"@,
        "sidewalk:right"@ != "sidewalk"@,
        "sidewalk:left"@ != "sidewalk"@,
{
    reveal_strlit("sidewalk");
    reveal_strlit("railway");
    assert("railway"@.len() != "sidewalk"@.len());
    reveal_strlit("highway");
    assert("highway"@.len() != "sidewalk"@.len());
    reveal_strlit("footway");
    assert("footway"@.len() != "sidewalk"@.len());
    reveal_strlit("bicycle");
    assert("bicycle"@.len() != "sidewalk"@.len());
    reveal_strlit("oneway");
    assert("oneway"@.len() != "sidewalk"@.len());
    reveal_strlit("foot");
    assert("foot"@.len() != "sidewalk"@.len());
    reveal_strlit("junction");
    assert("junction"@[0] != "sidewalk"@[0]);
    reveal_strlit("lanes");
    assert("lanes"@.len() != "sidewalk"@.len());
    reveal_strlit("lanes:forward");
    assert("lanes:forward"@.len() != "sidewalk"@.len());
    reveal_strlit("lanes:backward");
    assert("lanes:backward"@.len() != "sidewalk"@.len());
    reveal_strlit("access");
    assert("access"@.len() != "sidewalk"@.len());
    reveal_strlit("bus");
    assert("bus"@.len() != "sidewalk"@.len());
    reveal_strlit("psv");
    assert("psv"@.len() != "sidewalk"@.len());
    reveal_strlit("motor_vehicle:conditional");
    assert("motor_vehicle:conditional"@.len() != "sidewalk"@.len());
    reveal_strlit("lanes:both_ways");
    assert("lanes:both_ways"@.len() != "sidewalk"@.len());
    reveal_strlit("centre_turn_lane");
    assert("centre_turn_lane"@.len() != "sidewalk"@.len());
    reveal_strlit("bus:lanes:forward");
    assert("bus:lanes:forward"@.len() != "sidewalk"@.len());
    reveal_strlit("psv:lanes:forward");
    assert("psv:lanes:forward"@.len() != "sidewalk"@.len());
    reveal_strlit("bus:lanes");
    assert("bus:lanes"@.len() != "sidewalk"@.len());
    reveal_strlit("psv:lanes");
    assert("psv:lanes"@.len() != "sidewalk"@.len());
    reveal_strlit("bus:lanes:backward");
    assert("bus:lanes:backward"@.len() != "sidewalk"@.len());
    reveal_strlit("psv:lanes:backward");
    assert("psv:lanes:backward"@.len() != "sidewalk"@.len());
    reveal_strlit("cycleway");
    assert("cycleway"@[0] != "sidewalk"@[0]);
    reveal_strlit("cycleway:both");
    assert("cycleway:both"@.len() != "sidewalk"@.len());
    reveal_strlit("cycleway:right");
    assert("cycleway:right"@.len() != "sidewalk"@.len());
    reveal_strlit("cycleway:right:oneway");
    assert("cycleway:right:oneway"@.len() != "sidewalk"@.len());
    reveal_strlit("oneway:bicycle");
    assert("oneway:bicycle"@.len() != "sidewalk"@.len());
    reveal_strlit("cycleway:left");
    assert("cycleway:left"@.len() != "sidewalk"@.len());
    reveal_strlit("cycleway:left:oneway");
    assert("cycleway:left:oneway"@.len() != "sidewalk"@.len());
    reveal_strlit("cycleway:right:separation:left");
    assert("cycleway:right:separation:left"@.len() != "sidewalk"@.len());
    reveal_strlit("cycleway:left:separation:left");
    assert("cycleway:left:separation:left"@.len() != "sidewalk"@.len());
    reveal_strlit("cycleway:left:separation:right");
    assert("cycleway:left:separation:right"@.len() != "sidewalk"@.len());
    reveal_strlit("parking:lane:right");
    assert("parking:lane:right"@.len() != "sidewalk"@.len());
    reveal_strlit("parking:lane:both");
    assert("parking:lane:both"@.len() != "sidewalk"@.len());
    reveal_strlit("parking:lane:left");
    assert("parking:lane:left"@.len() != "sidewalk"@.len());
    reveal_strlit("sidewalk:left:width");
    assert("sidewalk:left:width"@.len() != "sidewalk"@.len());
    reveal_strlit("sidewalk:right:width");
    assert("sidewalk:right:width"@.len() != "sidewalk"@.len());
    reveal_strlit("motorroad");
    assert("motorroad"@.len() != "sidewalk"@.len());
    reveal_strlit("dual_carriageway");
    assert("dual_carriageway"@.len() != "sidewalk"@.len());
    reveal_strlit("sidewalk:right");
    assert("sidewalk:right"@.len() != "sidewalk"@.len());
    reveal_strlit("sidewalk:left");
    assert("sidewalk:left"@.len() != "sidewalk"@.len());
}

/// `a` and `b` agree on every key but `sidewalk`.
spec fn agree_but_sidewalk(a: TagMap, b: TagMap) -> bool {
    forall|k: Seq<char>|
        #![trigger a.contains_key(k)]
        #![trigger b.contains_key(k)]
        k != "sidewalk"@ ==> a.contains_key(k) == b.contains_key(k) && (a.contains_key(k) ==> a[k]
            == b[k])
}

/// Tags that agree but for `sidewalk` lead every stage of inference but the
/// sidewalk stage to the same lanes.
proof fn lemma_agreeing_tags(a: TagMap, b: TagMap, cfg: MapConfig)
    requires
        agree_but_sidewalk(a, b),
    ensures
        forall|lt: LaneType| #[trigger] typical_width(lt, a) == typical_width(lt, b),
        special_road(a, cfg) == special_road(b, cfg),
        driving_type(a) == driving_type(b),
        initial_fwd(a) == initial_fwd(b),
        initial_back(a) == initial_back(b),
        fwd_bus_lanes(a) == fwd_bus_lanes(b),
        back_bus_lanes(a) == back_bus_lanes(b),
        forall|f: Seq<LaneSpec>, s: Seq<LaneSpec>|
            #[trigger] bike_sides(a, cfg, f, s) == bike_sides(b, cfg, f, s),
        forall|f: Seq<LaneSpec>, s: Seq<LaneSpec>|
            #[trigger] buffer_sides(a, f, s) == buffer_sides(b, f, s),
        forall|f: Seq<LaneSpec>, s: Seq<LaneSpec>|
            #[trigger] parking_sides(a, f, s) == parking_sides(b, f, s),
        forall|f: Seq<LaneSpec>, s: Seq<LaneSpec>|
            #[trigger] width_sides(a, cfg, f, s) == width_sides(b, cfg, f, s),
        forall|f: Seq<LaneSpec>, s: Seq<LaneSpec>|
            #[trigger] shoulder_sides(a, cfg, f, s) == shoulder_sides(b, cfg, f, s),
{
    lemma_keys_differ_from_sidewalk();
    assert forall|lt: LaneType| #[trigger] typical_width(lt, a) == typical_width(lt, b) by {
        assert(a.contains_key("highway"@) == b.contains_key("highway"@));
    }
    assert(has_centre_turn_lane(a) == has_centre_turn_lane(b)) by {
        assert(a.contains_key("lanes:both_ways"@) == b.contains_key("lanes:both_ways"@));
        assert(a.contains_key("centre_turn_lane"@) == b.contains_key("centre_turn_lane"@));
    }
    assert(num_driving_fwd(a) == num_driving_fwd(b)) by {
        assert(a.contains_key("lanes"@) == b.contains_key("lanes"@));
        assert(a.contains_key("lanes:forward"@) == b.contains_key("lanes:forward"@));
        assert(a.contains_key("oneway"@) == b.contains_key("oneway"@));
        assert(a.contains_key("junction"@) == b.contains_key("junction"@));
    }
    assert(num_driving_back(a) == num_driving_back(b)) by {
        assert(a.contains_key("lanes:backward"@) == b.contains_key("lanes:backward"@));
    }
    assert(driving_type(a) == driving_type(b)) by {
        assert(a.contains_key("access"@) == b.contains_key("access"@));
        assert(a.contains_key("bus"@) == b.contains_key("bus"@));
        assert(a.contains_key("psv"@) == b.contains_key("psv"@));
        assert(a.contains_key("motor_vehicle:conditional"@)
            == b.contains_key("motor_vehicle:conditional"@));
        assert(a.contains_key("highway"@) == b.contains_key("highway"@));
    }
    assert(initial_fwd(a) =~= initial_fwd(b));
    assert(initial_back(a) =~= initial_back(b));
    assert(special_road(a, cfg) == special_road(b, cfg)) by {
        assert(a.contains_key("railway"@) == b.contains_key("railway"@));
        assert(a.contains_key("highway"@) == b.contains_key("highway"@));
        assert(a.contains_key("footway"@) == b.contains_key("footway"@));
        assert(a.contains_key("bicycle"@) == b.contains_key("bicycle"@));
        assert(a.contains_key("foot"@) == b.contains_key("foot"@));
        assert(a.contains_key("oneway"@) == b.contains_key("oneway"@));
        assert(cycleway_sides(a) == cycleway_sides(b));
    }
    assert(fwd_bus_lanes(a) == fwd_bus_lanes(b)) by {
        assert(a.contains_key("bus:lanes:forward"@) == b.contains_key("bus:lanes:forward"@));
        assert(a.contains_key("psv:lanes:forward"@) == b.contains_key("psv:lanes:forward"@));
        assert(a.contains_key("bus:lanes"@) == b.contains_key("bus:lanes"@));
        assert(a.contains_key("psv:lanes"@) == b.contains_key("psv:lanes"@));
        assert(is_oneway(a) == is_oneway(b)) by {
            assert(a.contains_key("oneway"@) == b.contains_key("oneway"@));
            assert(a.contains_key("junction"@) == b.contains_key("junction"@));
        }
    }
    assert(back_bus_lanes(a) == back_bus_lanes(b)) by {
        assert(a.contains_key("bus:lanes:backward"@) == b.contains_key("bus:lanes:backward"@));
        assert(a.contains_key("psv:lanes:backward"@) == b.contains_key("psv:lanes:backward"@));
    }
    assert forall|f: Seq<LaneSpec>, s: Seq<LaneSpec>|
        #[trigger] bike_sides(a, cfg, f, s) == bike_sides(b, cfg, f, s) by {
        assert(a.contains_key("cycleway"@) == b.contains_key("cycleway"@));
        assert(a.contains_key("cycleway:both"@) == b.contains_key("cycleway:both"@));
        assert(a.contains_key("cycleway:right"@) == b.contains_key("cycleway:right"@));
        assert(a.contains_key("cycleway:right:oneway"@)
            == b.contains_key("cycleway:right:oneway"@));
        assert(a.contains_key("oneway:bicycle"@) == b.contains_key("oneway:bicycle"@));
        assert(a.contains_key("cycleway:left"@) == b.contains_key("cycleway:left"@));
        assert(a.contains_key("cycleway:left:oneway"@) == b.contains_key("cycleway:left:oneway"@));
        assert(a.contains_key("oneway"@) == b.contains_key("oneway"@));
        assert(a.contains_key("junction"@) == b.contains_key("junction"@));
    }
    assert forall|f: Seq<LaneSpec>, s: Seq<LaneSpec>|
        #[trigger] buffer_sides(a, f, s) == buffer_sides(b, f, s) by {
        assert(a.contains_key("cycleway:right:separation:left"@)
            == b.contains_key("cycleway:right:separation:left"@));
        assert(a.contains_key("cycleway:left:separation:left"@)
            == b.contains_key("cycleway:left:separation:left"@));
        assert(a.contains_key("cycleway:left:separation:right"@)
            == b.contains_key("cycleway:left:separation:right"@));
    }
    assert forall|f: Seq<LaneSpec>, s: Seq<LaneSpec>|
        #[trigger] parking_sides(a, f, s) == parking_sides(b, f, s) by {
        assert(a.contains_key("parking:lane:right"@) == b.contains_key("parking:lane:right"@));
        assert(a.contains_key("parking:lane:both"@) == b.contains_key("parking:lane:both"@));
        assert(a.contains_key("parking:lane:left"@) == b.contains_key("parking:lane:left"@));
    }
    assert forall|f: Seq<LaneSpec>, s: Seq<LaneSpec>|
        #[trigger] width_sides(a, cfg, f, s) == width_sides(b, cfg, f, s) by {
        assert(a.contains_key("sidewalk:left:width"@) == b.contains_key("sidewalk:left:width"@));
        assert(a.contains_key("sidewalk:right:width"@) == b.contains_key("sidewalk:right:width"@));
    }
    assert forall|f: Seq<LaneSpec>, s: Seq<LaneSpec>|
        #[trigger] shoulder_sides(a, cfg, f, s) == shoulder_sides(b, cfg, f, s) by {
        assert(a.contains_key("highway"@) == b.contains_key("highway"@));
        assert(a.contains_key("foot"@) == b.contains_key("foot"@));
        assert(a.contains_key("access"@) == b.contains_key("access"@));
        assert(a.contains_key("motorroad"@) == b.contains_key("motorroad"@));
        assert(a.contains_key("oneway"@) == b.contains_key("oneway"@));
    }
}

/// Tags that describe the two sides of a road alike: no cycle lane on one
/// side only, no contraflow lane, no sidewalk on one side only, and equal
/// sidewalk widths on both sides.
pub open spec fn mirror_symmetric(t: TagMap) -> bool {
    &&& !t.contains_key("cycleway:left"@)
    &&& !t.contains_key("cycleway:right"@)
    &&& !has_tag(t, "cycleway"@, "opposite_lane"@)
    &&& !has_tag(t, "sidewalk"@, "left"@)
    &&& !has_tag(t, "sidewalk"@, "right"@)
    &&& t.contains_key("sidewalk:left"@) == t.contains_key("sidewalk:right"@)
    &&& has_tag(t, "sidewalk:left"@, "no"@) == has_tag(t, "sidewalk:right"@, "no"@)
    &&& width_tag(t, "sidewalk:left:width"@) == width_tag(t, "sidewalk:right:width"@)
}

proof fn lemma_sidewalk_values_differ()
    ensures
        "both"@ != "left"@,
        "both"@ != "right"@,
        "both"@ != "separate"@,
        "none"@ != "left"@,
        "none"@ != "right"@,
        "none"@ != "both"@,
        "none"@ != "separate"@,
        "left"@ != "right"@,
        "left"@ != "separate"@,
        "right"@ != "separate"@,
{
    reveal_strlit("both");
    reveal_strlit("none");
    reveal_strlit("left");
    reveal_strlit("right");
    reveal_strlit("separate");
    assert("both"@[0] != "left"@[0]);
    assert("both"@.len() != "right"@.len());
    assert("both"@.len() != "separate"@.len());
    assert("none"@[0] != "left"@[0]);
    assert("none"@.len() != "right"@.len());
    assert("none"@[0] != "both"@[0]);
    assert("none"@.len() != "separate"@.len());
    assert("left"@.len() != "right"@.len());
    assert("left"@.len() != "separate"@.len());
    assert("right"@.len() != "separate"@.len());
}

proof fn lemma_prepass_agrees(t: TagMap, cfg: MapConfig)
    ensures
        agree_but_sidewalk(t, with_inferred_sidewalk(t, cfg)),
{
    let tt = with_inferred_sidewalk(t, cfg);
    assert forall|k: Seq<char>| k != "sidewalk"@ implies t.contains_key(k) == tt.contains_key(k)
        && (t.contains_key(k) ==> t[k] == tt[k]) by {}
}

proof fn lemma_agree_chain(a: TagMap, b: TagMap, c: TagMap)
    requires
        agree_but_sidewalk(a, b),
        agree_but_sidewalk(a, c),
    ensures
        agree_but_sidewalk(b, c),
{
    assert forall|k: Seq<char>| k != "sidewalk"@ implies b.contains_key(k) == c.contains_key(k)
        && (b.contains_key(k) ==> b[k] == c[k]) by {
        assert(a.contains_key(k) == b.contains_key(k));
        assert(a.contains_key(k) == c.contains_key(k));
    }
}

proof fn lemma_assembled_mirror(f: Seq<LaneSpec>, b: Seq<LaneSpec>)
    ensures
        assembled(f, b, DrivingSide::Left) == assembled(f, b, DrivingSide::Right).reverse(),
{
    let l = assembled(f, b, DrivingSide::Left);
    let r = assembled(f, b, DrivingSide::Right);
    assert(l.len() == r.len());
    assert forall|i: int| 0 <= i < l.len() implies l[i] == r.reverse()[i] by {
        let n = r.len();
        assert(r.reverse()[i] == r[n - 1 - i]);
        if i < f.len() {
            assert(l[i] == f[f.len() - 1 - i]);
            assert(r[n - 1 - i] == f[n - 1 - i - b.len()]);
        } else {
            assert(l[i] == b[i - f.len()]);
            assert(r[n - 1 - i] == b[b.len() - 1 - (n - 1 - i)]);
        }
    }
    assert(l =~= r.reverse());
}

proof fn lemma_reverse_twice(s: Seq<LaneSpec>)
    ensures
        s.reverse().reverse() == s,
{
    assert(s.reverse().reverse() =~= s);
}

/// With the same tags, mirrored configurations give mirrored lanes: the
/// left-hand list is the right-hand one read backwards.
proof fn lemma_mirror_right_left(t: TagMap, cr: MapConfig, cl: MapConfig)
    requires
        mirror_symmetric(t),
        cr.driving_side == DrivingSide::Right,
        cl.driving_side == DrivingSide::Left,
        cr.inferred_sidewalks == cl.inferred_sidewalks,
    ensures
        lane_specs(t, cl) == lane_specs(t, cr).reverse(),
{
    let tr = with_inferred_sidewalk(t, cr);
    let tl = with_inferred_sidewalk(t, cl);
    lemma_keys_differ_from_sidewalk();
    lemma_sidewalk_values_differ();
    lemma_prepass_agrees(t, cr);
    lemma_prepass_agrees(t, cl);
    lemma_agree_chain(t, tl, tr);
    lemma_agreeing_tags(tl, tr, cr);
    lemma_agreeing_tags(tl, tr, cl);
    // What `tl` says of either side, it says of the other.
    assert(!tl.contains_key("cycleway:left"@) && !tl.contains_key("cycleway:right"@)) by {
        assert(t.contains_key("cycleway:left"@) == tl.contains_key("cycleway:left"@));
        assert(t.contains_key("cycleway:right"@) == tl.contains_key("cycleway:right"@));
    }
    assert(!has_tag(tl, "cycleway"@, "opposite_lane"@)) by {
        assert(t.contains_key("cycleway"@) == tl.contains_key("cycleway"@));
    }
    assert(width_tag(tl, "sidewalk:left:width"@) == width_tag(tl, "sidewalk:right:width"@)) by {
        assert(t.contains_key("sidewalk:left:width"@) == tl.contains_key("sidewalk:left:width"@));
        assert(t.contains_key("sidewalk:right:width"@) == tl.contains_key("sidewalk:right:width"@));
    }
    assert(forall|f: Seq<LaneSpec>, s: Seq<LaneSpec>| #[trigger] bike_sides(tl, cl, f, s)
        == bike_sides(tl, cr, f, s));
    assert(forall|f: Seq<LaneSpec>, s: Seq<LaneSpec>| #[trigger] width_sides(tl, cl, f, s)
        == width_sides(tl, cr, f, s));
    assert(forall|f: Seq<LaneSpec>, s: Seq<LaneSpec>| #[trigger] shoulder_sides(tl, cl, f, s)
        == shoulder_sides(tl, cr, f, s));
    assert(forall|f: Seq<LaneSpec>, s: Seq<LaneSpec>| #[trigger] sidewalk_sides(tl, cl, f, s)
        == sidewalk_sides(tr, cr, f, s)) by {
        assert(tr.contains_key("sidewalk:left"@) == t.contains_key("sidewalk:left"@));
        assert(tr.contains_key("sidewalk:right"@) == t.contains_key("sidewalk:right"@));
        assert(tl.contains_key("sidewalk:left"@) == t.contains_key("sidewalk:left"@));
        assert(tl.contains_key("sidewalk:right"@) == t.contains_key("sidewalk:right"@));
        assert(t.contains_key("highway"@) == tl.contains_key("highway"@));
        assert(t.contains_key("highway"@) == tr.contains_key("highway"@));
        assert(t.contains_key("junction"@) == tl.contains_key("junction"@));
        assert(t.contains_key("junction"@) == tr.contains_key("junction"@));
        assert(t.contains_key("foot"@) == tr.contains_key("foot"@));
        assert(t.contains_key("oneway"@) == tr.contains_key("oneway"@));
    }
    match special_road(tr, cr) {
        Some(sr) => {
            let c = cycleway_sides(tl);
            lemma_assembled_mirror(c.0, c.1);
            assert(special_road(tl, cl) is Some);
            let sl = special_road(tl, cl)->0;
            if sl.len() == 1 {
                assert(sl =~= sr.reverse());
            }
            assert(sl == sr.reverse());
        },
        None => {
            assert(road_sides(tl, cl) == road_sides(tr, cr));
            lemma_assembled_mirror(road_sides(tr, cr).0, road_sides(tr, cr).1);
        },
    }
}

/// Tags that describe both sides of a road alike give, under the two
/// driving sides, the same lanes in reverse order.
pub proof fn lemma_driving_side_mirror(t: TagMap, c1: MapConfig, c2: MapConfig)
    requires
        mirror_symmetric(t),
        c1.driving_side != c2.driving_side,
        c1.inferred_sidewalks == c2.inferred_sidewalks,
    ensures
        lane_specs(t, c1) == lane_specs(t, c2).reverse(),
{
    if c1.driving_side == DrivingSide::Left {
        lemma_mirror_right_left(t, c2, c1);
    } else {
        lemma_mirror_right_left(t, c1, c2);
        lemma_reverse_twice(lane_specs(t, c1));
    }
}

} // verus!
