//! The classic lane inference: from the tags of a way to the lanes of the
//! road, left to right.

use crate::inference::{
    back_bus_lanes, back_lane, bike_sides, count_tag, cycleway_sides, driving_type, first_bike,
    fwd_bus_lanes, fwd_lane, initial_back, initial_fwd, is_oneway, lane_specs, num_driving_back,
    num_driving_fwd, parks, road_sides, separation_kind, separation_tag, sides_with_bikes,
    special_road, split_bar, width_tag, with_buffer, with_bus_lanes, with_inferred_sidewalk,
    with_outer_width,
};
use crate::lane::{
    typical_lane, BufferType, Direction, Distance, DrivingSide, LaneSpec, LaneType, MapConfig,
};
use crate::tags::Tags;
use crate::text::{parse_millimeters, parse_usize, text_is, text_starts_with};
use vstd::prelude::*;

verus! {

/// If sidewalks are not tagged on a road, fills them in. This happens only
/// when the map is configured to infer sidewalks.
pub fn infer_sidewalk_tags(tags: &mut Tags, cfg: &MapConfig)
    requires
        old(tags).wf(),
    ensures
        final(tags).wf(),
        final(tags)@ == with_inferred_sidewalk(old(tags)@, *cfg),
{
    if tags.contains_key("sidewalk") || !cfg.inferred_sidewalks {
        return ;
    }
    let value: &str = if tags.contains_key("sidewalk:left") || tags.contains_key("sidewalk:right") {
        // Separately mapped sidewalks on one side only: missing values count
        // as present.
        let right = !tags.is("sidewalk:right", "no");
        let left = !tags.is("sidewalk:left", "no");
        if right && left {
            "both"
        } else if right {
            "right"
        } else if left {
            "left"
        } else {
            "none"
        }
    } else if tags.is("highway", "motorway") || tags.is("highway", "motorway_link") || tags.is(
        "junction",
        "intersection",
    ) || tags.is("junction", "roundabout") || tags.is("foot", "no") || tags.is(
        "highway",
        "service",
    ) || tags.is("highway", "cycleway") || tags.is("highway", "pedestrian") || tags.is(
        "highway",
        "track",
    ) {
        "none"
    } else if tags.is("oneway", "yes") {
        // Small residential one-ways still have sidewalks on both sides.
        if (tags.is("highway", "residential") || tags.is("highway", "living_street")) && !tags.is(
            "dual_carriageway",
            "yes",
        ) {
            "both"
        } else if cfg.driving_side == DrivingSide::Right {
            "right"
        } else {
            "left"
        }
    } else {
        "both"
    };
    tags.insert("sidewalk", value);
}

/// The kind of separator that a value of a `cycleway:*:separation:*` tag
/// names, if it is one that lanes can show.
pub fn osm_separation_type(x: &String) -> (r: Option<BufferType>)
    ensures
        r == separation_kind(x@),
{
    if text_is(x, "bollard") || text_is(x, "vertical_panel") {
        Some(BufferType::FlexPosts)
    } else if text_is(x, "kerb") || text_is(x, "separation_kerb") {
        Some(BufferType::Curb)
    } else if text_is(x, "grass_verge") || text_is(x, "planter") || text_is(x, "tree_row") {
        Some(BufferType::Planters)
    } else if text_is(x, "guard_rail") || text_is(x, "jersey_barrier") || text_is(x, "railing") {
        Some(BufferType::JerseyBarrier)
    } else if text_is(x, "barred_area") || text_is(x, "dashed_line") || text_is(x, "solid_line") {
        Some(BufferType::Stripes)
    } else {
        None
    }
}

/// A lane of type `lt` and direction `dir` at its usual width.
fn new_lane(lt: LaneType, dir: Direction, tags: &Tags) -> (r: LaneSpec)
    requires
        tags.wf(),
    ensures
        r == typical_lane(lt, dir, tags@),
{
    let widths = LaneSpec::typical_lane_widths(lt, tags);
    LaneSpec { lt, dir, width: widths[0].0 }
}

fn fwd(lt: LaneType, tags: &Tags) -> (r: LaneSpec)
    requires
        tags.wf(),
    ensures
        r == fwd_lane(lt, tags@),
{
    new_lane(lt, Direction::Fwd, tags)
}

fn back(lt: LaneType, tags: &Tags) -> (r: LaneSpec)
    requires
        tags.wf(),
    ensures
        r == back_lane(lt, tags@),
{
    new_lane(lt, Direction::Back, tags)
}

fn single(l: LaneSpec) -> (r: Vec<LaneSpec>)
    ensures
        r@ == seq![l],
{
    let mut v: Vec<LaneSpec> = Vec::new();
    v.push(l);
    assert(v@ =~= seq![l]);
    v
}

/// The lanes of rail, cycleways and pedestrian ways; `None` for any other
/// road.
fn special_road_lanes(tags: &Tags, cfg: &MapConfig) -> (r: Option<Vec<LaneSpec>>)
    requires
        tags.wf(),
    ensures
        r is Some <==> special_road(tags@, *cfg) is Some,
        r matches Some(v) ==> special_road(tags@, *cfg) == Some(v@),
{
    if tags.is("railway", "light_rail") || tags.is("railway", "rail") {
        return Some(single(fwd(LaneType::LightRail, tags)));
    }
    if tags.is("highway", "cycleway") {
        // Bike lanes each way, and a shoulder to walk on.
        let mut fwd_side = single(fwd(LaneType::Biking, tags));
        let mut back_side: Vec<LaneSpec> = if tags.is("oneway", "yes") {
            Vec::new()
        } else {
            single(back(LaneType::Biking, tags))
        };
        if !tags.is("foot", "no") {
            fwd_side.push(fwd(LaneType::Shoulder, tags));
            if back_side.len() > 0 {
                back_side.push(back(LaneType::Shoulder, tags));
            }
        }
        assert(fwd_side@ =~= cycleway_sides(tags@).0);
        assert(back_side@ =~= cycleway_sides(tags@).1);
        return Some(LaneSpec::assemble_ltr(fwd_side, back_side, cfg.driving_side));
    }
    if tags.is("highway", "footway") && (tags.is("footway", "crossing") || tags.is(
        "footway",
        "sidewalk",
    )) {
        // A crossing counts as a sidewalk.
        return Some(single(fwd(LaneType::Sidewalk, tags)));
    }
    if tags.is("highway", "footway") || tags.is("highway", "path") || tags.is(
        "highway",
        "pedestrian",
    ) || tags.is("highway", "steps") || tags.is("highway", "track") {
        // No bikes unless they are explicitly allowed.
        if tags.is("bicycle", "designated") || tags.is("bicycle", "yes") || tags.is(
            "bicycle",
            "dismount",
        ) {
            return Some(single(fwd(LaneType::SharedUse, tags)));
        }
        return Some(single(fwd(LaneType::Footway, tags)));
    }
    None
}

fn oneway_of(tags: &Tags) -> (r: bool)
    requires
        tags.wf(),
    ensures
        r == is_oneway(tags@),
{
    tags.is("oneway", "yes") || tags.is("oneway", "reversible") || tags.is("junction", "roundabout")
}

/// The count that tag `k` holds, if it is set and reads as a `usize`.
fn count_of(tags: &Tags, k: &str) -> (r: Option<usize>)
    requires
        tags.wf(),
    ensures
        r matches Some(n) ==> count_tag(tags@, k@) == Some(n as nat),
        r is None ==> count_tag(tags@, k@) is None,
{
    match tags.get(k) {
        Some(v) => parse_usize(v.as_str()),
        None => None,
    }
}

/// How many driving lanes go forward and how many backward.
fn lane_counts(tags: &Tags, oneway: bool) -> (r: (usize, usize))
    requires
        tags.wf(),
        oneway == is_oneway(tags@),
    ensures
        r.0 as nat == num_driving_fwd(tags@),
        r.1 as nat == num_driving_back(tags@),
{
    let num_fwd: usize = match count_of(tags, "lanes:forward") {
        Some(n) => n,
        None => match count_of(tags, "lanes") {
            Some(n) => {
                if oneway {
                    n
                } else if n % 2 == 0 {
                    n / 2
                } else {
                    n / 2 + 1
                }
            },
            None => 1,
        },
    };
    let num_back: usize = match count_of(tags, "lanes:backward") {
        Some(n) => n,
        None => match count_of(tags, "lanes") {
            Some(n) => {
                let base: usize = if n >= num_fwd {
                    n - num_fwd
                } else {
                    0
                };
                // One lane each way when a two-way road has `lanes=1`.
                if oneway || base >= 1 {
                    base
                } else {
                    1
                }
            },
            None => if oneway {
                0
            } else {
                1
            },
        },
    };
    (num_fwd, num_back)
}

fn driving_lane_type(tags: &Tags) -> (r: LaneType)
    requires
        tags.wf(),
    ensures
        r == driving_type(tags@),
{
    let conditional_no = match tags.get("motor_vehicle:conditional") {
        Some(v) => text_starts_with(v, "no"),
        None => false,
    };
    if tags.is("access", "no") && (tags.is("bus", "yes") || tags.is("psv", "yes") || tags.is(
        "psv",
        "designated",
    )) {
        LaneType::Bus
    } else if conditional_no && tags.is("bus", "yes") {
        LaneType::Bus
    } else if tags.is("access", "no") || tags.is("highway", "construction") {
        LaneType::Construction
    } else {
        LaneType::Driving
    }
}

/// `n` copies of `l`.
fn repeated(l: LaneSpec, n: usize) -> (r: Vec<LaneSpec>)
    ensures
        r@ == Seq::new(n as nat, |i: int| l),
{
    let mut v: Vec<LaneSpec> = Vec::new();
    let mut i: usize = 0;
    while i < n
        invariant
            i <= n,
            v@ == Seq::new(i as nat, |j: int| l),
        decreases n - i,
    {
        v.push(l);
        i += 1;
        assert(v@ =~= Seq::new(i as nat, |j: int| l));
    }
    v
}

proof fn lemma_split_nonempty(s: Seq<char>)
    ensures
        split_bar(s).len() >= 1,
    decreases s.len(),
{
    if s.len() > 0 {
        lemma_split_nonempty(s.drop_last());
    }
}

fn same_chars(a: &Vec<char>, b: &Vec<char>) -> (r: bool)
    ensures
        r == (a@ == b@),
{
    if a.len() != b.len() {
        return false;
    }
    let mut i: usize = 0;
    while i < a.len()
        invariant
            i <= a@.len() == b@.len(),
            forall|j: int| 0 <= j < i ==> a@[j] == b@[j],
        decreases a@.len() - i,
    {
        if a[i] != b[i] {
            return false;
        }
        i += 1;
    }
    assert(a@ =~= b@);
    true
}

/// For each `|`-separated part of `s`, whether it reads `designated`.
fn designations(s: &String) -> (r: Vec<bool>)
    ensures
        r@.len() == split_bar(s@).len(),
        forall|j: int| 0 <= j < r@.len() ==> r@[j] == (split_bar(s@)[j] == "designated"@),
{
    let cs = chars_of_string(s);
    let want = crate::text::chars_of("designated");
    let mut flags: Vec<bool> = Vec::new();
    let mut cur: Vec<char> = Vec::new();
    let mut i: usize = 0;
    while i < cs.len()
        invariant
            i <= cs@.len(),
            cs@ == s@,
            want@ == "designated"@,
            split_bar(cs@.take(i as int)).len() == flags@.len() + 1,
            forall|j: int|
                0 <= j < flags@.len() ==> flags@[j] == (split_bar(cs@.take(i as int))[j]
                    == "designated"@),
            cur@ == split_bar(cs@.take(i as int)).last(),
        decreases cs@.len() - i,
    {
        let c = cs[i];
        proof {
            assert(cs@.take(i + 1).drop_last() =~= cs@.take(i as int));
            lemma_split_nonempty(cs@.take(i as int));
        }
        if c == '|' {
            let d = same_chars(&cur, &want);
            flags.push(d);
            cur = Vec::new();
            assert(cur@ =~= Seq::<char>::empty());
        } else {
            cur.push(c);
        }
        i += 1;
    }
    let d = same_chars(&cur, &want);
    flags.push(d);
    assert(cs@.take(i as int) =~= cs@);
    flags
}

fn chars_of_string(s: &String) -> (r: Vec<char>)
    ensures
        r@ == s@,
{
    crate::text::chars_of(s.as_str())
}

spec fn text_view(o: Option<&String>) -> Option<Seq<char>> {
    match o {
        Some(s) => Some(s@),
        None => None,
    }
}

/// Turns into bus lanes the lanes that a per-lane specification marks
/// `designated`, past the first `offset` lanes. A specification with the
/// wrong number of parts changes nothing.
fn apply_bus_lanes(side: &mut Vec<LaneSpec>, spec: Option<&String>, offset: usize)
    requires
        offset <= old(side)@.len(),
    ensures
        final(side)@ == with_bus_lanes(old(side)@, text_view(spec), offset as int),
{
    let s = match spec {
        Some(s) => s,
        None => {
            return ;
        },
    };
    let flags = designations(s);
    if flags.len() != side.len() - offset {
        return ;
    }
    let ghost orig = side@;
    let n: usize = side.len();
    let mut j: usize = 0;
    while j < flags.len()
        invariant
            j <= flags@.len(),
            n == orig.len(),
            flags@.len() + offset == orig.len(),
            side@.len() == orig.len(),
            split_bar(s@).len() == flags@.len(),
            forall|k: int| 0 <= k < flags@.len()
                ==> flags@[k] == (split_bar(s@)[k] == "designated"@),
            forall|i: int|
                0 <= i < orig.len() ==> #[trigger] side@[i] == if offset <= i < offset + j
                    && split_bar(s@)[i - offset] == "designated"@ {
                    LaneSpec { lt: LaneType::Bus, ..orig[i] }
                } else {
                    orig[i]
                },
        decreases flags@.len() - j,
    {
        if flags[j] {
            let mut l = side[j + offset];
            l.lt = LaneType::Bus;
            side.set(j + offset, l);
        }
        j += 1;
    }
    assert(side@ =~= with_bus_lanes(orig, text_view(spec), offset as int));
}

/// Adds the bike lanes and cycle tracks that the `cycleway` tags describe.
fn add_bike_lanes(
    tags: &Tags,
    cfg: &MapConfig,
    oneway: bool,
    fwd_side: &mut Vec<LaneSpec>,
    back_side: &mut Vec<LaneSpec>,
)
    requires
        tags.wf(),
        oneway == is_oneway(tags@),
    ensures
        (final(fwd_side)@, final(back_side)@) == bike_sides(
            tags@,
            *cfg,
            old(fwd_side)@,
            old(back_side)@,
        ),
{
    let right_hand = cfg.driving_side == DrivingSide::Right;
    if tags.is("cycleway", "lane") || tags.is("cycleway", "track") {
        fwd_side.push(fwd(LaneType::Biking, tags));
        if back_side.len() > 0 {
            back_side.push(back(LaneType::Biking, tags));
        }
    } else if tags.is("cycleway:both", "lane") || tags.is("cycleway:both", "track") {
        fwd_side.push(fwd(LaneType::Biking, tags));
        back_side.push(back(LaneType::Biking, tags));
    } else {
        // The right of the road is the forward side when driving on the
        // right, and the backward side when driving on the left.
        if tags.is("cycleway:right", "lane") || tags.is("cycleway:right", "track") {
            let two_way = tags.is("cycleway:right:oneway", "no") || tags.is(
                "oneway:bicycle",
                "no",
            );
            if right_hand {
                if two_way {
                    fwd_side.push(back(LaneType::Biking, tags));
                }
                fwd_side.push(fwd(LaneType::Biking, tags));
            } else {
                if two_way {
                    back_side.push(fwd(LaneType::Biking, tags));
                }
                back_side.push(back(LaneType::Biking, tags));
            }
        }
        if tags.is("cycleway:left", "opposite_lane") || tags.is("cycleway", "opposite_lane") {
            if right_hand {
                back_side.push(back(LaneType::Biking, tags));
            } else {
                fwd_side.push(fwd(LaneType::Biking, tags));
            }
        }
        if tags.is("cycleway:left", "lane") || tags.is("cycleway:left", "track") || tags.is(
            "cycleway:left",
            "opposite_track",
        ) {
            let two_way = tags.is("cycleway:left:oneway", "no") || tags.is(
                "oneway:bicycle",
                "no",
            );
            if right_hand {
                if two_way {
                    back_side.push(fwd(LaneType::Biking, tags));
                    back_side.push(back(LaneType::Biking, tags));
                } else if oneway {
                    fwd_side.insert(0, fwd(LaneType::Biking, tags));
                } else {
                    back_side.push(back(LaneType::Biking, tags));
                }
            } else {
                // Left-hand driving takes the left the same way as the
                // right, which is not yet settled for cycle tracks.
                if two_way {
                    fwd_side.push(back(LaneType::Biking, tags));
                }
                fwd_side.push(fwd(LaneType::Biking, tags));
            }
        }
    }
}

proof fn lemma_first_bike(s: Seq<LaneSpec>, i: int)
    requires
        0 <= i <= s.len(),
        forall|j: int| 0 <= j < i ==> s[j].lt != LaneType::Biking,
        i == s.len() || s[i].lt == LaneType::Biking,
    ensures
        first_bike(s) == i,
    decreases s.len(),
{
    if s.len() > 0 && i > 0 {
        assert(s[0].lt != LaneType::Biking);
        assert forall|j: int| 0 <= j < i - 1 implies s.drop_first()[j].lt != LaneType::Biking by {
            assert(s.drop_first()[j] == s[j + 1]);
        }
        lemma_first_bike(s.drop_first(), i - 1);
    }
}

fn first_bike_index(s: &Vec<LaneSpec>) -> (r: usize)
    ensures
        r as int == first_bike(s@),
{
    let mut i: usize = 0;
    while i < s.len() && s[i].lt != LaneType::Biking
        invariant
            i <= s@.len(),
            forall|j: int| 0 <= j < i ==> s@[j].lt != LaneType::Biking,
        decreases s@.len() - i,
    {
        i += 1;
    }
    proof {
        lemma_first_bike(s@, i as int);
    }
    i
}

/// Places a separator of kind `kind` just before the first bike lane of
/// `side`, or just after it when `after` holds.
fn add_buffer(
    side: &mut Vec<LaneSpec>,
    kind: Option<BufferType>,
    after: bool,
    dir: Direction,
    tags: &Tags,
)
    requires
        tags.wf(),
    ensures
        final(side)@ == with_buffer(old(side)@, kind, after, dir, tags@),
{
    if let Some(k) = kind {
        let idx = first_bike_index(side);
        if idx < side.len() {
            let pos: usize = if after {
                idx + 1
            } else {
                idx
            };
            side.insert(pos, new_lane(LaneType::Buffer(k), dir, tags));
        }
    }
}

fn separation_of(tags: &Tags, k: &str) -> (r: Option<BufferType>)
    requires
        tags.wf(),
    ensures
        r == separation_tag(tags@, k@),
{
    match tags.get(k) {
        Some(v) => osm_separation_type(v),
        None => None,
    }
}

fn parks_at(tags: &Tags, k: &str) -> (r: bool)
    requires
        tags.wf(),
    ensures
        r == parks(tags@, k@),
{
    tags.is(k, "parallel") || tags.is(k, "diagonal") || tags.is(k, "perpendicular")
}

fn width_of(tags: &Tags, k: &str) -> (r: Option<u64>)
    requires
        tags.wf(),
    ensures
        r == width_tag(tags@, k@),
{
    match tags.get(k) {
        Some(v) => match parse_millimeters(v.as_str()) {
            Some(n) => if n > 0 {
                Some(n)
            } else {
                None
            },
            None => None,
        },
        None => None,
    }
}

/// Gives the outermost lane of `side` width `w`, if both exist.
fn set_outer_width(side: &mut Vec<LaneSpec>, w: Option<u64>)
    ensures
        final(side)@ == with_outer_width(old(side)@, w),
{
    if let Some(mm) = w {
        let n = side.len();
        if n > 0 {
            let mut l = side[n - 1];
            l.width = Distance { mm };
            side.set(n - 1, l);
        }
    }
}

/// Both sides of an ordinary road, each from the centerline outwards.
fn ordinary_road_sides(tags: &Tags, cfg: &MapConfig) -> (r: (Vec<LaneSpec>, Vec<LaneSpec>))
    requires
        tags.wf(),
    ensures
        (r.0@, r.1@) == road_sides(tags@, *cfg),
{
    let oneway = oneway_of(tags);
    let (num_fwd, num_back) = lane_counts(tags, oneway);
    let driving_lane = driving_lane_type(tags);

    let mut fwd_side = repeated(fwd(driving_lane, tags), num_fwd);
    let mut back_side = repeated(back(driving_lane, tags), num_back);
    if tags.is("lanes:both_ways", "1") || tags.is("centre_turn_lane", "yes") {
        fwd_side.insert(0, fwd(LaneType::SharedLeftTurn, tags));
        assert(fwd_side@ =~= initial_fwd(tags@));
    }
    assert(fwd_side@ =~= initial_fwd(tags@));
    assert(back_side@ =~= initial_back(tags@));
    if driving_lane == LaneType::Construction {
        return (fwd_side, back_side);
    }

    let fwd_spec: Option<&String> = match tags.get("bus:lanes:forward") {
        Some(s) => Some(s),
        None => match tags.get("psv:lanes:forward") {
            Some(s) => Some(s),
            None => if oneway {
                match tags.get("bus:lanes") {
                    Some(s) => Some(s),
                    None => tags.get("psv:lanes"),
                }
            } else {
                None
            },
        },
    };
    assert(text_view(fwd_spec) == fwd_bus_lanes(tags@));
    let offset: usize = if fwd_side.len() > 0 && fwd_side[0].lt == LaneType::SharedLeftTurn {
        1
    } else {
        0
    };
    apply_bus_lanes(&mut fwd_side, fwd_spec, offset);
    let back_spec: Option<&String> = match tags.get("bus:lanes:backward") {
        Some(s) => Some(s),
        None => tags.get("psv:lanes:backward"),
    };
    assert(text_view(back_spec) == back_bus_lanes(tags@));
    apply_bus_lanes(&mut back_side, back_spec, 0);

    add_bike_lanes(tags, cfg, oneway, &mut fwd_side, &mut back_side);
    assert((fwd_side@, back_side@) == sides_with_bikes(tags@, *cfg));

    // Separators go next to the bike lanes found so far. Left-hand driving
    // is not treated apart here, and the last one assumes a one-way road.
    let sep = separation_of(tags, "cycleway:right:separation:left");
    add_buffer(&mut fwd_side, sep, false, Direction::Fwd, tags);
    let sep = separation_of(tags, "cycleway:left:separation:left");
    add_buffer(&mut back_side, sep, false, Direction::Back, tags);
    let sep = separation_of(tags, "cycleway:left:separation:right");
    add_buffer(&mut fwd_side, sep, true, Direction::Fwd, tags);

    if driving_lane == LaneType::Driving {
        if parks_at(tags, "parking:lane:right") || parks_at(tags, "parking:lane:both") {
            fwd_side.push(fwd(LaneType::Parking, tags));
        }
        if parks_at(tags, "parking:lane:left") || parks_at(tags, "parking:lane:both") {
            back_side.push(back(LaneType::Parking, tags));
        }
    }

    let right_hand = cfg.driving_side == DrivingSide::Right;
    if tags.is("sidewalk", "both") {
        fwd_side.push(fwd(LaneType::Sidewalk, tags));
        back_side.push(back(LaneType::Sidewalk, tags));
    } else if tags.is("sidewalk", "separate") && cfg.inferred_sidewalks {
        fwd_side.push(fwd(LaneType::Sidewalk, tags));
        if back_side.len() > 0 {
            back_side.push(back(LaneType::Sidewalk, tags));
        }
    } else if tags.is("sidewalk", "right") {
        if right_hand {
            fwd_side.push(fwd(LaneType::Sidewalk, tags));
        } else {
            back_side.push(back(LaneType::Sidewalk, tags));
        }
    } else if tags.is("sidewalk", "left") {
        if right_hand {
            back_side.push(back(LaneType::Sidewalk, tags));
        } else {
            fwd_side.push(fwd(LaneType::Sidewalk, tags));
        }
    }

    let left_width = width_of(tags, "sidewalk:left:width");
    let right_width = width_of(tags, "sidewalk:right:width");
    if right_hand {
        set_outer_width(&mut back_side, left_width);
        set_outer_width(&mut fwd_side, right_width);
    } else {
        set_outer_width(&mut fwd_side, left_width);
        set_outer_width(&mut back_side, right_width);
    }

    let n_f = fwd_side.len();
    let n_b = back_side.len();
    let mut need_fwd_shoulder = n_f == 0 || fwd_side[n_f - 1].lt != LaneType::Sidewalk;
    let mut need_back_shoulder = n_b == 0 || back_side[n_b - 1].lt != LaneType::Sidewalk;
    if tags.is("highway", "motorway") || tags.is("highway", "motorway_link") || tags.is(
        "highway",
        "construction",
    ) || tags.is("foot", "no") || tags.is("access", "no") || tags.is("motorroad", "yes") {
        need_fwd_shoulder = false;
        need_back_shoulder = false;
    }
    // A one-way road may well have sidewalks on one side only.
    if tags.is("oneway", "yes") {
        need_back_shoulder = false;
    }
    // Where there are no sidewalks on a living street, people walk in the
    // street; shoulders model that.
    if cfg.inferred_sidewalks || tags.is("highway", "living_street") {
        if need_fwd_shoulder {
            fwd_side.push(fwd(LaneType::Shoulder, tags));
        }
        if need_back_shoulder {
            back_side.push(back(LaneType::Shoulder, tags));
        }
    }
    (fwd_side, back_side)
}

/// From the tags of a way alone, the lanes of the road, left to right.
pub fn get_lane_specs_ltr(tags: &Tags, cfg: &MapConfig) -> (r: Vec<LaneSpec>)
    requires
        tags.wf(),
    ensures
        r@ == lane_specs(tags@, *cfg),
{
    // Sidewalk inference works on a copy; the caller's tags stay as they are.
    let mut tags = tags.copied();
    infer_sidewalk_tags(&mut tags, cfg);
    let tags = &tags;
    if let Some(lanes) = special_road_lanes(tags, cfg) {
        return lanes;
    }
    let (fwd_side, back_side) = ordinary_road_sides(tags, cfg);
    LaneSpec::assemble_ltr(fwd_side, back_side, cfg.driving_side)
}

} // verus!
