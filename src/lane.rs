//! Lanes: their types, directions and widths, the configuration that lane
//! inference reads, and the assembly of two road sides into one
//! left-to-right list.

use crate::tags::{has_tag, Tags};
use vstd::prelude::*;

verus! {

/// Which side of the road vehicles drive on.
#[derive(Clone, Copy, Debug, PartialEq, Eq, Structural)]
pub enum DrivingSide {
    Right,
    Left,
}

/// Travel direction relative to the direction in which the way was drawn.
#[derive(Clone, Copy, Debug, PartialEq, Eq, Structural)]
pub enum Direction {
    Fwd,
    Back,
}

/// What a non-traversable separator is made of.
#[derive(Clone, Copy, Debug, PartialEq, Eq, Structural)]
pub enum BufferType {
    FlexPosts,
    Curb,
    Planters,
    JerseyBarrier,
    Stripes,
}

/// What a lane is for.
#[derive(Clone, Copy, Debug, PartialEq, Eq, Structural)]
pub enum LaneType {
    Driving,
    Bus,
    Parking,
    Sidewalk,
    Shoulder,
    Biking,
    SharedLeftTurn,
    SharedUse,
    Footway,
    Construction,
    LightRail,
    Buffer(BufferType),
}

/// A length, in whole millimeters.
#[derive(Clone, Copy, Debug, PartialEq, Eq, Structural)]
pub struct Distance {
    pub mm: u64,
}

/// One lane of a road.
#[derive(Clone, Copy, Debug, PartialEq, Eq, Structural)]
pub struct LaneSpec {
    pub lt: LaneType,
    pub dir: Direction,
    pub width: Distance,
}

/// The settings of lane inference for a whole map.
#[derive(Clone, Copy, Debug, PartialEq, Eq, Structural)]
pub struct MapConfig {
    pub driving_side: DrivingSide,
    /// Whether to add sidewalks and shoulders that the tags do not mention.
    pub inferred_sidewalks: bool,
    /// Asks for a separate, experimental inference engine. This library
    /// holds only the classic engine, which runs whatever this says.
    pub experimental_inference: bool,
}

pub open spec fn is_highway_class(t: Map<Seq<char>, Seq<char>>) -> bool {
    has_tag(t, "highway"@, "motorway"@) || has_tag(t, "highway"@, "trunk"@)
}

/// The typical width of a lane of type `lt` on a road with tags `t`, in
/// millimeters.
pub open spec fn typical_width(lt: LaneType, t: Map<Seq<char>, Seq<char>>) -> u64 {
    match lt {
        LaneType::Driving => if is_highway_class(t) {
            3658
        } else {
            3048
        },
        LaneType::Bus => 3658,
        LaneType::Parking => if has_tag(t, "highway"@, "residential"@) {
            2134
        } else {
            2743
        },
        LaneType::SharedLeftTurn => 2500,
        LaneType::Construction => 2500,
        LaneType::LightRail => 2500,
        LaneType::Sidewalk => 1500,
        LaneType::Shoulder => 500,
        LaneType::Biking => 2000,
        LaneType::Footway => 2000,
        LaneType::SharedUse => 2000,
        LaneType::Buffer(BufferType::Stripes) => 1500,
        LaneType::Buffer(BufferType::FlexPosts) => 1500,
        LaneType::Buffer(BufferType::Planters) => 2000,
        LaneType::Buffer(BufferType::JerseyBarrier) => 1500,
        LaneType::Buffer(BufferType::Curb) => 500,
    }
}

/// A lane of type `lt` and direction `dir` at its typical width.
pub open spec fn typical_lane(
    lt: LaneType,
    dir: Direction,
    t: Map<Seq<char>, Seq<char>>,
) -> LaneSpec {
    LaneSpec { lt, dir, width: Distance { mm: typical_width(lt, t) } }
}

/// The left-to-right list of a road whose sides are listed from the
/// centerline outwards.
pub open spec fn assembled(fwd: Seq<LaneSpec>, back: Seq<LaneSpec>, side: DrivingSide) -> Seq<
    LaneSpec,
> {
    match side {
        DrivingSide::Right => back.reverse() + fwd,
        DrivingSide::Left => fwd.reverse() + back,
    }
}

fn width_choice(mm: u64, why: &'static str, out: &mut Vec<(Distance, &'static str)>)
    ensures
        final(out)@ == old(out)@.push((Distance { mm }, why)),
{
    out.push((Distance { mm }, why));
}

impl LaneSpec {
    /// The widths that a lane of type `lt` typically has on a road with
    /// these tags, each with the reason for it; the first is the usual one.
    pub fn typical_lane_widths(lt: LaneType, tags: &Tags) -> (r: Vec<(Distance, &'static str)>)
        requires
            tags.wf(),
        ensures
            r@.len() > 0,
            r@[0].0.mm == typical_width(lt, tags@),
            forall|i: int| 0 <= i < r@.len() ==> (#[trigger] r@[i]).0.mm > 0,
    {
        let mut out: Vec<(Distance, &'static str)> = Vec::new();
        match lt {
            LaneType::Driving => {
                if tags.is("highway", "motorway") || tags.is("highway", "trunk") {
                    width_choice(3658, "highway lane", &mut out);
                    width_choice(3048, "typical lane", &mut out);
                } else {
                    width_choice(3048, "typical lane", &mut out);
                    width_choice(3658, "highway lane", &mut out);
                }
                width_choice(2438, "narrow lane", &mut out);
            },
            LaneType::Bus => {
                width_choice(3658, "normal", &mut out);
                width_choice(3048, "minimum", &mut out);
            },
            LaneType::Parking => {
                if tags.is("highway", "residential") {
                    width_choice(2134, "narrow", &mut out);
                    width_choice(2743, "wide", &mut out);
                } else {
                    width_choice(2743, "wide", &mut out);
                    width_choice(2134, "narrow", &mut out);
                }
                width_choice(4572, "loading zone", &mut out);
            },
            LaneType::SharedLeftTurn | LaneType::Construction | LaneType::LightRail => {
                width_choice(2500, "default", &mut out);
            },
            LaneType::Sidewalk => {
                width_choice(1500, "default", &mut out);
                width_choice(1829, "wide", &mut out);
            },
            LaneType::Shoulder => {
                width_choice(500, "default", &mut out);
            },
            LaneType::Biking => {
                width_choice(2000, "standard", &mut out);
                width_choice(1500, "absolute minimum", &mut out);
            },
            LaneType::Footway | LaneType::SharedUse => {
                width_choice(2000, "default", &mut out);
            },
            LaneType::Buffer(BufferType::Planters) => {
                width_choice(2000, "default", &mut out);
            },
            LaneType::Buffer(BufferType::Curb) => {
                width_choice(500, "default", &mut out);
            },
            LaneType::Buffer(_) => {
                width_choice(1500, "default", &mut out);
            },
        }
        out
    }

    /// Joins the two sides of a road, each listed from the centerline
    /// outwards, into one list from left to right.
    pub fn assemble_ltr(
        fwd_side: Vec<LaneSpec>,
        back_side: Vec<LaneSpec>,
        driving_side: DrivingSide,
    ) -> (r: Vec<LaneSpec>)
        ensures
            r@ == assembled(fwd_side@, back_side@, driving_side),
    {
        let (inner, outer) = match driving_side {
            DrivingSide::Right => (back_side, fwd_side),
            DrivingSide::Left => (fwd_side, back_side),
        };
        let mut out: Vec<LaneSpec> = Vec::new();
        let mut i: usize = inner.len();
        while i > 0
            invariant
                i <= inner@.len(),
                out@ == inner@.subrange(i as int, inner@.len() as int).reverse(),
            decreases i,
        {
            i -= 1;
            let ghost before = out@;
            out.push(inner[i]);
            assert(out@ =~= inner@.subrange(i as int, inner@.len() as int).reverse());
        }
        assert(inner@.subrange(0, inner@.len() as int) =~= inner@);
        let mut j: usize = 0;
        let ghost rev = out@;
        while j < outer.len()
            invariant
                j <= outer@.len(),
                out@ == rev + outer@.take(j as int),
            decreases outer@.len() - j,
        {
            out.push(outer[j]);
            assert(out@ =~= rev + outer@.take(j + 1));
            j += 1;
        }
        assert(outer@.take(outer@.len() as int) =~= outer@);
        out
    }
}

} // verus!
