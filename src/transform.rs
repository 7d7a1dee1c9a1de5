//! The catalogue of in-place transformations of a street network, and the
//! standard sequences of them.

use vstd::prelude::*;

verus! {

/// An in-place transformation of a street network.
#[derive(Clone, Copy, Debug, PartialEq, Eq, Structural)]
pub enum Transformation {
    ClassifyIntersections,
    TrimDeadendCycleways,
    SnapCycleways,
    RemoveDisconnectedRoads,
    FindShortRoads { consolidate_all_intersections: bool },
    MergeShortRoads,
    CollapseDegenerateIntersections,
    CollapseSausageLinks,
    ShrinkOverlappingRoads,
    MergeDualCarriageways,
}

/// The full suite for A/B Street, in order.
pub open spec fn abstreet_suite() -> Seq<Transformation> {
    seq![
        Transformation::ClassifyIntersections,
        Transformation::TrimDeadendCycleways,
        Transformation::TrimDeadendCycleways,
        Transformation::RemoveDisconnectedRoads,
        Transformation::CollapseSausageLinks,
        Transformation::FindShortRoads { consolidate_all_intersections: false },
        Transformation::MergeShortRoads,
        Transformation::CollapseDegenerateIntersections,
        Transformation::ShrinkOverlappingRoads,
    ]
}

/// The suite for small clipped areas: the full one without removing
/// disconnected roads and with dead ends trimmed once.
pub open spec fn clipped_suite() -> Seq<Transformation> {
    seq![
        Transformation::ClassifyIntersections,
        Transformation::TrimDeadendCycleways,
        Transformation::CollapseSausageLinks,
        Transformation::FindShortRoads { consolidate_all_intersections: false },
        Transformation::MergeShortRoads,
        Transformation::CollapseDegenerateIntersections,
        Transformation::ShrinkOverlappingRoads,
    ]
}

/// The human-readable name of a transformation.
pub open spec fn transformation_name(t: Transformation) -> Seq<char> {
    match t {
        Transformation::ClassifyIntersections => "classify intersections"@,
        Transformation::TrimDeadendCycleways => "trim dead-end cycleways"@,
        Transformation::SnapCycleways => "snap separate cycleways"@,
        Transformation::RemoveDisconnectedRoads => "remove disconnected roads"@,
        Transformation::FindShortRoads { .. } => "find short roads"@,
        Transformation::MergeShortRoads => "merge short roads"@,
        Transformation::CollapseDegenerateIntersections => "collapse degenerate intersections"@,
        Transformation::CollapseSausageLinks => "collapse sausage links"@,
        Transformation::ShrinkOverlappingRoads => "shrink overlapping roads"@,
        Transformation::MergeDualCarriageways => "merge dual carriageways"@,
    }
}

impl Transformation {
    /// A full suite of transformations for A/B Street, which does not yet
    /// handle separately mapped footways and sidewalks. Trimming dead-end
    /// cycleways runs twice, since one pass can create new dead ends.
    pub fn abstreet() -> (r: Vec<Self>)
        ensures
            r@ == abstreet_suite(),
    {
        let mut v: Vec<Self> = Vec::new();
        v.push(Transformation::ClassifyIntersections);
        v.push(Transformation::TrimDeadendCycleways);
        v.push(Transformation::TrimDeadendCycleways);
        v.push(Transformation::RemoveDisconnectedRoads);
        v.push(Transformation::CollapseSausageLinks);
        v.push(Transformation::FindShortRoads { consolidate_all_intersections: false });
        v.push(Transformation::MergeShortRoads);
        v.push(Transformation::CollapseDegenerateIntersections);
        v.push(Transformation::ShrinkOverlappingRoads);
        assert(v@ =~= abstreet_suite());
        v
    }

    /// Like `abstreet`, but keeps disconnected roads. Useful for test cases
    /// and small clipped areas.
    pub fn standard_for_clipped_areas() -> (r: Vec<Self>)
        ensures
            r@ == clipped_suite(),
    {
        let mut v: Vec<Self> = Vec::new();
        v.push(Transformation::ClassifyIntersections);
        v.push(Transformation::TrimDeadendCycleways);
        v.push(Transformation::CollapseSausageLinks);
        v.push(Transformation::FindShortRoads { consolidate_all_intersections: false });
        v.push(Transformation::MergeShortRoads);
        v.push(Transformation::CollapseDegenerateIntersections);
        v.push(Transformation::ShrinkOverlappingRoads);
        assert(v@ =~= clipped_suite());
        v
    }

    /// The name under which this transformation is reported.
    pub fn name(&self) -> (r: &'static str)
        ensures
            r@ == transformation_name(*self),
    {
        match self {
            Transformation::ClassifyIntersections => "classify intersections",
            Transformation::TrimDeadendCycleways => "trim dead-end cycleways",
            Transformation::SnapCycleways => "snap separate cycleways",
            Transformation::RemoveDisconnectedRoads => "remove disconnected roads",
            Transformation::FindShortRoads { .. } => "find short roads",
            Transformation::MergeShortRoads => "merge short roads",
            Transformation::CollapseDegenerateIntersections => "collapse degenerate intersections",
            Transformation::CollapseSausageLinks => "collapse sausage links",
            Transformation::ShrinkOverlappingRoads => "shrink overlapping roads",
            Transformation::MergeDualCarriageways => "merge dual carriageways",
        }
    }
}

} // verus!
