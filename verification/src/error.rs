//! The ways in which building a diagram can fail.

use vstd::prelude::*;

verus! {

/// An invariant of the subdivision or of the beachline was found broken while
/// a diagram was built. There is no partial diagram to hand out in that case.
#[derive(Debug, PartialEq, Eq, Structural, Clone, Copy)]
pub enum BuildError {
    /// Two half-edges that were to follow one another lie on different faces.
    DifferentFaces,
    /// The half-edge that was to get a successor already has one.
    FirstConnected,
    /// The half-edge that was to get a predecessor already has one.
    SecondConnected,
    /// The two half-edges of a pair would lie on the same face.
    SameFace,
    /// A half-edge that separates two faces has no twin.
    MissingTwin,
    /// A half-edge that a breakpoint still traces has a start vertex already.
    StartSet,
    /// A half-edge was left without a start vertex.
    MissingStart,
    /// A half-edge was left without a predecessor.
    MissingPrev,
    /// A half-edge was left without a successor.
    MissingNext,
    /// A face was left without a half-edge.
    FaceWithoutEdge,
    /// A face whose ring is open has no half-edge that leaves the border.
    MissingBoundsStart,
    /// A face whose ring is open has no half-edge that arrives at the border.
    MissingBoundsEnd,
    /// The parabolas of two neighbouring arcs do not meet in two points.
    NoIntersections,
    /// The arc to remove has no breakpoint on one of its sides.
    MissingNeighbor,
    /// The foci of three neighbouring arcs lie on one line.
    NoCircle,
    /// The breakpoint to remove is the root of the beachline.
    MissingParent,
    /// The node to be replaced is not a child of the given breakpoint.
    NotAChild,
    /// An arc was to leave a beachline that holds no arc.
    EmptyBeachline,
    /// The breakpoints of the beachline do not come to an end.
    EndlessBeachline,
    /// The ray of an open half-edge does not meet the bounding rectangle.
    NoBoundaryHit,
    /// The end of an open half-edge does not lie on the bounding rectangle, or
    /// the walk along the rectangle does not reach the other end.
    OffBoundary,
}

} // verus!
