use vstd::prelude::*;

verus! {

/// A route: the elements that a train passes, each with the way it passes it.
#[derive(Debug, Clone)]
pub struct Route<I>(pub Vec<RouteElement<I>>);

#[derive(Debug, PartialEq, Eq, Clone, Copy)]
pub enum RouteElement<I> {
    /// An element that is passed in its direction, or that has none.
    Element(I),
    /// A point, with the end that it is entered and the end that it is left at.
    Point(I, PointPosition, PointPosition),
    /// A signal that is passed against its direction.
    Opposed(I),
}

/// One of the three ends of a point.
#[derive(Debug, PartialEq, Eq, Clone, Copy, Structural)]
pub enum PointPosition {
    Tip,
    Normal,
    Reverse,
}

} // verus!
