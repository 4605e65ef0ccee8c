use vstd::prelude::*;

verus! {

/// A vehicle has moved from one element to the next.
pub struct Event {
    pub from: ElementID,
    pub to: ElementID,
}

/// What reacts to the moves of vehicles.
pub trait EventProcessor {
    fn process(&mut self, event: &mut Event) {
    }
}

#[derive(Debug, Clone, Copy)]
pub struct ElementID {
    pub id: usize,
}

/// A point with what is known of its state.
#[derive(Debug)]
pub struct PointGroup {
    pub occupied: bool,
    pub position: PointPosition,
    pub tip: ElementID,
    pub normal: ElementID,
    pub reverse: ElementID,
    pub route_normal: bool,
    pub route_reverse: bool,
}

#[derive(Debug)]
pub struct ShuntingRouteGroup {
    pub from: ElementID,
    pub to: ElementID,
    pub active: ElementID,
}

/// What holds of a point, one bit for each statement.
#[derive(Debug, Clone, Copy)]
pub struct PointPosition {
    pub bits: u8,
}

/// The point lies normal.
pub const NORMAL: u8 = 1;

/// The point lies reverse.
pub const REVERSE: u8 = 2;

/// A route holds the point in its normal position.
pub const ROUTE_NORMAL: u8 = 4;

/// A route holds the point in its reverse position.
pub const ROUTE_REVERSE: u8 = 8;

/// The point is to lie normal when nothing holds it.
pub const PREFER_NORMAL: u8 = 16;

/// The point is to lie reverse when nothing holds it.
pub const PREFER_REVERSE: u8 = 32;

/// The point is moving to its normal position.
pub const TURNING_NORMAL: u8 = 64;

/// The point is moving to its reverse position.
pub const TURNING_REVERSE: u8 = 128;

impl PointPosition {
    pub fn bits(&self) -> (r: u8)
        ensures
            r == self.bits,
    {
        self.bits
    }

    /// Whether every statement of `other` holds.
    pub fn contains(&self, other: PointPosition) -> (r: bool)
        ensures
            r == (self.bits & other.bits == other.bits),
    {
        self.bits & other.bits == other.bits
    }
}

} // verus!
