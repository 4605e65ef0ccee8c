use vstd::prelude::*;

pub mod inner;

pub use crate::elements::inner::{
    DistantSignal, ElementName, MainSignal, Point, PointDefault, ShuntingSignal, SlipPoint,
    SlipPointVariant, Track, TrainRouteEnd,
};

verus! {

/// An element of a track plan as its description names it.
#[derive(Debug)]
pub enum Elements {
    Track(Track),
    Point(Point),
    SlipPoint(SlipPoint),
    MainSignal(MainSignal),
    DistantSignal(DistantSignal),
    ShuntingSignal(ShuntingSignal),
    TrainRouteEnd(TrainRouteEnd),
}

} // verus!
