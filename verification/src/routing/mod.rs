use vstd::prelude::*;

use crate::{Error, Failure};

pub mod elements;
pub mod pathfinder;

verus! {

/// The number of an element: its place in the list of elements.
#[derive(Debug, PartialEq, Eq, Clone, Copy, Structural)]
pub struct ElementID(pub usize);

impl From<usize> for ElementID {
    fn from(value: usize) -> (r: ElementID) {
        ElementID(value)
    }
}

impl vstd::std_specs::convert::FromSpecImpl<usize> for ElementID {
    open spec fn obeys_from_spec() -> bool {
        true
    }

    open spec fn from_spec(value: usize) -> ElementID {
        ElementID(value)
    }
}

/// The number that stands for the element before the first element of a path.
pub const NO_PREVIOUS_ELEMENT: usize = usize::MAX;

/// What an element of the track knows of the ways over it.
pub trait TrainRoute {
    /// The number of the element.
    spec fn id(&self) -> ElementID;

    /// The elements that a train can go on to that came from `previous`, or
    /// the error that `previous` is none of the element's neighbours.
    spec fn leads(&self, previous: ElementID) -> Result<Seq<ElementID>, Failure>;

    /// Tells `pathfinder`, which has reached the element, how its path goes on.
    fn train_route<P: Pathfinder>(&self, pathfinder: &mut P)
        requires
            old(pathfinder).ready(),
            old(pathfinder).current() == self.id(),
        ensures
            match self.leads(old(pathfinder).previous()) {
                Ok(next) => old(pathfinder).goes_on(next, *final(pathfinder)),
                Err(e) => old(pathfinder).gives_up(e, *final(pathfinder)),
            },
    ;
}

/// What follows a path through the elements, one element at a time.
pub trait Pathfinder: Sized {
    /// Whether the pathfinder follows a path.
    spec fn ready(&self) -> bool;

    /// The element that the path has reached.
    spec fn current(&self) -> ElementID;

    /// The element that the path reached before, or the one with the number
    /// [`NO_PREVIOUS_ELEMENT`].
    spec fn previous(&self) -> ElementID;

    /// Whether `after` is what the pathfinder becomes when its path goes on
    /// to `elements`.
    spec fn goes_on(&self, elements: Seq<ElementID>, after: Self) -> bool;

    /// Whether `after` is what the pathfinder becomes when the element that
    /// its path has reached reports `err`.
    spec fn gives_up(&self, err: Failure, after: Self) -> bool;

    fn current_position(&self) -> (r: ElementID)
        requires
            self.ready(),
        ensures
            r == self.current(),
    ;

    fn previous_position(&self) -> (r: ElementID)
        requires
            self.ready(),
        ensures
            r == self.previous(),
    ;

    fn next_elements(&mut self, elements: &[ElementID])
        requires
            old(self).ready(),
        ensures
            old(self).goes_on(elements@, *final(self)),
    ;

    fn error(&mut self, err: Error)
        requires
            old(self).ready(),
        ensures
            old(self).gives_up(err@, *final(self)),
    ;
}

} // verus!
