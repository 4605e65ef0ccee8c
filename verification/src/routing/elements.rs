use vstd::prelude::*;

use crate::routing::{ElementID, Pathfinder, TrainRoute, NO_PREVIOUS_ELEMENT};
use crate::{Error, Failure};

verus! {

pub enum Elements {
    Point(Point),
    Track(Track),
    DeadEndTrack(DeadEndTrack),
}

impl TrainRoute for Elements {
    open spec fn id(&self) -> ElementID {
        match self {
            Elements::Point(point) => point.id(),
            Elements::Track(track) => track.id(),
            Elements::DeadEndTrack(dead_end_track) => dead_end_track.id(),
        }
    }

    open spec fn leads(&self, previous: ElementID) -> Result<Seq<ElementID>, Failure> {
        match self {
            Elements::Point(point) => point.leads(previous),
            Elements::Track(track) => track.leads(previous),
            Elements::DeadEndTrack(dead_end_track) => dead_end_track.leads(previous),
        }
    }

    fn train_route<P: Pathfinder>(&self, pathfinder: &mut P) {
        match self {
            Elements::Point(point) => point.train_route(pathfinder),
            Elements::Track(track) => track.train_route(pathfinder),
            Elements::DeadEndTrack(dead_end_track) => dead_end_track.train_route(pathfinder),
        }
    }
}

pub struct Point {
    pub id: ElementID,
    pub straight: ElementID,
    pub curved: ElementID,
    pub trunk: ElementID,
}

impl TrainRoute for Point {
    open spec fn id(&self) -> ElementID {
        self.id
    }

    /// From the trunk to the curved and to the straight leg, from either
    /// leg to the trunk.
    open spec fn leads(&self, previous: ElementID) -> Result<Seq<ElementID>, Failure> {
        if previous == self.trunk {
            Ok(seq![self.curved, self.straight])
        } else if previous == self.curved || previous == self.straight {
            Ok(seq![self.trunk])
        } else {
            Err(Failure::NoConnectionToPreviousElement)
        }
    }

    fn train_route<P: Pathfinder>(&self, pathfinder: &mut P) {
        let prev = pathfinder.previous_position();
        if prev.0 == self.trunk.0 {
            let next = [self.curved, self.straight];
            assert(next@ =~= seq![self.curved, self.straight]);
            pathfinder.next_elements(&next);
        } else if prev.0 == self.curved.0 || prev.0 == self.straight.0 {
            let next = [self.trunk];
            assert(next@ =~= seq![self.trunk]);
            pathfinder.next_elements(&next);
        } else {
            pathfinder.error(Error::NoConnectionToPreviousElement);
        }
    }
}

pub struct Track {
    pub id: ElementID,
    pub neighbour0: ElementID,
    pub neighbour1: ElementID,
}

impl TrainRoute for Track {
    open spec fn id(&self) -> ElementID {
        self.id
    }

    /// From one neighbour to the other.
    open spec fn leads(&self, previous: ElementID) -> Result<Seq<ElementID>, Failure> {
        if previous == self.neighbour0 {
            Ok(seq![self.neighbour1])
        } else if previous == self.neighbour1 {
            Ok(seq![self.neighbour0])
        } else {
            Err(Failure::NoConnectionToPreviousElement)
        }
    }

    fn train_route<P: Pathfinder>(&self, pathfinder: &mut P) {
        let prev = pathfinder.previous_position();
        if prev.0 == self.neighbour0.0 {
            let next = [self.neighbour1];
            assert(next@ =~= seq![self.neighbour1]);
            pathfinder.next_elements(&next);
        } else if prev.0 == self.neighbour1.0 {
            let next = [self.neighbour0];
            assert(next@ =~= seq![self.neighbour0]);
            pathfinder.next_elements(&next);
        } else {
            pathfinder.error(Error::NoConnectionToPreviousElement);
        }
    }
}

pub struct DeadEndTrack {
    pub id: ElementID,
    pub neighbour: ElementID,
}

impl TrainRoute for DeadEndTrack {
    open spec fn id(&self) -> ElementID {
        self.id
    }

    /// Nowhere for a train that came from the neighbour; to the neighbour
    /// for one that begins its path here.
    open spec fn leads(&self, previous: ElementID) -> Result<Seq<ElementID>, Failure> {
        if previous == self.neighbour {
            Ok(seq![])
        } else if previous.0 == NO_PREVIOUS_ELEMENT {
            Ok(seq![self.neighbour])
        } else {
            Err(Failure::NoConnectionToPreviousElement)
        }
    }

    fn train_route<P: Pathfinder>(&self, pathfinder: &mut P) {
        let prev = pathfinder.previous_position();
        if prev.0 == self.neighbour.0 {
            let next: [ElementID; 0] = [];
            assert(next@ =~= seq![]);
            pathfinder.next_elements(&next);
        } else if prev.0 == NO_PREVIOUS_ELEMENT {
            let next = [self.neighbour];
            assert(next@ =~= seq![self.neighbour]);
            pathfinder.next_elements(&next);
        } else {
            pathfinder.error(Error::NoConnectionToPreviousElement);
        }
    }
}

impl Elements {
    /// The elements that the element is connected to.
    pub open spec fn neighbours(&self) -> Seq<ElementID> {
        match self {
            Elements::Point(point) => seq![point.trunk, point.curved, point.straight],
            Elements::Track(track) => seq![track.neighbour0, track.neighbour1],
            Elements::DeadEndTrack(dead_end_track) => seq![dead_end_track.neighbour],
        }
    }

    /// An element leads to at most two elements, which are among its neighbours.
    pub proof fn lemma_leads(&self, previous: ElementID)
        ensures
            match self.leads(previous) {
                Ok(next) => next.len() <= 2 && forall|k: int|
                    0 <= k < next.len() ==> self.neighbours().contains(#[trigger] next[k]),
                Err(e) => e == Failure::NoConnectionToPreviousElement,
            },
    {
        let all = self.neighbours();
        match self {
            Elements::Point(point) => {
                assert(all[0] == point.trunk && all[1] == point.curved && all[2] == point.straight);
            },
            Elements::Track(track) => {
                assert(all[0] == track.neighbour0 && all[1] == track.neighbour1);
            },
            Elements::DeadEndTrack(dead_end_track) => {
                assert(all[0] == dead_end_track.neighbour);
            },
        }
    }
}

} // verus!
