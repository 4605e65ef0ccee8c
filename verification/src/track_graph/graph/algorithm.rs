use std::collections::VecDeque;
use vstd::prelude::*;

use crate::routes::{PointPosition, Route, RouteElement};
use crate::track_graph::graph::TrackGraph;
use crate::track_graph::nodes::NodeType;
use crate::track_graph::TrackGraphID;
use crate::walk::{
    lemma_pow3_positive, lemma_revisits_prefix, lemma_route_length, lemma_work_pop, lemma_work_push,
    passes, pow3, revisits, weight, work,
};
use crate::Error;

verus! {

impl TrackGraph {
    /// What the node `at` is connected to.
    pub open spec fn kind(&self, at: TrackGraphID) -> NodeType<TrackGraphID> {
        self.nodes@[at.0 as int].neighbours
    }

    /// Whether `at` is a node of the graph.
    pub open spec fn has(&self, at: TrackGraphID) -> bool {
        at.0 < self.nodes@.len()
    }

    /// Whether `from` is one of the ends of the node `at`.
    pub open spec fn joins(&self, from: TrackGraphID, at: TrackGraphID) -> bool {
        self.kind(at).endpoints().contains(from)
    }

    /// Every connection is known at both of its ends: a node is an end of
    /// each node that is one of its own ends.
    pub open spec fn linked(&self) -> bool {
        forall|i: int, k: int|
            0 <= i < self.nodes@.len() && 0 <= k < self.nodes@[i].neighbours.endpoints().len()
                ==> self.joins(
                TrackGraphID(i as usize),
                #[trigger] self.nodes@[i].neighbours.endpoints()[k],
            )
    }

    /// Whether each point of the graph has two different legs.
    pub open spec fn points_fork(&self) -> bool {
        forall|i: int|
            0 <= i < self.nodes@.len() ==> match (#[trigger] self.nodes@[i]).neighbours {
                NodeType::Point { tip: _, normal, reverse, free_if_coupled_normal: _ } => normal
                    != reverse,
                _ => true,
            }
    }

    /// The nodes that a train can enter next when it stands on `at` and came
    /// from `from`.
    ///
    /// A track, a derailer, an overlap end and a signal lead to their other
    /// end; a crossing to the other end of the same through route; a point
    /// from its tip to its normal and to its reverse leg, in that order, and
    /// from either leg to its tip. A dead end and a block lead nowhere.
    pub open spec fn successors(&self, from: TrackGraphID, at: TrackGraphID) -> Seq<TrackGraphID> {
        match self.kind(at) {
            NodeType::Sentinel => seq![],
            NodeType::Track { x, y } => if from == x {
                seq![y]
            } else if from == y {
                seq![x]
            } else {
                seq![]
            },
            NodeType::Derailer { from: a, to: b } => if from == a {
                seq![b]
            } else if from == b {
                seq![a]
            } else {
                seq![]
            },
            NodeType::Point { tip, normal, reverse, free_if_coupled_normal: _ } => if from == tip {
                seq![normal, reverse]
            } else if from == normal || from == reverse {
                seq![tip]
            } else {
                seq![]
            },
            NodeType::Crossing { a, b, x, y } => if from == a {
                seq![b]
            } else if from == b {
                seq![a]
            } else if from == x {
                seq![y]
            } else if from == y {
                seq![x]
            } else {
                seq![]
            },
            NodeType::DeadEnd { x: _ } => seq![],
            NodeType::Signal { from: a, to: b } => if from == a {
                seq![b]
            } else if from == b {
                seq![a]
            } else {
                seq![]
            },
            NodeType::OverlapEnd { x, y } => if from == x {
                seq![y]
            } else if from == y {
                seq![x]
            } else {
                seq![]
            },
            NodeType::Block { x: _ } => seq![],
        }
    }

    /// Whether a route ends at `at` without reaching its destination: at a
    /// dead end or a block.
    pub open spec fn ends_at(&self, at: TrackGraphID) -> bool {
        self.kind(at) is DeadEnd || self.kind(at) is Block
    }

    /// Whether `at` is a signal of the graph.
    pub open spec fn is_signal(&self, at: TrackGraphID) -> bool {
        self.has(at) && self.kind(at) is Signal
    }

    /// The node behind the signal `at`.
    pub open spec fn behind(&self, at: TrackGraphID) -> TrackGraphID {
        match self.kind(at) {
            NodeType::Signal { from: _, to } => to,
            _ => at,
        }
    }

    /// Whether the step of `route` from its node `k` to the next is one that
    /// the node allows to a train that came from the node before.
    pub open spec fn step(&self, route: Seq<TrackGraphID>, k: int) -> bool {
        self.successors(route[k - 1], route[k]).contains(route[k + 1])
    }

    /// Whether `route` is the beginning of a search from the signal `start`
    /// for `destination`: `start` is a signal, the route leaves it in its
    /// direction, each step is one that the node allows, it has not reached
    /// the destination after its second node and before its last, and it
    /// passes no connection twice in the same direction.
    pub open spec fn is_candidate(
        &self,
        route: Seq<TrackGraphID>,
        start: TrackGraphID,
        destination: TrackGraphID,
    ) -> bool {
        &&& self.is_signal(start)
        &&& route.len() >= 2
        &&& route[0] == start
        &&& route[1] == self.behind(start)
        &&& forall|k: int| 1 <= k < route.len() - 1 ==> #[trigger] self.step(route, k)
        &&& forall|k: int| 2 <= k < route.len() - 1 ==> #[trigger] route[k] != destination
        &&& !revisits(route)
    }

    /// Whether `route` is a route from the signal `start` to `destination`:
    /// the beginning of a search that ends at the destination. The second node
    /// of a route counts as reached only where the route ends there, at a dead
    /// end or a block.
    pub open spec fn is_route(
        &self,
        route: Seq<TrackGraphID>,
        start: TrackGraphID,
        destination: TrackGraphID,
    ) -> bool {
        &&& self.is_candidate(route, start, destination)
        &&& route.last() == destination
        &&& route.len() == 2 ==> self.ends_at(route[1])
    }

    /// Whether no route leads from `start` to `destination`.
    pub open spec fn unreachable(&self, start: TrackGraphID, destination: TrackGraphID) -> bool {
        forall|route: Seq<TrackGraphID>| !#[trigger] self.is_route(route, start, destination)
    }

    /// No route leads to what is no node of the graph.
    pub proof fn lemma_unknown_destination(&self, start: TrackGraphID, destination: TrackGraphID)
        requires
            self.wf(),
            !self.has(destination),
        ensures
            self.unreachable(start, destination),
    {
        assert forall|route: Seq<TrackGraphID>| !#[trigger] self.is_route(
            route,
            start,
            destination,
        ) by {
            if self.is_route(route, start, destination) {
                self.lemma_route_stays(route, start, destination, route.len() - 1);
            }
        }
    }

    /// Every node of a route after the signal is a node of the graph.
    pub proof fn lemma_route_stays(
        &self,
        route: Seq<TrackGraphID>,
        start: TrackGraphID,
        destination: TrackGraphID,
        k: int,
    )
        requires
            self.wf(),
            self.is_candidate(route, start, destination),
            1 <= k < route.len(),
        ensures
            self.has(route[k]),
        decreases k,
    {
        if k == 1 {
            assert(self.node_ok(start.0 as int));
            assert(self.nodes@[start.0 as int].neighbours.endpoints()[1] == route[1]);
        } else {
            self.lemma_route_stays(route, start, destination, k - 1);
            assert(self.step(route, k - 1));
            let next = self.successors(route[k - 2], route[k - 1]);
            let w = choose|w: int| 0 <= w < next.len() && next[w] == route[k];
            self.lemma_successors(route[k - 2], route[k - 1]);
            assert(self.has(next[w]));
        }
    }

    /// The ends of a node of a well-formed graph are nodes, and so is what a
    /// node leads to.
    pub proof fn lemma_successors(&self, from: TrackGraphID, at: TrackGraphID)
        requires
            self.wf(),
            self.has(at),
        ensures
            self.successors(from, at).len() <= 2,
            forall|k: int|
                0 <= k < self.successors(from, at).len() ==> self.joins(
                    #[trigger] self.successors(from, at)[k],
                    at,
                ) && self.has(self.successors(from, at)[k]),
            self.joins(from, at) && !self.ends_at(at) ==> self.successors(from, at).len() >= 1,
            self.points_fork() ==> self.successors(from, at).no_duplicates(),
    {
        let ends = self.kind(at).endpoints();
        let next = self.successors(from, at);
        assert(self.nodes@[at.0 as int].neighbours == self.kind(at));
        assert forall|k: int| 0 <= k < next.len() implies self.joins(#[trigger] next[k], at)
            && self.has(next[k]) by {
            let w = choose|w: int| 0 <= w < ends.len() && ends[w] == next[k];
            assert(self.node_ok(at.0 as int));
            assert(self.has(self.nodes@[at.0 as int].neighbours.endpoints()[w]));
        }
        if self.joins(from, at) && !self.ends_at(at) {
            let w = choose|w: int| 0 <= w < ends.len() && ends[w] == from;
        }
    }
}

/// Whether every node of `route` is a node of `graph`.
pub open spec fn in_graph(graph: &TrackGraph, route: Seq<TrackGraphID>) -> bool {
    forall|k: int| 0 <= k < route.len() ==> graph.has(#[trigger] route[k])
}

/// Whether `route` is one of `routes`.
pub open spec fn found(routes: Seq<Vec<TrackGraphID>>, route: Seq<TrackGraphID>) -> bool {
    exists|i: int| 0 <= i < routes.len() && (#[trigger] routes[i])@ == route
}

/// Whether `route` begins with one of `list`.
pub open spec fn awaited(list: Seq<Vec<TrackGraphID>>, route: Seq<TrackGraphID>) -> bool {
    exists|j: int| 0 <= j < list.len() && (#[trigger] list[j])@.is_prefix_of(route)
}

/// Whether neither of two routes is the beginning of the other.
pub open spec fn apart(a: Seq<TrackGraphID>, b: Seq<TrackGraphID>) -> bool {
    !a.is_prefix_of(b) && !b.is_prefix_of(a)
}

/// Whether the routes of `list` are apart from each other.
pub open spec fn spread(list: Seq<Vec<TrackGraphID>>) -> bool {
    forall|i: int, j: int|
        0 <= i < j < list.len() ==> apart((#[trigger] list[i])@, (#[trigger] list[j])@)
}

/// Whether each route of `list` is apart from `route` or is `route` with
/// one of the first `m` nodes of `next` behind it.
pub open spec fn apart_or_grown(
    list: Seq<Vec<TrackGraphID>>,
    route: Seq<TrackGraphID>,
    next: Seq<TrackGraphID>,
    m: int,
) -> bool {
    forall|i: int|
        0 <= i < list.len() ==> apart((#[trigger] list[i])@, route) || exists|q: int|
            0 <= q < m && list[i]@ == route.push(#[trigger] next[q])
}

/// Whether `longer` goes on from `route` to one of the nodes of `next` from
/// the position `m` on.
pub open spec fn goes_on(
    longer: Seq<TrackGraphID>,
    route: Seq<TrackGraphID>,
    next: Seq<TrackGraphID>,
    m: int,
) -> bool {
    &&& route.is_prefix_of(longer)
    &&& longer.len() > route.len()
    &&& exists|t: int| m <= t < next.len() && #[trigger] next[t] == longer[route.len() as int]
}

impl TrackGraph {
    /// What holds of the unfinished routes of a search.
    pub open spec fn unfinished(
        &self,
        list: Seq<Vec<TrackGraphID>>,
        start: TrackGraphID,
        destination: TrackGraphID,
    ) -> bool {
        forall|j: int|
            0 <= j < list.len() ==> {
                &&& self.is_candidate((#[trigger] list[j])@, start, destination)
                &&& in_graph(self, list[j]@)
                &&& list[j]@.len() >= 3 ==> list[j]@.last() != destination
            }
    }

    /// What holds of the routes that a search has found.
    pub open spec fn finished(
        &self,
        routes: Seq<Vec<TrackGraphID>>,
        start: TrackGraphID,
        destination: TrackGraphID,
    ) -> bool {
        forall|i: int|
            0 <= i < routes.len() ==> self.is_route((#[trigger] routes[i])@, start, destination)
    }

    /// Whether a search from `start` for `destination` can pass everywhere:
    /// wherever it goes on, it has come to the node from one of the node's ends.
    pub open spec fn passable(&self, start: TrackGraphID, destination: TrackGraphID) -> bool {
        forall|route: Seq<TrackGraphID>| #[trigger]
            self.is_candidate(route, start, destination) && (route.len() >= 3 ==> route.last()
                != destination) ==> self.joins(route[route.len() - 2], route.last())
    }

    /// In a graph that knows every connection at both ends every search can
    /// pass everywhere.
    pub proof fn lemma_linked_is_passable(&self, start: TrackGraphID, destination: TrackGraphID)
        requires
            self.wf(),
            self.linked(),
        ensures
            self.passable(start, destination),
    {
        assert forall|route: Seq<TrackGraphID>| #[trigger]
            self.is_candidate(route, start, destination) implies self.joins(
            route[route.len() - 2],
            route.last(),
        ) by {
            assert forall|k: int| 0 <= k < route.len() implies self.has(#[trigger] route[k]) by {
                if k >= 1 {
                    self.lemma_route_stays(route, start, destination, k);
                }
            }
            self.lemma_candidate_joined(route, start, destination);
        }
    }

    /// The beginning of a search came to its last node from one of that
    /// node's ends.
    proof fn lemma_candidate_joined(
        &self,
        route: Seq<TrackGraphID>,
        start: TrackGraphID,
        destination: TrackGraphID,
    )
        requires
            self.wf(),
            self.linked(),
            self.is_signal(start),
            self.is_candidate(route, start, destination),
            in_graph(self, route),
        ensures
            self.joins(route[route.len() - 2], route.last()),
    {
        let n = route.len() as int;
        if n == 2 {
            assert(self.nodes@[start.0 as int].neighbours.endpoints()[1] == self.behind(start));
            assert(TrackGraphID(start.0 as int as usize) == start);
        } else {
            assert(self.step(route, n - 2));
            assert(self.has(route[n - 2]));
            self.lemma_successors(route[n - 3], route[n - 2]);
            let ends = self.kind(route[n - 2]).endpoints();
            let k = choose|k: int| 0 <= k < ends.len() && ends[k] == route[n - 1];
            assert(self.nodes@[route[n - 2].0 as int].neighbours.endpoints()[k] == route[n - 1]);
            assert(TrackGraphID(route[n - 2].0 as int as usize) == route[n - 2]);
        }
    }

    /// The beginning of a search, grown by a node that its last node leads
    /// to, is the beginning of a search again, unless it so passes a
    /// connection for the second time.
    pub proof fn lemma_candidate_grows(
        &self,
        route: Seq<TrackGraphID>,
        next: TrackGraphID,
        start: TrackGraphID,
        destination: TrackGraphID,
    )
        requires
            self.wf(),
            self.is_candidate(route, start, destination),
            in_graph(self, route),
            route.len() >= 3 ==> route.last() != destination,
            self.successors(route[route.len() - 2], route.last()).contains(next),
        ensures
            in_graph(self, route.push(next)),
            revisits(route.push(next)) == passes(route, route.last(), next),
            !passes(route, route.last(), next) ==> self.is_candidate(
                route.push(next),
                start,
                destination,
            ),
    {
        let n = route.len() as int;
        let longer = route.push(next);
        self.lemma_successors(route[n - 2], route[n - 1]);
        assert(self.has(next));
        assert forall|k: int| 0 <= k < longer.len() implies self.has(#[trigger] longer[k]) by {
            if k < n {
                assert(longer[k] == route[k]);
            }
        }
        if passes(route, route.last(), next) {
            let i = choose|i: int|
                1 <= i < route.len() && route[i - 1] == route.last() && #[trigger] route[i] == next;
            assert(longer[i - 1] == longer[n - 1] && longer[i] == longer[n]);
            assert(revisits(longer));
        }
        if revisits(longer) {
            let (i, j) = choose|i: int, j: int|
                1 <= i < j < longer.len() && longer[i - 1] == longer[j - 1] && #[trigger] longer[i]
                    == #[trigger] longer[j];
            if j < n {
                assert(route[i - 1] == route[j - 1] && route[i] == route[j]);
                assert(revisits(route));
            } else {
                assert(route[i - 1] == route.last() && route[i] == next);
            }
        }
        if !passes(route, route.last(), next) {
            assert forall|k: int| 1 <= k < longer.len() - 1 implies #[trigger] self.step(longer, k) by {
                if k < n - 1 {
                    assert(self.step(route, k));
                    assert(longer[k - 1] == route[k - 1] && longer[k] == route[k] && longer[k + 1]
                        == route[k + 1]);
                }
            }
            assert forall|k: int| 2 <= k < longer.len() - 1 implies #[trigger] longer[k]
                != destination by {
                assert(longer[k] == route[k]);
            }
        }
    }
}

/// Whether `route` passes somewhere from `from` to `to`.
pub fn passes_through(route: &Vec<TrackGraphID>, from: TrackGraphID, to: TrackGraphID) -> (r: bool)
    ensures
        r == passes(route@, from, to),
{
    let mut i: usize = 1;
    while i < route.len()
        invariant
            1 <= i,
            forall|k: int|
                1 <= k < i && k < route@.len() ==> !(route@[k - 1] == from && #[trigger] route@[k]
                    == to),
        decreases route.len() - i,
    {
        if route[i - 1].0 == from.0 && route[i].0 == to.0 {
            return true;
        }
        i += 1;
    }
    false
}

impl TrackGraph {
    /// The nodes that a train can enter next when it stands on `at` and came
    /// from `from`.
    pub fn next_nodes(&self, from: TrackGraphID, at: TrackGraphID) -> (r: Vec<TrackGraphID>)
        requires
            self.has(at),
        ensures
            r@ == self.successors(from, at),
    {
        let mut next: Vec<TrackGraphID> = Vec::new();
        match &self.nodes[at.0].neighbours {
            NodeType::Sentinel => {},
            NodeType::Track { x, y } => {
                if from.0 == x.0 {
                    next.push(*y);
                } else if from.0 == y.0 {
                    next.push(*x);
                }
            },
            NodeType::Derailer { from: a, to: b } => {
                if from.0 == a.0 {
                    next.push(*b);
                } else if from.0 == b.0 {
                    next.push(*a);
                }
            },
            NodeType::Point { tip, normal, reverse, free_if_coupled_normal: _ } => {
                if from.0 == tip.0 {
                    next.push(*normal);
                    next.push(*reverse);
                } else if from.0 == normal.0 || from.0 == reverse.0 {
                    next.push(*tip);
                }
            },
            NodeType::Crossing { a, b, x, y } => {
                if from.0 == a.0 {
                    next.push(*b);
                } else if from.0 == b.0 {
                    next.push(*a);
                } else if from.0 == x.0 {
                    next.push(*y);
                } else if from.0 == y.0 {
                    next.push(*x);
                }
            },
            NodeType::DeadEnd { x: _ } => {},
            NodeType::Signal { from: a, to: b } => {
                if from.0 == a.0 {
                    next.push(*b);
                } else if from.0 == b.0 {
                    next.push(*a);
                }
            },
            NodeType::OverlapEnd { x, y } => {
                if from.0 == x.0 {
                    next.push(*y);
                } else if from.0 == y.0 {
                    next.push(*x);
                }
            },
            NodeType::Block { x: _ } => {},
        }
        assert(next@ =~= self.successors(from, at));
        next
    }

    /// What [`Self::branch`] makes of `route`: a copy for each node that
    /// its last node leads to, with that node behind it.
    pub open spec fn branches(&self, route: Seq<TrackGraphID>) -> Seq<Seq<TrackGraphID>> {
        let next = self.successors(route[route.len() - 2], route.last());
        Seq::new(next.len(), |k: int| route.push(next[k]))
    }

    /// The routes that go one node further than `route`.
    pub fn branch(&self, route: &Vec<TrackGraphID>) -> (r: Vec<Vec<TrackGraphID>>)
        requires
            route@.len() >= 2,
            self.has(route@.last()),
        ensures
            r@.len() == self.branches(route@).len(),
            forall|k: int| 0 <= k < r@.len() ==> (#[trigger] r@[k])@ == self.branches(route@)[k],
    {
        let n = route.len();
        let next = self.next_nodes(route[n - 2], route[n - 1]);
        let mut out: Vec<Vec<TrackGraphID>> = Vec::new();
        let mut k: usize = 0;
        while k < next.len()
            invariant
                k <= next.len(),
                next@ == self.successors(route@[route@.len() - 2], route@.last()),
                out@.len() == k,
                forall|m: int| 0 <= m < k ==> (#[trigger] out@[m])@ == route@.push(next@[m]),
            decreases next.len() - k,
        {
            let mut longer = route.clone();
            assert(longer@ =~= route@);
            longer.push(next[k]);
            out.push(longer);
            k += 1;
        }
        out
    }

    /// Where a point is entered at its tip, the routes branch in two: one
    /// goes on over the normal leg, the other over the reverse leg, and both
    /// are the route up to and with the point.
    pub proof fn lemma_point_branches(&self, route: Seq<TrackGraphID>)
        requires
            route.len() >= 2,
            self.kind(route.last()) is Point,
            route[route.len() - 2] == self.kind(route.last())->Point_tip,
        ensures
            self.branches(route).len() == 2,
            self.branches(route)[0] == route.push(self.kind(route.last())->Point_normal),
            self.branches(route)[1] == route.push(self.kind(route.last())->Point_reverse),
            self.branches(route)[0].take(route.len() as int) == route,
            self.branches(route)[1].take(route.len() as int) == route,
    {
        assert(route.push(self.kind(route.last())->Point_normal).take(route.len() as int) == route);
        assert(route.push(self.kind(route.last())->Point_reverse).take(route.len() as int) == route);
    }
}

/// Whether each route of `first` is apart from each route of `second`.
pub open spec fn cross(first: Seq<Vec<TrackGraphID>>, second: Seq<Vec<TrackGraphID>>) -> bool {
    forall|i: int, j: int|
        0 <= i < first.len() && 0 <= j < second.len() ==> apart(
            (#[trigger] first[i])@,
            (#[trigger] second[j])@,
        )
}

/// A route that is apart from another is apart from what the other grows to.
proof fn lemma_apart_grows(a: Seq<TrackGraphID>, route: Seq<TrackGraphID>, next: TrackGraphID)
    requires
        apart(a, route),
    ensures
        apart(a, route.push(next)),
{
    let longer = route.push(next);
    if a.is_prefix_of(longer) {
        if a.len() <= route.len() {
            assert(a =~= route.subrange(0, a.len() as int));
        } else {
            assert(route =~= a.subrange(0, route.len() as int));
        }
    }
    if longer.is_prefix_of(a) {
        assert(route =~= a.subrange(0, route.len() as int));
    }
}

/// A route grown by two different nodes gives two routes that are apart.
proof fn lemma_apart_siblings(route: Seq<TrackGraphID>, one: TrackGraphID, other: TrackGraphID)
    requires
        one != other,
    ensures
        apart(route.push(one), route.push(other)),
{
    let a = route.push(one);
    let b = route.push(other);
    if a.is_prefix_of(b) {
        assert(a[route.len() as int] == b.subrange(0, a.len() as int)[route.len() as int]);
    }
    if b.is_prefix_of(a) {
        assert(b[route.len() as int] == a.subrange(0, b.len() as int)[route.len() as int]);
    }
}

/// Whether the routes of `routes`, those of `list` and those of the one
/// with the other are apart.
pub open spec fn all_apart(routes: Seq<Vec<TrackGraphID>>, list: Seq<Vec<TrackGraphID>>) -> bool {
    spread(routes) && spread(list) && cross(routes, list)
}

impl TrackGraph {
    /// Whether each route from `start` to `destination` is one of `routes`,
    /// begins with one of `list`, or goes on from `route` to a node of `next`
    /// from the position `m` on.
    pub open spec fn covers(
        &self,
        routes: Seq<Vec<TrackGraphID>>,
        list: Seq<Vec<TrackGraphID>>,
        route: Seq<TrackGraphID>,
        next: Seq<TrackGraphID>,
        m: int,
        start: TrackGraphID,
        destination: TrackGraphID,
    ) -> bool {
        forall|s: Seq<TrackGraphID>| #[trigger]
            self.is_route(s, start, destination) ==> found(routes, s) || awaited(list, s)
                || goes_on(s, route, next, m)
    }

    /// Whether each route from `start` to `destination` is one of `routes`
    /// or begins with one of `list`.
    pub open spec fn complete(
        &self,
        routes: Seq<Vec<TrackGraphID>>,
        list: Seq<Vec<TrackGraphID>>,
        start: TrackGraphID,
        destination: TrackGraphID,
    ) -> bool {
        forall|s: Seq<TrackGraphID>| #[trigger]
            self.is_route(s, start, destination) ==> found(routes, s) || awaited(list, s)
    }

    proof fn lemma_complete_first(
        &self,
        list: Seq<Vec<TrackGraphID>>,
        start: TrackGraphID,
        destination: TrackGraphID,
    )
        requires
            list.len() == 1,
            list[0]@ == seq![start, self.behind(start)],
        ensures
            self.complete(Seq::empty(), list, start, destination),
    {
        assert forall|s: Seq<TrackGraphID>| #[trigger]
            self.is_route(s, start, destination) implies awaited(list, s) by {
            assert(list[0]@ =~= s.subrange(0, 2));
            assert(list[0]@.is_prefix_of(s));
        }
    }

    /// A route that ends at a dead end or a block is taken if it has reached
    /// the destination, and given up if not.
    proof fn lemma_complete_at_end(
        &self,
        had: Seq<Vec<TrackGraphID>>,
        before: Seq<Vec<TrackGraphID>>,
        routes: Seq<Vec<TrackGraphID>>,
        start: TrackGraphID,
        destination: TrackGraphID,
    )
        requires
            before.len() > 0,
            self.complete(had, before, start, destination),
            before[0]@.len() >= 2,
            self.ends_at(before[0]@.last()),
            routes == if before[0]@.last() == destination {
                had.push(before[0])
            } else {
                had
            },
        ensures
            self.complete(routes, before.subrange(1, before.len() as int), start, destination),
    {
        let rest = before.subrange(1, before.len() as int);
        let c = before[0]@;
        let len = c.len() as int;
        assert forall|s: Seq<TrackGraphID>| #[trigger]
            self.is_route(s, start, destination) implies found(routes, s) || awaited(rest, s) by {
            if found(had, s) {
                let i = choose|i: int| 0 <= i < had.len() && (#[trigger] had[i])@ == s;
                assert(routes[i]@ == s);
            } else {
                let j = choose|j: int| 0 <= j < before.len() && (#[trigger] before[j])@.is_prefix_of(s);
                if j >= 1 {
                    assert(rest[j - 1]@.is_prefix_of(s));
                } else {
                    assert(s.subrange(0, len)[len - 1] == s[len - 1]);
                    assert(s.subrange(0, len)[len - 2] == s[len - 2]);
                    if s.len() == len {
                        assert(s =~= c);
                        assert(routes[had.len() as int]@ == s);
                    } else {
                        assert(self.step(s, len - 1));
                        assert(false);
                    }
                }
            }
        }
    }

    /// Every route that begins with a route that does not end goes on to a
    /// node that the last node of that route leads to.
    proof fn lemma_complete_start(
        &self,
        had: Seq<Vec<TrackGraphID>>,
        before: Seq<Vec<TrackGraphID>>,
        start: TrackGraphID,
        destination: TrackGraphID,
    )
        requires
            before.len() > 0,
            self.complete(had, before, start, destination),
            before[0]@.len() >= 2,
            !self.ends_at(before[0]@.last()),
            before[0]@.len() >= 3 ==> before[0]@.last() != destination,
        ensures
            self.covers(
                had,
                before.subrange(1, before.len() as int),
                before[0]@,
                self.successors(before[0]@[before[0]@.len() - 2], before[0]@.last()),
                0,
                start,
                destination,
            ),
    {
        let rest = before.subrange(1, before.len() as int);
        let c = before[0]@;
        let len = c.len() as int;
        let next = self.successors(c[len - 2], c.last());
        assert forall|s: Seq<TrackGraphID>| #[trigger]
            self.is_route(s, start, destination) implies found(had, s) || awaited(rest, s)
            || goes_on(s, c, next, 0) by {
            if !found(had, s) {
                let j = choose|j: int| 0 <= j < before.len() && (#[trigger] before[j])@.is_prefix_of(s);
                if j >= 1 {
                    assert(rest[j - 1]@.is_prefix_of(s));
                } else {
                    assert(s.subrange(0, len)[len - 1] == s[len - 1]);
                    assert(s.subrange(0, len)[len - 2] == s[len - 2]);
                    if s.len() == len {
                        assert(s =~= c);
                        assert(false);
                    } else {
                        assert(self.step(s, len - 1));
                        let t = choose|t: int| 0 <= t < next.len() && next[t] == s[len];
                        assert(goes_on(s, c, next, 0));
                    }
                }
            }
        }
    }

    /// What becomes of a route that was grown by the node `m` of `next`
    /// accounts for every route that goes on to that node.
    proof fn lemma_complete_step(
        &self,
        got: Seq<Vec<TrackGraphID>>,
        queue: Seq<Vec<TrackGraphID>>,
        routes: Seq<Vec<TrackGraphID>>,
        list: Seq<Vec<TrackGraphID>>,
        c: Seq<TrackGraphID>,
        next: Seq<TrackGraphID>,
        m: int,
        longer: Vec<TrackGraphID>,
        start: TrackGraphID,
        destination: TrackGraphID,
    )
        requires
            c.len() >= 2,
            0 <= m < next.len(),
            longer@ == c.push(next[m]),
            self.covers(got, queue, c, next, m, start, destination),
            routes == if !revisits(longer@) && next[m] == destination {
                got.push(longer)
            } else {
                got
            },
            list == if !revisits(longer@) && next[m] != destination {
                queue.push(longer)
            } else {
                queue
            },
        ensures
            self.covers(routes, list, c, next, m + 1, start, destination),
    {
        let len = c.len() as int;
        let x = longer@;
        assert forall|s: Seq<TrackGraphID>| #[trigger]
            self.is_route(s, start, destination) implies found(routes, s) || awaited(list, s)
            || goes_on(s, c, next, m + 1) by {
            if found(got, s) {
                let i = choose|i: int| 0 <= i < got.len() && (#[trigger] got[i])@ == s;
                assert(routes[i]@ == s);
            } else if awaited(queue, s) {
                let j = choose|j: int| 0 <= j < queue.len() && (#[trigger] queue[j])@.is_prefix_of(s);
                assert(list[j]@.is_prefix_of(s));
            } else {
                assert(goes_on(s, c, next, m));
                let t = choose|t: int| m <= t < next.len() && #[trigger] next[t] == s[len];
                if t == m {
                    assert(x.is_prefix_of(s)) by {
                        assert(c =~= s.subrange(0, len));
                        assert(x =~= s.subrange(0, len + 1));
                    }
                    if revisits(x) {
                        lemma_revisits_prefix(x, s);
                    } else if next[m] == destination {
                        if s.len() == len + 1 {
                            assert(s =~= x);
                            assert(routes[got.len() as int]@ == s);
                        } else {
                            assert(s[len] == destination);
                            assert(false);
                        }
                    } else {
                        assert(list[queue.len() as int]@.is_prefix_of(s));
                    }
                } else {
                    assert(goes_on(s, c, next, m + 1));
                }
            }
        }
    }

    proof fn lemma_complete_done(
        &self,
        routes: Seq<Vec<TrackGraphID>>,
        list: Seq<Vec<TrackGraphID>>,
        c: Seq<TrackGraphID>,
        next: Seq<TrackGraphID>,
        start: TrackGraphID,
        destination: TrackGraphID,
    )
        requires
            self.covers(routes, list, c, next, next.len() as int, start, destination),
        ensures
            self.complete(routes, list, start, destination),
    {
        assert forall|s: Seq<TrackGraphID>| #[trigger]
            self.is_route(s, start, destination) implies found(routes, s) || awaited(list, s) by {
            assert(!goes_on(s, c, next, next.len() as int));
        }
    }
}

/// Taking the first route off the list leaves the rest apart, and apart
/// from the route.
proof fn lemma_apart_pop(had: Seq<Vec<TrackGraphID>>, before: Seq<Vec<TrackGraphID>>)
    requires
        before.len() > 0,
        all_apart(had, before),
    ensures
        all_apart(had, before.subrange(1, before.len() as int)),
        all_apart(had.push(before[0]), before.subrange(1, before.len() as int)),
        apart_or_grown(had, before[0]@, Seq::empty(), 0),
        apart_or_grown(before.subrange(1, before.len() as int), before[0]@, Seq::empty(), 0),
{
    let rest = before.subrange(1, before.len() as int);
    let more = had.push(before[0]);
    assert forall|j: int| 0 <= j < rest.len() implies #[trigger] rest[j] == before[j + 1] by {}
    assert forall|i: int, j: int| 0 <= i < j < rest.len() implies apart(
        (#[trigger] rest[i])@,
        (#[trigger] rest[j])@,
    ) by {
        assert(apart(before[i + 1]@, before[j + 1]@));
    }
    assert forall|i: int, j: int| 0 <= i < had.len() && 0 <= j < rest.len() implies apart(
        (#[trigger] had[i])@,
        (#[trigger] rest[j])@,
    ) by {
        assert(apart(had[i]@, before[j + 1]@));
    }
    assert forall|i: int| 0 <= i < had.len() implies apart((#[trigger] had[i])@, before[0]@) by {}
    assert forall|j: int| 0 <= j < rest.len() implies apart((#[trigger] rest[j])@, before[0]@) by {
        assert(apart(before[0]@, before[j + 1]@));
    }
    assert forall|i: int, j: int| 0 <= i < j < more.len() implies apart(
        (#[trigger] more[i])@,
        (#[trigger] more[j])@,
    ) by {
        if j < had.len() {
            assert(apart(had[i]@, had[j]@));
        } else {
            assert(apart(had[i]@, before[0]@));
        }
    }
    assert forall|i: int, j: int| 0 <= i < more.len() && 0 <= j < rest.len() implies apart(
        (#[trigger] more[i])@,
        (#[trigger] rest[j])@,
    ) by {
        if i < had.len() {
            assert(apart(had[i]@, rest[j]@));
        } else {
            assert(apart(before[0]@, before[j + 1]@));
        }
    }
}

/// Which routes are grown from `route` does not depend on nodes that were
/// not tried yet.
proof fn lemma_grown_none(
    list: Seq<Vec<TrackGraphID>>,
    route: Seq<TrackGraphID>,
    next: Seq<TrackGraphID>,
)
    requires
        apart_or_grown(list, route, Seq::empty(), 0),
    ensures
        apart_or_grown(list, route, next, 0),
{
    assert forall|i: int| 0 <= i < list.len() implies apart((#[trigger] list[i])@, route) || exists|
        q: int,
    |
        0 <= q < 0 && list[i]@ == route.push(#[trigger] next[q]) by {
        assert(apart(list[i]@, route) || exists|q: int|
            0 <= q < 0 && list[i]@ == route.push(#[trigger] Seq::<TrackGraphID>::empty()[q]));
    }
}

/// The route grown by the node `m` of `next` is apart from every route
/// that is apart from the route it was grown from, and from those grown by
/// the nodes before `m`.
proof fn lemma_grown_apart(
    list: Seq<Vec<TrackGraphID>>,
    c: Seq<TrackGraphID>,
    next: Seq<TrackGraphID>,
    m: int,
)
    requires
        0 <= m < next.len(),
        next.no_duplicates(),
        apart_or_grown(list, c, next, m),
    ensures
        forall|i: int| 0 <= i < list.len() ==> apart((#[trigger] list[i])@, c.push(next[m])),
        apart_or_grown(list, c, next, m + 1),
{
    assert forall|i: int| 0 <= i < list.len() implies apart((#[trigger] list[i])@, c.push(next[m])) by {
        if apart(list[i]@, c) {
            lemma_apart_grows(list[i]@, c, next[m]);
        } else {
            let q = choose|q: int| 0 <= q < m && list[i]@ == c.push(#[trigger] next[q]);
            lemma_apart_siblings(c, next[q], next[m]);
        }
    }
    assert forall|i: int| 0 <= i < list.len() implies apart((#[trigger] list[i])@, c) || exists|q: int|
        0 <= q < m + 1 && list[i]@ == c.push(#[trigger] next[q]) by {
        if !apart(list[i]@, c) {
            let q = choose|q: int| 0 <= q < m && list[i]@ == c.push(#[trigger] next[q]);
            assert(0 <= q < m + 1 && list[i]@ == c.push(next[q]));
        }
    }
}

/// A list of routes stays as it was with one more route that is apart from
/// the others, or grown from `c` by the node `m`.
proof fn lemma_grown_push(
    list: Seq<Vec<TrackGraphID>>,
    other: Seq<Vec<TrackGraphID>>,
    c: Seq<TrackGraphID>,
    next: Seq<TrackGraphID>,
    m: int,
    longer: Vec<TrackGraphID>,
)
    requires
        0 <= m < next.len(),
        longer@ == c.push(next[m]),
        spread(list),
        cross(list, other) || cross(other, list),
        apart_or_grown(list, c, next, m + 1),
        forall|i: int| 0 <= i < list.len() ==> apart((#[trigger] list[i])@, longer@),
        forall|i: int| 0 <= i < other.len() ==> apart((#[trigger] other[i])@, longer@),
    ensures
        spread(list.push(longer)),
        cross(list.push(longer), other),
        cross(other, list.push(longer)),
        apart_or_grown(list.push(longer), c, next, m + 1),
{
    let more = list.push(longer);
    assert forall|i: int, j: int| 0 <= i < j < more.len() implies apart(
        (#[trigger] more[i])@,
        (#[trigger] more[j])@,
    ) by {
        if j < list.len() {
            assert(apart(list[i]@, list[j]@));
        } else {
            assert(apart(list[i]@, longer@));
        }
    }
    assert forall|i: int, j: int| 0 <= i < more.len() && 0 <= j < other.len() implies apart(
        (#[trigger] more[i])@,
        (#[trigger] other[j])@,
    ) by {
        if i < list.len() {
            assert(apart(list[i]@, other[j]@) || apart(other[j]@, list[i]@));
        } else {
            assert(apart(other[j]@, longer@));
        }
    }
    assert forall|i: int, j: int| 0 <= i < other.len() && 0 <= j < more.len() implies apart(
        (#[trigger] other[i])@,
        (#[trigger] more[j])@,
    ) by {
        assert(apart(more[j]@, other[i]@));
    }
    assert forall|i: int| 0 <= i < more.len() implies apart((#[trigger] more[i])@, c) || exists|q: int|
        0 <= q < m + 1 && more[i]@ == c.push(#[trigger] next[q]) by {
        if i < list.len() {
            assert(more[i] == list[i]);
            if !apart(list[i]@, c) {
                let q = choose|q: int| 0 <= q < m + 1 && list[i]@ == c.push(#[trigger] next[q]);
                assert(0 <= q < m + 1 && more[i]@ == c.push(next[q]));
            }
        } else {
            assert(0 <= m < m + 1 && more[i]@ == c.push(next[m]));
        }
    }
}

impl TrackGraph {
    /// The lists of a search stay sound when the first unfinished route is
    /// taken off.
    proof fn lemma_unfinished_pop(
        &self,
        before: Seq<Vec<TrackGraphID>>,
        start: TrackGraphID,
        destination: TrackGraphID,
    )
        requires
            before.len() > 0,
            self.unfinished(before, start, destination),
        ensures
            self.unfinished(before.subrange(1, before.len() as int), start, destination),
            self.is_candidate(before[0]@, start, destination),
            in_graph(self, before[0]@),
            before[0]@.len() >= 3 ==> before[0]@.last() != destination,
    {
        let rest = before.subrange(1, before.len() as int);
        assert forall|j: int| 0 <= j < rest.len() implies {
            &&& self.is_candidate((#[trigger] rest[j])@, start, destination)
            &&& in_graph(self, rest[j]@)
            &&& rest[j]@.len() >= 3 ==> rest[j]@.last() != destination
        } by {
            assert(rest[j] == before[j + 1]);
        }
    }

    proof fn lemma_unfinished_push(
        &self,
        queue: Seq<Vec<TrackGraphID>>,
        longer: Vec<TrackGraphID>,
        start: TrackGraphID,
        destination: TrackGraphID,
    )
        requires
            self.unfinished(queue, start, destination),
            self.is_candidate(longer@, start, destination),
            in_graph(self, longer@),
            longer@.last() != destination,
        ensures
            self.unfinished(queue.push(longer), start, destination),
    {
        let list = queue.push(longer);
        assert forall|j: int| 0 <= j < list.len() implies {
            &&& self.is_candidate((#[trigger] list[j])@, start, destination)
            &&& in_graph(self, list[j]@)
            &&& list[j]@.len() >= 3 ==> list[j]@.last() != destination
        } by {
            if j < queue.len() {
                assert(list[j] == queue[j]);
            }
        }
    }

    proof fn lemma_finished_push(
        &self,
        got: Seq<Vec<TrackGraphID>>,
        route: Vec<TrackGraphID>,
        start: TrackGraphID,
        destination: TrackGraphID,
    )
        requires
            self.finished(got, start, destination),
            self.is_route(route@, start, destination),
        ensures
            self.finished(got.push(route), start, destination),
    {
        let routes = got.push(route);
        assert forall|i: int| 0 <= i < routes.len() implies self.is_route(
            (#[trigger] routes[i])@,
            start,
            destination,
        ) by {
            if i < got.len() {
                assert(routes[i] == got[i]);
            }
        }
    }

    /// Every route from the signal `start` to `destination`, each once where
    /// every point has two different legs.
    ///
    /// A route is the list of the nodes that a train passes, the signal first
    /// and the destination last. It leaves the signal in the signal's
    /// direction and then follows the connections as each node allows; at a
    /// point that it enters at the tip it may take either leg. A signal that
    /// stands against the train is passed and stays in the route. The search
    /// gives up a route that reaches a dead end or a block that is not the
    /// destination, and one that would pass a connection for the second time
    /// in the same direction. The order of the routes is not fixed.
    ///
    /// Wherever the search goes on, it has to have come to the node from one
    /// of the node's ends. That holds of every search in a graph that knows
    /// every connection at both ends: see [`Self::is_linked`] and
    /// [`Self::lemma_linked_is_passable`].
    pub fn find_routes(&self, start: TrackGraphID, destination: TrackGraphID) -> (r: Result<
        Vec<Vec<TrackGraphID>>,
        Error,
    >)
        requires
            self.wf(),
            self.passable(start, destination),
        ensures
            match r {
                Ok(routes) => {
                    &&& self.is_signal(start)
                    &&& forall|i: int|
                        0 <= i < routes@.len() ==> self.is_route(
                            (#[trigger] routes@[i])@,
                            start,
                            destination,
                        )
                    &&& forall|route: Seq<TrackGraphID>| #[trigger]
                        self.is_route(route, start, destination) ==> found(routes@, route)
                    &&& self.points_fork() ==> forall|i: int, j: int|
                        0 <= i < j < routes@.len() ==> (#[trigger] routes@[i])@ != (
                        #[trigger] routes@[j])@
                    &&& self.unreachable(start, destination) ==> routes@.len() == 0
                },
                Err(e) => !self.is_signal(start) && e == Error::InvalidStartElement,
            },
    {
        if start.0 >= self.nodes.len() {
            return Err(Error::InvalidStartElement);
        }
        let to = match &self.nodes[start.0].neighbours {
            NodeType::Signal { from: _, to } => *to,
            _ => {
                return Err(Error::InvalidStartElement);
            },
        };
        let ghost n = self.nodes@.len() as int;
        let ghost bound: int = n * n + 2;
        let ghost fork = self.points_fork();

        let mut routes: Vec<Vec<TrackGraphID>> = Vec::new();
        let mut work_list: VecDeque<Vec<TrackGraphID>> = VecDeque::new();
        let mut first: Vec<TrackGraphID> = Vec::new();
        first.push(start);
        first.push(to);
        proof {
            assert(first@ =~= seq![start, to]);
            assert(to == self.behind(start));
            assert(self.nodes@[start.0 as int].neighbours.endpoints()[1] == to);
            assert(self.node_ok(start.0 as int));
            assert(self.has(to));
            assert(!revisits(first@));
            assert(self.is_candidate(first@, start, destination));
        }
        work_list.push_back(first);
        proof {
            assert(work_list@[0] == first);
            self.lemma_complete_first(work_list@, start, destination);
            assert(routes@ =~= Seq::empty());
        }

        while work_list.len() > 0
            invariant
                self.wf(),
                self.passable(start, destination),
                self.is_signal(start),
                n == self.nodes@.len(),
                bound == n * n + 2,
                fork == self.points_fork(),
                self.unfinished(work_list@, start, destination),
                self.finished(routes@, start, destination),
                self.complete(routes@, work_list@, start, destination),
                fork ==> all_apart(routes@, work_list@),
            decreases work(work_list@, bound),
        {
            let ghost before = work_list@;
            let ghost had = routes@;
            let route = work_list.pop_front().unwrap();
            let ghost rest = work_list@;
            let ghost c = route@;
            let ghost len = c.len() as int;
            proof {
                lemma_work_pop(before, bound);
                assert(before[0] == route);
                self.lemma_unfinished_pop(before, start, destination);
                lemma_route_length(c, |id: TrackGraphID| id.0 as int, n);
                lemma_pow3_positive((bound - len - 1) as nat);
                if fork {
                    lemma_apart_pop(had, before);
                }
            }
            let last = route.len() - 1;
            let curr = route[last];
            let from = route[last - 1];
            let at_end = match &self.nodes[curr.0].neighbours {
                NodeType::DeadEnd { x: _ } => true,
                NodeType::Block { x: _ } => true,
                _ => false,
            };
            if at_end {
                if curr.0 == destination.0 {
                    proof {
                        self.lemma_finished_push(had, route, start, destination);
                    }
                    routes.push(route);
                }
                proof {
                    self.lemma_complete_at_end(had, before, routes@, start, destination);
                }
            } else {
                let grown = self.branch(&route);
                let ghost next = self.successors(from, curr);
                let ghost unit: nat = pow3((bound - len - 1) as nat);
                proof {
                    self.lemma_successors(from, curr);
                    self.lemma_complete_start(had, before, start, destination);
                    assert(0 * unit == 0) by (nonlinear_arith);
                    if fork {
                        lemma_grown_none(had, c, next);
                        lemma_grown_none(rest, c, next);
                    }
                }
                for longer in it: grown
                    invariant
                        self.wf(),
                        n == self.nodes@.len(),
                        bound == n * n + 2,
                        fork == self.points_fork(),
                        c == route@,
                        len == c.len(),
                        len >= 2,
                        len + 1 <= bound,
                        curr == c[len - 1],
                        from == c[len - 2],
                        self.is_candidate(c, start, destination),
                        in_graph(self, c),
                        len >= 3 ==> c.last() != destination,
                        next == self.successors(from, curr),
                        next.len() <= 2,
                        fork ==> next.no_duplicates(),
                        unit == pow3((bound - len - 1) as nat),
                        it.seq() == grown@,
                        grown@.len() == next.len(),
                        forall|k: int|
                            0 <= k < grown@.len() ==> (#[trigger] grown@[k])@ == c.push(next[k]),
                        self.unfinished(work_list@, start, destination),
                        self.finished(routes@, start, destination),
                        self.covers(routes@, work_list@, c, next, it.index(), start, destination),
                        work(work_list@, bound) <= work(rest, bound) + it.index() * unit,
                        fork ==> all_apart(routes@, work_list@),
                        fork ==> apart_or_grown(routes@, c, next, it.index()) && apart_or_grown(
                            work_list@,
                            c,
                            next,
                            it.index(),
                        ),
                {
                    let ghost m = it.index();
                    let ghost queue = work_list@;
                    let ghost got = routes@;
                    proof {
                        assert(grown@[m] == longer);
                        assert(next.contains(next[m]));
                        self.lemma_candidate_grows(c, next[m], start, destination);
                        assert((m + 1) * unit == m * unit + unit) by (nonlinear_arith);
                        if fork {
                            lemma_grown_apart(got, c, next, m);
                            lemma_grown_apart(queue, c, next, m);
                        }
                    }
                    let tail = longer[longer.len() - 1];
                    let twice = passes_through(&route, curr, tail);
                    let arrived = tail.0 == destination.0;
                    if twice {
                    } else if arrived {
                        proof {
                            self.lemma_finished_push(got, longer, start, destination);
                            if fork {
                                lemma_grown_push(got, queue, c, next, m, longer);
                            }
                        }
                        routes.push(longer);
                    } else {
                        proof {
                            self.lemma_unfinished_push(queue, longer, start, destination);
                            lemma_work_push(queue, longer, bound);
                            if fork {
                                lemma_grown_push(queue, got, c, next, m, longer);
                            }
                        }
                        work_list.push_back(longer);
                    }
                    proof {
                        self.lemma_complete_step(
                            got,
                            queue,
                            routes@,
                            work_list@,
                            c,
                            next,
                            m,
                            longer,
                            start,
                            destination,
                        );
                    }
                }
                proof {
                    self.lemma_complete_done(routes@, work_list@, c, next, start, destination);
                    assert(2 * unit >= next.len() * unit) by (nonlinear_arith)
                        requires
                            next.len() <= 2,
                    ;
                    assert(weight(c, bound) == 3 * unit);
                }
            }
        }
        proof {
            if routes@.len() > 0 {
                assert(self.is_route(routes@[0]@, start, destination));
            }
            assert forall|route: Seq<TrackGraphID>| #[trigger]
                self.is_route(route, start, destination) implies found(routes@, route) by {
                assert(!awaited(work_list@, route));
            }
            if fork {
                assert forall|i: int, j: int| 0 <= i < j < routes@.len() implies (#[trigger] routes@[i])@
                    != (#[trigger] routes@[j])@ by {
                    assert(apart(routes@[i]@, routes@[j]@));
                    if routes@[i]@ == routes@[j]@ {
                        assert(routes@[i]@ =~= routes@[j]@.subrange(0, routes@[i]@.len() as int));
                    }
                }
            }
        }
        Ok(routes)
    }
}

impl TrackGraph {
    /// Every route from the signal `start` to `destination`, as
    /// [`Self::find_routes`] gives them, if the graph is well formed and
    /// knows every connection at both of its ends.
    pub fn try_find_routes(&self, start: TrackGraphID, destination: TrackGraphID) -> (r: Result<
        Vec<Vec<TrackGraphID>>,
        Error,
    >)
        ensures
            match r {
                Ok(routes) => {
                    &&& self.wf()
                    &&& self.linked()
                    &&& self.is_signal(start)
                    &&& forall|i: int|
                        0 <= i < routes@.len() ==> self.is_route(
                            (#[trigger] routes@[i])@,
                            start,
                            destination,
                        )
                    &&& forall|route: Seq<TrackGraphID>| #[trigger]
                        self.is_route(route, start, destination) ==> found(routes@, route)
                    &&& self.points_fork() ==> forall|i: int, j: int|
                        0 <= i < j < routes@.len() ==> (#[trigger] routes@[i])@ != (
                        #[trigger] routes@[j])@
                },
                Err(e) => {
                    &&& !(self.wf() && self.linked() && self.is_signal(start))
                    &&& e == (if !self.wf() {
                        Error::MalformedGraph
                    } else if !self.linked() {
                        Error::NoConnectionToPreviousElement
                    } else {
                        Error::InvalidStartElement
                    })
                },
            },
    {
        if !self.is_well_formed() {
            return Err(Error::MalformedGraph);
        }
        if !self.is_linked() {
            return Err(Error::NoConnectionToPreviousElement);
        }
        proof {
            self.lemma_linked_is_passable(start, destination);
        }
        self.find_routes(start, destination)
    }

    /// Whether the graph is well formed.
    pub fn is_well_formed(&self) -> (r: bool)
        ensures
            r == self.wf(),
    {
        let n = self.nodes.len();
        let mut i: usize = 0;
        while i < n
            invariant
                i <= n,
                n == self.nodes@.len(),
                forall|j: int| 0 <= j < i ==> self.node_ok(j),
            decreases n - i,
        {
            if self.nodes[i].id.0 != i || self.nodes[i].is_sentinel() {
                assert(!self.node_ok(i as int));
                return false;
            }
            let ends = self.nodes[i].neighbours.ends();
            let mut k: usize = 0;
            while k < ends.len()
                invariant
                    k <= ends.len(),
                    i < n,
                    n == self.nodes@.len(),
                    ends@.len() == self.nodes@[i as int].neighbours.endpoints().len(),
                    forall|m: int|
                        0 <= m < ends@.len() ==> *(#[trigger] ends@[m])
                            == self.nodes@[i as int].neighbours.endpoints()[m],
                    forall|m: int|
                        0 <= m < k ==> (#[trigger] self.nodes@[i as int].neighbours.endpoints()[m]).0 < n,
                decreases ends.len() - k,
            {
                if ends[k].0 >= n {
                    assert(!(self.nodes@[i as int].neighbours.endpoints()[k as int].0 < n));
                    assert(!self.node_ok(i as int));
                    return false;
                }
                k += 1;
            }
            i += 1;
        }
        true
    }

    /// Whether `from` is one of the ends of the node `at`.
    pub fn is_end_of(&self, from: TrackGraphID, at: TrackGraphID) -> (r: bool)
        requires
            self.has(at),
        ensures
            r == self.joins(from, at),
    {
        let ends = self.nodes[at.0].neighbours.ends();
        let ghost all = self.kind(at).endpoints();
        let mut k: usize = 0;
        while k < ends.len()
            invariant
                k <= ends.len(),
                all == self.kind(at).endpoints(),
                ends@.len() == all.len(),
                forall|m: int| 0 <= m < ends@.len() ==> *(#[trigger] ends@[m]) == all[m],
                forall|m: int| 0 <= m < k ==> all[m] != from,
            decreases ends.len() - k,
        {
            if ends[k].0 == from.0 {
                assert(all[k as int] == from);
                return true;
            }
            k += 1;
        }
        false
    }

    /// Whether every connection of the graph is known at both of its ends,
    /// so that every search can pass everywhere.
    pub fn is_linked(&self) -> (r: bool)
        requires
            self.wf(),
        ensures
            r == self.linked(),
    {
        let n = self.nodes.len();
        let mut i: usize = 0;
        while i < n
            invariant
                i <= n,
                n == self.nodes@.len(),
                self.wf(),
                forall|j: int, k: int|
                    0 <= j < i && 0 <= k < self.nodes@[j].neighbours.endpoints().len()
                        ==> self.joins(
                        TrackGraphID(j as usize),
                        #[trigger] self.nodes@[j].neighbours.endpoints()[k],
                    ),
            decreases n - i,
        {
            let ends = self.nodes[i].neighbours.ends();
            let mut k: usize = 0;
            while k < ends.len()
                invariant
                    k <= ends.len(),
                    i < n,
                    n == self.nodes@.len(),
                    self.wf(),
                    ends@.len() == self.nodes@[i as int].neighbours.endpoints().len(),
                    forall|m: int|
                        0 <= m < ends@.len() ==> *(#[trigger] ends@[m])
                            == self.nodes@[i as int].neighbours.endpoints()[m],
                    forall|m: int|
                        0 <= m < k ==> self.joins(
                            TrackGraphID(i),
                            #[trigger] self.nodes@[i as int].neighbours.endpoints()[m],
                        ),
                decreases ends.len() - k,
            {
                let end = *ends[k];
                assert(end == self.nodes@[i as int].neighbours.endpoints()[k as int]);
                assert(self.node_ok(i as int));
                if !self.is_end_of(TrackGraphID(i), end) {
                    return false;
                }
                k += 1;
            }
            i += 1;
        }
        true
    }

    /// The leg that the point `point` has to lie towards so that nothing
    /// reaches the node `at` over it: the other leg, where `at` is one of its
    /// two different legs.
    pub open spec fn guard(&self, point: TrackGraphID, at: TrackGraphID) -> Option<TrackGraphID> {
        if self.has(point) {
            match self.kind(point) {
                NodeType::Point { tip: _, normal, reverse, free_if_coupled_normal: _ } => {
                    if normal == reverse {
                        None
                    } else if at == normal {
                        Some(reverse)
                    } else if at == reverse {
                        Some(normal)
                    } else {
                        None
                    }
                },
                _ => None,
            }
        } else {
            None
        }
    }

    /// Whether `path` secures `route` at the end `e` of its node `k`: the
    /// node at that end is a point that the route does not pass and that
    /// leads with a leg to the route, and `path` is that point and the leg
    /// that it has to lie towards.
    pub open spec fn secures(
        &self,
        route: Seq<TrackGraphID>,
        k: int,
        e: int,
        path: Seq<TrackGraphID>,
    ) -> bool {
        &&& 0 <= k < route.len()
        &&& self.has(route[k])
        &&& 0 <= e < self.kind(route[k]).endpoints().len()
        &&& !route.contains(self.kind(route[k]).endpoints()[e])
        &&& self.guard(self.kind(route[k]).endpoints()[e], route[k]) is Some
        &&& path == seq![
            self.kind(route[k]).endpoints()[e],
            self.guard(self.kind(route[k]).endpoints()[e], route[k])->0,
        ]
    }

    /// Whether `path` secures `route` somewhere.
    pub open spec fn flanks(&self, route: Seq<TrackGraphID>, path: Seq<TrackGraphID>) -> bool {
        exists|k: int, e: int| #[trigger] self.secures(route, k, e, path)
    }

    /// The points beside `route` that have to be secured, each with the leg
    /// that it has to lie towards.
    ///
    /// A point beside the route is one that stands at an end of a node of
    /// the route and that the route does not pass. Where it leads with one
    /// of its legs to that node, a vehicle that comes over its tip could run
    /// into the route: the point has to lie towards its other leg. A point
    /// that leads with its tip to the route cannot secure it and is left
    /// out. Nodes of `route` that the graph does not have are passed over.
    #[must_use]
    pub fn find_flank_protection_path(&self, route: Vec<TrackGraphID>) -> (r: Vec<
        Vec<TrackGraphID>,
    >)
        ensures
            forall|i: int| 0 <= i < r@.len() ==> self.flanks(route@, (#[trigger] r@[i])@),
            forall|path: Seq<TrackGraphID>| #[trigger]
                self.flanks(route@, path) ==> found(r@, path),
    {
        let mut paths: Vec<Vec<TrackGraphID>> = Vec::new();
        let n = self.nodes.len();
        let mut k: usize = 0;
        while k < route.len()
            invariant
                k <= route.len(),
                n == self.nodes@.len(),
                forall|i: int| 0 <= i < paths@.len() ==> self.flanks(route@, (#[trigger] paths@[i])@),
                forall|a: int, e: int, path: Seq<TrackGraphID>|
                    0 <= a < k && #[trigger] self.secures(route@, a, e, path) ==> found(paths@, path),
            decreases route.len() - k,
        {
            let at = route[k];
            if at.0 < n {
                let ends = self.nodes[at.0].neighbours.ends();
                let ghost all = self.kind(at).endpoints();
                let mut e: usize = 0;
                while e < ends.len()
                    invariant
                        e <= ends.len(),
                        k < route.len(),
                        at == route@[k as int],
                        self.has(at),
                        n == self.nodes@.len(),
                        all == self.kind(at).endpoints(),
                        ends@.len() == all.len(),
                        forall|m: int| 0 <= m < ends@.len() ==> *(#[trigger] ends@[m]) == all[m],
                        forall|i: int|
                            0 <= i < paths@.len() ==> self.flanks(route@, (#[trigger] paths@[i])@),
                        forall|a: int, b: int, path: Seq<TrackGraphID>|
                            0 <= a < k && #[trigger] self.secures(route@, a, b, path) ==> found(
                                paths@,
                                path,
                            ),
                        forall|b: int, path: Seq<TrackGraphID>|
                            0 <= b < e && #[trigger] self.secures(route@, k as int, b, path) ==> found(
                                paths@,
                                path,
                            ),
                    decreases ends.len() - e,
                {
                    let point = *ends[e];
                    let ghost had = paths@;
                    assert(point == all[e as int]);
                    let beside = !holds(&route, point);
                    let leg = self.guarding_leg(point, at);
                    if beside {
                        if let Some(towards) = leg {
                            let mut path: Vec<TrackGraphID> = Vec::new();
                            path.push(point);
                            path.push(towards);
                            proof {
                                assert(path@ =~= seq![point, towards]);
                                assert(self.secures(route@, k as int, e as int, path@));
                            }
                            paths.push(path);
                            proof {
                                assert(paths@[had.len() as int]@ == seq![point, towards]);
                                assert forall|i: int| 0 <= i < paths@.len() implies self.flanks(
                                    route@,
                                    (#[trigger] paths@[i])@,
                                ) by {
                                    if i < had.len() {
                                        assert(paths@[i] == had[i]);
                                    }
                                }
                            }
                        }
                    }
                    proof {
                        assert forall|a: int, b: int, path: Seq<TrackGraphID>|
                            (0 <= a < k || (a == k && 0 <= b < e + 1)) && #[trigger] self.secures(
                                route@,
                                a,
                                b,
                                path,
                            ) implies found(paths@, path) by {
                            if a == k && b == e {
                                assert(paths@[had.len() as int]@ == path);
                            } else {
                                assert(found(had, path));
                                let i = choose|i: int| 0 <= i < had.len() && (#[trigger] had[i])@ == path;
                                assert(paths@[i]@ == path);
                            }
                        }
                    }
                    e += 1;
                }
            }
            k += 1;
        }
        proof {
            assert forall|path: Seq<TrackGraphID>| #[trigger] self.flanks(route@, path) implies found(
                paths@,
                path,
            ) by {
                let (a, e) = choose|a: int, e: int| #[trigger] self.secures(route@, a, e, path);
                assert(self.secures(route@, a, e, path));
            }
        }
        paths
    }

    /// The leg that the point `point` has to lie towards so that nothing
    /// reaches the node `at` over it, if there is one.
    pub fn guarding_leg(&self, point: TrackGraphID, at: TrackGraphID) -> (r: Option<TrackGraphID>)
        ensures
            r == self.guard(point, at),
    {
        if point.0 >= self.nodes.len() {
            return None;
        }
        match &self.nodes[point.0].neighbours {
            NodeType::Point { tip: _, normal, reverse, free_if_coupled_normal: _ } => {
                if normal.0 == reverse.0 {
                    None
                } else if at.0 == normal.0 {
                    Some(*reverse)
                } else if at.0 == reverse.0 {
                    Some(*normal)
                } else {
                    None
                }
            },
            _ => None,
        }
    }
}

/// Whether `node` is one of the nodes of `route`.
pub fn holds(route: &Vec<TrackGraphID>, node: TrackGraphID) -> (r: bool)
    ensures
        r == route@.contains(node),
{
    let mut i: usize = 0;
    while i < route.len()
        invariant
            i <= route.len(),
            forall|k: int| 0 <= k < i ==> route@[k] != node,
        decreases route.len() - i,
    {
        if route[i].0 == node.0 {
            assert(route@[i as int] == node);
            return true;
        }
        i += 1;
    }
    false
}

impl TrackGraph {
    /// The end of the point with the given nodes at its ends that `node`
    /// stands at: the tip, else the normal leg, else the reverse leg.
    pub open spec fn end_of(
        tip: TrackGraphID,
        normal: TrackGraphID,
        node: TrackGraphID,
    ) -> PointPosition {
        if node == tip {
            PointPosition::Tip
        } else if node == normal {
            PointPosition::Normal
        } else {
            PointPosition::Reverse
        }
    }

    /// How `route` passes its node `k`: a point within the route with the
    /// end that it is entered and the end that it is left at; a signal that
    /// is entered from the node behind it as opposed; every other node, and
    /// every node that the graph does not have, as it is.
    pub open spec fn described(&self, route: Seq<TrackGraphID>, k: int) -> RouteElement<
        TrackGraphID,
    > {
        if !self.has(route[k]) {
            RouteElement::Element(route[k])
        } else {
            match self.kind(route[k]) {
                NodeType::Point { tip, normal, reverse: _, free_if_coupled_normal: _ } => {
                    if 0 < k < route.len() - 1 {
                        RouteElement::Point(
                            route[k],
                            Self::end_of(tip, normal, route[k - 1]),
                            Self::end_of(tip, normal, route[k + 1]),
                        )
                    } else {
                        RouteElement::Element(route[k])
                    }
                },
                NodeType::Signal { from, to } => {
                    if 0 < k && route[k - 1] == to && route[k - 1] != from {
                        RouteElement::Opposed(route[k])
                    } else {
                        RouteElement::Element(route[k])
                    }
                },
                _ => RouteElement::Element(route[k]),
            }
        }
    }

    /// The end of the point with the given nodes at its ends that `node` stands at.
    pub fn point_end(tip: TrackGraphID, normal: TrackGraphID, node: TrackGraphID) -> (r:
        PointPosition)
        ensures
            r == Self::end_of(tip, normal, node),
    {
        if node.0 == tip.0 {
            PointPosition::Tip
        } else if node.0 == normal.0 {
            PointPosition::Normal
        } else {
            PointPosition::Reverse
        }
    }

    /// `route` with the way that it passes each of its nodes: which ends
    /// of a point it takes, and which signals stand against it.
    pub fn describe(&self, route: &Vec<TrackGraphID>) -> (r: Route<TrackGraphID>)
        ensures
            r.0@.len() == route@.len(),
            forall|k: int| 0 <= k < route@.len() ==> #[trigger] r.0@[k] == self.described(route@, k),
    {
        let mut all: Vec<RouteElement<TrackGraphID>> = Vec::new();
        let n = route.len();
        let mut k: usize = 0;
        while k < n
            invariant
                k <= n,
                n == route@.len(),
                all@.len() == k,
                forall|j: int| 0 <= j < k ==> #[trigger] all@[j] == self.described(route@, j),
            decreases n - k,
        {
            let node = route[k];
            let element = if node.0 >= self.nodes.len() {
                RouteElement::Element(node)
            } else {
                match &self.nodes[node.0].neighbours {
                    NodeType::Point { tip, normal, reverse: _, free_if_coupled_normal: _ } => {
                        if 0 < k && k < n - 1 {
                            RouteElement::Point(
                                node,
                                Self::point_end(*tip, *normal, route[k - 1]),
                                Self::point_end(*tip, *normal, route[k + 1]),
                            )
                        } else {
                            RouteElement::Element(node)
                        }
                    },
                    NodeType::Signal { from, to } => {
                        if 0 < k && route[k - 1].0 == to.0 && route[k - 1].0 != from.0 {
                            RouteElement::Opposed(node)
                        } else {
                            RouteElement::Element(node)
                        }
                    },
                    _ => RouteElement::Element(node),
                }
            };
            all.push(element);
            k += 1;
        }
        Route(all)
    }
}

} // verus!
