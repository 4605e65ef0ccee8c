use std::collections::HashMap;
use std::hash::Hash;
use vstd::prelude::*;
use vstd::std_specs::cmp::PartialEqSpec;
use vstd::std_specs::hash::obeys_key_model;

use crate::track_graph::extensions::{Extension, Extensions};
use crate::track_graph::{faithful_clone, update_id};

verus! {

broadcast use vstd::std_specs::hash::group_hash_axioms;

/// One element of a track layout: its identifier, what it is connected to,
/// and what was attached to it.
#[derive(Debug)]
pub struct Node<I> {
    pub id: I,
    pub neighbours: NodeType<I>,
    pub extension: Extensions,
}

/// The kinds of element, each with the identifiers of the elements at its ends.
#[derive(Debug)]
pub enum NodeType<I> {
    /// Stands for a node that was taken out; a finished graph has none.
    Sentinel,
    Track { x: I, y: I },
    Derailer { from: I, to: I },
    Point { tip: I, normal: I, reverse: I, free_if_coupled_normal: Option<bool> },
    Crossing { a: I, b: I, x: I, y: I },
    DeadEnd { x: I },
    Signal { from: I, to: I },
    OverlapEnd { x: I, y: I },
    Block { x: I },
}

impl<I> NodeType<I> {
    /// The identifiers at the ends of the element, in the order of its fields.
    pub open spec fn endpoints(self) -> Seq<I> {
        match self {
            NodeType::Sentinel => seq![],
            NodeType::Track { x, y } => seq![x, y],
            NodeType::Derailer { from, to } => seq![from, to],
            NodeType::Point { tip, normal, reverse, free_if_coupled_normal: _ } => seq![
                tip,
                normal,
                reverse,
            ],
            NodeType::Crossing { a, b, x, y } => seq![a, b, x, y],
            NodeType::DeadEnd { x } => seq![x],
            NodeType::Signal { from, to } => seq![from, to],
            NodeType::OverlapEnd { x, y } => seq![x, y],
            NodeType::Block { x } => seq![x],
        }
    }

    /// Whether `map` has a value for each end of the element.
    pub open spec fn resolves<J>(self, map: Map<I, J>) -> bool {
        forall|k: int|
            0 <= k < self.endpoints().len() ==> map.contains_key(#[trigger] self.endpoints()[k])
    }

    /// The same kind of element with each end replaced by what `map` holds for it.
    pub open spec fn renamed<J>(self, map: Map<I, J>) -> NodeType<J> {
        match self {
            NodeType::Sentinel => NodeType::Sentinel,
            NodeType::Track { x, y } => NodeType::Track { x: map[x], y: map[y] },
            NodeType::Derailer { from, to } => NodeType::Derailer { from: map[from], to: map[to] },
            NodeType::Point { tip, normal, reverse, free_if_coupled_normal } => NodeType::Point {
                tip: map[tip],
                normal: map[normal],
                reverse: map[reverse],
                free_if_coupled_normal,
            },
            NodeType::Crossing { a, b, x, y } => NodeType::Crossing {
                a: map[a],
                b: map[b],
                x: map[x],
                y: map[y],
            },
            NodeType::DeadEnd { x } => NodeType::DeadEnd { x: map[x] },
            NodeType::Signal { from, to } => NodeType::Signal { from: map[from], to: map[to] },
            NodeType::OverlapEnd { x, y } => NodeType::OverlapEnd { x: map[x], y: map[y] },
            NodeType::Block { x } => NodeType::Block { x: map[x] },
        }
    }
}

impl<I> NodeType<I> {
    /// The ends of the element, in the order of its fields.
    pub fn ends(&self) -> (r: Vec<&I>)
        ensures
            r@.len() == self.endpoints().len(),
            forall|k: int| 0 <= k < r@.len() ==> *(#[trigger] r@[k]) == self.endpoints()[k],
    {
        match self {
            NodeType::Sentinel => Vec::new(),
            NodeType::Track { x, y } => vec![x, y],
            NodeType::Derailer { from, to } => vec![from, to],
            NodeType::Point { tip, normal, reverse, free_if_coupled_normal: _ } => vec![
                tip,
                normal,
                reverse,
            ],
            NodeType::Crossing { a, b, x, y } => vec![a, b, x, y],
            NodeType::DeadEnd { x } => vec![x],
            NodeType::Signal { from, to } => vec![from, to],
            NodeType::OverlapEnd { x, y } => vec![x, y],
            NodeType::Block { x } => vec![x],
        }
    }
}

impl<I: Eq + Hash> NodeType<I> {
    /// Rewrites each end of the element through `id_map`.
    pub fn transform<J: Clone>(self, id_map: &HashMap<I, J>) -> (r: NodeType<J>)
        requires
            obeys_key_model::<I>(),
            faithful_clone::<J>(),
            self.resolves(id_map@),
        ensures
            r == self.renamed(id_map@),
    {
        let ghost ends = self.endpoints();
        match &self {
            NodeType::Sentinel => NodeType::Sentinel,
            NodeType::Track { x, y } => {
                assert(ends[0] == *x && ends[1] == *y);
                NodeType::Track { x: update_id(x, id_map), y: update_id(y, id_map) }
            },
            NodeType::Derailer { from, to } => {
                assert(ends[0] == *from && ends[1] == *to);
                NodeType::Derailer { from: update_id(from, id_map), to: update_id(to, id_map) }
            },
            NodeType::Point { tip, normal, reverse, free_if_coupled_normal } => {
                assert(ends[0] == *tip && ends[1] == *normal && ends[2] == *reverse);
                NodeType::Point {
                    tip: update_id(tip, id_map),
                    normal: update_id(normal, id_map),
                    reverse: update_id(reverse, id_map),
                    free_if_coupled_normal: *free_if_coupled_normal,
                }
            },
            NodeType::Crossing { a, b, x, y } => {
                assert(ends[0] == *a && ends[1] == *b && ends[2] == *x && ends[3] == *y);
                NodeType::Crossing {
                    a: update_id(a, id_map),
                    b: update_id(b, id_map),
                    x: update_id(x, id_map),
                    y: update_id(y, id_map),
                }
            },
            NodeType::DeadEnd { x } => {
                assert(ends[0] == *x);
                NodeType::DeadEnd { x: update_id(x, id_map) }
            },
            NodeType::Signal { from, to } => {
                assert(ends[0] == *from && ends[1] == *to);
                NodeType::Signal { from: update_id(from, id_map), to: update_id(to, id_map) }
            },
            NodeType::OverlapEnd { x, y } => {
                assert(ends[0] == *x && ends[1] == *y);
                NodeType::OverlapEnd { x: update_id(x, id_map), y: update_id(y, id_map) }
            },
            NodeType::Block { x } => {
                assert(ends[0] == *x);
                NodeType::Block { x: update_id(x, id_map) }
            },
        }
    }
}

impl<I> Node<I> {
    pub fn id(&self) -> (r: &I)
        ensures
            *r == self.id,
    {
        &self.id
    }

    pub fn is_sentinel(&self) -> (r: bool)
        ensures
            r == (self.neighbours is Sentinel),
    {
        match self.neighbours {
            NodeType::Sentinel => true,
            _ => false,
        }
    }

    /// What [`Node::transform`] makes of the node under `map`.
    pub open spec fn renamed<J>(self, map: Map<I, J>) -> Node<J> where I: Extension {
        Node {
            id: map[self.id],
            neighbours: self.neighbours.renamed(map),
            extension: I::store(self.extension, Some(self.id)),
        }
    }
}

impl<I: Clone + Eq + Hash + Extension> Node<I> {
    /// Rewrites the node's identifier and ends through `id_map`, and attaches
    /// the identifier it had to the result.
    pub fn transform<J: Clone>(self, id_map: &HashMap<I, J>) -> (r: Node<J>)
        requires
            obeys_key_model::<I>(),
            faithful_clone::<I>(),
            faithful_clone::<J>(),
            id_map@.contains_key(self.id),
            self.neighbours.resolves(id_map@),
        ensures
            r == self.renamed(id_map@),
    {
        let mut extension = self.extension;
        extension.insert(self.id.clone());

        let id = update_id(&self.id, id_map);

        Node { id, neighbours: self.neighbours.transform(id_map), extension }
    }
}

/// What `==` says of two values.
pub open spec fn same<I: PartialEq>(a: &I, b: &I) -> bool {
    a.eq_spec(b)
}

impl<I: PartialEq> PartialEq for NodeType<I> {
    fn eq(&self, other: &Self) -> (r: bool) {
        match (self, other) {
            (NodeType::Sentinel, NodeType::Sentinel) => true,
            (NodeType::Track { x, y }, NodeType::Track { x: other_x, y: other_y }) => *x == *other_x
                && *y == *other_y,
            (
                NodeType::Derailer { from, to },
                NodeType::Derailer { from: other_from, to: other_to },
            ) => *from == *other_from && *to == *other_to,
            (
                NodeType::Point { tip, normal, reverse, free_if_coupled_normal },
                NodeType::Point {
                    tip: other_tip,
                    normal: other_normal,
                    reverse: other_reverse,
                    free_if_coupled_normal: other_free,
                },
            ) => *tip == *other_tip && *normal == *other_normal && *reverse == *other_reverse
                && same_flag(*free_if_coupled_normal, *other_free),
            (
                NodeType::Crossing { a, b, x, y },
                NodeType::Crossing { a: other_a, b: other_b, x: other_x, y: other_y },
            ) => *a == *other_a && *b == *other_b && *x == *other_x && *y == *other_y,
            (NodeType::DeadEnd { x }, NodeType::DeadEnd { x: other_x }) => *x == *other_x,
            (NodeType::Signal { from, to }, NodeType::Signal { from: other_from, to: other_to }) => {
                *from == *other_from && *to == *other_to
            },
            (NodeType::OverlapEnd { x, y }, NodeType::OverlapEnd { x: other_x, y: other_y }) => *x
                == *other_x && *y == *other_y,
            (NodeType::Block { x }, NodeType::Block { x: other_x }) => *x == *other_x,
            _ => false,
        }
    }
}

impl<I: PartialEq> vstd::std_specs::cmp::PartialEqSpecImpl for NodeType<I> {
    open spec fn obeys_eq_spec() -> bool {
        I::obeys_eq_spec()
    }

    open spec fn eq_spec(&self, other: &Self) -> bool {
        match (self, other) {
            (NodeType::Sentinel, NodeType::Sentinel) => true,
            (NodeType::Track { x, y }, NodeType::Track { x: other_x, y: other_y }) => {
                same(x, other_x) && same(y, other_y)
            },
            (
                NodeType::Derailer { from, to },
                NodeType::Derailer { from: other_from, to: other_to },
            ) => same(from, other_from) && same(to, other_to),
            (
                NodeType::Point { tip, normal, reverse, free_if_coupled_normal },
                NodeType::Point {
                    tip: other_tip,
                    normal: other_normal,
                    reverse: other_reverse,
                    free_if_coupled_normal: other_free,
                },
            ) => same(tip, other_tip) && same(normal, other_normal) && same(reverse, other_reverse)
                && free_if_coupled_normal == other_free,
            (
                NodeType::Crossing { a, b, x, y },
                NodeType::Crossing { a: other_a, b: other_b, x: other_x, y: other_y },
            ) => same(a, other_a) && same(b, other_b) && same(x, other_x) && same(y, other_y),
            (NodeType::DeadEnd { x }, NodeType::DeadEnd { x: other_x }) => same(x, other_x),
            (NodeType::Signal { from, to }, NodeType::Signal { from: other_from, to: other_to }) => {
                same(from, other_from) && same(to, other_to)
            },
            (NodeType::OverlapEnd { x, y }, NodeType::OverlapEnd { x: other_x, y: other_y }) => {
                same(x, other_x) && same(y, other_y)
            },
            (NodeType::Block { x }, NodeType::Block { x: other_x }) => same(x, other_x),
            _ => false,
        }
    }
}

impl<I: Eq> Eq for NodeType<I> {

}

/// Whether two flags are the same.
fn same_flag(a: Option<bool>, b: Option<bool>) -> (r: bool)
    ensures
        r == (a == b),
{
    match (a, b) {
        (None, None) => true,
        (Some(x), Some(y)) => x == y,
        _ => false,
    }
}

impl<I: PartialEq> PartialEq for Node<I> {
    /// Two nodes are equal if they have the same identifier and the same
    /// ends; what is attached to them does not count.
    fn eq(&self, other: &Self) -> (r: bool) {
        self.id == other.id && self.neighbours == other.neighbours
    }
}

impl<I: PartialEq> vstd::std_specs::cmp::PartialEqSpecImpl for Node<I> {
    open spec fn obeys_eq_spec() -> bool {
        I::obeys_eq_spec()
    }

    open spec fn eq_spec(&self, other: &Self) -> bool {
        same(&self.id, &other.id) && same(&self.neighbours, &other.neighbours)
    }
}

impl<I: Eq> Eq for Node<I> {

}

} // verus!
