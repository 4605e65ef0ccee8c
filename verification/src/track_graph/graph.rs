use std::collections::HashMap;
use std::hash::Hash;
use vstd::prelude::*;

use crate::track_graph::extensions::{Extension, Extensions};
use crate::track_graph::nodes::{Node, NodeType};
use crate::track_graph::{
    has_id, identifier_model, lemma_integers_are_identifiers, lemma_positions_need_unique_ids,
    lemma_positions_unique, maps_to_positions, regenerate_id_map, unique_ids, IdentifierMap,
    TrackGraphID,
};
use crate::Error;

pub mod algorithm;

verus! {

broadcast use vstd::std_specs::hash::group_hash_axioms;

/// A finished track layout: node `i` stands at index `i`, and the ends of
/// each node are indices into the same list.
#[derive(Debug)]
pub struct TrackGraph {
    pub nodes: Vec<Node<TrackGraphID>>,
}

/// A track layout under construction, with identifiers that the caller chose.
#[derive(Debug, Default, PartialEq, Eq)]
pub struct TrackGraphBuilder<I: Eq + Hash> {
    pub nodes: Vec<Node<I>>,
    pub id_map: IdentifierMap<I>,
}

/// The test that tells the nodes that stay from the sentinels.
pub open spec fn stays<I>() -> spec_fn(Node<I>) -> bool {
    |n: Node<I>| !(n.neighbours is Sentinel)
}

/// The nodes of `nodes` that are no sentinels, in their order.
pub open spec fn without_sentinels<I>(nodes: Seq<Node<I>>) -> Seq<Node<I>> {
    nodes.filter(stays())
}

/// What one more node does to the list without sentinels.
pub proof fn lemma_without_sentinels_push<I>(nodes: Seq<Node<I>>, node: Node<I>)
    ensures
        without_sentinels(nodes.push(node)) == if node.neighbours is Sentinel {
            without_sentinels(nodes)
        } else {
            without_sentinels(nodes).push(node)
        },
{
    reveal(Seq::filter);
    assert(nodes.push(node).drop_last() == nodes);
}

/// The nodes without sentinels are nodes of the list, none is a sentinel,
/// every node of the list that is none is among them, and they keep the
/// property that no identifier occurs twice.
pub proof fn lemma_without_sentinels<I>(nodes: Seq<Node<I>>)
    ensures
        forall|p: int|
            0 <= p < without_sentinels(nodes).len() ==> !((#[trigger] without_sentinels(
                nodes,
            )[p]).neighbours is Sentinel) && nodes.contains(without_sentinels(nodes)[p]),
        forall|i: int|
            0 <= i < nodes.len() && !(nodes[i].neighbours is Sentinel) ==> without_sentinels(
                nodes,
            ).contains(#[trigger] nodes[i]),
        unique_ids(nodes) ==> unique_ids(without_sentinels(nodes)),
    decreases nodes.len(),
{
    reveal(Seq::filter);
    if nodes.len() > 0 {
        let front = nodes.drop_last();
        let last = nodes.last();
        lemma_without_sentinels(front);
        assert(front.push(last) == nodes);
        lemma_without_sentinels_push(front, last);
        let kept = without_sentinels(nodes);
        let before = without_sentinels(front);
        assert forall|p: int| 0 <= p < kept.len() implies !((#[trigger] kept[p]).neighbours is Sentinel)
            && nodes.contains(kept[p]) by {
            if p < before.len() {
                assert(kept[p] == before[p]);
                assert(front.contains(before[p]));
                let w = choose|w: int| 0 <= w < front.len() && front[w] == before[p];
                assert(nodes[w] == kept[p]);
            } else {
                assert(nodes[nodes.len() - 1] == kept[p]);
            }
        }
        assert forall|i: int|
            0 <= i < nodes.len() && !(nodes[i].neighbours is Sentinel) implies kept.contains(
            #[trigger] nodes[i],
        ) by {
            if i < front.len() {
                assert(before.contains(front[i]));
                let w = choose|w: int| 0 <= w < before.len() && before[w] == front[i];
                assert(kept[w] == nodes[i]);
            } else {
                assert(kept[kept.len() - 1] == nodes[i]);
            }
        }
        if unique_ids(nodes) {
            assert(unique_ids(front)) by {
                assert forall|i: int, j: int| 0 <= i < j < front.len() implies (#[trigger] front[i]).id
                    != (#[trigger] front[j]).id by {
                    assert(nodes[i].id != nodes[j].id);
                }
            }
            assert forall|i: int, j: int| 0 <= i < j < kept.len() implies (#[trigger] kept[i]).id != (
            #[trigger] kept[j]).id by {
                if j < before.len() {
                    assert(before[i].id != before[j].id);
                } else {
                    assert(front.contains(before[i]));
                    let w = choose|w: int| 0 <= w < front.len() && front[w] == before[i];
                    assert(nodes[w].id != nodes[nodes.len() - 1].id);
                }
            }
        }
    }
}

/// The nodes without sentinels of a list in which every end resolves are closed.
pub proof fn lemma_resolvable_closed<I>(nodes: Seq<Node<I>>)
    requires
        resolvable(nodes),
    ensures
        closed(without_sentinels(nodes)),
{
    let kept = without_sentinels(nodes);
    lemma_without_sentinels(nodes);
    assert forall|p: int, k: int|
        0 <= p < kept.len() && 0 <= k < kept[p].neighbours.endpoints().len() implies has_id(
        kept,
        #[trigger] kept[p].neighbours.endpoints()[k],
    ) by {
        let end = kept[p].neighbours.endpoints()[k];
        assert(nodes.contains(kept[p]));
        let w = choose|w: int| 0 <= w < nodes.len() && nodes[w] == kept[p];
        assert(names_kept(nodes, nodes[w].neighbours.endpoints()[k]));
        let t = choose|t: int|
            0 <= t < nodes.len() && (#[trigger] nodes[t]).id == end && !(nodes[t].neighbours is Sentinel);
        assert(kept.contains(nodes[t]));
        let q = choose|q: int| 0 <= q < kept.len() && kept[q] == nodes[t];
        assert(kept[q].id == end);
    }
}

/// Whether each end of each node of `nodes` is the identifier of a node of `nodes`.
pub open spec fn closed<I>(nodes: Seq<Node<I>>) -> bool {
    forall|i: int, k: int|
        0 <= i < nodes.len() && 0 <= k < nodes[i].neighbours.endpoints().len() ==> has_id(
            nodes,
            #[trigger] nodes[i].neighbours.endpoints()[k],
        )
}

/// Whether `id` is the identifier of a node of `nodes` that is no sentinel.
pub open spec fn names_kept<I>(nodes: Seq<Node<I>>, id: I) -> bool {
    exists|i: int|
        0 <= i < nodes.len() && (#[trigger] nodes[i]).id == id && !(nodes[i].neighbours is Sentinel)
}

/// Whether each end of each node of `nodes` that is no sentinel names a node
/// that is no sentinel.
pub open spec fn resolvable<I>(nodes: Seq<Node<I>>) -> bool {
    forall|i: int, k: int|
        0 <= i < nodes.len() && !(nodes[i].neighbours is Sentinel) && 0 <= k
            < nodes[i].neighbours.endpoints().len() ==> names_kept(
            nodes,
            #[trigger] nodes[i].neighbours.endpoints()[k],
        )
}

/// The graph that a list of nodes without sentinels becomes under `map`:
/// node for node, with identifiers and ends rewritten.
pub open spec fn compacted<I: Extension>(nodes: Seq<Node<I>>, map: Map<I, TrackGraphID>) -> Seq<
    Node<TrackGraphID>,
> {
    Seq::new(nodes.len(), |i: int| nodes[i].renamed(map))
}

/// Rewriting the ends of an element rewrites the list of its ends.
pub proof fn lemma_renamed_endpoints<I, J>(kind: NodeType<I>, map: Map<I, J>)
    ensures
        kind.renamed(map).endpoints().len() == kind.endpoints().len(),
        forall|k: int|
            0 <= k < kind.endpoints().len() ==> #[trigger] kind.renamed(map).endpoints()[k]
                == map[kind.endpoints()[k]],
        kind.renamed(map) is Sentinel <==> kind is Sentinel,
{
}

impl TrackGraph {
    /// Whether node `i` has the identifier `i`, is no sentinel and has only
    /// nodes of the graph at its ends.
    pub open spec fn node_ok(&self, i: int) -> bool {
        &&& self.nodes@[i].id.0 == i
        &&& !(self.nodes@[i].neighbours is Sentinel)
        &&& forall|k: int|
            0 <= k < self.nodes@[i].neighbours.endpoints().len() ==> (
            #[trigger] self.nodes@[i].neighbours.endpoints()[k]).0 < self.nodes@.len()
    }

    /// Node `i` has the identifier `i`, no node is a sentinel, and every end
    /// of every node is the index of a node.
    pub open spec fn wf(&self) -> bool {
        forall|i: int| 0 <= i < self.nodes@.len() ==> #[trigger] self.node_ok(i)
    }
}

/// Compacting a closed list of nodes under the map to its positions gives a
/// well-formed graph.
pub proof fn lemma_compacted_wf<I: Extension>(
    nodes: Seq<Node<I>>,
    map: Map<I, TrackGraphID>,
    graph: TrackGraph,
)
    requires
        maps_to_positions(nodes, map),
        closed(nodes),
        forall|i: int| 0 <= i < nodes.len() ==> !((#[trigger] nodes[i]).neighbours is Sentinel),
        graph.nodes@ == compacted(nodes, map),
    ensures
        graph.wf(),
{
    assert forall|i: int| 0 <= i < graph.nodes@.len() implies #[trigger] graph.node_ok(i) by {
        assert(graph.nodes@[i] == nodes[i].renamed(map));
        assert(map[nodes[i].id].0 == i);
        lemma_renamed_endpoints(nodes[i].neighbours, map);
        assert forall|k: int| 0 <= k < graph.nodes@[i].neighbours.endpoints().len() implies (
        #[trigger] graph.nodes@[i].neighbours.endpoints()[k]).0 < graph.nodes@.len() by {
            let end = nodes[i].neighbours.endpoints()[k];
            assert(has_id(nodes, end));
            let j = choose|j: int| 0 <= j < nodes.len() && (#[trigger] nodes[j]).id == end;
            assert(map[nodes[j].id].0 == j);
        }
    }
}

impl<I: Clone + Eq + Hash + Extension> TrackGraphBuilder<I> {
    /// The map of identifiers is the map from each node's identifier to its
    /// position; so no two nodes have the same identifier.
    pub open spec fn wf(&self) -> bool {
        maps_to_positions(self.nodes@, self.id_map@)
    }

    /// What adding a node with `id` and `neighbours` does: `added` says
    /// whether `id` was new; the node then stands at the end, with nothing
    /// attached, and else nothing has changed.
    pub open spec fn adds(
        before: Self,
        after: Self,
        added: bool,
        id: I,
        neighbours: NodeType<I>,
    ) -> bool {
        &&& after.wf()
        &&& added == !has_id(before.nodes@, id)
        &&& added ==> after.nodes@ == before.nodes@.push(
            Node { id, neighbours, extension: Extensions::empty() },
        )
        &&& !added ==> after.nodes@ == before.nodes@ && after.id_map@ == before.id_map@
    }

    #[must_use]
    pub fn new() -> (r: Self)
        ensures
            r.nodes@.len() == 0,
            r.wf(),
    {
        TrackGraphBuilder { nodes: Vec::new(), id_map: HashMap::new() }
    }

    /// A builder that holds `nodes`, or `None` where two of them have the
    /// same identifier.
    pub fn from_nodes(nodes: Vec<Node<I>>) -> (r: Option<Self>)
        requires
            identifier_model::<I>(),
        ensures
            r is Some <==> unique_ids(nodes@),
            r is Some ==> r->0.nodes == nodes && r->0.wf(),
    {
        let mut seen: IdentifierMap<I> = HashMap::new();
        let mut i: usize = 0;
        while i < nodes.len()
            invariant
                i <= nodes.len(),
                identifier_model::<I>(),
                maps_to_positions(nodes@.take(i as int), seen@),
            decreases nodes.len() - i,
        {
            let ghost before = seen@;
            let ghost shorter = nodes@.take(i as int);
            let ghost longer = nodes@.take(i + 1);
            let id = nodes[i].id.clone();
            assert(id == nodes@[i as int].id);
            if seen.contains_key(&id) {
                proof {
                    let k = choose|k: int| 0 <= k < shorter.len() && (#[trigger] shorter[k]).id == id;
                    assert(nodes@[k].id == nodes@[i as int].id);
                }
                return None;
            }
            seen.insert(id, TrackGraphID(i));
            proof {
                assert forall|k: int| 0 <= k < longer.len() implies seen@.contains_key(
                    (#[trigger] longer[k]).id,
                ) && seen@[longer[k].id].0 == k by {
                    if k < i {
                        assert(shorter[k] == longer[k]);
                        assert(before.contains_key(shorter[k].id));
                    }
                }
                assert forall|key: I| #[trigger] seen@.contains_key(key) implies has_id(
                    longer,
                    key,
                ) by {
                    if key == id {
                        assert(longer[i as int].id == key);
                    } else {
                        assert(before.contains_key(key));
                        let k = choose|k: int|
                            0 <= k < shorter.len() && (#[trigger] shorter[k]).id == key;
                        assert(longer[k].id == key);
                    }
                }
            }
            i += 1;
        }
        proof {
            assert(nodes@.take(nodes.len() as int) == nodes@);
            lemma_positions_need_unique_ids(nodes@, seen@);
        }
        Some(TrackGraphBuilder { nodes, id_map: seen })
    }

    fn add_node(&mut self, node: Node<I>) -> (r: bool)
        requires
            identifier_model::<I>(),
            old(self).wf(),
        ensures
            final(self).wf(),
            r == !has_id(old(self).nodes@, node.id),
            r ==> final(self).nodes@ == old(self).nodes@.push(node),
            r ==> final(self).id_map@ == old(self).id_map@.insert(
                node.id,
                TrackGraphID(old(self).nodes.len()),
            ),
            !r ==> *final(self) == *old(self),
    {
        let id = node.id.clone();
        let ghost before = *self;
        if !self.id_map.contains_key(&id) {
            self.id_map.insert(id, TrackGraphID(self.nodes.len()));
            self.nodes.push(node);
            proof {
                let n = before.nodes@.len() as int;
                assert forall|i: int| 0 <= i < self.nodes@.len() implies self.id_map@.contains_key(
                    (#[trigger] self.nodes@[i]).id,
                ) && self.id_map@[self.nodes@[i].id].0 == i by {
                    if i < n {
                        assert(before.id_map@.contains_key(before.nodes@[i].id));
                    }
                }
                assert forall|key: I| #[trigger] self.id_map@.contains_key(key) implies has_id(
                    self.nodes@,
                    key,
                ) by {
                    if key == id {
                        assert(self.nodes@[n].id == key);
                    } else {
                        assert(before.id_map@.contains_key(key));
                        let k = choose|k: int|
                            0 <= k < before.nodes@.len() && (#[trigger] before.nodes@[k]).id == key;
                        assert(self.nodes@[k].id == key);
                    }
                }
                if has_id(before.nodes@, node.id) {
                    let k = choose|k: int|
                        0 <= k < before.nodes@.len() && (#[trigger] before.nodes@[k]).id == node.id;
                    assert(before.id_map@.contains_key(before.nodes@[k].id));
                }
            }
            return true;
        }
        false
    }

    pub fn add_track(&mut self, id: I, x: I, y: I) -> (r: bool)
        requires
            identifier_model::<I>(),
            old(self).wf(),
        ensures
            Self::adds(*old(self), *final(self), r, id, NodeType::Track { x, y }),
    {
        let node = Node { id, neighbours: NodeType::Track { x, y }, extension: Extensions::new() };
        self.add_node(node)
    }

    pub fn add_derailer(&mut self, id: I, from: I, to: I) -> (r: bool)
        requires
            identifier_model::<I>(),
            old(self).wf(),
        ensures
            Self::adds(*old(self), *final(self), r, id, NodeType::Derailer { from, to }),
    {
        let node = Node {
            id,
            neighbours: NodeType::Derailer { from, to },
            extension: Extensions::new(),
        };
        self.add_node(node)
    }

    /// Adds a point that is not coupled to another.
    pub fn add_point(&mut self, id: I, tip: I, normal: I, reverse: I) -> (r: bool)
        requires
            identifier_model::<I>(),
            old(self).wf(),
        ensures
            Self::adds(
                *old(self),
                *final(self),
                r,
                id,
                NodeType::Point { tip, normal, reverse, free_if_coupled_normal: None },
            ),
    {
        self.add_coupled_point(id, tip, normal, reverse, None)
    }

    /// Adds a point and says whether it is free while the point that it is
    /// coupled to lies normal.
    pub fn add_coupled_point(
        &mut self,
        id: I,
        tip: I,
        normal: I,
        reverse: I,
        free_if_coupled_normal: Option<bool>,
    ) -> (r: bool)
        requires
            identifier_model::<I>(),
            old(self).wf(),
        ensures
            Self::adds(
                *old(self),
                *final(self),
                r,
                id,
                NodeType::Point { tip, normal, reverse, free_if_coupled_normal },
            ),
    {
        let node = Node {
            id,
            neighbours: NodeType::Point { tip, normal, reverse, free_if_coupled_normal },
            extension: Extensions::new(),
        };
        self.add_node(node)
    }

    /// What adding a slip point does: its two halves are added one after
    /// the other if both identifiers are new and differ, and else nothing
    /// has changed.
    pub open spec fn adds_pair(
        before: Self,
        after: Self,
        added: bool,
        first: (I, NodeType<I>),
        second: (I, NodeType<I>),
    ) -> bool {
        &&& after.wf()
        &&& added == (first.0 != second.0 && !has_id(before.nodes@, first.0) && !has_id(
            before.nodes@,
            second.0,
        ))
        &&& added ==> after.nodes@ == before.nodes@.push(
            Node { id: first.0, neighbours: first.1, extension: Extensions::empty() },
        ).push(Node { id: second.0, neighbours: second.1, extension: Extensions::empty() })
        &&& !added ==> after.nodes@ == before.nodes@ && after.id_map@ == before.id_map@
    }

    fn add_pair(&mut self, first: Node<I>, second: Node<I>) -> (r: bool)
        requires
            identifier_model::<I>(),
            old(self).wf(),
            first.extension == Extensions::empty(),
            second.extension == Extensions::empty(),
        ensures
            Self::adds_pair(
                *old(self),
                *final(self),
                r,
                (first.id, first.neighbours),
                (second.id, second.neighbours),
            ),
    {
        let first_id = first.id.clone();
        if self.id_map.contains_key(&second.id) {
            proof {
                let k = choose|k: int|
                    0 <= k < self.nodes@.len() && (#[trigger] self.nodes@[k]).id == second.id;
            }
            return false;
        }
        proof {
            if has_id(self.nodes@, second.id) {
                let k = choose|k: int|
                    0 <= k < self.nodes@.len() && (#[trigger] self.nodes@[k]).id == second.id;
                assert(self.id_map@.contains_key(self.nodes@[k].id));
            }
        }
        if !self.add_node(first) {
            return false;
        }
        let ghost middle = *self;
        if !self.add_node(second) {
            proof {
                let k = choose|k: int|
                    0 <= k < middle.nodes@.len() && (#[trigger] middle.nodes@[k]).id == second.id;
                if k < old(self).nodes@.len() {
                    assert(old(self).nodes@[k].id == second.id);
                }
                assert(first.id == second.id);
                assert(!old(self).id_map@.contains_key(first.id));
            }
            self.id_map.remove(&first_id);
            self.nodes.pop();
            assert(self.id_map@ =~= old(self).id_map@);
            assert(self.nodes@ =~= old(self).nodes@);
            return false;
        }
        proof {
            if first.id == second.id {
                assert(middle.nodes@[old(self).nodes@.len() as int].id == second.id);
            }
        }
        true
    }

    /// Adds a single slip point: a crossing of the through routes `a`–`b`
    /// and `x`–`y` with one more connection, between `a` and `y`.
    ///
    /// It is made of two points. The first, `id_ab`, stands towards `a` and
    /// `b`: its tip is `a`, its normal leg `b`, and its reverse leg the second
    /// point. The second, `id_xy`, stands towards `x` and `y`: its tip is `y`,
    /// its normal leg `x`, and its reverse leg the first point. A move from
    /// `a` so branches to `b` and to `y`, one from `y` to `x` and to `a`, while
    /// `b` leads to `a` only and `x` to `y` only.
    pub fn add_single_slip_point(&mut self, id_ab: I, id_xy: I, a: I, b: I, x: I, y: I) -> (r: bool)
        requires
            identifier_model::<I>(),
            old(self).wf(),
        ensures
            Self::adds_pair(
                *old(self),
                *final(self),
                r,
                (
                    id_ab,
                    NodeType::Point {
                        tip: a,
                        normal: b,
                        reverse: id_xy,
                        free_if_coupled_normal: None,
                    },
                ),
                (
                    id_xy,
                    NodeType::Point {
                        tip: y,
                        normal: x,
                        reverse: id_ab,
                        free_if_coupled_normal: None,
                    },
                ),
            ),
    {
        let to_second = id_xy.clone();
        let to_first = id_ab.clone();
        let first = Node {
            id: id_ab,
            neighbours: NodeType::Point {
                tip: a,
                normal: b,
                reverse: to_second,
                free_if_coupled_normal: None,
            },
            extension: Extensions::new(),
        };
        let second = Node {
            id: id_xy,
            neighbours: NodeType::Point {
                tip: y,
                normal: x,
                reverse: to_first,
                free_if_coupled_normal: None,
            },
            extension: Extensions::new(),
        };
        self.add_pair(first, second)
    }

    /// Adds a double slip point: a crossing of the through routes `a`–`b`
    /// and `x`–`y` with two more connections, `a`–`y` and `x`–`b`.
    ///
    /// It is made of two points that meet tip to tip. The first, `id_ax`,
    /// stands on the side of `a` and `x`: its normal leg is `a`, its reverse
    /// leg `x`. The second, `id_by`, stands on the side of `b` and `y`: its
    /// normal leg is `b`, its reverse leg `y`. A move from either end of one
    /// side so branches to both ends of the other side.
    pub fn add_double_slip_point(&mut self, id_ax: I, id_by: I, a: I, b: I, x: I, y: I) -> (r: bool)
        requires
            identifier_model::<I>(),
            old(self).wf(),
        ensures
            Self::adds_pair(
                *old(self),
                *final(self),
                r,
                (
                    id_ax,
                    NodeType::Point {
                        tip: id_by,
                        normal: a,
                        reverse: x,
                        free_if_coupled_normal: None,
                    },
                ),
                (
                    id_by,
                    NodeType::Point {
                        tip: id_ax,
                        normal: b,
                        reverse: y,
                        free_if_coupled_normal: None,
                    },
                ),
            ),
    {
        let to_second = id_by.clone();
        let to_first = id_ax.clone();
        let first = Node {
            id: id_ax,
            neighbours: NodeType::Point {
                tip: to_second,
                normal: a,
                reverse: x,
                free_if_coupled_normal: None,
            },
            extension: Extensions::new(),
        };
        let second = Node {
            id: id_by,
            neighbours: NodeType::Point {
                tip: to_first,
                normal: b,
                reverse: y,
                free_if_coupled_normal: None,
            },
            extension: Extensions::new(),
        };
        self.add_pair(first, second)
    }

    pub fn add_crossing(&mut self, id: I, a: I, b: I, x: I, y: I) -> (r: bool)
        requires
            identifier_model::<I>(),
            old(self).wf(),
        ensures
            Self::adds(*old(self), *final(self), r, id, NodeType::Crossing { a, b, x, y }),
    {
        let node = Node {
            id,
            neighbours: NodeType::Crossing { a, b, x, y },
            extension: Extensions::new(),
        };
        self.add_node(node)
    }

    pub fn add_dead_end(&mut self, id: I, x: I) -> (r: bool)
        requires
            identifier_model::<I>(),
            old(self).wf(),
        ensures
            Self::adds(*old(self), *final(self), r, id, NodeType::DeadEnd { x }),
    {
        let node = Node { id, neighbours: NodeType::DeadEnd { x }, extension: Extensions::new() };
        self.add_node(node)
    }

    /// Adds a signal that shows towards a train that comes from `from` and
    /// goes on to `to`.
    pub fn add_signal(&mut self, id: I, from: I, to: I) -> (r: bool)
        requires
            identifier_model::<I>(),
            old(self).wf(),
        ensures
            Self::adds(*old(self), *final(self), r, id, NodeType::Signal { from, to }),
    {
        let node = Node {
            id,
            neighbours: NodeType::Signal { from, to },
            extension: Extensions::new(),
        };
        self.add_node(node)
    }

    pub fn add_overlap_end(&mut self, id: I, x: I, y: I) -> (r: bool)
        requires
            identifier_model::<I>(),
            old(self).wf(),
        ensures
            Self::adds(*old(self), *final(self), r, id, NodeType::OverlapEnd { x, y }),
    {
        let node = Node {
            id,
            neighbours: NodeType::OverlapEnd { x, y },
            extension: Extensions::new(),
        };
        self.add_node(node)
    }

    pub fn add_block(&mut self, id: I, x: I) -> (r: bool)
        requires
            identifier_model::<I>(),
            old(self).wf(),
        ensures
            Self::adds(*old(self), *final(self), r, id, NodeType::Block { x }),
    {
        let node = Node { id, neighbours: NodeType::Block { x }, extension: Extensions::new() };
        self.add_node(node)
    }

    /// Turns the builder into a graph as [`Self::into_track_graph`] does, if
    /// every end of every node that stays names a node that stays.
    pub fn try_into_track_graph(self) -> (r: Result<(TrackGraph, HashMap<I, TrackGraphID>), Error>)
        requires
            identifier_model::<I>(),
            self.wf(),
        ensures
            match r {
                Ok(made) => {
                    &&& resolvable(self.nodes@)
                    &&& maps_to_positions(without_sentinels(self.nodes@), made.1@)
                    &&& made.0.nodes@ == compacted(without_sentinels(self.nodes@), made.1@)
                    &&& made.0.wf()
                },
                Err(e) => !resolvable(self.nodes@) && e == Error::MissingNeighbour,
            },
    {
        if self.is_closed() {
            Ok(self.into_track_graph())
        } else {
            Err(Error::MissingNeighbour)
        }
    }

    /// Whether every end of every node that is no sentinel names a node that
    /// is no sentinel: what [`Self::into_track_graph`] asks for.
    pub fn is_closed(&self) -> (r: bool)
        requires
            identifier_model::<I>(),
            self.wf(),
        ensures
            r == resolvable(self.nodes@),
    {
        let mut i: usize = 0;
        while i < self.nodes.len()
            invariant
                i <= self.nodes.len(),
                identifier_model::<I>(),
                self.wf(),
                forall|j: int, k: int|
                    0 <= j < i && !(self.nodes@[j].neighbours is Sentinel) && 0 <= k
                        < self.nodes@[j].neighbours.endpoints().len() ==> names_kept(
                        self.nodes@,
                        #[trigger] self.nodes@[j].neighbours.endpoints()[k],
                    ),
            decreases self.nodes.len() - i,
        {
            let ends = self.nodes[i].neighbours.ends();
            let mut k: usize = 0;
            while k < ends.len()
                invariant
                    k <= ends.len(),
                    i < self.nodes.len(),
                    identifier_model::<I>(),
                    self.wf(),
                    ends@.len() == self.nodes@[i as int].neighbours.endpoints().len(),
                    forall|m: int|
                        0 <= m < ends@.len() ==> *(#[trigger] ends@[m])
                            == self.nodes@[i as int].neighbours.endpoints()[m],
                    forall|m: int|
                        0 <= m < k ==> names_kept(
                            self.nodes@,
                            #[trigger] self.nodes@[i as int].neighbours.endpoints()[m],
                        ),
                decreases ends.len() - k,
            {
                let end: &I = ends[k];
                let found = match self.id_map.get(end) {
                    Some(at) => !self.nodes[at.0].is_sentinel(),
                    None => false,
                };
                proof {
                    let e = self.nodes@[i as int].neighbours.endpoints()[k as int];
                    assert(*end == e);
                    if self.id_map@.contains_key(e) {
                        let w = choose|w: int|
                            0 <= w < self.nodes@.len() && (#[trigger] self.nodes@[w]).id == e;
                        assert(self.id_map@[self.nodes@[w].id].0 == w);
                    }
                    if names_kept(self.nodes@, e) {
                        let w = choose|w: int|
                            0 <= w < self.nodes@.len() && (#[trigger] self.nodes@[w]).id == e && !(
                            self.nodes@[w].neighbours is Sentinel);
                        assert(self.id_map@[self.nodes@[w].id].0 == w);
                    }
                    assert(found == names_kept(self.nodes@, e));
                }
                if !found {
                    return false;
                }
                k += 1;
            }
            i += 1;
        }
        true
    }

    /// Turns the builder into a graph: drops the sentinels, numbers the
    /// nodes that stay in their order, and rewrites every identifier and
    /// every end to these numbers. Each node of the graph carries the
    /// identifier it had as an extension. The map from the identifiers to
    /// the numbers comes with the graph.
    #[must_use]
    pub fn into_track_graph(self) -> (r: (TrackGraph, HashMap<I, TrackGraphID>))
        requires
            identifier_model::<I>(),
            self.wf(),
            resolvable(self.nodes@),
        ensures
            maps_to_positions(without_sentinels(self.nodes@), r.1@),
            r.0.nodes@ == compacted(without_sentinels(self.nodes@), r.1@),
            r.0.wf(),
    {
        let ghost all = self.nodes@;
        let mut id_map: HashMap<I, TrackGraphID> = HashMap::new();
        let mut compacted_nodes: Vec<Node<I>> = Vec::new();
        proof {
            reveal(Seq::filter);
            assert(all.take(0).len() == 0);
        }
        for node in it: self.nodes
            invariant
                it.seq() == all,
                compacted_nodes@ == without_sentinels(all.take(it.index())),
        {
            proof {
                assert(all.take(it.index() + 1) == all.take(it.index()).push(node));
                lemma_without_sentinels_push(all.take(it.index()), node);
            }
            if !node.is_sentinel() {
                compacted_nodes.push(node);
            }
        }
        let ghost kept = compacted_nodes@;
        proof {
            assert(all.take(all.len() as int) == all);
            lemma_positions_need_unique_ids(all, self.id_map@);
            lemma_without_sentinels(all);
            lemma_resolvable_closed(all);
            lemma_integers_are_identifiers();
        }
        regenerate_id_map(&compacted_nodes, &mut id_map);

        let mut nodes: Vec<Node<TrackGraphID>> = Vec::new();
        for node in it: compacted_nodes
            invariant
                it.seq() == kept,
                identifier_model::<I>(),
                crate::track_graph::faithful_clone::<TrackGraphID>(),
                maps_to_positions(kept, id_map@),
                closed(kept),
                nodes@ == compacted(kept.take(it.index()), id_map@),
        {
            proof {
                let at = it.index();
                assert(kept[at] == node);
                assert(id_map@.contains_key(kept[at].id));
                assert forall|k: int| 0 <= k < node.neighbours.endpoints().len() implies id_map@.contains_key(
                    #[trigger] node.neighbours.endpoints()[k],
                ) by {
                    let end = kept[at].neighbours.endpoints()[k];
                    assert(has_id(kept, end));
                    let w = choose|w: int| 0 <= w < kept.len() && (#[trigger] kept[w]).id == end;
                    assert(id_map@.contains_key(kept[w].id));
                }
            }
            nodes.push(node.transform(&id_map));
            proof {
                assert(nodes@ =~= compacted(kept.take(it.index() + 1), id_map@));
            }
        }
        let graph = TrackGraph { nodes };
        proof {
            assert(kept.take(kept.len() as int) == kept);
            lemma_compacted_wf(kept, id_map@, graph);
        }
        (graph, id_map)
    }
}

/// Adding a node under an identifier that was offered before, whatever
/// became of the first offer, is refused: the second call gives `false` and
/// leaves the list of nodes as it was.
pub proof fn lemma_second_insert_is_refused<I: Clone + Eq + Hash + Extension>(
    start: TrackGraphBuilder<I>,
    middle: TrackGraphBuilder<I>,
    end: TrackGraphBuilder<I>,
    id: I,
    first: (NodeType<I>, bool),
    second: (NodeType<I>, bool),
)
    requires
        TrackGraphBuilder::adds(start, middle, first.1, id, first.0),
        TrackGraphBuilder::adds(middle, end, second.1, id, second.0),
    ensures
        !second.1,
        end.nodes@ == middle.nodes@,
        end.nodes@.len() == middle.nodes@.len(),
{
    if first.1 {
        assert(middle.nodes@[start.nodes@.len() as int].id == id);
    } else {
        let k = choose|k: int| 0 <= k < start.nodes@.len() && (#[trigger] start.nodes@[k]).id == id;
        assert(middle.nodes@[k].id == id);
    }
    assert(has_id(middle.nodes@, id));
}

/// The list of nodes of a builder is all there is to it: a builder can be
/// made anew from the nodes of a well-formed one, and whatever builder holds
/// the same nodes in the same order has the same map of identifiers.
pub proof fn lemma_nodes_make_the_builder<I: Clone + Eq + Hash + Extension>(
    builder: TrackGraphBuilder<I>,
    rebuilt: TrackGraphBuilder<I>,
)
    requires
        builder.wf(),
        rebuilt.wf(),
        rebuilt.nodes@ == builder.nodes@,
    ensures
        unique_ids(builder.nodes@),
        rebuilt.id_map@ == builder.id_map@,
{
    lemma_positions_need_unique_ids(builder.nodes@, builder.id_map@);
    lemma_positions_unique(builder.nodes@, builder.id_map@, rebuilt.id_map@);
}

/// Compacting is a function of the list of nodes: two runs on one list give
/// the same map and the same graph. Where the list has no sentinels, the
/// node at position `i` gets the number `i`.
pub proof fn lemma_compaction_is_deterministic<I: Extension>(
    nodes: Seq<Node<I>>,
    first: (Seq<Node<TrackGraphID>>, Map<I, TrackGraphID>),
    second: (Seq<Node<TrackGraphID>>, Map<I, TrackGraphID>),
)
    requires
        maps_to_positions(without_sentinels(nodes), first.1),
        first.0 == compacted(without_sentinels(nodes), first.1),
        maps_to_positions(without_sentinels(nodes), second.1),
        second.0 == compacted(without_sentinels(nodes), second.1),
    ensures
        first == second,
        (forall|i: int| 0 <= i < nodes.len() ==> !((#[trigger] nodes[i]).neighbours is Sentinel)) ==> {
            &&& first.0.len() == nodes.len()
            &&& forall|i: int|
                0 <= i < nodes.len() ==> (#[trigger] first.0[i]).id == TrackGraphID(i as usize)
                    && first.1[nodes[i].id] == TrackGraphID(i as usize)
        },
{
    lemma_positions_unique(without_sentinels(nodes), first.1, second.1);
    if forall|i: int| 0 <= i < nodes.len() ==> !((#[trigger] nodes[i]).neighbours is Sentinel) {
        lemma_sentinel_free(nodes);
        assert forall|i: int| 0 <= i < nodes.len() implies (#[trigger] first.0[i]).id == TrackGraphID(
            i as usize,
        ) && first.1[nodes[i].id] == TrackGraphID(i as usize) by {
            assert(first.1[nodes[i].id].0 == i);
        }
    }
}

/// Dropping the sentinels of a list that has none changes nothing.
pub proof fn lemma_sentinel_free<I>(nodes: Seq<Node<I>>)
    requires
        forall|i: int| 0 <= i < nodes.len() ==> !((#[trigger] nodes[i]).neighbours is Sentinel),
    ensures
        without_sentinels(nodes) == nodes,
    decreases nodes.len(),
{
    reveal(Seq::filter);
    if nodes.len() > 0 {
        let front = nodes.drop_last();
        assert forall|i: int| 0 <= i < front.len() implies !((#[trigger] front[i]).neighbours is Sentinel) by {
            assert(front[i] == nodes[i]);
        }
        lemma_sentinel_free(front);
        assert(!(nodes[nodes.len() - 1].neighbours is Sentinel));
        assert(front.push(nodes.last()) == nodes);
    }
}

} // verus!
