use std::collections::HashMap;
use std::hash::Hash;
use vstd::prelude::*;
use vstd::std_specs::hash::obeys_key_model;

use crate::track_graph::nodes::Node;

pub mod extensions;
pub mod graph;
pub mod nodes;

verus! {

broadcast use vstd::std_specs::hash::group_hash_axioms;

/// Index of a node in a finished graph.
#[derive(Debug, PartialEq, Eq, Clone, Copy, Hash, Structural)]
pub struct TrackGraphID(pub usize);

impl From<usize> for TrackGraphID {
    fn from(value: usize) -> (r: TrackGraphID) {
        TrackGraphID(value)
    }
}

impl vstd::std_specs::convert::FromSpecImpl<usize> for TrackGraphID {
    open spec fn obeys_from_spec() -> bool {
        true
    }

    open spec fn from_spec(value: usize) -> TrackGraphID {
        TrackGraphID(value)
    }
}

/// From the identifiers that a caller chose to the indices of a finished graph.
pub type IdentifierMap<I> = HashMap<I, TrackGraphID>;

/// What is asked of an identifier type: hashing and `==` agree with equality in
/// contracts, and a clone equals what it was made from.
pub open spec fn identifier_model<I: Clone>() -> bool {
    &&& obeys_key_model::<I>()
    &&& faithful_clone::<I>()
}

/// A clone of a `T` equals what it was made from.
pub open spec fn faithful_clone<T: Clone>() -> bool {
    forall|a: T, b: T| #[trigger] call_ensures(T::clone, (&a,), b) ==> a == b
}

/// Integers are identifiers.
pub proof fn lemma_integers_are_identifiers()
    ensures
        identifier_model::<u64>(),
        identifier_model::<usize>(),
        identifier_model::<u32>(),
        faithful_clone::<TrackGraphID>(),
{
}

/// Whether no two nodes of `nodes` have the same identifier.
pub open spec fn unique_ids<I>(nodes: Seq<Node<I>>) -> bool {
    forall|i: int, j: int|
        0 <= i < j < nodes.len() ==> (#[trigger] nodes[i]).id != (#[trigger] nodes[j]).id
}

/// Whether `id` is the identifier of a node of `nodes`.
pub open spec fn has_id<I>(nodes: Seq<Node<I>>, id: I) -> bool {
    exists|i: int| 0 <= i < nodes.len() && (#[trigger] nodes[i]).id == id
}

/// Whether `map` sends the identifier of each node of `nodes` to the node's
/// position, and nothing else to anything.
pub open spec fn maps_to_positions<I>(nodes: Seq<Node<I>>, map: Map<I, TrackGraphID>) -> bool {
    &&& forall|i: int|
        0 <= i < nodes.len() ==> map.contains_key((#[trigger] nodes[i]).id) && map[nodes[i].id].0
            == i
    &&& forall|id: I| #[trigger] map.contains_key(id) ==> has_id(nodes, id)
}

/// A list of nodes has at most one map to its positions.
pub proof fn lemma_positions_unique<I>(
    nodes: Seq<Node<I>>,
    a: Map<I, TrackGraphID>,
    b: Map<I, TrackGraphID>,
)
    requires
        maps_to_positions(nodes, a),
        maps_to_positions(nodes, b),
    ensures
        a == b,
{
    assert forall|id: I| a.contains_key(id) == b.contains_key(id) by {
        if a.contains_key(id) {
            let i = choose|i: int| 0 <= i < nodes.len() && (#[trigger] nodes[i]).id == id;
            assert(b.contains_key(nodes[i].id));
        }
        if b.contains_key(id) {
            let i = choose|i: int| 0 <= i < nodes.len() && (#[trigger] nodes[i]).id == id;
            assert(a.contains_key(nodes[i].id));
        }
    }
    assert forall|id: I| a.contains_key(id) implies a[id] == b[id] by {
        let i = choose|i: int| 0 <= i < nodes.len() && (#[trigger] nodes[i]).id == id;
        assert(a[nodes[i].id].0 == i);
        assert(b[nodes[i].id].0 == i);
    }
    assert(a =~= b);
}

/// A list of nodes that has a map to its positions holds no identifier twice.
pub proof fn lemma_positions_need_unique_ids<I>(nodes: Seq<Node<I>>, map: Map<I, TrackGraphID>)
    requires
        maps_to_positions(nodes, map),
    ensures
        unique_ids(nodes),
{
    assert forall|i: int, j: int| 0 <= i < j < nodes.len() implies (#[trigger] nodes[i]).id != (
    #[trigger] nodes[j]).id by {
        assert(map[nodes[i].id].0 == i);
        assert(map[nodes[j].id].0 == j);
    }
}

/// Empties `map` and fills it with the position of each node of `nodes`
/// under the node's identifier.
pub fn regenerate_id_map<I: Clone + Eq + Hash>(nodes: &Vec<Node<I>>, map: &mut IdentifierMap<I>)
    requires
        identifier_model::<I>(),
        unique_ids(nodes@),
    ensures
        maps_to_positions(nodes@, final(map)@),
{
    map.clear();
    let mut i: usize = 0;
    while i < nodes.len()
        invariant
            i <= nodes.len(),
            identifier_model::<I>(),
            unique_ids(nodes@),
            maps_to_positions(nodes@.take(i as int), map@),
        decreases nodes.len() - i,
    {
        let ghost before = map@;
        let id = nodes[i].id.clone();
        assert(id == nodes@[i as int].id);
        map.insert(id, TrackGraphID(i));
        proof {
            let shorter = nodes@.take(i as int);
            let longer = nodes@.take(i + 1);
            assert(!before.contains_key(id)) by {
                if before.contains_key(id) {
                    let k = choose|k: int| 0 <= k < shorter.len() && (#[trigger] shorter[k]).id == id;
                    assert(nodes@[k].id == nodes@[i as int].id);
                }
            }
            assert forall|k: int| 0 <= k < longer.len() implies map@.contains_key(
                (#[trigger] longer[k]).id,
            ) && map@[longer[k].id].0 == k by {
                if k < i {
                    assert(shorter[k] == longer[k]);
                    assert(before.contains_key(shorter[k].id));
                }
            }
            assert forall|key: I| #[trigger] map@.contains_key(key) implies has_id(longer, key) by {
                if key == id {
                    assert(longer[i as int].id == key);
                } else {
                    assert(before.contains_key(key));
                    let k = choose|k: int| 0 <= k < shorter.len() && (#[trigger] shorter[k]).id == key;
                    assert(longer[k].id == key);
                }
            }
        }
        i += 1;
    }
    assert(nodes@.take(nodes.len() as int) == nodes@);
}

/// The value that `id_map` holds for `id`.
pub fn update_id<I: Eq + Hash, J: Clone>(id: &I, id_map: &HashMap<I, J>) -> (r: J)
    requires
        obeys_key_model::<I>(),
        faithful_clone::<J>(),
        id_map@.contains_key(*id),
    ensures
        r == id_map@[*id],
{
    id_map.get(id).unwrap().clone()
}

/// The number of an element within its unit.
#[derive(Debug, PartialEq, Eq, Clone, Copy, Structural)]
pub struct ElementID(pub usize);

/// The number of a unit: one interlocking area.
#[derive(Debug, PartialEq, Eq, Clone, Copy, Structural)]
pub struct UnitID(pub usize);

/// The number of an element among all units: the unit and the element in it.
#[derive(Debug, PartialEq, Eq, Clone, Copy, Structural)]
pub struct GlobalID(pub usize, pub usize);

/// The track layout of one unit, with blocks that name the element of the
/// neighbouring unit that they continue in.
#[derive(Debug)]
pub struct TrackGraph<EI, UI, GI> {
    pub unit_id: UI,
    pub elements: Vec<TrackElement<EI, GI>>,
}

#[derive(Debug)]
pub struct TrackElement<EI, GI> {
    pub element_id: EI,
    pub connection: ElementConnections<EI, GI>,
}

#[derive(Debug)]
pub enum ElementConnections<EI, GI> {
    Track { x: EI, y: EI },
    Derailer { from: EI, to: EI },
    Point { tip: EI, normal: EI, reverse: EI, free_if_coupled_normal: Option<bool> },
    Crossing { a: EI, b: EI, x: EI, y: EI },
    DeadEnd { x: EI },
    Signal { from: EI, to: EI },
    OverlapEnd { x: EI, y: EI },
    Block { x: EI, connected: Option<GI> },
}

} // verus!
