use petgraph::graph::{Graph, NodeIndex, UnGraph};
use petgraph::Undirected;
use vstd::prelude::*;
use vstd::string::StringExecFns;

verus! {

/// The graph of `petgraph`, which is taken as it is: what it holds is known
/// by [`graph_nodes`] and [`graph_edges`] only.
#[verifier::external_type_specification]
#[verifier::external_body]
#[verifier::reject_recursive_types(N)]
#[verifier::reject_recursive_types(E)]
#[verifier::reject_recursive_types(Ty)]
#[verifier::reject_recursive_types(Ix)]
pub struct ExGraph<N, E, Ty, Ix>(Graph<N, E, Ty, Ix>);

/// The mark of `petgraph` for a graph whose edges have no direction.
#[verifier::external_type_specification]
#[verifier::external_body]
pub struct ExUndirected(Undirected);

#[derive(Debug, PartialEq, Eq)]
pub enum PointPosition {
    Normal,
    Reverse,
}

#[derive(Debug, PartialEq, Eq)]
pub enum SignalAspects {
    Proceed,
    Kennlicht,
    Sh1,
    Zs1,
    Zs6,
    Zs7,
    Zs8,
}

/// The tracks, points and crossings of one place, with what stands beside them.
#[derive(Debug)]
pub struct Model {
    pub location: Location,
    pub elements: Vec<Element>,
    pub addons: Vec<AddOns>,
    /// The graph that [`Model::validate_graph`] fills: a node for each
    /// element, and an edge for each connection.
    pub graph: UnGraph<String, &'static str>,
}

#[derive(Debug, PartialEq, Eq)]
pub struct Location {
    pub name: String,
    pub abbreviation: String,
    pub neighbours: Vec<String>,
}

#[derive(Debug, PartialEq, Eq)]
pub enum Element {
    Point(Point),
    Crossing(Crossing),
    Track(Track),
}

#[derive(Debug, PartialEq, Eq)]
pub enum AddOns {
    OverlapEnd(OverlapEnd),
    RouteDestination(RouteDestination),
    Signal(Signal),
}

#[derive(Debug, PartialEq, Eq)]
pub struct Point {
    pub name: String,
    pub tip: String,
    pub normal: String,
    pub reverse: Option<String>,
    pub coupled: Option<String>,
    pub unrestricted: Option<PointPosition>,
    pub default: Option<PointPosition>,
}

#[derive(Debug, PartialEq, Eq)]
pub struct Crossing {
    pub name: String,
    pub path_a: String,
    pub path_b: String,
    pub path_c: String,
    pub path_d: String,
}

#[derive(Debug, PartialEq, Eq)]
pub struct Track {
    pub name: String,
    pub path: Option<String>,
}

#[derive(Debug, PartialEq, Eq)]
pub struct OverlapEnd {
    pub name: String,
    pub path_a: String,
    pub path_b: String,
}

#[derive(Debug, PartialEq, Eq)]
pub struct RouteDestination {
    pub name: String,
    pub path_from: String,
    pub path_to: Option<String>,
    pub opposite_track: Option<bool>,
    pub train: bool,
    pub shunting: bool,
}

#[derive(Debug, PartialEq, Eq)]
pub struct Signal {
    pub name: String,
    pub path_from: String,
    pub path_to: Option<String>,
    pub overlaps: Vec<String>,
    pub coupled: Vec<String>,
    pub opposite_track: Option<bool>,
    pub aspects: Vec<SignalAspects>,
}

/// The names that the nodes of `graph` carry, in the order of their numbers.
pub uninterp spec fn graph_nodes(graph: UnGraph<String, &'static str>) -> Seq<Seq<char>>;

/// The edges of `graph` in the order of their numbers, each as the numbers
/// of the two nodes that it joins.
pub uninterp spec fn graph_edges(graph: UnGraph<String, &'static str>) -> Seq<(usize, usize)>;

/// The number of connected components of the graph with the nodes
/// `0..nodes` and an edge between the two nodes of each pair of `edges`, as
/// `petgraph::algo::connected_components` counts them.
pub uninterp spec fn component_count(nodes: nat, edges: Seq<(usize, usize)>) -> nat;

/// Whether one of `edges` joins `a` and `b`, in either direction.
pub open spec fn joined(edges: Seq<(usize, usize)>, a: usize, b: usize) -> bool {
    exists|k: int| 0 <= k < edges.len() && (#[trigger] edges[k] == (a, b) || edges[k] == (b, a))
}

/// `edges` with an edge between `a` and `b`, which is added if there is none.
pub open spec fn with_edge(edges: Seq<(usize, usize)>, a: usize, b: usize) -> Seq<(usize, usize)> {
    if joined(edges, a, b) {
        edges
    } else {
        edges.push((a, b))
    }
}

/// The most nodes, and the most edges, that a graph can hold: its nodes and
/// edges are numbered with 32 bits, and the last number stands for none.
pub const GRAPH_LIMIT: usize = 0xffff_ffff;

/// Calls `Graph::add_node`, which gives the graph a new node that carries
/// `name` and returns its number, the number of nodes before. It panics
/// where the graph holds as many nodes as its numbers allow.
#[verifier::external_body]
fn add_node(graph: &mut UnGraph<String, &'static str>, name: String) -> (r: usize)
    requires
        graph_nodes(*old(graph)).len() < GRAPH_LIMIT,
    ensures
        graph_nodes(*final(graph)) == graph_nodes(*old(graph)).push(name@),
        graph_edges(*final(graph)) == graph_edges(*old(graph)),
        r == graph_nodes(*old(graph)).len(),
{
    graph.add_node(name).index()
}

/// Calls `Graph::update_edge`, which adds an edge between the nodes `a`
/// and `b` unless one joins them already, in either direction; the nodes
/// stay as they are. It panics on a node that the graph does not have, and
/// where the graph holds as many edges as its numbers allow.
#[verifier::external_body]
fn update_edge(graph: &mut UnGraph<String, &'static str>, a: usize, b: usize)
    requires
        a < graph_nodes(*old(graph)).len(),
        b < graph_nodes(*old(graph)).len(),
        graph_edges(*old(graph)).len() < GRAPH_LIMIT,
    ensures
        graph_nodes(*final(graph)) == graph_nodes(*old(graph)),
        graph_edges(*final(graph)) == with_edge(graph_edges(*old(graph)), a, b),
{
    graph.update_edge(NodeIndex::new(a), NodeIndex::new(b), "");
}

/// Calls `petgraph::algo::connected_components`. Nothing is claimed of the
/// count but that it is the same for the same number of nodes and the same
/// edges.
#[verifier::external_body]
fn connected_components(graph: &UnGraph<String, &'static str>) -> (r: usize)
    ensures
        r == component_count(graph_nodes(*graph).len(), graph_edges(*graph)),
{
    petgraph::algo::connected_components(graph)
}

/// Calls `Graph::node_count`, the number of nodes of the graph.
#[verifier::external_body]
fn node_count(graph: &UnGraph<String, &'static str>) -> (r: usize)
    ensures
        r == graph_nodes(*graph).len(),
{
    graph.node_count()
}

/// Calls `Graph::edge_count`, the number of edges of the graph.
#[verifier::external_body]
fn edge_count(graph: &UnGraph<String, &'static str>) -> (r: usize)
    ensures
        r == graph_edges(*graph).len(),
{
    graph.edge_count()
}

/// Whether a graph with `components` connected components hangs together.
pub fn is_connected(components: usize) -> (r: bool)
    ensures
        r == (components == 1),
{
    components == 1
}

/// Whether two texts are the same.
pub fn same_text(a: &str, b: &str) -> (r: bool)
    ensures
        r == (a@ == b@),
{
    String::from_str(a) == String::from_str(b)
}

impl Element {
    /// The name of the element.
    pub open spec fn name_of(self) -> Seq<char> {
        match self {
            Element::Point(point) => point.name@,
            Element::Crossing(crossing) => crossing.name@,
            Element::Track(track) => track.name@,
        }
    }

    /// The names of the elements that the element is connected to: of a
    /// point its tip, its normal leg and, if it has one, its reverse leg; of
    /// a crossing its four paths; of a track the track that it goes on in,
    /// if there is one.
    pub open spec fn edges_of(self) -> Seq<Seq<char>> {
        match self {
            Element::Point(point) => {
                let first = seq![point.tip@, point.normal@];
                match point.reverse {
                    Some(reverse) => first.push(reverse@),
                    None => first,
                }
            },
            Element::Crossing(crossing) => seq![
                crossing.path_a@,
                crossing.path_b@,
                crossing.path_c@,
                crossing.path_d@,
            ],
            Element::Track(track) => match track.path {
                Some(path) => seq![path@],
                None => seq![],
            },
        }
    }

    pub fn name(&self) -> (r: &str)
        ensures
            r@ == self.name_of(),
    {
        match self {
            Element::Point(point) => point.name.as_str(),
            Element::Crossing(crossing) => crossing.name.as_str(),
            Element::Track(track) => track.name.as_str(),
        }
    }

    pub fn edges(&self) -> (r: Vec<&str>)
        ensures
            r@.len() == self.edges_of().len(),
            forall|k: int| 0 <= k < r@.len() ==> (#[trigger] r@[k])@ == self.edges_of()[k],
    {
        let mut result: Vec<&str> = Vec::new();
        match self {
            Element::Point(point) => {
                result.push(point.tip.as_str());
                result.push(point.normal.as_str());
                if let Some(reverse) = &point.reverse {
                    result.push(reverse.as_str());
                }
            },
            Element::Crossing(crossing) => {
                result.push(crossing.path_a.as_str());
                result.push(crossing.path_b.as_str());
                result.push(crossing.path_c.as_str());
                result.push(crossing.path_d.as_str());
            },
            Element::Track(track) => {
                if let Some(path) = &track.path {
                    result.push(path.as_str());
                }
            },
        }
        result
    }
}

/// Whether an element of `elements` has the name `name`.
pub open spec fn named(elements: Seq<Element>, name: Seq<char>) -> bool {
    exists|i: int| 0 <= i < elements.len() && (#[trigger] elements[i]).name_of() == name
}

/// The place of the element of `elements` that has the name `name`.
pub open spec fn place_of(elements: Seq<Element>, name: Seq<char>) -> int {
    choose|i: int| 0 <= i < elements.len() && (#[trigger] elements[i]).name_of() == name
}

/// Whether no two elements of `elements` have the same name.
pub open spec fn unique_names(elements: Seq<Element>) -> bool {
    forall|i: int, j: int|
        0 <= i < j < elements.len() ==> (#[trigger] elements[i]).name_of() != (
        #[trigger] elements[j]).name_of()
}

/// Whether every element of `elements` is connected to elements of
/// `elements` only.
pub open spec fn resolved(elements: Seq<Element>) -> bool {
    forall|i: int, k: int|
        0 <= i < elements.len() && 0 <= k < elements[i].edges_of().len() ==> named(
            elements,
            #[trigger] elements[i].edges_of()[k],
        )
}

/// Whether the element at the place `i` has a name that none before it has.
pub open spec fn fresh(elements: Seq<Element>, i: int) -> bool {
    forall|j: int| 0 <= j < i ==> (#[trigger] elements[j]).name_of() != elements[i].name_of()
}

/// The number of elements from the place `i` on before the first whose
/// name one before it has, added to `i`: the place of that element, or the
/// number of elements if there is none.
pub open spec fn first_repeat(elements: Seq<Element>, i: int) -> int
    decreases elements.len() - i,
{
    if i < 0 || i >= elements.len() {
        elements.len() as int
    } else if !fresh(elements, i) {
        i
    } else {
        first_repeat(elements, i + 1)
    }
}

/// The names of the first `count` elements.
pub open spec fn names(elements: Seq<Element>, count: int) -> Seq<Seq<char>> {
    Seq::new(count as nat, |i: int| elements[i].name_of())
}

/// The connections that the elements ask for, element after element: each
/// is the place of the element and the name of the element that it is to be
/// connected to.
pub open spec fn wishes(elements: Seq<Element>, n: int) -> Seq<(int, Seq<char>)>
    decreases n,
{
    if n <= 0 {
        Seq::empty()
    } else {
        wishes(elements, n - 1) + Seq::new(
            elements[n - 1].edges_of().len(),
            |k: int| (n - 1, elements[n - 1].edges_of()[k]),
        )
    }
}

/// The number of connections at the beginning of `asked` that name an
/// element of `elements`.
pub open spec fn granted(elements: Seq<Element>, asked: Seq<(int, Seq<char>)>, from: int) -> int
    decreases asked.len() - from,
{
    if from < 0 || from >= asked.len() {
        asked.len() as int
    } else if !named(elements, asked[from].1) {
        from
    } else {
        granted(elements, asked, from + 1)
    }
}

/// `edges` with an edge for each of the first `count` connections of
/// `asked`, between the nodes that stand for the two elements: the node of
/// the element at the place `i` has the number `base + i`.
pub open spec fn wired(
    edges: Seq<(usize, usize)>,
    elements: Seq<Element>,
    asked: Seq<(int, Seq<char>)>,
    base: int,
    count: int,
) -> Seq<(usize, usize)>
    decreases count,
{
    if count <= 0 {
        edges
    } else {
        with_edge(
            wired(edges, elements, asked, base, count - 1),
            (base + asked[count - 1].0) as usize,
            (base + place_of(elements, asked[count - 1].1)) as usize,
        )
    }
}

/// The place of the first element of `elements` with the name `name`, if there is one.
pub fn find_element(elements: &Vec<Element>, name: &str) -> (r: Option<usize>)
    ensures
        match r {
            Some(i) => i < elements@.len() && elements@[i as int].name_of() == name@ && forall|
                j: int,
            |
                0 <= j < i ==> (#[trigger] elements@[j]).name_of() != name@,
            None => !named(elements@, name@),
        },
{
    let mut i: usize = 0;
    while i < elements.len()
        invariant
            i <= elements.len(),
            forall|j: int| 0 <= j < i ==> (#[trigger] elements@[j]).name_of() != name@,
        decreases elements.len() - i,
    {
        if same_text(elements[i].name(), name) {
            return Some(i);
        }
        i += 1;
    }
    None
}

impl Model {
    /// Whether the graph has room for a node for each element and an edge
    /// for each connection: what [`Self::validate_graph`] asks for.
    pub open spec fn roomy(&self) -> bool {
        &&& graph_nodes(self.graph).len() + self.elements@.len() <= GRAPH_LIMIT
        &&& graph_edges(self.graph).len() + wishes(
            self.elements@,
            self.elements@.len() as int,
        ).len() <= GRAPH_LIMIT
    }

    /// Whether the graph has room for a node for each element and an edge
    /// for each connection.
    pub fn has_room(&self) -> (r: bool)
        ensures
            r == self.roomy(),
    {
        let n = self.elements.len();
        if n > GRAPH_LIMIT {
            return false;
        }
        let mut asked: u64 = 0;
        let mut i: usize = 0;
        while i < n
            invariant
                i <= n,
                n == self.elements@.len(),
                asked == wishes(self.elements@, i as int).len(),
                asked <= 4 * i,
                n <= GRAPH_LIMIT,
            decreases n - i,
        {
            proof {
                lemma_wishes(self.elements@, i + 1);
                lemma_wishes_step(self.elements@, n as int, i as int);
            }
            asked += self.elements[i].edges().len() as u64;
            i += 1;
        }
        let nodes = node_count(&self.graph);
        let edges = edge_count(&self.graph);
        nodes <= GRAPH_LIMIT && n <= GRAPH_LIMIT - nodes && edges <= GRAPH_LIMIT && asked <= (
        GRAPH_LIMIT - edges) as u64
    }

    /// [`Self::validate_graph`], where the graph has room for it; `None`,
    /// and nothing changed, where it has not.
    pub fn try_validate_graph(&mut self) -> (r: Option<bool>)
        ensures
            r is Some == old(self).roomy(),
            !old(self).roomy() ==> *final(self) == *old(self),
            old(self).roomy() ==> old(self).validated(*final(self), r->0),
    {
        if self.has_room() {
            Some(self.validate_graph())
        } else {
            None
        }
    }

    /// What [`Self::validate_graph`] makes of the model, and what it gives.
    ///
    /// The graph gets a node for each element up to the first whose name
    /// another has before it. If there is no such element, it gets an
    /// edge for each connection up to the first that names no element. If
    /// there is no such connection either, the answer says whether the graph
    /// hangs together; else it is `false`.
    pub open spec fn validated(&self, after: Self, answer: bool) -> bool {
        let all = self.elements@;
        let n = all.len() as int;
        let base = graph_nodes(self.graph).len() as int;
        let asked = wishes(all, n);
        let added = first_repeat(all, 0);
        let drawn = if added == n {
            granted(all, asked, 0)
        } else {
            0
        };
        &&& after.location == self.location
        &&& after.elements == self.elements
        &&& after.addons == self.addons
        &&& graph_nodes(after.graph) == graph_nodes(self.graph) + names(all, added)
        &&& graph_edges(after.graph) == wired(graph_edges(self.graph), all, asked, base, drawn)
        &&& answer == (added == n && drawn == asked.len() && component_count(
            graph_nodes(after.graph).len(),
            graph_edges(after.graph),
        ) == 1)
    }

    /// Whether the elements are a sound track layout: no two have the same
    /// name, each is connected to elements of the model only, and all hang
    /// together. The graph is filled on the way: see [`Self::validated`].
    pub fn validate_graph(&mut self) -> (r: bool)
        requires
            old(self).roomy(),
        ensures
            old(self).validated(*final(self), r),
    {
        let ghost all = self.elements@;
        let ghost nodes_before = graph_nodes(self.graph);
        let ghost edges_before = graph_edges(self.graph);
        let ghost asked = wishes(all, all.len() as int);
        let n = self.elements.len();
        let base = node_count(&self.graph);
        assert(graph_nodes(self.graph) =~= nodes_before + names(all, 0));

        let mut i: usize = 0;
        while i < n
            invariant
                i <= n,
                n == all.len(),
                self.location == old(self).location,
                self.elements == old(self).elements,
                self.addons == old(self).addons,
                all == self.elements@,
                nodes_before == graph_nodes(old(self).graph),
                edges_before == graph_edges(old(self).graph),
                asked == wishes(all, n as int),
                base == nodes_before.len(),
                nodes_before.len() + n <= GRAPH_LIMIT,
                forall|a: int| 0 <= a < i ==> fresh(all, a),
                first_repeat(all, 0) == first_repeat(all, i as int),
                graph_nodes(self.graph) == nodes_before + names(all, i as int),
                graph_edges(self.graph) == edges_before,
            decreases n - i,
        {
            match find_element(&self.elements, self.elements[i].name()) {
                Some(first) => {
                    if first < i {
                        assert(!fresh(all, i as int));
                        assert(first_repeat(all, i as int) == i);
                        assert(wired(edges_before, all, asked, base as int, 0) == edges_before);
                        return false;
                    }
                },
                None => {},
            }
            assert(fresh(all, i as int));
            let ghost had = graph_nodes(self.graph);
            add_node(&mut self.graph, String::from_str(self.elements[i].name()));
            assert(graph_nodes(self.graph) =~= nodes_before + names(all, i + 1));
            i += 1;
        }
        assert(first_repeat(all, 0) == n);
        proof {
            lemma_wishes(all, n as int);
        }

        let mut done: usize = 0;
        let mut i: usize = 0;
        while i < n
            invariant
                i <= n,
                n == all.len(),
                base == nodes_before.len(),
                self.location == old(self).location,
                self.elements == old(self).elements,
                self.addons == old(self).addons,
                all == self.elements@,
                nodes_before == graph_nodes(old(self).graph),
                edges_before == graph_edges(old(self).graph),
                asked == wishes(all, n as int),
                forall|a: int| 0 <= a < n ==> fresh(all, a),
                first_repeat(all, 0) == n,
                edges_before.len() + asked.len() <= GRAPH_LIMIT,
                nodes_before.len() + n <= GRAPH_LIMIT,
                graph_nodes(self.graph) == nodes_before + names(all, n as int),
                done == wishes(all, i as int).len(),
                done <= asked.len(),
                wishes(all, i as int) == asked.take(done as int),
                granted(all, asked, 0) == granted(all, asked, done as int),
                graph_edges(self.graph) == wired(edges_before, all, asked, base as int, done as int),
                graph_edges(self.graph).len() <= edges_before.len() + done,
            decreases n - i,
        {
            let targets = self.elements[i].edges();
            let ghost start = done;
            proof {
                lemma_wishes_step(all, n as int, i as int);
            }
            let mut k: usize = 0;
            while k < targets.len()
                invariant
                    k <= targets.len(),
                    i < n,
                    n == all.len(),
                    base == nodes_before.len(),
                    self.location == old(self).location,
                    self.elements == old(self).elements,
                    self.addons == old(self).addons,
                    all == self.elements@,
                    nodes_before == graph_nodes(old(self).graph),
                    edges_before == graph_edges(old(self).graph),
                    asked == wishes(all, n as int),
                    forall|a: int| 0 <= a < n ==> fresh(all, a),
                    first_repeat(all, 0) == n,
                    edges_before.len() + asked.len() <= GRAPH_LIMIT,
                    nodes_before.len() + n <= GRAPH_LIMIT,
                    graph_nodes(self.graph) == nodes_before + names(all, n as int),
                    targets@.len() == all[i as int].edges_of().len(),
                    forall|m: int|
                        0 <= m < targets@.len() ==> (#[trigger] targets@[m])@
                            == all[i as int].edges_of()[m],
                    start == wishes(all, i as int).len(),
                    done == start + k,
                    start + targets@.len() <= asked.len(),
                    forall|m: int|
                        0 <= m < targets@.len() ==> #[trigger] asked[start + m] == (
                            i as int,
                            all[i as int].edges_of()[m],
                        ),
                    wishes(all, i + 1) == asked.take(start + targets@.len()),
                    granted(all, asked, 0) == granted(all, asked, done as int),
                    graph_edges(self.graph) == wired(
                        edges_before,
                        all,
                        asked,
                        base as int,
                        done as int,
                    ),
                    graph_edges(self.graph).len() <= edges_before.len() + done,
                decreases targets.len() - k,
            {
                let ghost wish = asked[done as int];
                assert(wish == (i as int, all[i as int].edges_of()[k as int]));
                let target = match find_element(&self.elements, targets[k]) {
                    Some(target) => target,
                    None => {
                        assert(!named(all, wish.1));
                        assert(granted(all, asked, done as int) == done);
                        return false;
                    },
                };
                proof {
                    let chosen = place_of(all, wish.1);
                    assert(all[target as int].name_of() == wish.1);
                    assert(named(all, wish.1));
                    assert(chosen == target) by {
                        assert(fresh(all, chosen));
                        assert(fresh(all, target as int));
                    }
                }
                update_edge(&mut self.graph, base + i, base + target);
                done += 1;
                k += 1;
            }
            i += 1;
        }
        assert(asked.take(done as int) =~= asked);

        let components = connected_components(&self.graph);

        if !is_connected(components) {
            return false;
        }

        true
    }
}

/// The connections that the first `n` elements ask for are at most four
/// for each, and those of fewer elements are the beginning of them.
proof fn lemma_wishes(elements: Seq<Element>, n: int)
    requires
        0 <= n <= elements.len(),
    ensures
        wishes(elements, n).len() <= 4 * n,
        forall|i: int|
            0 <= i <= n ==> #[trigger] wishes(elements, i) == wishes(elements, n).take(
                wishes(elements, i).len() as int,
            ) && wishes(elements, i).len() <= wishes(elements, n).len(),
    decreases n,
{
    if n > 0 {
        lemma_wishes(elements, n - 1);
        let before = wishes(elements, n - 1);
        let all = wishes(elements, n);
        assert forall|i: int| 0 <= i <= n implies #[trigger] wishes(elements, i) == all.take(
            wishes(elements, i).len() as int,
        ) && wishes(elements, i).len() <= all.len() by {
            if i < n {
                let part = wishes(elements, i);
                assert(part == before.take(part.len() as int));
                assert(before.take(part.len() as int) =~= all.take(part.len() as int));
            } else {
                assert(all =~= all.take(all.len() as int));
            }
        }
    } else {
        assert(wishes(elements, 0) =~= wishes(elements, 0).take(0));
    }
}

/// Where the connections of the element at the place `i` stand among all.
proof fn lemma_wishes_step(elements: Seq<Element>, n: int, i: int)
    requires
        0 <= i < n <= elements.len(),
    ensures
        wishes(elements, i).len() + elements[i].edges_of().len() == wishes(elements, i + 1).len(),
        wishes(elements, i + 1).len() <= wishes(elements, n).len(),
        wishes(elements, i + 1) == wishes(elements, n).take(wishes(elements, i + 1).len() as int),
        forall|m: int|
            0 <= m < elements[i].edges_of().len() ==> #[trigger] wishes(elements, n)[wishes(
                elements,
                i,
            ).len() + m] == (i, elements[i].edges_of()[m]),
{
    lemma_wishes(elements, n);
    let part = wishes(elements, i + 1);
    let all = wishes(elements, n);
    assert(part == all.take(part.len() as int));
    assert forall|m: int| 0 <= m < elements[i].edges_of().len() implies #[trigger] all[wishes(
        elements,
        i,
    ).len() + m] == (i, elements[i].edges_of()[m]) by {
        let at = wishes(elements, i).len() + m;
        assert(all.take(part.len() as int)[at] == all[at]);
        assert(part[at] == (i, elements[i].edges_of()[m]));
    }
}

} // verus!
