use std::collections::HashMap;

use signal_box_sim::track_graph::extensions::Extensions;
use signal_box_sim::track_graph::graph::{TrackGraph, TrackGraphBuilder};
use signal_box_sim::track_graph::nodes::{Node, NodeType};
use signal_box_sim::track_graph::{regenerate_id_map, update_id, TrackGraphID};
use signal_box_sim::routes::{PointPosition, RouteElement};
use signal_box_sim::Error;

fn node(id: usize, neighbours: NodeType<TrackGraphID>) -> Node<TrackGraphID> {
    Node { id: TrackGraphID(id), neighbours, extension: Extensions::new() }
}

fn ids(route: &[usize]) -> Vec<TrackGraphID> {
    route.iter().map(|i| TrackGraphID(*i)).collect()
}

fn sorted(mut routes: Vec<Vec<TrackGraphID>>) -> Vec<Vec<usize>> {
    let mut plain: Vec<Vec<usize>> =
        routes.drain(..).map(|r| r.iter().map(|i| i.0).collect()).collect();
    plain.sort();
    plain
}

/*
 * Track Graph:
 *                                                      / --- Asig 2 [4] <- --- 2 [6] --- End 2 [8] ---|
 *                                                     /
 * Block v.u.n. A-Stadt [0] --- Esig A [1] -> --- W 1 [2] --- Asig 1 [3] <- --- 1 [5] --- End 1 [7] ---|
 */
fn station() -> TrackGraph {
    TrackGraph {
        nodes: vec![
            // Block v.u.n. A-Stadt
            Node {
                id: TrackGraphID(0),
                neighbours: NodeType::Block { x: 1.into() },
                extension: Extensions::new(),
            },
            // Esig A
            Node {
                id: TrackGraphID(1),
                neighbours: NodeType::Signal { from: 0.into(), to: 2.into() },
                extension: Extensions::new(),
            },
            // W1
            Node {
                id: TrackGraphID(2),
                neighbours: NodeType::Point {
                    tip: 1.into(),
                    normal: 3.into(),
                    reverse: 4.into(),
                    free_if_coupled_normal: None,
                },
                extension: Extensions::new(),
            },
            // Asig 1
            Node {
                id: TrackGraphID(3),
                neighbours: NodeType::Signal { from: 5.into(), to: 2.into() },
                extension: Extensions::new(),
            },
            // Asig 2
            Node {
                id: TrackGraphID(4),
                neighbours: NodeType::Signal { from: 6.into(), to: 2.into() },
                extension: Extensions::new(),
            },
            // Track 1
            Node {
                id: TrackGraphID(5),
                neighbours: NodeType::Track { x: 3.into(), y: 7.into() },
                extension: Extensions::new(),
            },
            // Track 2
            Node {
                id: TrackGraphID(6),
                neighbours: NodeType::Track { x: 4.into(), y: 8.into() },
                extension: Extensions::new(),
            },
            // End 1
            Node {
                id: TrackGraphID(7),
                neighbours: NodeType::DeadEnd { x: 5.into() },
                extension: Extensions::new(),
            },
            // End 2
            Node {
                id: TrackGraphID(8),
                neighbours: NodeType::DeadEnd { x: 6.into() },
                extension: Extensions::new(),
            },
        ],
    }
}

#[test]
fn test_find_routes() {
    let graph = station();
    assert!(graph.is_well_formed());
    assert!(graph.is_linked());

    let rout_to_1 = graph.find_routes(1.into(), 7.into()).unwrap();
    assert_eq!(
        rout_to_1,
        [[TrackGraphID(1), TrackGraphID(2), TrackGraphID(3), TrackGraphID(5), TrackGraphID(7)]]
    );

    let rout_to_2 = graph.find_routes(1.into(), 8.into()).unwrap();
    assert_eq!(
        rout_to_2,
        [[TrackGraphID(1), TrackGraphID(2), TrackGraphID(4), TrackGraphID(6), TrackGraphID(8)]]
    );

    let rout_to_a_1 = graph.find_routes(3.into(), 0.into()).unwrap();
    assert_eq!(
        rout_to_a_1,
        [[TrackGraphID(3), TrackGraphID(2), TrackGraphID(1), TrackGraphID(0)]]
    );

    let rout_to_a_2 = graph.find_routes(4.into(), 0.into()).unwrap();
    assert_eq!(
        rout_to_a_2,
        [[TrackGraphID(4), TrackGraphID(2), TrackGraphID(1), TrackGraphID(0)]]
    );
}

#[test]
fn find_routes_rejects_a_start_that_is_no_signal() {
    let graph = station();
    assert_eq!(graph.find_routes(2.into(), 7.into()), Err(Error::InvalidStartElement));
    assert_eq!(graph.find_routes(0.into(), 7.into()), Err(Error::InvalidStartElement));
    assert_eq!(graph.find_routes(9.into(), 7.into()), Err(Error::InvalidStartElement));
}

#[test]
fn find_routes_to_an_unreachable_destination_is_empty() {
    let graph = station();
    // From signal 3 the train runs towards the block: the dead ends lie behind it.
    assert_eq!(graph.find_routes(3.into(), 7.into()), Ok(vec![]));
    assert_eq!(graph.find_routes(3.into(), 8.into()), Ok(vec![]));
    // No node has this number.
    assert_eq!(graph.find_routes(1.into(), 42.into()), Ok(vec![]));
    // The start is no destination of its own search.
    assert_eq!(graph.find_routes(1.into(), 1.into()), Ok(vec![]));
}

#[test]
fn find_routes_passes_a_signal_that_stands_against_the_train() {
    let graph = station();
    // Signal 3 shows towards the point; the route from 1 passes it from behind and keeps it.
    assert_eq!(graph.find_routes(1.into(), 5.into()), Ok(vec![ids(&[1, 2, 3, 5])]));
    assert_eq!(graph.find_routes(1.into(), 3.into()), Ok(vec![ids(&[1, 2, 3])]));
}

#[test]
fn find_routes_takes_the_node_behind_the_signal_only_where_the_route_ends_there() {
    // Signal 0 stands right before the dead end 1.
    let short = TrackGraph {
        nodes: vec![
            node(0, NodeType::Signal { from: 2.into(), to: 1.into() }),
            node(1, NodeType::DeadEnd { x: 0.into() }),
            node(2, NodeType::Block { x: 0.into() }),
        ],
    };
    assert!(short.is_well_formed() && short.is_linked());
    assert_eq!(short.find_routes(0.into(), 1.into()), Ok(vec![ids(&[0, 1])]));
    assert_eq!(short.find_routes(0.into(), 2.into()), Ok(vec![]));

    // The point 2 behind signal 1 is passed, not reached.
    let graph = station();
    assert_eq!(graph.find_routes(1.into(), 2.into()), Ok(vec![]));
}

#[test]
fn a_point_entered_at_its_tip_branches_in_two() {
    let graph = station();
    let route = ids(&[1, 2]);
    let grown = graph.branch(&route);
    assert_eq!(grown, vec![ids(&[1, 2, 3]), ids(&[1, 2, 4])]);
    assert_eq!(graph.next_nodes(1.into(), 2.into()), ids(&[3, 4]));
    // Entered over a leg it leads to the tip only.
    assert_eq!(graph.next_nodes(3.into(), 2.into()), ids(&[1]));
    assert_eq!(graph.next_nodes(4.into(), 2.into()), ids(&[1]));
    assert_eq!(graph.branch(&ids(&[3, 2])), vec![ids(&[3, 2, 1])]);
}

#[test]
fn every_kind_of_node_leads_where_it_should() {
    let graph = TrackGraph {
        nodes: vec![
            node(0, NodeType::Crossing { a: 1.into(), b: 2.into(), x: 3.into(), y: 4.into() }),
            node(1, NodeType::Track { x: 0.into(), y: 5.into() }),
            node(2, NodeType::Derailer { from: 0.into(), to: 6.into() }),
            node(3, NodeType::OverlapEnd { x: 0.into(), y: 7.into() }),
            node(4, NodeType::Signal { from: 0.into(), to: 8.into() }),
            node(5, NodeType::DeadEnd { x: 1.into() }),
            node(6, NodeType::Block { x: 2.into() }),
            node(7, NodeType::DeadEnd { x: 3.into() }),
            node(8, NodeType::Block { x: 4.into() }),
        ],
    };
    assert!(graph.is_well_formed() && graph.is_linked());
    assert_eq!(graph.next_nodes(1.into(), 0.into()), ids(&[2]));
    assert_eq!(graph.next_nodes(2.into(), 0.into()), ids(&[1]));
    assert_eq!(graph.next_nodes(3.into(), 0.into()), ids(&[4]));
    assert_eq!(graph.next_nodes(4.into(), 0.into()), ids(&[3]));
    assert_eq!(graph.next_nodes(0.into(), 1.into()), ids(&[5]));
    assert_eq!(graph.next_nodes(5.into(), 1.into()), ids(&[0]));
    assert_eq!(graph.next_nodes(0.into(), 2.into()), ids(&[6]));
    assert_eq!(graph.next_nodes(6.into(), 2.into()), ids(&[0]));
    assert_eq!(graph.next_nodes(0.into(), 3.into()), ids(&[7]));
    assert_eq!(graph.next_nodes(7.into(), 3.into()), ids(&[0]));
    assert_eq!(graph.next_nodes(0.into(), 4.into()), ids(&[8]));
    assert_eq!(graph.next_nodes(8.into(), 4.into()), ids(&[0]));
    assert_eq!(graph.next_nodes(1.into(), 5.into()), ids(&[]));
    assert_eq!(graph.next_nodes(2.into(), 6.into()), ids(&[]));
    // From a node that is none of the ends nothing follows.
    assert_eq!(graph.next_nodes(8.into(), 0.into()), ids(&[]));

    // Signal 4 leads over its block only; the crossing lies behind it.
    assert_eq!(graph.find_routes(4.into(), 8.into()), Ok(vec![ids(&[4, 8])]));
    assert_eq!(graph.find_routes(4.into(), 7.into()), Ok(vec![]));
}

#[test]
fn a_loop_is_run_through_once_in_each_direction() {
    // Signal 0 leads to the tip of point 1, whose legs are joined by the track 2.
    let graph = TrackGraph {
        nodes: vec![
            node(0, NodeType::Signal { from: 3.into(), to: 1.into() }),
            node(
                1,
                NodeType::Point {
                    tip: 0.into(),
                    normal: 2.into(),
                    reverse: 2.into(),
                    free_if_coupled_normal: None,
                },
            ),
            node(2, NodeType::Track { x: 1.into(), y: 1.into() }),
            node(3, NodeType::Block { x: 0.into() }),
        ],
    };
    assert!(graph.is_well_formed() && graph.is_linked());
    // Both legs are the same node: the two branches give the same route twice.
    let routes = graph.find_routes(0.into(), 3.into()).unwrap();
    assert_eq!(sorted(routes), vec![vec![0, 1, 2, 1, 0, 3], vec![0, 1, 2, 1, 0, 3]]);
}

#[test]
fn a_circle_ends_the_search() {
    // Signal 0 leads into a circle of two tracks with no way out.
    let graph = TrackGraph {
        nodes: vec![
            node(0, NodeType::Signal { from: 2.into(), to: 1.into() }),
            node(1, NodeType::Track { x: 0.into(), y: 2.into() }),
            node(2, NodeType::Track { x: 1.into(), y: 0.into() }),
        ],
    };
    assert!(graph.is_well_formed() && graph.is_linked());
    assert_eq!(graph.find_routes(0.into(), 7.into()), Ok(vec![]));
    assert_eq!(graph.find_routes(0.into(), 2.into()), Ok(vec![ids(&[0, 1, 2])]));
}

#[test]
fn graph_checks_tell_what_is_wrong() {
    let sentinel = TrackGraph { nodes: vec![node(0, NodeType::Sentinel)] };
    assert!(!sentinel.is_well_formed());
    let open = TrackGraph { nodes: vec![node(0, NodeType::DeadEnd { x: 1.into() })] };
    assert!(!open.is_well_formed());
    let misnumbered = TrackGraph { nodes: vec![node(1, NodeType::DeadEnd { x: 0.into() })] };
    assert!(!misnumbered.is_well_formed());
    let one_sided = TrackGraph {
        nodes: vec![
            node(0, NodeType::DeadEnd { x: 1.into() }),
            node(1, NodeType::DeadEnd { x: 1.into() }),
        ],
    };
    assert!(one_sided.is_well_formed());
    assert!(!one_sided.is_linked());
    assert!(one_sided.is_end_of(1.into(), 0.into()));
    assert!(!one_sided.is_end_of(0.into(), 1.into()));
    let empty = TrackGraph { nodes: vec![] };
    assert!(empty.is_well_formed() && empty.is_linked());
}

#[test]
fn flank_protection_names_the_points_beside_the_route() {
    // Signal 0 - track 1 - point 2 (tip 1) - track 3 - dead end 4; the reverse leg of
    // point 2 is the leg `normal` of point 5, which so leads into the route.
    let graph = TrackGraph {
        nodes: vec![
            node(0, NodeType::Signal { from: 8.into(), to: 1.into() }),
            node(1, NodeType::Track { x: 0.into(), y: 2.into() }),
            node(
                2,
                NodeType::Point {
                    tip: 1.into(),
                    normal: 3.into(),
                    reverse: 5.into(),
                    free_if_coupled_normal: None,
                },
            ),
            node(3, NodeType::Track { x: 2.into(), y: 4.into() }),
            node(4, NodeType::DeadEnd { x: 3.into() }),
            node(
                5,
                NodeType::Point {
                    tip: 6.into(),
                    normal: 2.into(),
                    reverse: 7.into(),
                    free_if_coupled_normal: None,
                },
            ),
            node(6, NodeType::DeadEnd { x: 5.into() }),
            node(7, NodeType::DeadEnd { x: 5.into() }),
            node(8, NodeType::Block { x: 0.into() }),
        ],
    };
    assert!(graph.is_well_formed() && graph.is_linked());
    let routes = graph.find_routes(0.into(), 4.into()).unwrap();
    assert_eq!(routes, vec![ids(&[0, 1, 2, 3, 4])]);
    let flanks = graph.find_flank_protection_path(ids(&[0, 1, 2, 3, 4]));
    // Point 5 has to lie towards its reverse leg 7.
    assert_eq!(flanks, vec![ids(&[5, 7])]);
    assert_eq!(graph.guarding_leg(5.into(), 2.into()), Some(TrackGraphID(7)));
    assert_eq!(graph.guarding_leg(5.into(), 7.into()), Some(TrackGraphID(2)));
    assert_eq!(graph.guarding_leg(5.into(), 6.into()), None);
    assert_eq!(graph.guarding_leg(3.into(), 2.into()), None);
    // The route over the reverse leg passes point 5 at its leg; point 2 is on the route.
    assert_eq!(graph.find_flank_protection_path(ids(&[0, 1, 2, 5, 6])), Vec::<Vec<TrackGraphID>>::new());
    // Nodes that the graph does not have are passed over.
    assert_eq!(graph.find_flank_protection_path(ids(&[40, 41])), Vec::<Vec<TrackGraphID>>::new());
}

fn worked_topology() -> TrackGraphBuilder<String> {
    let mut graph = TrackGraphBuilder::new();
    assert!(graph.add_block("B v.u.n. A-Stadt".to_string(), "v.u.n. A-Stadt".to_string()));
    assert!(graph.add_track(
        "v.u.n. A-Stadt".to_string(),
        "B v.u.n. A-Stadt".to_string(),
        "W1".to_string(),
    ));
    assert!(graph.add_point(
        "W1".to_string(),
        "v.u.n. A-Stadt".to_string(),
        "1".to_string(),
        "2".to_string(),
    ));
    assert!(graph.add_track("1".to_string(), "W1".to_string(), "v.u.n. C-Dorf".to_string()));
    assert!(graph.add_track("2".to_string(), "W1".to_string(), "2-E".to_string()));
    assert!(graph.add_track(
        "v.u.n. C-Dorf".to_string(),
        "1".to_string(),
        "B v.u.n. C-Dorf".to_string(),
    ));
    assert!(graph.add_block("B v.u.n. C-Dorf".to_string(), "v.u.n. C-Dorf".to_string()));
    assert!(graph.add_dead_end("2-E".to_string(), "2".to_string()));
    graph
}

#[test]
fn worked_topology_compacts_in_insertion_order() {
    let builder = worked_topology();
    assert!(builder.is_closed());
    let (graph, map) = builder.into_track_graph();
    let names =
        ["B v.u.n. A-Stadt", "v.u.n. A-Stadt", "W1", "1", "2", "v.u.n. C-Dorf", "B v.u.n. C-Dorf", "2-E"];
    assert_eq!(map.len(), 8);
    assert_eq!(graph.nodes.len(), 8);
    for (i, name) in names.iter().enumerate() {
        assert_eq!(map[&name.to_string()], TrackGraphID(i));
        assert_eq!(graph.nodes[i].id, TrackGraphID(i));
        // Each node carries the identifier that it had.
        assert_eq!(graph.nodes[i].extension.get::<String>(), Some(&name.to_string()));
    }
    assert_eq!(graph.nodes[0].neighbours, NodeType::Block { x: 1.into() });
    assert_eq!(graph.nodes[1].neighbours, NodeType::Track { x: 0.into(), y: 2.into() });
    assert_eq!(
        graph.nodes[2].neighbours,
        NodeType::Point {
            tip: 1.into(),
            normal: 3.into(),
            reverse: 4.into(),
            free_if_coupled_normal: None
        }
    );
    assert_eq!(graph.nodes[3].neighbours, NodeType::Track { x: 2.into(), y: 5.into() });
    assert_eq!(graph.nodes[4].neighbours, NodeType::Track { x: 2.into(), y: 7.into() });
    assert_eq!(graph.nodes[5].neighbours, NodeType::Track { x: 3.into(), y: 6.into() });
    assert_eq!(graph.nodes[6].neighbours, NodeType::Block { x: 5.into() });
    assert_eq!(graph.nodes[7].neighbours, NodeType::DeadEnd { x: 4.into() });
    assert!(graph.is_well_formed());
    assert!(graph.is_linked());
}

#[test]
fn compaction_gives_the_same_numbers_each_time() {
    let (first, first_map) = worked_topology().into_track_graph();
    let (second, second_map) = worked_topology().into_track_graph();
    assert_eq!(first_map, second_map);
    assert_eq!(first.nodes.len(), second.nodes.len());
    for i in 0..first.nodes.len() {
        assert_eq!(first.nodes[i].id, second.nodes[i].id);
        assert_eq!(first.nodes[i].neighbours, second.nodes[i].neighbours);
    }
}

#[test]
fn compaction_drops_sentinels_and_keeps_the_order() {
    let nodes: Vec<Node<u64>> = vec![
        Node { id: 10, neighbours: NodeType::DeadEnd { x: 30 }, extension: Extensions::new() },
        Node { id: 20, neighbours: NodeType::Sentinel, extension: Extensions::new() },
        Node { id: 30, neighbours: NodeType::Track { x: 10, y: 40 }, extension: Extensions::new() },
        Node { id: 40, neighbours: NodeType::Block { x: 30 }, extension: Extensions::new() },
    ];
    let builder = TrackGraphBuilder::from_nodes(nodes).unwrap();
    assert!(builder.is_closed());
    let (graph, map) = builder.into_track_graph();
    assert_eq!(graph.nodes.len(), 3);
    assert_eq!(map.len(), 3);
    assert_eq!(map[&10], TrackGraphID(0));
    assert_eq!(map[&30], TrackGraphID(1));
    assert_eq!(map[&40], TrackGraphID(2));
    assert!(!map.contains_key(&20));
    assert_eq!(graph.nodes[0].neighbours, NodeType::DeadEnd { x: 1.into() });
    assert_eq!(graph.nodes[1].neighbours, NodeType::Track { x: 0.into(), y: 2.into() });
    assert_eq!(graph.nodes[2].neighbours, NodeType::Block { x: 1.into() });
    assert_eq!(graph.nodes[1].extension.get::<u64>(), Some(&30));
}

#[test]
fn a_builder_with_an_open_end_is_not_closed() {
    let mut builder: TrackGraphBuilder<u64> = TrackGraphBuilder::new();
    assert!(builder.add_track(1, 2, 3));
    assert!(!builder.is_closed());
    assert!(builder.add_dead_end(2, 1));
    assert!(!builder.is_closed());
    assert!(builder.add_block(3, 1));
    assert!(builder.is_closed());

    // An end that names a sentinel is open too.
    let nodes: Vec<Node<u64>> = vec![
        Node { id: 1, neighbours: NodeType::DeadEnd { x: 2 }, extension: Extensions::new() },
        Node { id: 2, neighbours: NodeType::Sentinel, extension: Extensions::new() },
    ];
    assert!(!TrackGraphBuilder::from_nodes(nodes).unwrap().is_closed());
}

#[test]
fn from_nodes_refuses_an_identifier_that_occurs_twice() {
    let nodes: Vec<Node<u64>> = vec![
        Node { id: 1, neighbours: NodeType::DeadEnd { x: 2 }, extension: Extensions::new() },
        Node { id: 2, neighbours: NodeType::DeadEnd { x: 1 }, extension: Extensions::new() },
        Node { id: 1, neighbours: NodeType::Sentinel, extension: Extensions::new() },
    ];
    assert!(TrackGraphBuilder::from_nodes(nodes).is_none());
}

#[test]
fn a_second_insert_under_the_same_identifier_is_refused() {
    let mut builder: TrackGraphBuilder<String> = TrackGraphBuilder::new();
    assert!(builder.add_track("a".to_string(), "b".to_string(), "c".to_string()));
    assert_eq!(builder.nodes.len(), 1);
    assert!(!builder.add_track("a".to_string(), "x".to_string(), "y".to_string()));
    assert!(!builder.add_point("a".to_string(), "x".to_string(), "y".to_string(), "z".to_string()));
    assert!(!builder.add_crossing(
        "a".to_string(),
        "w".to_string(),
        "x".to_string(),
        "y".to_string(),
        "z".to_string()
    ));
    assert!(!builder.add_derailer("a".to_string(), "x".to_string(), "y".to_string()));
    assert!(!builder.add_dead_end("a".to_string(), "x".to_string()));
    assert!(!builder.add_block("a".to_string(), "x".to_string()));
    assert!(!builder.add_signal("a".to_string(), "x".to_string(), "y".to_string()));
    assert!(!builder.add_overlap_end("a".to_string(), "x".to_string(), "y".to_string()));
    assert_eq!(builder.nodes.len(), 1);
    assert_eq!(
        builder.nodes[0].neighbours,
        NodeType::Track { x: "b".to_string(), y: "c".to_string() }
    );
    assert_eq!(builder.id_map.len(), 1);
}

#[test]
fn each_builder_call_adds_its_kind_of_node() {
    let mut builder: TrackGraphBuilder<u64> = TrackGraphBuilder::new();
    assert!(builder.add_track(1, 10, 11));
    assert!(builder.add_derailer(2, 10, 11));
    assert!(builder.add_point(3, 10, 11, 12));
    assert!(builder.add_coupled_point(4, 10, 11, 12, Some(true)));
    assert!(builder.add_crossing(5, 10, 11, 12, 13));
    assert!(builder.add_dead_end(6, 10));
    assert!(builder.add_signal(7, 10, 11));
    assert!(builder.add_overlap_end(8, 10, 11));
    assert!(builder.add_block(9, 10));
    let kinds: Vec<&NodeType<u64>> = builder.nodes.iter().map(|n| &n.neighbours).collect();
    assert_eq!(
        kinds,
        vec![
            &NodeType::Track { x: 10, y: 11 },
            &NodeType::Derailer { from: 10, to: 11 },
            &NodeType::Point { tip: 10, normal: 11, reverse: 12, free_if_coupled_normal: None },
            &NodeType::Point {
                tip: 10,
                normal: 11,
                reverse: 12,
                free_if_coupled_normal: Some(true)
            },
            &NodeType::Crossing { a: 10, b: 11, x: 12, y: 13 },
            &NodeType::DeadEnd { x: 10 },
            &NodeType::Signal { from: 10, to: 11 },
            &NodeType::OverlapEnd { x: 10, y: 11 },
            &NodeType::Block { x: 10 },
        ]
    );
    for (i, n) in builder.nodes.iter().enumerate() {
        assert_eq!(*n.id(), i as u64 + 1);
        assert!(!n.is_sentinel());
        assert_eq!(builder.id_map[&(i as u64 + 1)], TrackGraphID(i));
    }
}

fn slip(double: bool) -> TrackGraph {
    // Ends a = 10, b = 11, x = 12, y = 13 are dead ends; signals 20..23 lead into the slip
    // point from a, b, x and y.
    let mut builder: TrackGraphBuilder<u64> = TrackGraphBuilder::new();
    if double {
        assert!(builder.add_double_slip_point(1, 2, 20, 21, 22, 23));
    } else {
        assert!(builder.add_single_slip_point(1, 2, 20, 21, 22, 23));
    }
    // In a single slip point a and b hang on the first half; in a double one a and x do.
    let (of_b, of_x) = if double { (2, 1) } else { (1, 2) };
    assert!(builder.add_signal(20, 10, 1));
    assert!(builder.add_signal(21, 11, of_b));
    assert!(builder.add_signal(22, 12, of_x));
    assert!(builder.add_signal(23, 13, 2));
    assert!(builder.add_dead_end(10, 20));
    assert!(builder.add_dead_end(11, 21));
    assert!(builder.add_dead_end(12, 22));
    assert!(builder.add_dead_end(13, 23));
    assert!(builder.is_closed());
    let (graph, map) = builder.into_track_graph();
    assert!(graph.is_well_formed());
    assert!(graph.is_linked());
    assert_eq!(map[&1], TrackGraphID(0));
    assert_eq!(map[&2], TrackGraphID(1));
    graph
}

/// The ends (10..13, as numbered in `slip`) that a train from the signal before `from` reaches.
fn reached(graph: &TrackGraph, from: usize) -> Vec<usize> {
    // Nodes: 0, 1 the halves; 2..5 the signals of a, b, x, y; 6..9 the dead ends of a, b, x, y.
    let mut ends = Vec::new();
    for end in 0..4 {
        if end != from {
            let routes = graph.find_routes(TrackGraphID(2 + from), TrackGraphID(6 + end)).unwrap();
            assert!(routes.len() <= 1);
            if routes.len() == 1 {
                ends.push(end);
            }
        }
    }
    ends
}

#[test]
fn a_single_slip_point_joins_a_and_y_besides_the_through_routes() {
    let graph = slip(false);
    // a = 0, b = 1, x = 2, y = 3
    assert_eq!(reached(&graph, 0), vec![1, 3]);
    assert_eq!(reached(&graph, 1), vec![0]);
    assert_eq!(reached(&graph, 2), vec![3]);
    assert_eq!(reached(&graph, 3), vec![0, 2]);
    assert_eq!(
        graph.nodes[0].neighbours,
        NodeType::Point {
            tip: 2.into(),
            normal: 3.into(),
            reverse: 1.into(),
            free_if_coupled_normal: None
        }
    );
    assert_eq!(
        graph.nodes[1].neighbours,
        NodeType::Point {
            tip: 5.into(),
            normal: 4.into(),
            reverse: 0.into(),
            free_if_coupled_normal: None
        }
    );
}

#[test]
fn a_double_slip_point_joins_each_end_with_both_ends_of_the_other_side() {
    let graph = slip(true);
    // a = 0, b = 1, x = 2, y = 3: the sides are a, x and b, y
    assert_eq!(reached(&graph, 0), vec![1, 3]);
    assert_eq!(reached(&graph, 1), vec![0, 2]);
    assert_eq!(reached(&graph, 2), vec![1, 3]);
    assert_eq!(reached(&graph, 3), vec![0, 2]);
    assert_eq!(
        graph.nodes[0].neighbours,
        NodeType::Point {
            tip: 1.into(),
            normal: 2.into(),
            reverse: 4.into(),
            free_if_coupled_normal: None
        }
    );
    assert_eq!(
        graph.nodes[1].neighbours,
        NodeType::Point {
            tip: 0.into(),
            normal: 3.into(),
            reverse: 5.into(),
            free_if_coupled_normal: None
        }
    );
}

#[test]
fn a_slip_point_needs_two_new_identifiers() {
    let mut builder: TrackGraphBuilder<u64> = TrackGraphBuilder::new();
    assert!(builder.add_track(1, 10, 11));
    assert!(!builder.add_single_slip_point(1, 2, 20, 21, 22, 23));
    assert!(!builder.add_single_slip_point(2, 1, 20, 21, 22, 23));
    assert!(!builder.add_single_slip_point(2, 2, 20, 21, 22, 23));
    assert!(!builder.add_double_slip_point(1, 2, 20, 21, 22, 23));
    assert!(!builder.add_double_slip_point(2, 1, 20, 21, 22, 23));
    assert!(!builder.add_double_slip_point(3, 3, 20, 21, 22, 23));
    assert_eq!(builder.nodes.len(), 1);
    assert_eq!(builder.id_map.len(), 1);
    assert!(builder.add_double_slip_point(2, 3, 20, 21, 22, 23));
    assert_eq!(builder.nodes.len(), 3);
    assert_eq!(builder.id_map.len(), 3);
}

#[test]
fn the_identifier_map_is_made_anew_from_the_nodes() {
    let nodes: Vec<Node<u64>> = vec![
        Node { id: 7, neighbours: NodeType::Sentinel, extension: Extensions::new() },
        Node { id: 5, neighbours: NodeType::Sentinel, extension: Extensions::new() },
    ];
    let mut map: HashMap<u64, TrackGraphID> = HashMap::new();
    map.insert(99, TrackGraphID(3));
    regenerate_id_map(&nodes, &mut map);
    assert_eq!(map.len(), 2);
    assert_eq!(map[&7], TrackGraphID(0));
    assert_eq!(map[&5], TrackGraphID(1));
    assert_eq!(update_id(&5, &map), TrackGraphID(1));
}

#[test]
fn a_node_is_rewritten_through_the_map() {
    let mut map: HashMap<String, u64> = HashMap::new();
    map.insert("a".to_string(), 1);
    map.insert("b".to_string(), 2);
    map.insert("c".to_string(), 3);
    let node = Node {
        id: "b".to_string(),
        neighbours: NodeType::Signal { from: "a".to_string(), to: "c".to_string() },
        extension: Extensions::new(),
    };
    let moved = node.transform(&map);
    assert_eq!(moved.id, 2);
    assert_eq!(moved.neighbours, NodeType::Signal { from: 1, to: 3 });
    assert_eq!(moved.extension.get::<String>(), Some(&"b".to_string()));
    assert_eq!(NodeType::Sentinel.transform(&map), NodeType::<u64>::Sentinel);
    assert!(Node { id: 0u64, neighbours: NodeType::Sentinel, extension: Extensions::new() }
        .is_sentinel());
}

#[test]
fn a_route_is_described_with_the_way_it_passes_each_node() {
    let graph = station();
    let route = graph.describe(&ids(&[1, 2, 3, 5, 7]));
    assert_eq!(
        route.0,
        vec![
            RouteElement::Element(TrackGraphID(1)),
            RouteElement::Point(TrackGraphID(2), PointPosition::Tip, PointPosition::Normal),
            // Signal 3 shows towards the point: the train passes it from behind.
            RouteElement::Opposed(TrackGraphID(3)),
            RouteElement::Element(TrackGraphID(5)),
            RouteElement::Element(TrackGraphID(7)),
        ]
    );
    let back = graph.describe(&ids(&[4, 2, 1, 0]));
    assert_eq!(
        back.0,
        vec![
            RouteElement::Element(TrackGraphID(4)),
            RouteElement::Point(TrackGraphID(2), PointPosition::Reverse, PointPosition::Tip),
            RouteElement::Opposed(TrackGraphID(1)),
            RouteElement::Element(TrackGraphID(0)),
        ]
    );
    // A point at the end of a route is left at no end, and an unknown node is as it is.
    assert_eq!(
        graph.describe(&ids(&[1, 2])).0,
        vec![RouteElement::Element(TrackGraphID(1)), RouteElement::Element(TrackGraphID(2))]
    );
    assert_eq!(graph.describe(&ids(&[77])).0, vec![RouteElement::Element(TrackGraphID(77))]);
    assert_eq!(TrackGraph::point_end(1.into(), 3.into(), 1.into()), PointPosition::Tip);
    assert_eq!(TrackGraph::point_end(1.into(), 3.into(), 3.into()), PointPosition::Normal);
    assert_eq!(TrackGraph::point_end(1.into(), 3.into(), 4.into()), PointPosition::Reverse);
}

#[test]
fn nodes_are_equal_whatever_is_attached_to_them() {
    let plain: Node<u64> =
        Node { id: 1, neighbours: NodeType::Track { x: 2, y: 3 }, extension: Extensions::new() };
    let mut tagged: Node<u64> =
        Node { id: 1, neighbours: NodeType::Track { x: 2, y: 3 }, extension: Extensions::new() };
    tagged.extension.insert("tag".to_string());
    assert!(plain == tagged);
    let other_end: Node<u64> =
        Node { id: 1, neighbours: NodeType::Track { x: 2, y: 4 }, extension: Extensions::new() };
    assert!(plain != other_end);
    let other_kind: Node<u64> =
        Node { id: 1, neighbours: NodeType::Derailer { from: 2, to: 3 }, extension: Extensions::new() };
    assert!(plain != other_kind);
    let other_id: Node<u64> =
        Node { id: 9, neighbours: NodeType::Track { x: 2, y: 3 }, extension: Extensions::new() };
    assert!(plain != other_id);
    assert!(
        NodeType::Point { tip: 1u64, normal: 2, reverse: 3, free_if_coupled_normal: None }
            != NodeType::Point { tip: 1u64, normal: 2, reverse: 3, free_if_coupled_normal: Some(false) }
    );
    assert!(NodeType::<u64>::Sentinel == NodeType::Sentinel);
}

#[test]
fn builders_with_the_same_nodes_are_equal() {
    let mut one: TrackGraphBuilder<u64> = TrackGraphBuilder::new();
    let mut two: TrackGraphBuilder<u64> = TrackGraphBuilder::default();
    assert!(one == two);
    assert!(one.add_track(1, 2, 3));
    assert!(one != two);
    assert!(two.add_track(1, 2, 3));
    assert!(one == two);
}

#[test]
fn the_checked_search_names_what_is_wrong_with_the_graph() {
    let graph = station();
    assert_eq!(
        graph.try_find_routes(1.into(), 7.into()),
        Ok(vec![ids(&[1, 2, 3, 5, 7])])
    );
    assert_eq!(graph.try_find_routes(2.into(), 7.into()), Err(Error::InvalidStartElement));
    assert_eq!(graph.try_find_routes(3.into(), 7.into()), Ok(vec![]));
    let sentinel = TrackGraph { nodes: vec![node(0, NodeType::Sentinel)] };
    assert_eq!(sentinel.try_find_routes(0.into(), 0.into()), Err(Error::MalformedGraph));
    let one_sided = TrackGraph {
        nodes: vec![
            node(0, NodeType::Signal { from: 1.into(), to: 1.into() }),
            node(1, NodeType::DeadEnd { x: 1.into() }),
        ],
    };
    assert_eq!(
        one_sided.try_find_routes(0.into(), 1.into()),
        Err(Error::NoConnectionToPreviousElement)
    );
}

#[test]
fn the_checked_compaction_refuses_an_open_end() {
    let mut builder: TrackGraphBuilder<u64> = TrackGraphBuilder::new();
    assert!(builder.add_track(1, 2, 3));
    assert!(builder.add_dead_end(2, 1));
    match builder.try_into_track_graph() {
        Err(e) => assert_eq!(e, Error::MissingNeighbour),
        Ok(_) => unreachable!(),
    }
    let mut builder: TrackGraphBuilder<u64> = TrackGraphBuilder::new();
    assert!(builder.add_dead_end(1, 2));
    assert!(builder.add_dead_end(2, 1));
    let (graph, map) = builder.try_into_track_graph().ok().unwrap();
    assert_eq!(graph.nodes.len(), 2);
    assert_eq!(map[&2], TrackGraphID(1));
}
