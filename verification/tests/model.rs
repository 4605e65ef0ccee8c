use signal_box_sim::model::{
    find_element, is_connected, same_text, Crossing, Element, Location, Model, Point,
    PointPosition, Track,
};

fn track(name: &str, path: Option<&str>) -> Element {
    Element::Track(Track { name: name.to_string(), path: path.map(|p| p.to_string()) })
}

#[test]
fn verify_graph_edge_degree() {
    // A point has two or three connections, a crossing four, a track one or none.
    let point = Element::Point(Point {
        name: "W1".to_string(),
        tip: "a".to_string(),
        normal: "b".to_string(),
        reverse: Some("c".to_string()),
        coupled: None,
        unrestricted: None,
        default: None,
    });
    assert_eq!(point.edges(), vec!["a", "b", "c"]);
    let simple = Element::Point(Point {
        name: "W2".to_string(),
        tip: "a".to_string(),
        normal: "b".to_string(),
        reverse: None,
        coupled: Some("W1".to_string()),
        unrestricted: None,
        default: Some(PointPosition::Reverse),
    });
    assert_eq!(simple.edges(), vec!["a", "b"]);
    let crossing = Element::Crossing(Crossing {
        name: "K1".to_string(),
        path_a: "a".to_string(),
        path_b: "b".to_string(),
        path_c: "c".to_string(),
        path_d: "d".to_string(),
    });
    assert_eq!(crossing.edges(), vec!["a", "b", "c", "d"]);
    assert_eq!(crossing.name(), "K1");
    assert_eq!(track("1", Some("2")).edges(), vec!["2"]);
    assert_eq!(track("1", None).edges(), Vec::<&str>::new());
    assert_eq!(track("1", None).name(), "1");
    assert_eq!(point.name(), "W1");
}

#[test]
fn verify_graph_component_number() {
    let mut elements = vec![];
    elements.push(Element::Track(Track { name: "v.u.n A-Stadt".to_string(), path: None }));
    elements.push(Element::Track(Track { name: "1".to_string(), path: None }));
    elements.push(Element::Track(Track { name: "2".to_string(), path: None }));
    elements.push(Element::Track(Track { name: "3".to_string(), path: None }));

    elements.push(Element::Point(Point {
        name: "W1".to_string(),
        tip: "v.u.n A-Stadt".to_string(),
        normal: "1".to_string(),
        reverse: Some("2".to_string()),
        coupled: None,
        unrestricted: None,
        default: None,
    }));

    let mut model = Model {
        location: Location {
            name: "B-Stadt".to_string(),
            abbreviation: "SBST".to_string(),
            neighbours: vec!["A-Stadt".to_string()],
        },
        elements,
        addons: vec![],
        graph: Default::default(),
    };

    assert!(!model.validate_graph());
}

#[test]
fn verify_graph_duplicated_node() {
    let mut elements = vec![];
    elements.push(Element::Track(Track { name: "v.u.n A-Stadt".to_string(), path: None }));
    elements.push(Element::Track(Track { name: "1".to_string(), path: None }));
    elements.push(Element::Track(Track { name: "2".to_string(), path: None }));
    elements.push(Element::Track(Track { name: "2".to_string(), path: None }));

    elements.push(Element::Point(Point {
        name: "W1".to_string(),
        tip: "v.u.n A-Stadt".to_string(),
        normal: "1".to_string(),
        reverse: Some("2".to_string()),
        coupled: None,
        unrestricted: None,
        default: None,
    }));

    let mut model = Model {
        location: Location {
            name: "B-Stadt".to_string(),
            abbreviation: "SBST".to_string(),
            neighbours: vec!["A-Stadt".to_string()],
        },
        elements,
        addons: vec![],
        graph: Default::default(),
    };

    assert!(!model.validate_graph());
}

#[test]
fn verify_graph_unknown_node() {
    let mut elements = vec![];
    elements.push(Element::Track(Track { name: "1".to_string(), path: None }));
    elements.push(Element::Track(Track { name: "2".to_string(), path: None }));

    elements.push(Element::Point(Point {
        name: "W1".to_string(),
        tip: "v.u.n A-Stadt".to_string(),
        normal: "1".to_string(),
        reverse: Some("2".to_string()),
        coupled: None,
        unrestricted: None,
        default: None,
    }));

    let mut model = Model {
        location: Location {
            name: "B-Stadt".to_string(),
            abbreviation: "SBST".to_string(),
            neighbours: vec!["A-Stadt".to_string()],
        },
        elements,
        addons: vec![],
        graph: Default::default(),
    };

    assert!(!model.validate_graph());
}

fn station() -> Model {
    let mut elements = vec![];

    elements.push(track("n. A-Dorf", Some("1-1")));
    elements.push(track("1-1", None));
    elements.push(track("1-2", Some("1")));
    elements.push(track("1", None));
    elements.push(track("v.u.n. C-Stadt", None));
    elements.push(track("v. A-Stadt", Some("2-1")));
    elements.push(track("2-1", None));
    elements.push(track("2-2", Some("2")));
    elements.push(track("2", None));
    elements.push(Element::Point(Point {
        name: "W1".to_string(),
        tip: "2-1".to_string(),
        normal: "2-2".to_string(),
        reverse: Some("W2".to_string()),
        coupled: None,
        unrestricted: None,
        default: Some(PointPosition::Normal),
    }));
    elements.push(Element::Point(Point {
        name: "W2".to_string(),
        tip: "1-2".to_string(),
        normal: "1-1".to_string(),
        reverse: Some("W1".to_string()),
        coupled: None,
        unrestricted: None,
        default: Some(PointPosition::Normal),
    }));
    elements.push(Element::Point(Point {
        name: "W3".to_string(),
        tip: "v.u.n. C-Stadt".to_string(),
        normal: "2".to_string(),
        reverse: Some("1".to_string()),
        coupled: None,
        unrestricted: None,
        default: None,
    }));

    Model {
        location: Location {
            name: "B-Stadt".to_string(),
            abbreviation: "SBST".to_string(),
            neighbours: vec!["A-Dorf".to_string(), "B-Stadt".to_string()],
        },
        elements,
        addons: vec![],
        graph: Default::default(),
    }
}

/// The edges of the graph of `model`, each as the numbers of its two nodes.
fn edges(model: &Model) -> Vec<(usize, usize)> {
    model
        .graph
        .edge_indices()
        .map(|e| {
            let (a, b) = model.graph.edge_endpoints(e).unwrap();
            (a.index(), b.index())
        })
        .collect()
}

#[test]
fn a_station_that_hangs_together_is_valid() {
    let mut model = station();
    assert!(model.has_room());
    assert!(model.validate_graph());
    // The graph has a node for each element and an edge for each connection; W2 names W1 as
    // W1 names W2, which makes one edge.
    assert_eq!(model.graph.node_count(), 12);
    assert_eq!(model.graph[petgraph::graph::NodeIndex::new(9)], "W1");
    assert_eq!(
        edges(&model),
        vec![
            (0, 1),
            (2, 3),
            (5, 6),
            (7, 8),
            (9, 6),
            (9, 7),
            (9, 10),
            (10, 2),
            (10, 1),
            (11, 4),
            (11, 8),
            (11, 3)
        ]
    );
}

#[test]
fn a_second_look_adds_to_the_graph_of_the_first() {
    let mut model = station();
    assert!(model.validate_graph());
    // The nodes of the first look stay, and those of the second hang together apart from them.
    assert_eq!(model.try_validate_graph(), Some(false));
    assert_eq!(model.graph.node_count(), 24);
    assert_eq!(model.graph.edge_count(), 24);
    assert_eq!(edges(&model)[12], (12, 13));
}

#[test]
fn a_graph_stops_at_the_first_name_that_occurs_twice() {
    let mut model = station();
    model.elements.insert(3, track("1-1", None));
    assert!(!model.validate_graph());
    // `n. A-Dorf`, `1-1` and `1-2` have their nodes; the second `1-1` has none.
    assert_eq!(model.graph.node_count(), 3);
    assert_eq!(model.graph.edge_count(), 0);
}

#[test]
fn a_graph_stops_at_the_first_connection_to_nowhere() {
    let mut model = station();
    model.elements[2] = track("1-2", Some("nowhere"));
    assert!(!model.validate_graph());
    assert_eq!(model.graph.node_count(), 12);
    assert_eq!(edges(&model), vec![(0, 1)]);
}

#[test]
fn two_parts_are_one_too_many() {
    let mut model = station();
    model.elements.pop();
    // Without W3 the track `v.u.n. C-Stadt` stands alone.
    assert!(!model.validate_graph());
    let mut model = station();
    model.elements.pop();
    model.elements.remove(4);
    assert!(model.validate_graph());
}

#[test]
fn a_model_without_elements_does_not_hang_together() {
    let mut model = station();
    model.elements.clear();
    assert!(!model.validate_graph());
    let mut model = station();
    model.elements.clear();
    model.elements.push(track("1", None));
    assert!(model.validate_graph());
    let mut model = station();
    model.elements.clear();
    model.elements.push(track("1", Some("1")));
    assert!(model.validate_graph());
    assert_eq!(edges(&model), vec![(0, 0)]);
}

#[test]
fn find_element_gives_the_first_place_of_a_name() {
    let elements = vec![track("a", None), track("b", None), track("a", None)];
    assert_eq!(find_element(&elements, "a"), Some(0));
    assert_eq!(find_element(&elements, "b"), Some(1));
    assert_eq!(find_element(&elements, "c"), None);
    assert!(same_text("ab", "ab"));
    assert!(!same_text("ab", "abc"));
    assert!(is_connected(1));
    assert!(!is_connected(0));
    assert!(!is_connected(2));
}
