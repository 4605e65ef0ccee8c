use signal_box_sim::routing::elements::{DeadEndTrack, Elements, Point, Track};
use signal_box_sim::routing::pathfinder::{copy, went, InnerPathfinder, Pathfinder};
use signal_box_sim::routing::{ElementID, NO_PREVIOUS_ELEMENT};

#[test]
fn simple_station() {
    let elements = vec![
        Elements::DeadEndTrack(DeadEndTrack { id: 0.into(), neighbour: 1.into() }),
        Elements::Point(Point {
            id: 1.into(),
            straight: 2.into(),
            curved: 3.into(),
            trunk: 0.into(),
        }),
        Elements::DeadEndTrack(DeadEndTrack { id: 2.into(), neighbour: 1.into() }),
        Elements::DeadEndTrack(DeadEndTrack { id: 3.into(), neighbour: 1.into() }),
    ];

    let path_to_2 = Pathfinder::find(0.into(), 2.into(), &elements);
    let path_to_3 = Pathfinder::find(0.into(), 3.into(), &elements);
    let path_to_0 = Pathfinder::find(3.into(), 0.into(), &elements);

    assert_eq!(path_to_2, Some(vec![0.into(), 1.into(), 2.into()]));
    assert_eq!(path_to_3, Some(vec![0.into(), 1.into(), 3.into()]));
    assert_eq!(path_to_0, Some(vec![3.into(), 1.into(), 0.into()]));
}

fn ids(path: &[usize]) -> Vec<ElementID> {
    path.iter().map(|i| ElementID(*i)).collect()
}

/// Dead end 0 - track 1 - point 2 (trunk 1), whose legs 3 and 4 are tracks that meet in the
/// legs of point 5, whose trunk is the dead end 6.
fn two_ways() -> Vec<Elements> {
    vec![
        Elements::DeadEndTrack(DeadEndTrack { id: 0.into(), neighbour: 1.into() }),
        Elements::Track(Track { id: 1.into(), neighbour0: 0.into(), neighbour1: 2.into() }),
        Elements::Point(Point {
            id: 2.into(),
            straight: 3.into(),
            curved: 4.into(),
            trunk: 1.into(),
        }),
        Elements::Track(Track { id: 3.into(), neighbour0: 2.into(), neighbour1: 5.into() }),
        Elements::Track(Track { id: 4.into(), neighbour0: 2.into(), neighbour1: 5.into() }),
        Elements::Point(Point {
            id: 5.into(),
            straight: 3.into(),
            curved: 4.into(),
            trunk: 6.into(),
        }),
        Elements::DeadEndTrack(DeadEndTrack { id: 6.into(), neighbour: 5.into() }),
    ]
}

#[test]
fn of_two_paths_the_one_over_the_curved_leg_comes_first() {
    let elements = two_ways();
    assert_eq!(Pathfinder::find(0.into(), 6.into(), &elements), Some(ids(&[0, 1, 2, 4, 5, 6])));
    assert_eq!(Pathfinder::find(6.into(), 0.into(), &elements), Some(ids(&[6, 5, 4, 2, 1, 0])));
    assert_eq!(Pathfinder::find(0.into(), 3.into(), &elements), Some(ids(&[0, 1, 2, 3])));
}

#[test]
fn the_start_is_a_path_to_itself() {
    let elements = two_ways();
    assert_eq!(Pathfinder::find(0.into(), 0.into(), &elements), Some(ids(&[0])));
    assert_eq!(Pathfinder::find(3.into(), 3.into(), &elements), Some(ids(&[3])));
}

#[test]
fn there_is_no_path_from_the_middle_of_the_track() {
    // A track or a point has to be entered from a neighbour.
    let elements = two_ways();
    assert_eq!(Pathfinder::find(1.into(), 6.into(), &elements), None);
    assert_eq!(Pathfinder::find(2.into(), 6.into(), &elements), None);
}

#[test]
fn there_is_no_path_to_what_cannot_be_reached() {
    let elements = vec![
        Elements::DeadEndTrack(DeadEndTrack { id: 0.into(), neighbour: 1.into() }),
        Elements::DeadEndTrack(DeadEndTrack { id: 1.into(), neighbour: 0.into() }),
        Elements::DeadEndTrack(DeadEndTrack { id: 2.into(), neighbour: 2.into() }),
    ];
    assert_eq!(Pathfinder::find(0.into(), 1.into(), &elements), Some(ids(&[0, 1])));
    assert_eq!(Pathfinder::find(0.into(), 2.into(), &elements), None);
    assert_eq!(Pathfinder::find(0.into(), 7.into(), &elements), None);
}

#[test]
fn a_circle_of_tracks_ends_the_path_search() {
    // Dead end 0 leads into the trunk of point 1, whose legs are joined by the tracks 2 and 3.
    let elements = vec![
        Elements::DeadEndTrack(DeadEndTrack { id: 0.into(), neighbour: 1.into() }),
        Elements::Point(Point {
            id: 1.into(),
            straight: 2.into(),
            curved: 3.into(),
            trunk: 0.into(),
        }),
        Elements::Track(Track { id: 2.into(), neighbour0: 1.into(), neighbour1: 3.into() }),
        Elements::Track(Track { id: 3.into(), neighbour0: 2.into(), neighbour1: 1.into() }),
    ];
    // Round the circle and back to the dead end, which ends the path without reaching 9.
    assert_eq!(Pathfinder::find(0.into(), 9.into(), &elements), None);
    assert_eq!(Pathfinder::find(0.into(), 2.into(), &elements), Some(ids(&[0, 1, 3, 2])));
}

#[test]
fn a_path_goes_on_as_it_is_told() {
    let mut inner = InnerPathfinder { current_path_index: 0, paths: vec![ids(&[0, 1])] };
    assert_eq!(inner.current_position(), ElementID(1));
    assert_eq!(inner.previous_position(), ElementID(0));
    inner.next_elements(&ids(&[2]));
    assert_eq!(inner.paths, vec![ids(&[0, 1, 2])]);
    inner.next_elements(&ids(&[3, 4]));
    assert_eq!(inner.paths, vec![ids(&[]), ids(&[0, 1, 2, 3]), ids(&[0, 1, 2, 4])]);
    assert_eq!(inner.next(ElementID(3)), Some(ElementID(4)));
    assert_eq!(inner.current_path_index, 2);
    inner.next_elements(&ids(&[]));
    assert_eq!(inner.paths, vec![ids(&[]), ids(&[0, 1, 2, 3]), ids(&[])]);
    assert_eq!(inner.next(ElementID(3)), None);
    assert_eq!(inner.current_path_index, 3);
    assert_eq!(inner.result(), Some(ids(&[0, 1, 2, 3])));
}

#[test]
fn a_path_does_not_go_on_where_it_went_before() {
    let mut inner = InnerPathfinder { current_path_index: 0, paths: vec![ids(&[0, 1, 2, 0])] };
    inner.next_elements(&ids(&[1]));
    assert_eq!(inner.paths, vec![ids(&[])]);
    let mut inner = InnerPathfinder { current_path_index: 0, paths: vec![ids(&[0, 1, 2, 0])] };
    inner.next_elements(&ids(&[1, 3]));
    assert_eq!(inner.paths, vec![ids(&[]), ids(&[0, 1, 2, 0, 3])]);
    assert!(went(&ids(&[0, 1, 2, 0]), ElementID(2), ElementID(0)));
    assert!(!went(&ids(&[0, 1, 2, 0]), ElementID(0), ElementID(2)));
    assert!(!went(&ids(&[0]), ElementID(0), ElementID(0)));
    assert_eq!(copy(&ids(&[4, 5])), ids(&[4, 5]));
}

#[test]
fn the_first_element_of_a_path_has_none_before_it() {
    let inner = InnerPathfinder { current_path_index: 0, paths: vec![ids(&[7])] };
    assert_eq!(inner.previous_position(), ElementID(NO_PREVIOUS_ELEMENT));
    assert_eq!(inner.current_position(), ElementID(7));
    assert_eq!(NO_PREVIOUS_ELEMENT, usize::MAX);
}

#[test]
fn a_search_that_was_begun_can_be_taken_up() {
    let elements = two_ways();
    let pathfinder = Pathfinder {
        inner: InnerPathfinder { current_path_index: 0, paths: vec![ids(&[0, 1, 2, 3])] },
    };
    assert_eq!(
        pathfinder.inner_iter(0.into(), 6.into(), &elements),
        Some(ids(&[0, 1, 2, 3, 5, 6]))
    );
}
