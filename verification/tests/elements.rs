use signal_box_sim::elements::inner::any_matched;
use signal_box_sim::elements::{ElementName, Elements, Track};

const TRACK: usize = 0;
const POINT: usize = 1;
const CROSSING: usize = 2;
const DERAILER: usize = 3;
const MAIN_SIGNAL: usize = 4;
const DISTANT_SIGNAL: usize = 5;
const SHUNTING_SIGNAL: usize = 6;
const LOGICAL: usize = 7;

/// The kinds of names, but that of crossings, whose pattern matches `name`.
fn kinds_of(name: &str) -> Vec<usize> {
    let answers = ElementName::kinds(name);
    assert_eq!(answers.len(), 8);
    // The pattern of the crossings ends in an alternative that matches the empty text.
    assert_eq!(answers[CROSSING], Some(true));
    (0..8).filter(|k| *k != CROSSING && answers[*k] == Some(true)).collect()
}

#[test]
fn each_kind_of_name_is_told_by_its_pattern() {
    assert_eq!(kinds_of("12"), vec![TRACK]);
    // A capital letter and a number are the name of a main signal too.
    assert_eq!(kinds_of("W 12"), vec![POINT, MAIN_SIGNAL]);
    assert_eq!(kinds_of("K 3"), vec![MAIN_SIGNAL]);
    assert_eq!(kinds_of("Gs IV"), vec![DERAILER]);
    assert_eq!(kinds_of("A"), vec![MAIN_SIGNAL]);
    assert_eq!(kinds_of("ZR 12"), vec![MAIN_SIGNAL]);
    assert_eq!(kinds_of("a"), vec![DISTANT_SIGNAL]);
    assert_eq!(kinds_of("a/b 1/2"), vec![DISTANT_SIGNAL]);
    assert_eq!(kinds_of("Ls 3"), vec![SHUNTING_SIGNAL]);
    assert_eq!(kinds_of("Ls 3-II"), vec![SHUNTING_SIGNAL]);
    assert_eq!(kinds_of("ID abc1"), vec![LOGICAL]);
    assert_eq!(kinds_of("v.u.n. A-Stadt"), vec![]);
    assert_eq!(kinds_of(""), vec![]);
}

#[test]
fn every_name_is_valid_as_long_as_the_crossings_take_all() {
    assert!(ElementName::is_valid("W 1"));
    assert!(ElementName::is_valid("12"));
    assert!(ElementName::is_valid("not a name"));
    assert!(ElementName::is_valid(""));
}

#[test]
fn any_matched_wants_one_pattern_that_matched() {
    assert!(!any_matched(&vec![]));
    assert!(!any_matched(&vec![Some(false), None, Some(false)]));
    assert!(any_matched(&vec![Some(false), None, Some(true)]));
    assert!(any_matched(&vec![Some(true)]));
    assert!(!any_matched(&vec![None]));
}

#[test]
fn a_name_is_kept_as_it_was_written() {
    let name = ElementName::parse("not a name");
    assert_eq!(name.name, "not a name");
    assert_eq!(name.to_string(), "not a name");
    let track = Elements::Track(Track { name: ElementName::parse("1"), left: None, right: None });
    match track {
        Elements::Track(t) => assert_eq!(t.name.to_string(), "1"),
        _ => unreachable!(),
    }
}
