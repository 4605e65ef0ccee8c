use vstd::prelude::*;

pub mod build_info;
pub mod elements;
pub mod model;
pub mod parser;
pub mod routes;
pub mod routing;
pub mod svg_render;
pub mod track_graph;
pub mod track_groups;
pub mod walk;

verus! {

/// What can go wrong in this library.
#[derive(Debug, PartialEq, Eq)]
pub enum Error {
    Unknown,
    UnexpectedEOF,
    /// A token other than the expected ones, which the text names.
    ExpectedToken(String),
    /// A symbol that starts no token, and the symbols that do.
    UnexpectedSymbol(char, String),
    InvalidIdentifier(String),
    NoConnectionToPreviousElement,
    /// A search for routes was started at a node that is no signal.
    InvalidStartElement,
    /// An end of a node names no node.
    MissingNeighbour,
    /// A graph holds a sentinel, or a node that does not stand at the place
    /// of its number.
    MalformedGraph,
}

/// An [`Error`] with its texts as sequences of characters.
pub enum Failure {
    Unknown,
    UnexpectedEOF,
    ExpectedToken(Seq<char>),
    UnexpectedSymbol(char, Seq<char>),
    InvalidIdentifier(Seq<char>),
    NoConnectionToPreviousElement,
    InvalidStartElement,
    MissingNeighbour,
    MalformedGraph,
}

impl View for Error {
    type V = Failure;

    open spec fn view(&self) -> Failure {
        match self {
            Error::Unknown => Failure::Unknown,
            Error::UnexpectedEOF => Failure::UnexpectedEOF,
            Error::ExpectedToken(expected) => Failure::ExpectedToken(expected@),
            Error::UnexpectedSymbol(found, expected) => Failure::UnexpectedSymbol(
                *found,
                expected@,
            ),
            Error::InvalidIdentifier(name) => Failure::InvalidIdentifier(name@),
            Error::NoConnectionToPreviousElement => Failure::NoConnectionToPreviousElement,
            Error::InvalidStartElement => Failure::InvalidStartElement,
            Error::MissingNeighbour => Failure::MissingNeighbour,
            Error::MalformedGraph => Failure::MalformedGraph,
        }
    }
}

} // verus!
