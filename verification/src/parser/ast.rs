use std::collections::VecDeque;
use vstd::prelude::*;
use vstd::string::StringExecFns;

use crate::parser::{Lexeme, Location, Token};
use crate::{Error, Failure};

verus! {

/// What a track description says: its elements in their order, and the
/// names that it uses. The number of a name is its place in `id_map`.
pub struct AbstractSyntaxTree {
    pub track_line: Vec<Element>,
    pub id_map: Vec<String>,
}

/// Reads the elements of a track description from its tokens.
pub struct Parser {
    pub tokens: VecDeque<(Token, Location)>,
    pub track_line: Vec<Element>,
    pub id_map: Vec<String>,
}

pub struct Element {
    pub element: ElementNode,
    /// Whether the track line ends behind the element.
    pub line_end: bool,
    /// Whether the element is connected to the one that follows it.
    pub connected_to_next: bool,
}

pub enum ElementNode {
    Track { id: u64, connection: Option<u64>, location: Location },
    Point { id: u64, reverse: u64, location: Location },
    DSPoint { id: u64, reverse_up: u64, reverse_down: u64, location: Location },
    SSPoint { id: u64, reverse: u64, location: Location },
    Crossing { id: u64, location: Location },
    Derailer { id: u64, location: Location },
    NonBlockingCrossing { id: u64, location: Location },
}

/// The tokens that an element can begin with, as an error names them.
pub const ELEMENT_STARTS: &'static str = "\"[\", \"W\", \"DKW\", \"EKW\", \"Gs\", \"K\" or \"T\"";

/// What an error names where an identifier has to stand.
pub const IDENTIFIER_EXPECTED: &'static str = "<Identifier>";

/// Whether an element begins with `token`.
pub open spec fn begins_element(token: Lexeme) -> bool {
    match token {
        Lexeme::LBracket => true,
        Lexeme::Point => true,
        Lexeme::Tunnel => true,
        Lexeme::Crossing => true,
        Lexeme::DoubleSlipPoint => true,
        Lexeme::SingleSlipPoint => true,
        Lexeme::Derailer => true,
        _ => false,
    }
}

/// Whether `tokens` begins with a token that an element begins with.
pub open spec fn begins_with_element(tokens: Seq<(Token, Location)>) -> bool {
    tokens.len() > 0 && begins_element(tokens[0].0@)
}

/// The names of `id_map` as sequences of characters.
pub open spec fn names(id_map: Seq<String>) -> Seq<Seq<char>> {
    Seq::new(id_map.len(), |i: int| id_map[i]@)
}

impl ElementNode {
    /// The place of the element in its file.
    pub open spec fn location(self) -> Location {
        match self {
            ElementNode::Track { id: _, connection: _, location } => location,
            ElementNode::Point { id: _, reverse: _, location } => location,
            ElementNode::DSPoint { id: _, reverse_up: _, reverse_down: _, location } => location,
            ElementNode::SSPoint { id: _, reverse: _, location } => location,
            ElementNode::Crossing { id: _, location } => location,
            ElementNode::Derailer { id: _, location } => location,
            ElementNode::NonBlockingCrossing { id: _, location } => location,
        }
    }

    /// The element at another place.
    pub open spec fn moved(self, to: Location) -> ElementNode {
        match self {
            ElementNode::Track { id, connection, location: _ } => ElementNode::Track {
                id,
                connection,
                location: to,
            },
            ElementNode::Point { id, reverse, location: _ } => ElementNode::Point {
                id,
                reverse,
                location: to,
            },
            ElementNode::DSPoint {
                id,
                reverse_up,
                reverse_down,
                location: _,
            } => ElementNode::DSPoint { id, reverse_up, reverse_down, location: to },
            ElementNode::SSPoint { id, reverse, location: _ } => ElementNode::SSPoint {
                id,
                reverse,
                location: to,
            },
            ElementNode::Crossing { id, location: _ } => ElementNode::Crossing { id, location: to },
            ElementNode::Derailer { id, location: _ } => ElementNode::Derailer { id, location: to },
            ElementNode::NonBlockingCrossing {
                id,
                location: _,
            } => ElementNode::NonBlockingCrossing { id, location: to },
        }
    }

    /// Says where the element stands in its file.
    pub fn set_location(&mut self, location: Location)
        ensures
            *final(self) == old(self).moved(location),
    {
        match self {
            ElementNode::Track { id: _, connection: _, location: place } => {
                *place = location;
            },
            ElementNode::Point { id: _, reverse: _, location: place } => {
                *place = location;
            },
            ElementNode::DSPoint { id: _, reverse_up: _, reverse_down: _, location: place } => {
                *place = location;
            },
            ElementNode::SSPoint { id: _, reverse: _, location: place } => {
                *place = location;
            },
            ElementNode::Crossing { id: _, location: place } => {
                *place = location;
            },
            ElementNode::Derailer { id: _, location: place } => {
                *place = location;
            },
            ElementNode::NonBlockingCrossing { id: _, location: place } => {
                *place = location;
            },
        }
    }
}

impl Parser {
    /// No name stands twice among the names.
    pub open spec fn wf(&self) -> bool {
        names(self.id_map@).no_duplicates()
    }

    /// Whether an element begins with `token`: the parser does not read elements yet.
    pub fn starts_element(token: &Token) -> (r: bool)
        ensures
            r == begins_element(token@),
    {
        match token {
            Token::LBRACKET => true,
            Token::W_POINT => true,
            Token::T_TUNNEL => true,
            Token::K_CROSSING => true,
            Token::DKW_DOUBLE_SLIP_POINT => true,
            Token::EKW_SINGLE_SLIP_POINT => true,
            Token::GS_DERAILER => true,
            _ => false,
        }
    }

    /// Whether [`Self::parse`] can read `tokens`: they begin with no element.
    pub fn can_parse(tokens: &VecDeque<(Token, Location)>) -> (r: bool)
        ensures
            r == !begins_with_element(tokens@),
    {
        if tokens.len() == 0 {
            true
        } else {
            !Self::starts_element(&tokens[0].0)
        }
    }

    /// Reads `tokens`, which begin with no element. Without tokens the
    /// result is empty. A first token that begins no element is taken off and
    /// refused.
    pub fn parse(tokens: &mut VecDeque<(Token, Location)>) -> (r: Result<AbstractSyntaxTree, Error>)
        requires
            !begins_with_element(old(tokens)@),
        ensures
            old(tokens)@.len() == 0 ==> r is Ok && r->Ok_0.track_line@.len() == 0
                && r->Ok_0.id_map@.len() == 0 && final(tokens)@.len() == 0,
            old(tokens)@.len() > 0 ==> r is Err && r->Err_0@ == Failure::ExpectedToken(
                ELEMENT_STARTS@,
            ) && final(tokens)@ == old(tokens)@.subrange(1, old(tokens)@.len() as int),
    {
        let mut ast = Parser {
            tokens: VecDeque::new(),
            track_line: Vec::new(),
            id_map: Vec::new(),
        };
        std::mem::swap(tokens, &mut ast.tokens);
        let outcome = ast.parse_track_line();
        std::mem::swap(tokens, &mut ast.tokens);
        match outcome {
            Ok(()) => Ok(AbstractSyntaxTree { track_line: ast.track_line, id_map: ast.id_map }),
            Err(e) => Err(e),
        }
    }

    /// Reads elements as long as there are tokens.
    pub fn parse_track_line(&mut self) -> (r: Result<(), Error>)
        requires
            !begins_with_element(old(self).tokens@),
        ensures
            final(self).id_map == old(self).id_map,
            final(self).track_line == old(self).track_line,
            old(self).tokens@.len() == 0 ==> r is Ok && final(self).tokens@.len() == 0,
            old(self).tokens@.len() > 0 ==> r is Err && r->Err_0@ == Failure::ExpectedToken(
                ELEMENT_STARTS@,
            ) && final(self).tokens@ == old(self).tokens@.subrange(
                1,
                old(self).tokens@.len() as int,
            ),
    {
        while self.tokens.len() > 0
            invariant
                *self == *old(self),
                !begins_with_element(self.tokens@),
            decreases self.tokens@.len(),
        {
            let element = self.parse_element()?;
            if self.tokens.len() == 0 {
                return Err(Error::UnexpectedEOF);
            }
            let (line_end, connected_to_next) = match self.tokens[0].0 {
                Token::DASH => (false, true),
                Token::SEMICOLON => (true, false),
                _ => (false, false),
            };
            if line_end || connected_to_next {
                self.track_line.push(Element { element, line_end, connected_to_next });
                self.tokens.pop_front();
            }
        }

        Ok(())
    }

    /// Reads one element: takes the first token off and refuses it, as it
    /// begins no element.
    pub fn parse_element(&mut self) -> (r: Result<ElementNode, Error>)
        requires
            !begins_with_element(old(self).tokens@),
        ensures
            r is Err,
            final(self).id_map == old(self).id_map,
            final(self).track_line == old(self).track_line,
            old(self).tokens@.len() == 0 ==> r->Err_0@ == Failure::UnexpectedEOF,
            old(self).tokens@.len() == 0 ==> final(self).tokens@.len() == 0,
            old(self).tokens@.len() > 0 ==> r->Err_0@ == Failure::ExpectedToken(ELEMENT_STARTS@)
                && final(self).tokens@ == old(self).tokens@.subrange(
                1,
                old(self).tokens@.len() as int,
            ),
    {
        match self.tokens.pop_front() {
            None => Err(Error::UnexpectedEOF),
            Some(_) => Err(Error::ExpectedToken(String::from_str(ELEMENT_STARTS))),
        }
    }

    /// The place of `name` among `names`, if it stands there.
    pub fn find_name(names_so_far: &Vec<String>, name: &String) -> (r: Option<usize>)
        ensures
            match r {
                Some(k) => k < names_so_far@.len() && names_so_far@[k as int]@ == name@,
                None => !names(names_so_far@).contains(name@),
            },
    {
        let mut k: usize = 0;
        while k < names_so_far.len()
            invariant
                k <= names_so_far.len(),
                forall|j: int| 0 <= j < k ==> names_so_far@[j]@ != name@,
            decreases names_so_far.len() - k,
        {
            if names_so_far[k] == *name {
                return Some(k);
            }
            k += 1;
        }
        assert forall|j: int| 0 <= j < names(names_so_far@).len() implies names(names_so_far@)[j]
            != name@ by {}
        None
    }

    /// Reads an identifier and gives its number: the one it got when it was
    /// first read, which is the number of names that were known then.
    pub fn parse_identifier(&mut self) -> (r: Result<u64, Error>)
        requires
            old(self).wf(),
        ensures
            final(self).wf(),
            final(self).track_line == old(self).track_line,
            old(self).tokens@.len() == 0 ==> r is Err && r->Err_0@ == Failure::UnexpectedEOF
                && final(self).tokens@.len() == 0 && final(self).id_map == old(self).id_map,
            old(self).tokens@.len() > 0 ==> final(self).tokens@ == old(self).tokens@.subrange(
                1,
                old(self).tokens@.len() as int,
            ) && match old(self).tokens@[0].0@ {
                Lexeme::Identifier(name) => r is Ok && r->Ok_0 < names(final(self).id_map@).len()
                    && names(final(self).id_map@)[r->Ok_0 as int] == name && names(
                    final(self).id_map@,
                ) == if names(old(self).id_map@).contains(name) {
                    names(old(self).id_map@)
                } else {
                    names(old(self).id_map@).push(name)
                },
                _ => r is Err && r->Err_0@ == Failure::ExpectedToken(IDENTIFIER_EXPECTED@)
                    && final(self).id_map == old(self).id_map,
            },
    {
        let (id, _) = match self.tokens.pop_front() {
            Some(token) => token,
            None => {
                return Err(Error::UnexpectedEOF);
            },
        };

        if let Token::IDENTIFIER(id) = id {
            let numeric_id = if let Some(numeric_id) = Self::find_name(&self.id_map, &id) {
                assert(names(self.id_map@)[numeric_id as int] == id@);
                numeric_id as u64
            } else {
                let numeric_id = self.id_map.len() as u64;
                self.id_map.push(id);
                proof {
                    let before = names(old(self).id_map@);
                    let after = names(self.id_map@);
                    assert(after =~= before.push(id@));
                    assert forall|i: int, j: int|
                        0 <= i < after.len() && 0 <= j < after.len() && i != j implies after[i]
                        != after[j] by {
                        if i < before.len() && j < before.len() {
                            assert(before[i] != before[j]);
                        } else if i < before.len() {
                            assert(before.contains(before[i]));
                        } else {
                            assert(before.contains(before[j]));
                        }
                    }
                }
                numeric_id
            };

            Ok(numeric_id)
        } else {
            Err(Error::ExpectedToken(String::from_str(IDENTIFIER_EXPECTED)))
        }
    }
}

} // verus!
