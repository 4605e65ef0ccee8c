use vstd::prelude::*;

use crate::parser::ast::begins_element;
use crate::parser::lexer::{text_tokens, Lexer};
use crate::{Error, Failure};

pub mod ast;
pub mod lexer;

pub use crate::parser::ast::{AbstractSyntaxTree, Element, ElementNode, Parser};

verus! {

/// A word or a sign of a track description.
#[derive(Debug)]
#[allow(non_camel_case_types)]
pub enum Token {
    LBRACKET,
    RBRACKET,
    DASH,
    SEMICOLON,
    COMMA,
    W_POINT,
    T_TUNNEL,
    K_CROSSING,
    DKW_DOUBLE_SLIP_POINT,
    EKW_SINGLE_SLIP_POINT,
    GS_DERAILER,
    IDENTIFIER(String),
}

/// A [`Token`] with its text as a sequence of characters.
pub enum Lexeme {
    LBracket,
    RBracket,
    Dash,
    Semicolon,
    Comma,
    Point,
    Tunnel,
    Crossing,
    DoubleSlipPoint,
    SingleSlipPoint,
    Derailer,
    Identifier(Seq<char>),
}

impl View for Token {
    type V = Lexeme;

    open spec fn view(&self) -> Lexeme {
        match self {
            Token::LBRACKET => Lexeme::LBracket,
            Token::RBRACKET => Lexeme::RBracket,
            Token::DASH => Lexeme::Dash,
            Token::SEMICOLON => Lexeme::Semicolon,
            Token::COMMA => Lexeme::Comma,
            Token::W_POINT => Lexeme::Point,
            Token::T_TUNNEL => Lexeme::Tunnel,
            Token::K_CROSSING => Lexeme::Crossing,
            Token::DKW_DOUBLE_SLIP_POINT => Lexeme::DoubleSlipPoint,
            Token::EKW_SINGLE_SLIP_POINT => Lexeme::SingleSlipPoint,
            Token::GS_DERAILER => Lexeme::Derailer,
            Token::IDENTIFIER(name) => Lexeme::Identifier(name@),
        }
    }
}

/// A place in a file: line, column and the name of the file.
#[derive(Debug, Clone)]
pub struct Location {
    pub l: usize,
    pub c: usize,
    pub f: String,
}

impl Location {
    /// A copy of the place.
    pub fn duplicate(&self) -> (r: Location)
        ensures
            r == *self,
    {
        Location { l: self.l, c: self.c, f: self.f.clone() }
    }
}

/// The tokens of `stream` without their places.
pub open spec fn lexemes(stream: Seq<(Token, Location)>) -> Seq<Lexeme> {
    Seq::new(stream.len(), |i: int| stream[i].0@)
}

/// Whether [`parse`] can read `source`: it has an error in its tokens, or
/// begins with no element, which the parser does not read yet.
pub open spec fn readable(source: Seq<char>) -> bool {
    match text_tokens(source, 0) {
        Ok(tokens) => tokens.len() == 0 || !begins_element(tokens[0]),
        Err(_) => true,
    }
}

/// Reads the track description `source`, which is the text of the file `file`.
///
/// An error in the tokens is the result. Without tokens the result is
/// empty; a first token that begins no element is refused.
pub fn parse(source: &str, file: String) -> (r: Result<AbstractSyntaxTree, Error>)
    requires
        readable(source@),
    ensures
        match text_tokens(source@, 0) {
            Ok(tokens) => if tokens.len() == 0 {
                r is Ok && r->Ok_0.track_line@.len() == 0 && r->Ok_0.id_map@.len() == 0
            } else {
                r is Err && r->Err_0@ == Failure::ExpectedToken(crate::parser::ast::ELEMENT_STARTS@)
            },
            Err(e) => r is Err && r->Err_0@ == e,
        },
{
    let mut lexer = Lexer::new(source, file);
    let mut tokens = lexer.scan()?;
    assert(tokens@.len() > 0 ==> lexemes(tokens@)[0] == tokens@[0].0@);
    let ast = Parser::parse(&mut tokens)?;
    Ok(ast)
}

/// Whether [`parse`] can read `source`.
pub fn is_readable(source: &str) -> (r: bool)
    ensures
        r == readable(source@),
{
    let mut lexer = Lexer::new(source, String::new());
    match lexer.scan() {
        Ok(tokens) => {
            assert(tokens@.len() > 0 ==> lexemes(tokens@)[0] == tokens@[0].0@);
            Parser::can_parse(&tokens)
        },
        Err(_) => true,
    }
}

} // verus!
