use std::collections::VecDeque;
use vstd::prelude::*;
use vstd::string::StringExecFns;

use crate::parser::lexer::lexer_rules::tokens_from;
use crate::parser::{lexemes, Lexeme, Location, Token};
use crate::{Error, Failure};

pub mod lexer_rules;

verus! {

/// Splits the text of a track description into tokens, line by line.
pub struct Lexer {
    /// The text.
    pub source: Vec<char>,
    /// How much of the text was read.
    pub position: usize,
    pub location: Location,
}

/// The end of the line of `source` that begins at `i`: the place behind the
/// next line feed, or the end of the text.
pub open spec fn line_end(source: Seq<char>, i: int) -> int
    decreases source.len() - i,
{
    if !(0 <= i < source.len()) {
        i
    } else if source[i] == '\n' {
        i + 1
    } else {
        line_end(source, i + 1)
    }
}

/// A line ends behind where it begins, and within the text.
pub proof fn lemma_line_end(source: Seq<char>, i: int)
    requires
        0 <= i < source.len(),
    ensures
        i < line_end(source, i) <= source.len(),
    decreases source.len() - i,
{
    if source[i] != '\n' {
        if i + 1 < source.len() {
            lemma_line_end(source, i + 1);
        } else {
            assert(line_end(source, i + 1) == i + 1);
        }
    }
}

/// The tokens of one line: see [`tokens_from`].
pub open spec fn line_tokens(line: Seq<char>) -> Result<Seq<Lexeme>, Failure> {
    tokens_from(line, 0, Seq::empty(), false)
}

/// The tokens of `source` from the place `i` on: those of each line, one
/// line after the other, or the error of the first line that has one.
pub open spec fn text_tokens(source: Seq<char>, i: int) -> Result<Seq<Lexeme>, Failure>
    decreases source.len() - i,
{
    if !(0 <= i < source.len()) {
        Ok(Seq::empty())
    } else {
        let end = line_end(source, i);
        if i < end <= source.len() {
            match line_tokens(source.subrange(i, end)) {
                Err(e) => Err(e),
                Ok(tokens) => match text_tokens(source, end) {
                    Err(e) => Err(e),
                    Ok(rest) => Ok(tokens + rest),
                },
            }
        } else {
            Ok(Seq::empty())
        }
    }
}

/// Every line has a token: its last word, which may be empty.
pub proof fn lemma_line_has_token(line: Seq<char>, i: int, buffer: Seq<char>, skipping: bool)
    requires
        tokens_from(line, i, buffer, skipping) is Ok,
    ensures
        tokens_from(line, i, buffer, skipping)->Ok_0.len() > 0,
    decreases line.len() - i, (if skipping { 1int } else { 0int }),
{
    if skipping {
        if 0 <= i < line.len() && lexer_rules::white(line[i]) {
            lemma_line_has_token(line, i + 1, buffer, true);
        } else {
            lemma_line_has_token(line, i, buffer, false);
        }
    } else if !(0 <= i < line.len()) {
    } else if lexer_rules::white(line[i]) {
    } else if buffer.len() == 0 && lexer_rules::punctuation_mark(line[i]) {
    } else {
        lemma_line_has_token(line, i + 1, buffer.push(line[i]), false);
    }
}

/// Whether every token of `stream` stands at `location`.
pub open spec fn all_at(stream: Seq<(Token, Location)>, location: Location) -> bool {
    forall|i: int| 0 <= i < stream.len() ==> (#[trigger] stream[i]).1 == location
}

/// The characters of `text`.
pub fn characters(text: &str) -> (r: Vec<char>)
    ensures
        r@ == text@,
{
    let mut all: Vec<char> = Vec::new();
    let n = text.unicode_len();
    let mut i: usize = 0;
    while i < n
        invariant
            i <= n,
            n == text@.len(),
            all@ == text@.take(i as int),
        decreases n - i,
    {
        all.push(text.get_char(i));
        assert(all@ =~= text@.take(i + 1));
        i += 1;
    }
    assert(text@.take(n as int) =~= text@);
    all
}

impl Lexer {
    /// A lexer at the beginning of `source`, which is the text of the file `file`.
    pub fn new(source: &str, file: String) -> (r: Self)
        ensures
            r.source@ == source@,
            r.position == 0,
            r.location == (Location { l: 0, c: 0, f: file }),
    {
        Self { source: characters(source), position: 0, location: Location { l: 0, c: 0, f: file } }
    }

    /// The tokens of the rest of the text.
    pub fn scan(&mut self) -> (r: Result<VecDeque<(Token, Location)>, Error>)
        requires
            old(self).position <= old(self).source@.len(),
        ensures
            final(self).source == old(self).source,
            final(self).location == old(self).location,
            final(self).position <= final(self).source@.len(),
            match text_tokens(old(self).source@, old(self).position as int) {
                Ok(tokens) => r is Ok && lexemes(r->Ok_0@) == tokens && all_at(
                    r->Ok_0@,
                    old(self).location,
                ) && final(self).position == final(self).source@.len(),
                Err(e) => r is Err && r->Err_0@ == e,
            },
    {
        let mut token_stream: VecDeque<(Token, Location)> = VecDeque::new();
        let ghost text = self.source@;
        let ghost from = self.position as int;
        let ghost place = self.location;
        assert(lexemes(token_stream@) =~= Seq::empty());

        loop
            invariant
                self.source@ == text,
                self.source == old(self).source,
                self.location == place,
                place == old(self).location,
                from == old(self).position,
                from <= self.position <= text.len(),
                all_at(token_stream@, place),
                match text_tokens(text, self.position as int) {
                    Ok(rest) => text_tokens(text, from) == Ok::<Seq<Lexeme>, Failure>(
                        lexemes(token_stream@) + rest,
                    ),
                    Err(e) => text_tokens(text, from) == Err::<Seq<Lexeme>, Failure>(e),
                },
            ensures
                self.position == text.len(),
            decreases text.len() - self.position,
        {
            let ghost at = self.position as int;
            let ghost before = token_stream@;
            proof {
                if at < text.len() {
                    lemma_line_end(text, at);
                    let end = line_end(text, at);
                    let line = text.subrange(at, end);
                    if line_tokens(line) is Ok {
                        lemma_line_has_token(line, 0, Seq::empty(), false);
                    }
                    assert(text_tokens(text, at) == match line_tokens(line) {
                        Err(e) => Err::<Seq<Lexeme>, Failure>(e),
                        Ok(tokens) => match text_tokens(text, end) {
                            Err(e) => Err(e),
                            Ok(rest) => Ok(tokens + rest),
                        },
                    });
                } else {
                    assert(text_tokens(text, at) == Ok::<Seq<Lexeme>, Failure>(Seq::empty()));
                }
            }
            let mut token_line = match self.scan_line() {
                Ok(line) => line,
                Err(e) => {
                    return Err(e);
                },
            };
            if token_line.len() == 0 {
                assert(lexemes(token_line@).len() == 0);
                assert(lexemes(token_stream@) + Seq::<Lexeme>::empty() =~= lexemes(token_stream@));
                break ;
            }
            let ghost added = token_line@;
            token_stream.append(&mut token_line);
            proof {
                assert(token_stream@ =~= before + added);
                assert(lexemes(token_stream@) =~= lexemes(before) + lexemes(added));
                if text_tokens(text, self.position as int) is Ok {
                    let rest = text_tokens(text, self.position as int)->Ok_0;
                    assert(lexemes(before) + (lexemes(added) + rest) =~= lexemes(token_stream@)
                        + rest);
                }
            }
        }

        Ok(token_stream)
    }

    /// The tokens of the next line of the text; none at its end.
    pub fn scan_line(&mut self) -> (r: Result<VecDeque<(Token, Location)>, Error>)
        requires
            old(self).position <= old(self).source@.len(),
        ensures
            final(self).source == old(self).source,
            final(self).location == old(self).location,
            final(self).position == line_end(old(self).source@, old(self).position as int),
            final(self).position <= final(self).source@.len(),
            old(self).position == old(self).source@.len() ==> r is Ok && r->Ok_0@.len() == 0,
            old(self).position < old(self).source@.len() ==> match line_tokens(
                old(self).source@.subrange(old(self).position as int, final(self).position as int),
            ) {
                Ok(tokens) => r is Ok && lexemes(r->Ok_0@) == tokens && all_at(
                    r->Ok_0@,
                    old(self).location,
                ),
                Err(e) => r is Err && r->Err_0@ == e,
            },
    {
        let ghost text = self.source@;
        let ghost from = self.position as int;
        // End of the text
        if self.position == self.source.len() {
            return Ok(VecDeque::new());
        }
        let mut line_buffer: Vec<char> = Vec::new();
        let mut done = false;
        while !done && self.position < self.source.len()
            invariant
                self.source@ == text,
                self.source == old(self).source,
                self.location == old(self).location,
                from <= self.position <= text.len(),
                from == old(self).position,
                from < text.len(),
                line_buffer@ == text.subrange(from, self.position as int),
                done ==> self.position == line_end(text, from),
                !done ==> line_end(text, from) == line_end(text, self.position as int),
                done ==> self.position > from,
            decreases text.len() - self.position, (if done { 0int } else { 1int }),
        {
            let c = self.source[self.position];
            line_buffer.push(c);
            self.position += 1;
            assert(line_buffer@ =~= text.subrange(from, self.position as int));
            if c == '\n' {
                done = true;
            }
        }

        let mut lexer_state = LexerState::new(self.location.duplicate(), line_buffer);
        assert(lexemes(lexer_state.token_stream@) =~= Seq::empty());

        let tokens = lexer_state.scan_line()?;

        Ok(tokens)
    }
}

/// What the lexer knows within a line.
pub struct LexerState {
    /// The tokens that were found.
    pub token_stream: VecDeque<(Token, Location)>,
    pub current_location: Location,
    /// The line.
    pub buffer_line: Vec<char>,
    /// How much of the line was read.
    pub position: usize,
    /// The characters of the word that has begun.
    pub name_buffer: String,
}

impl LexerState {
    /// The place in the line is within it.
    pub open spec fn wf(&self) -> bool {
        self.position <= self.buffer_line@.len()
    }

    /// Whether `after` is `before` with the token `token` added, the word
    /// that had begun given up, and `passed` more characters of the line read.
    pub open spec fn accepts(before: Self, after: Self, token: Lexeme, passed: int) -> bool {
        &&& after.token_stream@.len() == before.token_stream@.len() + 1
        &&& after.token_stream@.drop_last() == before.token_stream@
        &&& after.token_stream@.last().0@ == token
        &&& after.token_stream@.last().1 == before.current_location
        &&& after.name_buffer@ == Seq::<char>::empty()
        &&& after.buffer_line == before.buffer_line
        &&& after.position == before.position + passed
        &&& after.current_location == before.current_location
    }

    pub fn new(location: Location, buffer_line: Vec<char>) -> (r: Self)
        ensures
            r.token_stream@.len() == 0,
            r.current_location == location,
            r.buffer_line == buffer_line,
            r.position == 0,
            r.name_buffer@ == Seq::<char>::empty(),
    {
        LexerState {
            token_stream: VecDeque::new(),
            current_location: location,
            buffer_line,
            position: 0,
            name_buffer: String::new(),
        }
    }

    /// The tokens of the rest of the line, behind those that were found before.
    pub fn scan_line(&mut self) -> (r: Result<VecDeque<(Token, Location)>, Error>)
        requires
            old(self).wf(),
        ensures
            match tokens_from(
                old(self).buffer_line@,
                old(self).position as int,
                old(self).name_buffer@,
                false,
            ) {
                Ok(tokens) => {
                    &&& r is Ok
                    &&& lexemes(r->Ok_0@) == lexemes(old(self).token_stream@) + tokens
                    &&& all_at(old(self).token_stream@, old(self).current_location) ==> all_at(
                        r->Ok_0@,
                        old(self).current_location,
                    )
                    &&& final(self).token_stream@.len() == 0
                    &&& final(self).position == final(self).buffer_line@.len()
                    &&& final(self).name_buffer@.len() == 0
                },
                Err(e) => r is Err && r->Err_0@ == e,
            },
    {
        lexer_rules::scan_line(self)?;
        let mut token_line = VecDeque::new();
        token_line.append(&mut self.token_stream);
        self.token_stream.clear();
        Ok(token_line)
    }

    /// The next character of the line.
    pub fn peek(&self) -> (r: Option<char>)
        requires
            self.wf(),
        ensures
            r == if self.position < self.buffer_line@.len() {
                Some(self.buffer_line@[self.position as int])
            } else {
                None
            },
    {
        if self.position < self.buffer_line.len() {
            Some(self.buffer_line[self.position])
        } else {
            None
        }
    }

    /// Adds the next character of the line to the word; `false` at the end of the line.
    pub fn take(&mut self) -> (r: bool)
        requires
            old(self).wf(),
        ensures
            final(self).wf(),
            r == (old(self).position < old(self).buffer_line@.len()),
            r ==> final(self).position == old(self).position + 1 && final(self).name_buffer@
                == old(self).name_buffer@.push(old(self).buffer_line@[old(self).position as int]),
            !r ==> final(self).position == old(self).position && final(self).name_buffer@
                == old(self).name_buffer@,
            final(self).buffer_line == old(self).buffer_line,
            final(self).current_location == old(self).current_location,
            final(self).token_stream == old(self).token_stream,
    {
        if self.position < self.buffer_line.len() {
            let c = self.buffer_line[self.position];
            self.position += 1;
            push_char(&mut self.name_buffer, c);
            true
        } else {
            false
        }
    }

    /// Passes over the next character of the line; `false` at the end of the line.
    pub fn skip(&mut self) -> (r: bool)
        requires
            old(self).wf(),
        ensures
            final(self).wf(),
            r == (old(self).position < old(self).buffer_line@.len()),
            final(self).position == if r {
                old(self).position + 1
            } else {
                old(self).position as int
            },
            final(self).name_buffer == old(self).name_buffer,
            final(self).buffer_line == old(self).buffer_line,
            final(self).current_location == old(self).current_location,
            final(self).token_stream == old(self).token_stream,
    {
        if self.position < self.buffer_line.len() {
            self.position += 1;
            true
        } else {
            false
        }
    }

    /// Whether no word has begun.
    pub fn is_empty(&self) -> (r: bool)
        ensures
            r == (self.name_buffer@.len() == 0),
    {
        self.name_buffer.as_str().is_empty()
    }

    /// The word that has begun.
    pub fn buffer(&self) -> (r: &str)
        ensures
            r@ == self.name_buffer@,
    {
        self.name_buffer.as_str()
    }

    /// Adds `token` to the tokens that were found and gives up the word that had begun.
    pub fn accept(&mut self, token: Token)
        ensures
            Self::accepts(*old(self), *final(self), token@, 0),
    {
        self.name_buffer = String::new();
        self.token_stream.push_back((token, self.current_location.duplicate()));
        assert(self.token_stream@.drop_last() =~= old(self).token_stream@);
    }
}

/// Calls `String::push`, which adds one character to the end of a string.
#[verifier::external_body]
fn push_char(text: &mut String, c: char)
    ensures
        final(text)@ == old(text)@.push(c),
{
    text.push(c)
}

} // verus!
