use vstd::prelude::*;

use vstd::string::StringExecFns;

use crate::parser::lexer::{all_at, LexerState};
use crate::parser::{lexemes, Lexeme, Token};
use crate::{Error, Failure};

verus! {

/// Whether `c` is white space.
pub open spec fn white(c: char) -> bool {
    let n = c as u32;
    ||| 0x09 <= n <= 0x0d
    ||| n == 0x20
    ||| n == 0x85
    ||| n == 0xa0
    ||| n == 0x1680
    ||| 0x2000 <= n <= 0x200a
    ||| n == 0x2028
    ||| n == 0x2029
    ||| n == 0x202f
    ||| n == 0x205f
    ||| n == 0x3000
}

/// Whether `c` is one of the punctuation marks of ASCII.
pub open spec fn punctuation_mark(c: char) -> bool {
    let n = c as u32;
    ||| 0x21 <= n <= 0x2f
    ||| 0x3a <= n <= 0x40
    ||| 0x5b <= n <= 0x60
    ||| 0x7b <= n <= 0x7e
}

/// Whether `c` may stand in an identifier: a letter or a digit of ASCII, `_` or `-`.
pub open spec fn identifier_char(c: char) -> bool {
    let n = c as u32;
    ||| 0x30 <= n <= 0x39
    ||| 0x41 <= n <= 0x5a
    ||| 0x61 <= n <= 0x7a
    ||| c == '_'
    ||| c == '-'
}

/// The signs that are tokens, as an error names them.
pub const SIGNS: &'static str = "\",\", \";\", \"-\", \"[\" or \"]\"";

/// The token that the sign `c` is, if it is one.
pub open spec fn sign(c: char) -> Option<Lexeme> {
    if c == ',' {
        Some(Lexeme::Comma)
    } else if c == ';' {
        Some(Lexeme::Semicolon)
    } else if c == '-' {
        Some(Lexeme::Dash)
    } else if c == '[' {
        Some(Lexeme::LBracket)
    } else if c == ']' {
        Some(Lexeme::RBracket)
    } else {
        None
    }
}

/// The token that the word `buffer` is: a keyword, or an identifier if all
/// its characters may stand in one. The empty word is an identifier.
pub open spec fn word(buffer: Seq<char>) -> Result<Lexeme, Failure> {
    if buffer == "W"@ {
        Ok(Lexeme::Point)
    } else if buffer == "DKW"@ {
        Ok(Lexeme::DoubleSlipPoint)
    } else if buffer == "EKW"@ {
        Ok(Lexeme::SingleSlipPoint)
    } else if buffer == "K"@ {
        Ok(Lexeme::Crossing)
    } else if buffer == "T"@ {
        Ok(Lexeme::Tunnel)
    } else if buffer == "Gs"@ {
        Ok(Lexeme::Derailer)
    } else if forall|i: int| 0 <= i < buffer.len() ==> identifier_char(#[trigger] buffer[i]) {
        Ok(Lexeme::Identifier(buffer))
    } else {
        Err(Failure::InvalidIdentifier(buffer))
    }
}

/// `first` before the tokens of `rest`, or the error of `rest`.
pub open spec fn followed_by(first: Lexeme, rest: Result<Seq<Lexeme>, Failure>) -> Result<
    Seq<Lexeme>,
    Failure,
> {
    match rest {
        Ok(tokens) => Ok(seq![first] + tokens),
        Err(e) => Err(e),
    }
}

/// The tokens of `line` from the place `i` on, where `buffer` holds the
/// characters of a word that has begun, and `skipping` says that white
/// space was met and more of it is to be passed over.
///
/// White space ends a word, which becomes a token even where it is empty;
/// the white space that follows it makes no further token.
/// A punctuation mark that begins a word is a sign, and a token by itself;
/// one that is no sign is an error. Every other character belongs to the
/// word. The end of the line ends a word as white space does.
pub open spec fn tokens_from(line: Seq<char>, i: int, buffer: Seq<char>, skipping: bool) -> Result<
    Seq<Lexeme>,
    Failure,
>
    decreases line.len() - i, (if skipping { 1int } else { 0int }),
{
    if skipping {
        if 0 <= i < line.len() && white(line[i]) {
            tokens_from(line, i + 1, buffer, true)
        } else {
            tokens_from(line, i, buffer, false)
        }
    } else if !(0 <= i < line.len()) {
        match word(buffer) {
            Ok(token) => Ok(seq![token]),
            Err(e) => Err(e),
        }
    } else if white(line[i]) {
        match word(buffer) {
            Ok(token) => followed_by(token, tokens_from(line, i + 1, Seq::empty(), true)),
            Err(e) => Err(e),
        }
    } else if buffer.len() == 0 && punctuation_mark(line[i]) {
        match sign(line[i]) {
            Some(token) => followed_by(token, tokens_from(line, i + 1, Seq::empty(), false)),
            None => Err(Failure::UnexpectedSymbol(line[i], SIGNS@)),
        }
    } else {
        tokens_from(line, i + 1, buffer.push(line[i]), false)
    }
}

/// Whether `c` is white space.
pub fn is_white(c: char) -> (r: bool)
    ensures
        r == white(c),
{
    let n = c as u32;
    (0x09 <= n && n <= 0x0d) || n == 0x20 || n == 0x85 || n == 0xa0 || n == 0x1680 || (0x2000 <= n
        && n <= 0x200a) || n == 0x2028 || n == 0x2029 || n == 0x202f || n == 0x205f || n == 0x3000
}

/// Whether `c` is one of the punctuation marks of ASCII.
pub fn is_punctuation_mark(c: char) -> (r: bool)
    ensures
        r == punctuation_mark(c),
{
    let n = c as u32;
    (0x21 <= n && n <= 0x2f) || (0x3a <= n && n <= 0x40) || (0x5b <= n && n <= 0x60) || (0x7b <= n
        && n <= 0x7e)
}

/// Whether `c` may stand in an identifier.
pub fn is_identifier_char(c: char) -> (r: bool)
    ensures
        r == identifier_char(c),
{
    let n = c as u32;
    (0x30 <= n && n <= 0x39) || (0x41 <= n && n <= 0x5a) || (0x61 <= n && n <= 0x7a) || c == '_'
        || c == '-'
}

/// What the tokens that were found and those of the rest of the line make
/// together: the tokens of the line.
pub open spec fn outcome(state: LexerState, skipping: bool) -> Result<Seq<Lexeme>, Failure> {
    match tokens_from(state.buffer_line@, state.position as int, state.name_buffer@, skipping) {
        Ok(rest) => Ok(lexemes(state.token_stream@) + rest),
        Err(e) => Err(e),
    }
}

/// Whether the tokens of `after` are those of `before` and `token`, all
/// at the place of `before` if those of `before` are.
proof fn lemma_accepted(before: LexerState, after: LexerState, token: Lexeme, passed: int)
    requires
        LexerState::accepts(before, after, token, passed),
    ensures
        lexemes(after.token_stream@) == lexemes(before.token_stream@).push(token),
        all_at(before.token_stream@, before.current_location) ==> all_at(
            after.token_stream@,
            before.current_location,
        ),
{
    assert(lexemes(after.token_stream@) =~= lexemes(before.token_stream@).push(token)) by {
        assert forall|i: int| 0 <= i < before.token_stream@.len() implies after.token_stream@[i]
            == before.token_stream@[i] by {
            assert(after.token_stream@.drop_last()[i] == after.token_stream@[i]);
        }
    }
    if all_at(before.token_stream@, before.current_location) {
        assert forall|i: int| 0 <= i < after.token_stream@.len() implies (
        #[trigger] after.token_stream@[i]).1 == before.current_location by {
            if i < before.token_stream@.len() {
                assert(after.token_stream@.drop_last()[i] == after.token_stream@[i]);
            }
        }
    }
}

/// Adds the tokens of the rest of the line to those that were found.
pub fn scan_line(state: &mut LexerState) -> (r: Result<(), Error>)
    requires
        old(state).wf(),
    ensures
        final(state).wf(),
        final(state).buffer_line == old(state).buffer_line,
        final(state).current_location == old(state).current_location,
        match outcome(*old(state), false) {
            Ok(tokens) => {
                &&& r is Ok
                &&& lexemes(final(state).token_stream@) == tokens
                &&& final(state).position == final(state).buffer_line@.len()
                &&& final(state).name_buffer@.len() == 0
                &&& all_at(old(state).token_stream@, old(state).current_location) ==> all_at(
                    final(state).token_stream@,
                    old(state).current_location,
                )
            },
            Err(e) => r is Err && r->Err_0@ == e,
        },
{
    let ghost line = state.buffer_line@;
    let ghost place = state.current_location;
    loop
        invariant
            state.wf(),
            state.buffer_line == old(state).buffer_line,
            state.buffer_line@ == line,
            state.current_location == place,
            place == old(state).current_location,
            outcome(*state, false) == outcome(*old(state), false),
            all_at(old(state).token_stream@, place) ==> all_at(state.token_stream@, place),
        ensures
            state.position == line.len(),
        decreases line.len() - state.position,
    {
        let c = match state.peek() {
            Some(c) => c,
            None => {
                break ;
            },
        };
        let ghost before = *state;
        let ghost at = before.position as int;
        let ghost buffer = before.name_buffer@;

        // Skip whitespace
        if is_white(c) {
            assert(tokens_from(line, at, buffer, false) == match word(buffer) {
                Ok(token) => followed_by(token, tokens_from(line, at + 1, Seq::empty(), true)),
                Err(e) => Err(e),
            });
            match scan_keyword_or_identifier(state) {
                Ok(()) => {},
                Err(e) => {
                    return Err(e);
                },
            }
            let ghost middle = *state;
            proof {
                lemma_accepted(before, middle, word(buffer)->Ok_0, 0);
            }
            assert(middle.name_buffer@ =~= Seq::empty());
            assert(tokens_from(line, at, Seq::empty(), true) == tokens_from(
                line,
                at + 1,
                Seq::empty(),
                true,
            ));
            skip_whitespace(state);
            proof {
                let token = word(buffer)->Ok_0;
                let rest = tokens_from(line, at + 1, Seq::empty(), true);
                assert(state.token_stream == middle.token_stream);
                assert(tokens_from(line, state.position as int, state.name_buffer@, false) == rest);
                if rest is Ok {
                    assert(lexemes(before.token_stream@) + (seq![token] + rest->Ok_0) =~= lexemes(
                        state.token_stream@,
                    ) + rest->Ok_0);
                }
            }
        } else
        // Scan punctuation
        if state.is_empty() && is_punctuation_mark(c) {
            assert(buffer =~= Seq::empty());
            assert(tokens_from(line, at, buffer, false) == match sign(c) {
                Some(token) => followed_by(token, tokens_from(line, at + 1, Seq::empty(), false)),
                None => Err(Failure::UnexpectedSymbol(c, SIGNS@)),
            });
            match scan_punctuation(state) {
                Ok(()) => {},
                Err(e) => {
                    return Err(e);
                },
            }
            proof {
                let token = sign(c)->0;
                let rest = tokens_from(line, at + 1, Seq::empty(), false);
                lemma_accepted(before, *state, token, 1);
                if rest is Ok {
                    assert(lexemes(before.token_stream@) + (seq![token] + rest->Ok_0) =~= lexemes(
                        state.token_stream@,
                    ) + rest->Ok_0);
                }
            }
        } else {
            assert(tokens_from(line, at, buffer, false) == tokens_from(
                line,
                at + 1,
                buffer.push(c),
                false,
            ));
            state.take();
        }
    }

    let ghost before = *state;
    assert(tokens_from(line, before.position as int, before.name_buffer@, false) == match word(
        before.name_buffer@,
    ) {
        Ok(token) => Ok::<Seq<Lexeme>, Failure>(seq![token]),
        Err(e) => Err(e),
    });
    scan_keyword_or_identifier(state)?;
    proof {
        let token = word(before.name_buffer@)->Ok_0;
        lemma_accepted(before, *state, token, 0);
        assert(lexemes(before.token_stream@).push(token) =~= lexemes(before.token_stream@)
            + seq![token]);
    }

    Ok(())
}

/// Passes over the white space that the line goes on with.
pub fn skip_whitespace(state: &mut LexerState)
    requires
        old(state).wf(),
    ensures
        final(state).wf(),
        final(state).position >= old(state).position,
        final(state).buffer_line == old(state).buffer_line,
        final(state).current_location == old(state).current_location,
        final(state).token_stream == old(state).token_stream,
        final(state).name_buffer == old(state).name_buffer,
        tokens_from(
            final(state).buffer_line@,
            final(state).position as int,
            final(state).name_buffer@,
            false,
        ) == tokens_from(
            old(state).buffer_line@,
            old(state).position as int,
            old(state).name_buffer@,
            true,
        ),
        old(state).position < old(state).buffer_line@.len() && white(
            old(state).buffer_line@[old(state).position as int],
        ) ==> final(state).position > old(state).position,
{
    let ghost line = state.buffer_line@;
    let ghost buffer = state.name_buffer@;
    loop
        invariant
            state.wf(),
            state.position >= old(state).position,
            state.buffer_line == old(state).buffer_line,
            state.buffer_line@ == line,
            state.current_location == old(state).current_location,
            state.token_stream == old(state).token_stream,
            state.name_buffer == old(state).name_buffer,
            state.name_buffer@ == buffer,
            tokens_from(line, state.position as int, buffer, true) == tokens_from(
                line,
                old(state).position as int,
                buffer,
                true,
            ),
        ensures
            !(state.position < line.len() && white(line[state.position as int])),
        decreases line.len() - state.position,
    {
        match state.peek() {
            Some(c) => {
                if !is_white(c) {
                    break ;
                }
            },
            None => {
                break ;
            },
        }
        assert(tokens_from(line, state.position as int, buffer, true) == tokens_from(
            line,
            state.position + 1,
            buffer,
            true,
        ));
        state.skip();
    }
    assert(tokens_from(line, state.position as int, buffer, true) == tokens_from(
        line,
        state.position as int,
        buffer,
        false,
    ));
}

/// Makes a token of the sign that the line goes on with.
pub fn scan_punctuation(state: &mut LexerState) -> (r: Result<(), Error>)
    requires
        old(state).wf(),
        old(state).position < old(state).buffer_line@.len(),
    ensures
        final(state).wf(),
        match sign(old(state).buffer_line@[old(state).position as int]) {
            Some(token) => r is Ok && LexerState::accepts(*old(state), *final(state), token, 1),
            None => r is Err && r->Err_0@ == Failure::UnexpectedSymbol(
                old(state).buffer_line@[old(state).position as int],
                SIGNS@,
            ) && *final(state) == *old(state),
        },
{
    let c = match state.peek() {
        Some(c) => c,
        None => {
            return Err(Error::Unknown);
        },
    };

    if c == ',' {
        state.skip();
        state.accept(Token::COMMA);
    } else if c == ';' {
        state.skip();
        state.accept(Token::SEMICOLON);
    } else if c == '-' {
        state.skip();
        state.accept(Token::DASH);
    } else if c == '[' {
        state.skip();
        state.accept(Token::LBRACKET);
    } else if c == ']' {
        state.skip();
        state.accept(Token::RBRACKET);
    } else {
        return Err(Error::UnexpectedSymbol(c, String::from_str(SIGNS)));
    }

    Ok(())
}

/// Whether `text` is the word `keyword`.
fn is_word(text: &str, keyword: &'static str) -> (r: bool)
    ensures
        r == (text@ == keyword@),
{
    String::from_str(text) == String::from_str(keyword)
}

/// Makes a token of the word that has begun.
pub fn scan_keyword_or_identifier(state: &mut LexerState) -> (r: Result<(), Error>)
    ensures
        match word(old(state).name_buffer@) {
            Ok(token) => r is Ok && LexerState::accepts(*old(state), *final(state), token, 0),
            Err(e) => r is Err && r->Err_0@ == e && *final(state) == *old(state),
        },
{
    let token = if is_word(state.buffer(), "W") {
        Token::W_POINT
    } else if is_word(state.buffer(), "DKW") {
        Token::DKW_DOUBLE_SLIP_POINT
    } else if is_word(state.buffer(), "EKW") {
        Token::EKW_SINGLE_SLIP_POINT
    } else if is_word(state.buffer(), "K") {
        Token::K_CROSSING
    } else if is_word(state.buffer(), "T") {
        Token::T_TUNNEL
    } else if is_word(state.buffer(), "Gs") {
        Token::GS_DERAILER
    } else {
        scan_identifier(state)?
    };

    state.accept(token);

    Ok(())
}

/// The word that has begun as an identifier.
pub fn scan_identifier(state: &LexerState) -> (r: Result<Token, Error>)
    ensures
        match r {
            Ok(token) => token@ == Lexeme::Identifier(state.name_buffer@) && forall|i: int|
                0 <= i < state.name_buffer@.len() ==> identifier_char(
                    #[trigger] state.name_buffer@[i],
                ),
            Err(e) => e@ == Failure::InvalidIdentifier(state.name_buffer@) && !(forall|i: int|
                0 <= i < state.name_buffer@.len() ==> identifier_char(
                    #[trigger] state.name_buffer@[i],
                )),
        },
{
    let word = state.buffer();
    let n = word.unicode_len();
    let mut i: usize = 0;
    while i < n
        invariant
            i <= n,
            n == word@.len(),
            word@ == state.name_buffer@,
            forall|k: int| 0 <= k < i ==> identifier_char(#[trigger] word@[k]),
        decreases n - i,
    {
        let c = word.get_char(i);
        if is_identifier_char(c) {
        } else {
            return Err(Error::InvalidIdentifier(String::from_str(state.buffer())));
        }
        i += 1;
    }
    Ok(Token::IDENTIFIER(String::from_str(state.buffer())))
}

} // verus!
