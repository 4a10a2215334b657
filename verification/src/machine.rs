//! The scanning machine as mathematics.
//!
//! The machine reads one byte at a time, each byte taken as one character.
//! [`step`] is its transition table, [`run`] follows the table over a piece
//! of input until a token is complete, [`scan`] does so from the start state
//! and [`token_stream`] repeats that until the input is used up.

use vstd::prelude::*;
use crate::decimal::{all_digits, decimal_value, is_digit};
use crate::state::StateView;
use crate::tokens::TokenView;

verus! {

/// `c` is a letter of the Latin alphabet, in either case.
pub open spec fn is_letter(c: char) -> bool {
    ('A' <= c <= 'Z') || ('a' <= c <= 'z')
}

/// `c` may stand inside a name.
pub open spec fn is_word_char(c: char) -> bool {
    is_letter(c) || is_digit(c)
}

/// `text` has the shape of a name: a letter, then letters and digits.
pub open spec fn is_word(text: Seq<char>) -> bool {
    &&& text.len() >= 1
    &&& is_letter(text[0])
    &&& forall|i: int| 0 <= i < text.len() ==> is_word_char(#[trigger] text[i])
}

/// The keyword that `text` spells, if it spells one.
pub open spec fn keyword(text: Seq<char>) -> Option<TokenView> {
    if text == "if"@ {
        Some(TokenView::IF)
    } else if text == "else"@ {
        Some(TokenView::ELSE)
    } else if text == "while"@ {
        Some(TokenView::WHILE)
    } else if text == "void"@ {
        Some(TokenView::VOID)
    } else if text == "int"@ {
        Some(TokenView::INT)
    } else if text == "return"@ {
        Some(TokenView::RETURN)
    } else {
        None
    }
}

/// The token for a completed name: its keyword if it spells one, else an
/// identifier with that name.
pub open spec fn word_token(text: Seq<char>) -> TokenView {
    match keyword(text) {
        Some(token) => token,
        None => TokenView::IDENTIFIER(text),
    }
}

/// The token for a completed run of digits: the number it denotes, or an
/// error token when that number does not fit in 32 bits.
pub open spec fn number_token(digits: Seq<char>) -> TokenView {
    if decimal_value(digits) <= u32::MAX {
        TokenView::NUMBER(decimal_value(digits) as u32)
    } else {
        TokenView::ERROR("Number out of range"@)
    }
}

/// The token that `c` is by itself, if it is one.
pub open spec fn single(c: char) -> Option<TokenView> {
    if c == '+' {
        Some(TokenView::PLUS)
    } else if c == '-' {
        Some(TokenView::MINUS)
    } else if c == '*' {
        Some(TokenView::MULTIPLY)
    } else if c == ';' {
        Some(TokenView::SEMICOLON)
    } else if c == ',' {
        Some(TokenView::COMMA)
    } else if c == '(' {
        Some(TokenView::L_PAREN)
    } else if c == ')' {
        Some(TokenView::R_PAREN)
    } else if c == '[' {
        Some(TokenView::L_BRACK)
    } else if c == ']' {
        Some(TokenView::R_BRACK)
    } else if c == '{' {
        Some(TokenView::L_BRACE)
    } else if c == '}' {
        Some(TokenView::R_BRACE)
    } else {
        None
    }
}

/// The state that `c` leads to when the next character decides what it
/// begins: a comment or an operator of one or two characters.
pub open spec fn opening(c: char) -> Option<StateView> {
    if c == '/' {
        Some(StateView::InSlash)
    } else if c == '!' {
        Some(StateView::InNot)
    } else if c == '=' {
        Some(StateView::InEqual)
    } else if c == '<' {
        Some(StateView::InLess)
    } else if c == '>' {
        Some(StateView::InGreat)
    } else {
        None
    }
}

/// `c` begins nothing: between lexemes it is passed over in silence.
pub open spec fn is_skipped(c: char) -> bool {
    &&& single(c) is None
    &&& opening(c) is None
    &&& !is_digit(c)
    &&& !is_letter(c)
}

/// What one transition of the machine gives.
pub struct Step {
    /// The state after the transition.
    pub state: StateView,
    /// The text collected for the lexeme in progress.
    pub lexeme: Seq<char>,
    /// Whether the character just read is handed back, to be read again as
    /// the first character of the next lexeme.
    pub pushback: bool,
}

/// The machine moves to `state` with `lexeme` collected so far; the
/// character just read is used up.
pub open spec fn enter(state: StateView, lexeme: Seq<char>) -> Step {
    Step { state, lexeme, pushback: false }
}

/// The machine stops with `token`, with `lexeme` left in the collector; the
/// character just read belongs to the token.
pub open spec fn emit(token: TokenView, lexeme: Seq<char>) -> Step {
    Step { state: StateView::Done(token), lexeme, pushback: false }
}

/// The machine stops with `token`, with `lexeme` left in the collector; the
/// character just read does not belong to the token and is handed back.
pub open spec fn emit_before(token: TokenView, lexeme: Seq<char>) -> Step {
    Step { state: StateView::Done(token), lexeme, pushback: true }
}

/// The collected text that goes with a state: a name in progress inside a
/// name, a run of digits inside a number, and nothing anywhere else.
pub open spec fn lexeme_fits(state: StateView, lexeme: Seq<char>) -> bool {
    match state {
        StateView::InID => is_word(lexeme),
        StateView::InNum => lexeme.len() >= 1 && all_digits(lexeme),
        _ => lexeme.len() == 0,
    }
}

/// The transition table: from `state`, with `lexeme` collected, on reading
/// the character `c`.
///
/// Text is collected only on the way into and inside a name or a number,
/// and is dropped when the name or number is complete; every other
/// transition leaves the collected text as it is. A character is handed
/// back only by the transitions that need it to see that a lexeme has
/// ended.
///
/// The token for `<=` is named `GT_EQ` and the token for `>=` is named
/// `LT_EQ`. A `!` that no `=` follows gives an error token, and the character
/// that followed it is used up with it.
pub open spec fn step(state: StateView, lexeme: Seq<char>, c: char) -> Step {
    match state {
        StateView::Start => {
            if let Some(token) = single(c) {
                emit(token, lexeme)
            } else if let Some(next) = opening(c) {
                enter(next, lexeme)
            } else if is_digit(c) {
                enter(StateView::InNum, lexeme.push(c))
            } else if is_letter(c) {
                enter(StateView::InID, lexeme.push(c))
            } else {
                enter(StateView::Start, lexeme)
            }
        },
        StateView::InSlash => {
            if c == '*' {
                enter(StateView::InComment, lexeme)
            } else {
                emit_before(TokenView::DIVIDE, lexeme)
            }
        },
        StateView::InComment => {
            if c == '*' {
                enter(StateView::InStar, lexeme)
            } else {
                enter(StateView::InComment, lexeme)
            }
        },
        StateView::InStar => {
            if c == '/' {
                enter(StateView::Start, lexeme)
            } else {
                enter(StateView::InComment, lexeme)
            }
        },
        StateView::InNot => {
            if c == '=' {
                emit(TokenView::NOT_EQ, lexeme)
            } else {
                emit(TokenView::ERROR("Unexpected token: !"@), lexeme)
            }
        },
        StateView::InEqual => {
            if c == '=' {
                emit(TokenView::EQUAL, lexeme)
            } else {
                emit_before(TokenView::ASSIGN, lexeme)
            }
        },
        StateView::InLess => {
            if c == '=' {
                emit(TokenView::GT_EQ, lexeme)
            } else {
                emit_before(TokenView::LESS_THAN, lexeme)
            }
        },
        StateView::InGreat => {
            if c == '=' {
                emit(TokenView::LT_EQ, lexeme)
            } else {
                emit_before(TokenView::GREATER_THAN, lexeme)
            }
        },
        StateView::InID => {
            if is_word_char(c) {
                enter(StateView::InID, lexeme.push(c))
            } else {
                emit_before(word_token(lexeme), Seq::empty())
            }
        },
        StateView::InNum => {
            if is_digit(c) {
                enter(StateView::InNum, lexeme.push(c))
            } else {
                emit_before(number_token(lexeme), Seq::empty())
            }
        },
        StateView::Done(token) => emit(token, lexeme),
    }
}

/// A completed token, the input that is left after it, and whether the
/// first byte of what is left was read already and handed back.
pub struct Scanned {
    pub token: TokenView,
    pub rest: Seq<u8>,
    pub pushback: bool,
}

/// The result of a scan that finds `token` and leaves `rest` unread, no
/// byte of it read yet.
pub open spec fn token_then(token: TokenView, rest: Seq<u8>) -> Option<Scanned> {
    Some(Scanned { token, rest, pushback: false })
}

/// The result of a scan that finds `token` on reading the first byte of
/// `rest`, which does not belong to the token and is handed back.
pub open spec fn token_before(token: TokenView, rest: Seq<u8>) -> Option<Scanned> {
    Some(Scanned { token, rest, pushback: true })
}

/// The characters that a run of bytes stands for, one for each byte.
pub open spec fn text_of(bytes: Seq<u8>) -> Seq<char> {
    bytes.map_values(|b: u8| b as char)
}

/// Follows the table from `state` over `input` until a token is complete.
///
/// The result is `None` when the input ends first: a lexeme that the end of
/// the input cuts short gives no token.
pub open spec fn run(state: StateView, lexeme: Seq<char>, input: Seq<u8>) -> Option<Scanned>
    decreases input.len(),
{
    if input.len() == 0 {
        None
    } else {
        let taken = step(state, lexeme, input[0] as char);
        match taken.state {
            StateView::Done(token) => if taken.pushback {
                token_before(token, input)
            } else {
                token_then(token, input.drop_first())
            },
            _ => run(taken.state, taken.lexeme, input.drop_first()),
        }
    }
}

/// The first token of `input` and what is left after it, or `None` when
/// `input` holds no further token.
pub open spec fn scan(input: Seq<u8>) -> Option<Scanned> {
    run(StateView::Start, Seq::empty(), input)
}

/// The byte that was read last in finding `found` in `input`: the first of
/// what is left if that byte was handed back, else the byte just before
/// what is left.
pub open spec fn last_read(input: Seq<u8>, found: Scanned) -> u8 {
    if found.pushback {
        input[input.len() - found.rest.len()]
    } else {
        input[input.len() - found.rest.len() - 1]
    }
}

/// All the tokens of `input`, in order.
pub open spec fn token_stream(input: Seq<u8>) -> Seq<TokenView>
    decreases input.len(),
{
    match scan(input) {
        Some(found) if found.rest.len() < input.len() => seq![found.token] + token_stream(
            found.rest,
        ),
        _ => Seq::empty(),
    }
}

} // verus!
