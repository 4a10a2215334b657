//! The scanner: the machine of [`crate::machine`] run over a buffer of bytes,
//! with one byte of pushback.

use vstd::prelude::*;
use crate::decimal::{all_digits, parse_decimal};
use crate::laws::{lemma_scan_rest_is_suffix, lemma_step_keeps_lexeme};
use crate::machine::{last_read, lexeme_fits, run, scan, step, token_stream, word_token};
use crate::state::State;
use crate::text::same_text;
use crate::tokens::{views_of, Token, TokenView};

verus! {

/// A scanner over the bytes of one source text.
///
/// Its view is the input that is still unread, a byte that was handed back
/// included.
#[derive(Debug)]
pub struct Scanner {
    /// The whole source text.
    source: Vec<u8>,
    /// How many bytes of the source have been taken from it.
    pos: usize,
    /// The byte that was taken last.
    buffer: u8,
    /// Whether the byte in `buffer` is to be read once more.
    reserve: bool,
    /// The text of the lexeme in progress.
    id: String,
}

impl View for Scanner {
    type V = Seq<u8>;

    closed spec fn view(&self) -> Seq<u8> {
        if self.reserve {
            self.source@.subrange(self.pos - 1, self.source@.len() as int)
        } else {
            self.source@.subrange(self.pos as int, self.source@.len() as int)
        }
    }
}

impl Scanner {
    /// The text collected for the lexeme in progress.
    pub closed spec fn lexeme(&self) -> Seq<char> {
        self.id@
    }

    /// The byte that was taken last.
    pub closed spec fn current(&self) -> u8 {
        self.buffer
    }

    /// Whether the byte taken last is held back, to be read once more.
    pub closed spec fn held_back(&self) -> bool {
        self.reserve
    }

    /// The scanner's fields agree with each other: the position lies within
    /// the source, and a byte that is held back is the one just before it.
    pub closed spec fn sound(&self) -> bool {
        &&& self.pos <= self.source@.len()
        &&& self.reserve ==> self.pos >= 1 && self.buffer == self.source@[self.pos - 1]
    }

    /// The scanner stands between two tokens: it is sound and no lexeme is
    /// in progress.
    pub open spec fn wf(&self) -> bool {
        &&& self.sound()
        &&& self.lexeme().len() == 0
    }

    /// A byte has just been taken: it is the current byte, it is not held
    /// back, and the machine has yet to take its transition on it.
    pub closed spec fn loaded(&self) -> bool {
        &&& !self.reserve
        &&& 1 <= self.pos <= self.source@.len()
        &&& self.buffer == self.source@[self.pos - 1]
    }

    /// A byte that has just been taken is not held back, and the scanner is
    /// sound.
    pub proof fn lemma_loaded(&self)
        requires
            self.loaded(),
        ensures
            !self.held_back(),
            self.sound(),
    {
    }

    /// A byte that is held back is the first of the unread input.
    pub proof fn lemma_held_back(&self)
        requires
            self.sound(),
            self.held_back(),
        ensures
            self@.len() >= 1,
            self@[0] == self.current(),
    {
    }

    /// A scanner at the start of `source`.
    pub fn new(source: Vec<u8>) -> (scanner: Scanner)
        ensures
            scanner.wf(),
            scanner@ == source@,
            !scanner.held_back(),
    {
        let scanner = Scanner { source, pos: 0, buffer: 0, reserve: false, id: String::new() };
        proof {
            assert(scanner@ =~= source@);
        }
        scanner
    }

    /// Produces the next token, or `None` when the input holds no further
    /// token.
    ///
    /// The token and the input left unread are those that [`scan`] gives for
    /// the input that was unread before the call. A byte is held back
    /// afterwards exactly when the token was found on reading a byte that
    /// does not belong to it, and the current byte is the byte read last.
    /// When the result is `None` the input is used up and no byte is held
    /// back; a lexeme that the end of the input cut short is dropped.
    pub fn next(&mut self) -> (token: Option<Token>)
        requires
            old(self).wf(),
        ensures
            final(self).wf(),
            match scan(old(self)@) {
                Some(found) => {
                    &&& token is Some
                    &&& token->0@ == found.token
                    &&& final(self)@ == found.rest
                    &&& final(self).held_back() == found.pushback
                    &&& final(self).current() == last_read(old(self)@, found)
                },
                None => {
                    &&& token is None
                    &&& final(self)@.len() == 0
                    &&& !final(self).held_back()
                    &&& final(self).current() == if old(self)@.len() > 0 {
                        old(self)@.last()
                    } else {
                        old(self).current()
                    }
                },
            },
    {
        let mut state = State::Start;
        let ghost whole = self@;
        proof {
            assert(self.id@ =~= Seq::<char>::empty());
            assert(self@ =~= whole.subrange(0, whole.len() as int));
        }
        loop
            invariant
                whole == old(self)@,
                self.sound(),
                self.reserve ==> state@ is Start && self@ == whole,
                !(state@ is Done),
                lexeme_fits(state@, self.id@),
                run(state@, self.id@, self@) == scan(whole),
                self@.len() <= whole.len(),
                self@ == whole.subrange(whole.len() - self@.len(), whole.len() as int),
                self@.len() < whole.len() ==> self.buffer == whole[whole.len() - self@.len() - 1],
                self@.len() == whole.len() ==> self.buffer == old(self).buffer,
            ensures
                self@.len() == 0,
                !self.reserve,
                self.sound(),
                self.buffer == if whole.len() > 0 {
                    whole.last()
                } else {
                    old(self).buffer
                },
            decreases self@.len(),
        {
            let ghost before = self@;
            let ghost lexeme = self.id@;
            let ghost from = state@;
            if !self.load_char() {
                break ;
            }
            proof {
                lemma_step_keeps_lexeme(from, lexeme, self.buffer as char);
                assert(self@ =~= whole.subrange(whole.len() - self@.len(), whole.len() as int));
                assert(self.buffer == whole[whole.len() - before.len()]);
            }
            state = self.transition(state);
            proof {
                if self.reserve {
                    assert(seq![before[0]] + before.drop_first() =~= before);
                }
            }
            if let State::Done(token) = state {
                return Some(token);
            }
        }
        self.clear_identifier();
        None
    }

    /// Produces all the tokens that are left, in order, and uses up the
    /// input. Afterwards no byte is held back and the current byte is the
    /// last byte of the input, if there was any input left.
    pub fn tokens(&mut self) -> (found: Vec<Token>)
        requires
            old(self).wf(),
        ensures
            final(self).wf(),
            final(self)@.len() == 0,
            !final(self).held_back(),
            final(self).current() == if old(self)@.len() > 0 {
                old(self)@.last()
            } else {
                old(self).current()
            },
            views_of(found@) == token_stream(old(self)@),
            found@.len() == token_stream(old(self)@).len(),
    {
        let mut found: Vec<Token> = Vec::new();
        let ghost whole = self@;
        proof {
            assert(self@ =~= whole.subrange(0, whole.len() as int));
        }
        loop
            invariant
                whole == old(self)@,
                self.wf(),
                views_of(found@) + token_stream(self@) == token_stream(whole),
                self@.len() <= whole.len(),
                self@ == whole.subrange(whole.len() - self@.len(), whole.len() as int),
                !self.reserve && self@.len() < whole.len() ==> self.buffer == whole[whole.len()
                    - self@.len() - 1],
                !self.reserve && self@.len() == whole.len() ==> self.buffer == old(self).buffer,
            ensures
                self.wf(),
                self@.len() == 0,
                !self.reserve,
                self.buffer == if whole.len() > 0 {
                    whole.last()
                } else {
                    old(self).buffer
                },
                views_of(found@) == token_stream(whole),
            decreases self@.len(),
        {
            let ghost before = self@;
            let ghost so_far = views_of(found@);
            proof {
                lemma_scan_rest_is_suffix(before);
            }
            match self.next() {
                Some(token) => {
                    found.push(token);
                    proof {
                        assert(views_of(found@) =~= so_far.push(token@));
                        assert(so_far.push(token@) + token_stream(self@) =~= so_far + (seq![
                            token@,
                        ] + token_stream(self@)));
                        assert(self@ =~= whole.subrange(
                            whole.len() - self@.len(),
                            whole.len() as int,
                        ));
                    }
                },
                None => {
                    proof {
                        assert(token_stream(before) =~= Seq::<TokenView>::empty());
                        assert(token_stream(self@) =~= Seq::<TokenView>::empty());
                        assert(so_far + Seq::<TokenView>::empty() =~= so_far);
                    }
                    break ;
                },
            }
        }
        found
    }

    /// Takes one transition of the machine, from `state`, on the current
    /// byte.
    ///
    /// The state that is returned, the text collected afterwards and whether
    /// the byte is handed back are those of [`step`]. A byte that is handed
    /// back stands again at the front of the unread input; otherwise the
    /// unread input is as it was.
    pub fn transition(&mut self, state: State) -> (next: State)
        requires
            old(self).loaded(),
            state@ is InNum ==> all_digits(old(self).lexeme()),
        ensures
            !old(self).held_back(),
            next@ == step(state@, old(self).lexeme(), old(self).current() as char).state,
            final(self).lexeme() == step(
                state@,
                old(self).lexeme(),
                old(self).current() as char,
            ).lexeme,
            final(self).held_back() == step(
                state@,
                old(self).lexeme(),
                old(self).current() as char,
            ).pushback,
            final(self).current() == old(self).current(),
            final(self).sound(),
            final(self)@ == if final(self).held_back() {
                seq![old(self).current()] + old(self)@
            } else {
                old(self)@
            },
    {
        proof {
            assert(seq![self.buffer] + self@ =~= self.source@.subrange(
                self.pos - 1,
                self.source@.len() as int,
            ));
        }
        let next_char: char = self.get_char();
        match state {
            State::Start => match next_char {
                '+' => State::Done(Token::PLUS),
                '-' => State::Done(Token::MINUS),
                '*' => State::Done(Token::MULTIPLY),
                '/' => State::InSlash,
                '!' => State::InNot,
                '=' => State::InEqual,
                '<' => State::InLess,
                '>' => State::InGreat,
                ';' => State::Done(Token::SEMICOLON),
                ',' => State::Done(Token::COMMA),
                '(' => State::Done(Token::L_PAREN),
                ')' => State::Done(Token::R_PAREN),
                '[' => State::Done(Token::L_BRACK),
                ']' => State::Done(Token::R_BRACK),
                '{' => State::Done(Token::L_BRACE),
                '}' => State::Done(Token::R_BRACE),
                '0'..='9' => {
                    self.build_identifier(next_char);
                    State::InNum
                },
                'A'..='Z' | 'a'..='z' => {
                    self.build_identifier(next_char);
                    State::InID
                },
                _ => State::Start,
            },
            State::InSlash => match next_char {
                '*' => State::InComment,
                _ => {
                    self.reserve_char();
                    State::Done(Token::DIVIDE)
                },
            },
            State::InComment => match next_char {
                '*' => State::InStar,
                _ => State::InComment,
            },
            State::InStar => match next_char {
                '/' => State::Start,
                _ => State::InComment,
            },
            State::InNot => match next_char {
                '=' => State::Done(Token::NOT_EQ),
                _ => State::Done(Token::ERROR("Unexpected token: !")),
            },
            State::InEqual => match next_char {
                '=' => State::Done(Token::EQUAL),
                _ => {
                    self.reserve_char();
                    State::Done(Token::ASSIGN)
                },
            },
            State::InLess => match next_char {
                '=' => State::Done(Token::GT_EQ),
                _ => {
                    self.reserve_char();
                    State::Done(Token::LESS_THAN)
                },
            },
            State::InGreat => match next_char {
                '=' => State::Done(Token::LT_EQ),
                _ => {
                    self.reserve_char();
                    State::Done(Token::GREATER_THAN)
                },
            },
            State::InID => match next_char {
                '0'..='9' | 'A'..='Z' | 'a'..='z' => {
                    self.build_identifier(next_char);
                    State::InID
                },
                _ => {
                    self.reserve_char();
                    let id = self.get_identifier();
                    let token = Scanner::resolve(id);
                    self.clear_identifier();
                    State::Done(token)
                },
            },
            State::InNum => match next_char {
                '0'..='9' => {
                    self.build_identifier(next_char);
                    State::InNum
                },
                _ => {
                    self.reserve_char();
                    let id = self.get_identifier();
                    let token = match parse_decimal(id.as_str()) {
                        Some(value) => Token::NUMBER(value),
                        None => Token::ERROR("Number out of range"),
                    };
                    self.clear_identifier();
                    State::Done(token)
                },
            },
            State::Done(token) => State::Done(token),
        }
    }

    /// The token for a completed name.
    fn resolve(id: String) -> (token: Token)
        ensures
            token@ == word_token(id@),
    {
        let text = id.as_str();
        if same_text(text, "if") {
            Token::IF
        } else if same_text(text, "else") {
            Token::ELSE
        } else if same_text(text, "while") {
            Token::WHILE
        } else if same_text(text, "void") {
            Token::VOID
        } else if same_text(text, "int") {
            Token::INT
        } else if same_text(text, "return") {
            Token::RETURN
        } else {
            Token::IDENTIFIER(id)
        }
    }

    /// A copy of the text collected for the lexeme in progress.
    fn get_identifier(&self) -> (id: String)
        ensures
            id@ == self.id@,
    {
        self.id.clone()
    }

    /// Adds `c` to the text of the lexeme in progress.
    fn build_identifier(&mut self, c: char)
        ensures
            final(self).id@ == old(self).id@.push(c),
            final(self).source == old(self).source,
            final(self).pos == old(self).pos,
            final(self).buffer == old(self).buffer,
            final(self).reserve == old(self).reserve,
    {
        self.id.push(c);
    }

    /// Drops the text collected so far: no lexeme is in progress.
    fn clear_identifier(&mut self)
        ensures
            final(self).id@ == Seq::<char>::empty(),
            final(self).source == old(self).source,
            final(self).pos == old(self).pos,
            final(self).buffer == old(self).buffer,
            final(self).reserve == old(self).reserve,
    {
        self.id = String::new();
    }

    /// Makes the next byte current: the byte that was handed back if there
    /// is one, else the next byte of the source. Returns whether there was
    /// a byte; when there was none, nothing changes. Afterwards no byte is
    /// held back: a byte that was handed back is delivered exactly once
    /// more.
    pub fn load_char(&mut self) -> (loaded: bool)
        requires
            old(self).sound(),
        ensures
            loaded == (old(self)@.len() > 0),
            loaded ==> final(self).loaded() && final(self).current() == old(self)@[0]
                && final(self)@ == old(self)@.drop_first(),
            !loaded ==> *final(self) == *old(self),
            !final(self).held_back(),
            old(self).held_back() ==> loaded && final(self).current() == old(self).current(),
            final(self).sound(),
            final(self).lexeme() == old(self).lexeme(),
    {
        if self.reserve {
            self.unreserve_char();
            proof {
                assert(self@ =~= old(self)@.drop_first());
            }
            return true;
        }
        if self.pos < self.source.len() {
            self.buffer = self.source[self.pos];
            self.pos = self.pos + 1;
            proof {
                assert(self@ =~= old(self)@.drop_first());
            }
            true
        } else {
            false
        }
    }

    /// The current byte, as a character.
    fn get_char(&self) -> (c: char)
        ensures
            c == self.buffer as char,
    {
        self.buffer as char
    }

    /// Hands the current byte back: the next read delivers it again.
    fn reserve_char(&mut self)
        ensures
            final(self).reserve,
            final(self).source == old(self).source,
            final(self).pos == old(self).pos,
            final(self).buffer == old(self).buffer,
            final(self).id == old(self).id,
    {
        self.reserve = true;
    }

    /// Takes up the byte that was handed back.
    fn unreserve_char(&mut self)
        ensures
            !final(self).reserve,
            final(self).source == old(self).source,
            final(self).pos == old(self).pos,
            final(self).buffer == old(self).buffer,
            final(self).id == old(self).id,
    {
        self.reserve = false;
    }
}

} // verus!
