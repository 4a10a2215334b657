//! The states of the scanning machine.

use vstd::prelude::*;
use crate::tokens::{Token, TokenView};

verus! {

/// Where the machine stands between two bytes of input.
#[derive(Debug, PartialEq, Eq)]
pub enum State {
    /// Between lexemes.
    Start,
    /// Inside a name or keyword.
    InID,
    /// Inside a run of digits.
    InNum,
    /// After `/`.
    InSlash,
    /// Inside a block comment.
    InComment,
    /// Inside a block comment, after `*`.
    InStar,
    /// After `=`.
    InEqual,
    /// After `<`.
    InLess,
    /// After `>`.
    InGreat,
    /// After `!`.
    InNot,
    /// A lexeme is complete; the machine stops with its token.
    Done(Token),
}

/// The mathematical value of a [`State`].
pub enum StateView {
    Start,
    InID,
    InNum,
    InSlash,
    InComment,
    InStar,
    InEqual,
    InLess,
    InGreat,
    InNot,
    Done(TokenView),
}

impl View for State {
    type V = StateView;

    open spec fn view(&self) -> StateView {
        match *self {
            State::Start => StateView::Start,
            State::InID => StateView::InID,
            State::InNum => StateView::InNum,
            State::InSlash => StateView::InSlash,
            State::InComment => StateView::InComment,
            State::InStar => StateView::InStar,
            State::InEqual => StateView::InEqual,
            State::InLess => StateView::InLess,
            State::InGreat => StateView::InGreat,
            State::InNot => StateView::InNot,
            State::Done(token) => StateView::Done(token@),
        }
    }
}

} // verus!
