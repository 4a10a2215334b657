//! The lexical categories of the language and how each is printed.

use vstd::prelude::*;
use crate::decimal::{decimal_text, render_decimal};

verus! {

/// A token: one completed lexeme of the source text.
#[allow(non_camel_case_types)]
#[derive(Debug, PartialEq, Eq)]
pub enum Token {
    INT,
    WHILE,
    IF,
    ELSE,
    RETURN,
    VOID,
    PLUS,
    MINUS,
    MULTIPLY,
    DIVIDE,
    LESS_THAN,
    LT_EQ,
    GREATER_THAN,
    GT_EQ,
    EQUAL,
    NOT_EQ,
    ASSIGN,
    SEMICOLON,
    COMMA,
    R_PAREN,
    L_PAREN,
    R_BRACK,
    L_BRACK,
    R_BRACE,
    L_BRACE,
    /// A name: a letter followed by letters and digits, and not a keyword.
    IDENTIFIER(String),
    /// The value of a run of decimal digits.
    NUMBER(u32),
    /// A lexeme that is no token of the language, with a fixed diagnostic.
    ERROR(&'static str),
}

/// The mathematical value of a [`Token`]: the same categories, with text held
/// as a sequence of characters.
#[allow(non_camel_case_types)]
pub enum TokenView {
    INT,
    WHILE,
    IF,
    ELSE,
    RETURN,
    VOID,
    PLUS,
    MINUS,
    MULTIPLY,
    DIVIDE,
    LESS_THAN,
    LT_EQ,
    GREATER_THAN,
    GT_EQ,
    EQUAL,
    NOT_EQ,
    ASSIGN,
    SEMICOLON,
    COMMA,
    R_PAREN,
    L_PAREN,
    R_BRACK,
    L_BRACK,
    R_BRACE,
    L_BRACE,
    IDENTIFIER(Seq<char>),
    NUMBER(u32),
    ERROR(Seq<char>),
}

impl View for Token {
    type V = TokenView;

    open spec fn view(&self) -> TokenView {
        match *self {
            Token::INT => TokenView::INT,
            Token::WHILE => TokenView::WHILE,
            Token::IF => TokenView::IF,
            Token::ELSE => TokenView::ELSE,
            Token::RETURN => TokenView::RETURN,
            Token::VOID => TokenView::VOID,
            Token::PLUS => TokenView::PLUS,
            Token::MINUS => TokenView::MINUS,
            Token::MULTIPLY => TokenView::MULTIPLY,
            Token::DIVIDE => TokenView::DIVIDE,
            Token::LESS_THAN => TokenView::LESS_THAN,
            Token::LT_EQ => TokenView::LT_EQ,
            Token::GREATER_THAN => TokenView::GREATER_THAN,
            Token::GT_EQ => TokenView::GT_EQ,
            Token::EQUAL => TokenView::EQUAL,
            Token::NOT_EQ => TokenView::NOT_EQ,
            Token::ASSIGN => TokenView::ASSIGN,
            Token::SEMICOLON => TokenView::SEMICOLON,
            Token::COMMA => TokenView::COMMA,
            Token::R_PAREN => TokenView::R_PAREN,
            Token::L_PAREN => TokenView::L_PAREN,
            Token::R_BRACK => TokenView::R_BRACK,
            Token::L_BRACK => TokenView::L_BRACK,
            Token::R_BRACE => TokenView::R_BRACE,
            Token::L_BRACE => TokenView::L_BRACE,
            Token::IDENTIFIER(text) => TokenView::IDENTIFIER(text@),
            Token::NUMBER(value) => TokenView::NUMBER(value),
            Token::ERROR(message) => TokenView::ERROR(message@),
        }
    }
}

/// The mathematical values of a sequence of tokens, in the same order.
pub open spec fn views_of(tokens: Seq<Token>) -> Seq<TokenView> {
    tokens.map_values(|token: Token| token@)
}

impl TokenView {
    /// The printed form of a token. Keywords and operators print as words,
    /// punctuation as its own glyph, an identifier as its name, a number in
    /// decimal notation and an error as its message.
    pub open spec fn rendering(self) -> Seq<char> {
        match self {
            TokenView::INT => "int"@,
            TokenView::WHILE => "while"@,
            TokenView::IF => "if"@,
            TokenView::ELSE => "else"@,
            TokenView::RETURN => "return"@,
            TokenView::VOID => "void"@,
            TokenView::PLUS => "plus"@,
            TokenView::MINUS => "minus"@,
            TokenView::MULTIPLY => "multiply"@,
            TokenView::DIVIDE => "divide"@,
            TokenView::LESS_THAN => "less than"@,
            TokenView::LT_EQ => "less than or equal to"@,
            TokenView::GREATER_THAN => "greater than"@,
            TokenView::GT_EQ => "greater than or equal to"@,
            TokenView::EQUAL => "equal"@,
            TokenView::NOT_EQ => "not equal"@,
            TokenView::ASSIGN => "assign"@,
            TokenView::SEMICOLON => ";"@,
            TokenView::COMMA => ","@,
            TokenView::R_PAREN => ")"@,
            TokenView::L_PAREN => "("@,
            TokenView::R_BRACK => "]"@,
            TokenView::L_BRACK => "["@,
            TokenView::R_BRACE => "}"@,
            TokenView::L_BRACE => "{"@,
            TokenView::IDENTIFIER(text) => text,
            TokenView::NUMBER(value) => decimal_text(value as nat),
            TokenView::ERROR(message) => message,
        }
    }
}

impl Token {
    /// The printed form of the token.
    pub fn to_string(&self) -> (text: String)
        ensures
            text@ == self@.rendering(),
    {
        match self {
            Token::INT => "int".to_owned(),
            Token::WHILE => "while".to_owned(),
            Token::IF => "if".to_owned(),
            Token::ELSE => "else".to_owned(),
            Token::RETURN => "return".to_owned(),
            Token::VOID => "void".to_owned(),
            Token::PLUS => "plus".to_owned(),
            Token::MINUS => "minus".to_owned(),
            Token::MULTIPLY => "multiply".to_owned(),
            Token::DIVIDE => "divide".to_owned(),
            Token::LESS_THAN => "less than".to_owned(),
            Token::LT_EQ => "less than or equal to".to_owned(),
            Token::GREATER_THAN => "greater than".to_owned(),
            Token::GT_EQ => "greater than or equal to".to_owned(),
            Token::EQUAL => "equal".to_owned(),
            Token::NOT_EQ => "not equal".to_owned(),
            Token::ASSIGN => "assign".to_owned(),
            Token::SEMICOLON => ";".to_owned(),
            Token::COMMA => ",".to_owned(),
            Token::R_PAREN => ")".to_owned(),
            Token::L_PAREN => "(".to_owned(),
            Token::R_BRACK => "]".to_owned(),
            Token::L_BRACK => "[".to_owned(),
            Token::R_BRACE => "}".to_owned(),
            Token::L_BRACE => "{".to_owned(),
            Token::IDENTIFIER(text) => text.clone(),
            Token::NUMBER(value) => render_decimal(*value),
            Token::ERROR(message) => (*message).to_owned(),
        }
    }
}

} // verus!
