//! A lexical scanner for a small C-like language: six keywords, arithmetic,
//! relational and assignment operators, punctuation, identifiers, unsigned
//! integer literals and block comments.
//!
//! The scanner is a finite-state machine with one byte of pushback. Its
//! behaviour is stated over a mathematical model of the machine (see
//! [`machine`]) and the executable scanner (see [`scan`]) is proved to follow
//! that model exactly.

pub mod text;
pub mod decimal;
pub mod tokens;
pub mod state;
pub mod machine;
pub mod scan;
pub mod laws;
