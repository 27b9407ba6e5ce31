//! Tokens of the reaction notation and where they stand in the source.
use vstd::prelude::*;

verus! {

/// The kinds of token, with the text of those that carry some.
#[derive(Debug)]
pub enum Type {
    Comment(String),
    Plus,
    Underscore,
    LParen,
    RParen,
    LBracket,
    RBracket,
    LBrace,
    RBrace,
    LAngle,
    RAngle,
    Colon,
    Arrow,
    Comma,
    Number(String),
    String(String),
    Light,
    Heat,
    Element(String),
}

/// A token and its location.
#[derive(Debug)]
pub struct Token {
    pub token: Type,
    pub loc: Location,
}

/// Where a token starts and ends.
#[derive(Debug)]
pub struct Location {
    pub start: Indexes,
    pub end: Indexes,
}

/// A position: character index, line and column.
#[derive(Debug)]
pub struct Indexes(pub usize, pub usize, pub usize);

} // verus!
