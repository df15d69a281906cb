use vstd::prelude::*;
use crate::location::Location;

verus! {

/// The kind of a token, with its payload.
#[derive(Debug, Clone, PartialEq)]
pub enum TokenKind {
    OpenParen,
    CloseParen,
    OpenBracket,
    CloseBracket,
    OpenCurly,
    CloseCurly,
    Comma,
    Dot,
    Colon,
    ColonColon,
    DotDot,
    Semicolon,
    Plus,
    Minus,
    Star,
    Slash,
    Percent,
    Caret,
    Bang,
    Equal,
    BangEqual,
    EqualEqual,
    Greater,
    GreaterEqual,
    Less,
    LessEqual,
    Arrow,

    If,
    Else,
    Elif,
    End,
    Then,
    While,
    Do,
    In,
    Let,
    Fun,
    And,
    Or,
    Not,
    True,
    False,
    Call,

    Identifier(String),
    String(String),
    Integer(i64),
    /// A float literal as its text, as the lexer reads it; this library does
    /// no float arithmetic, so turning it into a `Float` is left to the
    /// caller.
    FloatText(String),
    /// A float literal as its IEEE-754 binary64 bit pattern.
    Float(u64),

    Error,
    EOF,
}

/// A token and where it starts.
#[derive(Debug, Clone)]
pub struct Token {
    pub kind: TokenKind,
    pub location: Location,
}

impl Token {
    pub fn new(kind: TokenKind, location: Location) -> (r: Self)
        ensures
            r.kind == kind,
            r.location == location,
    {
        Token { kind, location }
    }
}

} // verus!
