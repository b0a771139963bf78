//! Lexical tokens.

use vstd::prelude::*;

verus! {

/// The kind of a lexical token.
#[derive(Clone, Copy, Debug, PartialEq, Eq, Structural)]
pub enum TokenType {
    LeftParen,
    RightParen,
    LeftBrace,
    RightBrace,
    Comma,
    Dot,
    Minus,
    Plus,
    Semicolon,
    Slash,
    Star,
    Bang,
    BangEqual,
    Equal,
    EqualEqual,
    Greater,
    GreaterEqual,
    Less,
    LessEqual,
    Identifier,
    StringLiteral,
    NumberLiteral,
    And,
    Class,
    Else,
    False,
    Fun,
    For,
    If,
    Nil,
    Or,
    Print,
    Return,
    Super,
    This,
    True,
    Var,
    While,
    Error,
    Eof,
}

/// A token: its kind; the span of source text it matched, as a character
/// offset and a character count into the source the scanner holds; the
/// 1-based source line it ended on; and, for `Error` tokens, a static
/// human-readable message (empty otherwise).
pub struct Token {
    pub token_type: TokenType,
    pub start: usize,
    pub length: usize,
    pub line: usize,
    pub message: &'static str,
}

impl Token {
    /// A token without a message.
    pub fn new(token_type: TokenType, start: usize, length: usize, line: usize) -> (t: Token)
        ensures
            t.token_type == token_type,
            t.start == start,
            t.length == length,
            t.line == line,
            t.message@ == Seq::<char>::empty(),
    {
        proof {
            reveal_strlit("");
            assert(("")@ =~= Seq::<char>::empty());
        }
        Token { token_type, start, length, line, message: "" }
    }
}

} // verus!
