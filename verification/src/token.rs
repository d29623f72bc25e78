//! Tokens: a slice of the source, its line and its lexical category.

use vstd::prelude::*;

verus! {

/// The lexical category of a token.
#[derive(Debug, Clone, Copy, PartialEq, Eq, Structural)]
pub enum TokenType {
    // Single-character tokens.
    LeftParen,
    RightParen,
    LeftBrace,
    RightBrace,
    Comma,
    Dot,
    Minus,
    Plus,
    Semicolon,
    Slash,
    Star,
    // One or two character tokens.
    Bang,
    BangEqual,
    Equal,
    EqualEqual,
    Greater,
    GreaterEqual,
    Less,
    LessEqual,
    // Literals.
    Identifier,
    String,
    Number,
    // Keywords.
    And,
    Class,
    Else,
    False,
    For,
    Fun,
    If,
    Nil,
    Or,
    Print,
    Return,
    Super,
    This,
    True,
    Var,
    While,
    /// A lexical fault; the token's text is the message.
    Error,
    /// The end of the source.
    Eof,
}

/// A token. `code` borrows the bytes of the source that the token spans,
/// or holds the message of an `Error` token.
#[derive(Debug, Clone, Copy)]
pub struct Token<'code> {
    pub code: &'code [u8],
    pub line: usize,
    pub token_type: TokenType,
}

impl<'code> Token<'code> {
    pub fn new(code: &'code [u8], line: usize, token_type: TokenType) -> (token: Token<'code>)
        ensures
            token.code@ == code@,
            token.line == line,
            token.token_type == token_type,
    {
        Token { code, line, token_type }
    }
}

} // verus!
