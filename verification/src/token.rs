//! Tokens: the lexical units that the scanner hands to the compiler.

use vstd::prelude::*;
use vstd::slice::slice_subrange;
use vstd::string::is_ascii_spec_bytes;

verus! {

/// The kind of a token.
#[derive(Debug, Clone, Copy, PartialEq, Eq, Structural)]
pub enum TokenType {
    LeftParen,
    RightParen,
    LeftBrace,
    RightBrace,
    Comma,
    Dot,
    Minus,
    Plus,
    Semicolon,
    QuestionMark,
    Slash,
    Star,
    Bang,
    BangEqual,
    Equal,
    EqualEqual,
    Greater,
    GreaterEqual,
    Less,
    LessEqual,
    Identifier,
    String,
    Number,
    And,
    Class,
    Else,
    False,
    For,
    Fun,
    If,
    Nil,
    Or,
    Print,
    Return,
    Super,
    This,
    True,
    Var,
    While,
    Error,
    Eof,
}

/// What went wrong where the scanner could not form a token.
#[derive(Debug, Clone, Copy, PartialEq, Eq, Structural)]
pub enum ScanError {
    /// A byte that starts no token.
    UnexpectedCharacter,
    /// A string literal whose closing quote is missing.
    UnterminatedString,
}

impl ScanError {
    /// The diagnostic text of this error.
    pub open spec fn text(self) -> Seq<char> {
        match self {
            ScanError::UnexpectedCharacter => "Unexpected character."@,
            ScanError::UnterminatedString => "Unterminated string."@,
        }
    }

    /// The fixed diagnostic message that an error token carries.
    pub fn message(&self) -> (message: &'static str)
        ensures
            message@ == self.text(),
    {
        match self {
            ScanError::UnexpectedCharacter => "Unexpected character.",
            ScanError::UnterminatedString => "Unterminated string.",
        }
    }
}

/// The bytes of a text of ASCII characters.
pub open spec fn ascii(text: Seq<char>) -> Seq<u8> {
    Seq::new(text.len(), |i: int| text[i] as u8)
}

/// Where a token's text lives: tokens borrow, they never copy.
#[derive(Debug, Clone, Copy, PartialEq, Eq, Structural)]
pub enum Lexeme {
    /// `length` bytes of the source, from offset `start`.
    Source { start: usize, length: usize },
    /// The diagnostic message of an error token.
    Message(ScanError),
}

/// A classified lexical unit with its text and the line it ends on.
#[derive(Debug, Clone, Copy, PartialEq, Eq, Structural)]
pub struct Token {
    pub ttype: TokenType,
    pub lexeme: Lexeme,
    pub line: usize,
}

impl Token {
    /// An error token carries a message; every other token a span of the source.
    pub open spec fn wf(self) -> bool {
        self.ttype == TokenType::Error <==> self.lexeme is Message
    }

    /// Whether the token's span lies inside a source of `len` bytes.
    pub open spec fn fits(self, len: nat) -> bool {
        self.lexeme matches Lexeme::Source { start, length } ==> start + length <= len
    }

    /// The text of the token: its span of `source`, or its message.
    pub open spec fn text_in(self, source: Seq<u8>) -> Seq<u8> {
        match self.lexeme {
            Lexeme::Source { start, length } => source.subrange(start as int, start + length),
            Lexeme::Message(error) => ascii(error.text()),
        }
    }

    /// The text of the token, borrowed from `source` or from the message
    /// of its error. `source` is the source that the token was scanned from.
    pub fn text<'a>(&self, source: &'a [u8]) -> (bytes: &'a [u8])
        requires
            self.fits(source@.len()),
        ensures
            bytes@ == self.text_in(source@),
    {
        match self.lexeme {
            Lexeme::Source { start, length } => {
                let len = source.len();
                slice_subrange(source, start, start + length)
            },
            Lexeme::Message(error) => {
                let message = error.message();
                proof {
                    reveal_strlit("Unexpected character.");
                    reveal_strlit("Unterminated string.");
                    is_ascii_spec_bytes(message);
                }
                message.as_bytes()
            },
        }
    }
}

} // verus!
