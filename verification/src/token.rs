//! Tokens: what the lexer hands to the parser.

use vstd::prelude::*;
use crate::source::{Position, Span};

verus! {

/// The reserved words of the script language.
#[derive(Clone, Copy, Debug, PartialEq, Eq, Structural)]
pub enum Keyword {
    Juliet,
    Policy,
    Rubric,
    Criterion,
    Points,
    Means,
    Tiebreakers,
    Cadence,
    Variants,
    Sprints,
    Compare,
    Using,
    Keep,
    Best,
    Create,
    From,
    SourceFiles,
    With,
    Extend,
    Halt,
}

/// The punctuation marks of the script language.
#[derive(Clone, Copy, Debug, PartialEq, Eq, Structural)]
pub enum Punct {
    OpenBrace,
    CloseBrace,
    OpenBracket,
    CloseBracket,
    OpenParen,
    CloseParen,
    Equals,
    Semicolon,
    Comma,
    Dot,
}

/// The kinds of token.
#[derive(Clone, Copy, Debug, PartialEq, Eq, Structural)]
pub enum TokenKind {
    /// A bare identifier: a name or a value.
    Identifier,
    /// A reserved word.
    Keyword(Keyword),
    /// A number literal: digits, possibly signed or with a fraction.
    Number,
    /// A double-quoted string on one line.
    Text,
    /// A triple-quoted block string.
    Block,
    Punct(Punct),
    /// A character that starts no token. The lexer reports it; the engine
    /// leaves it out of what the parser reads.
    Unknown,
    /// The end of the input.
    End,
}

/// One token. `text` selects the characters that carry its meaning: the
/// word or number itself, or the body of a string without its quotes.
/// `start` and `end` delimit the whole lexeme, quotes included.
#[derive(Clone, Copy, Debug)]
pub struct Token {
    pub kind: TokenKind,
    pub text: Span,
    pub start: Position,
    pub end: Position,
}

impl Keyword {
    /// Whether a declaration starts with this keyword.
    pub open spec fn starts_declaration(self) -> bool {
        self == Keyword::Juliet || self == Keyword::Policy || self == Keyword::Rubric
            || self == Keyword::Cadence || self == Keyword::Create || self == Keyword::Extend
            || self == Keyword::Halt
    }

    /// Whether a declaration starts with this keyword.
    pub fn is_declaration_start(&self) -> (r: bool)
        ensures
            r == self.starts_declaration(),
    {
        match self {
            Keyword::Juliet
            | Keyword::Policy
            | Keyword::Rubric
            | Keyword::Cadence
            | Keyword::Create
            | Keyword::Extend
            | Keyword::Halt => true,
            _ => false,
        }
    }
}

impl TokenKind {
    /// A string of either form.
    pub open spec fn is_string(self) -> bool {
        self == TokenKind::Text || self == TokenKind::Block
    }

    /// An identifier or a reserved word: what may stand as the key of an option.
    pub open spec fn is_word(self) -> bool {
        self == TokenKind::Identifier || self is Keyword
    }

    /// What may stand as the value of an option.
    pub open spec fn is_value(self) -> bool {
        self == TokenKind::Identifier || self == TokenKind::Number || self.is_string()
    }

    /// An opening bracket of any shape.
    pub open spec fn is_opener(self) -> bool {
        self == TokenKind::Punct(Punct::OpenBrace) || self == TokenKind::Punct(Punct::OpenBracket)
            || self == TokenKind::Punct(Punct::OpenParen)
    }

    /// A closing bracket of any shape.
    pub open spec fn is_closer(self) -> bool {
        self == TokenKind::Punct(Punct::CloseBrace) || self == TokenKind::Punct(
            Punct::CloseBracket,
        ) || self == TokenKind::Punct(Punct::CloseParen)
    }

    /// Whether the kind is a string of either form.
    pub fn check_string(&self) -> (r: bool)
        ensures
            r == self.is_string(),
    {
        match self {
            TokenKind::Text | TokenKind::Block => true,
            _ => false,
        }
    }

    /// Whether the kind is an identifier or a reserved word.
    pub fn check_word(&self) -> (r: bool)
        ensures
            r == self.is_word(),
    {
        match self {
            TokenKind::Identifier | TokenKind::Keyword(_) => true,
            _ => false,
        }
    }

    /// Whether a token of this kind may stand as the value of an option.
    pub fn check_value(&self) -> (r: bool)
        ensures
            r == self.is_value(),
    {
        match self {
            TokenKind::Identifier | TokenKind::Number | TokenKind::Text | TokenKind::Block => true,
            _ => false,
        }
    }

    /// Whether the kind is an opening bracket.
    pub fn check_opener(&self) -> (r: bool)
        ensures
            r == self.is_opener(),
    {
        match self {
            TokenKind::Punct(Punct::OpenBrace)
            | TokenKind::Punct(Punct::OpenBracket)
            | TokenKind::Punct(Punct::OpenParen) => true,
            _ => false,
        }
    }

    /// Whether the kind is a closing bracket.
    pub fn check_closer(&self) -> (r: bool)
        ensures
            r == self.is_closer(),
    {
        match self {
            TokenKind::Punct(Punct::CloseBrace)
            | TokenKind::Punct(Punct::CloseBracket)
            | TokenKind::Punct(Punct::CloseParen) => true,
            _ => false,
        }
    }
}

} // verus!
