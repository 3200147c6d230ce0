//! The declarations of a script, as the parser builds them. Every part of
//! a declaration is kept as the token it was read from, so that later
//! stages can quote its text and point at its place.

use vstd::prelude::*;
use crate::token::Token;

verus! {

/// One statement inside a block.
#[derive(Clone, Copy, Debug)]
pub enum Entry {
    /// `key = value;`
    Setting { key: Token, value: Token },
    /// `criterion "label" points N;`, with `means "text"` before the
    /// semicolon where present.
    Criterion { label: Token, points: Token, means: Option<Token> },
    /// One label of a `tiebreakers [...]` list.
    Tiebreaker { label: Token },
    /// `compare using RUBRIC;`
    Compare { rubric: Token },
    /// `keep best N;`
    Keep { count: Token },
}

/// One top-level declaration.
#[derive(Debug)]
pub enum Declaration {
    /// `juliet { ... }`: the runtime defaults.
    Runtime { keyword: Token, entries: Vec<Entry> },
    /// `policy NAME = STRING;`
    Policy { name: Token, body: Token },
    /// `rubric NAME { ... }`
    Rubric { name: Token, entries: Vec<Entry> },
    /// `cadence NAME { ... }`
    Cadence { name: Token, entries: Vec<Entry> },
    /// `create NAME from ...;`. An artifact made from a prompt has
    /// `prompt`; one seeded from files has `files` and no prompt.
    Create {
        name: Token,
        prompt: Option<Token>,
        files: Vec<Token>,
        using: Vec<Token>,
        attachments: Vec<Entry>,
    },
    /// `extend NAME.PROPERTY with STRING;`
    Extend { target: Token, property: Token, guidance: Token },
    /// `halt;` or `halt STRING;`
    Halt { keyword: Token, message: Option<Token> },
}

/// A declaration as a mathematical value.
pub enum DeclarationView {
    Runtime { keyword: Token, entries: Seq<Entry> },
    Policy { name: Token, body: Token },
    Rubric { name: Token, entries: Seq<Entry> },
    Cadence { name: Token, entries: Seq<Entry> },
    Create {
        name: Token,
        prompt: Option<Token>,
        files: Seq<Token>,
        using: Seq<Token>,
        attachments: Seq<Entry>,
    },
    Extend { target: Token, property: Token, guidance: Token },
    Halt { keyword: Token, message: Option<Token> },
}

impl View for Declaration {
    type V = DeclarationView;

    open spec fn view(&self) -> DeclarationView {
        match *self {
            Declaration::Runtime { keyword, entries } => DeclarationView::Runtime {
                keyword,
                entries: entries@,
            },
            Declaration::Policy { name, body } => DeclarationView::Policy { name, body },
            Declaration::Rubric { name, entries } => DeclarationView::Rubric {
                name,
                entries: entries@,
            },
            Declaration::Cadence { name, entries } => DeclarationView::Cadence {
                name,
                entries: entries@,
            },
            Declaration::Create {
                name,
                prompt,
                files,
                using,
                attachments,
            } => DeclarationView::Create {
                name,
                prompt,
                files: files@,
                using: using@,
                attachments: attachments@,
            },
            Declaration::Extend { target, property, guidance } => DeclarationView::Extend {
                target,
                property,
                guidance,
            },
            Declaration::Halt { keyword, message } => DeclarationView::Halt { keyword, message },
        }
    }
}

/// A list of declarations as a mathematical value.
pub open spec fn views(declarations: Seq<Declaration>) -> Seq<DeclarationView> {
    declarations.map_values(|d: Declaration| d@)
}

} // verus!
