//! A lint engine for JulietScript: a lexer, a recovering recursive-descent
//! parser and a semantic validator that turn script text into an ordered
//! list of positioned diagnostics, together with the reporting rules a
//! command-line host needs.

pub mod source;
pub mod token;
pub mod finding;
pub mod lexer;
pub mod syntax;
pub mod parser;
pub mod resolver;
pub mod order;
pub mod collector;
pub mod grammar;
pub mod report;
pub mod example;

pub use collector::lint;
pub use finding::{Diagnostic, Range, Severity};
pub use source::Position;
