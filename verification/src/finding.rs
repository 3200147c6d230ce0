//! What the engine reports: the rules it applies, the findings of each
//! stage, and the diagnostics handed to the caller.

use vstd::prelude::*;
use vstd::string::*;
use crate::source::{Position, Span};

verus! {

/// The four kinds of named declaration; names of different kinds never clash.
#[derive(Clone, Copy, Debug, PartialEq, Eq, Structural)]
pub enum Namespace {
    Policy,
    Rubric,
    Cadence,
    Artifact,
}

/// Something the parser looked for and did not find.
#[derive(Clone, Copy, Debug, PartialEq, Eq, Structural)]
pub enum Want {
    Name,
    Equals,
    Semicolon,
    Text,
    Integer,
    Value,
    OpenBrace,
    OpenBracket,
    CloseBracket,
    Dot,
    From,
    Origin,
    Points,
    Using,
    Best,
    With,
    Entry,
}

/// The construct in which a rule was applied.
#[derive(Clone, Copy, Debug, PartialEq, Eq, Structural)]
pub enum Scope {
    Runtime,
    Policy,
    Rubric,
    Cadence,
    Create,
    Extend,
    Halt,
    Setting,
    Criterion,
    Tiebreakers,
    Compare,
    Keep,
    SourceFiles,
    Using,
    Attachments,
}

/// The numeric fields of a script.
#[derive(Clone, Copy, Debug, PartialEq, Eq, Structural)]
pub enum Quantity {
    Points,
    Variants,
    Sprints,
    Keep,
}

/// Every rule the engine can find broken.
#[derive(Clone, Copy, Debug, PartialEq, Eq, Structural)]
pub enum Rule {
    /// A double-quoted string runs to the end of its line.
    UnterminatedString,
    /// A triple-quoted string runs to the end of the input.
    UnterminatedBlock,
    /// A character that starts no token.
    UnexpectedCharacter,
    /// A required token is missing.
    Expected(Want, Scope),
    /// A token that starts no declaration stands where one should start.
    ExpectedDeclaration,
    /// A bracket without its partner: a closing bracket that nothing
    /// opened, or the opening bracket of a block or of a list that nothing
    /// closes.
    Unmatched,
    /// The input ends inside a statement.
    UnexpectedEnd,
    /// A name is used before any declaration of it.
    Undeclared(Namespace),
    /// A name is declared a second time.
    Redeclared(Namespace),
    /// A second block of runtime defaults.
    RuntimeRedeclared,
    /// `extend` names a property outside the supported set.
    UnsupportedProperty,
    /// A tiebreaker that matches no earlier criterion of its rubric.
    UnknownTiebreaker,
    /// An option whose name the enclosing construct does not know.
    UnknownOption(Scope),
    /// A numeric field outside its range.
    InvalidCount(Quantity),
    /// A seed artifact without source files.
    EmptySourceFiles,
    /// A generated artifact with an empty prompt.
    EmptyPrompt,
    /// A rubric without a criterion.
    MissingCriterion,
    /// A cadence without a `compare using` clause.
    MissingCompare,
    /// A cadence without a `keep best` clause.
    MissingKeep,
}

/// How serious a diagnostic is.
#[derive(Clone, Copy, Debug, PartialEq, Eq, Structural)]
pub enum Severity {
    Error,
    Warning,
}

/// Where a diagnostic applies: from `start`, up to `end` where one is known.
#[derive(Clone, Copy, Debug)]
pub struct Range {
    pub start: Position,
    pub end: Option<Position>,
}

/// A broken rule at a place in the source. `subject` selects the source
/// characters that the message quotes; it is empty where the message quotes
/// nothing.
#[derive(Clone, Copy, Debug)]
pub struct Finding {
    pub rule: Rule,
    pub subject: Span,
    pub range: Range,
}

/// A finding made readable: what the caller of the engine receives.
#[derive(Clone, Debug)]
pub struct Diagnostic {
    pub severity: Severity,
    pub message: String,
    pub range: Range,
}

/// A diagnostic as a mathematical value.
pub struct DiagnosticView {
    pub severity: Severity,
    pub message: Seq<char>,
    pub range: Range,
}

impl View for Diagnostic {
    type V = DiagnosticView;

    open spec fn view(&self) -> DiagnosticView {
        DiagnosticView { severity: self.severity, message: self.message@, range: self.range }
    }
}

impl Namespace {
    /// The words that stand for this value in a message.
    pub open spec fn label(self) -> Seq<char> {
        match self {
            Namespace::Policy => "policy"@,
            Namespace::Rubric => "rubric"@,
            Namespace::Cadence => "cadence"@,
            Namespace::Artifact => "artifact"@,
        }
    }

    /// The words that stand for this value in a message, as text.
    pub fn label_text(&self) -> (r: &'static str)
        ensures
            r@ == self.label(),
    {
        match self {
            Namespace::Policy => "policy",
            Namespace::Rubric => "rubric",
            Namespace::Cadence => "cadence",
            Namespace::Artifact => "artifact",
        }
    }
}

impl Want {
    /// The words that stand for this value in a message.
    pub open spec fn label(self) -> Seq<char> {
        match self {
            Want::Name => "a name"@,
            Want::Equals => "'='"@,
            Want::Semicolon => "';'"@,
            Want::Text => "a string"@,
            Want::Integer => "an integer"@,
            Want::Value => "a value"@,
            Want::OpenBrace => "'{'"@,
            Want::OpenBracket => "'['"@,
            Want::CloseBracket => "',' or ']'"@,
            Want::Dot => "'.'"@,
            Want::From => "'from'"@,
            Want::Origin => "'juliet' or 'julietArtifactSourceFiles'"@,
            Want::Points => "'points'"@,
            Want::Using => "'using'"@,
            Want::Best => "'best'"@,
            Want::With => "'with'"@,
            Want::Entry => "an entry or '}'"@,
        }
    }

    /// The words that stand for this value in a message, as text.
    pub fn label_text(&self) -> (r: &'static str)
        ensures
            r@ == self.label(),
    {
        match self {
            Want::Name => "a name",
            Want::Equals => "'='",
            Want::Semicolon => "';'",
            Want::Text => "a string",
            Want::Integer => "an integer",
            Want::Value => "a value",
            Want::OpenBrace => "'{'",
            Want::OpenBracket => "'['",
            Want::CloseBracket => "',' or ']'",
            Want::Dot => "'.'",
            Want::From => "'from'",
            Want::Origin => "'juliet' or 'julietArtifactSourceFiles'",
            Want::Points => "'points'",
            Want::Using => "'using'",
            Want::Best => "'best'",
            Want::With => "'with'",
            Want::Entry => "an entry or '}'",
        }
    }

    /// The word that joins what was expected to where: a terminator is
    /// expected after a construct, anything else in it.
    pub open spec fn joint(self) -> Seq<char> {
        if self == Want::Semicolon {
            " after "@
        } else {
            " in "@
        }
    }

    /// The joining word as text.
    pub fn joint_text(&self) -> (r: &'static str)
        ensures
            r@ == self.joint(),
    {
        match self {
            Want::Semicolon => " after ",
            _ => " in ",
        }
    }
}

impl Scope {
    /// The words that stand for this value in a message.
    pub open spec fn label(self) -> Seq<char> {
        match self {
            Scope::Runtime => "runtime block"@,
            Scope::Policy => "policy declaration"@,
            Scope::Rubric => "rubric declaration"@,
            Scope::Cadence => "cadence declaration"@,
            Scope::Create => "create declaration"@,
            Scope::Extend => "extend declaration"@,
            Scope::Halt => "halt statement"@,
            Scope::Setting => "option"@,
            Scope::Criterion => "criterion"@,
            Scope::Tiebreakers => "tiebreakers list"@,
            Scope::Compare => "compare clause"@,
            Scope::Keep => "keep clause"@,
            Scope::SourceFiles => "source file list"@,
            Scope::Using => "using list"@,
            Scope::Attachments => "with block"@,
        }
    }

    /// The words that stand for this value in a message, as text.
    pub fn label_text(&self) -> (r: &'static str)
        ensures
            r@ == self.label(),
    {
        match self {
            Scope::Runtime => "runtime block",
            Scope::Policy => "policy declaration",
            Scope::Rubric => "rubric declaration",
            Scope::Cadence => "cadence declaration",
            Scope::Create => "create declaration",
            Scope::Extend => "extend declaration",
            Scope::Halt => "halt statement",
            Scope::Setting => "option",
            Scope::Criterion => "criterion",
            Scope::Tiebreakers => "tiebreakers list",
            Scope::Compare => "compare clause",
            Scope::Keep => "keep clause",
            Scope::SourceFiles => "source file list",
            Scope::Using => "using list",
            Scope::Attachments => "with block",
        }
    }
}

impl Quantity {
    /// The words that stand for this value in a message.
    pub open spec fn label(self) -> Seq<char> {
        match self {
            Quantity::Points => "points"@,
            Quantity::Variants => "variants"@,
            Quantity::Sprints => "sprints"@,
            Quantity::Keep => "keep best"@,
        }
    }

    /// The words that stand for this value in a message, as text.
    pub fn label_text(&self) -> (r: &'static str)
        ensures
            r@ == self.label(),
    {
        match self {
            Quantity::Points => "points",
            Quantity::Variants => "variants",
            Quantity::Sprints => "sprints",
            Quantity::Keep => "keep best",
        }
    }

    /// Whether zero is outside the range of this field.
    pub open spec fn positive(self) -> bool {
        self == Quantity::Variants || self == Quantity::Sprints
    }

    /// Whether zero is outside the range of this field.
    pub fn is_positive(&self) -> (r: bool)
        ensures
            r == self.positive(),
    {
        match self {
            Quantity::Variants | Quantity::Sprints => true,
            _ => false,
        }
    }

    /// What the message says of the range of this field.
    pub open spec fn range_label(self) -> Seq<char> {
        if self.positive() {
            " must be a positive integer"@
        } else {
            " must be a non-negative integer"@
        }
    }

    /// What the message says of the range of this field, as text.
    pub fn range_text(&self) -> (r: &'static str)
        ensures
            r@ == self.range_label(),
    {
        if self.is_positive() {
            " must be a positive integer"
        } else {
            " must be a non-negative integer"
        }
    }
}

impl Rule {
    /// How serious a breach of this rule is.
    pub open spec fn severity(self) -> Severity {
        Severity::Error
    }

    /// How serious a breach of this rule is.
    pub fn severity_of(&self) -> (r: Severity)
        ensures
            r == self.severity(),
    {
        Severity::Error
    }
}

/// The text of the message for a broken rule, where `subject` is the source
/// text that the finding quotes.
pub open spec fn message_of(rule: Rule, subject: Seq<char>) -> Seq<char> {
    match rule {
        Rule::UnterminatedString => "Unterminated string literal."@,
        Rule::UnterminatedBlock => "Unterminated block string."@,
        Rule::UnexpectedCharacter => "Unexpected character '"@ + subject + "'."@,
        Rule::Expected(want, scope) => "Expected "@ + want.label() + want.joint() + scope.label()
            + "."@,
        Rule::ExpectedDeclaration => "Expected a declaration."@,
        Rule::Unmatched => "Unmatched '"@ + subject + "'."@,
        Rule::UnexpectedEnd => "Unexpected end of input."@,
        Rule::Undeclared(space) => "reference to undeclared "@ + space.label() + " '"@ + subject
            + "'"@,
        Rule::Redeclared(space) => space.label() + " '"@ + subject + "' already declared"@,
        Rule::RuntimeRedeclared => "runtime defaults already declared"@,
        Rule::UnsupportedProperty => "unsupported extend property '"@ + subject
            + "'; supported properties: rubric"@,
        Rule::UnknownTiebreaker => "tiebreaker '"@ + subject
            + "' matches no earlier criterion of its rubric"@,
        Rule::UnknownOption(scope) => "unknown option '"@ + subject + "' in "@ + scope.label(),
        Rule::InvalidCount(quantity) => quantity.label() + quantity.range_label(),
        Rule::EmptySourceFiles => "julietArtifactSourceFiles must list at least one file"@,
        Rule::EmptyPrompt => "prompt must not be empty"@,
        Rule::MissingCriterion => "rubric '"@ + subject + "' must declare at least one criterion"@,
        Rule::MissingCompare => "cadence '"@ + subject + "' must declare 'compare using'"@,
        Rule::MissingKeep => "cadence '"@ + subject + "' must declare 'keep best'"@,
    }
}

/// Writes the message for a broken rule.
pub fn message_text(rule: Rule, subject: &str) -> (r: String)
    ensures
        r@ == message_of(rule, subject@),
{
    match rule {
        Rule::UnterminatedString => String::from_str("Unterminated string literal."),
        Rule::UnterminatedBlock => String::from_str("Unterminated block string."),
        Rule::UnexpectedCharacter => {
            let mut s = String::from_str("Unexpected character '");
            s.append(subject);
            s.append("'.");
            s
        },
        Rule::Expected(want, scope) => {
            let mut s = String::from_str("Expected ");
            s.append(want.label_text());
            s.append(want.joint_text());
            s.append(scope.label_text());
            s.append(".");
            s
        },
        Rule::ExpectedDeclaration => String::from_str("Expected a declaration."),
        Rule::Unmatched => {
            let mut s = String::from_str("Unmatched '");
            s.append(subject);
            s.append("'.");
            s
        },
        Rule::UnexpectedEnd => String::from_str("Unexpected end of input."),
        Rule::Undeclared(space) => {
            let mut s = String::from_str("reference to undeclared ");
            s.append(space.label_text());
            s.append(" '");
            s.append(subject);
            s.append("'");
            s
        },
        Rule::Redeclared(space) => {
            let mut s = String::from_str(space.label_text());
            s.append(" '");
            s.append(subject);
            s.append("' already declared");
            s
        },
        Rule::RuntimeRedeclared => String::from_str("runtime defaults already declared"),
        Rule::UnsupportedProperty => {
            let mut s = String::from_str("unsupported extend property '");
            s.append(subject);
            s.append("'; supported properties: rubric");
            s
        },
        Rule::UnknownTiebreaker => {
            let mut s = String::from_str("tiebreaker '");
            s.append(subject);
            s.append("' matches no earlier criterion of its rubric");
            s
        },
        Rule::UnknownOption(scope) => {
            let mut s = String::from_str("unknown option '");
            s.append(subject);
            s.append("' in ");
            s.append(scope.label_text());
            s
        },
        Rule::InvalidCount(quantity) => {
            let mut s = String::from_str(quantity.label_text());
            s.append(quantity.range_text());
            s
        },
        Rule::EmptySourceFiles => String::from_str(
            "julietArtifactSourceFiles must list at least one file",
        ),
        Rule::EmptyPrompt => String::from_str("prompt must not be empty"),
        Rule::MissingCriterion => {
            let mut s = String::from_str("rubric '");
            s.append(subject);
            s.append("' must declare at least one criterion");
            s
        },
        Rule::MissingCompare => {
            let mut s = String::from_str("cadence '");
            s.append(subject);
            s.append("' must declare 'compare using'");
            s
        },
        Rule::MissingKeep => {
            let mut s = String::from_str("cadence '");
            s.append(subject);
            s.append("' must declare 'keep best'");
            s
        },
    }
}

} // verus!
