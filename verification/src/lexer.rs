//! The lexer: from source text to tokens. Comments and white space are
//! dropped; malformed input is reported and lexing goes on.

use vstd::prelude::*;
use vstd::string::*;
use crate::source::{
    Position, Span, position_of, text_of, to_chars, advance, text_is, slice_of,
    lemma_position_bounds,
};
use crate::token::{Keyword, Punct, Token, TokenKind};
use crate::finding::{Finding, Range, Rule};

verus! {

/// White space: blank, tab, carriage return and line feed.
pub open spec fn is_space(c: char) -> bool {
    c == ' ' || c == '\t' || c == '\r' || c == '\n'
}

/// The ten decimal digits.
pub open spec fn is_digit(c: char) -> bool {
    '0' <= c <= '9'
}

/// What a word starts with: a letter or an underscore.
pub open spec fn is_word_start(c: char) -> bool {
    ('a' <= c <= 'z') || ('A' <= c <= 'Z') || c == '_'
}

/// What a word goes on with: a letter, an underscore or a digit.
pub open spec fn is_word_part(c: char) -> bool {
    is_word_start(c) || is_digit(c)
}

/// The punctuation mark that a character is, if it is one.
pub open spec fn punct_of(c: char) -> Option<Punct> {
    if c == '{' {
        Some(Punct::OpenBrace)
    } else if c == '}' {
        Some(Punct::CloseBrace)
    } else if c == '[' {
        Some(Punct::OpenBracket)
    } else if c == ']' {
        Some(Punct::CloseBracket)
    } else if c == '(' {
        Some(Punct::OpenParen)
    } else if c == ')' {
        Some(Punct::CloseParen)
    } else if c == '=' {
        Some(Punct::Equals)
    } else if c == ';' {
        Some(Punct::Semicolon)
    } else if c == ',' {
        Some(Punct::Comma)
    } else if c == '.' {
        Some(Punct::Dot)
    } else {
        None
    }
}

/// The reserved word that `word` spells, if any.
pub open spec fn keyword_of(word: Seq<char>) -> Option<Keyword> {
    if word == "juliet"@ {
        Some(Keyword::Juliet)
    } else if word == "policy"@ {
        Some(Keyword::Policy)
    } else if word == "rubric"@ {
        Some(Keyword::Rubric)
    } else if word == "criterion"@ {
        Some(Keyword::Criterion)
    } else if word == "points"@ {
        Some(Keyword::Points)
    } else if word == "means"@ {
        Some(Keyword::Means)
    } else if word == "tiebreakers"@ {
        Some(Keyword::Tiebreakers)
    } else if word == "cadence"@ {
        Some(Keyword::Cadence)
    } else if word == "variants"@ {
        Some(Keyword::Variants)
    } else if word == "sprints"@ {
        Some(Keyword::Sprints)
    } else if word == "compare"@ {
        Some(Keyword::Compare)
    } else if word == "using"@ {
        Some(Keyword::Using)
    } else if word == "keep"@ {
        Some(Keyword::Keep)
    } else if word == "best"@ {
        Some(Keyword::Best)
    } else if word == "create"@ {
        Some(Keyword::Create)
    } else if word == "from"@ {
        Some(Keyword::From)
    } else if word == "julietArtifactSourceFiles"@ {
        Some(Keyword::SourceFiles)
    } else if word == "with"@ {
        Some(Keyword::With)
    } else if word == "extend"@ {
        Some(Keyword::Extend)
    } else if word == "halt"@ {
        Some(Keyword::Halt)
    } else {
        None
    }
}

/// The kind of token that a word makes.
pub open spec fn word_kind(word: Seq<char>) -> TokenKind {
    match keyword_of(word) {
        Some(k) => TokenKind::Keyword(k),
        None => TokenKind::Identifier,
    }
}

/// Classes of characters of which a token may hold a run.
#[derive(Clone, Copy, Debug, PartialEq, Eq, Structural)]
pub enum CharClass {
    /// Letters, digits and the underscore.
    Word,
    /// Decimal digits.
    Digit,
    /// Anything but a line break.
    SameLine,
}

impl CharClass {
    /// Whether `c` belongs to the class.
    pub open spec fn holds(self, c: char) -> bool {
        match self {
            CharClass::Word => is_word_part(c),
            CharClass::Digit => is_digit(c),
            CharClass::SameLine => c != '\n',
        }
    }

    /// Whether `c` belongs to the class.
    pub fn check(&self, c: char) -> (r: bool)
        ensures
            r == self.holds(c),
    {
        match self {
            CharClass::Word => check_word_part(c),
            CharClass::Digit => check_digit(c),
            CharClass::SameLine => c != '\n',
        }
    }
}

/// How many characters from offset `i` on belong to `class` without a break.
pub open spec fn run_length(src: Seq<char>, i: int, class: CharClass) -> nat
    decreases src.len() - i,
{
    if 0 <= i < src.len() && class.holds(src[i]) {
        1 + run_length(src, i + 1, class)
    } else {
        0
    }
}

/// How many characters from offset `i` on belong to the body of a
/// double-quoted string: up to its closing quote, or to the end of the line.
/// A backslash takes the character after it along.
pub open spec fn plain_body(src: Seq<char>, i: int) -> nat
    decreases src.len() - i,
{
    if i < 0 || i >= src.len() {
        0
    } else if src[i] == '"' || src[i] == '\n' {
        0
    } else if src[i] == '\\' && i + 1 < src.len() && src[i + 1] != '\n' {
        2 + plain_body(src, i + 2)
    } else {
        1 + plain_body(src, i + 1)
    }
}

/// Whether three double quotes stand at offset `i`.
pub open spec fn triple_quote_at(src: Seq<char>, i: int) -> bool {
    0 <= i && i + 3 <= src.len() && src[i] == '"' && src[i + 1] == '"' && src[i + 2] == '"'
}

/// How many characters from offset `i` on belong to the body of a block
/// string: up to its closing triple quote, or to the end of the input.
pub open spec fn block_body(src: Seq<char>, i: int) -> nat
    decreases src.len() - i,
{
    if i < 0 || i >= src.len() || triple_quote_at(src, i) {
        0
    } else {
        1 + block_body(src, i + 1)
    }
}

/// How many characters from offset `i` on continue a number literal whose
/// first digit has been read: further digits, then a fraction if a dot and a
/// digit follow.
pub open spec fn number_tail(src: Seq<char>, i: int) -> nat {
    let whole = run_length(src, i, CharClass::Digit);
    let dot = i + whole;
    if 0 <= dot && dot + 1 < src.len() && src[dot] == '.' && is_digit(src[dot + 1]) {
        whole + 1 + run_length(src, dot + 1, CharClass::Digit)
    } else {
        whole
    }
}

/// A run ends inside the source.
pub proof fn lemma_run_bound(src: Seq<char>, i: int, class: CharClass)
    requires
        0 <= i <= src.len(),
    ensures
        i + run_length(src, i, class) <= src.len(),
    decreases src.len() - i,
{
    if i < src.len() && class.holds(src[i]) {
        lemma_run_bound(src, i + 1, class);
    }
}

proof fn lemma_plain_bound(src: Seq<char>, i: int)
    requires
        0 <= i <= src.len(),
    ensures
        i + plain_body(src, i) <= src.len(),
    decreases src.len() - i,
{
    if i >= src.len() {
    } else if src[i] == '"' || src[i] == '\n' {
    } else if src[i] == '\\' && i + 1 < src.len() && src[i + 1] != '\n' {
        lemma_plain_bound(src, i + 2);
    } else {
        lemma_plain_bound(src, i + 1);
    }
}

proof fn lemma_block_bound(src: Seq<char>, i: int)
    requires
        0 <= i <= src.len(),
    ensures
        i + block_body(src, i) <= src.len(),
        i + block_body(src, i) < src.len() ==> triple_quote_at(src, i + block_body(src, i)),
    decreases src.len() - i,
{
    if i >= src.len() || triple_quote_at(src, i) {
    } else {
        lemma_block_bound(src, i + 1);
    }
}

proof fn lemma_number_bound(src: Seq<char>, i: int)
    requires
        0 <= i <= src.len(),
    ensures
        i + number_tail(src, i) <= src.len(),
{
    lemma_run_bound(src, i, CharClass::Digit);
    let dot = i + run_length(src, i, CharClass::Digit);
    if dot + 1 < src.len() {
        lemma_run_bound(src, dot + 1, CharClass::Digit);
    }
}

/// The token that starts at one offset of the source, with what there is
/// to report about it.
pub struct Lexeme {
    pub kind: TokenKind,
    /// Where the meaningful text begins and ends.
    pub from: int,
    pub to: int,
    /// How many characters the lexeme has after its first.
    pub extra: nat,
    /// The rule that the lexeme breaks, if any.
    pub rule: Option<Rule>,
}

/// The lexeme that starts at offset `i`, which holds neither white space nor
/// the start of a comment.
pub open spec fn lexeme_at(src: Seq<char>, i: int) -> Lexeme
    recommends
        0 <= i < src.len(),
{
    let c = src[i];
    if is_word_start(c) {
        let extra = run_length(src, i + 1, CharClass::Word);
        Lexeme {
            kind: word_kind(src.subrange(i, i + 1 + extra)),
            from: i,
            to: i + 1 + extra,
            extra,
            rule: None,
        }
    } else if is_digit(c) {
        let extra = number_tail(src, i + 1);
        Lexeme { kind: TokenKind::Number, from: i, to: i + 1 + extra, extra, rule: None }
    } else if c == '-' && i + 1 < src.len() && is_digit(src[i + 1]) {
        let extra = 1 + number_tail(src, i + 2);
        Lexeme { kind: TokenKind::Number, from: i, to: i + 1 + extra, extra, rule: None }
    } else if triple_quote_at(src, i) {
        let body = block_body(src, i + 3);
        if i + 3 + body < src.len() {
            Lexeme {
                kind: TokenKind::Block,
                from: i + 3,
                to: i + 3 + body,
                extra: body + 5,
                rule: None,
            }
        } else {
            Lexeme {
                kind: TokenKind::Block,
                from: i + 3,
                to: i + 3 + body,
                extra: body + 2,
                rule: Some(Rule::UnterminatedBlock),
            }
        }
    } else if c == '"' {
        let body = plain_body(src, i + 1);
        let stop = i + 1 + body;
        if stop < src.len() && src[stop] == '"' {
            Lexeme { kind: TokenKind::Text, from: i + 1, to: stop, extra: body + 1, rule: None }
        } else {
            Lexeme {
                kind: TokenKind::Text,
                from: i + 1,
                to: stop,
                extra: body,
                rule: Some(Rule::UnterminatedString),
            }
        }
    } else {
        match punct_of(c) {
            Some(p) => Lexeme {
                kind: TokenKind::Punct(p),
                from: i,
                to: i + 1,
                extra: 0,
                rule: None,
            },
            None => Lexeme {
                kind: TokenKind::Unknown,
                from: i,
                to: i + 1,
                extra: 0,
                rule: Some(Rule::UnexpectedCharacter),
            },
        }
    }
}

/// A lexeme lies inside the source, its text inside the lexeme.
pub proof fn lemma_lexeme_bound(src: Seq<char>, i: int)
    requires
        0 <= i < src.len(),
    ensures
        i + 1 + lexeme_at(src, i).extra <= src.len(),
        i <= lexeme_at(src, i).from <= lexeme_at(src, i).to <= i + 1 + lexeme_at(src, i).extra,
{
    lemma_run_bound(src, i + 1, CharClass::Word);
    lemma_number_bound(src, i + 1);
    if i + 2 <= src.len() {
        lemma_number_bound(src, i + 2);
    }
    if i + 3 <= src.len() {
        lemma_block_bound(src, i + 3);
    }
    lemma_plain_bound(src, i + 1);
}

/// The token of a lexeme that starts at offset `i`.
pub open spec fn lexeme_token(src: Seq<char>, i: int, lexeme: Lexeme) -> Token {
    Token {
        kind: lexeme.kind,
        text: Span { start: lexeme.from as usize, end: lexeme.to as usize },
        start: position_of(src, i),
        end: position_of(src, i + 1 + lexeme.extra),
    }
}

/// The finding about a lexeme that starts at offset `i`, if there is one.
pub open spec fn lexeme_findings(src: Seq<char>, i: int, lexeme: Lexeme) -> Seq<Finding> {
    match lexeme.rule {
        Some(rule) => seq![
            Finding {
                rule,
                subject: Span { start: lexeme.from as usize, end: lexeme.to as usize },
                range: Range {
                    start: position_of(src, i),
                    end: Some(position_of(src, i + 1 + lexeme.extra)),
                },
            },
        ],
        None => Seq::empty(),
    }
}

/// The token that closes every token stream.
pub open spec fn end_token(src: Seq<char>) -> Token {
    Token {
        kind: TokenKind::End,
        text: Span { start: src.len() as usize, end: src.len() as usize },
        start: position_of(src, src.len() as int),
        end: position_of(src, src.len() as int),
    }
}

/// The tokens and findings of a source text.
pub struct LexedView {
    pub tokens: Seq<Token>,
    pub findings: Seq<Finding>,
}

/// What lexing yields from offset `i` to the end of the source.
pub open spec fn lex_from(src: Seq<char>, i: int) -> LexedView
    decreases src.len() - i,
{
    if i < 0 || i >= src.len() {
        LexedView { tokens: seq![end_token(src)], findings: Seq::empty() }
    } else if is_space(src[i]) {
        lex_from(src, i + 1)
    } else if src[i] == '#' {
        proof {
            lemma_run_bound(src, i + 1, CharClass::SameLine);
        }
        lex_from(src, i + 1 + run_length(src, i + 1, CharClass::SameLine))
    } else {
        proof {
            lemma_lexeme_bound(src, i);
        }
        let lexeme = lexeme_at(src, i);
        let rest = lex_from(src, i + 1 + lexeme.extra);
        LexedView {
            tokens: seq![lexeme_token(src, i, lexeme)] + rest.tokens,
            findings: lexeme_findings(src, i, lexeme) + rest.findings,
        }
    }
}

/// The token stream of a source text: its tokens in order, then the end token.
pub open spec fn tokens_of(src: Seq<char>) -> Seq<Token> {
    lex_from(src, 0).tokens
}

/// What the lexer reports about a source text, in source order.
pub open spec fn lexical_findings(src: Seq<char>) -> Seq<Finding> {
    lex_from(src, 0).findings
}

/// Whether `c` is white space.
pub fn check_space(c: char) -> (r: bool)
    ensures
        r == is_space(c),
{
    c == ' ' || c == '\t' || c == '\r' || c == '\n'
}

/// Whether `c` is a decimal digit.
pub fn check_digit(c: char) -> (r: bool)
    ensures
        r == is_digit(c),
{
    '0' <= c && c <= '9'
}

/// Whether a word may start with `c`.
pub fn check_word_start(c: char) -> (r: bool)
    ensures
        r == is_word_start(c),
{
    ('a' <= c && c <= 'z') || ('A' <= c && c <= 'Z') || c == '_'
}

/// Whether a word may go on with `c`.
pub fn check_word_part(c: char) -> (r: bool)
    ensures
        r == is_word_part(c),
{
    check_word_start(c) || check_digit(c)
}

/// The punctuation mark that `c` is, if it is one.
pub fn punct_for(c: char) -> (r: Option<Punct>)
    ensures
        r == punct_of(c),
{
    if c == '{' {
        Some(Punct::OpenBrace)
    } else if c == '}' {
        Some(Punct::CloseBrace)
    } else if c == '[' {
        Some(Punct::OpenBracket)
    } else if c == ']' {
        Some(Punct::CloseBracket)
    } else if c == '(' {
        Some(Punct::OpenParen)
    } else if c == ')' {
        Some(Punct::CloseParen)
    } else if c == '=' {
        Some(Punct::Equals)
    } else if c == ';' {
        Some(Punct::Semicolon)
    } else if c == ',' {
        Some(Punct::Comma)
    } else if c == '.' {
        Some(Punct::Dot)
    } else {
        None
    }
}

/// Classifies the word that `span` selects.
pub fn classify_word(chars: &Vec<char>, span: Span) -> (r: TokenKind)
    ensures
        r == word_kind(text_of(chars@, span)),
{
    if text_is(chars, span, "juliet") {
        TokenKind::Keyword(Keyword::Juliet)
    } else if text_is(chars, span, "policy") {
        TokenKind::Keyword(Keyword::Policy)
    } else if text_is(chars, span, "rubric") {
        TokenKind::Keyword(Keyword::Rubric)
    } else if text_is(chars, span, "criterion") {
        TokenKind::Keyword(Keyword::Criterion)
    } else if text_is(chars, span, "points") {
        TokenKind::Keyword(Keyword::Points)
    } else if text_is(chars, span, "means") {
        TokenKind::Keyword(Keyword::Means)
    } else if text_is(chars, span, "tiebreakers") {
        TokenKind::Keyword(Keyword::Tiebreakers)
    } else if text_is(chars, span, "cadence") {
        TokenKind::Keyword(Keyword::Cadence)
    } else if text_is(chars, span, "variants") {
        TokenKind::Keyword(Keyword::Variants)
    } else if text_is(chars, span, "sprints") {
        TokenKind::Keyword(Keyword::Sprints)
    } else if text_is(chars, span, "compare") {
        TokenKind::Keyword(Keyword::Compare)
    } else if text_is(chars, span, "using") {
        TokenKind::Keyword(Keyword::Using)
    } else if text_is(chars, span, "keep") {
        TokenKind::Keyword(Keyword::Keep)
    } else if text_is(chars, span, "best") {
        TokenKind::Keyword(Keyword::Best)
    } else if text_is(chars, span, "create") {
        TokenKind::Keyword(Keyword::Create)
    } else if text_is(chars, span, "from") {
        TokenKind::Keyword(Keyword::From)
    } else if text_is(chars, span, "julietArtifactSourceFiles") {
        TokenKind::Keyword(Keyword::SourceFiles)
    } else if text_is(chars, span, "with") {
        TokenKind::Keyword(Keyword::With)
    } else if text_is(chars, span, "extend") {
        TokenKind::Keyword(Keyword::Extend)
    } else if text_is(chars, span, "halt") {
        TokenKind::Keyword(Keyword::Halt)
    } else {
        TokenKind::Identifier
    }
}

/// The offset at which the run of `class` that starts at `start` ends.
fn run_end(chars: &Vec<char>, start: usize, class: CharClass) -> (j: usize)
    requires
        start <= chars.len(),
    ensures
        j == start + run_length(chars@, start as int, class),
        j <= chars.len(),
{
    let mut j = start;
    while j < chars.len() && class.check(chars[j])
        invariant
            start <= j <= chars.len(),
            start + run_length(chars@, start as int, class) == j + run_length(
                chars@,
                j as int,
                class,
            ),
        decreases chars.len() - j,
    {
        j += 1;
    }
    j
}

/// The offset at which the body of a double-quoted string that starts at
/// `start` ends.
fn plain_stop(chars: &Vec<char>, start: usize) -> (j: usize)
    requires
        start <= chars.len(),
    ensures
        j == start + plain_body(chars@, start as int),
        j <= chars.len(),
{
    let mut j = start;
    loop
        invariant
            start <= j <= chars.len(),
            start + plain_body(chars@, start as int) == j + plain_body(chars@, j as int),
        ensures
            plain_body(chars@, j as int) == 0,
        decreases chars.len() - j,
    {
        if j >= chars.len() {
            break ;
        }
        let c = chars[j];
        if c == '"' || c == '\n' {
            break ;
        }
        if c == '\\' && j + 1 < chars.len() && chars[j + 1] != '\n' {
            j += 2;
        } else {
            j += 1;
        }
    }
    j
}

fn check_triple_quote(chars: &Vec<char>, i: usize) -> (r: bool)
    requires
        i <= chars.len(),
    ensures
        r == triple_quote_at(chars@, i as int),
{
    chars.len() - i >= 3 && chars[i] == '"' && chars[i + 1] == '"' && chars[i + 2] == '"'
}

/// The offset at which the body of a block string that starts at `start` ends.
fn block_stop(chars: &Vec<char>, start: usize) -> (j: usize)
    requires
        start <= chars.len(),
    ensures
        j == start + block_body(chars@, start as int),
        j <= chars.len(),
        j < chars.len() ==> triple_quote_at(chars@, j as int),
{
    let mut j = start;
    while j < chars.len() && !check_triple_quote(chars, j)
        invariant
            start <= j <= chars.len(),
            start + block_body(chars@, start as int) == j + block_body(chars@, j as int),
        decreases chars.len() - j,
    {
        j += 1;
    }
    j
}

/// The offset at which a number literal ends whose first digit stands just
/// before `start`.
fn number_stop(chars: &Vec<char>, start: usize) -> (j: usize)
    requires
        start <= chars.len(),
    ensures
        j == start + number_tail(chars@, start as int),
        j <= chars.len(),
{
    let dot = run_end(chars, start, CharClass::Digit);
    if chars.len() - dot >= 2 && chars[dot] == '.' && check_digit(chars[dot + 1]) {
        run_end(chars, dot + 1, CharClass::Digit)
    } else {
        dot
    }
}

/// One lexeme as the lexer finds it.
#[derive(Clone, Copy, Debug)]
struct Scan {
    kind: TokenKind,
    text: Span,
    end: usize,
    rule: Option<Rule>,
}

/// Reads the lexeme that starts at offset `i`.
fn scan(chars: &Vec<char>, i: usize) -> (r: Scan)
    requires
        i < chars.len(),
    ensures
        r.kind == lexeme_at(chars@, i as int).kind,
        r.rule == lexeme_at(chars@, i as int).rule,
        r.text.start == lexeme_at(chars@, i as int).from,
        r.text.end == lexeme_at(chars@, i as int).to,
        r.end == i + 1 + lexeme_at(chars@, i as int).extra,
        r.text.start <= r.text.end <= r.end <= chars.len(),
        i < r.end,
{
    let c = chars[i];
    if check_word_start(c) {
        let end = run_end(chars, i + 1, CharClass::Word);
        let text = Span { start: i, end };
        let kind = classify_word(chars, text);
        Scan { kind, text, end, rule: None }
    } else if check_digit(c) {
        let end = number_stop(chars, i + 1);
        Scan { kind: TokenKind::Number, text: Span { start: i, end }, end, rule: None }
    } else if c == '-' && i + 1 < chars.len() && check_digit(chars[i + 1]) {
        let end = number_stop(chars, i + 2);
        Scan { kind: TokenKind::Number, text: Span { start: i, end }, end, rule: None }
    } else if check_triple_quote(chars, i) {
        let stop = block_stop(chars, i + 3);
        if stop < chars.len() {
            Scan {
                kind: TokenKind::Block,
                text: Span { start: i + 3, end: stop },
                end: stop + 3,
                rule: None,
            }
        } else {
            Scan {
                kind: TokenKind::Block,
                text: Span { start: i + 3, end: stop },
                end: stop,
                rule: Some(Rule::UnterminatedBlock),
            }
        }
    } else if c == '"' {
        let stop = plain_stop(chars, i + 1);
        if stop < chars.len() && chars[stop] == '"' {
            Scan {
                kind: TokenKind::Text,
                text: Span { start: i + 1, end: stop },
                end: stop + 1,
                rule: None,
            }
        } else {
            Scan {
                kind: TokenKind::Text,
                text: Span { start: i + 1, end: stop },
                end: stop,
                rule: Some(Rule::UnterminatedString),
            }
        }
    } else {
        match punct_for(c) {
            Some(p) => Scan {
                kind: TokenKind::Punct(p),
                text: Span { start: i, end: i + 1 },
                end: i + 1,
                rule: None,
            },
            None => Scan {
                kind: TokenKind::Unknown,
                text: Span { start: i, end: i + 1 },
                end: i + 1,
                rule: Some(Rule::UnexpectedCharacter),
            },
        }
    }
}

/// The position of offset `to`, reckoned from the position `at` of offset `from`.
fn position_after(chars: &Vec<char>, from: usize, to: usize, at: Position) -> (r: Position)
    requires
        from <= to <= chars.len(),
        at == position_of(chars@, from as int),
    ensures
        r == position_of(chars@, to as int),
{
    let mut k = from;
    let mut p = at;
    while k < to
        invariant
            from <= k <= to <= chars.len(),
            p == position_of(chars@, k as int),
        decreases to - k,
    {
        proof {
            lemma_position_bounds(chars@, k as int);
            lemma_position_bounds(chars@, k + 1);
        }
        p = advance(p, chars[k]);
        k += 1;
    }
    p
}

/// The tokens of a script and what the lexer found wrong with it.
pub struct Lexed {
    pub tokens: Vec<Token>,
    pub findings: Vec<Finding>,
}

/// Splits the characters of a script into tokens.
pub fn tokenize_chars(chars: &Vec<char>) -> (r: Lexed)
    ensures
        r.tokens@ == tokens_of(chars@),
        r.findings@ == lexical_findings(chars@),
        in_source_order(chars@, r.tokens@, 0),
{
    let n = chars.len();
    proof {
        lemma_tokens_in_source_order(chars@);
    }
    let mut tokens: Vec<Token> = Vec::new();
    let mut findings: Vec<Finding> = Vec::new();
    let mut i: usize = 0;
    let mut at = Position { line: 0, character: 0 };
    while i < n
        invariant
            i <= n,
            n == chars@.len(),
            at == position_of(chars@, i as int),
            lex_from(chars@, 0).tokens == tokens@ + lex_from(chars@, i as int).tokens,
            lex_from(chars@, 0).findings == findings@ + lex_from(chars@, i as int).findings,
        decreases n - i,
    {
        let c = chars[i];
        if check_space(c) {
            proof {
                lemma_position_bounds(chars@, i as int);
                lemma_position_bounds(chars@, i + 1);
            }
            at = advance(at, c);
            i += 1;
        } else if c == '#' {
            let j = run_end(chars, i + 1, CharClass::SameLine);
            at = position_after(chars, i, j, at);
            i = j;
        } else {
            let found = scan(chars, i);
            let end_at = position_after(chars, i, found.end, at);
            let ghost lexeme = lexeme_at(chars@, i as int);
            let ghost rest = lex_from(chars@, found.end as int);
            let ghost before_tokens = tokens@;
            let ghost before_findings = findings@;
            tokens.push(Token { kind: found.kind, text: found.text, start: at, end: end_at });
            match found.rule {
                Some(rule) => {
                    findings.push(
                        Finding {
                            rule,
                            subject: found.text,
                            range: Range { start: at, end: Some(end_at) },
                        },
                    );
                },
                None => {},
            }
            proof {
                assert(tokens@ =~= before_tokens + seq![lexeme_token(chars@, i as int, lexeme)]);
                assert(findings@ =~= before_findings + lexeme_findings(chars@, i as int, lexeme));
                assert(lex_from(chars@, i as int).tokens == seq![
                    lexeme_token(chars@, i as int, lexeme),
                ] + rest.tokens);
                assert(tokens@ + rest.tokens =~= before_tokens + lex_from(
                    chars@,
                    i as int,
                ).tokens);
                assert(findings@ + rest.findings =~= before_findings + lex_from(
                    chars@,
                    i as int,
                ).findings);
            }
            i = found.end;
            at = end_at;
        }
    }
    let ghost before = tokens@;
    tokens.push(Token { kind: TokenKind::End, text: Span { start: n, end: n }, start: at, end: at });
    proof {
        assert(tokens@ =~= before + lex_from(chars@, n as int).tokens);
        assert(findings@ =~= findings@ + lex_from(chars@, n as int).findings);
    }
    Lexed { tokens, findings }
}

/// Splits a script into tokens. The stream holds every token in source
/// order and closes with the end token; white space and comments leave no
/// trace. Malformed input never stops the lexer: an unterminated string is
/// reported and still yields its token, and a character that starts no
/// token is reported and yields a token of kind `Unknown`.
pub fn tokenize(source: &str) -> (r: Lexed)
    ensures
        r.tokens@ == tokens_of(source@),
        r.findings@ == lexical_findings(source@),
        in_source_order(source@, r.tokens@, 0),
{
    let chars = to_chars(source);
    tokenize_chars(&chars)
}

/// The tokens that the parser reads: all but those of kind `Unknown`.
pub open spec fn significant(tokens: Seq<Token>) -> Seq<Token>
    decreases tokens.len(),
{
    if tokens.len() == 0 {
        Seq::empty()
    } else if tokens.last().kind == TokenKind::Unknown {
        significant(tokens.drop_last())
    } else {
        significant(tokens.drop_last()).push(tokens.last())
    }
}

/// Leaves out the tokens of kind `Unknown`.
pub fn significant_tokens(tokens: &Vec<Token>) -> (r: Vec<Token>)
    ensures
        r@ == significant(tokens@),
{
    let mut out: Vec<Token> = Vec::new();
    let mut i: usize = 0;
    while i < tokens.len()
        invariant
            i <= tokens.len(),
            out@ == significant(tokens@.take(i as int)),
        decreases tokens.len() - i,
    {
        proof {
            assert(tokens@.take(i + 1).drop_last() =~= tokens@.take(i as int));
            assert(tokens@.take(i + 1).last() == tokens@[i as int]);
        }
        if tokens[i].kind != TokenKind::Unknown {
            out.push(tokens[i]);
        }
        i += 1;
    }
    proof {
        assert(tokens@.take(i as int) =~= tokens@);
    }
    out
}

/// The text of a token: the word or number itself, or the body of a string
/// without its quotes.
pub fn token_text<'a>(source: &'a str, token: &Token) -> (r: &'a str)
    ensures
        r@ == text_of(source@, token.text),
{
    slice_of(source, source.unicode_len(), token.text)
}

// ---------------------------------------------------------------------
// The shape of a token stream

/// Whether `tokens` lie in `src` from offset `from` on, in source order and
/// without overlap, and close with the one end token.
pub open spec fn in_source_order(src: Seq<char>, tokens: Seq<Token>, from: int) -> bool {
    &&& tokens.len() > 0
    &&& tokens.last().kind == TokenKind::End
    &&& forall|i: int| 0 <= i < tokens.len() - 1 ==> (#[trigger] tokens[i]).kind != TokenKind::End
    &&& forall|i: int|
        0 <= i < tokens.len() ==> from <= (#[trigger] tokens[i]).text.start <= tokens[i].text.end
            <= src.len()
    &&& forall|i: int, j: int|
        0 <= i < j < tokens.len() ==> (#[trigger] tokens[i]).text.end <= (
        #[trigger] tokens[j]).text.start
}

proof fn lemma_lexed_in_source_order(src: Seq<char>, i: int)
    requires
        0 <= i <= src.len() <= usize::MAX,
    ensures
        in_source_order(src, lex_from(src, i).tokens, i),
    decreases src.len() - i,
{
    if i >= src.len() {
    } else if is_space(src[i]) {
        lemma_lexed_in_source_order(src, i + 1);
    } else if src[i] == '#' {
        lemma_run_bound(src, i + 1, CharClass::SameLine);
        lemma_lexed_in_source_order(src, i + 1 + run_length(src, i + 1, CharClass::SameLine));
    } else {
        lemma_lexeme_bound(src, i);
        let lexeme = lexeme_at(src, i);
        let end = i + 1 + lexeme.extra;
        lemma_lexed_in_source_order(src, end);
        let first = lexeme_token(src, i, lexeme);
        let rest = lex_from(src, end).tokens;
        let all = lex_from(src, i).tokens;
        assert(all == seq![first] + rest);
        assert(first.kind != TokenKind::End);
        assert forall|k: int| 0 <= k < all.len() implies i <= (#[trigger] all[k]).text.start
            <= all[k].text.end <= src.len() by {
            if k > 0 {
                assert(all[k] == rest[k - 1]);
            }
        }
        assert forall|k: int| 0 <= k < all.len() - 1 implies (#[trigger] all[k]).kind
            != TokenKind::End by {
            if k > 0 {
                assert(all[k] == rest[k - 1]);
            }
        }
        assert forall|j: int, k: int| 0 <= j < k < all.len() implies (#[trigger] all[j]).text.end
            <= (#[trigger] all[k]).text.start by {
            assert(all[k] == rest[k - 1]);
            if j > 0 {
                assert(all[j] == rest[j - 1]);
            }
        }
        assert(all.last() == rest.last());
    }
}

/// The tokens of a script lie in it in source order and without overlap,
/// and the end token closes them, and no other.
pub proof fn lemma_tokens_in_source_order(src: Seq<char>)
    requires
        src.len() <= usize::MAX,
    ensures
        in_source_order(src, tokens_of(src), 0),
{
    lemma_lexed_in_source_order(src, 0);
}

} // verus!
