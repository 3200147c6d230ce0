//! The parser: recursive descent over the token stream, one production per
//! kind of declaration. A statement that cannot be read is reported once;
//! the parser then skips to a synchronizing token and goes on, so that one
//! malformed statement does not hide what follows it.

use vstd::prelude::*;
use crate::source::{Position, Span};
use crate::token::{Keyword, Punct, Token, TokenKind};
use crate::finding::{Finding, Range, Rule, Scope, Want};
use crate::syntax::{Declaration, DeclarationView, Entry, views};

verus! {

/// The kind of the token at index `i`; the end of input beyond the last token.
pub open spec fn kind_at(tokens: Seq<Token>, i: int) -> TokenKind {
    if 0 <= i < tokens.len() {
        tokens[i].kind
    } else {
        TokenKind::End
    }
}

/// Where the token before index `i` ends: the place at which something
/// missing at index `i` is reported.
pub open spec fn gap_before(tokens: Seq<Token>, i: int) -> Position {
    if 0 < i <= tokens.len() {
        tokens[i - 1].end
    } else {
        Position { line: 0, character: 0 }
    }
}

/// The empty selection: what a finding has that quotes nothing.
pub open spec fn no_subject() -> Span {
    Span { start: 0, end: 0 }
}

/// The finding that `want` is missing at index `i`, placed just after the
/// last token read.
pub open spec fn missing(tokens: Seq<Token>, i: int, want: Want, scope: Scope) -> Finding {
    Finding {
        rule: Rule::Expected(want, scope),
        subject: no_subject(),
        range: Range { start: gap_before(tokens, i), end: None },
    }
}

/// A finding about the token at index `i` itself, which it quotes.
pub open spec fn anchored(tokens: Seq<Token>, i: int, rule: Rule) -> Finding {
    if 0 <= i < tokens.len() {
        Finding {
            rule,
            subject: tokens[i].text,
            range: Range { start: tokens[i].start, end: Some(tokens[i].end) },
        }
    } else {
        Finding {
            rule,
            subject: no_subject(),
            range: Range { start: gap_before(tokens, i), end: None },
        }
    }
}

/// The kind of the token at index `i`; the end of input beyond the last token.
pub fn kind_of(tokens: &Vec<Token>, i: usize) -> (r: TokenKind)
    ensures
        r == kind_at(tokens@, i as int),
{
    if i < tokens.len() {
        tokens[i].kind
    } else {
        TokenKind::End
    }
}

/// Where the token before index `i` ends.
pub fn gap_position(tokens: &Vec<Token>, i: usize) -> (r: Position)
    ensures
        r == gap_before(tokens@, i as int),
{
    if 0 < i && i <= tokens.len() {
        tokens[i - 1].end
    } else {
        Position { line: 0, character: 0 }
    }
}

/// The finding that `want` is missing at index `i`.
pub fn missing_at(tokens: &Vec<Token>, i: usize, want: Want, scope: Scope) -> (r: Finding)
    ensures
        r == missing(tokens@, i as int, want, scope),
{
    Finding {
        rule: Rule::Expected(want, scope),
        subject: Span { start: 0, end: 0 },
        range: Range { start: gap_position(tokens, i), end: None },
    }
}

/// A finding about the token at index `i` itself.
pub fn anchored_at(tokens: &Vec<Token>, i: usize, rule: Rule) -> (r: Finding)
    ensures
        r == anchored(tokens@, i as int, rule),
{
    if i < tokens.len() {
        Finding {
            rule,
            subject: tokens[i].text,
            range: Range { start: tokens[i].start, end: Some(tokens[i].end) },
        }
    } else {
        Finding {
            rule,
            subject: Span { start: 0, end: 0 },
            range: Range { start: gap_position(tokens, i), end: None },
        }
    }
}

// ---------------------------------------------------------------------
// Bracketed lists

/// What reading a bracketed list yields: its items, what was found wrong,
/// where reading stopped, and whether the list was read to its closing
/// bracket.
pub struct ListView {
    pub items: Seq<Token>,
    pub findings: Seq<Finding>,
    pub next: int,
    pub ok: bool,
}

/// A bracketed list as read.
struct List {
    items: Vec<Token>,
    findings: Vec<Finding>,
    next: usize,
    ok: bool,
}

impl View for List {
    type V = ListView;

    closed spec fn view(&self) -> ListView {
        ListView {
            items: self.items@,
            findings: self.findings@,
            next: self.next as int,
            ok: self.ok,
        }
    }
}

/// Whether a token of kind `kind` is an item of a list of `want`.
pub open spec fn accepts(want: Want, kind: TokenKind) -> bool {
    match want {
        Want::Name => kind == TokenKind::Identifier,
        Want::Text => kind.is_string(),
        _ => false,
    }
}

/// What is wrong where the list whose bracket stands at index `open`
/// breaks off at index `at`. Where the statement ends there, with a
/// semicolon or with the input, nothing closes the bracket; elsewhere
/// `want` is missing.
pub open spec fn list_fault(tokens: Seq<Token>, at: int, open: int, want: Want, scope: Scope)
    -> Finding {
    if kind_at(tokens, at) == TokenKind::End || kind_at(tokens, at) == TokenKind::Punct(
        Punct::Semicolon,
    ) {
        anchored(tokens, open, Rule::Unmatched)
    } else {
        missing(tokens, at, want, scope)
    }
}

/// The rest of the list whose bracket stands at index `open`, from index
/// `i`, where an item is due.
pub open spec fn items_from(tokens: Seq<Token>, i: int, want: Want, scope: Scope, open: int)
    -> ListView
    decreases tokens.len() - i,
{
    if !accepts(want, kind_at(tokens, i)) {
        ListView {
            items: Seq::empty(),
            findings: seq![list_fault(tokens, i, open, want, scope)],
            next: i,
            ok: false,
        }
    } else if kind_at(tokens, i + 1) == TokenKind::Punct(Punct::Comma) {
        let rest = items_from(tokens, i + 2, want, scope, open);
        ListView {
            items: seq![tokens[i]] + rest.items,
            findings: rest.findings,
            next: rest.next,
            ok: rest.ok,
        }
    } else if kind_at(tokens, i + 1) == TokenKind::Punct(Punct::CloseBracket) {
        ListView { items: seq![tokens[i]], findings: Seq::empty(), next: i + 2, ok: true }
    } else {
        ListView {
            items: seq![tokens[i]],
            findings: seq![list_fault(tokens, i + 1, open, Want::CloseBracket, scope)],
            next: i + 1,
            ok: false,
        }
    }
}

/// The list `[ item, ... ]` that is due at index `pos`. It may be empty.
pub open spec fn list_at(tokens: Seq<Token>, pos: int, want: Want, scope: Scope) -> ListView {
    if kind_at(tokens, pos) != TokenKind::Punct(Punct::OpenBracket) {
        ListView {
            items: Seq::empty(),
            findings: seq![missing(tokens, pos, Want::OpenBracket, scope)],
            next: pos,
            ok: false,
        }
    } else if kind_at(tokens, pos + 1) == TokenKind::Punct(Punct::CloseBracket) {
        ListView { items: Seq::empty(), findings: Seq::empty(), next: pos + 2, ok: true }
    } else {
        items_from(tokens, pos + 1, want, scope, pos)
    }
}

proof fn lemma_items_bounds(tokens: Seq<Token>, i: int, want: Want, scope: Scope, open: int)
    requires
        0 <= i <= tokens.len(),
    ensures
        i <= items_from(tokens, i, want, scope, open).next <= tokens.len(),
    decreases tokens.len() - i,
{
    if accepts(want, kind_at(tokens, i)) && kind_at(tokens, i + 1) == TokenKind::Punct(
        Punct::Comma,
    ) {
        lemma_items_bounds(tokens, i + 2, want, scope, open);
    }
}

proof fn lemma_list_bounds(tokens: Seq<Token>, pos: int, want: Want, scope: Scope)
    requires
        0 <= pos <= tokens.len(),
    ensures
        pos <= list_at(tokens, pos, want, scope).next <= tokens.len(),
{
    if kind_at(tokens, pos) == TokenKind::Punct(Punct::OpenBracket) {
        lemma_items_bounds(tokens, pos + 1, want, scope, pos);
    }
}

fn check_accepts(want: Want, kind: TokenKind) -> (r: bool)
    ensures
        r == accepts(want, kind),
{
    match want {
        Want::Name => kind == TokenKind::Identifier,
        Want::Text => kind.check_string(),
        _ => false,
    }
}

fn list_fault_at(tokens: &Vec<Token>, at: usize, open: usize, want: Want, scope: Scope) -> (r:
    Finding)
    ensures
        r == list_fault(tokens@, at as int, open as int, want, scope),
{
    let kind = kind_of(tokens, at);
    if kind == TokenKind::End || kind == TokenKind::Punct(Punct::Semicolon) {
        anchored_at(tokens, open, Rule::Unmatched)
    } else {
        missing_at(tokens, at, want, scope)
    }
}

/// Reads the list that is due at index `pos`.
fn parse_list(tokens: &Vec<Token>, pos: usize, want: Want, scope: Scope) -> (r: List)
    requires
        pos <= tokens.len(),
    ensures
        r@ == list_at(tokens@, pos as int, want, scope),
        pos <= r.next <= tokens.len(),
{
    let mut items: Vec<Token> = Vec::new();
    let mut findings: Vec<Finding> = Vec::new();
    if kind_of(tokens, pos) != TokenKind::Punct(Punct::OpenBracket) {
        findings.push(missing_at(tokens, pos, Want::OpenBracket, scope));
        return List { items, findings, next: pos, ok: false };
    }
    if kind_of(tokens, pos + 1) == TokenKind::Punct(Punct::CloseBracket) {
        return List { items, findings, next: pos + 2, ok: true };
    }
    let mut i = pos + 1;
    let mut ok = false;
    loop
        invariant_except_break
            pos < i <= tokens.len(),
            findings@ == Seq::<Finding>::empty(),
            list_at(tokens@, pos as int, want, scope).items == items@ + items_from(
                tokens@,
                i as int,
                want,
                scope,
                pos as int,
            ).items,
            list_at(tokens@, pos as int, want, scope).findings == items_from(
                tokens@,
                i as int,
                want,
                scope,
                pos as int,
            ).findings,
            list_at(tokens@, pos as int, want, scope).next == items_from(
                tokens@,
                i as int,
                want,
                scope,
                pos as int,
            ).next,
            list_at(tokens@, pos as int, want, scope).ok == items_from(
                tokens@,
                i as int,
                want,
                scope,
                pos as int,
            ).ok,
        ensures
            pos < i <= tokens.len(),
            (ListView { items: items@, findings: findings@, next: i as int, ok }) == list_at(
                tokens@,
                pos as int,
                want,
                scope,
            ),
        decreases tokens.len() - i,
    {
        if !check_accepts(want, kind_of(tokens, i)) {
            findings.push(list_fault_at(tokens, i, pos, want, scope));
            assert(items@ + Seq::<Token>::empty() =~= items@);
            ok = false;
            break ;
        }
        let ghost before = items@;
        items.push(tokens[i]);
        let after = kind_of(tokens, i + 1);
        if after == TokenKind::Punct(Punct::Comma) {
            assert(before + (seq![tokens@[i as int]] + items_from(
                tokens@,
                i + 2,
                want,
                scope,
                pos as int,
            ).items) =~= items@ + items_from(tokens@, i + 2, want, scope, pos as int).items);
            i = i + 2;
        } else if after == TokenKind::Punct(Punct::CloseBracket) {
            assert(before + seq![tokens@[i as int]] =~= items@);
            i = i + 2;
            ok = true;
            break ;
        } else {
            assert(before + seq![tokens@[i as int]] =~= items@);
            findings.push(list_fault_at(tokens, i + 1, pos, Want::CloseBracket, scope));
            i = i + 1;
            ok = false;
            break ;
        }
    }
    List { items, findings, next: i, ok }
}

// ---------------------------------------------------------------------
// Entries of a block

/// What reading one entry of a block yields: the entries read (a list of
/// tiebreakers makes one entry per label), what was found wrong, where
/// reading stopped, and whether the parser has to skip to a synchronizing
/// token from there.
pub struct EntryStepView {
    pub entries: Seq<Entry>,
    pub findings: Seq<Finding>,
    pub next: int,
    pub resync: bool,
}

/// One entry of a block as read.
struct EntryStep {
    entries: Vec<Entry>,
    findings: Vec<Finding>,
    next: usize,
    resync: bool,
}

impl View for EntryStep {
    type V = EntryStepView;

    closed spec fn view(&self) -> EntryStepView {
        EntryStepView {
            entries: self.entries@,
            findings: self.findings@,
            next: self.next as int,
            resync: self.resync,
        }
    }
}

/// An entry that broke off at index `at`, where `want` was due.
pub open spec fn entry_failed(tokens: Seq<Token>, at: int, want: Want, scope: Scope)
    -> EntryStepView {
    EntryStepView {
        entries: Seq::empty(),
        findings: seq![missing(tokens, at, want, scope)],
        next: at,
        resync: true,
    }
}

/// An entry read up to index `at`, where its semicolon is due.
pub open spec fn entry_closed(tokens: Seq<Token>, at: int, scope: Scope, entries: Seq<Entry>)
    -> EntryStepView {
    if kind_at(tokens, at) == TokenKind::Punct(Punct::Semicolon) {
        EntryStepView { entries, findings: Seq::empty(), next: at + 1, resync: false }
    } else {
        EntryStepView {
            entries,
            findings: seq![missing(tokens, at, Want::Semicolon, scope)],
            next: at,
            resync: true,
        }
    }
}

/// `key = value;` at index `pos`. What is attached to an artifact is given
/// by name; elsewhere any value may stand.
pub open spec fn setting_at(tokens: Seq<Token>, pos: int, scope: Scope) -> EntryStepView {
    if kind_at(tokens, pos + 1) != TokenKind::Punct(Punct::Equals) {
        entry_failed(tokens, pos + 1, Want::Equals, Scope::Setting)
    } else if scope == Scope::Attachments && kind_at(tokens, pos + 2) != TokenKind::Identifier {
        entry_failed(tokens, pos + 2, Want::Name, Scope::Setting)
    } else if scope != Scope::Attachments && !kind_at(tokens, pos + 2).is_value() {
        entry_failed(tokens, pos + 2, Want::Value, Scope::Setting)
    } else {
        entry_closed(
            tokens,
            pos + 3,
            Scope::Setting,
            seq![Entry::Setting { key: tokens[pos], value: tokens[pos + 2] }],
        )
    }
}

/// `criterion STRING points NUMBER;` at index `pos`, with `means STRING`
/// before the semicolon where present.
pub open spec fn criterion_at(tokens: Seq<Token>, pos: int) -> EntryStepView {
    if !kind_at(tokens, pos + 1).is_string() {
        entry_failed(tokens, pos + 1, Want::Text, Scope::Criterion)
    } else if kind_at(tokens, pos + 2) != TokenKind::Keyword(Keyword::Points) {
        entry_failed(tokens, pos + 2, Want::Points, Scope::Criterion)
    } else if kind_at(tokens, pos + 3) != TokenKind::Number {
        entry_failed(tokens, pos + 3, Want::Integer, Scope::Criterion)
    } else if kind_at(tokens, pos + 4) == TokenKind::Keyword(Keyword::Means) {
        if !kind_at(tokens, pos + 5).is_string() {
            entry_failed(tokens, pos + 5, Want::Text, Scope::Criterion)
        } else {
            entry_closed(
                tokens,
                pos + 6,
                Scope::Criterion,
                seq![
                    Entry::Criterion {
                        label: tokens[pos + 1],
                        points: tokens[pos + 3],
                        means: Some(tokens[pos + 5]),
                    },
                ],
            )
        }
    } else {
        entry_closed(
            tokens,
            pos + 4,
            Scope::Criterion,
            seq![Entry::Criterion { label: tokens[pos + 1], points: tokens[pos + 3], means: None }],
        )
    }
}

/// One tiebreaker entry per label.
pub open spec fn tiebreakers_of(labels: Seq<Token>) -> Seq<Entry> {
    labels.map_values(|label: Token| Entry::Tiebreaker { label })
}

/// `tiebreakers [STRING, ...];` at index `pos`.
pub open spec fn tiebreakers_at(tokens: Seq<Token>, pos: int) -> EntryStepView {
    let list = list_at(tokens, pos + 1, Want::Text, Scope::Tiebreakers);
    if !list.ok {
        EntryStepView {
            entries: Seq::empty(),
            findings: list.findings,
            next: list.next,
            resync: true,
        }
    } else {
        entry_closed(tokens, list.next, Scope::Tiebreakers, tiebreakers_of(list.items))
    }
}

/// `compare using NAME;` at index `pos`.
pub open spec fn compare_at(tokens: Seq<Token>, pos: int) -> EntryStepView {
    if kind_at(tokens, pos + 1) != TokenKind::Keyword(Keyword::Using) {
        entry_failed(tokens, pos + 1, Want::Using, Scope::Compare)
    } else if kind_at(tokens, pos + 2) != TokenKind::Identifier {
        entry_failed(tokens, pos + 2, Want::Name, Scope::Compare)
    } else {
        entry_closed(
            tokens,
            pos + 3,
            Scope::Compare,
            seq![Entry::Compare { rubric: tokens[pos + 2] }],
        )
    }
}

/// `keep best NUMBER;` at index `pos`.
pub open spec fn keep_at(tokens: Seq<Token>, pos: int) -> EntryStepView {
    if kind_at(tokens, pos + 1) != TokenKind::Keyword(Keyword::Best) {
        entry_failed(tokens, pos + 1, Want::Best, Scope::Keep)
    } else if kind_at(tokens, pos + 2) != TokenKind::Number {
        entry_failed(tokens, pos + 2, Want::Integer, Scope::Keep)
    } else {
        entry_closed(tokens, pos + 3, Scope::Keep, seq![Entry::Keep { count: tokens[pos + 2] }])
    }
}

/// Whether a statement starts at index `i`: a keyword that starts a
/// declaration stands there, followed by what its declaration goes on
/// with. That is a brace after `juliet`; a name after `policy`, `rubric`,
/// `cadence`, `create` and `extend`; anything but an equals sign after
/// `halt`. So a reserved word that stands as the key of an option, as the
/// origin of an artifact or as the property that `extend` names starts no
/// statement.
pub open spec fn starts_statement(tokens: Seq<Token>, i: int) -> bool {
    match kind_at(tokens, i) {
        TokenKind::Keyword(Keyword::Juliet) => kind_at(tokens, i + 1) == TokenKind::Punct(
            Punct::OpenBrace,
        ),
        TokenKind::Keyword(Keyword::Halt) => kind_at(tokens, i + 1) != TokenKind::Punct(
            Punct::Equals,
        ),
        TokenKind::Keyword(k) => k.starts_declaration() && kind_at(tokens, i + 1)
            == TokenKind::Identifier,
        _ => false,
    }
}

/// Whether a statement starts at index `i`.
pub fn check_starts_statement(tokens: &Vec<Token>, i: usize) -> (r: bool)
    ensures
        r == starts_statement(tokens@, i as int),
{
    if i >= tokens.len() {
        return false;
    }
    match tokens[i].kind {
        TokenKind::Keyword(Keyword::Juliet) => kind_of(tokens, i + 1) == TokenKind::Punct(
            Punct::OpenBrace,
        ),
        TokenKind::Keyword(Keyword::Halt) => kind_of(tokens, i + 1) != TokenKind::Punct(
            Punct::Equals,
        ),
        TokenKind::Keyword(k) => k.is_declaration_start() && kind_of(tokens, i + 1)
            == TokenKind::Identifier,
        _ => false,
    }
}

/// Whether an entry of a block of `scope` starts at index `i`.
pub open spec fn starts_entry(tokens: Seq<Token>, i: int, scope: Scope) -> bool {
    let kind = kind_at(tokens, i);
    let setting = kind.is_word() && kind_at(tokens, i + 1) == TokenKind::Punct(Punct::Equals);
    match scope {
        Scope::Rubric => kind == TokenKind::Keyword(Keyword::Criterion) || kind
            == TokenKind::Keyword(Keyword::Tiebreakers),
        Scope::Cadence => kind == TokenKind::Keyword(Keyword::Compare) || kind
            == TokenKind::Keyword(Keyword::Keep) || setting,
        _ => setting,
    }
}

/// What stands at index `pos` of a block of `scope`: the entry that its
/// first token announces, or the finding that no entry starts there.
pub open spec fn entry_at(tokens: Seq<Token>, pos: int, scope: Scope) -> EntryStepView {
    let kind = kind_at(tokens, pos);
    if scope == Scope::Rubric && kind == TokenKind::Keyword(Keyword::Criterion) {
        criterion_at(tokens, pos)
    } else if scope == Scope::Rubric && kind == TokenKind::Keyword(Keyword::Tiebreakers) {
        tiebreakers_at(tokens, pos)
    } else if scope == Scope::Cadence && kind == TokenKind::Keyword(Keyword::Compare) {
        compare_at(tokens, pos)
    } else if scope == Scope::Cadence && kind == TokenKind::Keyword(Keyword::Keep) {
        keep_at(tokens, pos)
    } else if scope != Scope::Rubric && kind.is_word() {
        setting_at(tokens, pos, scope)
    } else {
        entry_failed(tokens, pos, Want::Entry, scope)
    }
}

/// Recovery inside a block: the index at which reading resumes after a
/// broken entry. Tokens are skipped up to and including the next semicolon
/// outside nested brackets, or up to the brace that closes the block, the
/// start of an entry or of a statement, or the end of input.
pub open spec fn skip_entry(tokens: Seq<Token>, i: int, depth: nat, scope: Scope) -> int
    decreases tokens.len() - i,
{
    let kind = kind_at(tokens, i);
    if i < 0 || i >= tokens.len() || kind == TokenKind::End {
        i
    } else if depth == 0 && kind == TokenKind::Punct(Punct::Semicolon) {
        i + 1
    } else if depth == 0 && (kind == TokenKind::Punct(Punct::CloseBrace) || starts_entry(
        tokens,
        i,
        scope,
    ) || starts_statement(tokens, i)) {
        i
    } else if kind.is_opener() {
        skip_entry(tokens, i + 1, depth + 1, scope)
    } else if kind.is_closer() {
        skip_entry(tokens, i + 1, if depth > 0 { (depth - 1) as nat } else { 0 }, scope)
    } else {
        skip_entry(tokens, i + 1, depth, scope)
    }
}

proof fn lemma_skip_entry_bounds(tokens: Seq<Token>, i: int, depth: nat, scope: Scope)
    requires
        0 <= i <= tokens.len(),
    ensures
        i <= skip_entry(tokens, i, depth, scope) <= tokens.len(),
    decreases tokens.len() - i,
{
    let kind = kind_at(tokens, i);
    if i >= tokens.len() || kind == TokenKind::End {
    } else if depth == 0 && kind == TokenKind::Punct(Punct::Semicolon) {
    } else if depth == 0 && (kind == TokenKind::Punct(Punct::CloseBrace) || starts_entry(
        tokens,
        i,
        scope,
    ) || starts_statement(tokens, i)) {
    } else if kind.is_opener() {
        lemma_skip_entry_bounds(tokens, i + 1, depth + 1, scope);
    } else if kind.is_closer() {
        lemma_skip_entry_bounds(
            tokens,
            i + 1,
            if depth > 0 { (depth - 1) as nat } else { 0 },
            scope,
        );
    } else {
        lemma_skip_entry_bounds(tokens, i + 1, depth, scope);
    }
}

/// The index at which a block of `scope` is read on after what stands at
/// index `pos`.
pub open spec fn after_entry(tokens: Seq<Token>, pos: int, scope: Scope) -> int {
    let step = entry_at(tokens, pos, scope);
    if step.resync {
        skip_entry(tokens, step.next, 0, scope)
    } else {
        step.next
    }
}

/// Reading an entry stops inside the token stream, at or after its start.
proof fn lemma_entry_bounds(tokens: Seq<Token>, pos: int, scope: Scope)
    requires
        0 <= pos < tokens.len(),
    ensures
        pos <= entry_at(tokens, pos, scope).next <= tokens.len(),
        starts_entry(tokens, pos, scope) ==> pos < entry_at(tokens, pos, scope).next,
{
    lemma_list_bounds(tokens, pos + 1, Want::Text, Scope::Tiebreakers);
}

/// A block is read on strictly after an entry, so reading it ends.
pub proof fn lemma_entry_advances(tokens: Seq<Token>, pos: int, scope: Scope)
    requires
        0 <= pos < tokens.len(),
        kind_at(tokens, pos) != TokenKind::End,
        kind_at(tokens, pos) != TokenKind::Punct(Punct::CloseBrace),
        !starts_statement(tokens, pos),
    ensures
        pos < after_entry(tokens, pos, scope) <= tokens.len(),
{
    lemma_entry_bounds(tokens, pos, scope);
    let step = entry_at(tokens, pos, scope);
    lemma_skip_entry_bounds(tokens, step.next, 0, scope);
    if step.next == pos {
        lemma_skip_entry_bounds(tokens, pos + 1, 0, scope);
        lemma_skip_entry_bounds(tokens, pos + 1, 1, scope);
    }
}

fn check_starts_entry(tokens: &Vec<Token>, i: usize, scope: Scope) -> (r: bool)
    requires
        i < tokens.len(),
    ensures
        r == starts_entry(tokens@, i as int, scope),
{
    let kind = kind_of(tokens, i);
    let setting = kind.check_word() && kind_of(tokens, i + 1) == TokenKind::Punct(Punct::Equals);
    match scope {
        Scope::Rubric => kind == TokenKind::Keyword(Keyword::Criterion) || kind
            == TokenKind::Keyword(Keyword::Tiebreakers),
        Scope::Cadence => kind == TokenKind::Keyword(Keyword::Compare) || kind
            == TokenKind::Keyword(Keyword::Keep) || setting,
        _ => setting,
    }
}

/// Skips the rest of a broken entry.
fn skip_entry_from(tokens: &Vec<Token>, start: usize, scope: Scope) -> (r: usize)
    requires
        start <= tokens.len(),
    ensures
        r == skip_entry(tokens@, start as int, 0, scope),
        start <= r <= tokens.len(),
{
    let mut i = start;
    let mut depth: usize = 0;
    loop
        invariant_except_break
            start <= i <= tokens.len(),
            depth <= i - start,
            skip_entry(tokens@, start as int, 0, scope) == skip_entry(
                tokens@,
                i as int,
                depth as nat,
                scope,
            ),
        ensures
            start <= i <= tokens.len(),
            i == skip_entry(tokens@, start as int, 0, scope),
        decreases tokens.len() - i,
    {
        if i >= tokens.len() {
            break ;
        }
        let kind = tokens[i].kind;
        if kind == TokenKind::End {
            break ;
        }
        if depth == 0 && kind == TokenKind::Punct(Punct::Semicolon) {
            i = i + 1;
            break ;
        }
        if depth == 0 && (kind == TokenKind::Punct(Punct::CloseBrace) || check_starts_entry(
            tokens,
            i,
            scope,
        ) || check_starts_statement(tokens, i)) {
            break ;
        }
        if kind.check_opener() {
            depth = depth + 1;
        } else if kind.check_closer() {
            if depth > 0 {
                depth = depth - 1;
            }
        }
        i = i + 1;
    }
    i
}

fn failed_entry(tokens: &Vec<Token>, at: usize, want: Want, scope: Scope) -> (r: EntryStep)
    ensures
        r@ == entry_failed(tokens@, at as int, want, scope),
{
    let mut findings: Vec<Finding> = Vec::new();
    findings.push(missing_at(tokens, at, want, scope));
    EntryStep { entries: Vec::new(), findings, next: at, resync: true }
}

fn closed_entry(tokens: &Vec<Token>, at: usize, scope: Scope, entries: Vec<Entry>) -> (r:
    EntryStep)
    requires
        at <= tokens.len(),
    ensures
        r@ == entry_closed(tokens@, at as int, scope, entries@),
        at <= r.next <= tokens.len(),
{
    let mut findings: Vec<Finding> = Vec::new();
    if kind_of(tokens, at) == TokenKind::Punct(Punct::Semicolon) {
        EntryStep { entries, findings, next: at + 1, resync: false }
    } else {
        findings.push(missing_at(tokens, at, Want::Semicolon, scope));
        EntryStep { entries, findings, next: at, resync: true }
    }
}

fn parse_setting(tokens: &Vec<Token>, pos: usize, scope: Scope) -> (r: EntryStep)
    requires
        pos < tokens.len(),
    ensures
        r@ == setting_at(tokens@, pos as int, scope),
        pos < r.next <= tokens.len(),
{
    if kind_of(tokens, pos + 1) != TokenKind::Punct(Punct::Equals) {
        return failed_entry(tokens, pos + 1, Want::Equals, Scope::Setting);
    }
    let value = kind_of(tokens, pos + 2);
    if scope == Scope::Attachments {
        if value != TokenKind::Identifier {
            return failed_entry(tokens, pos + 2, Want::Name, Scope::Setting);
        }
    } else if !value.check_value() {
        return failed_entry(tokens, pos + 2, Want::Value, Scope::Setting);
    }
    let mut entries: Vec<Entry> = Vec::new();
    entries.push(Entry::Setting { key: tokens[pos], value: tokens[pos + 2] });
    closed_entry(tokens, pos + 3, Scope::Setting, entries)
}

fn parse_criterion(tokens: &Vec<Token>, pos: usize) -> (r: EntryStep)
    requires
        pos < tokens.len(),
    ensures
        r@ == criterion_at(tokens@, pos as int),
        pos < r.next <= tokens.len(),
{
    if !kind_of(tokens, pos + 1).check_string() {
        return failed_entry(tokens, pos + 1, Want::Text, Scope::Criterion);
    }
    if kind_of(tokens, pos + 2) != TokenKind::Keyword(Keyword::Points) {
        return failed_entry(tokens, pos + 2, Want::Points, Scope::Criterion);
    }
    if kind_of(tokens, pos + 3) != TokenKind::Number {
        return failed_entry(tokens, pos + 3, Want::Integer, Scope::Criterion);
    }
    let mut entries: Vec<Entry> = Vec::new();
    if kind_of(tokens, pos + 4) == TokenKind::Keyword(Keyword::Means) {
        if !kind_of(tokens, pos + 5).check_string() {
            return failed_entry(tokens, pos + 5, Want::Text, Scope::Criterion);
        }
        entries.push(
            Entry::Criterion {
                label: tokens[pos + 1],
                points: tokens[pos + 3],
                means: Some(tokens[pos + 5]),
            },
        );
        closed_entry(tokens, pos + 6, Scope::Criterion, entries)
    } else {
        entries.push(
            Entry::Criterion { label: tokens[pos + 1], points: tokens[pos + 3], means: None },
        );
        closed_entry(tokens, pos + 4, Scope::Criterion, entries)
    }
}

fn tiebreakers_from(labels: &Vec<Token>) -> (r: Vec<Entry>)
    ensures
        r@ == tiebreakers_of(labels@),
{
    let mut entries: Vec<Entry> = Vec::new();
    let mut k: usize = 0;
    while k < labels.len()
        invariant
            k <= labels.len(),
            entries@ == tiebreakers_of(labels@.take(k as int)),
        decreases labels.len() - k,
    {
        entries.push(Entry::Tiebreaker { label: labels[k] });
        assert(entries@ =~= tiebreakers_of(labels@.take(k + 1)));
        k += 1;
    }
    assert(labels@.take(k as int) =~= labels@);
    entries
}

fn parse_tiebreakers(tokens: &Vec<Token>, pos: usize) -> (r: EntryStep)
    requires
        pos < tokens.len(),
    ensures
        r@ == tiebreakers_at(tokens@, pos as int),
        pos < r.next <= tokens.len(),
{
    let list = parse_list(tokens, pos + 1, Want::Text, Scope::Tiebreakers);
    if !list.ok {
        return EntryStep {
            entries: Vec::new(),
            findings: list.findings,
            next: list.next,
            resync: true,
        };
    }
    let entries = tiebreakers_from(&list.items);
    closed_entry(tokens, list.next, Scope::Tiebreakers, entries)
}

fn parse_compare(tokens: &Vec<Token>, pos: usize) -> (r: EntryStep)
    requires
        pos < tokens.len(),
    ensures
        r@ == compare_at(tokens@, pos as int),
        pos < r.next <= tokens.len(),
{
    if kind_of(tokens, pos + 1) != TokenKind::Keyword(Keyword::Using) {
        return failed_entry(tokens, pos + 1, Want::Using, Scope::Compare);
    }
    if kind_of(tokens, pos + 2) != TokenKind::Identifier {
        return failed_entry(tokens, pos + 2, Want::Name, Scope::Compare);
    }
    let mut entries: Vec<Entry> = Vec::new();
    entries.push(Entry::Compare { rubric: tokens[pos + 2] });
    closed_entry(tokens, pos + 3, Scope::Compare, entries)
}

fn parse_keep(tokens: &Vec<Token>, pos: usize) -> (r: EntryStep)
    requires
        pos < tokens.len(),
    ensures
        r@ == keep_at(tokens@, pos as int),
        pos < r.next <= tokens.len(),
{
    if kind_of(tokens, pos + 1) != TokenKind::Keyword(Keyword::Best) {
        return failed_entry(tokens, pos + 1, Want::Best, Scope::Keep);
    }
    if kind_of(tokens, pos + 2) != TokenKind::Number {
        return failed_entry(tokens, pos + 2, Want::Integer, Scope::Keep);
    }
    let mut entries: Vec<Entry> = Vec::new();
    entries.push(Entry::Keep { count: tokens[pos + 2] });
    closed_entry(tokens, pos + 3, Scope::Keep, entries)
}

/// Reads what stands at index `pos` of a block of `scope`.
fn parse_entry(tokens: &Vec<Token>, pos: usize, scope: Scope) -> (r: EntryStep)
    requires
        pos < tokens.len(),
    ensures
        r@ == entry_at(tokens@, pos as int, scope),
        pos <= r.next <= tokens.len(),
{
    let kind = tokens[pos].kind;
    if scope == Scope::Rubric && kind == TokenKind::Keyword(Keyword::Criterion) {
        parse_criterion(tokens, pos)
    } else if scope == Scope::Rubric && kind == TokenKind::Keyword(Keyword::Tiebreakers) {
        parse_tiebreakers(tokens, pos)
    } else if scope == Scope::Cadence && kind == TokenKind::Keyword(Keyword::Compare) {
        parse_compare(tokens, pos)
    } else if scope == Scope::Cadence && kind == TokenKind::Keyword(Keyword::Keep) {
        parse_keep(tokens, pos)
    } else if scope != Scope::Rubric && kind.check_word() {
        parse_setting(tokens, pos, scope)
    } else {
        failed_entry(tokens, pos, Want::Entry, scope)
    }
}

// ---------------------------------------------------------------------
// Blocks

/// What reading a block yields: its entries, what was found wrong in it,
/// where reading stopped, and whether the closing brace was read.
pub struct BlockView {
    pub entries: Seq<Entry>,
    pub findings: Seq<Finding>,
    pub next: int,
    pub closed: bool,
}

/// A block as read.
struct Block {
    entries: Vec<Entry>,
    findings: Vec<Finding>,
    next: usize,
    closed: bool,
}

impl View for Block {
    type V = BlockView;

    closed spec fn view(&self) -> BlockView {
        BlockView {
            entries: self.entries@,
            findings: self.findings@,
            next: self.next as int,
            closed: self.closed,
        }
    }
}

/// The rest of a block of `scope` from index `pos`, after its opening
/// brace. A broken entry is reported and skipped, and the block is read on.
/// The block ends at its closing brace; where the input ends or a
/// statement starts first, the block is left open.
pub open spec fn block_from(tokens: Seq<Token>, pos: int, scope: Scope) -> BlockView
    decreases tokens.len() - pos,
{
    let kind = kind_at(tokens, pos);
    if kind == TokenKind::Punct(Punct::CloseBrace) {
        BlockView { entries: Seq::empty(), findings: Seq::empty(), next: pos + 1, closed: true }
    } else if pos < 0 || pos >= tokens.len() || kind == TokenKind::End || starts_statement(
        tokens,
        pos,
    ) {
        BlockView { entries: Seq::empty(), findings: Seq::empty(), next: pos, closed: false }
    } else {
        proof {
            lemma_entry_advances(tokens, pos, scope);
        }
        let step = entry_at(tokens, pos, scope);
        let rest = block_from(tokens, after_entry(tokens, pos, scope), scope);
        BlockView {
            entries: step.entries + rest.entries,
            findings: step.findings + rest.findings,
            next: rest.next,
            closed: rest.closed,
        }
    }
}

proof fn lemma_block_bounds(tokens: Seq<Token>, pos: int, scope: Scope)
    requires
        0 <= pos <= tokens.len(),
    ensures
        pos <= block_from(tokens, pos, scope).next <= tokens.len(),
    decreases tokens.len() - pos,
{
    let kind = kind_at(tokens, pos);
    if kind == TokenKind::Punct(Punct::CloseBrace) {
    } else if pos >= tokens.len() || kind == TokenKind::End || starts_statement(tokens, pos) {
    } else {
        lemma_entry_advances(tokens, pos, scope);
        lemma_block_bounds(tokens, after_entry(tokens, pos, scope), scope);
    }
}

/// Reads the rest of a block of `scope` from index `start`.
fn parse_block(tokens: &Vec<Token>, start: usize, scope: Scope) -> (r: Block)
    requires
        start <= tokens.len(),
    ensures
        r@ == block_from(tokens@, start as int, scope),
        start <= r.next <= tokens.len(),
{
    let mut entries: Vec<Entry> = Vec::new();
    let mut findings: Vec<Finding> = Vec::new();
    let mut pos = start;
    let mut closed = false;
    loop
        invariant_except_break
            start <= pos <= tokens.len(),
            block_from(tokens@, start as int, scope).entries == entries@ + block_from(
                tokens@,
                pos as int,
                scope,
            ).entries,
            block_from(tokens@, start as int, scope).findings == findings@ + block_from(
                tokens@,
                pos as int,
                scope,
            ).findings,
            block_from(tokens@, start as int, scope).next == block_from(
                tokens@,
                pos as int,
                scope,
            ).next,
            block_from(tokens@, start as int, scope).closed == block_from(
                tokens@,
                pos as int,
                scope,
            ).closed,
        ensures
            start <= pos <= tokens.len(),
            (BlockView { entries: entries@, findings: findings@, next: pos as int, closed })
                == block_from(tokens@, start as int, scope),
        decreases tokens.len() - pos,
    {
        let kind = kind_of(tokens, pos);
        if kind == TokenKind::Punct(Punct::CloseBrace) {
            assert(entries@ + Seq::<Entry>::empty() =~= entries@);
            assert(findings@ + Seq::<Finding>::empty() =~= findings@);
            pos = pos + 1;
            closed = true;
            break ;
        }
        if kind == TokenKind::End || check_starts_statement(tokens, pos) {
            assert(entries@ + Seq::<Entry>::empty() =~= entries@);
            assert(findings@ + Seq::<Finding>::empty() =~= findings@);
            closed = false;
            break ;
        }
        let mut step = parse_entry(tokens, pos, scope);
        let next = if step.resync {
            skip_entry_from(tokens, step.next, scope)
        } else {
            step.next
        };
        proof {
            lemma_entry_advances(tokens@, pos as int, scope);
            let rest = block_from(tokens@, next as int, scope);
            assert((entries@ + step.entries@) + rest.entries =~= entries@ + (step.entries@
                + rest.entries));
            assert((findings@ + step.findings@) + rest.findings =~= findings@ + (step.findings@
                + rest.findings));
        }
        entries.append(&mut step.entries);
        findings.append(&mut step.findings);
        pos = next;
    }
    Block { entries, findings, next: pos, closed }
}

/// What is found in a block whose opening brace stands at index `open`:
/// what is found in its entries, and the brace itself if nothing closes it.
pub open spec fn block_findings(tokens: Seq<Token>, open: int, block: BlockView) -> Seq<Finding> {
    if block.closed {
        block.findings
    } else {
        block.findings + seq![anchored(tokens, open, Rule::Unmatched)]
    }
}

/// Reports the opening brace of a block that nothing closes.
fn close_block(tokens: &Vec<Token>, open: usize, block: Block) -> (r: Block)
    ensures
        r.entries@ == block.entries@,
        r.next == block.next,
        r.closed == block.closed,
        r.findings@ == block_findings(tokens@, open as int, block@),
{
    let Block { entries, mut findings, next, closed } = block;
    if !closed {
        findings.push(anchored_at(tokens, open, Rule::Unmatched));
    }
    Block { entries, findings, next, closed }
}

// ---------------------------------------------------------------------
// Declarations

/// What reading one declaration yields: the declaration, where enough of
/// it was read to keep it; what was found wrong; where reading stopped; and
/// whether the parser has to skip to a synchronizing token from there.
pub struct DeclStepView {
    pub decl: Option<DeclarationView>,
    pub findings: Seq<Finding>,
    pub next: int,
    pub resync: bool,
}

/// One declaration as read.
struct DeclStep {
    decl: Option<Declaration>,
    findings: Vec<Finding>,
    next: usize,
    resync: bool,
}

impl View for DeclStep {
    type V = DeclStepView;

    closed spec fn view(&self) -> DeclStepView {
        DeclStepView {
            decl: match self.decl {
                Some(d) => Some(d@),
                None => None,
            },
            findings: self.findings@,
            next: self.next as int,
            resync: self.resync,
        }
    }
}

/// A declaration that broke off with `findings` at index `at`.
pub open spec fn broken(findings: Seq<Finding>, at: int) -> DeclStepView {
    DeclStepView { decl: None, findings, next: at, resync: true }
}

/// A declaration that broke off at index `at`, where `want` was due.
pub open spec fn failed(tokens: Seq<Token>, at: int, want: Want, scope: Scope) -> DeclStepView {
    broken(seq![missing(tokens, at, want, scope)], at)
}

/// A declaration read up to index `at`, where its semicolon is due. A
/// declaration that lacks only its semicolon is kept.
pub open spec fn terminated(
    tokens: Seq<Token>,
    at: int,
    scope: Scope,
    decl: DeclarationView,
    findings: Seq<Finding>,
) -> DeclStepView {
    if kind_at(tokens, at) == TokenKind::Punct(Punct::Semicolon) {
        DeclStepView { decl: Some(decl), findings, next: at + 1, resync: false }
    } else {
        DeclStepView {
            decl: Some(decl),
            findings: findings + seq![missing(tokens, at, Want::Semicolon, scope)],
            next: at,
            resync: true,
        }
    }
}

/// `juliet { ... }` at index `pos`.
pub open spec fn runtime_at(tokens: Seq<Token>, pos: int) -> DeclStepView {
    if kind_at(tokens, pos + 1) != TokenKind::Punct(Punct::OpenBrace) {
        failed(tokens, pos + 1, Want::OpenBrace, Scope::Runtime)
    } else {
        let block = block_from(tokens, pos + 2, Scope::Runtime);
        DeclStepView {
            decl: Some(DeclarationView::Runtime { keyword: tokens[pos], entries: block.entries }),
            findings: block_findings(tokens, pos + 1, block),
            next: block.next,
            resync: false,
        }
    }
}

/// `policy NAME = STRING;` at index `pos`.
pub open spec fn policy_at(tokens: Seq<Token>, pos: int) -> DeclStepView {
    if kind_at(tokens, pos + 1) != TokenKind::Identifier {
        failed(tokens, pos + 1, Want::Name, Scope::Policy)
    } else if kind_at(tokens, pos + 2) != TokenKind::Punct(Punct::Equals) {
        failed(tokens, pos + 2, Want::Equals, Scope::Policy)
    } else if !kind_at(tokens, pos + 3).is_string() {
        failed(tokens, pos + 3, Want::Text, Scope::Policy)
    } else {
        terminated(
            tokens,
            pos + 4,
            Scope::Policy,
            DeclarationView::Policy { name: tokens[pos + 1], body: tokens[pos + 3] },
            Seq::empty(),
        )
    }
}

/// `rubric NAME { ... }` at index `pos`.
pub open spec fn rubric_at(tokens: Seq<Token>, pos: int) -> DeclStepView {
    if kind_at(tokens, pos + 1) != TokenKind::Identifier {
        failed(tokens, pos + 1, Want::Name, Scope::Rubric)
    } else if kind_at(tokens, pos + 2) != TokenKind::Punct(Punct::OpenBrace) {
        failed(tokens, pos + 2, Want::OpenBrace, Scope::Rubric)
    } else {
        let block = block_from(tokens, pos + 3, Scope::Rubric);
        DeclStepView {
            decl: Some(DeclarationView::Rubric { name: tokens[pos + 1], entries: block.entries }),
            findings: block_findings(tokens, pos + 2, block),
            next: block.next,
            resync: false,
        }
    }
}

/// `cadence NAME { ... }` at index `pos`.
pub open spec fn cadence_at(tokens: Seq<Token>, pos: int) -> DeclStepView {
    if kind_at(tokens, pos + 1) != TokenKind::Identifier {
        failed(tokens, pos + 1, Want::Name, Scope::Cadence)
    } else if kind_at(tokens, pos + 2) != TokenKind::Punct(Punct::OpenBrace) {
        failed(tokens, pos + 2, Want::OpenBrace, Scope::Cadence)
    } else {
        let block = block_from(tokens, pos + 3, Scope::Cadence);
        DeclStepView {
            decl: Some(DeclarationView::Cadence { name: tokens[pos + 1], entries: block.entries }),
            findings: block_findings(tokens, pos + 2, block),
            next: block.next,
            resync: false,
        }
    }
}

/// Where an artifact comes from, as read.
pub struct OriginView {
    pub prompt: Option<Token>,
    pub files: Seq<Token>,
    pub findings: Seq<Finding>,
    pub next: int,
    pub ok: bool,
}

/// The origin of an artifact as read.
struct Origin {
    prompt: Option<Token>,
    files: Vec<Token>,
    findings: Vec<Finding>,
    next: usize,
    ok: bool,
}

impl View for Origin {
    type V = OriginView;

    closed spec fn view(&self) -> OriginView {
        OriginView {
            prompt: self.prompt,
            files: self.files@,
            findings: self.findings@,
            next: self.next as int,
            ok: self.ok,
        }
    }
}

/// The origin of an artifact at index `pos`, after `from`: either
/// `julietArtifactSourceFiles [STRING, ...]` or `juliet STRING`.
pub open spec fn origin_at(tokens: Seq<Token>, pos: int) -> OriginView {
    let kind = kind_at(tokens, pos);
    if kind == TokenKind::Keyword(Keyword::SourceFiles) {
        let list = list_at(tokens, pos + 1, Want::Text, Scope::SourceFiles);
        OriginView {
            prompt: None,
            files: list.items,
            findings: list.findings,
            next: list.next,
            ok: list.ok,
        }
    } else if kind == TokenKind::Keyword(Keyword::Juliet) {
        if kind_at(tokens, pos + 1).is_string() {
            OriginView {
                prompt: Some(tokens[pos + 1]),
                files: Seq::empty(),
                findings: Seq::empty(),
                next: pos + 2,
                ok: true,
            }
        } else {
            OriginView {
                prompt: None,
                files: Seq::empty(),
                findings: seq![missing(tokens, pos + 1, Want::Text, Scope::Create)],
                next: pos + 1,
                ok: false,
            }
        }
    } else {
        OriginView {
            prompt: None,
            files: Seq::empty(),
            findings: seq![missing(tokens, pos, Want::Origin, Scope::Create)],
            next: pos,
            ok: false,
        }
    }
}

/// The `using [NAME, ...]` clause at index `pos`, where there is one.
pub open spec fn using_at(tokens: Seq<Token>, pos: int) -> ListView {
    if kind_at(tokens, pos) == TokenKind::Keyword(Keyword::Using) {
        list_at(tokens, pos + 1, Want::Name, Scope::Using)
    } else {
        ListView { items: Seq::empty(), findings: Seq::empty(), next: pos, ok: true }
    }
}

/// The end of a `create` declaration from index `at`: the `with { ... }`
/// block, where there is one, and the semicolon.
pub open spec fn create_tail(
    tokens: Seq<Token>,
    at: int,
    name: Token,
    prompt: Option<Token>,
    files: Seq<Token>,
    using: Seq<Token>,
) -> DeclStepView {
    if kind_at(tokens, at) == TokenKind::Keyword(Keyword::With) {
        if kind_at(tokens, at + 1) != TokenKind::Punct(Punct::OpenBrace) {
            failed(tokens, at + 1, Want::OpenBrace, Scope::Attachments)
        } else {
            let block = block_from(tokens, at + 2, Scope::Attachments);
            let decl = DeclarationView::Create {
                name,
                prompt,
                files,
                using,
                attachments: block.entries,
            };
            if !block.closed {
                DeclStepView {
                    decl: Some(decl),
                    findings: block_findings(tokens, at + 1, block),
                    next: block.next,
                    resync: false,
                }
            } else {
                terminated(tokens, block.next, Scope::Create, decl, block.findings)
            }
        }
    } else {
        terminated(
            tokens,
            at,
            Scope::Create,
            DeclarationView::Create { name, prompt, files, using, attachments: Seq::empty() },
            Seq::empty(),
        )
    }
}

/// `create NAME from ORIGIN;` at index `pos`, with a `using` clause and a
/// `with` block before the semicolon where present.
pub open spec fn create_at(tokens: Seq<Token>, pos: int) -> DeclStepView {
    if kind_at(tokens, pos + 1) != TokenKind::Identifier {
        failed(tokens, pos + 1, Want::Name, Scope::Create)
    } else if kind_at(tokens, pos + 2) != TokenKind::Keyword(Keyword::From) {
        failed(tokens, pos + 2, Want::From, Scope::Create)
    } else {
        let origin = origin_at(tokens, pos + 3);
        if !origin.ok {
            broken(origin.findings, origin.next)
        } else {
            let using = using_at(tokens, origin.next);
            if !using.ok {
                broken(using.findings, using.next)
            } else {
                create_tail(
                    tokens,
                    using.next,
                    tokens[pos + 1],
                    origin.prompt,
                    origin.files,
                    using.items,
                )
            }
        }
    }
}

/// `extend NAME.PROPERTY with STRING;` at index `pos`.
pub open spec fn extend_at(tokens: Seq<Token>, pos: int) -> DeclStepView {
    if kind_at(tokens, pos + 1) != TokenKind::Identifier {
        failed(tokens, pos + 1, Want::Name, Scope::Extend)
    } else if kind_at(tokens, pos + 2) != TokenKind::Punct(Punct::Dot) {
        failed(tokens, pos + 2, Want::Dot, Scope::Extend)
    } else if !kind_at(tokens, pos + 3).is_word() {
        failed(tokens, pos + 3, Want::Name, Scope::Extend)
    } else if kind_at(tokens, pos + 4) != TokenKind::Keyword(Keyword::With) {
        failed(tokens, pos + 4, Want::With, Scope::Extend)
    } else if !kind_at(tokens, pos + 5).is_string() {
        failed(tokens, pos + 5, Want::Text, Scope::Extend)
    } else {
        terminated(
            tokens,
            pos + 6,
            Scope::Extend,
            DeclarationView::Extend {
                target: tokens[pos + 1],
                property: tokens[pos + 3],
                guidance: tokens[pos + 5],
            },
            Seq::empty(),
        )
    }
}

/// `halt;` or `halt STRING;` at index `pos`.
pub open spec fn halt_at(tokens: Seq<Token>, pos: int) -> DeclStepView {
    if kind_at(tokens, pos + 1).is_string() {
        terminated(
            tokens,
            pos + 2,
            Scope::Halt,
            DeclarationView::Halt { keyword: tokens[pos], message: Some(tokens[pos + 1]) },
            Seq::empty(),
        )
    } else {
        terminated(
            tokens,
            pos + 1,
            Scope::Halt,
            DeclarationView::Halt { keyword: tokens[pos], message: None },
            Seq::empty(),
        )
    }
}

/// A token at index `pos` that starts no declaration. A stray closing
/// bracket or semicolon is reported and passed over; anything else is
/// reported and the rest of its statement skipped.
pub open spec fn stray_at(tokens: Seq<Token>, pos: int) -> DeclStepView {
    let kind = kind_at(tokens, pos);
    if kind.is_closer() {
        DeclStepView {
            decl: None,
            findings: seq![anchored(tokens, pos, Rule::Unmatched)],
            next: pos + 1,
            resync: false,
        }
    } else {
        DeclStepView {
            decl: None,
            findings: seq![anchored(tokens, pos, Rule::ExpectedDeclaration)],
            next: pos + 1,
            resync: kind != TokenKind::Punct(Punct::Semicolon),
        }
    }
}

/// What stands at index `pos` of the top level: the declaration that its
/// first token announces, or a stray token.
pub open spec fn declaration_at(tokens: Seq<Token>, pos: int) -> DeclStepView {
    match kind_at(tokens, pos) {
        TokenKind::Keyword(Keyword::Juliet) => runtime_at(tokens, pos),
        TokenKind::Keyword(Keyword::Policy) => policy_at(tokens, pos),
        TokenKind::Keyword(Keyword::Rubric) => rubric_at(tokens, pos),
        TokenKind::Keyword(Keyword::Cadence) => cadence_at(tokens, pos),
        TokenKind::Keyword(Keyword::Create) => create_at(tokens, pos),
        TokenKind::Keyword(Keyword::Extend) => extend_at(tokens, pos),
        TokenKind::Keyword(Keyword::Halt) => halt_at(tokens, pos),
        _ => stray_at(tokens, pos),
    }
}

// ---------------------------------------------------------------------
// Recovery at the top level

/// Where the parser resumes after a broken statement, and whether it found
/// a synchronizing token before the end of input.
pub struct Resume {
    pub next: int,
    pub found: bool,
}

/// Recovery at the top level. Tokens are skipped up to and including the
/// next semicolon outside nested brackets; or up to and including the brace
/// that closes a block opened on the way, with the semicolon right behind
/// it if there is one; or up to the start of the next statement outside
/// nested brackets; or to the end of input.
pub open spec fn skip_statement(tokens: Seq<Token>, i: int, depth: nat) -> Resume
    decreases tokens.len() - i,
{
    let kind = kind_at(tokens, i);
    if i < 0 || i >= tokens.len() || kind == TokenKind::End {
        Resume { next: i, found: false }
    } else if depth == 0 && kind == TokenKind::Punct(Punct::Semicolon) {
        Resume { next: i + 1, found: true }
    } else if depth == 0 && starts_statement(tokens, i) {
        Resume { next: i, found: true }
    } else if depth == 1 && kind == TokenKind::Punct(Punct::CloseBrace) {
        if kind_at(tokens, i + 1) == TokenKind::Punct(Punct::Semicolon) {
            Resume { next: i + 2, found: true }
        } else {
            Resume { next: i + 1, found: true }
        }
    } else if kind.is_opener() {
        skip_statement(tokens, i + 1, depth + 1)
    } else if kind.is_closer() {
        skip_statement(tokens, i + 1, if depth > 0 { (depth - 1) as nat } else { 0 })
    } else {
        skip_statement(tokens, i + 1, depth)
    }
}

proof fn lemma_skip_statement_bounds(tokens: Seq<Token>, i: int, depth: nat)
    requires
        0 <= i <= tokens.len(),
    ensures
        i <= skip_statement(tokens, i, depth).next <= tokens.len(),
    decreases tokens.len() - i,
{
    let kind = kind_at(tokens, i);
    if i >= tokens.len() || kind == TokenKind::End {
    } else if depth == 0 && kind == TokenKind::Punct(Punct::Semicolon) {
    } else if depth == 0 && starts_statement(tokens, i) {
    } else if depth == 1 && kind == TokenKind::Punct(Punct::CloseBrace) {
    } else if kind.is_opener() {
        lemma_skip_statement_bounds(tokens, i + 1, depth + 1);
    } else if kind.is_closer() {
        lemma_skip_statement_bounds(tokens, i + 1, if depth > 0 { (depth - 1) as nat } else { 0 });
    } else {
        lemma_skip_statement_bounds(tokens, i + 1, depth);
    }
}

/// What recovery adds to the findings of a step: the end of input, where
/// the step has to resynchronize and no synchronizing token is left.
pub open spec fn recovery_findings(tokens: Seq<Token>, step: DeclStepView) -> Seq<Finding> {
    if step.resync && !skip_statement(tokens, step.next, 0).found {
        seq![anchored(tokens, skip_statement(tokens, step.next, 0).next, Rule::UnexpectedEnd)]
    } else {
        Seq::empty()
    }
}

/// The index at which the top level is read on after a step.
pub open spec fn after_step(tokens: Seq<Token>, step: DeclStepView) -> int {
    if step.resync {
        skip_statement(tokens, step.next, 0).next
    } else {
        step.next
    }
}

/// Reading a declaration stops inside the token stream, after its first token.
proof fn lemma_declaration_bounds(tokens: Seq<Token>, pos: int)
    requires
        0 <= pos < tokens.len(),
        kind_at(tokens, pos) != TokenKind::End,
    ensures
        pos < declaration_at(tokens, pos).next <= tokens.len(),
{
    if pos + 2 <= tokens.len() {
        lemma_block_bounds(tokens, pos + 2, Scope::Runtime);
    }
    if pos + 3 <= tokens.len() {
        lemma_block_bounds(tokens, pos + 3, Scope::Rubric);
        lemma_block_bounds(tokens, pos + 3, Scope::Cadence);
        let origin = origin_at(tokens, pos + 3);
        if pos + 4 <= tokens.len() {
            lemma_list_bounds(tokens, pos + 4, Want::Text, Scope::SourceFiles);
        }
        assert(pos + 3 <= origin.next <= tokens.len());
        let using = using_at(tokens, origin.next);
        if origin.next + 1 <= tokens.len() {
            lemma_list_bounds(tokens, origin.next + 1, Want::Name, Scope::Using);
        }
        assert(origin.next <= using.next <= tokens.len());
        if using.next + 2 <= tokens.len() {
            lemma_block_bounds(tokens, using.next + 2, Scope::Attachments);
        }
    }
}

/// The top level is read on strictly after a step, so parsing ends.
pub proof fn lemma_declaration_advances(tokens: Seq<Token>, pos: int)
    requires
        0 <= pos < tokens.len(),
        kind_at(tokens, pos) != TokenKind::End,
    ensures
        pos < after_step(tokens, declaration_at(tokens, pos)) <= tokens.len(),
{
    lemma_declaration_bounds(tokens, pos);
    lemma_skip_statement_bounds(tokens, declaration_at(tokens, pos).next, 0);
}

// ---------------------------------------------------------------------
// Scripts

/// The declarations of a script and what the parser found wrong with it.
pub struct ParsedView {
    pub declarations: Seq<DeclarationView>,
    pub findings: Seq<Finding>,
}

/// The declaration of a step, if the step kept one.
pub open spec fn kept(step: DeclStepView) -> Seq<DeclarationView> {
    match step.decl {
        Some(d) => seq![d],
        None => Seq::empty(),
    }
}

/// What parsing yields from index `pos` to the end of the token stream.
pub open spec fn parse_from(tokens: Seq<Token>, pos: int) -> ParsedView
    decreases tokens.len() - pos,
{
    if pos < 0 || pos >= tokens.len() || kind_at(tokens, pos) == TokenKind::End {
        ParsedView { declarations: Seq::empty(), findings: Seq::empty() }
    } else {
        proof {
            lemma_declaration_advances(tokens, pos);
        }
        let step = declaration_at(tokens, pos);
        let rest = parse_from(tokens, after_step(tokens, step));
        ParsedView {
            declarations: kept(step) + rest.declarations,
            findings: step.findings + recovery_findings(tokens, step) + rest.findings,
        }
    }
}

/// The declarations of a token stream, in source order, and the findings
/// of the parser, in the order in which it makes them.
pub open spec fn parse_spec(tokens: Seq<Token>) -> ParsedView {
    parse_from(tokens, 0)
}

fn failed_decl(tokens: &Vec<Token>, at: usize, want: Want, scope: Scope) -> (r: DeclStep)
    ensures
        r@ == failed(tokens@, at as int, want, scope),
{
    let mut findings: Vec<Finding> = Vec::new();
    findings.push(missing_at(tokens, at, want, scope));
    DeclStep { decl: None, findings, next: at, resync: true }
}

fn terminate(
    tokens: &Vec<Token>,
    at: usize,
    scope: Scope,
    decl: Declaration,
    findings: Vec<Finding>,
) -> (r: DeclStep)
    requires
        at <= tokens.len(),
    ensures
        r@ == terminated(tokens@, at as int, scope, decl@, findings@),
        at <= r.next <= tokens.len(),
{
    let ghost before = findings@;
    let mut findings = findings;
    if kind_of(tokens, at) == TokenKind::Punct(Punct::Semicolon) {
        DeclStep { decl: Some(decl), findings, next: at + 1, resync: false }
    } else {
        findings.push(missing_at(tokens, at, Want::Semicolon, scope));
        assert(findings@ =~= before + seq![missing(tokens@, at as int, Want::Semicolon, scope)]);
        DeclStep { decl: Some(decl), findings, next: at, resync: true }
    }
}

fn parse_runtime(tokens: &Vec<Token>, pos: usize) -> (r: DeclStep)
    requires
        pos < tokens.len(),
    ensures
        r@ == runtime_at(tokens@, pos as int),
{
    if kind_of(tokens, pos + 1) != TokenKind::Punct(Punct::OpenBrace) {
        return failed_decl(tokens, pos + 1, Want::OpenBrace, Scope::Runtime);
    }
    let block = close_block(tokens, pos + 1, parse_block(tokens, pos + 2, Scope::Runtime));
    DeclStep {
        decl: Some(Declaration::Runtime { keyword: tokens[pos], entries: block.entries }),
        findings: block.findings,
        next: block.next,
        resync: false,
    }
}

fn parse_policy(tokens: &Vec<Token>, pos: usize) -> (r: DeclStep)
    requires
        pos < tokens.len(),
    ensures
        r@ == policy_at(tokens@, pos as int),
{
    if kind_of(tokens, pos + 1) != TokenKind::Identifier {
        return failed_decl(tokens, pos + 1, Want::Name, Scope::Policy);
    }
    if kind_of(tokens, pos + 2) != TokenKind::Punct(Punct::Equals) {
        return failed_decl(tokens, pos + 2, Want::Equals, Scope::Policy);
    }
    if !kind_of(tokens, pos + 3).check_string() {
        return failed_decl(tokens, pos + 3, Want::Text, Scope::Policy);
    }
    let decl = Declaration::Policy { name: tokens[pos + 1], body: tokens[pos + 3] };
    terminate(tokens, pos + 4, Scope::Policy, decl, Vec::new())
}

fn parse_rubric(tokens: &Vec<Token>, pos: usize) -> (r: DeclStep)
    requires
        pos < tokens.len(),
    ensures
        r@ == rubric_at(tokens@, pos as int),
{
    if kind_of(tokens, pos + 1) != TokenKind::Identifier {
        return failed_decl(tokens, pos + 1, Want::Name, Scope::Rubric);
    }
    if kind_of(tokens, pos + 2) != TokenKind::Punct(Punct::OpenBrace) {
        return failed_decl(tokens, pos + 2, Want::OpenBrace, Scope::Rubric);
    }
    let block = close_block(tokens, pos + 2, parse_block(tokens, pos + 3, Scope::Rubric));
    DeclStep {
        decl: Some(Declaration::Rubric { name: tokens[pos + 1], entries: block.entries }),
        findings: block.findings,
        next: block.next,
        resync: false,
    }
}

fn parse_cadence(tokens: &Vec<Token>, pos: usize) -> (r: DeclStep)
    requires
        pos < tokens.len(),
    ensures
        r@ == cadence_at(tokens@, pos as int),
{
    if kind_of(tokens, pos + 1) != TokenKind::Identifier {
        return failed_decl(tokens, pos + 1, Want::Name, Scope::Cadence);
    }
    if kind_of(tokens, pos + 2) != TokenKind::Punct(Punct::OpenBrace) {
        return failed_decl(tokens, pos + 2, Want::OpenBrace, Scope::Cadence);
    }
    let block = close_block(tokens, pos + 2, parse_block(tokens, pos + 3, Scope::Cadence));
    DeclStep {
        decl: Some(Declaration::Cadence { name: tokens[pos + 1], entries: block.entries }),
        findings: block.findings,
        next: block.next,
        resync: false,
    }
}

fn parse_origin(tokens: &Vec<Token>, pos: usize) -> (r: Origin)
    requires
        pos <= tokens.len(),
    ensures
        r@ == origin_at(tokens@, pos as int),
        pos <= r.next <= tokens.len(),
{
    let kind = kind_of(tokens, pos);
    if kind == TokenKind::Keyword(Keyword::SourceFiles) {
        let list = parse_list(tokens, pos + 1, Want::Text, Scope::SourceFiles);
        Origin {
            prompt: None,
            files: list.items,
            findings: list.findings,
            next: list.next,
            ok: list.ok,
        }
    } else if kind == TokenKind::Keyword(Keyword::Juliet) {
        if kind_of(tokens, pos + 1).check_string() {
            Origin {
                prompt: Some(tokens[pos + 1]),
                files: Vec::new(),
                findings: Vec::new(),
                next: pos + 2,
                ok: true,
            }
        } else {
            let mut findings: Vec<Finding> = Vec::new();
            findings.push(missing_at(tokens, pos + 1, Want::Text, Scope::Create));
            Origin { prompt: None, files: Vec::new(), findings, next: pos + 1, ok: false }
        }
    } else {
        let mut findings: Vec<Finding> = Vec::new();
        findings.push(missing_at(tokens, pos, Want::Origin, Scope::Create));
        Origin { prompt: None, files: Vec::new(), findings, next: pos, ok: false }
    }
}

fn parse_using(tokens: &Vec<Token>, pos: usize) -> (r: List)
    requires
        pos <= tokens.len(),
    ensures
        r@ == using_at(tokens@, pos as int),
        pos <= r.next <= tokens.len(),
{
    if kind_of(tokens, pos) == TokenKind::Keyword(Keyword::Using) {
        parse_list(tokens, pos + 1, Want::Name, Scope::Using)
    } else {
        List { items: Vec::new(), findings: Vec::new(), next: pos, ok: true }
    }
}

fn parse_create_tail(
    tokens: &Vec<Token>,
    at: usize,
    name: Token,
    prompt: Option<Token>,
    files: Vec<Token>,
    using: Vec<Token>,
) -> (r: DeclStep)
    requires
        at <= tokens.len(),
    ensures
        r@ == create_tail(tokens@, at as int, name, prompt, files@, using@),
{
    if kind_of(tokens, at) == TokenKind::Keyword(Keyword::With) {
        if kind_of(tokens, at + 1) != TokenKind::Punct(Punct::OpenBrace) {
            return failed_decl(tokens, at + 1, Want::OpenBrace, Scope::Attachments);
        }
        let block = close_block(tokens, at + 1, parse_block(tokens, at + 2, Scope::Attachments));
        let decl = Declaration::Create { name, prompt, files, using, attachments: block.entries };
        if !block.closed {
            DeclStep {
                decl: Some(decl),
                findings: block.findings,
                next: block.next,
                resync: false,
            }
        } else {
            terminate(tokens, block.next, Scope::Create, decl, block.findings)
        }
    } else {
        let decl = Declaration::Create { name, prompt, files, using, attachments: Vec::new() };
        terminate(tokens, at, Scope::Create, decl, Vec::new())
    }
}

fn parse_create(tokens: &Vec<Token>, pos: usize) -> (r: DeclStep)
    requires
        pos < tokens.len(),
    ensures
        r@ == create_at(tokens@, pos as int),
{
    if kind_of(tokens, pos + 1) != TokenKind::Identifier {
        return failed_decl(tokens, pos + 1, Want::Name, Scope::Create);
    }
    if kind_of(tokens, pos + 2) != TokenKind::Keyword(Keyword::From) {
        return failed_decl(tokens, pos + 2, Want::From, Scope::Create);
    }
    let origin = parse_origin(tokens, pos + 3);
    if !origin.ok {
        return DeclStep { decl: None, findings: origin.findings, next: origin.next, resync: true };
    }
    let using = parse_using(tokens, origin.next);
    if !using.ok {
        return DeclStep { decl: None, findings: using.findings, next: using.next, resync: true };
    }
    parse_create_tail(tokens, using.next, tokens[pos + 1], origin.prompt, origin.files, using.items)
}

fn parse_extend(tokens: &Vec<Token>, pos: usize) -> (r: DeclStep)
    requires
        pos < tokens.len(),
    ensures
        r@ == extend_at(tokens@, pos as int),
{
    if kind_of(tokens, pos + 1) != TokenKind::Identifier {
        return failed_decl(tokens, pos + 1, Want::Name, Scope::Extend);
    }
    if kind_of(tokens, pos + 2) != TokenKind::Punct(Punct::Dot) {
        return failed_decl(tokens, pos + 2, Want::Dot, Scope::Extend);
    }
    if !kind_of(tokens, pos + 3).check_word() {
        return failed_decl(tokens, pos + 3, Want::Name, Scope::Extend);
    }
    if kind_of(tokens, pos + 4) != TokenKind::Keyword(Keyword::With) {
        return failed_decl(tokens, pos + 4, Want::With, Scope::Extend);
    }
    if !kind_of(tokens, pos + 5).check_string() {
        return failed_decl(tokens, pos + 5, Want::Text, Scope::Extend);
    }
    let decl = Declaration::Extend {
        target: tokens[pos + 1],
        property: tokens[pos + 3],
        guidance: tokens[pos + 5],
    };
    terminate(tokens, pos + 6, Scope::Extend, decl, Vec::new())
}

fn parse_halt(tokens: &Vec<Token>, pos: usize) -> (r: DeclStep)
    requires
        pos < tokens.len(),
    ensures
        r@ == halt_at(tokens@, pos as int),
{
    if kind_of(tokens, pos + 1).check_string() {
        let decl = Declaration::Halt { keyword: tokens[pos], message: Some(tokens[pos + 1]) };
        terminate(tokens, pos + 2, Scope::Halt, decl, Vec::new())
    } else {
        let decl = Declaration::Halt { keyword: tokens[pos], message: None };
        terminate(tokens, pos + 1, Scope::Halt, decl, Vec::new())
    }
}

fn parse_stray(tokens: &Vec<Token>, pos: usize) -> (r: DeclStep)
    requires
        pos < tokens.len(),
    ensures
        r@ == stray_at(tokens@, pos as int),
{
    let kind = tokens[pos].kind;
    let mut findings: Vec<Finding> = Vec::new();
    if kind.check_closer() {
        findings.push(anchored_at(tokens, pos, Rule::Unmatched));
        DeclStep { decl: None, findings, next: pos + 1, resync: false }
    } else {
        findings.push(anchored_at(tokens, pos, Rule::ExpectedDeclaration));
        DeclStep {
            decl: None,
            findings,
            next: pos + 1,
            resync: kind != TokenKind::Punct(Punct::Semicolon),
        }
    }
}

/// Reads what stands at index `pos` of the top level.
fn parse_declaration(tokens: &Vec<Token>, pos: usize) -> (r: DeclStep)
    requires
        pos < tokens.len(),
    ensures
        r@ == declaration_at(tokens@, pos as int),
{
    match tokens[pos].kind {
        TokenKind::Keyword(Keyword::Juliet) => parse_runtime(tokens, pos),
        TokenKind::Keyword(Keyword::Policy) => parse_policy(tokens, pos),
        TokenKind::Keyword(Keyword::Rubric) => parse_rubric(tokens, pos),
        TokenKind::Keyword(Keyword::Cadence) => parse_cadence(tokens, pos),
        TokenKind::Keyword(Keyword::Create) => parse_create(tokens, pos),
        TokenKind::Keyword(Keyword::Extend) => parse_extend(tokens, pos),
        TokenKind::Keyword(Keyword::Halt) => parse_halt(tokens, pos),
        _ => parse_stray(tokens, pos),
    }
}

/// Where the parser resumes, and whether it found a synchronizing token.
#[derive(Clone, Copy, Debug)]
struct Resumed {
    next: usize,
    found: bool,
}

/// Skips the rest of a broken statement.
fn skip_statement_from(tokens: &Vec<Token>, start: usize) -> (r: Resumed)
    requires
        start <= tokens.len(),
    ensures
        r.next == skip_statement(tokens@, start as int, 0).next,
        r.found == skip_statement(tokens@, start as int, 0).found,
        start <= r.next <= tokens.len(),
{
    let mut i = start;
    let mut depth: usize = 0;
    let mut found = false;
    loop
        invariant_except_break
            start <= i <= tokens.len(),
            depth <= i - start,
            skip_statement(tokens@, start as int, 0) == skip_statement(
                tokens@,
                i as int,
                depth as nat,
            ),
        ensures
            start <= i <= tokens.len(),
            (Resume { next: i as int, found }) == skip_statement(tokens@, start as int, 0),
        decreases tokens.len() - i,
    {
        if i >= tokens.len() {
            found = false;
            break ;
        }
        let kind = tokens[i].kind;
        if kind == TokenKind::End {
            found = false;
            break ;
        }
        if depth == 0 && kind == TokenKind::Punct(Punct::Semicolon) {
            i = i + 1;
            found = true;
            break ;
        }
        if depth == 0 && check_starts_statement(tokens, i) {
            found = true;
            break ;
        }
        if depth == 1 && kind == TokenKind::Punct(Punct::CloseBrace) {
            if kind_of(tokens, i + 1) == TokenKind::Punct(Punct::Semicolon) {
                i = i + 2;
            } else {
                i = i + 1;
            }
            found = true;
            break ;
        }
        if kind.check_opener() {
            depth = depth + 1;
        } else if kind.check_closer() {
            if depth > 0 {
                depth = depth - 1;
            }
        }
        i = i + 1;
    }
    Resumed { next: i, found }
}

/// The declarations of a script and what the parser found wrong with it.
pub struct Parsed {
    pub declarations: Vec<Declaration>,
    pub findings: Vec<Finding>,
}

/// Parses a token stream. Every declaration that could be read is
/// returned, in source order; every statement that could not is reported.
/// Parsing never stops before the end of the stream: after a broken
/// statement it resumes at the next synchronizing token.
pub fn parse(tokens: &Vec<Token>) -> (r: Parsed)
    ensures
        views(r.declarations@) == parse_spec(tokens@).declarations,
        r.findings@ == parse_spec(tokens@).findings,
{
    let mut declarations: Vec<Declaration> = Vec::new();
    let mut findings: Vec<Finding> = Vec::new();
    let mut pos: usize = 0;
    assert(views(declarations@) =~= Seq::<DeclarationView>::empty());
    while pos < tokens.len() && tokens[pos].kind != TokenKind::End
        invariant
            pos <= tokens.len(),
            parse_from(tokens@, 0).declarations == views(declarations@) + parse_from(
                tokens@,
                pos as int,
            ).declarations,
            parse_from(tokens@, 0).findings == findings@ + parse_from(tokens@, pos as int).findings,
        decreases tokens.len() - pos,
    {
        let step = parse_declaration(tokens, pos);
        let ghost step_view = step@;
        let ghost before_declarations = declarations@;
        let ghost before_findings = findings@;
        let DeclStep { decl, findings: mut step_findings, next, resync } = step;
        proof {
            lemma_declaration_advances(tokens@, pos as int);
            lemma_declaration_bounds(tokens@, pos as int);
        }
        match decl {
            Some(d) => {
                declarations.push(d);
                assert(views(declarations@) =~= views(before_declarations) + kept(step_view));
            },
            None => {
                assert(views(declarations@) =~= views(before_declarations) + kept(step_view));
            },
        }
        findings.append(&mut step_findings);
        let mut resume = next;
        if resync {
            let resumed = skip_statement_from(tokens, next);
            if !resumed.found {
                findings.push(anchored_at(tokens, resumed.next, Rule::UnexpectedEnd));
            }
            resume = resumed.next;
        }
        proof {
            let rest = parse_from(tokens@, resume as int);
            assert(resume as int == after_step(tokens@, step_view));
            assert(findings@ =~= before_findings + step_view.findings + recovery_findings(
                tokens@,
                step_view,
            ));
            assert(views(declarations@) + rest.declarations =~= views(before_declarations) + (kept(
                step_view,
            ) + rest.declarations));
            assert(findings@ + rest.findings =~= before_findings + (step_view.findings
                + recovery_findings(tokens@, step_view) + rest.findings));
        }
        pos = resume;
    }
    proof {
        assert(views(declarations@) + Seq::<DeclarationView>::empty() =~= views(declarations@));
        assert(findings@ + Seq::<Finding>::empty() =~= findings@);
    }
    Parsed { declarations, findings }
}

} // verus!
