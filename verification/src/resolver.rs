//! The resolver and validator: one walk over the declarations in source
//! order. A name may only be used after its declaration, and declared once;
//! numeric fields, option names and required clauses are checked for each
//! kind of declaration. Nothing stops the walk: every declaration is
//! checked whatever was found before it.

use vstd::prelude::*;
use vstd::string::*;
use crate::source::{Position, Span, text_of, same_text, text_is, to_chars};
use crate::token::{Token, TokenKind};
use crate::finding::{Finding, Namespace, Quantity, Range, Rule, Scope};
use crate::lexer::{is_digit, check_digit};
use crate::syntax::{Declaration, DeclarationView, Entry, views};

verus! {

/// The text of a token: the name it spells, or the body of a string.
pub open spec fn name_of(src: Seq<char>, token: Token) -> Seq<char> {
    text_of(src, token.text)
}

/// The name that a declaration brings into a namespace, if it brings one.
pub open spec fn declared_name(decl: DeclarationView) -> Option<(Namespace, Token)> {
    match decl {
        DeclarationView::Policy { name, .. } => Some((Namespace::Policy, name)),
        DeclarationView::Rubric { name, .. } => Some((Namespace::Rubric, name)),
        DeclarationView::Cadence { name, .. } => Some((Namespace::Cadence, name)),
        DeclarationView::Create { name, .. } => Some((Namespace::Artifact, name)),
        _ => None,
    }
}

/// Whether `decl` declares `name` in `space`.
pub open spec fn declares(src: Seq<char>, decl: DeclarationView, space: Namespace, name: Seq<char>)
    -> bool {
    declared_name(decl) matches Some((s, token)) && s == space && name_of(src, token) == name
}

/// Whether one of the first `i` declarations declares `name` in `space`.
pub open spec fn declared_before(
    src: Seq<char>,
    decls: Seq<DeclarationView>,
    i: int,
    space: Namespace,
    name: Seq<char>,
) -> bool {
    exists|j: int| 0 <= j < i && j < decls.len() && declares(src, #[trigger] decls[j], space, name)
}

/// Whether one of the first `i` declarations is a block of runtime defaults.
pub open spec fn runtime_before(decls: Seq<DeclarationView>, i: int) -> bool {
    exists|j: int| 0 <= j < i && j < decls.len() && #[trigger] decls[j] is Runtime
}

/// A finding about `token`, which it quotes.
pub open spec fn flag(rule: Rule, token: Token) -> Finding {
    Finding {
        rule,
        subject: token.text,
        range: Range { start: token.start, end: Some(token.end) },
    }
}

/// The finding about `token`, unless `ok` holds.
pub open spec fn flag_unless(ok: bool, rule: Rule, token: Token) -> Seq<Finding> {
    if ok {
        Seq::empty()
    } else {
        seq![flag(rule, token)]
    }
}

/// A use of a name in declaration `i`: it must be declared before.
pub open spec fn reference_findings(
    src: Seq<char>,
    decls: Seq<DeclarationView>,
    i: int,
    space: Namespace,
    token: Token,
) -> Seq<Finding> {
    flag_unless(
        declared_before(src, decls, i, space, name_of(src, token)),
        Rule::Undeclared(space),
        token,
    )
}

/// The declaration of a name by declaration `i`: it must be new.
pub open spec fn fresh_findings(
    src: Seq<char>,
    decls: Seq<DeclarationView>,
    i: int,
    space: Namespace,
    token: Token,
) -> Seq<Finding> {
    flag_unless(
        !declared_before(src, decls, i, space, name_of(src, token)),
        Rule::Redeclared(space),
        token,
    )
}

/// Digits only, and at least one.
pub open spec fn is_natural(text: Seq<char>) -> bool {
    text.len() > 0 && forall|k: int| 0 <= k < text.len() ==> is_digit(#[trigger] text[k])
}

/// Nothing but the digit zero.
pub open spec fn is_zero(text: Seq<char>) -> bool {
    forall|k: int| 0 <= k < text.len() ==> #[trigger] text[k] == '0'
}

/// Whether `token` is a number in the range of `quantity`: a non-negative
/// integer, and not zero where the quantity has to be positive.
pub open spec fn count_ok(src: Seq<char>, quantity: Quantity, token: Token) -> bool {
    token.kind == TokenKind::Number && is_natural(name_of(src, token)) && (quantity.positive()
        ==> !is_zero(name_of(src, token)))
}

/// A numeric field: it must be in the range of its quantity.
pub open spec fn count_findings(src: Seq<char>, quantity: Quantity, token: Token) -> Seq<Finding> {
    flag_unless(count_ok(src, quantity, token), Rule::InvalidCount(quantity), token)
}

/// Whether one of the first `k` entries is a criterion with this label.
pub open spec fn label_before(src: Seq<char>, entries: Seq<Entry>, k: int, label: Seq<char>)
    -> bool {
    exists|j: int|
        0 <= j < k && j < entries.len() && (#[trigger] entries[j] matches Entry::Criterion {
            label: l,
            ..
        } && name_of(src, l) == label)
}

/// Entry `k` of a rubric: the points of a criterion are a non-negative
/// integer; a tiebreaker repeats the label of an earlier criterion.
pub open spec fn rubric_entry_findings(src: Seq<char>, entries: Seq<Entry>, k: int) -> Seq<
    Finding,
> {
    match entries[k] {
        Entry::Criterion { points, .. } => count_findings(src, Quantity::Points, points),
        Entry::Tiebreaker { label } => flag_unless(
            label_before(src, entries, k, name_of(src, label)),
            Rule::UnknownTiebreaker,
            label,
        ),
        _ => Seq::empty(),
    }
}

/// An entry of cadence `i`: `variants` and `sprints` are positive integers,
/// `engine` is free, no other option is known; the rubric to compare with
/// is declared before; the number to keep is a non-negative integer.
pub open spec fn cadence_entry_findings(
    src: Seq<char>,
    decls: Seq<DeclarationView>,
    i: int,
    entry: Entry,
) -> Seq<Finding> {
    match entry {
        Entry::Setting { key, value } => if name_of(src, key) == "engine"@ {
            Seq::empty()
        } else if name_of(src, key) == "variants"@ {
            count_findings(src, Quantity::Variants, value)
        } else if name_of(src, key) == "sprints"@ {
            count_findings(src, Quantity::Sprints, value)
        } else {
            seq![flag(Rule::UnknownOption(Scope::Cadence), key)]
        },
        Entry::Compare { rubric } => reference_findings(src, decls, i, Namespace::Rubric, rubric),
        Entry::Keep { count } => count_findings(src, Quantity::Keep, count),
        _ => Seq::empty(),
    }
}

/// An entry of the runtime defaults: `engine` is the one option known.
pub open spec fn runtime_entry_findings(src: Seq<char>, entry: Entry) -> Seq<Finding> {
    match entry {
        Entry::Setting { key, .. } => flag_unless(
            name_of(src, key) == "engine"@,
            Rule::UnknownOption(Scope::Runtime),
            key,
        ),
        _ => Seq::empty(),
    }
}

/// The namespace in which the value of an attachment is looked up.
pub open spec fn attachment_space(key: Seq<char>) -> Option<Namespace> {
    if key == "preflight"@ || key == "failureTriage"@ {
        Some(Namespace::Policy)
    } else if key == "cadence"@ {
        Some(Namespace::Cadence)
    } else if key == "rubric"@ {
        Some(Namespace::Rubric)
    } else {
        None
    }
}

/// An entry of the `with` block of artifact `i`: its key is one of the four
/// attachments, its value a name declared before in the matching namespace.
pub open spec fn attachment_findings(
    src: Seq<char>,
    decls: Seq<DeclarationView>,
    i: int,
    entry: Entry,
) -> Seq<Finding> {
    match entry {
        Entry::Setting { key, value } => match attachment_space(name_of(src, key)) {
            Some(space) => reference_findings(src, decls, i, space, value),
            None => seq![flag(Rule::UnknownOption(Scope::Attachments), key)],
        },
        _ => Seq::empty(),
    }
}

/// What is found wrong with entry `k` of a block of `scope` in declaration `i`.
pub open spec fn entry_findings(
    src: Seq<char>,
    decls: Seq<DeclarationView>,
    i: int,
    scope: Scope,
    entries: Seq<Entry>,
    k: int,
) -> Seq<Finding> {
    match scope {
        Scope::Rubric => rubric_entry_findings(src, entries, k),
        Scope::Cadence => cadence_entry_findings(src, decls, i, entries[k]),
        Scope::Runtime => runtime_entry_findings(src, entries[k]),
        Scope::Attachments => attachment_findings(src, decls, i, entries[k]),
        _ => Seq::empty(),
    }
}

/// What is found wrong with the first `n` entries of a block, in order.
pub open spec fn entries_findings(
    src: Seq<char>,
    decls: Seq<DeclarationView>,
    i: int,
    scope: Scope,
    entries: Seq<Entry>,
    n: int,
) -> Seq<Finding>
    decreases n,
{
    if n <= 0 {
        Seq::empty()
    } else {
        entries_findings(src, decls, i, scope, entries, n - 1) + entry_findings(
            src,
            decls,
            i,
            scope,
            entries,
            n - 1,
        )
    }
}

/// What is found wrong with the first `n` names of a `using` list, in order.
pub open spec fn using_findings(
    src: Seq<char>,
    decls: Seq<DeclarationView>,
    i: int,
    using: Seq<Token>,
    n: int,
) -> Seq<Finding>
    decreases n,
{
    if n <= 0 {
        Seq::empty()
    } else {
        using_findings(src, decls, i, using, n - 1) + reference_findings(
            src,
            decls,
            i,
            Namespace::Artifact,
            using[n - 1],
        )
    }
}

/// Whether an entry is of the kind that `scope` names: a criterion, a
/// compare clause or a keep clause.
pub open spec fn entry_is(entry: Entry, scope: Scope) -> bool {
    match scope {
        Scope::Criterion => entry is Criterion,
        Scope::Compare => entry is Compare,
        Scope::Keep => entry is Keep,
        _ => false,
    }
}

/// Whether one of the entries is of the kind that `scope` names.
pub open spec fn has_entry(entries: Seq<Entry>, scope: Scope) -> bool {
    exists|k: int| 0 <= k < entries.len() && entry_is(#[trigger] entries[k], scope)
}

/// The origin of an artifact: a prompt is not empty, and an artifact
/// without a prompt lists at least one source file.
pub open spec fn origin_findings(
    src: Seq<char>,
    name: Token,
    prompt: Option<Token>,
    files: Seq<Token>,
) -> Seq<Finding> {
    match prompt {
        Some(p) => flag_unless(name_of(src, p).len() > 0, Rule::EmptyPrompt, p),
        None => flag_unless(files.len() > 0, Rule::EmptySourceFiles, name),
    }
}

/// What is found wrong with declaration `i`.
pub open spec fn declaration_findings(src: Seq<char>, decls: Seq<DeclarationView>, i: int) -> Seq<
    Finding,
> {
    match decls[i] {
        DeclarationView::Runtime { keyword, entries } => flag_unless(
            !runtime_before(decls, i),
            Rule::RuntimeRedeclared,
            keyword,
        ) + entries_findings(src, decls, i, Scope::Runtime, entries, entries.len() as int),
        DeclarationView::Policy { name, .. } => fresh_findings(
            src,
            decls,
            i,
            Namespace::Policy,
            name,
        ),
        DeclarationView::Rubric { name, entries } => fresh_findings(
            src,
            decls,
            i,
            Namespace::Rubric,
            name,
        ) + entries_findings(src, decls, i, Scope::Rubric, entries, entries.len() as int)
            + flag_unless(has_entry(entries, Scope::Criterion), Rule::MissingCriterion, name),
        DeclarationView::Cadence { name, entries } => fresh_findings(
            src,
            decls,
            i,
            Namespace::Cadence,
            name,
        ) + entries_findings(src, decls, i, Scope::Cadence, entries, entries.len() as int)
            + flag_unless(has_entry(entries, Scope::Compare), Rule::MissingCompare, name)
            + flag_unless(has_entry(entries, Scope::Keep), Rule::MissingKeep, name),
        DeclarationView::Create { name, prompt, files, using, attachments } => fresh_findings(
            src,
            decls,
            i,
            Namespace::Artifact,
            name,
        ) + origin_findings(src, name, prompt, files) + using_findings(
            src,
            decls,
            i,
            using,
            using.len() as int,
        ) + entries_findings(
            src,
            decls,
            i,
            Scope::Attachments,
            attachments,
            attachments.len() as int,
        ),
        DeclarationView::Extend { target, property, .. } => reference_findings(
            src,
            decls,
            i,
            Namespace::Artifact,
            target,
        ) + flag_unless(name_of(src, property) == "rubric"@, Rule::UnsupportedProperty, property),
        DeclarationView::Halt { .. } => Seq::empty(),
    }
}

/// What is found wrong with the first `n` declarations, in source order.
pub open spec fn resolve_upto(src: Seq<char>, decls: Seq<DeclarationView>, n: int) -> Seq<Finding>
    decreases n,
{
    if n <= 0 {
        Seq::empty()
    } else {
        resolve_upto(src, decls, n - 1) + declaration_findings(src, decls, n - 1)
    }
}

/// What the resolver reports about the declarations of a script.
pub open spec fn resolve_spec(src: Seq<char>, decls: Seq<DeclarationView>) -> Seq<Finding> {
    resolve_upto(src, decls, decls.len() as int)
}

// ---------------------------------------------------------------------
// The symbol table

/// Whether one of `names` spells `name`.
pub open spec fn spelled_in(src: Seq<char>, names: Seq<Token>, name: Seq<char>) -> bool {
    exists|k: int| 0 <= k < names.len() && name_of(src, #[trigger] names[k]) == name
}

proof fn lemma_spelled_after_push(
    src: Seq<char>,
    names: Seq<Token>,
    token: Token,
    name: Seq<char>,
)
    ensures
        spelled_in(src, names.push(token), name) <==> (spelled_in(src, names, name) || name_of(
            src,
            token,
        ) == name),
{
    let longer = names.push(token);
    if spelled_in(src, longer, name) {
        let k = choose|k: int| 0 <= k < longer.len() && name_of(src, #[trigger] longer[k]) == name;
        if k < names.len() {
            assert(names[k] == longer[k]);
        }
    }
    if spelled_in(src, names, name) {
        let k = choose|k: int| 0 <= k < names.len() && name_of(src, #[trigger] names[k]) == name;
        assert(longer[k] == names[k]);
    }
    if name_of(src, token) == name {
        assert(longer[names.len() as int] == token);
    }
}

proof fn lemma_declared_step(
    src: Seq<char>,
    decls: Seq<DeclarationView>,
    i: int,
    space: Namespace,
    name: Seq<char>,
)
    requires
        0 <= i < decls.len(),
    ensures
        declared_before(src, decls, i + 1, space, name) <==> (declared_before(
            src,
            decls,
            i,
            space,
            name,
        ) || declares(src, decls[i], space, name)),
{
    if declared_before(src, decls, i + 1, space, name) {
        let j = choose|j: int|
            0 <= j < i + 1 && j < decls.len() && declares(src, #[trigger] decls[j], space, name);
        if j < i {
            assert(declared_before(src, decls, i, space, name));
        }
    }
    if declared_before(src, decls, i, space, name) {
        let j = choose|j: int|
            0 <= j < i && j < decls.len() && declares(src, #[trigger] decls[j], space, name);
        assert(0 <= j < i + 1 && declares(src, decls[j], space, name));
    }
    if declares(src, decls[i], space, name) {
        assert(0 <= i < i + 1 && declares(src, decls[i], space, name));
    }
}

proof fn lemma_runtime_step(decls: Seq<DeclarationView>, i: int)
    requires
        0 <= i < decls.len(),
    ensures
        runtime_before(decls, i + 1) <==> (runtime_before(decls, i) || decls[i] is Runtime),
{
    if runtime_before(decls, i + 1) {
        let j = choose|j: int| 0 <= j < i + 1 && j < decls.len() && #[trigger] decls[j] is Runtime;
        if j < i {
            assert(runtime_before(decls, i));
        }
    }
    if runtime_before(decls, i) {
        let j = choose|j: int| 0 <= j < i && j < decls.len() && #[trigger] decls[j] is Runtime;
        assert(0 <= j < i + 1 && decls[j] is Runtime);
    }
    if decls[i] is Runtime {
        assert(0 <= i < i + 1 && decls[i] is Runtime);
    }
}

/// The names declared so far, one list per namespace, each in source order.
/// A name stands for the place of its first declaration.
pub struct SymbolTable {
    pub policies: Vec<Token>,
    pub rubrics: Vec<Token>,
    pub cadences: Vec<Token>,
    pub artifacts: Vec<Token>,
}

impl SymbolTable {
    /// The names of a namespace, in the order of their declarations.
    pub open spec fn names(&self, space: Namespace) -> Seq<Token> {
        match space {
            Namespace::Policy => self.policies@,
            Namespace::Rubric => self.rubrics@,
            Namespace::Cadence => self.cadences@,
            Namespace::Artifact => self.artifacts@,
        }
    }

    /// Whether the table holds `name` in `space`.
    pub open spec fn holds(&self, src: Seq<char>, space: Namespace, name: Seq<char>) -> bool {
        spelled_in(src, self.names(space), name)
    }

    /// The table holds exactly the names that the first `i` declarations
    /// declare.
    pub open spec fn reflects(&self, src: Seq<char>, decls: Seq<DeclarationView>, i: int) -> bool {
        forall|space: Namespace, name: Seq<char>| #[trigger]
            self.holds(src, space, name) <==> declared_before(src, decls, i, space, name)
    }

    /// A table without names.
    pub fn new() -> (r: SymbolTable)
        ensures
            forall|space: Namespace| #[trigger] r.names(space) == Seq::<Token>::empty(),
    {
        SymbolTable {
            policies: Vec::new(),
            rubrics: Vec::new(),
            cadences: Vec::new(),
            artifacts: Vec::new(),
        }
    }

    /// Where the name that `name` selects was first declared in `space`,
    /// if the table holds it there.
    pub open spec fn first_declared(
        &self,
        src: Seq<char>,
        space: Namespace,
        name: Seq<char>,
        at: Position,
    ) -> bool {
        exists|k: int|
            0 <= k < self.names(space).len() && name_of(src, #[trigger] self.names(space)[k])
                == name && self.names(space)[k].start == at && forall|j: int|
                0 <= j < k ==> name_of(src, #[trigger] self.names(space)[j]) != name
    }

    /// Looks a name up: the place of its first declaration in `space`, if
    /// the table holds it there.
    pub fn lookup(&self, chars: &Vec<char>, space: Namespace, name: Span) -> (r: Option<Position>)
        ensures
            r is Some <==> self.holds(chars@, space, text_of(chars@, name)),
            r matches Some(at) ==> self.first_declared(chars@, space, text_of(chars@, name), at),
    {
        let names = match space {
            Namespace::Policy => &self.policies,
            Namespace::Rubric => &self.rubrics,
            Namespace::Cadence => &self.cadences,
            Namespace::Artifact => &self.artifacts,
        };
        let mut k: usize = 0;
        while k < names.len()
            invariant
                k <= names.len(),
                names@ == self.names(space),
                forall|j: int|
                    0 <= j < k ==> name_of(chars@, #[trigger] names@[j]) != text_of(chars@, name),
            decreases names.len() - k,
        {
            if same_text(chars, names[k].text, name) {
                assert(name_of(chars@, self.names(space)[k as int]) == text_of(chars@, name));
                return Some(names[k].start);
            }
            k += 1;
        }
        None
    }

    /// Whether the table holds the name that `name` selects.
    pub fn contains(&self, chars: &Vec<char>, space: Namespace, name: Span) -> (r: bool)
        ensures
            r == self.holds(chars@, space, text_of(chars@, name)),
    {
        self.lookup(chars, space, name).is_some()
    }

    /// Adds a name to a namespace.
    pub fn declare(&mut self, space: Namespace, token: Token)
        ensures
            final(self).names(space) == old(self).names(space).push(token),
            forall|other: Namespace|
                other != space ==> #[trigger] final(self).names(other) == old(self).names(other),
    {
        match space {
            Namespace::Policy => self.policies.push(token),
            Namespace::Rubric => self.rubrics.push(token),
            Namespace::Cadence => self.cadences.push(token),
            Namespace::Artifact => self.artifacts.push(token),
        }
    }
}

// ---------------------------------------------------------------------
// Checks

/// A finding about `token`, which it quotes.
pub fn flag_token(rule: Rule, token: &Token) -> (r: Finding)
    ensures
        r == flag(rule, *token),
{
    Finding {
        rule,
        subject: token.text,
        range: Range { start: token.start, end: Some(token.end) },
    }
}

/// Reports `rule` at `token` unless `ok` holds.
pub fn report_unless(ok: bool, rule: Rule, token: &Token, findings: &mut Vec<Finding>)
    ensures
        final(findings)@ == old(findings)@ + flag_unless(ok, rule, *token),
{
    if !ok {
        findings.push(flag_token(rule, token));
        assert(findings@ =~= old(findings)@ + flag_unless(ok, rule, *token));
    } else {
        assert(findings@ =~= old(findings)@ + flag_unless(ok, rule, *token));
    }
}

/// Whether `span` selects digits only, and at least one.
pub fn check_natural(chars: &Vec<char>, span: Span) -> (r: bool)
    ensures
        r == is_natural(text_of(chars@, span)),
{
    if !(span.start < span.end && span.end <= chars.len()) {
        return false;
    }
    let ghost text = text_of(chars@, span);
    let mut k = span.start;
    while k < span.end
        invariant
            span.start <= k <= span.end <= chars.len(),
            text == text_of(chars@, span),
            forall|j: int| 0 <= j < k - span.start ==> is_digit(#[trigger] text[j]),
        decreases span.end - k,
    {
        if !check_digit(chars[k]) {
            assert(!is_digit(text[k - span.start]));
            return false;
        }
        k += 1;
    }
    true
}

/// Whether `span` selects nothing but the digit zero.
pub fn check_zero(chars: &Vec<char>, span: Span) -> (r: bool)
    ensures
        r == is_zero(text_of(chars@, span)),
{
    if !(span.start < span.end && span.end <= chars.len()) {
        return true;
    }
    let ghost text = text_of(chars@, span);
    let mut k = span.start;
    while k < span.end
        invariant
            span.start <= k <= span.end <= chars.len(),
            text == text_of(chars@, span),
            forall|j: int| 0 <= j < k - span.start ==> #[trigger] text[j] == '0',
        decreases span.end - k,
    {
        if chars[k] != '0' {
            assert(text[k - span.start] != '0');
            return false;
        }
        k += 1;
    }
    true
}

/// Whether `token` is a number in the range of `quantity`.
pub fn check_count(chars: &Vec<char>, quantity: Quantity, token: &Token) -> (r: bool)
    ensures
        r == count_ok(chars@, quantity, *token),
{
    token.kind == TokenKind::Number && check_natural(chars, token.text) && (!quantity.is_positive()
        || !check_zero(chars, token.text))
}

fn check_label_before(chars: &Vec<char>, entries: &Vec<Entry>, k: usize, label: Span) -> (r:
    bool)
    requires
        k <= entries.len(),
    ensures
        r == label_before(chars@, entries@, k as int, text_of(chars@, label)),
{
    let mut j: usize = 0;
    while j < k
        invariant
            j <= k <= entries.len(),
            forall|m: int|
                0 <= m < j ==> !(#[trigger] entries@[m] matches Entry::Criterion { label: l, .. }
                    && name_of(chars@, l) == text_of(chars@, label)),
        decreases k - j,
    {
        match entries[j] {
            Entry::Criterion { label: l, .. } => {
                if same_text(chars, l.text, label) {
                    return true;
                }
            },
            _ => {},
        }
        j += 1;
    }
    false
}

/// Whether one of the entries is of the kind that `scope` names.
pub fn check_has_entry(entries: &Vec<Entry>, scope: Scope) -> (r: bool)
    ensures
        r == has_entry(entries@, scope),
{
    let mut k: usize = 0;
    while k < entries.len()
        invariant
            k <= entries.len(),
            forall|m: int| 0 <= m < k ==> !entry_is(#[trigger] entries@[m], scope),
        decreases entries.len() - k,
    {
        let found = match scope {
            Scope::Criterion => match entries[k] {
                Entry::Criterion { .. } => true,
                _ => false,
            },
            Scope::Compare => match entries[k] {
                Entry::Compare { .. } => true,
                _ => false,
            },
            Scope::Keep => match entries[k] {
                Entry::Keep { .. } => true,
                _ => false,
            },
            _ => false,
        };
        if found {
            return true;
        }
        k += 1;
    }
    false
}

/// The namespace in which the value of the attachment `key` is looked up.
pub fn attachment_space_of(chars: &Vec<char>, key: Span) -> (r: Option<Namespace>)
    ensures
        r == attachment_space(text_of(chars@, key)),
{
    if text_is(chars, key, "preflight") || text_is(chars, key, "failureTriage") {
        Some(Namespace::Policy)
    } else if text_is(chars, key, "cadence") {
        Some(Namespace::Cadence)
    } else if text_is(chars, key, "rubric") {
        Some(Namespace::Rubric)
    } else {
        None
    }
}

/// Checks a use of a name against the names declared so far.
fn check_reference(
    chars: &Vec<char>,
    table: &SymbolTable,
    space: Namespace,
    token: &Token,
    findings: &mut Vec<Finding>,
    Ghost(decls): Ghost<Seq<DeclarationView>>,
    Ghost(i): Ghost<int>,
)
    requires
        table.reflects(chars@, decls, i),
    ensures
        final(findings)@ == old(findings)@ + reference_findings(chars@, decls, i, space, *token),
{
    let known = table.contains(chars, space, token.text);
    report_unless(known, Rule::Undeclared(space), token, findings);
}

/// Checks the declaration of a name against the names declared so far.
fn check_fresh(
    chars: &Vec<char>,
    table: &SymbolTable,
    space: Namespace,
    token: &Token,
    findings: &mut Vec<Finding>,
    Ghost(decls): Ghost<Seq<DeclarationView>>,
    Ghost(i): Ghost<int>,
)
    requires
        table.reflects(chars@, decls, i),
    ensures
        final(findings)@ == old(findings)@ + fresh_findings(chars@, decls, i, space, *token),
{
    let known = table.contains(chars, space, token.text);
    report_unless(!known, Rule::Redeclared(space), token, findings);
}

/// Checks entry `k` of a block.
fn check_entry(
    chars: &Vec<char>,
    table: &SymbolTable,
    scope: Scope,
    entries: &Vec<Entry>,
    k: usize,
    findings: &mut Vec<Finding>,
    Ghost(decls): Ghost<Seq<DeclarationView>>,
    Ghost(i): Ghost<int>,
)
    requires
        k < entries.len(),
        table.reflects(chars@, decls, i),
    ensures
        final(findings)@ == old(findings)@ + entry_findings(
            chars@,
            decls,
            i,
            scope,
            entries@,
            k as int,
        ),
{
    let ghost before = findings@;
    assert(before + Seq::<Finding>::empty() =~= before);
    let entry = entries[k];
    match scope {
        Scope::Rubric => match entry {
            Entry::Criterion { label: _, points, means: _ } => {
                let ok = check_count(chars, Quantity::Points, &points);
                report_unless(ok, Rule::InvalidCount(Quantity::Points), &points, findings);
            },
            Entry::Tiebreaker { label } => {
                let ok = check_label_before(chars, entries, k, label.text);
                report_unless(ok, Rule::UnknownTiebreaker, &label, findings);
            },
            _ => {},
        },
        Scope::Cadence => match entry {
            Entry::Setting { key, value } => {
                if text_is(chars, key.text, "engine") {
                } else if text_is(chars, key.text, "variants") {
                    let ok = check_count(chars, Quantity::Variants, &value);
                    report_unless(ok, Rule::InvalidCount(Quantity::Variants), &value, findings);
                } else if text_is(chars, key.text, "sprints") {
                    let ok = check_count(chars, Quantity::Sprints, &value);
                    report_unless(ok, Rule::InvalidCount(Quantity::Sprints), &value, findings);
                } else {
                    report_unless(false, Rule::UnknownOption(Scope::Cadence), &key, findings);
                }
            },
            Entry::Compare { rubric } => {
                check_reference(
                    chars,
                    table,
                    Namespace::Rubric,
                    &rubric,
                    findings,
                    Ghost(decls),
                    Ghost(i),
                );
            },
            Entry::Keep { count } => {
                let ok = check_count(chars, Quantity::Keep, &count);
                report_unless(ok, Rule::InvalidCount(Quantity::Keep), &count, findings);
            },
            _ => {},
        },
        Scope::Runtime => match entry {
            Entry::Setting { key, value: _ } => {
                let ok = text_is(chars, key.text, "engine");
                report_unless(ok, Rule::UnknownOption(Scope::Runtime), &key, findings);
            },
            _ => {},
        },
        Scope::Attachments => match entry {
            Entry::Setting { key, value } => {
                match attachment_space_of(chars, key.text) {
                    Some(space) => {
                        check_reference(
                            chars,
                            table,
                            space,
                            &value,
                            findings,
                            Ghost(decls),
                            Ghost(i),
                        );
                    },
                    None => {
                        report_unless(
                            false,
                            Rule::UnknownOption(Scope::Attachments),
                            &key,
                            findings,
                        );
                    },
                }
            },
            _ => {},
        },
        _ => {},
    }
}

/// Checks the entries of a block, in order.
fn check_entries(
    chars: &Vec<char>,
    table: &SymbolTable,
    scope: Scope,
    entries: &Vec<Entry>,
    findings: &mut Vec<Finding>,
    Ghost(decls): Ghost<Seq<DeclarationView>>,
    Ghost(i): Ghost<int>,
)
    requires
        table.reflects(chars@, decls, i),
    ensures
        final(findings)@ == old(findings)@ + entries_findings(
            chars@,
            decls,
            i,
            scope,
            entries@,
            entries@.len() as int,
        ),
{
    let ghost before = findings@;
    assert(before + Seq::<Finding>::empty() =~= before);
    let mut k: usize = 0;
    while k < entries.len()
        invariant
            k <= entries.len(),
            table.reflects(chars@, decls, i),
            findings@ == before + entries_findings(chars@, decls, i, scope, entries@, k as int),
        decreases entries.len() - k,
    {
        let ghost so_far = entries_findings(chars@, decls, i, scope, entries@, k as int);
        let ghost this = entry_findings(chars@, decls, i, scope, entries@, k as int);
        check_entry(chars, table, scope, entries, k, findings, Ghost(decls), Ghost(i));
        assert(findings@ =~= before + (so_far + this));
        k += 1;
    }
}

/// Checks the names of a `using` list, in order.
fn check_using(
    chars: &Vec<char>,
    table: &SymbolTable,
    using: &Vec<Token>,
    findings: &mut Vec<Finding>,
    Ghost(decls): Ghost<Seq<DeclarationView>>,
    Ghost(i): Ghost<int>,
)
    requires
        table.reflects(chars@, decls, i),
    ensures
        final(findings)@ == old(findings)@ + using_findings(
            chars@,
            decls,
            i,
            using@,
            using@.len() as int,
        ),
{
    let ghost before = findings@;
    assert(before + Seq::<Finding>::empty() =~= before);
    let mut k: usize = 0;
    while k < using.len()
        invariant
            k <= using.len(),
            table.reflects(chars@, decls, i),
            findings@ == before + using_findings(chars@, decls, i, using@, k as int),
        decreases using.len() - k,
    {
        let ghost so_far = using_findings(chars@, decls, i, using@, k as int);
        let ghost this = reference_findings(chars@, decls, i, Namespace::Artifact, using@[k as int]);
        check_reference(
            chars,
            table,
            Namespace::Artifact,
            &using[k],
            findings,
            Ghost(decls),
            Ghost(i),
        );
        assert(findings@ =~= before + (so_far + this));
        k += 1;
    }
}

// ---------------------------------------------------------------------
// The walk

/// After declaration `i` has entered its name, the table holds what the
/// first `i + 1` declarations declare.
proof fn lemma_reflects_step(
    src: Seq<char>,
    decls: Seq<DeclarationView>,
    i: int,
    before: SymbolTable,
    after: SymbolTable,
)
    requires
        0 <= i < decls.len(),
        before.reflects(src, decls, i),
        match declared_name(decls[i]) {
            Some((space, token)) => after.names(space) == before.names(space).push(token)
                && forall|other: Namespace|
                other != space ==> #[trigger] after.names(other) == before.names(other),
            None => forall|other: Namespace| #[trigger] after.names(other) == before.names(other),
        },
    ensures
        after.reflects(src, decls, i + 1),
{
    assert forall|space: Namespace, name: Seq<char>| #[trigger]
        after.holds(src, space, name) <==> declared_before(src, decls, i + 1, space, name) by {
        lemma_declared_step(src, decls, i, space, name);
        assert(before.holds(src, space, name) <==> declared_before(src, decls, i, space, name));
        match declared_name(decls[i]) {
            Some((s, token)) => {
                if s == space {
                    lemma_spelled_after_push(src, before.names(space), token, name);
                } else {
                    assert(after.names(space) == before.names(space));
                }
            },
            None => {
                assert(after.names(space) == before.names(space));
            },
        }
    }
}

/// Checks the declarations of a script against its characters.
pub fn resolve_chars(chars: &Vec<char>, declarations: &Vec<Declaration>) -> (r: Vec<Finding>)
    ensures
        r@ == resolve_spec(chars@, views(declarations@)),
{
    let ghost decls = views(declarations@);
    let mut findings: Vec<Finding> = Vec::new();
    let mut table = SymbolTable::new();
    let mut runtime_seen = false;
    let mut i: usize = 0;
    proof {
        assert forall|space: Namespace, name: Seq<char>| #[trigger]
            table.holds(chars@, space, name) <==> declared_before(
                chars@,
                decls,
                0,
                space,
                name,
            ) by {
            assert(table.names(space) == Seq::<Token>::empty());
        }
    }
    while i < declarations.len()
        invariant
            i <= declarations.len(),
            decls == views(declarations@),
            table.reflects(chars@, decls, i as int),
            runtime_seen == runtime_before(decls, i as int),
            findings@ == resolve_upto(chars@, decls, i as int),
        decreases declarations.len() - i,
    {
        let ghost before = findings@;
        let ghost old_table = table;
        let ghost index = i as int;
        assert(decls[index] == declarations@[index]@);
        assert(before + Seq::<Finding>::empty() =~= before);
        match &declarations[i] {
            Declaration::Runtime { keyword, entries } => {
                let ghost first = flag_unless(!runtime_seen, Rule::RuntimeRedeclared, *keyword);
                let ghost second = entries_findings(
                    chars@,
                    decls,
                    index,
                    Scope::Runtime,
                    entries@,
                    entries@.len() as int,
                );
                report_unless(!runtime_seen, Rule::RuntimeRedeclared, keyword, &mut findings);
                check_entries(
                    chars,
                    &table,
                    Scope::Runtime,
                    entries,
                    &mut findings,
                    Ghost(decls),
                    Ghost(index),
                );
                assert(findings@ =~= before + (first + second));
                runtime_seen = true;
            },
            Declaration::Policy { name, body: _ } => {
                check_fresh(
                    chars,
                    &table,
                    Namespace::Policy,
                    name,
                    &mut findings,
                    Ghost(decls),
                    Ghost(index),
                );
                table.declare(Namespace::Policy, *name);
            },
            Declaration::Rubric { name, entries } => {
                let ghost first = fresh_findings(chars@, decls, index, Namespace::Rubric, *name);
                let ghost second = entries_findings(
                    chars@,
                    decls,
                    index,
                    Scope::Rubric,
                    entries@,
                    entries@.len() as int,
                );
                let ghost third = flag_unless(
                    has_entry(entries@, Scope::Criterion),
                    Rule::MissingCriterion,
                    *name,
                );
                check_fresh(
                    chars,
                    &table,
                    Namespace::Rubric,
                    name,
                    &mut findings,
                    Ghost(decls),
                    Ghost(index),
                );
                check_entries(
                    chars,
                    &table,
                    Scope::Rubric,
                    entries,
                    &mut findings,
                    Ghost(decls),
                    Ghost(index),
                );
                let has = check_has_entry(entries, Scope::Criterion);
                report_unless(has, Rule::MissingCriterion, name, &mut findings);
                assert(findings@ =~= before + (first + second + third));
                table.declare(Namespace::Rubric, *name);
            },
            Declaration::Cadence { name, entries } => {
                let ghost first = fresh_findings(chars@, decls, index, Namespace::Cadence, *name);
                let ghost second = entries_findings(
                    chars@,
                    decls,
                    index,
                    Scope::Cadence,
                    entries@,
                    entries@.len() as int,
                );
                let ghost third = flag_unless(
                    has_entry(entries@, Scope::Compare),
                    Rule::MissingCompare,
                    *name,
                );
                let ghost fourth = flag_unless(
                    has_entry(entries@, Scope::Keep),
                    Rule::MissingKeep,
                    *name,
                );
                check_fresh(
                    chars,
                    &table,
                    Namespace::Cadence,
                    name,
                    &mut findings,
                    Ghost(decls),
                    Ghost(index),
                );
                check_entries(
                    chars,
                    &table,
                    Scope::Cadence,
                    entries,
                    &mut findings,
                    Ghost(decls),
                    Ghost(index),
                );
                let compares = check_has_entry(entries, Scope::Compare);
                report_unless(compares, Rule::MissingCompare, name, &mut findings);
                let keeps = check_has_entry(entries, Scope::Keep);
                report_unless(keeps, Rule::MissingKeep, name, &mut findings);
                assert(findings@ =~= before + (first + second + third + fourth));
                table.declare(Namespace::Cadence, *name);
            },
            Declaration::Create { name, prompt, files, using, attachments } => {
                let ghost first = fresh_findings(chars@, decls, index, Namespace::Artifact, *name);
                let ghost second = origin_findings(chars@, *name, *prompt, files@);
                let ghost third = using_findings(chars@, decls, index, using@, using@.len() as int);
                let ghost fourth = entries_findings(
                    chars@,
                    decls,
                    index,
                    Scope::Attachments,
                    attachments@,
                    attachments@.len() as int,
                );
                check_fresh(
                    chars,
                    &table,
                    Namespace::Artifact,
                    name,
                    &mut findings,
                    Ghost(decls),
                    Ghost(index),
                );
                match prompt {
                    Some(p) => {
                        let filled = p.text.start < p.text.end && p.text.end <= chars.len();
                        report_unless(filled, Rule::EmptyPrompt, p, &mut findings);
                    },
                    None => {
                        report_unless(files.len() > 0, Rule::EmptySourceFiles, name, &mut findings);
                    },
                }
                check_using(chars, &table, using, &mut findings, Ghost(decls), Ghost(index));
                check_entries(
                    chars,
                    &table,
                    Scope::Attachments,
                    attachments,
                    &mut findings,
                    Ghost(decls),
                    Ghost(index),
                );
                assert(findings@ =~= before + (first + second + third + fourth));
                table.declare(Namespace::Artifact, *name);
            },
            Declaration::Extend { target, property, guidance: _ } => {
                let ghost first = reference_findings(
                    chars@,
                    decls,
                    index,
                    Namespace::Artifact,
                    *target,
                );
                let ghost second = flag_unless(
                    name_of(chars@, *property) == "rubric"@,
                    Rule::UnsupportedProperty,
                    *property,
                );
                check_reference(
                    chars,
                    &table,
                    Namespace::Artifact,
                    target,
                    &mut findings,
                    Ghost(decls),
                    Ghost(index),
                );
                let supported = text_is(chars, property.text, "rubric");
                report_unless(supported, Rule::UnsupportedProperty, property, &mut findings);
                assert(findings@ =~= before + (first + second));
            },
            Declaration::Halt { keyword: _, message: _ } => {},
        }
        proof {
            lemma_reflects_step(chars@, decls, index, old_table, table);
            lemma_runtime_step(decls, index);
            assert(findings@ == before + declaration_findings(chars@, decls, index));
        }
        i += 1;
    }
    findings
}

/// Checks the declarations of a script. `source` is the text that the
/// declarations were read from: the tokens in them select their names from
/// it. The findings come in source order of the declarations; a name counts
/// as declared from the declaration after the one that declares it.
pub fn resolve(source: &str, declarations: &Vec<Declaration>) -> (r: Vec<Finding>)
    ensures
        r@ == resolve_spec(source@, views(declarations@)),
{
    let chars = to_chars(source);
    resolve_chars(&chars, declarations)
}

// ---------------------------------------------------------------------
// What the rules demand, and that the resolver reports exactly their breach

/// The rules for entry `k` of a block of `scope` in declaration `i`.
pub open spec fn entry_ok(
    src: Seq<char>,
    decls: Seq<DeclarationView>,
    i: int,
    scope: Scope,
    entries: Seq<Entry>,
    k: int,
) -> bool {
    match scope {
        Scope::Rubric => match entries[k] {
            Entry::Criterion { points, .. } => count_ok(src, Quantity::Points, points),
            Entry::Tiebreaker { label } => label_before(src, entries, k, name_of(src, label)),
            _ => true,
        },
        Scope::Cadence => match entries[k] {
            Entry::Setting { key, value } => if name_of(src, key) == "engine"@ {
                true
            } else if name_of(src, key) == "variants"@ {
                count_ok(src, Quantity::Variants, value)
            } else if name_of(src, key) == "sprints"@ {
                count_ok(src, Quantity::Sprints, value)
            } else {
                false
            },
            Entry::Compare { rubric } => declared_before(
                src,
                decls,
                i,
                Namespace::Rubric,
                name_of(src, rubric),
            ),
            Entry::Keep { count } => count_ok(src, Quantity::Keep, count),
            _ => true,
        },
        Scope::Runtime => match entries[k] {
            Entry::Setting { key, .. } => name_of(src, key) == "engine"@,
            _ => true,
        },
        Scope::Attachments => match entries[k] {
            Entry::Setting { key, value } => match attachment_space(name_of(src, key)) {
                Some(space) => declared_before(src, decls, i, space, name_of(src, value)),
                None => false,
            },
            _ => true,
        },
        _ => true,
    }
}

/// The rules for every entry of a block.
pub open spec fn entries_ok(
    src: Seq<char>,
    decls: Seq<DeclarationView>,
    i: int,
    scope: Scope,
    entries: Seq<Entry>,
) -> bool {
    forall|k: int| 0 <= k < entries.len() ==> entry_ok(src, decls, i, scope, entries, k)
}

/// The rules for declaration `i`:
/// - a name is declared once in its namespace, and the runtime defaults once;
/// - whatever a declaration refers to is declared before it;
/// - a rubric has a criterion, and each of its tiebreakers repeats the
///   label of a criterion before it;
/// - a cadence has its `compare using` and `keep best` clauses;
/// - numeric fields are in range and option names known;
/// - an artifact has a prompt that is not empty, or at least one source file;
/// - `extend` names the property `rubric`.
pub open spec fn declaration_ok(src: Seq<char>, decls: Seq<DeclarationView>, i: int) -> bool {
    match decls[i] {
        DeclarationView::Runtime { entries, .. } => {
            &&& !runtime_before(decls, i)
            &&& entries_ok(src, decls, i, Scope::Runtime, entries)
        },
        DeclarationView::Policy { name, .. } => !declared_before(
            src,
            decls,
            i,
            Namespace::Policy,
            name_of(src, name),
        ),
        DeclarationView::Rubric { name, entries } => {
            &&& !declared_before(src, decls, i, Namespace::Rubric, name_of(src, name))
            &&& entries_ok(src, decls, i, Scope::Rubric, entries)
            &&& has_entry(entries, Scope::Criterion)
        },
        DeclarationView::Cadence { name, entries } => {
            &&& !declared_before(src, decls, i, Namespace::Cadence, name_of(src, name))
            &&& entries_ok(src, decls, i, Scope::Cadence, entries)
            &&& has_entry(entries, Scope::Compare)
            &&& has_entry(entries, Scope::Keep)
        },
        DeclarationView::Create { name, prompt, files, using, attachments } => {
            &&& !declared_before(src, decls, i, Namespace::Artifact, name_of(src, name))
            &&& match prompt {
                Some(p) => name_of(src, p).len() > 0,
                None => files.len() > 0,
            }
            &&& forall|k: int|
                0 <= k < using.len() ==> declared_before(
                    src,
                    decls,
                    i,
                    Namespace::Artifact,
                    name_of(src, #[trigger] using[k]),
                )
            &&& entries_ok(src, decls, i, Scope::Attachments, attachments)
        },
        DeclarationView::Extend { target, property, .. } => {
            &&& declared_before(src, decls, i, Namespace::Artifact, name_of(src, target))
            &&& name_of(src, property) == "rubric"@
        },
        DeclarationView::Halt { .. } => true,
    }
}

/// Whether the declarations of a script keep every reference rule and
/// every semantic rule.
pub open spec fn well_formed(src: Seq<char>, decls: Seq<DeclarationView>) -> bool {
    forall|i: int| 0 <= i < decls.len() ==> declaration_ok(src, decls, i)
}

proof fn lemma_entries_clean(
    src: Seq<char>,
    decls: Seq<DeclarationView>,
    i: int,
    scope: Scope,
    entries: Seq<Entry>,
    n: int,
)
    requires
        0 <= n <= entries.len(),
    ensures
        entries_findings(src, decls, i, scope, entries, n).len() == 0 <==> forall|k: int|
            0 <= k < n ==> entry_ok(src, decls, i, scope, entries, k),
    decreases n,
{
    if n > 0 {
        lemma_entries_clean(src, decls, i, scope, entries, n - 1);
        assert(entry_findings(src, decls, i, scope, entries, n - 1).len() == 0 <==> entry_ok(
            src,
            decls,
            i,
            scope,
            entries,
            n - 1,
        ));
    }
}

proof fn lemma_using_clean(
    src: Seq<char>,
    decls: Seq<DeclarationView>,
    i: int,
    using: Seq<Token>,
    n: int,
)
    requires
        0 <= n <= using.len(),
    ensures
        using_findings(src, decls, i, using, n).len() == 0 <==> forall|k: int|
            0 <= k < n ==> declared_before(
                src,
                decls,
                i,
                Namespace::Artifact,
                name_of(src, #[trigger] using[k]),
            ),
    decreases n,
{
    if n > 0 {
        lemma_using_clean(src, decls, i, using, n - 1);
    }
}

/// The resolver finds nothing in a declaration exactly if the declaration
/// keeps the rules.
pub proof fn lemma_declaration_clean(src: Seq<char>, decls: Seq<DeclarationView>, i: int)
    requires
        0 <= i < decls.len(),
    ensures
        declaration_findings(src, decls, i).len() == 0 <==> declaration_ok(src, decls, i),
{
    match decls[i] {
        DeclarationView::Runtime { entries, .. } => {
            lemma_entries_clean(src, decls, i, Scope::Runtime, entries, entries.len() as int);
        },
        DeclarationView::Rubric { entries, .. } => {
            lemma_entries_clean(src, decls, i, Scope::Rubric, entries, entries.len() as int);
        },
        DeclarationView::Cadence { entries, .. } => {
            lemma_entries_clean(src, decls, i, Scope::Cadence, entries, entries.len() as int);
        },
        DeclarationView::Create { using, attachments, .. } => {
            lemma_using_clean(src, decls, i, using, using.len() as int);
            lemma_entries_clean(
                src,
                decls,
                i,
                Scope::Attachments,
                attachments,
                attachments.len() as int,
            );
        },
        _ => {},
    }
}

proof fn lemma_resolve_upto_clean(src: Seq<char>, decls: Seq<DeclarationView>, n: int)
    requires
        0 <= n <= decls.len(),
    ensures
        resolve_upto(src, decls, n).len() == 0 <==> forall|i: int|
            0 <= i < n ==> declaration_ok(src, decls, i),
    decreases n,
{
    if n > 0 {
        lemma_resolve_upto_clean(src, decls, n - 1);
        lemma_declaration_clean(src, decls, n - 1);
    }
}

/// The resolver reports nothing exactly if the declarations keep every
/// rule.
pub proof fn lemma_resolves_clean_iff_well_formed(src: Seq<char>, decls: Seq<DeclarationView>)
    ensures
        resolve_spec(src, decls).len() == 0 <==> well_formed(src, decls),
{
    lemma_resolve_upto_clean(src, decls, decls.len() as int);
}

/// Whether `decl` uses the name `token` as a reference into `space`: as the
/// rubric of a `compare using` clause, in a `using` list, as the value of
/// an attachment, or as the target of `extend`.
pub open spec fn refers_to(src: Seq<char>, decl: DeclarationView, space: Namespace, token: Token)
    -> bool {
    match decl {
        DeclarationView::Cadence { entries, .. } => space == Namespace::Rubric && exists|k: int|
            0 <= k < entries.len() && #[trigger] entries[k] == (Entry::Compare { rubric: token }),
        DeclarationView::Create { using, attachments, .. } => (space == Namespace::Artifact
            && exists|k: int| 0 <= k < using.len() && #[trigger] using[k] == token) || exists|
            k: int,
        |
            0 <= k < attachments.len() && (#[trigger] attachments[k] matches Entry::Setting {
                key,
                value,
            } && value == token && attachment_space(name_of(src, key)) == Some(space)),
        DeclarationView::Extend { target, .. } => space == Namespace::Artifact && target == token,
        _ => false,
    }
}

pub(crate) proof fn lemma_joined_contains(a: Seq<Finding>, b: Seq<Finding>, f: Finding)
    requires
        a.contains(f) || b.contains(f),
    ensures
        (a + b).contains(f),
{
    if a.contains(f) {
        let k = choose|k: int| 0 <= k < a.len() && a[k] == f;
        assert((a + b)[k] == f);
    } else {
        let k = choose|k: int| 0 <= k < b.len() && b[k] == f;
        assert((a + b)[a.len() + k] == f);
    }
}

proof fn lemma_entries_include(
    src: Seq<char>,
    decls: Seq<DeclarationView>,
    i: int,
    scope: Scope,
    entries: Seq<Entry>,
    n: int,
    k: int,
    f: Finding,
)
    requires
        0 <= k < n <= entries.len(),
        entry_findings(src, decls, i, scope, entries, k).contains(f),
    ensures
        entries_findings(src, decls, i, scope, entries, n).contains(f),
    decreases n,
{
    if k < n - 1 {
        lemma_entries_include(src, decls, i, scope, entries, n - 1, k, f);
    }
    lemma_joined_contains(
        entries_findings(src, decls, i, scope, entries, n - 1),
        entry_findings(src, decls, i, scope, entries, n - 1),
        f,
    );
}

proof fn lemma_using_include(
    src: Seq<char>,
    decls: Seq<DeclarationView>,
    i: int,
    using: Seq<Token>,
    n: int,
    k: int,
    f: Finding,
)
    requires
        0 <= k < n <= using.len(),
        reference_findings(src, decls, i, Namespace::Artifact, using[k]).contains(f),
    ensures
        using_findings(src, decls, i, using, n).contains(f),
    decreases n,
{
    if k < n - 1 {
        lemma_using_include(src, decls, i, using, n - 1, k, f);
    }
    lemma_joined_contains(
        using_findings(src, decls, i, using, n - 1),
        reference_findings(src, decls, i, Namespace::Artifact, using[n - 1]),
        f,
    );
}

/// What is found in one declaration is among what the resolver reports.
proof fn lemma_resolve_includes(
    src: Seq<char>,
    decls: Seq<DeclarationView>,
    n: int,
    i: int,
    f: Finding,
)
    requires
        0 <= i < n <= decls.len(),
        declaration_findings(src, decls, i).contains(f),
    ensures
        resolve_upto(src, decls, n).contains(f),
    decreases n,
{
    if i < n - 1 {
        lemma_resolve_includes(src, decls, n - 1, i, f);
    }
    lemma_joined_contains(
        resolve_upto(src, decls, n - 1),
        declaration_findings(src, decls, n - 1),
        f,
    );
}

/// A reference to a name that no earlier declaration declares is
/// reported as undeclared, whatever the declarations after it declare.
pub proof fn lemma_forward_reference_is_reported(
    src: Seq<char>,
    decls: Seq<DeclarationView>,
    i: int,
    space: Namespace,
    token: Token,
)
    requires
        0 <= i < decls.len(),
        refers_to(src, decls[i], space, token),
        !declared_before(src, decls, i, space, name_of(src, token)),
    ensures
        resolve_spec(src, decls).contains(flag(Rule::Undeclared(space), token)),
{
    let f = flag(Rule::Undeclared(space), token);
    let one = seq![f];
    assert(one[0] == f);
    assert(reference_findings(src, decls, i, space, token) == one);
    match decls[i] {
        DeclarationView::Cadence { name, entries } => {
            let k = choose|k: int|
                0 <= k < entries.len() && #[trigger] entries[k] == (Entry::Compare {
                    rubric: token,
                });
            assert(entry_findings(src, decls, i, Scope::Cadence, entries, k) == one);
            lemma_entries_include(
                src,
                decls,
                i,
                Scope::Cadence,
                entries,
                entries.len() as int,
                k,
                f,
            );
            let first = fresh_findings(src, decls, i, Namespace::Cadence, name);
            let second = entries_findings(
                src,
                decls,
                i,
                Scope::Cadence,
                entries,
                entries.len() as int,
            );
            let third = flag_unless(has_entry(entries, Scope::Compare), Rule::MissingCompare, name);
            let fourth = flag_unless(has_entry(entries, Scope::Keep), Rule::MissingKeep, name);
            lemma_joined_contains(first, second, f);
            lemma_joined_contains(first + second, third, f);
            lemma_joined_contains(first + second + third, fourth, f);
        },
        DeclarationView::Create { name, prompt, files, using, attachments } => {
            let first = fresh_findings(src, decls, i, Namespace::Artifact, name);
            let second = origin_findings(src, name, prompt, files);
            let third = using_findings(src, decls, i, using, using.len() as int);
            let fourth = entries_findings(
                src,
                decls,
                i,
                Scope::Attachments,
                attachments,
                attachments.len() as int,
            );
            if space == Namespace::Artifact && exists|k: int|
                0 <= k < using.len() && #[trigger] using[k] == token {
                let k = choose|k: int| 0 <= k < using.len() && #[trigger] using[k] == token;
                lemma_using_include(src, decls, i, using, using.len() as int, k, f);
                lemma_joined_contains(first + second, third, f);
            } else {
                let k = choose|k: int|
                    0 <= k < attachments.len() && (#[trigger] attachments[k] matches Entry::Setting {
                        key,
                        value,
                    } && value == token && attachment_space(name_of(src, key)) == Some(space));
                assert(entry_findings(src, decls, i, Scope::Attachments, attachments, k) == one);
                lemma_entries_include(
                    src,
                    decls,
                    i,
                    Scope::Attachments,
                    attachments,
                    attachments.len() as int,
                    k,
                    f,
                );
            }
            lemma_joined_contains(first + second + third, fourth, f);
        },
        DeclarationView::Extend { target, property, .. } => {
            lemma_joined_contains(
                reference_findings(src, decls, i, Namespace::Artifact, target),
                flag_unless(
                    name_of(src, property) == "rubric"@,
                    Rule::UnsupportedProperty,
                    property,
                ),
                f,
            );
        },
        _ => {},
    }
    lemma_resolve_includes(src, decls, decls.len() as int, i, f);
}

/// Of two declarations of one name in one namespace, the second is
/// reported as a redeclaration.
pub proof fn lemma_duplicate_is_reported(
    src: Seq<char>,
    decls: Seq<DeclarationView>,
    i: int,
    j: int,
    space: Namespace,
    first: Token,
    second: Token,
)
    requires
        0 <= i < j < decls.len(),
        declared_name(decls[i]) == Some((space, first)),
        declared_name(decls[j]) == Some((space, second)),
        name_of(src, first) == name_of(src, second),
    ensures
        resolve_spec(src, decls).contains(flag(Rule::Redeclared(space), second)),
{
    let f = flag(Rule::Redeclared(space), second);
    let one = seq![f];
    assert(one[0] == f);
    assert(declares(src, decls[i], space, name_of(src, second)));
    assert(declared_before(src, decls, j, space, name_of(src, second)));
    assert(fresh_findings(src, decls, j, space, second) == one);
    match decls[j] {
        DeclarationView::Policy { .. } => {},
        DeclarationView::Rubric { name, entries } => {
            let rest = entries_findings(src, decls, j, Scope::Rubric, entries, entries.len() as int);
            let last = flag_unless(has_entry(entries, Scope::Criterion), Rule::MissingCriterion, name);
            lemma_joined_contains(one, rest, f);
            lemma_joined_contains(one + rest, last, f);
        },
        DeclarationView::Cadence { name, entries } => {
            let rest = entries_findings(
                src,
                decls,
                j,
                Scope::Cadence,
                entries,
                entries.len() as int,
            );
            let third = flag_unless(has_entry(entries, Scope::Compare), Rule::MissingCompare, name);
            let fourth = flag_unless(has_entry(entries, Scope::Keep), Rule::MissingKeep, name);
            lemma_joined_contains(one, rest, f);
            lemma_joined_contains(one + rest, third, f);
            lemma_joined_contains(one + rest + third, fourth, f);
        },
        DeclarationView::Create { name, prompt, files, using, attachments } => {
            let second_part = origin_findings(src, name, prompt, files);
            let third = using_findings(src, decls, j, using, using.len() as int);
            let fourth = entries_findings(
                src,
                decls,
                j,
                Scope::Attachments,
                attachments,
                attachments.len() as int,
            );
            lemma_joined_contains(one, second_part, f);
            lemma_joined_contains(one + second_part, third, f);
            lemma_joined_contains(one + second_part + third, fourth, f);
        },
        _ => {},
    }
    lemma_resolve_includes(src, decls, decls.len() as int, j, f);
}

proof fn lemma_entries_agree(
    src: Seq<char>,
    a: Seq<DeclarationView>,
    b: Seq<DeclarationView>,
    i: int,
    scope: Scope,
    entries: Seq<Entry>,
    n: int,
)
    requires
        forall|space: Namespace, name: Seq<char>|
            declared_before(src, a, i, space, name) == declared_before(src, b, i, space, name),
    ensures
        entries_findings(src, a, i, scope, entries, n) == entries_findings(
            src,
            b,
            i,
            scope,
            entries,
            n,
        ),
    decreases n,
{
    if n > 0 {
        lemma_entries_agree(src, a, b, i, scope, entries, n - 1);
    }
}

proof fn lemma_using_agree(
    src: Seq<char>,
    a: Seq<DeclarationView>,
    b: Seq<DeclarationView>,
    i: int,
    using: Seq<Token>,
    n: int,
)
    requires
        forall|space: Namespace, name: Seq<char>|
            declared_before(src, a, i, space, name) == declared_before(src, b, i, space, name),
    ensures
        using_findings(src, a, i, using, n) == using_findings(src, b, i, using, n),
    decreases n,
{
    if n > 0 {
        lemma_using_agree(src, a, b, i, using, n - 1);
    }
}

/// What the resolver finds in a declaration depends on that declaration
/// and on those before it alone: in two scripts that agree up to and
/// including declaration `i`, the findings about it are the same, whatever
/// follows.
pub proof fn lemma_findings_depend_on_what_precedes(
    src: Seq<char>,
    a: Seq<DeclarationView>,
    b: Seq<DeclarationView>,
    i: int,
)
    requires
        0 <= i < a.len(),
        i < b.len(),
        a.take(i + 1) == b.take(i + 1),
    ensures
        declaration_findings(src, a, i) == declaration_findings(src, b, i),
{
    assert forall|j: int| 0 <= j <= i implies a[j] == b[j] by {
        assert(a.take(i + 1)[j] == a[j]);
        assert(b.take(i + 1)[j] == b[j]);
    }
    assert forall|space: Namespace, name: Seq<char>|
        declared_before(src, a, i, space, name) == declared_before(src, b, i, space, name) by {
        if declared_before(src, a, i, space, name) {
            let j = choose|j: int|
                0 <= j < i && j < a.len() && declares(src, #[trigger] a[j], space, name);
            assert(declares(src, b[j], space, name));
        }
        if declared_before(src, b, i, space, name) {
            let j = choose|j: int|
                0 <= j < i && j < b.len() && declares(src, #[trigger] b[j], space, name);
            assert(declares(src, a[j], space, name));
        }
    }
    assert(runtime_before(a, i) == runtime_before(b, i)) by {
        if runtime_before(a, i) {
            let j = choose|j: int| 0 <= j < i && j < a.len() && #[trigger] a[j] is Runtime;
            assert(b[j] is Runtime);
        }
        if runtime_before(b, i) {
            let j = choose|j: int| 0 <= j < i && j < b.len() && #[trigger] b[j] is Runtime;
            assert(a[j] is Runtime);
        }
    }
    match a[i] {
        DeclarationView::Runtime { entries, .. } => {
            lemma_entries_agree(src, a, b, i, Scope::Runtime, entries, entries.len() as int);
        },
        DeclarationView::Rubric { entries, .. } => {
            lemma_entries_agree(src, a, b, i, Scope::Rubric, entries, entries.len() as int);
        },
        DeclarationView::Cadence { entries, .. } => {
            lemma_entries_agree(src, a, b, i, Scope::Cadence, entries, entries.len() as int);
        },
        DeclarationView::Create { using, attachments, .. } => {
            lemma_using_agree(src, a, b, i, using, using.len() as int);
            lemma_entries_agree(
                src,
                a,
                b,
                i,
                Scope::Attachments,
                attachments,
                attachments.len() as int,
            );
        },
        _ => {},
    }
}

} // verus!
