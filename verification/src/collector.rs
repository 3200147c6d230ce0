//! The collector: the findings of the lexer, the parser and the resolver
//! become one list of diagnostics, ordered by position.

use vstd::prelude::*;
use vstd::string::*;
use crate::source::{Position, text_of, to_chars, slice_of};
use crate::token::Token;
use crate::finding::{
    Diagnostic, DiagnosticView, Finding, Namespace, Rule, Severity, message_of, message_text,
};
use crate::lexer::{tokens_of, lexical_findings, tokenize_chars, significant, significant_tokens};
use crate::syntax::DeclarationView;
use crate::parser::{parse_spec, parse};
use crate::grammar::{conforms, lemma_conforming_script_parses_clean};
use crate::order::{
    ranks, ordered, sorted, peers, lemma_insert_at, lemma_sorted_is_ordered,
    lemma_sorted_is_permutation, lemma_sorted_is_stable,
};
use crate::resolver::{
    resolve_spec, resolve_chars, well_formed, refers_to, declared_before, declared_name, name_of,
    flag, lemma_resolves_clean_iff_well_formed, lemma_forward_reference_is_reported,
    lemma_duplicate_is_reported, lemma_joined_contains,
};

verus! {

/// Where a finding starts.
pub open spec fn place(finding: Finding) -> Position {
    finding.range.start
}

/// The order of findings: by the place at which they start.
pub open spec fn by_position() -> spec_fn(Finding, Finding) -> bool {
    |a: Finding, b: Finding| place(a).at_or_before(place(b))
}

/// The findings in ascending order of their start; findings that start at
/// the same place keep the order in which they were made.
pub open spec fn sorted_by_position(findings: Seq<Finding>) -> Seq<Finding> {
    sorted(findings, by_position())
}

/// Reading order ranks any two findings, and transitively.
proof fn lemma_position_ranks()
    ensures
        ranks(by_position()),
{
    let leq = by_position();
    assert forall|a: Finding, b: Finding| #[trigger] leq(a, b) || #[trigger] leq(b, a) by {}
    assert forall|a: Finding, b: Finding, c: Finding| #[trigger]
        leq(a, b) && #[trigger] leq(b, c) implies leq(a, c) by {}
}

/// Sorts findings by the place at which they start. The result is in
/// ascending order, holds the same findings, and keeps findings that start
/// at the same place in their order.
pub fn sort_findings(findings: &Vec<Finding>) -> (r: Vec<Finding>)
    ensures
        r@ == sorted_by_position(findings@),
        ordered(r@, by_position()),
        r@.to_multiset() == findings@.to_multiset(),
        forall|like: Finding| #[trigger]
            peers(r@, like, by_position()) == peers(findings@, like, by_position()),
{
    let mut out: Vec<Finding> = Vec::new();
    let mut i: usize = 0;
    while i < findings.len()
        invariant
            i <= findings.len(),
            out@ == sorted_by_position(findings@.take(i as int)),
            out@.len() == i,
        decreases findings.len() - i,
    {
        let finding = findings[i];
        let mut p = out.len();
        while p > 0 && finding.range.start.is_before(&out[p - 1].range.start)
            invariant
                p <= out.len(),
                forall|k: int| p <= k < out.len() ==> !by_position()(#[trigger] out@[k], finding),
            decreases p,
        {
            p -= 1;
        }
        proof {
            lemma_insert_at(out@, finding, by_position(), p as int);
            assert(findings@.take(i + 1).drop_last() =~= findings@.take(i as int));
            assert(findings@.take(i + 1).last() == finding);
        }
        out.insert(p, finding);
        i += 1;
    }
    proof {
        assert(findings@.take(i as int) =~= findings@);
        lemma_position_ranks();
        lemma_sorted_is_ordered(findings@, by_position());
        lemma_sorted_is_permutation(findings@, by_position());
        assert forall|like: Finding| #[trigger]
            peers(out@, like, by_position()) == peers(findings@, like, by_position()) by {
            lemma_sorted_is_stable(findings@, by_position(), like);
        }
    }
    out
}

/// A finding as the caller of the engine reads it: the message quotes the
/// source text that the finding selects.
pub open spec fn diagnostic_of(src: Seq<char>, finding: Finding) -> DiagnosticView {
    DiagnosticView {
        severity: finding.rule.severity(),
        message: message_of(finding.rule, text_of(src, finding.subject)),
        range: finding.range,
    }
}

/// The diagnostics of findings, one for one and in the same order.
pub open spec fn diagnostics_of(src: Seq<char>, findings: Seq<Finding>) -> Seq<DiagnosticView> {
    findings.map_values(|f: Finding| diagnostic_of(src, f))
}

/// A list of diagnostics as a mathematical value.
pub open spec fn diagnostic_views(diagnostics: Seq<Diagnostic>) -> Seq<DiagnosticView> {
    diagnostics.map_values(|d: Diagnostic| d@)
}

/// Makes a diagnostic of a finding.
fn render(source: &str, length: usize, finding: &Finding) -> (r: Diagnostic)
    requires
        length == source@.len(),
    ensures
        r@ == diagnostic_of(source@, *finding),
{
    let subject = slice_of(source, length, finding.subject);
    Diagnostic {
        severity: finding.rule.severity_of(),
        message: message_text(finding.rule, subject),
        range: finding.range,
    }
}

/// Makes diagnostics of findings, one for one and in the same order.
pub fn render_all(source: &str, findings: &Vec<Finding>) -> (r: Vec<Diagnostic>)
    ensures
        diagnostic_views(r@) == diagnostics_of(source@, findings@),
{
    let length = source.unicode_len();
    let mut out: Vec<Diagnostic> = Vec::new();
    let mut i: usize = 0;
    while i < findings.len()
        invariant
            i <= findings.len(),
            length == source@.len(),
            out@.len() == i,
            forall|k: int| 0 <= k < i ==> (#[trigger] out@[k])@ == diagnostic_of(source@, findings@[k]),
        decreases findings.len() - i,
    {
        let diagnostic = render(source, length, &findings[i]);
        out.push(diagnostic);
        i += 1;
    }
    assert(diagnostic_views(out@) =~= diagnostics_of(source@, findings@));
    out
}

/// What the parser reads of a script: its tokens, without the characters
/// that start none.
pub open spec fn parsed_tokens(src: Seq<char>) -> Seq<Token> {
    significant(tokens_of(src))
}

/// The declarations of a script.
pub open spec fn declarations_of(src: Seq<char>) -> Seq<DeclarationView> {
    parse_spec(parsed_tokens(src)).declarations
}

/// Everything the three stages find in a script: what the lexer found, then
/// what the parser found, then what the resolver found.
pub open spec fn findings_of(src: Seq<char>) -> Seq<Finding> {
    lexical_findings(src) + parse_spec(parsed_tokens(src)).findings + resolve_spec(
        src,
        declarations_of(src),
    )
}

/// The diagnostics of a script.
pub open spec fn lint_spec(src: Seq<char>) -> Seq<DiagnosticView> {
    diagnostics_of(src, sorted_by_position(findings_of(src)))
}

/// No diagnostic starts after one that follows it.
pub open spec fn in_reading_order(diagnostics: Seq<DiagnosticView>) -> bool {
    forall|i: int, j: int|
        0 <= i < j < diagnostics.len() ==> (#[trigger] diagnostics[i]).range.start.at_or_before(
            (#[trigger] diagnostics[j]).range.start,
        )
}

/// Lints a script: lexes it, parses it, checks its declarations, and
/// returns what the three stages found as diagnostics in ascending order of
/// (line, character). Diagnostics at the same place come in the order
/// lexer, parser, resolver. Any text is accepted; a script without fault
/// yields the empty list.
pub fn lint(source: &str) -> (r: Vec<Diagnostic>)
    ensures
        diagnostic_views(r@) == lint_spec(source@),
        in_reading_order(diagnostic_views(r@)),
{
    let chars = to_chars(source);
    let lexed = tokenize_chars(&chars);
    let parsed = parse(&significant_tokens(&lexed.tokens));
    let mut resolved = resolve_chars(&chars, &parsed.declarations);
    let mut all = lexed.findings;
    let mut from_parser = parsed.findings;
    all.append(&mut from_parser);
    all.append(&mut resolved);
    let sorted = sort_findings(&all);
    let diagnostics = render_all(source, &sorted);
    proof {
        let views = diagnostic_views(diagnostics@);
        assert forall|i: int, j: int| 0 <= i < j < views.len() implies (#[trigger] views[i]).range.start.at_or_before(
            (#[trigger] views[j]).range.start,
        ) by {
            assert(by_position()(sorted@[i], sorted@[j]));
        }
    }
    diagnostics
}

// ---------------------------------------------------------------------
// What holds of every script

/// The diagnostics of any script come in ascending order of (line,
/// character).
pub proof fn lemma_lint_is_ordered(src: Seq<char>)
    ensures
        in_reading_order(lint_spec(src)),
{
    let ranked = sorted_by_position(findings_of(src));
    lemma_position_ranks();
    lemma_sorted_is_ordered(findings_of(src), by_position());
    let out = lint_spec(src);
    assert forall|i: int, j: int| 0 <= i < j < out.len() implies (#[trigger] out[i]).range.start.at_or_before(
        (#[trigger] out[j]).range.start,
    ) by {
        assert(by_position()(ranked[i], ranked[j]));
    }
}

/// Diagnostics that start at the same place come in the order in which the
/// stages found them: lexer, then parser, then resolver.
pub proof fn lemma_lint_is_stable(src: Seq<char>, like: Finding)
    ensures
        peers(sorted_by_position(findings_of(src)), like, by_position()) == peers(
            findings_of(src),
            like,
            by_position(),
        ),
{
    lemma_position_ranks();
    lemma_sorted_is_stable(findings_of(src), by_position(), like);
}

/// Every diagnostic of the engine is an error: no rule of the script
/// language is advisory.
pub proof fn lemma_every_diagnostic_is_an_error(src: Seq<char>, k: int)
    requires
        0 <= k < lint_spec(src).len(),
    ensures
        lint_spec(src)[k].severity == Severity::Error,
{
}

/// Every finding of a stage shows among the diagnostics of the script.
pub proof fn lemma_lint_reports(src: Seq<char>, f: Finding)
    requires
        findings_of(src).contains(f),
    ensures
        lint_spec(src).contains(diagnostic_of(src, f)),
{
    let all = findings_of(src);
    let ranked = sorted_by_position(all);
    lemma_sorted_is_permutation(all, by_position());
    vstd::seq_lib::to_multiset_contains(all, f);
    vstd::seq_lib::to_multiset_contains(ranked, f);
    assert(ranked.contains(f));
    let k = choose|k: int| 0 <= k < ranked.len() && ranked[k] == f;
    assert(lint_spec(src)[k] == diagnostic_of(src, f));
}

/// A script yields as many diagnostics as the stages find in it.
pub proof fn lemma_lint_reports_every_finding_once(src: Seq<char>)
    ensures
        lint_spec(src).len() == findings_of(src).len(),
{
    lemma_sorted_is_permutation(findings_of(src), by_position());
}

/// A script yields no diagnostic exactly if the lexer and the parser find
/// nothing in it and its declarations keep every reference rule and every
/// semantic rule.
pub proof fn lemma_lint_clean_iff_sound(src: Seq<char>)
    ensures
        lint_spec(src).len() == 0 <==> (lexical_findings(src).len() == 0 && parse_spec(
            parsed_tokens(src),
        ).findings.len() == 0 && well_formed(src, declarations_of(src))),
{
    lemma_lint_reports_every_finding_once(src);
    lemma_resolves_clean_iff_well_formed(src, declarations_of(src));
}

/// A script that is lexically sound, that the grammar derives, and whose
/// declarations keep every reference rule and every semantic rule yields
/// no diagnostic.
pub proof fn lemma_valid_script_is_clean(src: Seq<char>)
    requires
        lexical_findings(src).len() == 0,
        conforms(parsed_tokens(src)),
        well_formed(src, declarations_of(src)),
    ensures
        lint_spec(src) == Seq::<DiagnosticView>::empty(),
{
    lemma_conforming_script_parses_clean(parsed_tokens(src));
    lemma_lint_clean_iff_sound(src);
    assert(lint_spec(src) =~= Seq::<DiagnosticView>::empty());
}

/// Where a declaration of a script refers to a name that no declaration
/// before it declares, the script yields the diagnostic that the name is
/// undeclared, whether or not a later declaration declares it.
pub proof fn lemma_forward_reference_is_rejected(
    src: Seq<char>,
    i: int,
    space: Namespace,
    token: Token,
)
    requires
        0 <= i < declarations_of(src).len(),
        refers_to(src, declarations_of(src)[i], space, token),
        !declared_before(src, declarations_of(src), i, space, name_of(src, token)),
    ensures
        lint_spec(src).contains(diagnostic_of(src, flag(Rule::Undeclared(space), token))),
{
    let f = flag(Rule::Undeclared(space), token);
    lemma_forward_reference_is_reported(src, declarations_of(src), i, space, token);
    lemma_joined_contains(
        lexical_findings(src) + parse_spec(parsed_tokens(src)).findings,
        resolve_spec(src, declarations_of(src)),
        f,
    );
    lemma_lint_reports(src, f);
}

/// Where two declarations of a script declare the same name in the same
/// namespace, the script yields the diagnostic that the second declares it
/// again.
pub proof fn lemma_duplicate_is_rejected(
    src: Seq<char>,
    i: int,
    j: int,
    space: Namespace,
    first: Token,
    second: Token,
)
    requires
        0 <= i < j < declarations_of(src).len(),
        declared_name(declarations_of(src)[i]) == Some((space, first)),
        declared_name(declarations_of(src)[j]) == Some((space, second)),
        name_of(src, first) == name_of(src, second),
    ensures
        lint_spec(src).contains(diagnostic_of(src, flag(Rule::Redeclared(space), second))),
{
    let f = flag(Rule::Redeclared(space), second);
    lemma_duplicate_is_reported(src, declarations_of(src), i, j, space, first, second);
    lemma_joined_contains(
        lexical_findings(src) + parse_spec(parsed_tokens(src)).findings,
        resolve_spec(src, declarations_of(src)),
        f,
    );
    lemma_lint_reports(src, f);
}

} // verus!
