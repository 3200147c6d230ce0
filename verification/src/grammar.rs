//! The grammar of the script language, written down as a recognizer over
//! token kinds, and the proof that the parser reads every script that the
//! grammar derives without a finding.
//!
//! ```text
//! script       := declaration*
//! runtimeBlock := "juliet" "{" setting* "}"
//! policyDecl   := "policy" NAME "=" string ";"
//! rubricDecl   := "rubric" NAME "{" criterion+ tiebreakers? "}"
//! criterion    := "criterion" string "points" NUMBER ("means" string)? ";"
//! tiebreakers  := "tiebreakers" "[" string ("," string)* "]" ";"
//! cadenceDecl  := "cadence" NAME "{" setting* "compare" "using" NAME ";"
//!                 "keep" "best" NUMBER ";" "}"
//! createDecl   := "create" NAME "from" origin using? with? ";"
//! origin       := "julietArtifactSourceFiles" "[" string ("," string)* "]"
//!               | "juliet" string
//! using        := "using" "[" NAME ("," NAME)* "]"
//! with         := "with" "{" (WORD "=" NAME ";")* "}"
//! extendDecl   := "extend" NAME "." WORD "with" string ";"
//! haltStmt     := "halt" string? ";"
//! setting      := WORD "=" value ";"
//! value        := NAME | NUMBER | string
//! ```
//!
//! A NAME is an identifier that is no reserved word; a WORD is any
//! identifier, reserved or not.

use vstd::prelude::*;
use crate::token::{Keyword, Punct, Token, TokenKind};
use crate::finding::{Finding, Scope, Want};
use crate::parser::{
    kind_at, accepts, items_from, list_at, entry_at, after_entry, starts_entry, starts_statement,
    block_from, declaration_at, after_step, recovery_findings, parse_from, parse_spec, origin_at,
    using_at, create_tail,
};

verus! {

/// `item ("," item)* "]"` at index `i`: the index behind the bracket.
pub open spec fn items_end(tokens: Seq<Token>, i: int, want: Want) -> Option<int>
    decreases tokens.len() - i,
{
    if !accepts(want, kind_at(tokens, i)) {
        None
    } else if kind_at(tokens, i + 1) == TokenKind::Punct(Punct::Comma) {
        items_end(tokens, i + 2, want)
    } else if kind_at(tokens, i + 1) == TokenKind::Punct(Punct::CloseBracket) {
        Some(i + 2)
    } else {
        None
    }
}

/// `"[" item ("," item)* "]"` at index `i`.
pub open spec fn list_end(tokens: Seq<Token>, i: int, want: Want) -> Option<int> {
    if kind_at(tokens, i) == TokenKind::Punct(Punct::OpenBracket) {
        items_end(tokens, i + 1, want)
    } else {
        None
    }
}

/// `WORD "=" value ";"` at index `i` of a block of `scope`. In a `with`
/// block the value is a NAME; in a cadence the clauses `compare` and `keep`
/// are no settings.
pub open spec fn setting_end(tokens: Seq<Token>, i: int, scope: Scope) -> Option<int> {
    let key = kind_at(tokens, i);
    let value = kind_at(tokens, i + 2);
    if key.is_word() && (scope == Scope::Cadence ==> key != TokenKind::Keyword(Keyword::Compare)
        && key != TokenKind::Keyword(Keyword::Keep)) && kind_at(tokens, i + 1) == TokenKind::Punct(
        Punct::Equals,
    ) && (if scope == Scope::Attachments {
        value == TokenKind::Identifier
    } else {
        value.is_value()
    }) && kind_at(tokens, i + 3) == TokenKind::Punct(Punct::Semicolon) {
        Some(i + 4)
    } else {
        None
    }
}

/// `setting*` at index `i`: the index behind the last setting.
pub open spec fn settings_end(tokens: Seq<Token>, i: int, scope: Scope) -> int
    decreases tokens.len() - i,
{
    if setting_end(tokens, i, scope) is Some {
        settings_end(tokens, i + 4, scope)
    } else {
        i
    }
}

/// `"criterion" string "points" NUMBER ("means" string)? ";"` at index `i`.
pub open spec fn criterion_end(tokens: Seq<Token>, i: int) -> Option<int> {
    if kind_at(tokens, i) == TokenKind::Keyword(Keyword::Criterion) && kind_at(
        tokens,
        i + 1,
    ).is_string() && kind_at(tokens, i + 2) == TokenKind::Keyword(Keyword::Points) && kind_at(
        tokens,
        i + 3,
    ) == TokenKind::Number {
        if kind_at(tokens, i + 4) == TokenKind::Keyword(Keyword::Means) {
            if kind_at(tokens, i + 5).is_string() && kind_at(tokens, i + 6) == TokenKind::Punct(
                Punct::Semicolon,
            ) {
                Some(i + 7)
            } else {
                None
            }
        } else if kind_at(tokens, i + 4) == TokenKind::Punct(Punct::Semicolon) {
            Some(i + 5)
        } else {
            None
        }
    } else {
        None
    }
}

/// `criterion*` at index `i`: the index behind the last criterion.
pub open spec fn criteria_end(tokens: Seq<Token>, i: int) -> int
    decreases tokens.len() - i,
{
    match criterion_end(tokens, i) {
        Some(j) => criteria_end(tokens, j),
        None => i,
    }
}

/// `"tiebreakers" "[" string ("," string)* "]" ";"` at index `i`.
pub open spec fn tiebreakers_end(tokens: Seq<Token>, i: int) -> Option<int> {
    if kind_at(tokens, i) == TokenKind::Keyword(Keyword::Tiebreakers) {
        match list_end(tokens, i + 1, Want::Text) {
            Some(j) => if kind_at(tokens, j) == TokenKind::Punct(Punct::Semicolon) {
                Some(j + 1)
            } else {
                None
            },
            None => None,
        }
    } else {
        None
    }
}

/// `"}"` at index `i`.
pub open spec fn brace_end(tokens: Seq<Token>, i: int) -> Option<int> {
    if kind_at(tokens, i) == TokenKind::Punct(Punct::CloseBrace) {
        Some(i + 1)
    } else {
        None
    }
}

/// `"juliet" "{" setting* "}"` at index `i`.
pub open spec fn runtime_end(tokens: Seq<Token>, i: int) -> Option<int> {
    if kind_at(tokens, i) == TokenKind::Keyword(Keyword::Juliet) && kind_at(tokens, i + 1)
        == TokenKind::Punct(Punct::OpenBrace) {
        brace_end(tokens, settings_end(tokens, i + 2, Scope::Runtime))
    } else {
        None
    }
}

/// `"policy" NAME "=" string ";"` at index `i`.
pub open spec fn policy_end(tokens: Seq<Token>, i: int) -> Option<int> {
    if kind_at(tokens, i) == TokenKind::Keyword(Keyword::Policy) && kind_at(tokens, i + 1)
        == TokenKind::Identifier && kind_at(tokens, i + 2) == TokenKind::Punct(Punct::Equals)
        && kind_at(tokens, i + 3).is_string() && kind_at(tokens, i + 4) == TokenKind::Punct(
        Punct::Semicolon,
    ) {
        Some(i + 5)
    } else {
        None
    }
}

/// `"rubric" NAME "{" criterion+ tiebreakers? "}"` at index `i`.
pub open spec fn rubric_end(tokens: Seq<Token>, i: int) -> Option<int> {
    if kind_at(tokens, i) == TokenKind::Keyword(Keyword::Rubric) && kind_at(tokens, i + 1)
        == TokenKind::Identifier && kind_at(tokens, i + 2) == TokenKind::Punct(Punct::OpenBrace)
        && criterion_end(tokens, i + 3) is Some {
        let after = criteria_end(tokens, i + 3);
        if kind_at(tokens, after) == TokenKind::Keyword(Keyword::Tiebreakers) {
            match tiebreakers_end(tokens, after) {
                Some(j) => brace_end(tokens, j),
                None => None,
            }
        } else {
            brace_end(tokens, after)
        }
    } else {
        None
    }
}

/// `"compare" "using" NAME ";" "keep" "best" NUMBER ";" "}"` at index `i`.
pub open spec fn cadence_close(tokens: Seq<Token>, i: int) -> Option<int> {
    if kind_at(tokens, i) == TokenKind::Keyword(Keyword::Compare) && kind_at(tokens, i + 1)
        == TokenKind::Keyword(Keyword::Using) && kind_at(tokens, i + 2) == TokenKind::Identifier
        && kind_at(tokens, i + 3) == TokenKind::Punct(Punct::Semicolon) && kind_at(tokens, i + 4)
        == TokenKind::Keyword(Keyword::Keep) && kind_at(tokens, i + 5) == TokenKind::Keyword(
        Keyword::Best,
    ) && kind_at(tokens, i + 6) == TokenKind::Number && kind_at(tokens, i + 7) == TokenKind::Punct(
        Punct::Semicolon,
    ) {
        brace_end(tokens, i + 8)
    } else {
        None
    }
}

/// `"cadence" NAME "{" setting* "compare" ... "keep" ... "}"` at index `i`.
pub open spec fn cadence_end(tokens: Seq<Token>, i: int) -> Option<int> {
    if kind_at(tokens, i) == TokenKind::Keyword(Keyword::Cadence) && kind_at(tokens, i + 1)
        == TokenKind::Identifier && kind_at(tokens, i + 2) == TokenKind::Punct(Punct::OpenBrace) {
        cadence_close(tokens, settings_end(tokens, i + 3, Scope::Cadence))
    } else {
        None
    }
}

/// The origin of an artifact at index `i`.
pub open spec fn origin_end(tokens: Seq<Token>, i: int) -> Option<int> {
    if kind_at(tokens, i) == TokenKind::Keyword(Keyword::SourceFiles) {
        list_end(tokens, i + 1, Want::Text)
    } else if kind_at(tokens, i) == TokenKind::Keyword(Keyword::Juliet) && kind_at(
        tokens,
        i + 1,
    ).is_string() {
        Some(i + 2)
    } else {
        None
    }
}

/// `using?` at index `i`.
pub open spec fn using_end(tokens: Seq<Token>, i: int) -> Option<int> {
    if kind_at(tokens, i) == TokenKind::Keyword(Keyword::Using) {
        list_end(tokens, i + 1, Want::Name)
    } else {
        Some(i)
    }
}

/// `with?` at index `i`.
pub open spec fn with_end(tokens: Seq<Token>, i: int) -> Option<int> {
    if kind_at(tokens, i) == TokenKind::Keyword(Keyword::With) {
        if kind_at(tokens, i + 1) == TokenKind::Punct(Punct::OpenBrace) {
            brace_end(tokens, settings_end(tokens, i + 2, Scope::Attachments))
        } else {
            None
        }
    } else {
        Some(i)
    }
}

/// `"create" NAME "from" origin using? with? ";"` at index `i`.
pub open spec fn create_end(tokens: Seq<Token>, i: int) -> Option<int> {
    if kind_at(tokens, i) == TokenKind::Keyword(Keyword::Create) && kind_at(tokens, i + 1)
        == TokenKind::Identifier && kind_at(tokens, i + 2) == TokenKind::Keyword(Keyword::From) {
        match origin_end(tokens, i + 3) {
            Some(a) => match using_end(tokens, a) {
                Some(b) => match with_end(tokens, b) {
                    Some(c) => if kind_at(tokens, c) == TokenKind::Punct(Punct::Semicolon) {
                        Some(c + 1)
                    } else {
                        None
                    },
                    None => None,
                },
                None => None,
            },
            None => None,
        }
    } else {
        None
    }
}

/// `"extend" NAME "." WORD "with" string ";"` at index `i`.
pub open spec fn extend_end(tokens: Seq<Token>, i: int) -> Option<int> {
    if kind_at(tokens, i) == TokenKind::Keyword(Keyword::Extend) && kind_at(tokens, i + 1)
        == TokenKind::Identifier && kind_at(tokens, i + 2) == TokenKind::Punct(Punct::Dot)
        && kind_at(tokens, i + 3).is_word() && kind_at(tokens, i + 4) == TokenKind::Keyword(
        Keyword::With,
    ) && kind_at(tokens, i + 5).is_string() && kind_at(tokens, i + 6) == TokenKind::Punct(
        Punct::Semicolon,
    ) {
        Some(i + 7)
    } else {
        None
    }
}

/// `"halt" string? ";"` at index `i`.
pub open spec fn halt_end(tokens: Seq<Token>, i: int) -> Option<int> {
    if kind_at(tokens, i) == TokenKind::Keyword(Keyword::Halt) {
        if kind_at(tokens, i + 1).is_string() {
            if kind_at(tokens, i + 2) == TokenKind::Punct(Punct::Semicolon) {
                Some(i + 3)
            } else {
                None
            }
        } else if kind_at(tokens, i + 1) == TokenKind::Punct(Punct::Semicolon) {
            Some(i + 2)
        } else {
            None
        }
    } else {
        None
    }
}

/// The declaration that the grammar derives at index `i`, if it derives
/// one: the index behind it.
pub open spec fn declaration_end(tokens: Seq<Token>, i: int) -> Option<int> {
    match kind_at(tokens, i) {
        TokenKind::Keyword(Keyword::Juliet) => runtime_end(tokens, i),
        TokenKind::Keyword(Keyword::Policy) => policy_end(tokens, i),
        TokenKind::Keyword(Keyword::Rubric) => rubric_end(tokens, i),
        TokenKind::Keyword(Keyword::Cadence) => cadence_end(tokens, i),
        TokenKind::Keyword(Keyword::Create) => create_end(tokens, i),
        TokenKind::Keyword(Keyword::Extend) => extend_end(tokens, i),
        TokenKind::Keyword(Keyword::Halt) => halt_end(tokens, i),
        _ => None,
    }
}

/// Whether the grammar derives the tokens from index `i` to the end of
/// input as a sequence of declarations.
pub open spec fn conforms_from(tokens: Seq<Token>, i: int) -> bool
    decreases tokens.len() - i,
{
    if i < 0 || i >= tokens.len() || kind_at(tokens, i) == TokenKind::End {
        true
    } else {
        match declaration_end(tokens, i) {
            Some(j) => i < j <= tokens.len() && conforms_from(tokens, j),
            None => false,
        }
    }
}

/// Whether the grammar derives the token stream as a script.
pub open spec fn conforms(tokens: Seq<Token>) -> bool {
    conforms_from(tokens, 0)
}

// ---------------------------------------------------------------------
// The parser reads what the grammar derives

/// Reading a block from index `i` goes on at index `j` with nothing found
/// in between.
pub open spec fn reads_on(tokens: Seq<Token>, i: int, j: int, scope: Scope) -> bool {
    &&& block_from(tokens, i, scope).findings == block_from(tokens, j, scope).findings
    &&& block_from(tokens, i, scope).next == block_from(tokens, j, scope).next
    &&& block_from(tokens, i, scope).closed == block_from(tokens, j, scope).closed
}

/// Reading a block from index `i` ends at its closing brace, behind which
/// index `j` lies, with nothing found.
pub open spec fn reads_out(tokens: Seq<Token>, i: int, j: int, scope: Scope) -> bool {
    &&& block_from(tokens, i, scope).findings == Seq::<Finding>::empty()
    &&& block_from(tokens, i, scope).next == j
    &&& block_from(tokens, i, scope).closed
}

proof fn lemma_items_read(tokens: Seq<Token>, i: int, want: Want, scope: Scope, open: int)
    requires
        items_end(tokens, i, want) is Some,
    ensures
        items_from(tokens, i, want, scope, open).ok,
        items_from(tokens, i, want, scope, open).findings == Seq::<Finding>::empty(),
        items_end(tokens, i, want) == Some(items_from(tokens, i, want, scope, open).next),
    decreases tokens.len() - i,
{
    if kind_at(tokens, i + 1) == TokenKind::Punct(Punct::Comma) {
        lemma_items_read(tokens, i + 2, want, scope, open);
    }
}

proof fn lemma_list_read(tokens: Seq<Token>, i: int, want: Want, scope: Scope)
    requires
        list_end(tokens, i, want) is Some,
    ensures
        list_at(tokens, i, want, scope).ok,
        list_at(tokens, i, want, scope).findings == Seq::<Finding>::empty(),
        list_end(tokens, i, want) == Some(list_at(tokens, i, want, scope).next),
{
    lemma_items_read(tokens, i + 1, want, scope, i);
}

proof fn lemma_brace_read(tokens: Seq<Token>, i: int, scope: Scope)
    requires
        brace_end(tokens, i) is Some,
    ensures
        reads_out(tokens, i, i + 1, scope),
{
}

proof fn lemma_setting_read(tokens: Seq<Token>, i: int, scope: Scope)
    requires
        setting_end(tokens, i, scope) is Some,
        scope == Scope::Runtime || scope == Scope::Cadence || scope == Scope::Attachments,
    ensures
        reads_on(tokens, i, i + 4, scope),
{
    assert(starts_entry(tokens, i, scope));
    assert(!starts_statement(tokens, i));
    let step = entry_at(tokens, i, scope);
    assert(step.findings =~= Seq::<Finding>::empty());
    assert(after_entry(tokens, i, scope) == i + 4);
    assert(step.findings + block_from(tokens, i + 4, scope).findings =~= block_from(
        tokens,
        i + 4,
        scope,
    ).findings);
}

proof fn lemma_settings_read(tokens: Seq<Token>, i: int, scope: Scope)
    requires
        scope == Scope::Runtime || scope == Scope::Cadence || scope == Scope::Attachments,
    ensures
        reads_on(tokens, i, settings_end(tokens, i, scope), scope),
    decreases tokens.len() - i,
{
    if setting_end(tokens, i, scope) is Some {
        lemma_setting_read(tokens, i, scope);
        lemma_settings_read(tokens, i + 4, scope);
    }
}

proof fn lemma_criterion_read(tokens: Seq<Token>, i: int)
    requires
        criterion_end(tokens, i) is Some,
    ensures
        reads_on(tokens, i, criterion_end(tokens, i)->0, Scope::Rubric),
{
    let j = criterion_end(tokens, i)->0;
    assert(!starts_statement(tokens, i));
    let step = entry_at(tokens, i, Scope::Rubric);
    assert(step.findings =~= Seq::<Finding>::empty());
    assert(after_entry(tokens, i, Scope::Rubric) == j);
    assert(step.findings + block_from(tokens, j, Scope::Rubric).findings =~= block_from(
        tokens,
        j,
        Scope::Rubric,
    ).findings);
}

proof fn lemma_criteria_read(tokens: Seq<Token>, i: int)
    ensures
        reads_on(tokens, i, criteria_end(tokens, i), Scope::Rubric),
    decreases tokens.len() - i,
{
    if criterion_end(tokens, i) is Some {
        lemma_criterion_read(tokens, i);
        lemma_criteria_read(tokens, criterion_end(tokens, i)->0);
    }
}

proof fn lemma_tiebreakers_read(tokens: Seq<Token>, i: int)
    requires
        tiebreakers_end(tokens, i) is Some,
    ensures
        reads_on(tokens, i, tiebreakers_end(tokens, i)->0, Scope::Rubric),
{
    let j = tiebreakers_end(tokens, i)->0;
    lemma_list_read(tokens, i + 1, Want::Text, Scope::Tiebreakers);
    assert(!starts_statement(tokens, i));
    let step = entry_at(tokens, i, Scope::Rubric);
    assert(step.findings =~= Seq::<Finding>::empty());
    assert(after_entry(tokens, i, Scope::Rubric) == j);
    assert(step.findings + block_from(tokens, j, Scope::Rubric).findings =~= block_from(
        tokens,
        j,
        Scope::Rubric,
    ).findings);
}

proof fn lemma_cadence_close_read(tokens: Seq<Token>, i: int)
    requires
        cadence_close(tokens, i) is Some,
    ensures
        reads_out(tokens, i, i + 9, Scope::Cadence),
{
    let scope = Scope::Cadence;
    assert(!starts_statement(tokens, i));
    let compare = entry_at(tokens, i, scope);
    assert(compare.findings =~= Seq::<Finding>::empty());
    assert(after_entry(tokens, i, scope) == i + 4);
    assert(!starts_statement(tokens, i + 4));
    let keep = entry_at(tokens, i + 4, scope);
    assert(keep.findings =~= Seq::<Finding>::empty());
    assert(after_entry(tokens, i + 4, scope) == i + 8);
    lemma_brace_read(tokens, i + 8, scope);
    assert(block_from(tokens, i + 4, scope).findings =~= Seq::<Finding>::empty());
    assert(block_from(tokens, i, scope).findings =~= Seq::<Finding>::empty());
}

/// The parser reads a declaration that the grammar derives to its end,
/// keeps it, and finds nothing.
pub proof fn lemma_declaration_read(tokens: Seq<Token>, i: int)
    requires
        declaration_end(tokens, i) is Some,
    ensures
        declaration_at(tokens, i).findings == Seq::<Finding>::empty(),
        declaration_at(tokens, i).next == declaration_end(tokens, i)->0,
        !declaration_at(tokens, i).resync,
        declaration_at(tokens, i).decl is Some,
{
    let step = declaration_at(tokens, i);
    match kind_at(tokens, i) {
        TokenKind::Keyword(Keyword::Juliet) => {
            let close = settings_end(tokens, i + 2, Scope::Runtime);
            lemma_settings_read(tokens, i + 2, Scope::Runtime);
            lemma_brace_read(tokens, close, Scope::Runtime);
        },
        TokenKind::Keyword(Keyword::Policy) => {
            assert(step.findings =~= Seq::<Finding>::empty());
        },
        TokenKind::Keyword(Keyword::Rubric) => {
            let after = criteria_end(tokens, i + 3);
            lemma_criteria_read(tokens, i + 3);
            if kind_at(tokens, after) == TokenKind::Keyword(Keyword::Tiebreakers) {
                lemma_tiebreakers_read(tokens, after);
                lemma_brace_read(tokens, tiebreakers_end(tokens, after)->0, Scope::Rubric);
            } else {
                lemma_brace_read(tokens, after, Scope::Rubric);
            }
        },
        TokenKind::Keyword(Keyword::Cadence) => {
            let close = settings_end(tokens, i + 3, Scope::Cadence);
            lemma_settings_read(tokens, i + 3, Scope::Cadence);
            lemma_cadence_close_read(tokens, close);
        },
        TokenKind::Keyword(Keyword::Create) => {
            lemma_create_read(tokens, i);
        },
        TokenKind::Keyword(Keyword::Extend) => {
            assert(step.findings =~= Seq::<Finding>::empty());
        },
        TokenKind::Keyword(Keyword::Halt) => {
            assert(step.findings =~= Seq::<Finding>::empty());
        },
        _ => {},
    }
}

proof fn lemma_create_read(tokens: Seq<Token>, i: int)
    requires
        create_end(tokens, i) is Some,
    ensures
        declaration_at(tokens, i).findings == Seq::<Finding>::empty(),
        declaration_at(tokens, i).next == create_end(tokens, i)->0,
        !declaration_at(tokens, i).resync,
        declaration_at(tokens, i).decl is Some,
{
    let a = origin_end(tokens, i + 3)->0;
    let b = using_end(tokens, a)->0;
    let c = with_end(tokens, b)->0;
    if kind_at(tokens, i + 3) == TokenKind::Keyword(Keyword::SourceFiles) {
        lemma_list_read(tokens, i + 4, Want::Text, Scope::SourceFiles);
    }
    let origin = origin_at(tokens, i + 3);
    assert(origin.ok && origin.next == a);
    if kind_at(tokens, a) == TokenKind::Keyword(Keyword::Using) {
        lemma_list_read(tokens, a + 1, Want::Name, Scope::Using);
    }
    let using = using_at(tokens, a);
    assert(using.ok && using.next == b);
    let tail = create_tail(tokens, b, tokens[i + 1], origin.prompt, origin.files, using.items);
    if kind_at(tokens, b) == TokenKind::Keyword(Keyword::With) {
        let close = settings_end(tokens, b + 2, Scope::Attachments);
        lemma_settings_read(tokens, b + 2, Scope::Attachments);
        lemma_brace_read(tokens, close, Scope::Attachments);
        assert(tail.findings =~= Seq::<Finding>::empty());
    } else {
        assert(tail.findings =~= Seq::<Finding>::empty());
    }
    assert(declaration_at(tokens, i) == tail);
}

/// The parser finds nothing in what the grammar derives.
proof fn lemma_script_read(tokens: Seq<Token>, i: int)
    requires
        conforms_from(tokens, i),
    ensures
        parse_from(tokens, i).findings == Seq::<Finding>::empty(),
    decreases tokens.len() - i,
{
    if i < 0 || i >= tokens.len() || kind_at(tokens, i) == TokenKind::End {
    } else {
        let j = declaration_end(tokens, i)->0;
        lemma_declaration_read(tokens, i);
        let step = declaration_at(tokens, i);
        assert(after_step(tokens, step) == j);
        assert(recovery_findings(tokens, step) =~= Seq::<Finding>::empty());
        lemma_script_read(tokens, j);
        assert(step.findings + recovery_findings(tokens, step) + parse_from(tokens, j).findings
            =~= Seq::<Finding>::empty());
    }
}

/// A token stream that the grammar derives as a script parses without a
/// finding.
pub proof fn lemma_conforming_script_parses_clean(tokens: Seq<Token>)
    requires
        conforms(tokens),
    ensures
        parse_spec(tokens).findings == Seq::<Finding>::empty(),
{
    lemma_script_read(tokens, 0);
}

} // verus!
