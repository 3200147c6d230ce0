use julietscript_lint::resolver::SymbolTable;
use julietscript_lint::finding::Namespace;
use julietscript_lint::source::{same_text, text_is, to_chars, Position, Span};
use julietscript_lint::token::{Token, TokenKind};

fn span(start: usize, end: usize) -> Span {
    Span { start, end }
}

fn name(start: usize, end: usize) -> Token {
    Token {
        kind: TokenKind::Identifier,
        text: span(start, end),
        start: Position {
            line: 0,
            character: start,
        },
        end: Position {
            line: 0,
            character: end,
        },
    }
}

#[test]
fn a_text_is_its_characters() {
    assert_eq!(to_chars(""), Vec::<char>::new());
    assert_eq!(to_chars("aé😀\n"), vec!['a', 'é', '😀', '\n']);
}

#[test]
fn positions_are_compared_by_line_then_character() {
    let at = |line, character| Position { line, character };
    assert!(at(0, 5).is_before(&at(1, 0)));
    assert!(at(1, 0).is_before(&at(1, 1)));
    assert!(!at(1, 1).is_before(&at(1, 1)));
    assert!(!at(2, 0).is_before(&at(1, 9)));
}

#[test]
fn spans_are_compared_by_the_text_they_select() {
    let chars = to_chars("abc abd abc");
    assert!(same_text(&chars, span(0, 3), span(8, 11)));
    assert!(!same_text(&chars, span(0, 3), span(4, 7)));
    assert!(!same_text(&chars, span(0, 3), span(0, 2)));
    assert!(same_text(&chars, span(1, 1), span(5, 5)));
    assert!(same_text(&chars, span(0, 2), span(4, 6)));
}

#[test]
fn a_span_outside_the_text_selects_nothing() {
    let chars = to_chars("abc");
    assert!(same_text(&chars, span(2, 9), span(1, 1)));
    assert!(same_text(&chars, span(3, 2), span(0, 0)));
    assert!(!same_text(&chars, span(2, 9), span(2, 3)));
    assert!(text_is(&chars, span(2, 9), ""));
    assert!(!text_is(&chars, span(2, 9), "c"));
}

#[test]
fn a_span_is_compared_with_a_word() {
    let chars = to_chars("policy pol");
    assert!(text_is(&chars, span(0, 6), "policy"));
    assert!(!text_is(&chars, span(0, 6), "polic"));
    assert!(!text_is(&chars, span(0, 6), "policz"));
    assert!(text_is(&chars, span(7, 10), "pol"));
    assert!(!text_is(&chars, span(7, 10), "policy"));
    assert!(text_is(&chars, span(3, 3), ""));
}

#[test]
fn the_symbol_table_keeps_its_namespaces_apart() {
    let chars = to_chars("one two one");
    let mut table = SymbolTable::new();
    assert!(!table.contains(&chars, Namespace::Policy, span(0, 3)));
    table.declare(Namespace::Policy, name(0, 3));
    assert!(table.contains(&chars, Namespace::Policy, span(0, 3)));
    assert!(table.contains(&chars, Namespace::Policy, span(8, 11)));
    assert!(!table.contains(&chars, Namespace::Policy, span(4, 7)));
    assert!(!table.contains(&chars, Namespace::Rubric, span(0, 3)));
    assert!(!table.contains(&chars, Namespace::Cadence, span(0, 3)));
    assert!(!table.contains(&chars, Namespace::Artifact, span(0, 3)));
    table.declare(Namespace::Artifact, name(4, 7));
    table.declare(Namespace::Policy, name(8, 11));
    assert!(table.contains(&chars, Namespace::Artifact, span(4, 7)));
    assert!(!table.contains(&chars, Namespace::Policy, span(4, 7)));
    assert_eq!(
        table.lookup(&chars, Namespace::Policy, span(8, 11)),
        Some(Position {
            line: 0,
            character: 0
        })
    );
    assert_eq!(
        table.lookup(&chars, Namespace::Artifact, span(4, 7)),
        Some(Position {
            line: 0,
            character: 4
        })
    );
    assert_eq!(table.lookup(&chars, Namespace::Rubric, span(4, 7)), None);
    assert_eq!(table.policies.len(), 2);
    assert_eq!(table.artifacts.len(), 1);
    assert_eq!(table.policies[0].start.character, 0);
    assert_eq!(table.policies[1].start.character, 8);
}
