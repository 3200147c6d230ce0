use julietscript_lint::finding::Rule;
use julietscript_lint::lexer::{significant_tokens, token_text, tokenize};
use julietscript_lint::source::Position;
use julietscript_lint::token::{Keyword, Punct, Token, TokenKind};

fn kinds(source: &str) -> Vec<TokenKind> {
    tokenize(source).tokens.iter().map(|t| t.kind).collect()
}

fn texts(source: &str) -> Vec<String> {
    tokenize(source)
        .tokens
        .iter()
        .map(|t| token_text(source, t).to_string())
        .collect()
}

fn at(line: usize, character: usize) -> Position {
    Position { line, character }
}

fn places(token: &Token) -> (Position, Position) {
    (token.start, token.end)
}

#[test]
fn empty_input_yields_the_end_token_alone() {
    let lexed = tokenize("");
    assert_eq!(lexed.tokens.len(), 1);
    assert_eq!(lexed.tokens[0].kind, TokenKind::End);
    assert_eq!(places(&lexed.tokens[0]), (at(0, 0), at(0, 0)));
    assert!(lexed.findings.is_empty());
}

#[test]
fn white_space_and_comments_leave_no_token() {
    assert_eq!(kinds("  \t\r\n # a comment ; { \n#another"), vec![TokenKind::End]);
    let lexed = tokenize("# c\nhalt # d\n;");
    assert_eq!(
        lexed.tokens.iter().map(|t| t.kind).collect::<Vec<_>>(),
        vec![
            TokenKind::Keyword(Keyword::Halt),
            TokenKind::Punct(Punct::Semicolon),
            TokenKind::End
        ]
    );
    assert_eq!(places(&lexed.tokens[0]), (at(1, 0), at(1, 4)));
    assert_eq!(places(&lexed.tokens[1]), (at(2, 0), at(2, 1)));
    assert_eq!(places(&lexed.tokens[2]), (at(2, 1), at(2, 1)));
}

#[test]
fn every_reserved_word_is_a_keyword() {
    let source = "juliet policy rubric criterion points means tiebreakers cadence variants \
                  sprints compare using keep best create from julietArtifactSourceFiles with \
                  extend halt";
    assert_eq!(
        kinds(source),
        vec![
            TokenKind::Keyword(Keyword::Juliet),
            TokenKind::Keyword(Keyword::Policy),
            TokenKind::Keyword(Keyword::Rubric),
            TokenKind::Keyword(Keyword::Criterion),
            TokenKind::Keyword(Keyword::Points),
            TokenKind::Keyword(Keyword::Means),
            TokenKind::Keyword(Keyword::Tiebreakers),
            TokenKind::Keyword(Keyword::Cadence),
            TokenKind::Keyword(Keyword::Variants),
            TokenKind::Keyword(Keyword::Sprints),
            TokenKind::Keyword(Keyword::Compare),
            TokenKind::Keyword(Keyword::Using),
            TokenKind::Keyword(Keyword::Keep),
            TokenKind::Keyword(Keyword::Best),
            TokenKind::Keyword(Keyword::Create),
            TokenKind::Keyword(Keyword::From),
            TokenKind::Keyword(Keyword::SourceFiles),
            TokenKind::Keyword(Keyword::With),
            TokenKind::Keyword(Keyword::Extend),
            TokenKind::Keyword(Keyword::Halt),
            TokenKind::End,
        ]
    );
}

#[test]
fn other_words_are_identifiers() {
    let source = "engine codex Policy halts _x a1 julietArtifactSourceFile preflight";
    let found = kinds(source);
    assert_eq!(found.len(), 9);
    assert!(found[..8].iter().all(|k| *k == TokenKind::Identifier));
    assert_eq!(
        texts(source)[..8],
        [
            "engine",
            "codex",
            "Policy",
            "halts",
            "_x",
            "a1",
            "julietArtifactSourceFile",
            "preflight"
        ]
    );
}

#[test]
fn punctuation_marks_are_told_apart() {
    assert_eq!(
        kinds("{}[]()=;,."),
        vec![
            TokenKind::Punct(Punct::OpenBrace),
            TokenKind::Punct(Punct::CloseBrace),
            TokenKind::Punct(Punct::OpenBracket),
            TokenKind::Punct(Punct::CloseBracket),
            TokenKind::Punct(Punct::OpenParen),
            TokenKind::Punct(Punct::CloseParen),
            TokenKind::Punct(Punct::Equals),
            TokenKind::Punct(Punct::Semicolon),
            TokenKind::Punct(Punct::Comma),
            TokenKind::Punct(Punct::Dot),
            TokenKind::End,
        ]
    );
}

#[test]
fn numbers_may_be_signed_or_have_a_fraction() {
    let source = "12 -3 4.5 -0.25 7. 8";
    assert_eq!(
        kinds(source),
        vec![
            TokenKind::Number,
            TokenKind::Number,
            TokenKind::Number,
            TokenKind::Number,
            TokenKind::Number,
            TokenKind::Punct(Punct::Dot),
            TokenKind::Number,
            TokenKind::End,
        ]
    );
    assert_eq!(
        texts(source)[..7],
        ["12", "-3", "4.5", "-0.25", "7", ".", "8"]
    );
}

#[test]
fn a_digit_ends_an_identifier_only_at_its_start() {
    assert_eq!(texts("a1b2 3c")[..3], ["a1b2", "3", "c"]);
}

#[test]
fn plain_strings_keep_their_body_and_cover_their_quotes() {
    let source = "\"a b\" \"\" \"x\\\"y\" \"tab\\\\\"";
    let lexed = tokenize(source);
    assert!(lexed.findings.is_empty());
    assert_eq!(
        lexed.tokens.iter().map(|t| t.kind).collect::<Vec<_>>(),
        vec![
            TokenKind::Text,
            TokenKind::Text,
            TokenKind::Text,
            TokenKind::Text,
            TokenKind::End
        ]
    );
    assert_eq!(texts(source)[..4], ["a b", "", "x\\\"y", "tab\\\\"]);
    assert_eq!(places(&lexed.tokens[0]), (at(0, 0), at(0, 5)));
    assert_eq!(places(&lexed.tokens[1]), (at(0, 6), at(0, 8)));
    assert_eq!(places(&lexed.tokens[2]), (at(0, 9), at(0, 15)));
}

#[test]
fn block_strings_run_over_lines() {
    let source = "\"\"\"one\ntwo \"quoted\"\n\"\"\" x";
    let lexed = tokenize(source);
    assert!(lexed.findings.is_empty());
    assert_eq!(lexed.tokens[0].kind, TokenKind::Block);
    assert_eq!(token_text(source, &lexed.tokens[0]), "one\ntwo \"quoted\"\n");
    assert_eq!(places(&lexed.tokens[0]), (at(0, 0), at(2, 3)));
    assert_eq!(lexed.tokens[1].kind, TokenKind::Identifier);
    assert_eq!(places(&lexed.tokens[1]), (at(2, 4), at(2, 5)));
}

#[test]
fn an_empty_block_string_is_six_quotes() {
    let source = "\"\"\"\"\"\"";
    let lexed = tokenize(source);
    assert!(lexed.findings.is_empty());
    assert_eq!(lexed.tokens[0].kind, TokenKind::Block);
    assert_eq!(token_text(source, &lexed.tokens[0]), "");
    assert_eq!(places(&lexed.tokens[0]), (at(0, 0), at(0, 6)));
}

#[test]
fn an_unterminated_string_ends_with_its_line() {
    let source = "policy a = \"oops\nhalt;";
    let lexed = tokenize(source);
    assert_eq!(lexed.findings.len(), 1);
    assert_eq!(lexed.findings[0].rule, Rule::UnterminatedString);
    assert_eq!(lexed.findings[0].range.start, at(0, 11));
    assert_eq!(lexed.findings[0].range.end, Some(at(0, 16)));
    assert_eq!(
        lexed.tokens.iter().map(|t| t.kind).collect::<Vec<_>>(),
        vec![
            TokenKind::Keyword(Keyword::Policy),
            TokenKind::Identifier,
            TokenKind::Punct(Punct::Equals),
            TokenKind::Text,
            TokenKind::Keyword(Keyword::Halt),
            TokenKind::Punct(Punct::Semicolon),
            TokenKind::End,
        ]
    );
    assert_eq!(token_text(source, &lexed.tokens[3]), "oops");
}

#[test]
fn a_backslash_does_not_carry_a_string_over_the_line() {
    let source = "\"a\\\nb\"";
    let lexed = tokenize(source);
    assert_eq!(lexed.findings.len(), 2);
    assert_eq!(lexed.findings[0].rule, Rule::UnterminatedString);
    assert_eq!(lexed.findings[0].range.start, at(0, 0));
    assert_eq!(lexed.findings[1].rule, Rule::UnterminatedString);
    assert_eq!(lexed.findings[1].range.start, at(1, 1));
    assert_eq!(token_text(source, &lexed.tokens[0]), "a\\");
}

#[test]
fn an_unterminated_block_string_ends_with_the_input() {
    let source = "x \"\"\"never\nclosed\"\"";
    let lexed = tokenize(source);
    assert_eq!(lexed.findings.len(), 1);
    assert_eq!(lexed.findings[0].rule, Rule::UnterminatedBlock);
    assert_eq!(lexed.findings[0].range.start, at(0, 2));
    assert_eq!(lexed.findings[0].range.end, Some(at(1, 8)));
    assert_eq!(lexed.tokens[1].kind, TokenKind::Block);
    assert_eq!(token_text(source, &lexed.tokens[1]), "never\nclosed\"\"");
    assert_eq!(lexed.tokens[2].kind, TokenKind::End);
}

#[test]
fn a_character_that_starts_no_token_is_reported_once() {
    let source = "halt @ ;";
    let lexed = tokenize(source);
    assert_eq!(lexed.findings.len(), 1);
    assert_eq!(lexed.findings[0].rule, Rule::UnexpectedCharacter);
    assert_eq!(lexed.findings[0].range.start, at(0, 5));
    assert_eq!(lexed.findings[0].range.end, Some(at(0, 6)));
    assert_eq!(
        lexed.tokens.iter().map(|t| t.kind).collect::<Vec<_>>(),
        vec![
            TokenKind::Keyword(Keyword::Halt),
            TokenKind::Unknown,
            TokenKind::Punct(Punct::Semicolon),
            TokenKind::End,
        ]
    );
    assert_eq!(token_text(source, &lexed.tokens[1]), "@");
    let read = significant_tokens(&lexed.tokens);
    assert_eq!(
        read.iter().map(|t| t.kind).collect::<Vec<_>>(),
        vec![
            TokenKind::Keyword(Keyword::Halt),
            TokenKind::Punct(Punct::Semicolon),
            TokenKind::End,
        ]
    );
}

#[test]
fn a_lone_minus_starts_no_token() {
    let lexed = tokenize("- 1 -a");
    assert_eq!(
        lexed.tokens.iter().map(|t| t.kind).collect::<Vec<_>>(),
        vec![
            TokenKind::Unknown,
            TokenKind::Number,
            TokenKind::Unknown,
            TokenKind::Identifier,
            TokenKind::End,
        ]
    );
    assert_eq!(lexed.findings.len(), 2);
}

#[test]
fn positions_count_characters_not_bytes() {
    let source = "\"héé\" ø x\n\"😀\" y";
    let lexed = tokenize(source);
    assert_eq!(places(&lexed.tokens[0]), (at(0, 0), at(0, 5)));
    assert_eq!(lexed.tokens[1].kind, TokenKind::Unknown);
    assert_eq!(places(&lexed.tokens[1]), (at(0, 6), at(0, 7)));
    assert_eq!(places(&lexed.tokens[2]), (at(0, 8), at(0, 9)));
    assert_eq!(places(&lexed.tokens[3]), (at(1, 0), at(1, 3)));
    assert_eq!(token_text(source, &lexed.tokens[3]), "😀");
    assert_eq!(places(&lexed.tokens[4]), (at(1, 4), at(1, 5)));
}

#[test]
fn arbitrary_garbage_is_lexed_to_the_end() {
    let source = "\u{0}\u{1}~~`\\ \u{7f}\u{fffd} ? ! % ^ & * + | < > / : ' $";
    let lexed = tokenize(source);
    assert_eq!(lexed.tokens.last().map(|t| t.kind), Some(TokenKind::End));
    assert_eq!(lexed.findings.len(), lexed.tokens.len() - 1);
    assert!(lexed
        .findings
        .iter()
        .all(|f| f.rule == Rule::UnexpectedCharacter));
}
