use julietscript_lint::finding::{Finding, Rule, Scope, Want};
use julietscript_lint::lexer::{token_text, tokenize};
use julietscript_lint::parser::{parse, Parsed};
use julietscript_lint::source::Position;
use julietscript_lint::syntax::{Declaration, Entry};
use julietscript_lint::token::Token;

fn parse_text(source: &str) -> Parsed {
    parse(&tokenize(source).tokens)
}

fn text(source: &str, token: &Token) -> String {
    token_text(source, token).to_string()
}

fn entry(source: &str, entry: &Entry) -> String {
    match entry {
        Entry::Setting { key, value } => {
            format!("{}={}", text(source, key), text(source, value))
        }
        Entry::Criterion {
            label,
            points,
            means,
        } => match means {
            Some(m) => format!(
                "criterion {} {} ({})",
                text(source, label),
                text(source, points),
                text(source, m)
            ),
            None => format!("criterion {} {}", text(source, label), text(source, points)),
        },
        Entry::Tiebreaker { label } => format!("tiebreaker {}", text(source, label)),
        Entry::Compare { rubric } => format!("compare {}", text(source, rubric)),
        Entry::Keep { count } => format!("keep {}", text(source, count)),
    }
}

fn entries(source: &str, list: &[Entry]) -> String {
    list.iter()
        .map(|e| entry(source, e))
        .collect::<Vec<_>>()
        .join("; ")
}

fn names(source: &str, list: &[Token]) -> String {
    list.iter()
        .map(|t| text(source, t))
        .collect::<Vec<_>>()
        .join(", ")
}

fn declarations(source: &str) -> Vec<String> {
    parse_text(source)
        .declarations
        .iter()
        .map(|d| match d {
            Declaration::Runtime { entries: list, .. } => {
                format!("juliet {{{}}}", entries(source, list))
            }
            Declaration::Policy { name, body } => {
                format!("policy {} = {}", text(source, name), text(source, body))
            }
            Declaration::Rubric {
                name,
                entries: list,
            } => format!("rubric {} {{{}}}", text(source, name), entries(source, list)),
            Declaration::Cadence {
                name,
                entries: list,
            } => format!(
                "cadence {} {{{}}}",
                text(source, name),
                entries(source, list)
            ),
            Declaration::Create {
                name,
                prompt,
                files,
                using,
                attachments,
            } => format!(
                "create {} prompt={:?} files=[{}] using=[{}] with={{{}}}",
                text(source, name),
                prompt.as_ref().map(|p| text(source, p)),
                names(source, files),
                names(source, using),
                entries(source, attachments)
            ),
            Declaration::Extend {
                target,
                property,
                guidance,
            } => format!(
                "extend {}.{} with {}",
                text(source, target),
                text(source, property),
                text(source, guidance)
            ),
            Declaration::Halt { message, .. } => {
                format!("halt {:?}", message.as_ref().map(|m| text(source, m)))
            }
        })
        .collect()
}

fn finding(f: &Finding) -> (Rule, usize, usize) {
    (f.rule, f.range.start.line, f.range.start.character)
}

fn findings(source: &str) -> Vec<(Rule, usize, usize)> {
    parse_text(source).findings.iter().map(finding).collect()
}

fn expected(want: Want, scope: Scope, line: usize, character: usize) -> (Rule, usize, usize) {
    (Rule::Expected(want, scope), line, character)
}

#[test]
fn an_empty_script_has_no_declaration() {
    assert!(declarations("").is_empty());
    assert!(findings("").is_empty());
    assert!(parse(&Vec::new()).declarations.is_empty());
    assert!(parse(&Vec::new()).findings.is_empty());
}

#[test]
fn every_kind_of_declaration_is_read() {
    let source = "juliet { engine = codex; limit = 3; note = \"n\"; }\n\
                  policy p = \"body\";\n\
                  rubric r { criterion \"A\" points 5 means \"good\"; criterion \"B\" points 0; \
                  tiebreakers [\"A\", \"B\"]; }\n\
                  cadence c { engine = codex; variants = 3; sprints = 2; compare using r; \
                  keep best 2; }\n\
                  create seed from julietArtifactSourceFiles [\"a.md\", \"b.md\"];\n\
                  create art from juliet \"\"\"prompt\"\"\" using [seed] with { preflight = p; \
                  rubric = r; cadence = c; };\n\
                  extend art.rubric with \"more\";\n\
                  halt \"done\";\n\
                  halt;";
    assert_eq!(findings(source), vec![]);
    assert_eq!(
        declarations(source),
        vec![
            "juliet {engine=codex; limit=3; note=n}",
            "policy p = body",
            "rubric r {criterion A 5 (good); criterion B 0; tiebreaker A; tiebreaker B}",
            "cadence c {engine=codex; variants=3; sprints=2; compare r; keep 2}",
            "create seed prompt=None files=[a.md, b.md] using=[] with={}",
            "create art prompt=Some(\"prompt\") files=[] using=[seed] with={preflight=p; rubric=r; cadence=c}",
            "extend art.rubric with more",
            "halt Some(\"done\")",
            "halt None",
        ]
    );
}

#[test]
fn lists_may_be_empty() {
    let source = "create a from julietArtifactSourceFiles [];\n\
                  create b from juliet \"p\" using [];\n\
                  rubric r { tiebreakers []; }";
    assert_eq!(findings(source), vec![]);
    assert_eq!(
        declarations(source),
        vec![
            "create a prompt=None files=[] using=[] with={}",
            "create b prompt=Some(\"p\") files=[] using=[] with={}",
            "rubric r {}",
        ]
    );
}

#[test]
fn a_missing_semicolon_is_reported_behind_the_last_token_read() {
    let source = "policy triage = \"\"\"x\"\"\"\nhalt\n";
    let parsed = parse_text(source);
    assert_eq!(
        parsed.findings.iter().map(finding).collect::<Vec<_>>(),
        vec![
            expected(Want::Semicolon, Scope::Policy, 0, 23),
            expected(Want::Semicolon, Scope::Halt, 1, 4),
            (Rule::UnexpectedEnd, 2, 0),
        ]
    );
    assert_eq!(parsed.findings[0].range.end, None);
    assert_eq!(
        parsed.findings[2].range.end,
        Some(Position {
            line: 2,
            character: 0
        })
    );
    assert_eq!(declarations(source), vec!["policy triage = x", "halt None"]);
}

#[test]
fn each_part_of_a_policy_is_asked_for() {
    assert_eq!(
        findings("policy = \"x\";"),
        vec![expected(Want::Name, Scope::Policy, 0, 6)]
    );
    assert_eq!(
        findings("policy p \"x\";"),
        vec![expected(Want::Equals, Scope::Policy, 0, 8)]
    );
    assert_eq!(
        findings("policy p = x;"),
        vec![expected(Want::Text, Scope::Policy, 0, 10)]
    );
    assert_eq!(
        findings("policy p = \"x\" halt;"),
        vec![expected(Want::Semicolon, Scope::Policy, 0, 14)]
    );
    assert!(declarations("policy p = x;").is_empty());
}

#[test]
fn each_part_of_an_extend_is_asked_for() {
    assert_eq!(
        findings("extend .rubric with \"t\";"),
        vec![expected(Want::Name, Scope::Extend, 0, 6)]
    );
    assert_eq!(
        findings("extend a rubric with \"t\";"),
        vec![expected(Want::Dot, Scope::Extend, 0, 8)]
    );
    assert_eq!(
        findings("extend a.\"rubric\" with \"t\";"),
        vec![expected(Want::Name, Scope::Extend, 0, 9)]
    );
    assert_eq!(
        findings("extend a.rubric \"t\";"),
        vec![expected(Want::With, Scope::Extend, 0, 15)]
    );
    assert_eq!(
        findings("extend a.rubric with t;"),
        vec![expected(Want::Text, Scope::Extend, 0, 20)]
    );
    assert_eq!(
        findings("extend a.rubric with \"t\" halt;"),
        vec![expected(Want::Semicolon, Scope::Extend, 0, 24)]
    );
    assert_eq!(
        declarations("extend a.rubric with \"t\" halt;"),
        vec!["extend a.rubric with t", "halt None"]
    );
}

#[test]
fn a_reserved_word_is_no_name() {
    assert_eq!(
        findings("policy halt = \"x\";"),
        vec![expected(Want::Name, Scope::Policy, 0, 6)]
    );
    assert!(declarations("policy halt = \"x\";").is_empty());
    assert_eq!(
        findings("policy halt;"),
        vec![expected(Want::Name, Scope::Policy, 0, 6)]
    );
    assert_eq!(declarations("policy halt;"), vec!["halt None"]);
}

#[test]
fn a_broken_statement_is_skipped_up_to_its_semicolon() {
    let source = "policy a b c ( d; e ) [ f; { g; } ] h;\npolicy p = \"x\";";
    assert_eq!(
        findings(source),
        vec![expected(Want::Equals, Scope::Policy, 0, 8)]
    );
    assert_eq!(declarations(source), vec!["policy p = x"]);
}

#[test]
fn a_broken_statement_is_skipped_up_to_the_next_statement() {
    let source = "extend a.b\ncreate c from juliet \"p\";\nextend\nhalt;";
    assert_eq!(
        findings(source),
        vec![
            expected(Want::With, Scope::Extend, 0, 10),
            expected(Want::Name, Scope::Extend, 2, 6),
        ]
    );
    assert_eq!(
        declarations(source),
        vec![
            "create c prompt=Some(\"p\") files=[] using=[] with={}",
            "halt None"
        ]
    );
}

#[test]
fn the_origin_of_an_artifact_starts_no_statement() {
    let source = "create 3 from juliet \"x\";\nhalt;";
    assert_eq!(
        findings(source),
        vec![expected(Want::Name, Scope::Create, 0, 6)]
    );
    assert_eq!(declarations(source), vec!["halt None"]);
}

#[test]
fn each_part_of_a_create_is_asked_for() {
    assert_eq!(
        findings("create a \"p\";"),
        vec![expected(Want::From, Scope::Create, 0, 8)]
    );
    assert_eq!(
        findings("create a juliet \"p\";"),
        vec![expected(Want::From, Scope::Create, 0, 8)]
    );
    assert_eq!(
        findings("create a from \"p\";"),
        vec![expected(Want::Origin, Scope::Create, 0, 13)]
    );
    assert_eq!(
        findings("create a from juliet;"),
        vec![expected(Want::Text, Scope::Create, 0, 20)]
    );
    assert_eq!(
        findings("create a from julietArtifactSourceFiles \"a\";"),
        vec![expected(Want::OpenBracket, Scope::SourceFiles, 0, 39)]
    );
    assert_eq!(
        findings("create a from julietArtifactSourceFiles [\"a\" \"b\"];"),
        vec![expected(Want::CloseBracket, Scope::SourceFiles, 0, 44)]
    );
    assert_eq!(
        findings("create a from julietArtifactSourceFiles [\"a\", b];"),
        vec![expected(Want::Text, Scope::SourceFiles, 0, 45)]
    );
    assert_eq!(
        findings("create a from juliet \"p\" using [\"b\"];"),
        vec![expected(Want::Name, Scope::Using, 0, 32)]
    );
    assert_eq!(
        findings("create a from juliet \"p\" with preflight = p;"),
        vec![expected(Want::OpenBrace, Scope::Attachments, 0, 29)]
    );
    assert_eq!(
        findings("create a from juliet \"p\" with { }"),
        vec![
            expected(Want::Semicolon, Scope::Create, 0, 33),
            (Rule::UnexpectedEnd, 0, 33)
        ]
    );
}

#[test]
fn a_broken_entry_does_not_end_its_block() {
    let source = "rubric r {\n  criterion points 1;\n  criterion \"b\" points 2;\n  \
                  criterion \"c\" 3;\n  tiebreakers \"b\";\n  criterion \"d\" points 4 means;\n}\nhalt;";
    assert_eq!(
        findings(source),
        vec![
            expected(Want::Text, Scope::Criterion, 1, 11),
            expected(Want::Points, Scope::Criterion, 3, 15),
            expected(Want::OpenBracket, Scope::Tiebreakers, 4, 13),
            expected(Want::Text, Scope::Criterion, 5, 30),
        ]
    );
    assert_eq!(
        declarations(source),
        vec!["rubric r {criterion b 2}", "halt None"]
    );
}

#[test]
fn an_entry_that_lacks_its_semicolon_is_kept() {
    let source = "rubric r { criterion \"a\" points 1 criterion \"b\" points 2; }";
    assert_eq!(
        findings(source),
        vec![expected(Want::Semicolon, Scope::Criterion, 0, 33)]
    );
    assert_eq!(
        declarations(source),
        vec!["rubric r {criterion a 1; criterion b 2}"]
    );
}

#[test]
fn what_is_no_entry_is_reported_and_skipped() {
    let source = "cadence c { 3; compare using r; [x; y] z; keep best 1; }";
    assert_eq!(
        findings(source),
        vec![
            expected(Want::Entry, Scope::Cadence, 0, 11),
            expected(Want::Entry, Scope::Cadence, 0, 31),
        ]
    );
    assert_eq!(declarations(source), vec!["cadence c {compare r; keep 1}"]);
}

#[test]
fn the_clauses_of_a_cadence_are_asked_for() {
    assert_eq!(
        findings("cadence c { compare r; keep 1; variants 3; }"),
        vec![
            expected(Want::Using, Scope::Compare, 0, 19),
            expected(Want::Best, Scope::Keep, 0, 27),
            expected(Want::Equals, Scope::Setting, 0, 39),
        ]
    );
    assert_eq!(
        findings("cadence c { compare using \"r\"; keep best many; variants = ; }"),
        vec![
            expected(Want::Name, Scope::Compare, 0, 25),
            expected(Want::Integer, Scope::Keep, 0, 40),
            expected(Want::Value, Scope::Setting, 0, 57),
        ]
    );
}

#[test]
fn what_is_attached_is_given_by_name() {
    let source = "create a from juliet \"p\" with { preflight = \"p\"; cadence = c; rubric = 3; };";
    assert_eq!(
        findings(source),
        vec![
            expected(Want::Name, Scope::Setting, 0, 43),
            expected(Want::Name, Scope::Setting, 0, 70),
        ]
    );
    assert_eq!(
        declarations(source),
        vec!["create a prompt=Some(\"p\") files=[] using=[] with={cadence=c}"]
    );
}

#[test]
fn a_list_left_open_is_reported_at_its_bracket() {
    let source = "create a from julietArtifactSourceFiles [\"a\", \"b\";\nhalt;";
    assert_eq!(findings(source), vec![(Rule::Unmatched, 0, 40)]);
    assert_eq!(declarations(source), vec!["halt None"]);
    assert_eq!(
        findings("create a from juliet \"p\" using [b,"),
        vec![(Rule::Unmatched, 0, 31), (Rule::UnexpectedEnd, 0, 34)]
    );
    assert_eq!(
        findings("rubric r { criterion \"a\" points 1; tiebreakers [; }"),
        vec![(Rule::Unmatched, 0, 47)]
    );
    assert_eq!(
        declarations("rubric r { criterion \"a\" points 1; tiebreakers [; }"),
        vec!["rubric r {criterion a 1}"]
    );
    let parsed = parse_text("halt; create a from juliet \"p\" using [");
    assert_eq!(parsed.findings[0].rule, Rule::Unmatched);
    assert_eq!(
        parsed.findings[0].range.end,
        Some(Position {
            line: 0,
            character: 38
        })
    );
}

#[test]
fn a_block_left_open_at_the_end_of_input_is_reported() {
    assert_eq!(
        findings("juliet { engine = codex;"),
        vec![(Rule::Unmatched, 0, 7)]
    );
    assert_eq!(declarations("juliet { engine = codex;"), vec!["juliet {engine=codex}"]);
    assert_eq!(findings("rubric r {"), vec![(Rule::Unmatched, 0, 9)]);
    assert_eq!(
        findings("create a from juliet \"p\" with { preflight = p;"),
        vec![(Rule::Unmatched, 0, 30)]
    );
    let parsed = parse_text("rubric r {");
    assert_eq!(
        parsed.findings[0].range.end,
        Some(Position {
            line: 0,
            character: 10
        })
    );
}

#[test]
fn a_block_left_open_ends_where_a_declaration_starts() {
    let source = "rubric r {\n  criterion \"a\" points 1;\npolicy p = \"x\";\ncadence c {\n  \
                  variants = 1;\nhalt;";
    assert_eq!(
        findings(source),
        vec![(Rule::Unmatched, 0, 9), (Rule::Unmatched, 3, 10)]
    );
    assert_eq!(
        declarations(source),
        vec![
            "rubric r {criterion a 1}",
            "policy p = x",
            "cadence c {variants=1}",
            "halt None"
        ]
    );
}

#[test]
fn a_reserved_word_may_be_the_key_of_an_option() {
    let source = "create a from juliet \"p\" with { cadence = c; rubric = r; policy = p; };";
    assert_eq!(findings(source), vec![]);
    assert_eq!(
        declarations(source),
        vec!["create a prompt=Some(\"p\") files=[] using=[] with={cadence=c; rubric=r; policy=p}"]
    );
}

#[test]
fn a_reserved_word_starts_a_statement_only_with_what_follows_it() {
    let source = "halt policy = rubric cadence;\npolicy p = \"x\";";
    assert_eq!(
        findings(source),
        vec![expected(Want::Semicolon, Scope::Halt, 0, 4)]
    );
    assert_eq!(declarations(source), vec!["halt None", "policy p = x"]);
    let source = "extend a.b c juliet { engine = codex; }";
    assert_eq!(
        findings(source),
        vec![expected(Want::With, Scope::Extend, 0, 10)]
    );
    assert_eq!(declarations(source), vec!["juliet {engine=codex}"]);
}

#[test]
fn a_statement_inside_a_block_leaves_the_block_open() {
    let source = "create a from juliet \"p\" with {\n  preflight = p;\n  halt;\n};";
    assert_eq!(
        findings(source),
        vec![
            (Rule::Unmatched, 0, 30),
            (Rule::Unmatched, 3, 0),
            (Rule::ExpectedDeclaration, 3, 1),
        ]
    );
    assert_eq!(
        declarations(source),
        vec![
            "create a prompt=Some(\"p\") files=[] using=[] with={preflight=p}",
            "halt None"
        ]
    );
}

#[test]
fn a_stray_closing_bracket_is_reported_where_it_stands() {
    let source = "halt; } ] )\nhalt;";
    let parsed = parse_text(source);
    assert_eq!(
        parsed.findings.iter().map(finding).collect::<Vec<_>>(),
        vec![
            (Rule::Unmatched, 0, 6),
            (Rule::Unmatched, 0, 8),
            (Rule::Unmatched, 0, 10),
        ]
    );
    assert_eq!(
        parsed.findings[0].range.end,
        Some(Position {
            line: 0,
            character: 7
        })
    );
    assert_eq!(declarations(source), vec!["halt None", "halt None"]);
}

#[test]
fn a_token_that_starts_no_declaration_is_reported_once() {
    assert_eq!(
        findings("foo bar baz; halt;"),
        vec![(Rule::ExpectedDeclaration, 0, 0)]
    );
    assert_eq!(
        findings("halt; ; halt;"),
        vec![(Rule::ExpectedDeclaration, 0, 6)]
    );
    assert_eq!(
        findings("\"text\" policy p = \"x\";"),
        vec![(Rule::ExpectedDeclaration, 0, 0)]
    );
    assert_eq!(
        findings("stray"),
        vec![(Rule::ExpectedDeclaration, 0, 0), (Rule::UnexpectedEnd, 0, 5)]
    );
}

#[test]
fn the_headers_of_blocks_are_asked_for() {
    assert_eq!(
        findings("juliet engine = codex;"),
        vec![expected(Want::OpenBrace, Scope::Runtime, 0, 6)]
    );
    assert_eq!(
        findings("rubric { criterion \"a\" points 1; }"),
        vec![expected(Want::Name, Scope::Rubric, 0, 6)]
    );
    assert_eq!(
        findings("rubric { criterion \"a\" points 1; } halt;"),
        vec![expected(Want::Name, Scope::Rubric, 0, 6)]
    );
    assert_eq!(
        declarations("rubric { criterion \"a\" points 1; } halt;"),
        vec!["halt None"]
    );
    assert_eq!(
        declarations("create 1 from juliet \"p\" with { preflight = p; }; halt;"),
        vec!["halt None"]
    );
    assert_eq!(
        findings("create 1 from juliet \"p\" with { preflight = p; }; halt;"),
        vec![expected(Want::Name, Scope::Create, 0, 6)]
    );
    assert_eq!(
        findings("cadence c compare using r;"),
        vec![expected(Want::OpenBrace, Scope::Cadence, 0, 9)]
    );
}

#[test]
fn tokens_without_an_end_token_are_read_to_their_end() {
    let source = "halt; policy p = \"x\"";
    let mut tokens = tokenize(source).tokens;
    tokens.pop();
    let parsed = parse(&tokens);
    assert_eq!(parsed.declarations.len(), 2);
    assert_eq!(
        parsed.findings.iter().map(finding).collect::<Vec<_>>(),
        vec![
            expected(Want::Semicolon, Scope::Policy, 0, 20),
            (Rule::UnexpectedEnd, 0, 20)
        ]
    );
    assert_eq!(parsed.findings[1].range.end, None);
}
