use julietscript_lint::example::EXAMPLE_SCRIPT;
use julietscript_lint::lint;
use julietscript_lint::Severity;

fn messages(source: &str) -> Vec<String> {
    lint(source).into_iter().map(|d| d.message).collect()
}

fn in_reading_order(source: &str) -> bool {
    lint(source).windows(2).all(|pair| {
        let first = pair[0].range.start;
        let second = pair[1].range.start;
        (first.line, first.character) <= (second.line, second.character)
    })
}

#[test]
fn a_valid_script_yields_no_diagnostic() {
    assert!(lint(EXAMPLE_SCRIPT).is_empty());
    assert!(lint("").is_empty());
    assert!(lint("halt;").is_empty());
    assert!(lint("halt \"stop\";").is_empty());
    assert!(lint("policy p = \"x\";\npolicy q = \"\"\"\ny\n\"\"\";").is_empty());
    assert!(lint(
        "rubric r { criterion \"A\" points 3 means \"a\"; criterion \"B\" points 0; \
         tiebreakers [\"B\", \"A\"]; }\n\
         cadence c { engine = codex; variants = 2; sprints = 1; compare using r; keep best 0; }\n\
         create seed from julietArtifactSourceFiles [\"one.md\"];\n\
         create next from juliet \"p\" using [seed] with { cadence = c; rubric = r; };\n\
         create last from juliet \"q\" using [seed, next];\n\
         extend last.rubric with \"more\";"
    )
    .is_empty());
}

#[test]
fn diagnostics_come_in_ascending_order() {
    for source in [
        "halt\nhalt\nhalt",
        "create z from juliet \"\" using [y, x] with { a = b; };\nrubric r { }\n@@",
        "extend b.c with \"t\";\nextend a.c with \"t\";\ncadence c { keep best -1; }",
        "}\n{\n]\n[\n)\n(",
        "rubric r {\n tiebreakers [\"x\"];\n criterion \"x\" points 1.5;\n} policy r = 3;",
    ] {
        assert!(in_reading_order(source), "{:?}", source);
        assert!(!lint(source).is_empty(), "{:?}", source);
    }
}

#[test]
fn a_forward_reference_is_an_error_though_the_name_comes_later() {
    let diagnostics = lint(
        "create report from juliet \"p\" using [data];\n\
         create data from julietArtifactSourceFiles [\"d.csv\"];",
    );
    assert_eq!(diagnostics.len(), 1);
    assert_eq!(
        diagnostics[0].message,
        "reference to undeclared artifact 'data'"
    );
    assert_eq!(diagnostics[0].severity, Severity::Error);
    assert_eq!(
        (
            diagnostics[0].range.start.line,
            diagnostics[0].range.start.character
        ),
        (0, 37)
    );
    assert!(lint(
        "create data from julietArtifactSourceFiles [\"d.csv\"];\n\
         create report from juliet \"p\" using [data];"
    )
    .is_empty());
}

#[test]
fn a_forward_reference_is_an_error_in_every_namespace() {
    assert_eq!(
        messages(
            "create a from juliet \"p\" with { preflight = p; cadence = c; rubric = r; };\n\
             cadence c { compare using r; keep best 1; }\n\
             extend b.rubric with \"t\";\n\
             policy p = \"x\";\n\
             rubric r { criterion \"k\" points 1; }\n\
             create b from juliet \"q\";"
        ),
        vec![
            "reference to undeclared policy 'p'",
            "reference to undeclared cadence 'c'",
            "reference to undeclared rubric 'r'",
            "reference to undeclared rubric 'r'",
            "reference to undeclared artifact 'b'",
        ]
    );
}

#[test]
fn the_second_declaration_of_a_name_is_an_error() {
    assert_eq!(
        messages("policy p = \"x\";\npolicy p = \"x\";"),
        vec!["policy 'p' already declared"]
    );
    assert_eq!(
        messages(
            "rubric r { criterion \"k\" points 1; }\nrubric r { criterion \"k\" points 1; }"
        ),
        vec!["rubric 'r' already declared"]
    );
    assert_eq!(
        messages(
            "rubric r { criterion \"k\" points 1; }\n\
             cadence c { compare using r; keep best 1; }\n\
             cadence c { compare using r; keep best 1; }"
        ),
        vec!["cadence 'c' already declared"]
    );
    assert_eq!(
        messages("create a from juliet \"p\";\ncreate a from juliet \"q\";"),
        vec!["artifact 'a' already declared"]
    );
    let diagnostics = lint("policy p = \"x\";\nhalt;\npolicy p = \"y\";");
    assert_eq!(diagnostics.len(), 1);
    assert_eq!(diagnostics[0].range.start.line, 2);
    assert_eq!(diagnostics[0].range.start.character, 7);
    assert_eq!(diagnostics[0].severity, Severity::Error);
}

#[test]
fn recovery_yields_a_diagnostic_for_each_missing_terminator() {
    let diagnostics = lint("policy triage = \"\"\"x\"\"\"\nhalt");
    let found = diagnostics
        .iter()
        .map(|d| d.message.as_str())
        .collect::<Vec<_>>();
    assert!(found.contains(&"Expected ';' after policy declaration."));
    assert!(found.contains(&"Expected ';' after halt statement."));
    assert_eq!(found[0], "Expected ';' after policy declaration.");

    assert_eq!(
        messages(
            "policy a = \"x\"\npolicy b = \"y\"\nextend c.rubric with \"t\"\n\
             create d from juliet \"p\"\nhalt \"end\"\nhalt;"
        ),
        vec![
            "Expected ';' after policy declaration.",
            "Expected ';' after policy declaration.",
            "reference to undeclared artifact 'c'",
            "Expected ';' after extend declaration.",
            "Expected ';' after create declaration.",
            "Expected ';' after halt statement.",
        ]
    );
}

/// A sequence of pseudo-random numbers that is the same on every run.
fn next(state: &mut u64) -> usize {
    *state = state
        .wrapping_mul(6364136223846793005)
        .wrapping_add(1442695040888963407);
    (*state >> 33) as usize
}

#[test]
fn any_jumble_of_fragments_is_linted_to_its_end_and_in_order() {
    let fragments = [
        "juliet", "policy", "rubric", "criterion", "points", "means", "tiebreakers", "cadence",
        "variants", "sprints", "compare", "using", "keep", "best", "create", "from",
        "julietArtifactSourceFiles", "with", "extend", "halt", "engine", "codex", "name", "x",
        "{", "}", "[", "]", "(", ")", "=", ";", ",", ".", " ", "\n", "\t", "\r\n", "# note\n",
        "\"text\"", "\"\"", "\"open", "\"\"\"block\nstring\"\"\"", "\"\"\"open block", "\\",
        "0", "7", "-3", "1.5", "@", "é", "😀", "-", "\"esc\\\"aped\"",
    ];
    let mut state = 42u64;
    for _ in 0..400 {
        let length = next(&mut state) % 30;
        let mut source = String::new();
        for _ in 0..length {
            source.push_str(fragments[next(&mut state) % fragments.len()]);
            if next(&mut state) % 3 == 0 {
                source.push(' ');
            }
        }
        let diagnostics = lint(&source);
        assert!(in_reading_order(&source), "{:?}", source);
        assert!(
            diagnostics.iter().all(|d| d.severity == Severity::Error),
            "{:?}",
            source
        );
        assert!(diagnostics.iter().all(|d| !d.message.is_empty()));
        let lines = source.matches('\n').count();
        assert!(
            diagnostics.iter().all(|d| d.range.start.line <= lines),
            "{:?}",
            source
        );
    }
}

#[test]
fn any_bytes_read_as_text_are_linted_to_their_end() {
    let mut state = 7u64;
    for _ in 0..200 {
        let length = next(&mut state) % 64;
        let bytes = (0..length)
            .map(|_| (next(&mut state) % 256) as u8)
            .collect::<Vec<u8>>();
        let source = String::from_utf8_lossy(&bytes).into_owned();
        assert!(in_reading_order(&source), "{:?}", source);
    }
}
