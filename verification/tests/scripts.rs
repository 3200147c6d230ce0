use julietscript_lint::collector::lint;
use julietscript_lint::finding::{Diagnostic, Severity};

fn valid_script() -> &'static str {
    r#"juliet {
  engine = codex;
}

policy triage = """Recover quickly.""";

rubric quality {
  criterion "Spec" points 1;
}

cadence loop {
  variants = 1;
  sprints = 1;
  compare using quality;
  keep best 1;
}

create Artifact from juliet """Prompt""" with {
  preflight = triage;
  failureTriage = triage;
  cadence = loop;
  rubric = quality;
};

halt;
"#
}

fn source_files_script() -> &'static str {
    r#"create Phase1WebGLFoundation from julietArtifactSourceFiles [
  "../path-to-file/example.md",
  "../path-to-file/notes.md"
];
"#
}

fn show(diagnostics: &[Diagnostic]) -> Vec<String> {
    diagnostics
        .iter()
        .map(|d| {
            format!(
                "{}:{}: {}",
                d.range.start.line, d.range.start.character, d.message
            )
        })
        .collect()
}

#[test]
fn valid_script_has_no_diagnostics() {
    assert_eq!(show(&lint(valid_script())), Vec::<String>::new());
}

#[test]
fn seed_artifact_alone_is_valid() {
    assert_eq!(show(&lint(source_files_script())), Vec::<String>::new());
    assert_eq!(
        show(&lint("create Seed from julietArtifactSourceFiles [\"a.md\", \"b.md\"];")),
        Vec::<String>::new()
    );
}

#[test]
fn missing_terminators_are_each_reported() {
    let diagnostics = lint("policy triage = \"\"\"x\"\"\"\nhalt\n");
    assert_eq!(
        show(&diagnostics),
        vec![
            "0:23: Expected ';' after policy declaration.".to_string(),
            "1:4: Expected ';' after halt statement.".to_string(),
            "2:0: Unexpected end of input.".to_string(),
        ]
    );
    assert!(diagnostics.iter().all(|d| d.severity == Severity::Error));
    assert!(diagnostics[0].range.end.is_none());
}

#[test]
fn extend_of_unknown_artifact_is_reported() {
    let diagnostics = lint("extend Unknown.rubric with \"text\";");
    assert_eq!(
        show(&diagnostics),
        vec!["0:7: reference to undeclared artifact 'Unknown'".to_string()]
    );
}

#[test]
fn unknown_tiebreaker_is_reported() {
    let diagnostics = lint(
        "rubric r {\n  criterion \"Spec\" points 1;\n  tiebreakers [\"Spec\", \"Speed\"];\n}\n",
    );
    assert_eq!(
        show(&diagnostics),
        vec!["2:23: tiebreaker 'Speed' matches no earlier criterion of its rubric".to_string()]
    );
}
