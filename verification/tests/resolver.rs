use julietscript_lint::finding::{Namespace, Quantity, Rule, Scope};
use julietscript_lint::lexer::tokenize;
use julietscript_lint::parser::parse;
use julietscript_lint::resolver::resolve;

/// What the resolver finds in a script that lexes and parses without fault.
fn resolved(source: &str) -> Vec<(Rule, usize, usize)> {
    let lexed = tokenize(source);
    assert!(lexed.findings.is_empty());
    let parsed = parse(&lexed.tokens);
    assert!(parsed.findings.is_empty());
    resolve(source, &parsed.declarations)
        .iter()
        .map(|f| (f.rule, f.range.start.line, f.range.start.character))
        .collect()
}

#[test]
fn a_script_without_declarations_has_nothing_to_resolve() {
    assert_eq!(resolved(""), vec![]);
    assert_eq!(resolve("", &Vec::new()).len(), 0);
}

#[test]
fn a_name_is_declared_once_in_its_namespace() {
    assert_eq!(
        resolved("policy a = \"x\";\npolicy a = \"y\";"),
        vec![(Rule::Redeclared(Namespace::Policy), 1, 7)]
    );
    assert_eq!(
        resolved("rubric a { criterion \"c\" points 1; }\nrubric a { criterion \"c\" points 1; }"),
        vec![(Rule::Redeclared(Namespace::Rubric), 1, 7)]
    );
    assert_eq!(
        resolved(
            "rubric r { criterion \"c\" points 1; }\n\
             cadence a { compare using r; keep best 1; }\n\
             cadence a { compare using r; keep best 1; }"
        ),
        vec![(Rule::Redeclared(Namespace::Cadence), 2, 8)]
    );
    assert_eq!(
        resolved("create a from juliet \"p\";\ncreate a from julietArtifactSourceFiles [\"f\"];"),
        vec![(Rule::Redeclared(Namespace::Artifact), 1, 7)]
    );
}

#[test]
fn every_further_declaration_of_a_name_is_reported() {
    assert_eq!(
        resolved("policy a = \"x\";\npolicy a = \"y\";\npolicy b = \"z\";\npolicy a = \"w\";"),
        vec![
            (Rule::Redeclared(Namespace::Policy), 1, 7),
            (Rule::Redeclared(Namespace::Policy), 3, 7)
        ]
    );
}

#[test]
fn the_namespaces_do_not_touch() {
    assert_eq!(
        resolved(
            "policy same = \"x\";\n\
             rubric same { criterion \"c\" points 1; }\n\
             cadence same { compare using same; keep best 1; }\n\
             create same from juliet \"p\" with { preflight = same; rubric = same; cadence = same; };\n\
             extend same.rubric with \"t\";"
        ),
        vec![]
    );
    assert_eq!(
        resolved("policy p = \"x\";\nextend p.rubric with \"t\";"),
        vec![(Rule::Undeclared(Namespace::Artifact), 1, 7)]
    );
}

#[test]
fn names_differ_by_case() {
    assert_eq!(
        resolved("policy a = \"x\";\npolicy A = \"y\";"),
        vec![]
    );
}

#[test]
fn a_name_is_used_only_after_its_declaration() {
    assert_eq!(
        resolved(
            "create late from juliet \"p\" using [early];\n\
             create early from juliet \"q\";"
        ),
        vec![(Rule::Undeclared(Namespace::Artifact), 0, 35)]
    );
    assert_eq!(
        resolved(
            "cadence c { compare using r; keep best 1; }\n\
             rubric r { criterion \"c\" points 1; }"
        ),
        vec![(Rule::Undeclared(Namespace::Rubric), 0, 26)]
    );
    assert_eq!(
        resolved(
            "create a from juliet \"p\" with { preflight = p; failureTriage = p; };\n\
             policy p = \"x\";"
        ),
        vec![
            (Rule::Undeclared(Namespace::Policy), 0, 44),
            (Rule::Undeclared(Namespace::Policy), 0, 63)
        ]
    );
    assert_eq!(
        resolved("extend a.rubric with \"t\";\ncreate a from juliet \"p\";"),
        vec![(Rule::Undeclared(Namespace::Artifact), 0, 7)]
    );
}

#[test]
fn an_artifact_cannot_use_itself() {
    assert_eq!(
        resolved("create a from juliet \"p\" using [a];"),
        vec![(Rule::Undeclared(Namespace::Artifact), 0, 32)]
    );
}

#[test]
fn each_attachment_looks_into_its_own_namespace() {
    let source = "policy p = \"x\";\n\
                  rubric r { criterion \"c\" points 1; }\n\
                  cadence c { compare using r; keep best 1; }\n\
                  create a from juliet \"p\" with {\n\
                  preflight = r;\n\
                  failureTriage = c;\n\
                  cadence = p;\n\
                  rubric = c;\n\
                  };";
    assert_eq!(
        resolved(source),
        vec![
            (Rule::Undeclared(Namespace::Policy), 4, 12),
            (Rule::Undeclared(Namespace::Policy), 5, 16),
            (Rule::Undeclared(Namespace::Cadence), 6, 10),
            (Rule::Undeclared(Namespace::Rubric), 7, 9),
        ]
    );
}

#[test]
fn an_attachment_has_one_of_four_names() {
    assert_eq!(
        resolved("create a from juliet \"p\" with { engine = codex; Preflight = x; };"),
        vec![
            (Rule::UnknownOption(Scope::Attachments), 0, 32),
            (Rule::UnknownOption(Scope::Attachments), 0, 48)
        ]
    );
}

#[test]
fn the_runtime_defaults_are_declared_once_and_know_the_engine() {
    assert_eq!(resolved("juliet { }"), vec![]);
    assert_eq!(resolved("juliet { engine = codex; engine = \"other\"; }"), vec![]);
    assert_eq!(
        resolved("juliet { engine = codex; project = demo; }\njuliet { engine = codex; }"),
        vec![
            (Rule::UnknownOption(Scope::Runtime), 0, 25),
            (Rule::RuntimeRedeclared, 1, 0)
        ]
    );
}

#[test]
fn a_rubric_has_a_criterion() {
    assert_eq!(
        resolved("rubric r { }"),
        vec![(Rule::MissingCriterion, 0, 7)]
    );
    assert_eq!(
        resolved("rubric r { tiebreakers []; }"),
        vec![(Rule::MissingCriterion, 0, 7)]
    );
}

#[test]
fn a_tiebreaker_repeats_an_earlier_criterion() {
    assert_eq!(
        resolved(
            "rubric r {\n criterion \"Spec\" points 1;\n criterion \"Speed\" points 2;\n \
             tiebreakers [\"Speed\", \"spec\", \"Spec\", \"\"];\n}"
        ),
        vec![
            (Rule::UnknownTiebreaker, 3, 23),
            (Rule::UnknownTiebreaker, 3, 39)
        ]
    );
    assert_eq!(
        resolved(
            "rubric r {\n tiebreakers [\"Late\"];\n criterion \"Late\" points 1;\n \
             tiebreakers [\"Late\"];\n}"
        ),
        vec![(Rule::UnknownTiebreaker, 1, 14)]
    );
}

#[test]
fn a_tiebreaker_may_quote_its_label_either_way() {
    assert_eq!(
        resolved("rubric r { criterion \"\"\"Spec\"\"\" points 1; tiebreakers [\"Spec\"]; }"),
        vec![]
    );
}

#[test]
fn the_criteria_of_another_rubric_do_not_count() {
    assert_eq!(
        resolved(
            "rubric a { criterion \"A\" points 1; }\n\
             rubric b { criterion \"B\" points 1; tiebreakers [\"A\"]; }"
        ),
        vec![(Rule::UnknownTiebreaker, 1, 48)]
    );
}

#[test]
fn points_are_a_non_negative_integer() {
    assert_eq!(
        resolved("rubric r { criterion \"a\" points 0; criterion \"b\" points 007; }"),
        vec![]
    );
    assert_eq!(
        resolved(
            "rubric r {\n criterion \"a\" points -1;\n criterion \"b\" points 1.5;\n \
             criterion \"c\" points 123456789012345678901234567890;\n}"
        ),
        vec![
            (Rule::InvalidCount(Quantity::Points), 1, 22),
            (Rule::InvalidCount(Quantity::Points), 2, 22)
        ]
    );
}

#[test]
fn variants_and_sprints_are_positive_integers() {
    assert_eq!(
        resolved(
            "rubric r { criterion \"a\" points 1; }\n\
             cadence c {\n variants = 0;\n sprints = 00;\n compare using r;\n keep best 0;\n}"
        ),
        vec![
            (Rule::InvalidCount(Quantity::Variants), 2, 12),
            (Rule::InvalidCount(Quantity::Sprints), 3, 11)
        ]
    );
    assert_eq!(
        resolved(
            "rubric r { criterion \"a\" points 1; }\n\
             cadence c {\n variants = three;\n sprints = \"2\";\n compare using r;\n \
             keep best -2;\n}"
        ),
        vec![
            (Rule::InvalidCount(Quantity::Variants), 2, 12),
            (Rule::InvalidCount(Quantity::Sprints), 3, 11),
            (Rule::InvalidCount(Quantity::Keep), 5, 11)
        ]
    );
    assert_eq!(
        resolved(
            "rubric r { criterion \"a\" points 1; }\n\
             cadence c { variants = 10; sprints = 1; compare using r; keep best 3; }"
        ),
        vec![]
    );
}

#[test]
fn a_cadence_knows_three_options() {
    assert_eq!(
        resolved(
            "rubric r { criterion \"a\" points 1; }\n\
             cadence c { engine = codex; rounds = 2; Variants = 1; compare using r; keep best 1; }"
        ),
        vec![
            (Rule::UnknownOption(Scope::Cadence), 1, 28),
            (Rule::UnknownOption(Scope::Cadence), 1, 40)
        ]
    );
}

#[test]
fn a_cadence_has_its_two_clauses() {
    assert_eq!(
        resolved("cadence c { variants = 1; }"),
        vec![(Rule::MissingCompare, 0, 8), (Rule::MissingKeep, 0, 8)]
    );
    assert_eq!(
        resolved("rubric r { criterion \"a\" points 1; }\ncadence c { compare using r; }"),
        vec![(Rule::MissingKeep, 1, 8)]
    );
    assert_eq!(
        resolved("cadence c { keep best 1; }"),
        vec![(Rule::MissingCompare, 0, 8)]
    );
}

#[test]
fn a_prompt_is_not_empty() {
    assert_eq!(
        resolved("create a from juliet \"\";\ncreate b from juliet \"\"\"\"\"\";"),
        vec![(Rule::EmptyPrompt, 0, 21), (Rule::EmptyPrompt, 1, 21)]
    );
    assert_eq!(resolved("create a from juliet \" \";"), vec![]);
}

#[test]
fn a_seed_artifact_lists_a_file() {
    assert_eq!(
        resolved("create a from julietArtifactSourceFiles [];"),
        vec![(Rule::EmptySourceFiles, 0, 7)]
    );
    assert_eq!(
        resolved("create a from julietArtifactSourceFiles [\"\"];"),
        vec![]
    );
}

#[test]
fn extend_knows_the_property_rubric() {
    assert_eq!(
        resolved(
            "create a from juliet \"p\";\nextend a.rubric with \"t\";\n\
             extend a.cadence with \"t\";\nextend a.Rubric with \"t\";"
        ),
        vec![
            (Rule::UnsupportedProperty, 2, 9),
            (Rule::UnsupportedProperty, 3, 9)
        ]
    );
}

#[test]
fn a_finding_in_one_declaration_leaves_the_others_alone() {
    assert_eq!(
        resolved(
            "extend nobody.rubric with \"t\";\n\
             policy p = \"x\";\n\
             create a from juliet \"p\" with { preflight = p; };\n\
             rubric r { }\n\
             extend a.rubric with \"t\";\n\
             halt;\n\
             create b from juliet \"q\" using [a];"
        ),
        vec![
            (Rule::Undeclared(Namespace::Artifact), 0, 7),
            (Rule::MissingCriterion, 3, 7)
        ]
    );
}

#[test]
fn a_declaration_counts_though_it_is_faulty() {
    assert_eq!(
        resolved(
            "rubric r { }\n\
             cadence c { compare using r; keep best 1; }\n\
             rubric r { criterion \"a\" points 1; }"
        ),
        vec![
            (Rule::MissingCriterion, 0, 7),
            (Rule::Redeclared(Namespace::Rubric), 2, 7)
        ]
    );
}

#[test]
fn what_follows_halt_is_checked_like_the_rest() {
    assert_eq!(
        resolved("halt;\nextend a.rubric with \"t\";\nhalt \"again\";"),
        vec![(Rule::Undeclared(Namespace::Artifact), 1, 7)]
    );
}
