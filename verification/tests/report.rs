use julietscript_lint::finding::{Diagnostic, Range, Severity};
use julietscript_lint::report::{
    comes_before, count_severity, decimal, diagnostic_line, exit_code, lint_file,
    no_match_message, sort_reports, summarize, summary_line, ExitCode, FileReport, Summary,
};
use julietscript_lint::source::Position;

fn diagnostic(severity: Severity, line: usize, character: usize, message: &str) -> Diagnostic {
    Diagnostic {
        severity,
        message: message.to_string(),
        range: Range {
            start: Position { line, character },
            end: None,
        },
    }
}

fn report(path: &str, diagnostics: Vec<Diagnostic>) -> FileReport {
    FileReport {
        path: path.to_string(),
        diagnostics,
    }
}

fn paths(reports: &[FileReport]) -> Vec<&str> {
    reports.iter().map(|r| r.path.as_str()).collect()
}

#[test]
fn numbers_are_written_in_decimal() {
    assert_eq!(decimal(0), "0");
    assert_eq!(decimal(7), "7");
    assert_eq!(decimal(10), "10");
    assert_eq!(decimal(1234567890), "1234567890");
    assert_eq!(decimal(100), "100");
    assert_eq!(
        decimal(u128::MAX),
        "340282366920938463463374607431768211455"
    );
}

#[test]
fn a_line_counts_from_one() {
    assert_eq!(
        diagnostic_line(
            "dir/a.julietscript",
            &diagnostic(Severity::Error, 0, 23, "Expected ';' after policy declaration.")
        ),
        "dir/a.julietscript:1:24: error: Expected ';' after policy declaration."
    );
    assert_eq!(
        diagnostic_line("", &diagnostic(Severity::Warning, 41, 0, "")),
        ":42:1: warning: "
    );
    assert_eq!(
        diagnostic_line(
            "x",
            &diagnostic(Severity::Error, usize::MAX, usize::MAX, "far")
        ),
        format!(
            "x:{}:{}: error: far",
            usize::MAX as u128 + 1,
            usize::MAX as u128 + 1
        )
    );
}

#[test]
fn severities_are_counted_apart() {
    let diagnostics = vec![
        diagnostic(Severity::Error, 0, 0, "a"),
        diagnostic(Severity::Warning, 0, 1, "b"),
        diagnostic(Severity::Error, 0, 2, "c"),
    ];
    assert_eq!(count_severity(&diagnostics, Severity::Error), 2);
    assert_eq!(count_severity(&diagnostics, Severity::Warning), 1);
    assert_eq!(count_severity(&Vec::new(), Severity::Error), 0);
}

#[test]
fn a_summary_counts_files_issues_errors_and_warnings() {
    let reports = vec![
        report(
            "a",
            vec![
                diagnostic(Severity::Error, 0, 0, "a"),
                diagnostic(Severity::Warning, 0, 1, "b"),
            ],
        ),
        report("b", vec![]),
        report(
            "c",
            vec![
                diagnostic(Severity::Warning, 1, 0, "c"),
                diagnostic(Severity::Warning, 2, 0, "d"),
                diagnostic(Severity::Error, 3, 0, "e"),
            ],
        ),
    ];
    let summary = summarize(&reports);
    assert_eq!(
        summary,
        Summary {
            files: 3,
            issues: 5,
            errors: 2,
            warnings: 3
        }
    );
    assert_eq!(
        summary_line(&summary),
        "Linted 3 file(s): 5 issue(s) (2 error(s), 3 warning(s))."
    );
    assert_eq!(exit_code(&summary), ExitCode::LintIssues);
    assert_eq!(exit_code(&summary).code(), 1);
}

#[test]
fn a_run_without_issue_is_clean() {
    let summary = summarize(&vec![report("a", vec![]), report("b", vec![])]);
    assert_eq!(
        summary,
        Summary {
            files: 2,
            issues: 0,
            errors: 0,
            warnings: 0
        }
    );
    assert_eq!(
        summary_line(&summary),
        "Linted 2 file(s): 0 issue(s) (0 error(s), 0 warning(s))."
    );
    assert_eq!(exit_code(&summary), ExitCode::Clean);
    assert_eq!(exit_code(&summary).code(), 0);
    assert_eq!(
        summary_line(&summarize(&Vec::new())),
        "Linted 0 file(s): 0 issue(s) (0 error(s), 0 warning(s))."
    );
}

#[test]
fn a_warning_alone_is_an_issue() {
    let summary = summarize(&vec![report(
        "a",
        vec![diagnostic(Severity::Warning, 0, 0, "w")],
    )]);
    assert_eq!(exit_code(&summary), ExitCode::LintIssues);
}

#[test]
fn texts_are_ordered_character_by_character() {
    assert!(comes_before("a", "b"));
    assert!(!comes_before("b", "a"));
    assert!(!comes_before("a", "a"));
    assert!(comes_before("", "a"));
    assert!(!comes_before("a", ""));
    assert!(!comes_before("", ""));
    assert!(comes_before("ab", "abc"));
    assert!(!comes_before("abc", "ab"));
    assert!(comes_before("abc", "abd"));
    assert!(comes_before("B", "a"));
    assert!(comes_before("a/b", "a0"));
    assert!(comes_before("z", "é"));
    assert!(comes_before("é", "😀"));
    for (a, b) in [("x", "y"), ("dir/a", "dir/a.x"), ("é", "z"), ("", "")] {
        assert_eq!(comes_before(a, b), a < b);
        assert_eq!(comes_before(b, a), b < a);
    }
}

#[test]
fn reports_are_sorted_by_path() {
    let sorted = sort_reports(vec![
        report("b/two", vec![]),
        report("a/one", vec![]),
        report("c", vec![]),
        report("a", vec![]),
        report("B", vec![]),
    ]);
    assert_eq!(paths(&sorted), vec!["B", "a", "a/one", "b/two", "c"]);
    assert!(sort_reports(Vec::new()).is_empty());
}

#[test]
fn reports_of_one_path_keep_their_order() {
    let sorted = sort_reports(vec![
        report("same", vec![diagnostic(Severity::Error, 1, 0, "first")]),
        report("other", vec![]),
        report("same", vec![diagnostic(Severity::Error, 2, 0, "second")]),
        report("same", vec![diagnostic(Severity::Error, 3, 0, "third")]),
    ]);
    assert_eq!(paths(&sorted), vec!["other", "same", "same", "same"]);
    assert_eq!(
        sorted[1..]
            .iter()
            .map(|r| r.diagnostics[0].message.as_str())
            .collect::<Vec<_>>(),
        vec!["first", "second", "third"]
    );
}

#[test]
fn a_file_report_holds_the_diagnostics_of_its_text() {
    let report = lint_file("scripts/x.julietscript", "halt");
    assert_eq!(report.path, "scripts/x.julietscript");
    assert_eq!(report.diagnostics.len(), 2);
    assert_eq!(
        report.diagnostics[0].message,
        "Expected ';' after halt statement."
    );
    assert!(lint_file("clean", "halt;").diagnostics.is_empty());
}

#[test]
fn the_patterns_that_matched_nothing_are_named() {
    assert_eq!(
        no_match_message(&vec!["a/*.x".to_string(), "**/b".to_string(), "c".to_string()]),
        "no files matched. Provided patterns: a/*.x, **/b, c"
    );
    assert_eq!(
        no_match_message(&Vec::new()),
        "no files matched. Provided patterns: "
    );
}
