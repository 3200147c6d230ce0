//! What a command-line host does with diagnostics: one report per file,
//! files in order of their path, one line per diagnostic, the counts, and
//! the exit status.

use vstd::prelude::*;
use vstd::string::*;
use crate::source::to_chars;
use crate::finding::{Diagnostic, DiagnosticView, Severity};
use crate::collector::{diagnostic_views, lint, lint_spec};
use crate::order::{
    ranks, ordered, sorted, lemma_insert_at, lemma_sorted_is_ordered, lemma_sorted_is_permutation,
};

verus! {

/// The diagnostics of one file.
#[derive(Debug)]
pub struct FileReport {
    pub path: String,
    pub diagnostics: Vec<Diagnostic>,
}

/// A report as a mathematical value.
pub struct FileReportView {
    pub path: Seq<char>,
    pub diagnostics: Seq<DiagnosticView>,
}

impl View for FileReport {
    type V = FileReportView;

    open spec fn view(&self) -> FileReportView {
        FileReportView { path: self.path@, diagnostics: diagnostic_views(self.diagnostics@) }
    }
}

/// A list of reports as a mathematical value.
pub open spec fn report_views(reports: Seq<FileReport>) -> Seq<FileReportView> {
    reports.map_values(|r: FileReport| r@)
}

/// Lints the text of one file.
pub fn lint_file(path: &str, source: &str) -> (r: FileReport)
    ensures
        r@.path == path@,
        r@.diagnostics == lint_spec(source@),
{
    FileReport { path: path.to_owned(), diagnostics: lint(source) }
}

// ---------------------------------------------------------------------
// Order of files

/// Whether text `a` comes before text `b`: where they first differ, `a`
/// has the character of smaller code, or `a` ends there.
pub open spec fn text_before(a: Seq<char>, b: Seq<char>) -> bool
    decreases a.len(),
{
    if b.len() == 0 {
        false
    } else if a.len() == 0 {
        true
    } else if a[0] != b[0] {
        a[0] < b[0]
    } else {
        text_before(a.drop_first(), b.drop_first())
    }
}

/// The order of reports: by path.
pub open spec fn by_path() -> spec_fn(FileReportView, FileReportView) -> bool {
    |a: FileReportView, b: FileReportView| !text_before(b.path, a.path)
}

/// The reports in ascending order of their path; reports of the same path
/// keep their order.
pub open spec fn sorted_by_path(reports: Seq<FileReportView>) -> Seq<FileReportView> {
    sorted(reports, by_path())
}

proof fn lemma_text_order_is_strict(a: Seq<char>, b: Seq<char>)
    ensures
        !(text_before(a, b) && text_before(b, a)),
    decreases a.len(),
{
    if a.len() > 0 && b.len() > 0 && a[0] == b[0] {
        lemma_text_order_is_strict(a.drop_first(), b.drop_first());
    }
}

/// Whatever comes before `a` comes before `b`, unless `b` comes before `a`.
proof fn lemma_text_order_carries(a: Seq<char>, b: Seq<char>, c: Seq<char>)
    requires
        text_before(c, a),
    ensures
        text_before(b, a) || text_before(c, b),
    decreases a.len(),
{
    if b.len() > 0 && c.len() > 0 && a[0] == b[0] && b[0] == c[0] {
        lemma_text_order_carries(a.drop_first(), b.drop_first(), c.drop_first());
    }
}

/// The order by path ranks any two reports, and transitively.
pub proof fn lemma_path_ranks()
    ensures
        ranks(by_path()),
{
    let leq = by_path();
    assert forall|a: FileReportView, b: FileReportView| #[trigger]
        leq(a, b) || #[trigger] leq(b, a) by {
        lemma_text_order_is_strict(a.path, b.path);
    }
    assert forall|a: FileReportView, b: FileReportView, c: FileReportView| #[trigger]
        leq(a, b) && #[trigger] leq(b, c) implies leq(a, c) by {
        if text_before(c.path, a.path) {
            lemma_text_order_carries(a.path, b.path, c.path);
        }
    }
}

/// Whether `a` comes before `b`.
pub fn comes_before(a: &str, b: &str) -> (r: bool)
    ensures
        r == text_before(a@, b@),
{
    let left = to_chars(a);
    let right = to_chars(b);
    let mut k: usize = 0;
    proof {
        assert(left@.skip(0) =~= left@);
        assert(right@.skip(0) =~= right@);
    }
    loop
        invariant
            k <= left.len(),
            k <= right.len(),
            left@ == a@,
            right@ == b@,
            text_before(a@, b@) == text_before(left@.skip(k as int), right@.skip(k as int)),
        decreases left.len() - k,
    {
        if k >= right.len() {
            return false;
        }
        if k >= left.len() {
            return true;
        }
        if left[k] != right[k] {
            return left[k] < right[k];
        }
        proof {
            assert(left@.skip(k as int).drop_first() =~= left@.skip(k + 1));
            assert(right@.skip(k as int).drop_first() =~= right@.skip(k + 1));
        }
        k += 1;
    }
}

/// Puts reports in order of their path. The sort is stable.
pub fn sort_reports(reports: Vec<FileReport>) -> (r: Vec<FileReport>)
    ensures
        report_views(r@) == sorted_by_path(report_views(reports@)),
        ordered(report_views(r@), by_path()),
        report_views(r@).to_multiset() == report_views(reports@).to_multiset(),
{
    let ghost all = report_views(reports@);
    let mut input = reports;
    let mut out: Vec<FileReport> = Vec::new();
    let ghost mut done: int = 0;
    proof {
        assert(all.skip(0) =~= all);
        assert(report_views(out@) =~= sorted_by_path(all.take(0)));
    }
    while input.len() > 0
        invariant
            0 <= done <= all.len(),
            report_views(input@) == all.skip(done),
            report_views(out@) == sorted_by_path(all.take(done)),
        decreases input.len(),
    {
        let ghost before_input = input@;
        let ghost before_out = out@;
        let report = input.remove(0);
        proof {
            let rest = all.skip(done);
            assert(rest.len() == before_input.len());
            assert(rest[0] == before_input[0]@);
            assert(report@ == all[done]);
            assert forall|k: int| 0 <= k < input@.len() implies report_views(input@)[k]
                == all.skip(done + 1)[k] by {
                assert(input@[k] == before_input[k + 1]);
                assert(rest[k + 1] == before_input[k + 1]@);
            }
            assert(report_views(input@) =~= all.skip(done + 1));
        }
        let mut p = out.len();
        while p > 0 && comes_before(report.path.as_str(), out[p - 1].path.as_str())
            invariant
                p <= out.len(),
                out@ == before_out,
                forall|k: int|
                    p <= k < out.len() ==> !by_path()(
                        #[trigger] report_views(out@)[k],
                        report@,
                    ),
            decreases p,
        {
            p -= 1;
        }
        proof {
            lemma_insert_at(report_views(out@), report@, by_path(), p as int);
            assert(all.take(done + 1).drop_last() =~= all.take(done));
            assert(all.take(done + 1).last() == report@);
        }
        out.insert(p, report);
        proof {
            assert(report_views(out@) =~= report_views(before_out).insert(p as int, report@));
            done = done + 1;
        }
    }
    proof {
        assert(all.take(done) =~= all);
        lemma_path_ranks();
        lemma_sorted_is_ordered(all, by_path());
        lemma_sorted_is_permutation(all, by_path());
    }
    out
}

// ---------------------------------------------------------------------
// Counts and exit status

/// How many of the diagnostics have the given severity.
pub open spec fn count_of(diagnostics: Seq<DiagnosticView>, severity: Severity) -> nat
    decreases diagnostics.len(),
{
    if diagnostics.len() == 0 {
        0
    } else {
        count_of(diagnostics.drop_last(), severity) + if diagnostics.last().severity == severity {
            1nat
        } else {
            0nat
        }
    }
}

/// How many diagnostics the reports hold.
pub open spec fn issues_in(reports: Seq<FileReportView>) -> nat
    decreases reports.len(),
{
    if reports.len() == 0 {
        0
    } else {
        issues_in(reports.drop_last()) + reports.last().diagnostics.len()
    }
}

/// How many diagnostics of the given severity the reports hold.
pub open spec fn count_in(reports: Seq<FileReportView>, severity: Severity) -> nat
    decreases reports.len(),
{
    if reports.len() == 0 {
        0
    } else {
        count_in(reports.drop_last(), severity) + count_of(reports.last().diagnostics, severity)
    }
}

/// Every diagnostic is an error or a warning.
pub proof fn lemma_counts_add_up(diagnostics: Seq<DiagnosticView>)
    ensures
        count_of(diagnostics, Severity::Error) + count_of(diagnostics, Severity::Warning)
            == diagnostics.len(),
    decreases diagnostics.len(),
{
    if diagnostics.len() > 0 {
        lemma_counts_add_up(diagnostics.drop_last());
    }
}

/// Over all reports, errors and warnings add up to the issues.
pub proof fn lemma_totals_add_up(reports: Seq<FileReportView>)
    ensures
        count_in(reports, Severity::Error) + count_in(reports, Severity::Warning) == issues_in(
            reports,
        ),
    decreases reports.len(),
{
    if reports.len() > 0 {
        lemma_totals_add_up(reports.drop_last());
        lemma_counts_add_up(reports.last().diagnostics);
    }
}

proof fn lemma_issues_grow(reports: Seq<FileReportView>, n: int)
    requires
        0 <= n <= reports.len(),
    ensures
        issues_in(reports.take(n)) <= issues_in(reports),
    decreases reports.len() - n,
{
    if n < reports.len() {
        lemma_issues_grow(reports, n + 1);
        assert(reports.take(n + 1).drop_last() =~= reports.take(n));
    } else {
        assert(reports.take(n) =~= reports);
    }
}

/// Counts the diagnostics of the given severity.
pub fn count_severity(diagnostics: &Vec<Diagnostic>, severity: Severity) -> (r: usize)
    ensures
        r == count_of(diagnostic_views(diagnostics@), severity),
        r <= diagnostics@.len(),
{
    let ghost all = diagnostic_views(diagnostics@);
    let mut count: usize = 0;
    let mut i: usize = 0;
    while i < diagnostics.len()
        invariant
            i <= diagnostics.len(),
            all == diagnostic_views(diagnostics@),
            count <= i,
            count == count_of(all.take(i as int), severity),
        decreases diagnostics.len() - i,
    {
        proof {
            assert(all.take(i + 1).drop_last() =~= all.take(i as int));
            assert(all.take(i + 1).last() == diagnostics@[i as int]@);
        }
        if diagnostics[i].severity == severity {
            count += 1;
        }
        i += 1;
    }
    proof {
        assert(all.take(i as int) =~= all);
    }
    count
}

/// The counts that close a run.
#[derive(Clone, Copy, Debug, PartialEq, Eq, Structural)]
pub struct Summary {
    pub files: usize,
    pub issues: usize,
    pub errors: usize,
    pub warnings: usize,
}

/// Counts files, issues, errors and warnings. The number of issues has to
/// fit the machine word.
pub fn summarize(reports: &Vec<FileReport>) -> (r: Summary)
    requires
        issues_in(report_views(reports@)) <= usize::MAX,
    ensures
        r.files == reports@.len(),
        r.issues == issues_in(report_views(reports@)),
        r.errors == count_in(report_views(reports@), Severity::Error),
        r.warnings == count_in(report_views(reports@), Severity::Warning),
        r.issues == r.errors + r.warnings,
{
    let ghost all = report_views(reports@);
    let mut issues: usize = 0;
    let mut errors: usize = 0;
    let mut warnings: usize = 0;
    let mut i: usize = 0;
    while i < reports.len()
        invariant
            i <= reports.len(),
            all == report_views(reports@),
            issues_in(all) <= usize::MAX,
            issues == issues_in(all.take(i as int)),
            errors == count_in(all.take(i as int), Severity::Error),
            warnings == count_in(all.take(i as int), Severity::Warning),
        decreases reports.len() - i,
    {
        proof {
            assert(all.take(i + 1).drop_last() =~= all.take(i as int));
            assert(all.take(i + 1).last() == reports@[i as int]@);
            lemma_issues_grow(all, i + 1);
            lemma_totals_add_up(all.take(i as int));
            lemma_totals_add_up(all.take(i + 1));
        }
        let report = &reports[i];
        let more_errors = count_severity(&report.diagnostics, Severity::Error);
        let more_warnings = count_severity(&report.diagnostics, Severity::Warning);
        issues = issues + report.diagnostics.len();
        errors = errors + more_errors;
        warnings = warnings + more_warnings;
        i += 1;
    }
    proof {
        assert(all.take(i as int) =~= all);
        lemma_totals_add_up(all);
    }
    Summary { files: reports.len(), issues, errors, warnings }
}

/// How a run ends: clean, or with issues found.
#[derive(Clone, Copy, Debug, PartialEq, Eq, Structural)]
pub enum ExitCode {
    Clean,
    LintIssues,
}

impl ExitCode {
    /// The status that the process exits with.
    pub fn code(&self) -> (r: i32)
        ensures
            r == (if *self == ExitCode::Clean {
                0i32
            } else {
                1i32
            }),
    {
        match self {
            ExitCode::Clean => 0,
            ExitCode::LintIssues => 1,
        }
    }
}

/// A run is clean exactly if it found no issue.
pub fn exit_code(summary: &Summary) -> (r: ExitCode)
    ensures
        r == (if summary.issues > 0 {
            ExitCode::LintIssues
        } else {
            ExitCode::Clean
        }),
{
    if summary.issues > 0 {
        ExitCode::LintIssues
    } else {
        ExitCode::Clean
    }
}

// ---------------------------------------------------------------------
// Lines of the report

/// The character for a digit.
pub open spec fn digit_of(d: nat) -> char {
    if d == 0 {
        '0'
    } else if d == 1 {
        '1'
    } else if d == 2 {
        '2'
    } else if d == 3 {
        '3'
    } else if d == 4 {
        '4'
    } else if d == 5 {
        '5'
    } else if d == 6 {
        '6'
    } else if d == 7 {
        '7'
    } else if d == 8 {
        '8'
    } else {
        '9'
    }
}

/// A number in decimal notation, without leading zeros.
pub open spec fn decimal_of(n: nat) -> Seq<char>
    decreases n,
{
    if n < 10 {
        seq![digit_of(n)]
    } else {
        decimal_of(n / 10).push(digit_of(n % 10))
    }
}

fn digit_text(d: u8) -> (r: &'static str)
    requires
        d < 10,
    ensures
        r@ == seq![digit_of(d as nat)],
{
    proof {
        reveal_strlit("0");
        reveal_strlit("1");
        reveal_strlit("2");
        reveal_strlit("3");
        reveal_strlit("4");
        reveal_strlit("5");
        reveal_strlit("6");
        reveal_strlit("7");
        reveal_strlit("8");
        reveal_strlit("9");
    }
    let r = match d {
        0 => "0",
        1 => "1",
        2 => "2",
        3 => "3",
        4 => "4",
        5 => "5",
        6 => "6",
        7 => "7",
        8 => "8",
        _ => "9",
    };
    assert(r@ =~= seq![digit_of(d as nat)]);
    r
}

/// Writes a number in decimal notation.
pub fn decimal(n: u128) -> (r: String)
    ensures
        r@ == decimal_of(n as nat),
    decreases n,
{
    if n < 10 {
        String::from_str(digit_text(n as u8))
    } else {
        let mut s = decimal(n / 10);
        s.append(digit_text((n % 10) as u8));
        assert(s@ =~= decimal_of(n as nat));
        s
    }
}

impl Severity {
    /// The words that stand for this value in a message.
    pub open spec fn label(self) -> Seq<char> {
        match self {
            Severity::Error => "error"@,
            Severity::Warning => "warning"@,
        }
    }

    /// The words that stand for this value in a message, as text.
    pub fn label_text(&self) -> (r: &'static str)
        ensures
            r@ == self.label(),
    {
        match self {
            Severity::Error => "error",
            Severity::Warning => "warning",
        }
    }
}

/// The line that reports a diagnostic of the file at `path`:
/// `path:line:character: severity: message`, with line and character
/// counted from one.
pub open spec fn report_line(path: Seq<char>, diagnostic: DiagnosticView) -> Seq<char> {
    path + ":"@ + decimal_of(diagnostic.range.start.line as nat + 1) + ":"@ + decimal_of(
        diagnostic.range.start.character as nat + 1,
    ) + ": "@ + diagnostic.severity.label() + ": "@ + diagnostic.message
}

/// Writes the line that reports a diagnostic.
pub fn diagnostic_line(path: &str, diagnostic: &Diagnostic) -> (r: String)
    ensures
        r@ == report_line(path@, diagnostic@),
{
    let line = decimal(diagnostic.range.start.line as u128 + 1);
    let character = decimal(diagnostic.range.start.character as u128 + 1);
    let mut s = String::from_str(path);
    s.append(":");
    s.append(line.as_str());
    s.append(":");
    s.append(character.as_str());
    s.append(": ");
    s.append(diagnostic.severity.label_text());
    s.append(": ");
    s.append(diagnostic.message.as_str());
    s
}

/// The line that closes a run.
pub open spec fn closing_line(summary: Summary) -> Seq<char> {
    "Linted "@ + decimal_of(summary.files as nat) + " file(s): "@ + decimal_of(
        summary.issues as nat,
    ) + " issue(s) ("@ + decimal_of(summary.errors as nat) + " error(s), "@ + decimal_of(
        summary.warnings as nat,
    ) + " warning(s))."@
}

/// Writes the line that closes a run.
pub fn summary_line(summary: &Summary) -> (r: String)
    ensures
        r@ == closing_line(*summary),
{
    let files = decimal(summary.files as u128);
    let issues = decimal(summary.issues as u128);
    let errors = decimal(summary.errors as u128);
    let warnings = decimal(summary.warnings as u128);
    let mut s = String::from_str("Linted ");
    s.append(files.as_str());
    s.append(" file(s): ");
    s.append(issues.as_str());
    s.append(" issue(s) (");
    s.append(errors.as_str());
    s.append(" error(s), ");
    s.append(warnings.as_str());
    s.append(" warning(s)).");
    s
}

/// The first `n` of `parts`, with a comma and a space between them.
pub open spec fn joined(parts: Seq<String>, n: int) -> Seq<char>
    decreases n,
{
    if n <= 0 {
        Seq::empty()
    } else if n == 1 {
        parts[0]@
    } else {
        joined(parts, n - 1) + ", "@ + parts[n - 1]@
    }
}

/// What is said when the patterns match no file.
pub open spec fn no_match_text(patterns: Seq<String>) -> Seq<char> {
    "no files matched. Provided patterns: "@ + joined(patterns, patterns.len() as int)
}

/// Writes what is said when the patterns match no file.
pub fn no_match_message(patterns: &Vec<String>) -> (r: String)
    ensures
        r@ == no_match_text(patterns@),
{
    let mut s = String::from_str("no files matched. Provided patterns: ");
    let ghost head = s@;
    let mut i: usize = 0;
    assert(head + joined(patterns@, 0) =~= head);
    while i < patterns.len()
        invariant
            i <= patterns.len(),
            s@ == head + joined(patterns@, i as int),
        decreases patterns.len() - i,
    {
        if i > 0 {
            s.append(", ");
        }
        s.append(patterns[i].as_str());
        assert(s@ =~= head + joined(patterns@, i + 1));
        i += 1;
    }
    s
}

} // verus!
