//! What the command-line tool prints: the lines of a report, each for standard output or for standard
//! error, and how the project mode and the phylum mode end.

use vstd::prelude::*;
use vstd::string::*;

use crate::diagnostics::{
    findings_view, report_exit_code, Finding, FindingKind, FindingView, Report,
};
use crate::json::{json_text, phylum_report_json, report_json};
use crate::phylum::{
    verdicts_view, NoduleClass, NoduleClassView, NoduleVerdict, NoduleVerdictView, PhylumErrorView,
    PhylumReport, PhylumReportView,
};
use crate::project::ResolveError;
use crate::text::{decimal, decimal_text};

verus! {

/// One printed line.
#[derive(Debug, Clone, PartialEq, Eq)]
pub enum Line {
    /// For standard output.
    Stdout(String),
    /// For standard error.
    Stderr(String),
}

/// The contents of a [`Line`].
pub enum LineView {
    Stdout(Seq<char>),
    Stderr(Seq<char>),
}

impl View for Line {
    type V = LineView;

    open spec fn view(&self) -> LineView {
        match self {
            Line::Stdout(s) => LineView::Stdout(s@),
            Line::Stderr(s) => LineView::Stderr(s@),
        }
    }
}

/// The contents of a list of lines.
pub open spec fn lines_view(lines: Seq<Line>) -> Seq<LineView> {
    lines.map_values(|l: Line| l@)
}

/// The place of a refusal: nothing where the site is empty, else the site behind `word`.
pub open spec fn place(word: Seq<char>, site: Seq<char>) -> Seq<char> {
    if site.len() == 0 {
        ""@
    } else {
        " "@ + word + " `"@ + site + "`"@
    }
}

/// The line for a finding. With `explain`, a check finding shows its level and its route.
pub open spec fn finding_line(f: FindingView, explain: bool) -> Seq<char> {
    let kind = match f.kind {
        FindingKind::Parse => "parse-error"@,
        FindingKind::Check => "check-error"@,
    };
    let route = match f.route {
        Some(route) => route,
        None => "-"@,
    };
    let shown = if explain && f.kind == FindingKind::Check {
        " [level="@ + f.level.name() + " route="@ + route + "]"@
    } else {
        ""@
    };
    f.file + ": "@ + kind + place("in"@, f.site) + shown + ": "@ + f.message
}

/// The last line for a report: that it is clean, or how many findings there are.
pub open spec fn report_summary(findings: nat, files_checked: nat) -> LineView {
    if findings == 0 {
        LineView::Stdout("ok: "@ + decimal(files_checked) + " file(s) checked, no findings"@)
    } else {
        LineView::Stderr(
            "myc-check: "@ + decimal(findings) + " finding(s) across "@ + decimal(files_checked)
                + " file(s)"@,
        )
    }
}

/// The lines for a report: one for each finding, and the summary.
pub open spec fn report_lines(
    findings: Seq<FindingView>,
    files_checked: nat,
    explain: bool,
) -> Seq<LineView> {
    findings.map_values(|f: FindingView| LineView::Stdout(finding_line(f, explain))).push(
        report_summary(findings.len(), files_checked),
    )
}

/// The line for a refused phylum.
pub open spec fn phylum_error_line(e: PhylumErrorView) -> Seq<char> {
    "myc-check: "@ + e.kind.tag() + "-error"@ + place("at"@, e.site) + ": "@ + e.message
}

/// How many of the verdicts are clean.
pub open spec fn clean_count(verdicts: Seq<NoduleVerdictView>) -> nat {
    verdicts.filter(|v: NoduleVerdictView| v.class is Clean).len()
}

/// The line above the verdicts of a refused phylum. It says both how many nodules are clean and
/// that the phylum is not.
pub open spec fn partial_line(clean: nat, all: nat) -> Seq<char> {
    "myc-check: partial verdicts — "@ + decimal(clean) + "/"@ + decimal(all)
        + " nodule(s) independently Clean (phylum ok: false; never conflate the two):"@
}

/// The line for a verdict.
pub open spec fn verdict_line(v: NoduleVerdictView) -> Seq<char> {
    "  "@ + v.nodule + ": "@ + match v.class {
        NoduleClassView::Clean => "Clean"@,
        NoduleClassView::CheckError { site, message } => "CheckError at `"@ + site + "`: "@
            + message,
        NoduleClassView::Blocked { on, message } => "Blocked on `"@ + on + "`: "@ + message,
    }
}

/// The lines for a phylum report: that the phylum is clean, or its refusal with the verdict for
/// each nodule, where there are verdicts.
pub open spec fn phylum_lines(report: PhylumReportView) -> Seq<LineView> {
    match report.error {
        None => seq![
            LineView::Stdout(
                "ok: "@ + decimal(report.nodules.len())
                    + " nodule(s) checked as one phylum, no findings"@,
            ),
        ],
        Some(e) => {
            let first = seq![LineView::Stderr(phylum_error_line(e))];
            if report.nodules.len() == 0 {
                first
            } else {
                first.push(
                    LineView::Stderr(
                        partial_line(clean_count(report.nodules), report.nodules.len()),
                    ),
                ) + report.nodules.map_values(
                    |v: NoduleVerdictView| LineView::Stderr(verdict_line(v)),
                )
            }
        },
    }
}

/// Writes the place of a refusal.
fn write_place(word: &str, site: &String) -> (s: String)
    ensures
        s@ == place(word@, site@),
{
    if site.as_str().is_empty() {
        "".to_owned()
    } else {
        let mut s = " ".to_owned();
        s.append(word);
        s.append(" `");
        s.append(site.as_str());
        s.append("`");
        s
    }
}

/// Writes the line for a finding.
fn write_finding(f: &Finding, explain: bool) -> (s: String)
    ensures
        s@ == finding_line(f@, explain),
{
    let mut shown = "".to_owned();
    if explain && f.kind == FindingKind::Check {
        shown = " [level=".to_owned();
        shown.append(f.level.name());
        shown.append(" route=");
        match &f.route {
            Some(route) => {
                shown.append(route.as_str());
            },
            None => {
                shown.append("-");
            },
        }
        shown.append("]");
    }
    let mut s = f.file.clone();
    s.append(": ");
    s.append(
        match f.kind {
            FindingKind::Parse => "parse-error",
            FindingKind::Check => "check-error",
        },
    );
    s.append(write_place("in", &f.site).as_str());
    s.append(shown.as_str());
    s.append(": ");
    s.append(f.message.as_str());
    s
}

/// The lines for a report.
pub fn print_report(report: &Report, explain: bool) -> (lines: Vec<Line>)
    ensures
        lines_view(lines@) == report_lines(
            findings_view(report.findings@),
            report.files_checked as nat,
            explain,
        ),
{
    let ghost views = findings_view(report.findings@);
    let mut lines: Vec<Line> = Vec::new();
    let mut i: usize = 0;
    while i < report.findings.len()
        invariant
            i <= report.findings.len(),
            views == findings_view(report.findings@),
            lines@.len() == i,
            forall|k: int|
                0 <= k < i ==> (#[trigger] lines@[k])@ == LineView::Stdout(
                    finding_line(views[k], explain),
                ),
        decreases report.findings.len() - i,
    {
        lines.push(Line::Stdout(write_finding(&report.findings[i], explain)));
        i += 1;
    }
    let summary = if report.is_ok() {
        let mut s = "ok: ".to_owned();
        s.append(decimal_text(report.files_checked).as_str());
        s.append(" file(s) checked, no findings");
        Line::Stdout(s)
    } else {
        let mut s = "myc-check: ".to_owned();
        s.append(decimal_text(report.findings.len()).as_str());
        s.append(" finding(s) across ");
        s.append(decimal_text(report.files_checked).as_str());
        s.append(" file(s)");
        Line::Stderr(s)
    };
    lines.push(summary);
    assert(lines_view(lines@) =~= report_lines(views, report.files_checked as nat, explain));
    lines
}

/// Writes the line for a verdict.
fn write_verdict(v: &NoduleVerdict) -> (s: String)
    ensures
        s@ == verdict_line(v@),
{
    let tail = match &v.class {
        NoduleClass::Clean => "Clean".to_owned(),
        NoduleClass::CheckError { site, message } => {
            let mut s = "CheckError at `".to_owned();
            s.append(site.as_str());
            s.append("`: ");
            s.append(message.as_str());
            s
        },
        NoduleClass::Blocked { on, message } => {
            let mut s = "Blocked on `".to_owned();
            s.append(on.as_str());
            s.append("`: ");
            s.append(message.as_str());
            s
        },
    };
    let mut s = "  ".to_owned();
    s.append(v.nodule.as_str());
    s.append(": ");
    s.append(tail.as_str());
    s
}

/// How many of the verdicts are clean.
fn count_clean(verdicts: &Vec<NoduleVerdict>) -> (n: usize)
    ensures
        n == clean_count(verdicts_view(verdicts@)),
{
    reveal(Seq::filter);
    let ghost views = verdicts_view(verdicts@);
    let mut n: usize = 0;
    let mut i: usize = 0;
    while i < verdicts.len()
        invariant
            i <= verdicts.len(),
            n <= i,
            views == verdicts_view(verdicts@),
            n == clean_count(views.take(i as int)),
        decreases verdicts.len() - i,
    {
        reveal(Seq::filter);
        assert(views.take(i + 1).drop_last() =~= views.take(i as int));
        assert(views.take(i + 1).last() == verdicts@[i as int]@);
        if verdicts[i].class.is_clean() {
            n += 1;
        }
        i += 1;
    }
    assert(views.take(verdicts.len() as int) =~= views);
    n
}

/// The lines for a phylum report.
pub fn print_phylum_report(report: &PhylumReport) -> (lines: Vec<Line>)
    ensures
        lines_view(lines@) == phylum_lines(report@),
{
    let mut lines: Vec<Line> = Vec::new();
    match &report.error {
        None => {
            let mut s = "ok: ".to_owned();
            s.append(decimal_text(report.nodules.len()).as_str());
            s.append(" nodule(s) checked as one phylum, no findings");
            lines.push(Line::Stdout(s));
        },
        Some(e) => {
            let mut s = "myc-check: ".to_owned();
            s.append(e.kind.as_str());
            s.append("-error");
            s.append(write_place("at", &e.site).as_str());
            s.append(": ");
            s.append(e.message.as_str());
            lines.push(Line::Stderr(s));
            if report.nodules.len() > 0 {
                let mut s = "myc-check: partial verdicts — ".to_owned();
                s.append(decimal_text(count_clean(&report.nodules)).as_str());
                s.append("/");
                s.append(decimal_text(report.nodules.len()).as_str());
                s.append(
                    " nodule(s) independently Clean (phylum ok: false; never conflate the two):",
                );
                lines.push(Line::Stderr(s));
                let ghost views = report@.nodules;
                let ghost head = lines_view(lines@);
                let mut i: usize = 0;
                while i < report.nodules.len()
                    invariant
                        i <= report.nodules.len(),
                        views == verdicts_view(report.nodules@),
                        head.len() == 2,
                        lines@.len() == 2 + i,
                        lines@[0]@ == head[0],
                        lines@[1]@ == head[1],
                        forall|k: int|
                            2 <= k < 2 + i ==> (#[trigger] lines@[k])@ == LineView::Stderr(
                                verdict_line(views[k - 2]),
                            ),
                    decreases report.nodules.len() - i,
                {
                    lines.push(Line::Stderr(write_verdict(&report.nodules[i])));
                    i += 1;
                }
            }
        },
    }
    assert(lines_view(lines@) =~= phylum_lines(report@));
    lines
}

/// The lines for a project that cannot be resolved, by the reason.
pub open spec fn unresolved_lines(reason: Seq<char>) -> Seq<LineView> {
    seq![LineView::Stderr("myc-check: "@ + ("resolution-error: "@ + reason))]
}

/// The lines for a project that cannot be resolved.
fn print_unresolved(e: &ResolveError) -> (lines: Vec<Line>)
    ensures
        lines_view(lines@) == unresolved_lines(e.0@),
{
    let mut s = "myc-check: ".to_owned();
    s.append(e.message().as_str());
    let lines = vec![Line::Stderr(s)];
    assert(lines_view(lines@) =~= unresolved_lines(e.0@));
    lines
}

/// How the project mode ends: the lines that it prints, and its exit code. A project that cannot be
/// resolved is told apart from one with findings.
pub fn project_output(outcome: &Result<Report, ResolveError>, explain: bool) -> (end: (
    Vec<Line>,
    u8,
))
    ensures
        match *outcome {
            Ok(report) => {
                &&& lines_view(end.0@) == report_lines(
                    findings_view(report.findings@),
                    report.files_checked as nat,
                    explain,
                )
                &&& end.1 == report_exit_code(findings_view(report.findings@))
            },
            Err(e) => lines_view(end.0@) == unresolved_lines(e.0@) && end.1 == 5,
        },
{
    match outcome {
        Ok(report) => (print_report(report, explain), report.exit_code()),
        Err(e) => (print_unresolved(e), e.exit_code()),
    }
}

/// How the phylum mode ends: the lines that it prints, which with `json` are the one line of the
/// machine-readable report, and its exit code.
pub fn phylum_output(outcome: &Result<PhylumReport, ResolveError>, json: bool) -> (end: (
    Vec<Line>,
    u8,
))
    ensures
        match *outcome {
            Ok(report) => {
                &&& lines_view(end.0@) == if json {
                    seq![LineView::Stdout(json_text(report_json(report@)))]
                } else {
                    phylum_lines(report@)
                }
                &&& end.1 == report@.exit_code()
            },
            Err(e) => lines_view(end.0@) == unresolved_lines(e.0@) && end.1 == 5,
        },
{
    match outcome {
        Ok(report) => {
            let lines = if json {
                let lines = vec![Line::Stdout(phylum_report_json(report))];
                assert(lines_view(lines@) =~= seq![
                    LineView::Stdout(json_text(report_json(report@))),
                ]);
                lines
            } else {
                print_phylum_report(report)
            };
            (lines, report.exit_code())
        },
        Err(e) => (print_unresolved(e), e.exit_code()),
    }
}

} // verus!
