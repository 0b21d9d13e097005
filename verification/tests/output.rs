//! The printed reports.

use mycelium_check::json::phylum_report_json;
use mycelium_check::output::{
    phylum_output, print_phylum_report, print_report, project_output, Line,
};
use mycelium_check::{
    Finding, FindingKind, Level, NoduleClass, NoduleVerdict, PhylumError, PhylumErrorKind,
    PhylumReport, Report, ResolveError,
};

fn out(text: &str) -> Line {
    Line::Stdout(text.to_owned())
}

fn err(text: &str) -> Line {
    Line::Stderr(text.to_owned())
}

fn findings() -> Report {
    Report::default()
        .with_finding(Finding {
            file: "a.myc".to_owned(),
            kind: FindingKind::Parse,
            site: String::new(),
            message: "expected `;`".to_owned(),
            level: Level::Minimal,
            route: None,
        })
        .with_finding(Finding {
            file: "b.myc".to_owned(),
            kind: FindingKind::Check,
            site: "f".to_owned(),
            message: "unresolved".to_owned(),
            level: Level::Medium,
            route: Some("stream".to_owned()),
        })
        .with_finding(Finding {
            file: "c.myc".to_owned(),
            kind: FindingKind::Check,
            site: String::new(),
            message: "bad".to_owned(),
            level: Level::Named("Full".to_owned()),
            route: None,
        })
        .with_files_checked(10)
}

#[test]
fn findings_are_printed_one_by_one() {
    assert_eq!(
        print_report(&findings(), false),
        [
            out("a.myc: parse-error: expected `;`"),
            out("b.myc: check-error in `f`: unresolved"),
            out("c.myc: check-error: bad"),
            err("myc-check: 3 finding(s) across 10 file(s)"),
        ]
    );
}

#[test]
fn explaining_shows_level_and_route_of_check_findings() {
    assert_eq!(
        print_report(&findings(), true),
        [
            out("a.myc: parse-error: expected `;`"),
            out("b.myc: check-error in `f` [level=Medium route=stream]: unresolved"),
            out("c.myc: check-error [level=Full route=-]: bad"),
            err("myc-check: 3 finding(s) across 10 file(s)"),
        ]
    );
}

#[test]
fn a_clean_report_says_so() {
    let report = Report::default().with_files_checked(7);
    assert_eq!(print_report(&report, true), [out("ok: 7 file(s) checked, no findings")]);
}

fn verdict(nodule: &str, class: NoduleClass) -> NoduleVerdict {
    NoduleVerdict { nodule: nodule.to_owned(), file: format!("{nodule}.myc"), class }
}

#[test]
fn a_refused_phylum_prints_both_signals() {
    let report = PhylumReport {
        ok: false,
        files_checked: 3,
        error: Some(PhylumError {
            kind: PhylumErrorKind::Check,
            site: "a.<use>".to_owned(),
            message: "no".to_owned(),
        }),
        nodules: vec![
            verdict(
                "a",
                NoduleClass::CheckError { site: "a.<use>".to_owned(), message: "no".to_owned() },
            ),
            verdict("b", NoduleClass::Blocked { on: "a".to_owned(), message: "no".to_owned() }),
            verdict("c", NoduleClass::Clean),
        ],
    };
    assert_eq!(
        print_phylum_report(&report),
        [
            err("myc-check: check-error at `a.<use>`: no"),
            err(
                "myc-check: partial verdicts — 1/3 nodule(s) independently Clean (phylum ok: \
                 false; never conflate the two):"
            ),
            err("  a: CheckError at `a.<use>`: no"),
            err("  b: Blocked on `a`: no"),
            err("  c: Clean"),
        ]
    );
    let labels: Vec<&str> = report.nodules.iter().map(|v| v.class.label()).collect();
    assert_eq!(labels, ["CheckError", "Blocked", "Clean"]);
}

#[test]
fn a_phylum_without_verdicts_prints_its_refusal_alone() {
    let report = PhylumReport {
        ok: false,
        files_checked: 1,
        error: Some(PhylumError {
            kind: PhylumErrorKind::Parse,
            site: String::new(),
            message: "no".to_owned(),
        }),
        nodules: vec![],
    };
    assert_eq!(print_phylum_report(&report), [err("myc-check: parse-error: no")]);
}

#[test]
fn a_clean_phylum_says_so() {
    let report = PhylumReport {
        ok: true,
        files_checked: 1,
        error: None,
        nodules: vec![verdict("a", NoduleClass::Clean)],
    };
    assert_eq!(
        print_phylum_report(&report),
        [out("ok: 1 nodule(s) checked as one phylum, no findings")]
    );
}

#[test]
fn the_project_mode_ends_with_its_report_or_why_there_is_none() {
    let (lines, code) = project_output(&Ok(findings()), true);
    assert_eq!(lines, print_report(&findings(), true));
    assert_ne!(lines, print_report(&findings(), false));
    assert_eq!(code, 2);
    let clean = Report::default().with_files_checked(7);
    assert_eq!(
        project_output(&Ok(clean), false),
        (vec![out("ok: 7 file(s) checked, no findings")], 0)
    );
    assert_eq!(
        project_output(&Err(ResolveError("p/a.myc: gone".to_owned())), false),
        (vec![err("myc-check: resolution-error: p/a.myc: gone")], 5)
    );
}

#[test]
fn the_phylum_mode_ends_with_its_report_or_why_there_is_none() {
    let refused = PhylumReport {
        ok: false,
        files_checked: 1,
        error: Some(PhylumError {
            kind: PhylumErrorKind::Duplicate,
            site: "a".to_owned(),
            message: "no".to_owned(),
        }),
        nodules: vec![],
    };
    let line = phylum_report_json(&refused);
    assert_eq!(phylum_output(&Ok(refused.clone()), true), (vec![Line::Stdout(line)], 3));
    assert_eq!(
        phylum_output(&Ok(refused), false),
        (vec![err("myc-check: duplicate-error at `a`: no")], 3)
    );
    for json in [false, true] {
        assert_eq!(
            phylum_output(&Err(ResolveError("p: denied".to_owned())), json),
            (vec![err("myc-check: resolution-error: p: denied")], 5)
        );
    }
}
