//! Whole runs, against a kernel for a small part of the language: headers, imports, and calls of
//! functions by name.

use std::collections::BTreeMap;

use mycelium_check::diagnostics::{
    aggregate, check_source, reasoned_error, CheckError, Finding, FindingKind, Level, Report,
    SourceReply,
};
use mycelium_check::phylum::{NoduleClass, PhylumErrorKind, PhylumReport};
use mycelium_check::session::{check_phylum_sources, PhylumAction};
use mycelium_check::sources::{check_sources, SourceAction};
use mycelium_check::syntax::{BaseType, FnSig, Item, Nodule, TypeRef, UsePath};

fn segments(path: &str) -> Vec<String> {
    path.split('.').map(str::to_owned).collect()
}

/// Parses `nodule <path>;`, `use <path>;`, and `[pub ]fn <name>(...) => <type> = <body>;` lines.
fn parse(src: &str) -> Result<Nodule, String> {
    let mut lines = src.lines();
    let header = lines.next().unwrap_or("");
    let path = header
        .strip_prefix("nodule ")
        .and_then(|rest| rest.strip_suffix(';'))
        .ok_or_else(|| "expected `;` after the nodule header".to_owned())?;
    let mut items = Vec::new();
    for line in lines {
        if let Some(rest) = line.strip_prefix("use ") {
            let target = rest.trim_end_matches(';');
            let (cross_phylum, target) = match target.split_once("::") {
                Some((_, inner)) => (true, inner),
                None => (false, target),
            };
            let (target, glob) = match target.strip_suffix(".*") {
                Some(stem) => (stem, true),
                None => (target, false),
            };
            items.push(Item::Use(UsePath { cross_phylum, path: segments(target), glob }));
        } else if line.contains("fn ") {
            items.push(Item::Fn(FnSig {
                name: fn_name(line),
                value_params: line.matches(": Binary").count(),
                ret: TypeRef { base: BaseType::Binary("8".to_owned()), guarantee: None },
            }));
        } else {
            items.push(Item::Other);
        }
    }
    Ok(Nodule { path: segments(path), items })
}

fn fn_name(line: &str) -> String {
    let rest = line.split("fn ").nth(1).unwrap_or("");
    rest.split('(').next().unwrap_or("").to_owned()
}

/// The function that a line's body calls, if it calls one.
fn callee(line: &str) -> Option<String> {
    let body = line.split(" = ").nth(1)?;
    body.split_once('(').map(|(name, _)| name.to_owned())
}

/// Checks a phylum: every import names a nodule of it, and every call a function that the nodule
/// declares or imports.
fn check(texts: &[&str]) -> Result<(), CheckError> {
    let mut exports: BTreeMap<String, Vec<String>> = BTreeMap::new();
    for text in texts {
        let path = parse(text).unwrap().path.join(".");
        let public = text.lines().filter(|l| l.starts_with("pub fn ")).map(fn_name).collect();
        exports.insert(path, public);
    }
    for text in texts {
        let nodule = parse(text).unwrap();
        let path = nodule.path.join(".");
        let mut known: Vec<String> = vec!["not".to_owned()];
        known.extend(text.lines().filter(|l| l.contains("fn ")).map(fn_name));
        for item in &nodule.items {
            if let Item::Use(u) = item {
                let target = if u.glob {
                    u.path.join(".")
                } else {
                    u.path[..u.path.len() - 1].join(".")
                };
                match exports.get(&target) {
                    Some(public) => known.extend(public.iter().cloned()),
                    None => {
                        return Err(CheckError {
                            site: format!("{path}.<use>"),
                            message: format!("unresolved import of `{target}`"),
                        })
                    }
                }
            }
        }
        for line in text.lines().filter(|l| l.contains("fn ")) {
            if let Some(name) = callee(line) {
                if !known.contains(&name) {
                    return Err(CheckError {
                        site: fn_name(line),
                        message: format!("unresolved name `{name}`"),
                    });
                }
            }
        }
    }
    Ok(())
}

/// The kernel's reply for a single source: a phylum of one, and the baseline's presentation.
fn reply(src: &str) -> SourceReply {
    match parse(src) {
        Err(message) => SourceReply::Unparsable { message },
        Ok(_) => match check(&[src]) {
            Ok(()) => SourceReply::Accepted,
            Err(error) => {
                let (level, route) = match reasoned_error(&error).class.as_str() {
                    "NotValidated" => (Level::Medium, Some("stream".to_owned())),
                    _ => (Level::Minimal, None),
                };
                SourceReply::Refused { error, level, route }
            }
        },
    }
}

fn replies(sources: &[(String, String)]) -> Vec<(String, SourceReply)> {
    sources.iter().map(|(file, src)| (file.clone(), reply(src))).collect()
}

/// Runs the exchange over sources, one by one, to its end; counts the questions.
fn run_sources(sources: &[(String, String)]) -> (Report, usize) {
    let mut run = check_sources(sources);
    let mut questions = 0;
    loop {
        match run.action() {
            SourceAction::Parse(i) => run = run.parsed(parse(&sources[i].1).map(|_| ())),
            SourceAction::Check(i) => run = run.checked(check(&[&sources[i].1])),
            SourceAction::Present(e) => {
                assert_eq!(e.class, "NotValidated");
                run = run.presented(Level::Medium, Some("stream".to_owned()));
            }
            SourceAction::Finished => break,
        }
        questions += 1;
    }
    (run.report(), questions)
}

fn one_by_one(sources: &[(String, String)]) -> Report {
    run_sources(sources).0
}

/// Runs the exchange over one phylum to its end; counts the questions.
fn run_phylum(sources: &[(String, String)]) -> (PhylumReport, usize) {
    let mut run = check_phylum_sources(sources);
    let mut questions = 0;
    loop {
        match run.action() {
            PhylumAction::Parse(i) => run = run.parsed(parse(&sources[i].1)),
            PhylumAction::Check(members) => {
                let texts: Vec<&str> = members.iter().map(|m| sources[*m].1.as_str()).collect();
                run = run.checked(check(&texts));
            }
            PhylumAction::Finished => break,
        }
        questions += 1;
    }
    (run.report().expect("a finished run has its report").clone(), questions)
}

fn phylum(sources: &[(String, String)]) -> PhylumReport {
    run_phylum(sources).0
}

#[test]
fn a_clean_program_checks_ok() {
    let r = one_by_one(&[(
        "ok.myc".to_owned(),
        "nodule d;\nfn f(x: Binary{8}) => Binary{8} = x;\n".to_owned(),
    )]);
    assert!(r.is_ok(), "{:?}", r.findings);
    assert_eq!(r.exit_code(), 0);
}

#[test]
fn a_parse_error_is_an_explicit_finding_exit_2() {
    let r = one_by_one(&[(
        "bad.myc".to_owned(),
        "nodule d\nfn f(x: Binary{8}) => Ternary{6} = swap(x, to: Ternary{6})".to_owned(),
    )]);
    assert_eq!(r.findings.len(), 1);
    assert_eq!(r.findings[0].kind, FindingKind::Parse);
    assert_eq!(r.exit_code(), 2);
}

#[test]
fn a_check_error_is_routed_through_the_baseline_exit_3() {
    let r = one_by_one(&[(
        "c.myc".to_owned(),
        "nodule d;\nfn f() => Binary{8} = nope(0b0);\n".to_owned(),
    )]);
    assert_eq!(r.exit_code(), 3, "{:?}", r.findings);
    let c = r
        .findings
        .iter()
        .find(|f| f.kind == FindingKind::Check)
        .expect("a check finding");
    assert_eq!(c.level, Level::Medium, "{c:?}");
    assert_eq!(c.route.as_deref(), Some("stream"), "{c:?}");
}

#[test]
fn aggregation_is_deterministic_and_reports_all_files() {
    let r = one_by_one(&[
        (
            "b.myc".to_owned(),
            "nodule d;\nfn f() => Binary{8} = nope(0b0);\n".to_owned(),
        ),
        (
            "a.myc".to_owned(),
            "nodule d;\nfn g() => Binary{8} = also_nope(0b0);\n".to_owned(),
        ),
    ]);
    assert_eq!(r.findings.len(), 2);
    assert_eq!(r.findings[0].file, "a.myc");
    assert_eq!(r.findings[1].file, "b.myc");
    assert_eq!(r.exit_code(), 3);
}

#[test]
fn check_source_default_and_builders_are_additive_ergonomics() {
    let mut out = Vec::new();
    check_source(
        "a.myc",
        &reply("nodule d;\nfn g() => Binary{8} = also_nope(0b0);\n"),
        &mut out,
    );
    assert!(
        !out.is_empty(),
        "an unresolved call is a recorded check finding"
    );
    let f = out.remove(0).with_route("escalate".to_owned());
    assert_eq!(f.route.as_deref(), Some("escalate"));
    let r = Report::default().with_finding(f).with_files_checked(1);
    assert_eq!(r.findings.len(), 1);
    assert_eq!(r.files_checked, 1);
}

#[test]
fn phylum_cross_nodule_reference_resolves() {
    let a = (
        "a.myc".to_owned(),
        "nodule a;\npub fn helper(x: Binary{8}) => Binary{8} = not(x);\n".to_owned(),
    );
    let b = (
        "b.myc".to_owned(),
        "nodule b;\nuse a.*;\nfn g(x: Binary{8}) => Binary{8} = helper(x);\n".to_owned(),
    );
    let report = phylum(&[a, b.clone()]);
    assert!(
        report.ok,
        "phylum should resolve `a.helper`: {:?}",
        report.error
    );
    assert_eq!(report.exit_code(), 0);
    assert_eq!(report.nodules.len(), 2);
    assert!(report.nodules.iter().all(|v| v.class.is_clean()));

    let isolated = one_by_one(&[b]);
    assert!(
        !isolated.is_ok(),
        "b.myc must NOT resolve `a.*` in isolation (proves the phylum lever): {:?}",
        isolated.findings
    );
    assert_eq!(isolated.exit_code(), 3);
}

#[test]
fn phylum_duplicate_nodule_path_is_refused() {
    let report = phylum(&[
        (
            "x.myc".to_owned(),
            "nodule a;\npub fn helper(x: Binary{8}) => Binary{8} = not(x);\n".to_owned(),
        ),
        (
            "y.myc".to_owned(),
            "nodule a;\npub fn other(x: Binary{8}) => Binary{8} = x;\n".to_owned(),
        ),
    ]);
    assert!(!report.ok);
    assert_eq!(
        report.error.as_ref().map(|e| e.kind),
        Some(PhylumErrorKind::Duplicate),
        "{:?}",
        report.error
    );
    assert_eq!(report.exit_code(), 3);
    assert!(
        report.nodules.is_empty(),
        "a Duplicate refusal has ambiguous nodule identity — never a fabricated partial verdict"
    );
    let e = report.error.unwrap();
    assert_eq!(e.site, "a");
    assert_eq!(
        e.message,
        "nodule `a` is declared more than once — every nodule path in a phylum must be unique"
    );
}

#[test]
fn phylum_parse_error_is_reported() {
    let report = phylum(&[(
        "bad.myc".to_owned(),
        "nodule a\npub fn helper(x: Binary{8}) => Binary{8} = not(x);\n".to_owned(),
    )]);
    assert!(!report.ok);
    let e = report.error.as_ref().expect("a parse refusal");
    assert_eq!(e.kind, PhylumErrorKind::Parse);
    assert_eq!(e.site, "bad.myc", "parse site is the file label");
    assert_eq!(report.exit_code(), 2);
    assert!(report.nodules.is_empty());
}

#[test]
fn phylum_check_error_is_reported() {
    let report = phylum(&[(
        "c.myc".to_owned(),
        "nodule a;\nfn f() => Binary{8} = nope(0b0);\n".to_owned(),
    )]);
    assert!(!report.ok);
    assert_eq!(
        report.error.as_ref().map(|e| e.kind),
        Some(PhylumErrorKind::Check),
        "{:?}",
        report.error
    );
    assert_eq!(report.exit_code(), 3);
    assert_eq!(report.nodules.len(), 1);
    assert_eq!(report.nodules[0].nodule, "a");
    assert!(
        matches!(report.nodules[0].class, NoduleClass::CheckError { .. }),
        "{:?}",
        report.nodules[0].class
    );
}

#[test]
fn partial_verdict_blocks_a_dependent_never_credits_it_clean() {
    let a = (
        "a.myc".to_owned(),
        "nodule a;\nuse zzz.nonexistent;\npub fn helper(x: Binary{8}) => Binary{8} = not(x);\n"
            .to_owned(),
    );
    let b = (
        "b.myc".to_owned(),
        "nodule b;\nuse a.*;\nfn g(x: Binary{8}) => Binary{8} = helper(x);\n".to_owned(),
    );
    let c = (
        "c.myc".to_owned(),
        "nodule c;\nfn h(x: Binary{8}) => Binary{8} = x;\n".to_owned(),
    );
    let report = phylum(&[a, b, c]);
    assert!(
        !report.ok,
        "the whole phylum is NOT clean — `a`'s use never resolves"
    );
    assert_eq!(report.nodules.len(), 3, "{:?}", report.nodules);

    let by_name: BTreeMap<&str, &NoduleClass> = report
        .nodules
        .iter()
        .map(|v| (v.nodule.as_str(), &v.class))
        .collect();

    match by_name["a"] {
        NoduleClass::CheckError { site, .. } => assert_eq!(site, "a.<use>"),
        other => panic!("expected a to be CheckError (local), got {other:?}"),
    }
    match by_name["b"] {
        NoduleClass::Blocked { on, .. } => assert_eq!(on, "a"),
        other => panic!("expected b to be Blocked on a, got {other:?} — false-clean risk!"),
    }
    assert!(
        by_name["c"].is_clean(),
        "c has no dependency on the failed a/b — must still be credited Clean: {:?}",
        by_name["c"]
    );
}

#[test]
fn blocked_and_check_error_are_never_is_clean() {
    let a = (
        "a.myc".to_owned(),
        "nodule a;\nuse zzz.nonexistent;\npub fn helper(x: Binary{8}) => Binary{8} = not(x);\n"
            .to_owned(),
    );
    let b = (
        "b.myc".to_owned(),
        "nodule b;\nuse a.*;\nfn g(x: Binary{8}) => Binary{8} = helper(x);\n".to_owned(),
    );
    let report = phylum(&[a, b]);
    assert!(!report.ok);
    for v in &report.nodules {
        assert!(
            !v.class.is_clean(),
            "no nodule in this fixture should ever be Clean: {:?}",
            v
        );
    }
}

#[test]
fn nodule_verdict_carries_its_originating_file() {
    let a = (
        "out/a_file.myc".to_owned(),
        "nodule a;\npub fn helper(x: Binary{8}) => Binary{8} = not(x);\n".to_owned(),
    );
    let b = (
        "out/b_file.myc".to_owned(),
        "nodule b;\nuse a.*;\nfn g(x: Binary{8}) => Binary{8} = helper(x);\n".to_owned(),
    );
    let report = phylum(&[a.clone(), b.clone()]);
    assert!(report.ok, "{:?}", report.error);
    let by_nodule: BTreeMap<&str, &str> = report
        .nodules
        .iter()
        .map(|v| (v.nodule.as_str(), v.file.as_str()))
        .collect();
    assert_eq!(by_nodule["a"], "out/a_file.myc");
    assert_eq!(by_nodule["b"], "out/b_file.myc");

    let broken = (
        "out/broken_file.myc".to_owned(),
        "nodule a;\nfn f() => Binary{8} = nope(0b0);\n".to_owned(),
    );
    let report2 = phylum(&[broken]);
    assert!(!report2.ok);
    assert_eq!(report2.nodules.len(), 1);
    assert_eq!(report2.nodules[0].file, "out/broken_file.myc");
}

#[test]
fn a_mixed_phylum_credits_its_clean_nodule_even_though_the_whole_phylum_fails() {
    let broken = (
        "broken.myc".to_owned(),
        "nodule broken;\nfn f() => Binary{8} = nope(0b0);\n".to_owned(),
    );
    let clean = (
        "clean.myc".to_owned(),
        "nodule clean;\nfn g(x: Binary{8}) => Binary{8} = x;\n".to_owned(),
    );
    let report = phylum(&[broken, clean]);
    assert!(!report.ok);
    let by_name: BTreeMap<&str, &NoduleClass> = report
        .nodules
        .iter()
        .map(|v| (v.nodule.as_str(), &v.class))
        .collect();
    assert!(!by_name["broken"].is_clean());
    assert!(
        by_name["clean"].is_clean(),
        "an all-or-nothing report would have credited ZERO nodules here: {:?}",
        by_name["clean"]
    );
}

#[test]
fn findings_in_one_file_keep_their_order() {
    let refused = |site: &str| SourceReply::Refused {
        error: CheckError { site: site.to_owned(), message: "m".to_owned() },
        level: Level::Named("Full".to_owned()),
        route: None,
    };
    let r = aggregate(&[
        ("b".to_owned(), refused("1")),
        ("a".to_owned(), refused("2")),
        ("b".to_owned(), SourceReply::Accepted),
        ("b".to_owned(), SourceReply::Unparsable { message: "3".to_owned() }),
        ("a".to_owned(), refused("4")),
        ("ab".to_owned(), refused("5")),
    ]);
    let order: Vec<(&str, &str)> =
        r.findings.iter().map(|f| (f.file.as_str(), f.site.as_str())).collect();
    assert_eq!(order, [("a", "2"), ("a", "4"), ("ab", "5"), ("b", "1"), ("b", "")]);
    assert_eq!(r.files_checked, 6);
    assert_eq!(r.exit_code(), 2);
    assert_eq!(
        r.findings[4],
        Finding {
            file: "b".to_owned(),
            kind: FindingKind::Parse,
            site: String::new(),
            message: "3".to_owned(),
            level: Level::Minimal,
            route: None,
        }
    );
}

#[test]
fn the_order_of_sources_does_not_show_in_the_report() {
    let sources = replies(&[
        ("z.myc".to_owned(), "nodule z".to_owned()),
        ("é.myc".to_owned(), "nodule e;\nfn f() => Binary{8} = nope(0b0);\n".to_owned()),
        ("m.myc".to_owned(), "nodule m;\n".to_owned()),
        ("a.myc".to_owned(), "nodule a;\nfn f() => Binary{8} = nope(0b0);\n".to_owned()),
    ]);
    let mut reversed: Vec<(String, SourceReply)> = sources.clone();
    reversed.reverse();
    let (r, s) = (aggregate(&sources), aggregate(&reversed));
    assert_eq!(r.findings, s.findings);
    let files: Vec<&str> = r.findings.iter().map(|f| f.file.as_str()).collect();
    assert_eq!(files, ["a.myc", "z.myc", "é.myc"]);
}

#[test]
fn the_exchange_over_sources_asks_no_more_than_needed() {
    let sources = [
        ("bad".to_owned(), "nodule".to_owned()),
        ("refused".to_owned(), "nodule d;\nfn f() => Binary{8} = nope(0b0);\n".to_owned()),
        ("good".to_owned(), "nodule e;\n".to_owned()),
    ];
    let (report, questions) = run_sources(&sources);
    assert_eq!(questions, 1 + 3 + 2);
    assert_eq!(report.files_checked, 3);
    assert_eq!(report.findings, aggregate(&replies(&sources)).findings);
    assert_eq!(report.exit_code(), 2);
    let (empty, none) = run_sources(&[]);
    assert!(empty.is_ok());
    assert_eq!((empty.files_checked, none), (0, 0));
}

#[test]
fn a_check_refusal_is_presented_under_the_umbrella_class() {
    let error = CheckError { site: "f".to_owned(), message: "no".to_owned() };
    let reasoned = reasoned_error(&error);
    assert_eq!(reasoned.class, "NotValidated");
    assert_eq!(reasoned.site, "f");
    assert_eq!(reasoned.message, "no");
}

#[test]
fn the_first_unparsable_source_ends_the_exchange() {
    let (report, questions) = run_phylum(&[
        ("1".to_owned(), "nodule a;\n".to_owned()),
        ("2".to_owned(), "nodule a".to_owned()),
        ("3".to_owned(), "module".to_owned()),
    ]);
    assert_eq!(report.error.unwrap().site, "2");
    assert_eq!(report.files_checked, 3);
    assert_eq!(questions, 2);
}

#[test]
fn a_clean_phylum_takes_one_check() {
    let (report, questions) = run_phylum(&[
        ("1".to_owned(), "nodule a;\n".to_owned()),
        ("2".to_owned(), "nodule b;\n".to_owned()),
    ]);
    assert!(report.ok);
    assert!(report.error.is_none());
    assert_eq!(questions, 3);
}

#[test]
fn a_refused_phylum_takes_a_check_for_each_closure() {
    let (report, questions) = run_phylum(&[
        ("1".to_owned(), "nodule a;\nuse b.*;\n".to_owned()),
        ("2".to_owned(), "nodule b;\nuse a.*;\nuse zzz.x;\n".to_owned()),
        ("3".to_owned(), "nodule a.b;\nuse dep::c.d;\n".to_owned()),
    ]);
    assert_eq!(questions, 7);
    let classes: Vec<&NoduleClass> = report.nodules.iter().map(|v| &v.class).collect();
    let message = "unresolved import of `zzz`".to_owned();
    assert_eq!(
        classes[0],
        &NoduleClass::Blocked { on: "b".to_owned(), message: message.clone() }
    );
    assert_eq!(
        classes[1],
        &NoduleClass::CheckError { site: "b.<use>".to_owned(), message }
    );
    assert_eq!(
        classes[2],
        &NoduleClass::CheckError {
            site: "a.b.<use>".to_owned(),
            message: "unresolved import of `c`".to_owned()
        }
    );
}

#[test]
fn dependents_of_an_unclean_nodule_are_not_clean() {
    let report = phylum(&[
        ("1".to_owned(), "nodule top;\nuse mid.*;\n".to_owned()),
        ("2".to_owned(), "nodule mid;\nuse low.thing;\n".to_owned()),
        ("3".to_owned(), "nodule low;\nfn f() => Binary{8} = nope(0b0);\n".to_owned()),
        ("4".to_owned(), "nodule free;\n".to_owned()),
    ]);
    let clean: Vec<bool> = report.nodules.iter().map(|v| v.class.is_clean()).collect();
    assert_eq!(clean, [false, false, false, true]);
}

#[test]
fn an_empty_batch_is_put_to_the_checker() {
    let run = check_phylum_sources(&[]);
    assert_eq!(run.action(), PhylumAction::Check(vec![]));
    let refused = run.checked(Err(CheckError { site: "s".to_owned(), message: "m".to_owned() }));
    let report = refused.report().unwrap();
    assert!(!report.ok);
    assert!(report.nodules.is_empty());
    assert_eq!(report.exit_code(), 3);
    assert!(check_phylum_sources(&[]).checked(Ok(())).report().unwrap().ok);
}

#[test]
fn a_verdict_does_not_depend_on_what_is_outside_the_closure() {
    let a = ("a.myc".to_owned(), "nodule a;\nuse zzz.x;\n".to_owned());
    let b = ("b.myc".to_owned(), "nodule b;\nuse a.*;\n".to_owned());
    let alone = phylum(&[a.clone(), b.clone()]);
    let together = phylum(&[
        ("c.myc".to_owned(), "nodule c;\n".to_owned()),
        a,
        ("d.myc".to_owned(), "nodule d;\nuse gone.y;\nuse b.*;\n".to_owned()),
        b,
    ]);
    assert!(!alone.ok && !together.ok);
    assert_eq!(alone.nodules[0], together.nodules[1]);
    assert_eq!(alone.nodules[1], together.nodules[3]);
    assert_eq!(
        alone.nodules[1].class,
        NoduleClass::Blocked {
            on: "a".to_owned(),
            message: "unresolved import of `zzz`".to_owned(),
        }
    );
}
