//! The machine-readable report.

use mycelium_check::json::{json_escape, phylum_report_json};
use mycelium_check::{NoduleClass, NoduleVerdict, PhylumError, PhylumErrorKind, PhylumReport};

#[test]
fn quotes_and_control_characters_are_escaped() {
    assert_eq!(json_escape("plain é \u{7f}"), "plain é \u{7f}");
    assert_eq!(json_escape("a\"b\\c"), "a\\\"b\\\\c");
    assert_eq!(json_escape("1\n2\r3\t4"), "1\\n2\\r3\\t4");
    assert_eq!(json_escape("\u{0}\u{8}\u{b}\u{1f} "), "\\u0000\\u0008\\u000b\\u001f ");
    assert_eq!(json_escape(""), "");
}

#[test]
fn a_clean_report_is_one_json_line() {
    let report = PhylumReport {
        ok: true,
        files_checked: 1,
        error: None,
        nodules: vec![NoduleVerdict {
            nodule: "core.binary".to_owned(),
            file: "out/x.myc".to_owned(),
            class: NoduleClass::Clean,
        }],
    };
    assert_eq!(
        phylum_report_json(&report),
        "{\"mode\":\"phylum\",\"ok\":true,\"files_checked\":1,\"error\":null,\
         \"nodules\":[{\"nodule\":\"core.binary\",\"file\":\"out/x.myc\",\"class\":\"Clean\"}]}"
    );
}

#[test]
fn a_refused_report_carries_its_error_and_its_verdicts() {
    let report = PhylumReport {
        ok: false,
        files_checked: 120,
        error: Some(PhylumError {
            kind: PhylumErrorKind::Check,
            site: "a.<use>".to_owned(),
            message: "two\nlines".to_owned(),
        }),
        nodules: vec![
            NoduleVerdict {
                nodule: "a".to_owned(),
                file: "a\\a.myc".to_owned(),
                class: NoduleClass::CheckError {
                    site: "a.<use>".to_owned(),
                    message: "say \"no\"".to_owned(),
                },
            },
            NoduleVerdict {
                nodule: "b".to_owned(),
                file: "b.myc".to_owned(),
                class: NoduleClass::Blocked { on: "a".to_owned(), message: "no".to_owned() },
            },
        ],
    };
    let line = phylum_report_json(&report);
    assert_eq!(
        line,
        "{\"mode\":\"phylum\",\"ok\":false,\"files_checked\":120,\
         \"error\":{\"kind\":\"check\",\"site\":\"a.<use>\",\"message\":\"two\\nlines\"},\
         \"nodules\":[{\"nodule\":\"a\",\"file\":\"a\\\\a.myc\",\"class\":\"CheckError\",\
         \"site\":\"a.<use>\",\"message\":\"say \\\"no\\\"\"},\
         {\"nodule\":\"b\",\"file\":\"b.myc\",\"class\":\"Blocked\",\"on\":\"a\",\"message\":\"no\"}]}"
    );
    assert!(line.chars().all(|c| c >= ' '));
}

#[test]
fn a_phylum_that_was_not_assembled_has_no_rows() {
    for (kind, tag) in [(PhylumErrorKind::Parse, "parse"), (PhylumErrorKind::Duplicate, "duplicate")] {
        assert_eq!(kind.as_str(), tag);
        let report = PhylumReport {
            ok: false,
            files_checked: 2,
            error: Some(PhylumError { kind, site: "s".to_owned(), message: "m".to_owned() }),
            nodules: vec![],
        };
        assert_eq!(
            phylum_report_json(&report),
            format!(
                "{{\"mode\":\"phylum\",\"ok\":false,\"files_checked\":2,\"error\":{{\"kind\":\"{tag}\",\
                 \"site\":\"s\",\"message\":\"m\"}},\"nodules\":[]}}"
            )
        );
    }
    assert_eq!(PhylumErrorKind::Check.as_str(), "check");
}

#[test]
fn reports_that_differ_have_lines_that_differ() {
    let report = |files: usize, nodule: &str, file: &str, class: NoduleClass| PhylumReport {
        ok: false,
        files_checked: files,
        error: None,
        nodules: vec![NoduleVerdict {
            nodule: nodule.to_owned(),
            file: file.to_owned(),
            class,
        }],
    };
    let failed = |site: &str| NoduleClass::CheckError {
        site: site.to_owned(),
        message: "m".to_owned(),
    };
    let blocked = NoduleClass::Blocked { on: "s".to_owned(), message: "m".to_owned() };
    let lines: Vec<String> = [
        report(1, "a", "b", NoduleClass::Clean),
        report(11, "a", "b", NoduleClass::Clean),
        report(1, "a\",\"file\":\"b", "b", NoduleClass::Clean),
        report(1, "a", "a\",\"file\":\"b", NoduleClass::Clean),
        report(1, "a", "b", failed("s")),
        report(1, "a", "b", failed("s\",\"message\":\"m")),
        report(1, "a", "b", failed("\u{1}")),
        report(1, "a", "b", failed("\\u0001")),
        report(1, "a", "b", blocked),
    ]
    .iter()
    .map(phylum_report_json)
    .collect();
    for (i, line) in lines.iter().enumerate() {
        assert!(!lines[..i].contains(line), "{line}");
    }
}
