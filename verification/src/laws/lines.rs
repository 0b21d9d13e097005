//! Laws of the printed lines: what a reader is told, and where.

use vstd::prelude::*;
use vstd::string::*;

use crate::diagnostics::FindingView;
use crate::output::{
    clean_count, finding_line, phylum_lines, report_lines, unresolved_lines, LineView,
};
use crate::phylum::{NoduleClassView, NoduleVerdictView, PhylumErrorKind, PhylumReportView};
use crate::text::decimal;

verus! {

/// The clean verdicts are counted, and no others: there are none among none, a clean one more is one
/// more, and one that is in error or blocked is none more. All are counted exactly when all are
/// clean, and none exactly when none is.
pub proof fn clean_verdicts_are_counted(
    verdicts: Seq<NoduleVerdictView>,
    nodule: Seq<char>,
    file: Seq<char>,
    on: Seq<char>,
    message: Seq<char>,
)
    ensures
        clean_count(seq![]) == 0,
        clean_count(
            verdicts.push(NoduleVerdictView { nodule, file, class: NoduleClassView::Clean }),
        ) == clean_count(verdicts) + 1,
        clean_count(
            verdicts.push(
                NoduleVerdictView {
                    nodule,
                    file,
                    class: NoduleClassView::CheckError { site: on, message },
                },
            ),
        ) == clean_count(verdicts),
        clean_count(
            verdicts.push(
                NoduleVerdictView { nodule, file, class: NoduleClassView::Blocked { on, message } },
            ),
        ) == clean_count(verdicts),
        clean_count(verdicts) <= verdicts.len(),
        clean_count(verdicts) == verdicts.len() <==> forall|i: int|
            0 <= i < verdicts.len() ==> (#[trigger] verdicts[i]).class is Clean,
        clean_count(verdicts) == 0 <==> forall|i: int|
            0 <= i < verdicts.len() ==> !((#[trigger] verdicts[i]).class is Clean),
    decreases verdicts.len(),
{
    reveal(Seq::filter);
    lemma_one_more(verdicts, NoduleVerdictView { nodule, file, class: NoduleClassView::Clean });
    lemma_one_more(
        verdicts,
        NoduleVerdictView {
            nodule,
            file,
            class: NoduleClassView::CheckError { site: on, message },
        },
    );
    lemma_one_more(
        verdicts,
        NoduleVerdictView { nodule, file, class: NoduleClassView::Blocked { on, message } },
    );
    if verdicts.len() > 0 {
        let shorter = verdicts.drop_last();
        let last = verdicts.last();
        clean_verdicts_are_counted(shorter, nodule, file, on, message);
        lemma_one_more(shorter, last);
        assert(shorter.push(last) =~= verdicts);
        assert(forall|i: int| 0 <= i < shorter.len() ==> #[trigger] shorter[i] == verdicts[i]);
        assert(verdicts[verdicts.len() - 1] == last);
        if forall|i: int| 0 <= i < verdicts.len() ==> (#[trigger] verdicts[i]).class is Clean {
            assert forall|i: int| 0 <= i < shorter.len() implies (
            #[trigger] shorter[i]).class is Clean by {
                assert(verdicts[i].class is Clean);
            }
        }
        if clean_count(verdicts) == verdicts.len() {
            assert forall|i: int| 0 <= i < verdicts.len() implies (
            #[trigger] verdicts[i]).class is Clean by {
                if i < shorter.len() {
                    assert(shorter[i].class is Clean);
                }
            }
        }
        if forall|i: int| 0 <= i < verdicts.len() ==> !((#[trigger] verdicts[i]).class is Clean) {
            assert forall|i: int| 0 <= i < shorter.len() implies !((
            #[trigger] shorter[i]).class is Clean) by {
                assert(!(verdicts[i].class is Clean));
            }
        }
        if clean_count(verdicts) == 0 {
            assert forall|i: int| 0 <= i < verdicts.len() implies !((
            #[trigger] verdicts[i]).class is Clean) by {
                if i < shorter.len() {
                    assert(!(shorter[i].class is Clean));
                }
            }
        }
    }
}

proof fn lemma_one_more(verdicts: Seq<NoduleVerdictView>, v: NoduleVerdictView)
    ensures
        clean_count(verdicts.push(v)) == clean_count(verdicts) + if v.class is Clean {
            1nat
        } else {
            0nat
        },
{
    reveal(Seq::filter);
    assert(verdicts.push(v).drop_last() =~= verdicts);
    assert(verdicts.push(v).last() == v);
}

/// A phylum without a refusal is told in one line, on standard output, with the number of its
/// nodules.
pub proof fn a_clean_phylum_is_one_line(report: PhylumReportView)
    requires
        report.error is None,
    ensures
        phylum_lines(report).len() == 1,
        phylum_lines(report)[0] == LineView::Stdout(
            "ok: "@ + decimal(report.nodules.len())
                + " nodule(s) checked as one phylum, no findings"@,
        ),
{
}

/// The kind of a refusal as a line shows it.
pub open spec fn shown_kind(kind: PhylumErrorKind) -> Seq<char> {
    match kind {
        PhylumErrorKind::Parse => "myc-check: parse-error"@,
        PhylumErrorKind::Duplicate => "myc-check: duplicate-error"@,
        PhylumErrorKind::Check => "myc-check: check-error"@,
    }
}

/// A refused phylum is told on standard error: first the refusal, with its site if there is one;
/// then, where there are verdicts, how many of how many are clean, and each verdict in its order.
pub proof fn a_refused_phylum_is_told_whole(report: PhylumReportView, i: int)
    requires
        report.error is Some,
    ensures
        ({
            let lines = phylum_lines(report);
            let e = report.error->0;
            &&& lines.len() == (if report.nodules.len() == 0 {
                1
            } else {
                2 + report.nodules.len()
            })
            &&& e.site.len() == 0 ==> lines[0] == LineView::Stderr(
                shown_kind(e.kind) + ": "@ + e.message,
            )
            &&& e.site.len() > 0 ==> lines[0] == LineView::Stderr(
                shown_kind(e.kind) + " at `"@ + e.site + "`: "@ + e.message,
            )
            &&& report.nodules.len() > 0 ==> lines[1] == LineView::Stderr(
                "myc-check: partial verdicts — "@ + decimal(clean_count(report.nodules)) + "/"@
                    + decimal(report.nodules.len())
                    + " nodule(s) independently Clean (phylum ok: false; never conflate the two):"@,
            )
            &&& 0 <= i < report.nodules.len() ==> {
                let v = report.nodules[i];
                lines[2 + i] == LineView::Stderr(
                    match v.class {
                        NoduleClassView::Clean => "  "@ + v.nodule + ": Clean"@,
                        NoduleClassView::CheckError { site, message } => "  "@ + v.nodule
                            + ": CheckError at `"@ + site + "`: "@ + message,
                        NoduleClassView::Blocked { on, message } => "  "@ + v.nodule
                            + ": Blocked on `"@ + on + "`: "@ + message,
                    },
                )
            }
        }),
{
    reveal_strlit("");
    reveal_strlit(" ");
    reveal_strlit("at");
    reveal_strlit(" `");
    reveal_strlit("`");
    reveal_strlit(": ");
    reveal_strlit("`: ");
    reveal_strlit(" at `");
    reveal_strlit("myc-check: ");
    reveal_strlit("parse");
    reveal_strlit("duplicate");
    reveal_strlit("check");
    reveal_strlit("-error");
    reveal_strlit("myc-check: parse-error");
    reveal_strlit("myc-check: duplicate-error");
    reveal_strlit("myc-check: check-error");
    reveal_strlit("Clean");
    reveal_strlit(": Clean");
    reveal_strlit("CheckError at `");
    reveal_strlit(": CheckError at `");
    reveal_strlit("Blocked on `");
    reveal_strlit(": Blocked on `");
    let e = report.error->0;
    assert("myc-check: "@ + e.kind.tag() + "-error"@ =~= shown_kind(e.kind));
    assert(" "@ + "at"@ + " `"@ =~= " at `"@);
    assert("`"@ + ": "@ =~= "`: "@);
    let line = crate::output::phylum_error_line(e);
    if e.site.len() == 0 {
        assert(line =~= shown_kind(e.kind) + ": "@ + e.message);
    } else {
        assert(line =~= shown_kind(e.kind) + " at `"@ + e.site + "`: "@ + e.message);
    }
    assert(": "@ + "Clean"@ =~= ": Clean"@);
    assert(": "@ + "CheckError at `"@ =~= ": CheckError at `"@);
    assert(": "@ + "Blocked on `"@ =~= ": Blocked on `"@);
    if 0 <= i < report.nodules.len() {
        let v = report.nodules[i];
        assert(phylum_lines(report)[2 + i] == LineView::Stderr(crate::output::verdict_line(v)));
        match v.class {
            NoduleClassView::Clean => {
                assert(crate::output::verdict_line(v) =~= "  "@ + v.nodule + ": Clean"@);
            },
            NoduleClassView::CheckError { site, message } => {
                assert(crate::output::verdict_line(v) =~= "  "@ + v.nodule + ": CheckError at `"@
                    + site + "`: "@ + message);
            },
            NoduleClassView::Blocked { on, message } => {
                assert(crate::output::verdict_line(v) =~= "  "@ + v.nodule + ": Blocked on `"@ + on
                    + "`: "@ + message);
            },
        }
    }
}

/// A report is told in one line for each finding, in their order and on standard output, and one
/// last line: that there was none, on standard output, or how many, on standard error.
pub proof fn a_report_is_told_whole(
    findings: Seq<FindingView>,
    files_checked: nat,
    explain: bool,
    i: int,
)
    ensures
        ({
            let lines = report_lines(findings, files_checked, explain);
            &&& lines.len() == findings.len() + 1
            &&& 0 <= i < findings.len() ==> lines[i] == LineView::Stdout(
                finding_line(findings[i], explain),
            )
            &&& findings.len() == 0 ==> lines[0] == LineView::Stdout(
                "ok: "@ + decimal(files_checked) + " file(s) checked, no findings"@,
            )
            &&& findings.len() > 0 ==> lines.last() == LineView::Stderr(
                "myc-check: "@ + decimal(findings.len()) + " finding(s) across "@ + decimal(
                    files_checked,
                ) + " file(s)"@,
            )
        }),
{
}

/// The beginning of a finding's line: its file and its kind, and its site where it has one.
pub open spec fn shown_finding(f: FindingView) -> Seq<char> {
    let head = f.file + if f.kind is Parse {
        ": parse-error"@
    } else {
        ": check-error"@
    };
    if f.site.len() == 0 {
        head
    } else {
        head + " in `"@ + f.site + "`"@
    }
}

/// A finding's line says where it is, of which kind, and what its message is. To explain adds the
/// level and the route of a check finding, with a dash for no route, and changes nothing else.
pub proof fn a_finding_is_told_with_its_place(f: FindingView)
    ensures
        finding_line(f, false) == shown_finding(f) + ": "@ + f.message,
        f.kind is Parse ==> finding_line(f, true) == finding_line(f, false),
        f.kind is Check && f.route is Some ==> finding_line(f, true) == shown_finding(f)
            + " [level="@ + f.level.name() + " route="@ + f.route->0 + "]: "@ + f.message,
        f.kind is Check && f.route is None ==> finding_line(f, true) == shown_finding(f)
            + " [level="@ + f.level.name() + " route=-]: "@ + f.message,
{
    reveal_strlit("");
    reveal_strlit(" ");
    reveal_strlit("in");
    reveal_strlit(" `");
    reveal_strlit(" in `");
    reveal_strlit(": ");
    reveal_strlit("]");
    reveal_strlit("]: ");
    reveal_strlit("-");
    reveal_strlit(" route=");
    reveal_strlit(" route=-]: ");
    reveal_strlit("parse-error");
    reveal_strlit("check-error");
    reveal_strlit(": parse-error");
    reveal_strlit(": check-error");
    assert(": "@ + "parse-error"@ =~= ": parse-error"@);
    assert(": "@ + "check-error"@ =~= ": check-error"@);
    assert(" "@ + "in"@ + " `"@ =~= " in `"@);
    assert(finding_line(f, false) =~= shown_finding(f) + ": "@ + f.message);
    if f.kind is Check {
        if f.route is Some {
            assert(finding_line(f, true) =~= shown_finding(f) + " [level="@ + f.level.name()
                + " route="@ + f.route->0 + "]: "@ + f.message);
        } else {
            assert(finding_line(f, true) =~= shown_finding(f) + " [level="@ + f.level.name()
                + " route=-]: "@ + f.message);
        }
    }
}

/// A project that cannot be resolved is told in one line, on standard error, with the reason.
pub proof fn an_unresolved_project_is_one_line(reason: Seq<char>)
    ensures
        unresolved_lines(reason).len() == 1,
        unresolved_lines(reason)[0] == LineView::Stderr("myc-check: resolution-error: "@ + reason),
{
    reveal_strlit("myc-check: ");
    reveal_strlit("resolution-error: ");
    reveal_strlit("myc-check: resolution-error: ");
    assert("myc-check: "@ + ("resolution-error: "@ + reason) =~= "myc-check: resolution-error: "@
        + reason);
}

} // verus!
