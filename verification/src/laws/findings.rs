//! Laws of findings: what each source's check turns up, and how a report holds it.

use vstd::prelude::*;
use vstd::string::*;

use crate::diagnostics::{
    finding_of, findings_of, has_kind, is_ordered_by_file, report_exit_code,
    report_holds_each_refusal, CheckErrorView, FindingKind, FindingView, LevelView,
    ReasonedErrorView, SourceReplyView,
};
use crate::laws::texts::a_sorted_form_is_ordered_and_stable;
use crate::sources::{
    exchange_ends_with_every_reply, SourceActionView, SourceKernel, SourcesProgress,
};
use crate::text::text_le;

verus! {

/// The findings on the sources that a kernel has answered on, in the order of a report.
pub open spec fn are_the_findings(
    kernel: SourceKernel,
    sources: Seq<(Seq<char>, Seq<char>)>,
    findings: Seq<FindingView>,
) -> bool {
    is_ordered_by_file(
        findings_of(SourcesProgress::start(sources).steps(kernel, 3 * sources.len()).labelled()),
        findings,
    )
}

/// A source that does not parse has its finding: under its label, with the parser's message, without
/// a site, presented minimally and with no route.
pub proof fn an_unparsable_source_has_its_finding(
    kernel: SourceKernel,
    sources: Seq<(Seq<char>, Seq<char>)>,
    findings: Seq<FindingView>,
    i: int,
)
    requires
        are_the_findings(kernel, sources, findings),
        0 <= i < sources.len(),
        (kernel.parse)(sources[i].1) is Err,
    ensures
        exists|k: int|
            0 <= k < findings.len() && {
                let f = #[trigger] findings[k];
                &&& f.file == sources[i].0
                &&& f.kind is Parse
                &&& f.site.len() == 0
                &&& f.message == (kernel.parse)(sources[i].1)->Err_0
                &&& f.level is Minimal
                &&& f.route is None
            },
{
    lemma_found(kernel, sources, findings, i);
}

/// A source that parses and does not check has its finding: under its label, with the checker's own
/// site and message, and with the level and the route that the baseline gives the refusal under the
/// umbrella class of static checks.
pub proof fn a_refused_source_has_its_finding(
    kernel: SourceKernel,
    sources: Seq<(Seq<char>, Seq<char>)>,
    findings: Seq<FindingView>,
    i: int,
)
    requires
        are_the_findings(kernel, sources, findings),
        0 <= i < sources.len(),
        (kernel.parse)(sources[i].1) is Ok,
        (kernel.check)(sources[i].1) is Err,
    ensures
        ({
            let error = (kernel.check)(sources[i].1)->Err_0;
            let shown = (kernel.present)(
                ReasonedErrorView {
                    class: "NotValidated"@,
                    message: error.message,
                    site: error.site,
                },
            );
            exists|k: int|
                0 <= k < findings.len() && {
                    let f = #[trigger] findings[k];
                    &&& f.file == sources[i].0
                    &&& f.kind is Check
                    &&& f.site == error.site
                    &&& f.message == error.message
                    &&& f.level == shown.0
                    &&& f.route == shown.1
                }
        }),
{
    lemma_found(kernel, sources, findings, i);
}

proof fn lemma_found(
    kernel: SourceKernel,
    sources: Seq<(Seq<char>, Seq<char>)>,
    findings: Seq<FindingView>,
    i: int,
)
    requires
        are_the_findings(kernel, sources, findings),
        0 <= i < sources.len(),
    ensures
        finding_of(sources[i].0, kernel.reply(sources[i].1)) is Some ==> exists|k: int|
            0 <= k < findings.len() && #[trigger] findings[k] == finding_of(
                sources[i].0,
                kernel.reply(sources[i].1),
            )->0,
{
    exchange_ends_with_every_reply(sources, kernel);
    let replies = kernel.replies(sources);
    report_holds_each_refusal(replies, findings);
    assert(replies[i] == (sources[i].0, kernel.reply(sources[i].1)));
    if finding_of(sources[i].0, kernel.reply(sources[i].1)) is Some {
        let f = finding_of(replies[i].0, replies[i].1)->0;
        assert(findings.contains(f));
        let k = choose|k: int| 0 <= k < findings.len() && findings[k] == f;
        assert(findings[k] == f);
    }
}

/// A report invents nothing: each finding is that of a source, which does not parse or does not
/// check, and there are as many findings as there are such sources.
pub proof fn each_finding_is_that_of_a_source(
    kernel: SourceKernel,
    sources: Seq<(Seq<char>, Seq<char>)>,
    findings: Seq<FindingView>,
    refused: spec_fn((Seq<char>, Seq<char>)) -> bool,
    k: int,
)
    requires
        are_the_findings(kernel, sources, findings),
        forall|s: (Seq<char>, Seq<char>)| #[trigger]
            refused(s) <==> (kernel.parse)(s.1) is Err || (kernel.check)(s.1) is Err,
    ensures
        findings.len() == sources.filter(refused).len(),
        0 <= k < findings.len() ==> exists|i: int|
            0 <= i < sources.len() && refused(#[trigger] sources[i]) && findings[k].file
                == sources[i].0 && (findings[k].kind is Parse <==> (kernel.parse)(
                sources[i].1,
            ) is Err),
{
    exchange_ends_with_every_reply(sources, kernel);
    let replies = kernel.replies(sources);
    report_holds_each_refusal(replies, findings);
    lemma_as_many(kernel, sources, refused);
    if 0 <= k < findings.len() {
        assert(findings.contains(findings[k]));
        let i = choose|i: int|
            0 <= i < replies.len() && finding_of((#[trigger] replies[i]).0, replies[i].1) == Some(
                findings[k],
            );
        assert(replies[i] == (sources[i].0, kernel.reply(sources[i].1)));
        assert(refused(sources[i]));
    }
}

proof fn lemma_as_many(
    kernel: SourceKernel,
    sources: Seq<(Seq<char>, Seq<char>)>,
    refused: spec_fn((Seq<char>, Seq<char>)) -> bool,
)
    requires
        forall|s: (Seq<char>, Seq<char>)| #[trigger]
            refused(s) <==> (kernel.parse)(s.1) is Err || (kernel.check)(s.1) is Err,
    ensures
        kernel.replies(sources).filter(
            |s: (Seq<char>, SourceReplyView)| !(s.1 is Accepted),
        ).len() == sources.filter(refused).len(),
    decreases sources.len(),
{
    reveal(Seq::filter);
    if sources.len() > 0 {
        let shorter = sources.drop_last();
        lemma_as_many(kernel, shorter, refused);
        assert(kernel.replies(sources).drop_last() =~= kernel.replies(shorter));
        assert(kernel.replies(sources).last() == (
            sources.last().0,
            kernel.reply(sources.last().1),
        ));
        assert(refused(sources.last()) <==> (kernel.parse)(sources.last().1) is Err || (
        kernel.check)(sources.last().1) is Err);
    }
}

/// The findings of a report stand in the order of the files; those in one file keep the order in
/// which they were found.
pub proof fn findings_stand_in_the_order_of_the_files(
    found: Seq<FindingView>,
    findings: Seq<FindingView>,
    file: Seq<char>,
    in_file: spec_fn(FindingView) -> bool,
    i: int,
    j: int,
)
    requires
        is_ordered_by_file(found, findings),
        forall|f: FindingView| #[trigger] in_file(f) <==> f.file == file,
    ensures
        findings.len() == found.len(),
        findings.to_multiset() == found.to_multiset(),
        0 <= i < j < findings.len() ==> text_le(findings[i].file, findings[j].file),
        findings.filter(in_file) == found.filter(in_file),
{
    let key = |f: FindingView| f.file;
    a_sorted_form_is_ordered_and_stable(found, findings, findings, key, file, in_file, i, j);
}

/// What a reply for a file amounts to: nothing where the source was accepted, and else a finding
/// under the file's label with what the reply says.
pub proof fn a_finding_says_what_the_reply_says(file: Seq<char>, reply: SourceReplyView)
    ensures
        finding_of(file, reply) is None <==> reply is Accepted,
        !(reply is Accepted) ==> finding_of(file, reply)->0.file == file,
        reply is Unparsable ==> {
            let f = finding_of(file, reply)->0;
            &&& f.kind is Parse
            &&& f.message == reply->message
            &&& f.site.len() == 0
            &&& f.level is Minimal
            &&& f.route is None
        },
        reply is Refused ==> {
            let f = finding_of(file, reply)->0;
            &&& f.kind is Check
            &&& f.site == reply->error.site
            &&& f.message == reply->error.message
            &&& f.level == reply->level
            &&& f.route == reply->route
        },
{
}

/// The findings on a list of sources are those on its parts, in their order.
pub proof fn findings_come_source_by_source(
    a: Seq<(Seq<char>, SourceReplyView)>,
    b: Seq<(Seq<char>, SourceReplyView)>,
    file: Seq<char>,
    reply: SourceReplyView,
)
    ensures
        findings_of(a + b) == findings_of(a) + findings_of(b),
        findings_of(seq![(file, reply)]) == (match finding_of(file, reply) {
            Some(f) => seq![f],
            None => seq![],
        }),
        findings_of(seq![]).len() == 0,
    decreases b.len(),
{
    let one = seq![(file, reply)];
    let none = Seq::<(Seq<char>, SourceReplyView)>::empty();
    assert(findings_of(none) =~= Seq::<FindingView>::empty());
    assert(one.drop_last() =~= none);
    assert(one.last() == (file, reply));
    assert(findings_of(one) =~= (match finding_of(file, reply) {
        Some(f) => seq![f],
        None => seq![],
    }));
    if b.len() == 0 {
        assert(b =~= none);
        assert(a + b =~= a);
        assert(findings_of(a) + findings_of(b) =~= findings_of(a));
    } else {
        findings_come_source_by_source(a, b.drop_last(), file, reply);
        assert((a + b).drop_last() =~= a + b.drop_last());
        assert((a + b).last() == b.last());
        assert(findings_of(a + b) =~= findings_of(a) + findings_of(b));
    }
}

/// The exit code of a report: 2 if any finding is of a source that does not parse, else 3 if there
/// is any finding, else 0.
pub proof fn the_exit_code_tells_the_worst_finding(findings: Seq<FindingView>)
    ensures
        report_exit_code(findings) == 2 <==> exists|i: int|
            0 <= i < findings.len() && (#[trigger] findings[i]).kind is Parse,
        report_exit_code(findings) == 0 <==> findings.len() == 0,
        report_exit_code(findings) == 3 <==> findings.len() > 0 && forall|i: int|
            0 <= i < findings.len() ==> (#[trigger] findings[i]).kind is Check,
{
    if findings.len() > 0 {
        assert(has_kind(findings, findings[0].kind));
    }
    if exists|i: int| 0 <= i < findings.len() && (#[trigger] findings[i]).kind is Parse {
        let i = choose|i: int| 0 <= i < findings.len() && (#[trigger] findings[i]).kind is Parse;
        assert(findings[i].kind == FindingKind::Parse);
    }
    if has_kind(findings, FindingKind::Parse) {
        let i = choose|i: int|
            0 <= i < findings.len() && (#[trigger] findings[i]).kind == FindingKind::Parse;
        assert(findings[i].kind is Parse);
    }
}

/// The level that a finding shows is the baseline's own name for it.
pub proof fn a_level_shows_its_name(name: Seq<char>)
    ensures
        LevelView::Minimal.name() == "Minimal"@,
        LevelView::Medium.name() == "Medium"@,
        LevelView::Named(name).name() == name,
{
}

/// Each source is asked about in its turn: it is parsed; only if it parses is it checked; only if it
/// is refused is the refusal presented, under the umbrella class, with its own message and site.
/// Then comes the next source.
pub proof fn sources_are_asked_about_in_turn(
    p: SourcesProgress,
    message: Seq<char>,
    error: CheckErrorView,
    level: LevelView,
    route: Option<Seq<char>>,
)
    requires
        p.replies.len() < p.sources.len(),
        p.stage is Unparsed,
    ensures
        ({
            let n = p.replies.len();
            let parsed = p.after_parse(Ok(()));
            let refused = parsed.after_check(Err(error));
            let next = refused.after_present(level, route);
            &&& p.action() == SourceActionView::Parse(n as int)
            &&& p.after_parse(Err(message)).replies == p.replies.push(
                SourceReplyView::Unparsable { message },
            )
            &&& p.after_parse(Err(message)).stage is Unparsed
            &&& parsed.action() == SourceActionView::Check(n as int)
            &&& parsed.after_check(Ok(())).replies == p.replies.push(SourceReplyView::Accepted)
            &&& parsed.after_check(Ok(())).stage is Unparsed
            &&& refused.action() == SourceActionView::Present(
                ReasonedErrorView {
                    class: "NotValidated"@,
                    message: error.message,
                    site: error.site,
                },
            )
            &&& next.replies == p.replies.push(SourceReplyView::Refused { error, level, route })
            &&& next.stage is Unparsed
            &&& next.sources == p.sources
            &&& n + 1 == p.sources.len() ==> next.action() is Finished
        }),
{
}

} // verus!
