//! Laws of views: what a contract says of a value's contents, it says of the value's own fields.

use vstd::prelude::*;

use crate::cli::{Mode, ModeView, Options, ProjectDir};
use crate::diagnostics::{
    findings_view, replies_view, CheckError, Finding, Level, LevelView, ReasonedError, SourceReply,
    SourceReplyView,
};
use crate::oracle::Verdict;
use crate::order::views;
use crate::output::{lines_view, Line, LineView};
use crate::phylum::{
    outcome_view, outcomes_view, verdicts_view, NoduleClass, NoduleClassView, NoduleVerdict, PhylumError,
    PhylumReport,
};
use crate::project::Entry;
use crate::session::{labels, parse_view, PhylumAction, PhylumActionView};
use crate::sources::{parse_answer, SourceAction, SourceActionView};
use crate::syntax::Nodule;
use crate::text::{optional_text, sources_view, texts};

verus! {

/// The contents of lists and options of texts are those texts, in their places.
pub proof fn lists_of_texts_are_seen_as_they_are(
    strings: Seq<String>,
    sources: Seq<(String, String)>,
    s: String,
    i: int,
)
    ensures
        texts(strings).len() == strings.len(),
        0 <= i < strings.len() ==> texts(strings)[i] == strings[i]@,
        sources_view(sources).len() == sources.len(),
        0 <= i < sources.len() ==> sources_view(sources)[i].0 == sources[i].0@
            && sources_view(sources)[i].1 == sources[i].1@,
        optional_text(Some(s)) == Some(s@),
        optional_text(None) is None,
{
}

/// A finding is seen by its fields, and so are the findings of a list, in their places.
pub proof fn findings_are_seen_as_they_are(f: Finding, findings: Seq<Finding>, name: String, i: int)
    ensures
        f@.file == f.file@,
        f@.kind == f.kind,
        f@.site == f.site@,
        f@.message == f.message@,
        f@.level == f.level@,
        f@.route == optional_text(f.route),
        findings_view(findings).len() == findings.len(),
        0 <= i < findings.len() ==> findings_view(findings)[i] == findings[i]@,
        Level::Minimal@ is Minimal,
        Level::Medium@ is Medium,
        Level::Named(name)@ == LevelView::Named(name@),
{
}

/// Refusals of the checker, and replies on sources, are seen by their fields.
pub proof fn replies_are_seen_as_they_are(
    e: CheckError,
    r: ReasonedError,
    level: Level,
    route: Option<String>,
    message: String,
)
    ensures
        e@.site == e.site@,
        e@.message == e.message@,
        r@.class == r.class@,
        r@.message == r.message@,
        r@.site == r.site@,
        (SourceReply::Unparsable { message })@ == (SourceReplyView::Unparsable { message: message@ }),
        (SourceReply::Refused { error: e, level, route })@ == (SourceReplyView::Refused {
            error: e@,
            level: level@,
            route: optional_text(route),
        }),
        SourceReply::Accepted@ is Accepted,
        outcome_view(Ok(())) is Ok,
        outcome_view(Err(e)) == Err::<(), _>(e@),
{
}

/// A report on a phylum is seen by its fields, and so are its refusal and its verdicts.
pub proof fn phylum_reports_are_seen_as_they_are(
    report: PhylumReport,
    e: PhylumError,
    v: NoduleVerdict,
    site: String,
    message: String,
    i: int,
)
    ensures
        report@.ok == report.ok,
        report@.files_checked == report.files_checked,
        report.error is None <==> report@.error is None,
        report.error is Some ==> report@.error == Some(report.error->0@),
        report@.nodules.len() == report.nodules@.len(),
        0 <= i < report.nodules@.len() ==> report@.nodules[i] == report.nodules@[i]@,
        verdicts_view(report.nodules@) == report@.nodules,
        e@.kind == e.kind,
        e@.site == e.site@,
        e@.message == e.message@,
        v@.nodule == v.nodule@,
        v@.file == v.file@,
        v@.class == v.class@,
        NoduleClass::Clean@ is Clean,
        (NoduleClass::CheckError { site, message })@ == (NoduleClassView::CheckError {
            site: site@,
            message: message@,
        }),
        (NoduleClass::Blocked { on: site, message })@ == (NoduleClassView::Blocked {
            on: site@,
            message: message@,
        }),
{
}

/// Lines and verdicts of the oracle are seen as what is printed, and where.
pub proof fn lines_are_seen_as_they_are(verdict: Verdict, lines: Seq<Line>, s: String, i: int)
    ensures
        verdict@.line == optional_text(verdict.line),
        verdict@.code == verdict.code,
        lines_view(lines).len() == lines.len(),
        0 <= i < lines.len() ==> lines_view(lines)[i] == lines[i]@,
        Line::Stdout(s)@ == LineView::Stdout(s@),
        Line::Stderr(s)@ == LineView::Stderr(s@),
{
}

/// Entries, options and modes are seen by their fields.
pub proof fn inputs_are_seen_as_they_are<P>(entry: Entry<P>, options: Options, s: String, b: bool)
    ensures
        entry@.path == entry.path,
        entry@.key == entry.key@,
        entry@.name == entry.name@,
        entry@.is_dir == entry.is_dir,
        entry@.extension == optional_text(entry.extension),
        options@.expect_main == optional_text(options.expect_main),
        options@.project == optional_text(options.project),
        options@.config == optional_text(options.config),
        options@.phylum == optional_text(options.phylum),
        options@.explain == options.explain,
        options@.json == options.json,
        options@.path == optional_text(options.path),
        (Mode::Phylum { dir: s, json: b })@ == (ModeView::Phylum { dir: s@, json: b }),
        (Mode::Project { place: ProjectDir::Dir(s), explain: b })@ == (ModeView::ProjectDir {
            dir: s@,
            explain: b,
        }),
        (Mode::Project { place: ProjectDir::OfConfig(s), explain: b })@ == (ModeView::ProjectConfig {
            config: s@,
            explain: b,
        }),
        (Mode::Oracle { path: s, expect_main: options.expect_main })@ == (ModeView::Oracle {
            path: s@,
            expect_main: optional_text(options.expect_main),
        }),
        Mode::Usage@ is Usage,
{
}

/// Questions to the kernel are seen as what is asked.
pub proof fn questions_are_seen_as_they_are(i: usize, members: Vec<usize>, r: ReasonedError)
    ensures
        PhylumAction::Parse(i)@ == PhylumActionView::Parse(i as int),
        PhylumAction::Check(members)@ == PhylumActionView::Check(members@),
        PhylumAction::Finished@ is Finished,
        SourceAction::Parse(i)@ == SourceActionView::Parse(i as int),
        SourceAction::Check(i)@ == SourceActionView::Check(i as int),
        SourceAction::Present(r)@ == SourceActionView::Present(r@),
        SourceAction::Finished@ is Finished,
{
}

/// Lists of values are seen value by value, and answers of the kernel as what was answered.
pub proof fn answers_are_seen_as_they_are<T: View>(
    items: Seq<T>,
    replies: Seq<(String, SourceReply)>,
    outcomes: Seq<Result<(), CheckError>>,
    sources: Seq<(Seq<char>, Seq<char>)>,
    nodule: Nodule,
    message: String,
    i: int,
)
    ensures
        views(items).len() == items.len(),
        0 <= i < items.len() ==> views(items)[i] == items[i]@,
        replies_view(replies).len() == replies.len(),
        0 <= i < replies.len() ==> replies_view(replies)[i] == (replies[i].0@, replies[i].1@),
        outcomes_view(outcomes).len() == outcomes.len(),
        0 <= i < outcomes.len() ==> outcomes_view(outcomes)[i] == outcome_view(outcomes[i]),
        labels(sources).len() == sources.len(),
        0 <= i < sources.len() ==> labels(sources)[i] == sources[i].0,
        parse_view(Ok(nodule)) == Ok::<Nodule, Seq<char>>(nodule),
        parse_view(Err(message)) == Err::<Nodule, Seq<char>>(message@),
        parse_answer(Ok(())) is Ok,
        parse_answer(Err(message)) == Err::<(), Seq<char>>(message@),
{
}

} // verus!
