//! Findings: what one source's check turned up, and the report over a set of sources.

use vstd::prelude::*;

use crate::order::{
    is_sorted_form, lemma_none_with_key, sort_by_key, sorted_form_is_unique, views, with_key, Keyed,
};
use crate::text::optional_text;

verus! {

/// How much detail a diagnostic is presented with.
#[derive(Debug, PartialEq, Eq)]
pub enum Level {
    /// The least detail.
    Minimal,
    /// Medium detail.
    Medium,
    /// Any other level, by the name that the baseline gives it.
    Named(String),
}

/// The contents of a [`Level`].
pub enum LevelView {
    Minimal,
    Medium,
    Named(Seq<char>),
}

impl View for Level {
    type V = LevelView;

    open spec fn view(&self) -> LevelView {
        match self {
            Level::Minimal => LevelView::Minimal,
            Level::Medium => LevelView::Medium,
            Level::Named(name) => LevelView::Named(name@),
        }
    }
}

impl LevelView {
    /// The level's name.
    pub open spec fn name(self) -> Seq<char> {
        match self {
            LevelView::Minimal => "Minimal"@,
            LevelView::Medium => "Medium"@,
            LevelView::Named(name) => name,
        }
    }
}

impl Clone for Level {
    fn clone(&self) -> (copy: Level)
        ensures
            copy@ == self@,
    {
        match self {
            Level::Minimal => Level::Minimal,
            Level::Medium => Level::Medium,
            Level::Named(name) => Level::Named(name.clone()),
        }
    }
}

impl Level {
    /// The level's name, as diagnostics print it.
    pub fn name(&self) -> (name: &str)
        ensures
            name@ == self@.name(),
    {
        match self {
            Level::Minimal => "Minimal",
            Level::Medium => "Medium",
            Level::Named(name) => name.as_str(),
        }
    }
}

/// What kind of refusal a finding records.
#[derive(Debug, Clone, Copy, PartialEq, Eq, Structural)]
pub enum FindingKind {
    /// A syntactic refusal (parse).
    Parse,
    /// A static-check refusal (type/totality/name/validation).
    Check,
}

/// One aggregated diagnostic.
#[derive(Debug, Clone, PartialEq, Eq)]
pub struct Finding {
    /// The file it occurred in.
    pub file: String,
    /// Parse or check.
    pub kind: FindingKind,
    /// The site within the file (a definition name, or empty for a whole-file parse error).
    pub site: String,
    /// The author-facing message.
    pub message: String,
    /// The baseline presentation level (check refusals; `Minimal` for parse).
    pub level: Level,
    /// The baseline route, if any (check refusals).
    pub route: Option<String>,
}

/// The contents of a [`Finding`].
pub struct FindingView {
    pub file: Seq<char>,
    pub kind: FindingKind,
    pub site: Seq<char>,
    pub message: Seq<char>,
    pub level: LevelView,
    pub route: Option<Seq<char>>,
}

impl View for Finding {
    type V = FindingView;

    open spec fn view(&self) -> FindingView {
        FindingView {
            file: self.file@,
            kind: self.kind,
            site: self.site@,
            message: self.message@,
            level: self.level@,
            route: optional_text(self.route),
        }
    }
}

/// The contents of a list of findings.
pub open spec fn findings_view(findings: Seq<Finding>) -> Seq<FindingView> {
    findings.map_values(|f: Finding| f@)
}

impl Finding {
    /// The finding with its route set to `route`.
    #[must_use]
    pub fn with_route(self, route: String) -> (routed: Finding)
        ensures
            routed@ == (FindingView { route: Some(route@), ..self@ }),
    {
        let mut routed = self;
        routed.route = Some(route);
        routed
    }
}

/// The aggregated result of checking a set of sources.
#[derive(Debug, Clone)]
pub struct Report {
    /// Every finding, deterministically ordered (by file).
    pub findings: Vec<Finding>,
    /// How many files were checked.
    pub files_checked: usize,
}

impl Default for Report {
    /// The report on no files.
    fn default() -> (report: Report)
        ensures
            report.findings@ == Seq::<Finding>::empty(),
            report.files_checked == 0,
    {
        Report { findings: Vec::new(), files_checked: 0 }
    }
}

/// Whether a finding of this kind is among `findings`.
pub open spec fn has_kind(findings: Seq<FindingView>, kind: FindingKind) -> bool {
    exists|i: int| 0 <= i < findings.len() && (#[trigger] findings[i]).kind == kind
}

impl Report {
    /// The report with `finding` appended; the file count stays as it is.
    #[must_use]
    pub fn with_finding(self, finding: Finding) -> (report: Report)
        ensures
            report.findings@ == self.findings@.push(finding),
            report.files_checked == self.files_checked,
    {
        let mut report = self;
        report.findings.push(finding);
        report
    }

    /// The report with its file count set; the findings stay as they are.
    #[must_use]
    pub fn with_files_checked(self, files_checked: usize) -> (report: Report)
        ensures
            report.findings@ == self.findings@,
            report.files_checked == files_checked,
    {
        let mut report = self;
        report.files_checked = files_checked;
        report
    }

    /// Whether the report is clean (no findings).
    #[must_use]
    pub fn is_ok(&self) -> (ok: bool)
        ensures
            ok == (self.findings@.len() == 0),
    {
        self.findings.len() == 0
    }

    /// Whether a finding of this kind is in the report.
    fn has(&self, kind: FindingKind) -> (found: bool)
        ensures
            found == has_kind(findings_view(self.findings@), kind),
    {
        let ghost views = findings_view(self.findings@);
        let mut i: usize = 0;
        while i < self.findings.len()
            invariant
                i <= self.findings.len(),
                views == findings_view(self.findings@),
                forall|k: int| 0 <= k < i ==> (#[trigger] views[k]).kind != kind,
            decreases self.findings.len() - i,
        {
            if self.findings[i].kind == kind {
                assert(views[i as int].kind == kind);
                return true;
            }
            i += 1;
        }
        false
    }

    /// The CI exit code: 2 if any parse error, else 3 if any check error, else 0.
    #[must_use]
    pub fn exit_code(&self) -> (code: u8)
        ensures
            code == report_exit_code(findings_view(self.findings@)),
    {
        if self.has(FindingKind::Parse) {
            2
        } else if self.has(FindingKind::Check) {
            3
        } else {
            0
        }
    }
}

/// The exit code for a list of findings.
pub open spec fn report_exit_code(findings: Seq<FindingView>) -> u8 {
    if has_kind(findings, FindingKind::Parse) {
        2
    } else if has_kind(findings, FindingKind::Check) {
        3
    } else {
        0
    }
}

/// A report exits with zero exactly when it holds no finding.
pub proof fn report_exits_zero_iff_clean(findings: Seq<FindingView>)
    ensures
        report_exit_code(findings) == 0 <==> findings.len() == 0,
{
    if findings.len() > 0 {
        let first = findings[0];
        assert(has_kind(findings, first.kind));
    }
}

/// A refusal of the checker: where, and why.
#[derive(Debug, Clone, PartialEq, Eq)]
pub struct CheckError {
    /// The site, as the checker reports it.
    pub site: String,
    /// The author-facing message.
    pub message: String,
}

/// The contents of a [`CheckError`].
pub struct CheckErrorView {
    pub site: Seq<char>,
    pub message: Seq<char>,
}

impl View for CheckError {
    type V = CheckErrorView;

    open spec fn view(&self) -> CheckErrorView {
        CheckErrorView { site: self.site@, message: self.message@ }
    }
}

/// A check refusal in the form in which the baseline presents it: a class of the registry, by
/// name, with the refusal's message and site.
#[derive(Debug, Clone, PartialEq, Eq)]
pub struct ReasonedError {
    /// The name of the diagnostic class.
    pub class: String,
    /// The refusal's message.
    pub message: String,
    /// The refusal's site.
    pub site: String,
}

/// The contents of a [`ReasonedError`].
pub struct ReasonedErrorView {
    pub class: Seq<char>,
    pub message: Seq<char>,
    pub site: Seq<char>,
}

impl View for ReasonedError {
    type V = ReasonedErrorView;

    open spec fn view(&self) -> ReasonedErrorView {
        ReasonedErrorView { class: self.class@, message: self.message@, site: self.site@ }
    }
}

/// What the baseline is asked to present for a check refusal. The class is the umbrella class of
/// static-check refusals: a site and a message carry no finer class to claim.
pub open spec fn reasoned(error: CheckErrorView) -> ReasonedErrorView {
    ReasonedErrorView { class: "NotValidated"@, message: error.message, site: error.site }
}

/// What the baseline is asked to present for a check refusal.
pub fn reasoned_error(error: &CheckError) -> (question: ReasonedError)
    ensures
        question@ == reasoned(error@),
{
    ReasonedError {
        class: "NotValidated".to_owned(),
        message: error.message.clone(),
        site: error.site.clone(),
    }
}

/// How the kernel answered for one source.
#[derive(Debug, Clone, PartialEq, Eq)]
pub enum SourceReply {
    /// The source does not parse.
    Unparsable {
        /// The parser's message.
        message: String,
    },
    /// The source parses, and the checker refuses it.
    Refused {
        /// The checker's refusal.
        error: CheckError,
        /// The level at which the baseline presents the refusal's [`reasoned_error`].
        level: Level,
        /// The route that the baseline gives it, if any.
        route: Option<String>,
    },
    /// The source parses and checks.
    Accepted,
}

/// The contents of a [`SourceReply`].
pub enum SourceReplyView {
    Unparsable { message: Seq<char> },
    Refused { error: CheckErrorView, level: LevelView, route: Option<Seq<char>> },
    Accepted,
}

impl View for SourceReply {
    type V = SourceReplyView;

    open spec fn view(&self) -> SourceReplyView {
        match self {
            SourceReply::Unparsable { message } => SourceReplyView::Unparsable {
                message: message@,
            },
            SourceReply::Refused { error, level, route } => SourceReplyView::Refused {
                error: error@,
                level: level@,
                route: optional_text(*route),
            },
            SourceReply::Accepted => SourceReplyView::Accepted,
        }
    }
}

/// The finding that a reply for `file` amounts to, if any.
pub open spec fn finding_of(file: Seq<char>, reply: SourceReplyView) -> Option<FindingView> {
    match reply {
        SourceReplyView::Unparsable { message } => Some(
            FindingView {
                file,
                kind: FindingKind::Parse,
                site: Seq::empty(),
                message,
                level: LevelView::Minimal,
                route: None,
            },
        ),
        SourceReplyView::Refused { error, level, route } => Some(
            FindingView {
                file,
                kind: FindingKind::Check,
                site: error.site,
                message: error.message,
                level,
                route,
            },
        ),
        SourceReplyView::Accepted => None,
    }
}

/// Check one source: append the finding that the kernel's reply amounts to, if any. Parse
/// refusals are syntactic and presented minimally; check refusals carry the level and the route
/// of the baseline.
pub fn check_source(file: &str, reply: &SourceReply, out: &mut Vec<Finding>)
    ensures
        match finding_of(file@, reply@) {
            Some(finding) => {
                &&& final(out)@.len() == old(out)@.len() + 1
                &&& final(out)@.drop_last() == old(out)@
                &&& final(out)@.last()@ == finding
            },
            None => final(out)@ == old(out)@,
        },
{
    match reply {
        SourceReply::Unparsable { message } => {
            out.push(
                Finding {
                    file: file.to_owned(),
                    kind: FindingKind::Parse,
                    site: String::new(),
                    message: message.clone(),
                    level: Level::Minimal,
                    route: None,
                },
            );
            assert(out@.drop_last() =~= old(out)@);
        },
        SourceReply::Refused { error, level, route } => {
            out.push(
                Finding {
                    file: file.to_owned(),
                    kind: FindingKind::Check,
                    site: error.site.clone(),
                    message: error.message.clone(),
                    level: level.clone(),
                    route: match route {
                        Some(route) => Some(route.clone()),
                        None => None,
                    },
                },
            );
            assert(out@.drop_last() =~= old(out)@);
        },
        SourceReply::Accepted => {},
    }
}

/// The contents of a list of labelled replies.
pub open spec fn replies_view(sources: Seq<(String, SourceReply)>) -> Seq<
    (Seq<char>, SourceReplyView),
> {
    sources.map_values(|s: (String, SourceReply)| (s.0@, s.1@))
}

/// The findings of a list of sources, in the order of the sources.
pub open spec fn findings_of(sources: Seq<(Seq<char>, SourceReplyView)>) -> Seq<FindingView> {
    sources.filter_map(|s: (Seq<char>, SourceReplyView)| finding_of(s.0, s.1))
}

impl Keyed for Finding {
    open spec fn key_of(view: FindingView) -> Seq<char> {
        view.file
    }

    fn key(&self) -> (key: &str) {
        self.file.as_str()
    }
}

/// Whether `sorted` is `findings` ordered by file, where the findings in one file keep their
/// order.
pub open spec fn is_ordered_by_file(findings: Seq<FindingView>, sorted: Seq<FindingView>) -> bool {
    is_sorted_form(findings, sorted, |f: FindingView| f.file)
}

/// The report on a set of sources, by the kernel's reply for each: the findings, ordered by file.
#[must_use]
pub fn aggregate(sources: &[(String, SourceReply)]) -> (report: Report)
    ensures
        report.files_checked == sources@.len(),
        is_ordered_by_file(findings_of(replies_view(sources@)), findings_view(report.findings@)),
{
    let mut findings: Vec<Finding> = Vec::new();
    let ghost all = replies_view(sources@);
    let mut i: usize = 0;
    assert(findings_of(all.take(0)) =~= findings_view(findings@));
    while i < sources.len()
        invariant
            i <= sources.len(),
            all == replies_view(sources@),
            findings_view(findings@) == findings_of(all.take(i as int)),
        decreases sources.len() - i,
    {
        let ghost before = findings@;
        let (file, reply) = &sources[i];
        check_source(file.as_str(), reply, &mut findings);
        proof {
            let next = all.take(i + 1);
            assert(next.drop_last() =~= all.take(i as int));
            assert(next.last() == (file@, reply@));
            match finding_of(file@, reply@) {
                Some(finding) => {
                    assert(findings@ =~= before.push(findings@.last()));
                    assert(findings_view(findings@) =~= findings_view(before) + seq![finding]);
                },
                None => {},
            }
        }
        i += 1;
    }
    assert(all.take(sources.len() as int) =~= all);
    let ghost unsorted = findings@;
    let findings = sort_by_key(findings);
    assert((|v: FindingView| Finding::key_of(v)) =~= (|f: FindingView| f.file));
    assert(views(unsorted) =~= findings_view(unsorted));
    assert(views(findings@) =~= findings_view(findings@));
    Report { findings, files_checked: sources.len() }
}

/// The findings of a list of sources are those of its replies, and no more than there are sources
/// that were not accepted.
proof fn lemma_findings_of(sources: Seq<(Seq<char>, SourceReplyView)>)
    ensures
        forall|i: int|
            0 <= i < sources.len() && finding_of(
                (#[trigger] sources[i]).0,
                sources[i].1,
            ) is Some ==> findings_of(sources).contains(
                finding_of(sources[i].0, sources[i].1)->0,
            ),
        forall|f: FindingView| #[trigger]
            findings_of(sources).contains(f) ==> exists|i: int|
                0 <= i < sources.len() && finding_of((#[trigger] sources[i]).0, sources[i].1)
                    == Some(f),
        findings_of(sources).len() == sources.filter(
            |s: (Seq<char>, SourceReplyView)| !(s.1 is Accepted),
        ).len(),
    decreases sources.len(),
{
    reveal(Seq::filter);
    if sources.len() > 0 {
        let shorter = sources.drop_last();
        let last = sources.last();
        lemma_findings_of(shorter);
        let all = findings_of(sources);
        let earlier = findings_of(shorter);
        assert forall|i: int|
            0 <= i < sources.len() && finding_of(
                (#[trigger] sources[i]).0,
                sources[i].1,
            ) is Some implies all.contains(finding_of(sources[i].0, sources[i].1)->0) by {
            let f = finding_of(sources[i].0, sources[i].1)->0;
            if i < shorter.len() {
                assert(shorter[i] == sources[i]);
                assert(earlier.contains(f));
                let at = choose|at: int| 0 <= at < earlier.len() && earlier[at] == f;
                assert(all[at] == f);
            } else {
                assert(all[earlier.len() as int] == f);
            }
        }
        assert forall|f: FindingView| #[trigger] all.contains(f) implies exists|i: int|
            0 <= i < sources.len() && finding_of((#[trigger] sources[i]).0, sources[i].1) == Some(
                f,
            ) by {
            let at = choose|at: int| 0 <= at < all.len() && all[at] == f;
            if at < earlier.len() {
                assert(earlier[at] == f);
                assert(earlier.contains(f));
                let i = choose|i: int|
                    0 <= i < shorter.len() && finding_of((#[trigger] shorter[i]).0, shorter[i].1)
                        == Some(f);
                assert(sources[i] == shorter[i]);
            } else {
                assert(finding_of(sources[sources.len() - 1].0, last.1) == Some(f));
            }
        }
    }
}

/// A report on sources holds what was found and nothing else: each source that was not accepted
/// has its finding in it, each finding in it is that of a source, and there is one for each
/// source that was not accepted.
pub proof fn report_holds_each_refusal(
    sources: Seq<(Seq<char>, SourceReplyView)>,
    findings: Seq<FindingView>,
)
    requires
        is_ordered_by_file(findings_of(sources), findings),
    ensures
        forall|i: int|
            0 <= i < sources.len() && finding_of(
                (#[trigger] sources[i]).0,
                sources[i].1,
            ) is Some ==> findings.contains(finding_of(sources[i].0, sources[i].1)->0),
        forall|f: FindingView| #[trigger]
            findings.contains(f) ==> exists|i: int|
                0 <= i < sources.len() && finding_of((#[trigger] sources[i]).0, sources[i].1)
                    == Some(f),
        findings.len() == sources.filter(
            |s: (Seq<char>, SourceReplyView)| !(s.1 is Accepted),
        ).len(),
{
    lemma_findings_of(sources);
    let unsorted = findings_of(sources);
    vstd::seq_lib::to_multiset_len(findings);
    vstd::seq_lib::to_multiset_len(unsorted);
    assert forall|f: FindingView| #[trigger] findings.contains(f) <==> unsorted.contains(f) by {
        vstd::seq_lib::to_multiset_contains(findings, f);
        vstd::seq_lib::to_multiset_contains(unsorted, f);
    }
}

/// The exit code of a report on sources: 2 if one of them does not parse, else 3 if one of them is
/// refused by the checker, else 0. No refusal passes silently.
pub proof fn exit_code_tells_the_worst_reply(
    sources: Seq<(Seq<char>, SourceReplyView)>,
    findings: Seq<FindingView>,
)
    requires
        is_ordered_by_file(findings_of(sources), findings),
    ensures
        report_exit_code(findings) == 2 <==> exists|i: int|
            0 <= i < sources.len() && (#[trigger] sources[i]).1 is Unparsable,
        report_exit_code(findings) == 3 <==> {
            &&& forall|i: int|
                0 <= i < sources.len() ==> !((#[trigger] sources[i]).1 is Unparsable)
            &&& exists|i: int| 0 <= i < sources.len() && (#[trigger] sources[i]).1 is Refused
        },
        report_exit_code(findings) == 0 <==> forall|i: int|
            0 <= i < sources.len() ==> (#[trigger] sources[i]).1 is Accepted,
{
    report_holds_each_refusal(sources, findings);
    assert forall|i: int|
        0 <= i < sources.len() && !((#[trigger] sources[i]).1 is Accepted) implies {
        &&& sources[i].1 is Unparsable ==> has_kind(findings, FindingKind::Parse)
        &&& sources[i].1 is Refused ==> has_kind(findings, FindingKind::Check)
    } by {
        let f = finding_of(sources[i].0, sources[i].1)->0;
        assert(findings.contains(f));
        let at = choose|at: int| 0 <= at < findings.len() && findings[at] == f;
        assert(findings[at].kind == f.kind);
    }
    assert forall|k: int| 0 <= k < findings.len() implies exists|i: int|
        0 <= i < sources.len() && finding_of((#[trigger] sources[i]).0, sources[i].1) == Some(
            #[trigger] findings[k],
        ) by {
        assert(findings.contains(findings[k]));
    }
    if has_kind(findings, FindingKind::Parse) {
        let k = choose|k: int|
            0 <= k < findings.len() && (#[trigger] findings[k]).kind == FindingKind::Parse;
        let i = choose|i: int|
            0 <= i < sources.len() && finding_of((#[trigger] sources[i]).0, sources[i].1) == Some(
                findings[k],
            );
        assert(sources[i].1 is Unparsable);
    }
    if has_kind(findings, FindingKind::Check) {
        let k = choose|k: int|
            0 <= k < findings.len() && (#[trigger] findings[k]).kind == FindingKind::Check;
        let i = choose|i: int|
            0 <= i < sources.len() && finding_of((#[trigger] sources[i]).0, sources[i].1) == Some(
                findings[k],
            );
        assert(sources[i].1 is Refused);
    }
}

/// In a list of sources with distinct labels, the findings in a file are those of the one source
/// with that label.
proof fn lemma_findings_in_labelled(
    sources: Seq<(Seq<char>, SourceReplyView)>,
    i: int,
)
    requires
        0 <= i < sources.len(),
        forall|a: int, b: int|
            0 <= a < b < sources.len() ==> (#[trigger] sources[a]).0 != (#[trigger] sources[b]).0,
    ensures
        with_key(findings_of(sources), |f: FindingView| f.file, sources[i].0) == (
        match finding_of(sources[i].0, sources[i].1) {
            Some(f) => seq![f],
            None => seq![],
        }),
    decreases sources.len(),
{
    reveal(Seq::filter);
    let key = |f: FindingView| f.file;
    let shorter = sources.drop_last();
    let last = sources.last();
    let earlier = findings_of(shorter);
    if i < shorter.len() {
        assert(shorter[i] == sources[i]);
        lemma_findings_in_labelled(shorter, i);
        assert(sources[i].0 != sources[sources.len() - 1].0);
        match finding_of(last.0, last.1) {
            Some(f) => {
                assert(findings_of(sources) =~= earlier.push(f));
                assert(earlier.push(f).drop_last() =~= earlier);
            },
            None => {},
        }
    } else {
        lemma_findings_of(shorter);
        assert forall|k: int| 0 <= k < earlier.len() implies (#[trigger] earlier[k]).file
            != last.0 by {
            assert(earlier.contains(earlier[k]));
            let a = choose|a: int|
                0 <= a < shorter.len() && finding_of((#[trigger] shorter[a]).0, shorter[a].1)
                    == Some(earlier[k]);
            assert(sources[a] == shorter[a]);
            assert(sources[a].0 != sources[sources.len() - 1].0);
        }
        lemma_none_with_key(earlier, key, last.0);
        match finding_of(last.0, last.1) {
            Some(f) => {
                assert(findings_of(sources) =~= earlier.push(f));
                assert(earlier.push(f).drop_last() =~= earlier);
            },
            None => {},
        }
    }
}

/// The order in which sources with distinct labels are given does not show in the report: two
/// orders of the same sources have the same findings, in the same order.
pub proof fn order_of_sources_does_not_show(
    a: Seq<(Seq<char>, SourceReplyView)>,
    b: Seq<(Seq<char>, SourceReplyView)>,
    findings_a: Seq<FindingView>,
    findings_b: Seq<FindingView>,
)
    requires
        a.to_multiset() == b.to_multiset(),
        forall|i: int, j: int|
            0 <= i < j < a.len() ==> (#[trigger] a[i]).0 != (#[trigger] a[j]).0,
        is_ordered_by_file(findings_of(a), findings_a),
        is_ordered_by_file(findings_of(b), findings_b),
    ensures
        findings_a == findings_b,
{
    let key = |f: FindingView| f.file;
    assert forall|s: (Seq<char>, SourceReplyView)|
        #![trigger a.contains(s)]
        #![trigger b.contains(s)]
        a.contains(s) <==> b.contains(s) by {
        vstd::seq_lib::to_multiset_contains(a, s);
        vstd::seq_lib::to_multiset_contains(b, s);
    }
    a.lemma_multiset_has_no_duplicates();
    b.lemma_multiset_has_no_duplicates_conv();
    assert forall|i: int, j: int| 0 <= i < j < b.len() implies (#[trigger] b[i]).0 != (
    #[trigger] b[j]).0 by {
        assert(a.contains(b[i]) && a.contains(b[j])) by {
            assert(b.contains(b[i]) && b.contains(b[j]));
        }
        let x = choose|x: int| 0 <= x < a.len() && a[x] == b[i];
        let y = choose|y: int| 0 <= y < a.len() && a[y] == b[j];
        assert(b[i] != b[j]);
        if x < y {
            assert(a[x].0 != a[y].0);
        } else {
            assert(a[y].0 != a[x].0);
        }
    }
    assert forall|file: Seq<char>| #[trigger]
        with_key(findings_a, key, file) == with_key(findings_b, key, file) by {
        assert(with_key(findings_a, key, file) == with_key(findings_of(a), key, file));
        assert(with_key(findings_b, key, file) == with_key(findings_of(b), key, file));
        if exists|i: int| 0 <= i < a.len() && (#[trigger] a[i]).0 == file {
            let i = choose|i: int| 0 <= i < a.len() && (#[trigger] a[i]).0 == file;
            assert(a.contains(a[i]));
            let j = choose|j: int| 0 <= j < b.len() && b[j] == a[i];
            lemma_findings_in_labelled(a, i);
            lemma_findings_in_labelled(b, j);
        } else {
            lemma_no_findings_without_source(a, file);
            assert forall|j: int| 0 <= j < b.len() implies (#[trigger] b[j]).0 != file by {
                assert(b.contains(b[j]));
                let i = choose|i: int| 0 <= i < a.len() && a[i] == b[j];
                assert(a[i].0 != file);
            }
            lemma_no_findings_without_source(b, file);
        }
    }
    sorted_form_is_unique(findings_a, findings_b, key);
}

/// There are no findings in a file that no source is labelled with.
proof fn lemma_no_findings_without_source(
    sources: Seq<(Seq<char>, SourceReplyView)>,
    file: Seq<char>,
)
    requires
        forall|i: int| 0 <= i < sources.len() ==> (#[trigger] sources[i]).0 != file,
    ensures
        with_key(findings_of(sources), |f: FindingView| f.file, file)
            == Seq::<FindingView>::empty(),
{
    lemma_findings_of(sources);
    let all = findings_of(sources);
    assert forall|k: int| 0 <= k < all.len() implies (#[trigger] all[k]).file != file by {
        assert(all.contains(all[k]));
    }
    lemma_none_with_key(all, |f: FindingView| f.file, file);
}

} // verus!
