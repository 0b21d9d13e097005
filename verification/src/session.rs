//! Checking a set of sources as one phylum: the questions put to the kernel, one after the other,
//! and the report that its answers amount to.
//!
//! The kernel's check of a phylum is all or nothing. A phylum that is refused as a whole still
//! gets a verdict for each nodule: the check is put again for each nodule's import closure, which
//! is the part of the phylum that the nodule rests on.

use vstd::prelude::*;
use vstd::string::*;

use crate::closure::{
    build_use_edges, closure_follows_imports, closure_holds_its_nodule, closure_is_transitive,
    closure_lists_the_reachable, closure_stays_in_the_batch, edges_hold_the_import_relation,
    graph_of, nodule_path, nodule_paths, paths_of, sub_phylum, use_graph, UseGraph,
};
use crate::diagnostics::{CheckError, CheckErrorView};
use crate::phylum::{
    compute_partial_verdicts, encloses, is_site_owner, outcome_view, outcomes_view, owner_of,
    partial_verdicts, verdicts_view, NoduleClass, NoduleClassView, NoduleVerdict,
    NoduleVerdictView, PhylumError, PhylumErrorKind, PhylumErrorView, PhylumReport,
    PhylumReportView,
};
use crate::syntax::Nodule;
use crate::text::{copy_sources, sources_view, texts};

verus! {

/// What is to be asked of the kernel next.
#[derive(Debug, PartialEq, Eq)]
pub enum PhylumAction {
    /// Parse the source at this place.
    Parse(usize),
    /// Check the phylum made of the nodules at these places, in this order.
    Check(Vec<usize>),
    /// Nothing: the report is there.
    Finished,
}

/// The contents of a [`PhylumAction`].
pub enum PhylumActionView {
    Parse(int),
    Check(Seq<usize>),
    Finished,
}

impl View for PhylumAction {
    type V = PhylumActionView;

    open spec fn view(&self) -> PhylumActionView {
        match self {
            PhylumAction::Parse(i) => PhylumActionView::Parse(*i as int),
            PhylumAction::Check(members) => PhylumActionView::Check(members@),
            PhylumAction::Finished => PhylumActionView::Finished,
        }
    }
}

/// The labels of a list of sources.
pub open spec fn labels(sources: Seq<(Seq<char>, Seq<char>)>) -> Seq<Seq<char>> {
    sources.map_values(|s: (Seq<char>, Seq<char>)| s.0)
}

/// The places of a batch of `n` nodules, in order.
pub open spec fn everyone(n: nat) -> Seq<usize> {
    Seq::new(n, |i: int| i as usize)
}

/// Whether the path at place `j` is the first that stands at an earlier place too.
pub open spec fn is_first_repeat(paths: Seq<Seq<char>>, j: int) -> bool {
    &&& 0 <= j < paths.len()
    &&& paths.take(j).no_duplicates()
    &&& paths.take(j).contains(paths[j])
}

/// The first path that is declared a second time.
pub open spec fn repeated_path(paths: Seq<Seq<char>>) -> Seq<char> {
    paths[choose|j: int| is_first_repeat(paths, j)]
}

/// The message of the refusal for a path that is declared a second time.
pub open spec fn duplicate_message(path: Seq<char>) -> Seq<char> {
    "nodule `"@ + path
        + "` is declared more than once — every nodule path in a phylum must be unique"@
}

/// The report of a phylum that was not assembled, or refused as a whole.
pub open spec fn refusal(
    files_checked: nat,
    error: PhylumErrorView,
    nodules: Seq<NoduleVerdictView>,
) -> PhylumReportView {
    PhylumReportView { ok: false, files_checked, error: Some(error), nodules }
}

/// The report for a source that does not parse.
pub open spec fn parse_refusal(
    sources: Seq<(Seq<char>, Seq<char>)>,
    i: int,
    message: Seq<char>,
) -> PhylumReportView {
    refusal(
        sources.len(),
        PhylumErrorView { kind: PhylumErrorKind::Parse, site: sources[i].0, message },
        seq![],
    )
}

/// The report for a path that is declared a second time.
pub open spec fn duplicate_refusal(files_checked: nat, path: Seq<char>) -> PhylumReportView {
    refusal(
        files_checked,
        PhylumErrorView {
            kind: PhylumErrorKind::Duplicate,
            site: path,
            message: duplicate_message(path),
        },
        seq![],
    )
}

/// The report for an assembled phylum that the checker refuses as a whole.
pub open spec fn check_refusal(
    sources: Seq<(Seq<char>, Seq<char>)>,
    nodules: Seq<Nodule>,
    error: CheckErrorView,
    outcomes: Seq<Result<(), CheckErrorView>>,
) -> PhylumReportView {
    refusal(
        sources.len(),
        PhylumErrorView { kind: PhylumErrorKind::Check, site: error.site, message: error.message },
        partial_verdicts(nodules, labels(sources), outcomes),
    )
}

/// The report for a phylum that checks clean as a whole: each nodule is clean with it.
pub open spec fn clean_report(
    sources: Seq<(Seq<char>, Seq<char>)>,
    nodules: Seq<Nodule>,
) -> PhylumReportView {
    PhylumReportView {
        ok: true,
        files_checked: sources.len(),
        error: None,
        nodules: Seq::new(
            nodules.len(),
            |i: int|
                NoduleVerdictView {
                    nodule: nodule_path(nodules[i]),
                    file: sources[i].0,
                    class: NoduleClassView::Clean,
                },
        ),
    }
}

/// How far the exchange with the kernel has come.
pub struct Progress {
    /// The labelled sources.
    pub sources: Seq<(Seq<char>, Seq<char>)>,
    /// The nodules parsed so far, in the order of the sources.
    pub nodules: Seq<Nodule>,
    /// The checker's refusal of the whole phylum, once it has come.
    pub refused: Option<CheckErrorView>,
    /// The checker's outcomes on the import closures so far, in the order of the nodules.
    pub outcomes: Seq<Result<(), CheckErrorView>>,
    /// The report, once it is there.
    pub report: Option<PhylumReportView>,
}

impl Progress {
    /// The question that is open.
    pub open spec fn action(self) -> PhylumActionView {
        if self.report is Some {
            PhylumActionView::Finished
        } else if self.nodules.len() < self.sources.len() {
            PhylumActionView::Parse(self.nodules.len() as int)
        } else if self.refused is None {
            PhylumActionView::Check(everyone(self.nodules.len()))
        } else {
            PhylumActionView::Check(use_graph(self.nodules).closure(self.outcomes.len() as int))
        }
    }

    /// The exchange on these sources before the first question.
    pub open spec fn start(sources: Seq<(Seq<char>, Seq<char>)>) -> Progress {
        Progress { sources, nodules: seq![], refused: None, outcomes: seq![], report: None }
    }

    /// The exchange after the parser's answer. The first source that does not parse ends it; once
    /// all have parsed, so does a path that is declared twice.
    pub open spec fn after_parse(self, answer: Result<Nodule, Seq<char>>) -> Progress {
        match answer {
            Err(message) => Progress {
                report: Some(parse_refusal(self.sources, self.nodules.len() as int, message)),
                ..self
            },
            Ok(nodule) => {
                let nodules = self.nodules.push(nodule);
                let paths = nodule_paths(nodules);
                Progress {
                    nodules,
                    report: if nodules.len() == self.sources.len() && !paths.no_duplicates() {
                        Some(duplicate_refusal(self.sources.len(), repeated_path(paths)))
                    } else {
                        None
                    },
                    ..self
                }
            },
        }
    }

    /// The exchange after the checker's answer, first on the whole phylum and then, where that is
    /// refused, on the import closure of each nodule.
    pub open spec fn after_check(self, answer: Result<(), CheckErrorView>) -> Progress {
        let (refused, outcomes) = match self.refused {
            None => (
                match answer {
                    Ok(()) => None,
                    Err(e) => Some(e),
                },
                self.outcomes,
            ),
            Some(e) => (Some(e), self.outcomes.push(answer)),
        };
        Progress {
            refused,
            outcomes,
            report: match refused {
                None => Some(clean_report(self.sources, self.nodules)),
                Some(e) => if outcomes.len() == self.nodules.len() {
                    Some(check_refusal(self.sources, self.nodules, e, outcomes))
                } else {
                    None
                },
            },
            ..self
        }
    }
}

/// What the parser said of a source.
pub open spec fn parse_view(answer: Result<Nodule, String>) -> Result<Nodule, Seq<char>> {
    match answer {
        Ok(nodule) => Ok(nodule),
        Err(message) => Err(message@),
    }
}

/// The place of the first string that stands at an earlier place too, if there is one.
fn first_repeat(paths: &Vec<String>) -> (found: Option<usize>)
    ensures
        match found {
            Some(j) => is_first_repeat(texts(paths@), j as int),
            None => texts(paths@).no_duplicates(),
        },
{
    let ghost all = texts(paths@);
    let mut j: usize = 0;
    while j < paths.len()
        invariant
            j <= paths.len(),
            all == texts(paths@),
            all.take(j as int).no_duplicates(),
        decreases paths.len() - j,
    {
        let mut i: usize = 0;
        while i < j
            invariant
                i <= j < paths.len(),
                all == texts(paths@),
                all.take(j as int).no_duplicates(),
                forall|k: int| 0 <= k < i ==> #[trigger] all[k] != all[j as int],
            decreases j - i,
        {
            if paths[i] == paths[j] {
                assert(all.take(j as int)[i as int] == all[j as int]);
                return Some(j);
            }
            i += 1;
        }
        assert(all.take(j + 1).no_duplicates()) by {
            let longer = all.take(j + 1);
            assert forall|a: int, b: int|
                0 <= a < longer.len() && 0 <= b < longer.len() && a != b implies longer[a]
                != longer[b] by {
                if a < j && b < j {
                    assert(all.take(j as int)[a] != all.take(j as int)[b]);
                } else if a < j {
                    assert(all[a] != all[j as int]);
                } else {
                    assert(all[b] != all[j as int]);
                }
            }
        }
        j += 1;
    }
    assert(all.take(paths.len() as int) =~= all);
    None
}

/// There is only one place at which the first repetition stands.
proof fn lemma_first_repeat_is_unique(paths: Seq<Seq<char>>, a: int, b: int)
    requires
        is_first_repeat(paths, a),
        is_first_repeat(paths, b),
    ensures
        a == b,
{
    if a < b {
        lemma_no_repeat_within(paths, a, b);
    } else if b < a {
        lemma_no_repeat_within(paths, b, a);
    }
}

proof fn lemma_no_repeat_within(paths: Seq<Seq<char>>, a: int, b: int)
    requires
        0 <= a < b <= paths.len(),
        paths.take(a).contains(paths[a]),
    ensures
        !paths.take(b).no_duplicates(),
{
    let i = choose|i: int| 0 <= i < a && paths.take(a)[i] == paths[a];
    assert(paths.take(b)[i] == paths.take(b)[a]);
}

/// The labels of the sources.
fn labels_of(sources: &Vec<(String, String)>) -> (files: Vec<String>)
    ensures
        texts(files@) == labels(sources_view(sources@)),
{
    let mut files: Vec<String> = Vec::new();
    let mut i: usize = 0;
    while i < sources.len()
        invariant
            i <= sources.len(),
            files@.len() == i,
            forall|k: int| 0 <= k < i ==> (#[trigger] files@[k])@ == sources@[k].0@,
        decreases sources.len() - i,
    {
        files.push(sources[i].0.clone());
        i += 1;
    }
    assert(texts(files@) =~= labels(sources_view(sources@)));
    files
}

/// An exchange with the kernel over one phylum.
#[derive(Debug)]
pub struct PhylumCheck {
    sources: Vec<(String, String)>,
    nodules: Vec<Nodule>,
    edges: Vec<Vec<String>>,
    paths: Vec<String>,
    refused: Option<CheckError>,
    outcomes: Vec<Result<(), CheckError>>,
    report: Option<PhylumReport>,
}

impl View for PhylumCheck {
    type V = Progress;

    closed spec fn view(&self) -> Progress {
        Progress {
            sources: sources_view(self.sources@),
            nodules: self.nodules@,
            refused: match self.refused {
                Some(e) => Some(e@),
                None => None,
            },
            outcomes: outcomes_view(self.outcomes@),
            report: match self.report {
                Some(r) => Some(r@),
                None => None,
            },
        }
    }
}

impl PhylumCheck {
    /// The invariant of an exchange: a phylum that was refused as a whole is assembled and has its
    /// import relation at hand, and while there is no report, an import closure is left to check.
    #[verifier::type_invariant]
    spec fn inv(self) -> bool {
        &&& self.nodules@.len() <= self.sources@.len()
        &&& self.outcomes@.len() <= self.nodules@.len()
        &&& self.refused is Some ==> {
            &&& self.nodules@.len() == self.sources@.len()
            &&& self.edges@.len() == self.nodules@.len()
            &&& self.paths@.len() == self.nodules@.len()
            &&& graph_of(self.edges@, self.paths@) == use_graph(self.nodules@)
            &&& self.report is None ==> self.outcomes@.len() < self.nodules@.len()
        }
        &&& self.refused is None ==> self.outcomes@.len() == 0
    }

    /// The question to put to the kernel next.
    pub fn action(&self) -> (action: PhylumAction)
        ensures
            action@ == self@.action(),
    {
        proof {
            use_type_invariant(self);
        }
        if self.report.is_some() {
            PhylumAction::Finished
        } else if self.nodules.len() < self.sources.len() {
            PhylumAction::Parse(self.nodules.len())
        } else if self.refused.is_none() {
            let mut all: Vec<usize> = Vec::new();
            let n = self.nodules.len();
            let mut i: usize = 0;
            while i < n
                invariant
                    i <= n,
                    all@ == everyone(i as nat),
                decreases n - i,
            {
                all.push(i);
                i += 1;
                assert(all@ =~= everyone(i as nat));
            }
            PhylumAction::Check(all)
        } else {
            PhylumAction::Check(sub_phylum(self.outcomes.len(), &self.edges, &self.paths))
        }
    }

    /// The exchange after the parser's answer on the source that was asked for.
    pub fn parsed(self, answer: Result<Nodule, String>) -> (next: PhylumCheck)
        requires
            self@.action() is Parse,
        ensures
            next@ == self@.after_parse(parse_view(answer)),
    {
        proof {
            use_type_invariant(&self);
        }
        let ghost before = self@;
        let PhylumCheck { sources, nodules, edges, paths, refused, outcomes, report: _ } = self;
        let files_checked = sources.len();
        match answer {
            Err(message) => {
                let site = sources[nodules.len()].0.clone();
                let report = PhylumReport {
                    ok: false,
                    files_checked,
                    error: Some(PhylumError { kind: PhylumErrorKind::Parse, site, message }),
                    nodules: Vec::new(),
                };
                assert(report@ =~= parse_refusal(
                    before.sources,
                    before.nodules.len() as int,
                    message@,
                )) by {
                    assert(report@.nodules =~= seq![]);
                }
                PhylumCheck {
                    sources,
                    nodules,
                    edges,
                    paths,
                    refused,
                    outcomes,
                    report: Some(report),
                }
            },
            Ok(nodule) => {
                let mut nodules = nodules;
                nodules.push(nodule);
                let report = if nodules.len() == sources.len() {
                    let declared = paths_of(&nodules);
                    match first_repeat(&declared) {
                        Some(j) => {
                            let path = declared[j].clone();
                            let mut message = "nodule `".to_owned();
                            message.append(path.as_str());
                            message.append(
                                "` is declared more than once — every nodule path in a phylum must be unique",
                            );
                            let report = PhylumReport {
                                ok: false,
                                files_checked,
                                error: Some(
                                    PhylumError {
                                        kind: PhylumErrorKind::Duplicate,
                                        site: path,
                                        message,
                                    },
                                ),
                                nodules: Vec::new(),
                            };
                            proof {
                                let all = nodule_paths(nodules@);
                                let first = choose|j: int| is_first_repeat(all, j);
                                lemma_first_repeat_is_unique(all, first, j as int);
                                assert(texts(declared@)[j as int] == path@);
                                lemma_no_repeat_within(all, j as int, all.len() as int);
                                assert(all.take(all.len() as int) =~= all);
                                assert(report@.nodules =~= seq![]);
                            }
                            Some(report)
                        },
                        None => None,
                    }
                } else {
                    None
                };
                PhylumCheck { sources, nodules, edges, paths, refused, outcomes, report }
            },
        }
    }

    /// The exchange after the checker's answer on the nodules that were asked for.
    pub fn checked(self, answer: Result<(), CheckError>) -> (next: PhylumCheck)
        requires
            self@.action() is Check,
        ensures
            next@ == self@.after_check(outcome_view(answer)),
    {
        proof {
            use_type_invariant(&self);
        }
        let ghost before = self@;
        let PhylumCheck { sources, nodules, edges, paths, refused, outcomes, report: _ } = self;
        let files = labels_of(&sources);
        assert(texts(files@).len() == files@.len());
        let mut outcomes = outcomes;
        let (refused, edges, paths) = match refused {
            None => match answer {
                Ok(()) => {
                    let report = clean(&nodules, &files);
                    assert(texts(files@) == labels(before.sources));
                    assert(report@.nodules =~= clean_report(
                        before.sources,
                        before.nodules,
                    ).nodules);
                    return PhylumCheck {
                        sources,
                        nodules,
                        edges,
                        paths,
                        refused: None,
                        outcomes,
                        report: Some(report),
                    };
                },
                Err(e) => {
                    let edges = build_use_edges(&nodules);
                    let paths = paths_of(&nodules);
                    assert(texts(paths@).len() == paths@.len());
                    proof {
                        edges_hold_the_import_relation(nodules@, edges@, paths@);
                    }
                    (e, edges, paths)
                },
            },
            Some(e) => {
                let ghost earlier = outcomes@;
                outcomes.push(answer);
                assert(outcomes_view(outcomes@) =~= outcomes_view(earlier).push(
                    outcome_view(answer),
                ));
                (e, edges, paths)
            },
        };
        let report = if outcomes.len() == nodules.len() {
            let verdicts = compute_partial_verdicts(&nodules, &files, &outcomes);
            Some(
                PhylumReport {
                    ok: false,
                    files_checked: sources.len(),
                    error: Some(
                        PhylumError {
                            kind: PhylumErrorKind::Check,
                            site: refused.site.clone(),
                            message: refused.message.clone(),
                        },
                    ),
                    nodules: verdicts,
                },
            )
        } else {
            None
        };
        PhylumCheck { sources, nodules, edges, paths, refused: Some(refused), outcomes, report }
    }

    /// The report, once it is there.
    pub fn report(&self) -> (report: Option<&PhylumReport>)
        ensures
            match report {
                Some(report) => self@.report == Some(report@),
                None => self@.report is None,
            },
    {
        match &self.report {
            Some(report) => Some(report),
            None => None,
        }
    }
}

/// The report of a phylum that checks clean as a whole.
fn clean(nodules: &Vec<Nodule>, files: &Vec<String>) -> (report: PhylumReport)
    requires
        files@.len() == nodules@.len(),
    ensures
        report.ok,
        report.files_checked == files@.len(),
        report.error is None,
        verdicts_view(report.nodules@) == Seq::new(
            nodules@.len(),
            |i: int|
                NoduleVerdictView {
                    nodule: nodule_path(nodules@[i]),
                    file: texts(files@)[i],
                    class: NoduleClassView::Clean,
                },
        ),
{
    let mut verdicts: Vec<NoduleVerdict> = Vec::new();
    let mut i: usize = 0;
    while i < nodules.len()
        invariant
            i <= nodules.len(),
            files@.len() == nodules@.len(),
            verdicts@.len() == i,
            forall|k: int|
                0 <= k < i ==> (#[trigger] verdicts@[k])@ == (NoduleVerdictView {
                    nodule: nodule_path(nodules@[k]),
                    file: files@[k]@,
                    class: NoduleClassView::Clean,
                }),
        decreases nodules.len() - i,
    {
        verdicts.push(
            NoduleVerdict {
                nodule: nodules[i].dotted_path(),
                file: files[i].clone(),
                class: NoduleClass::Clean,
            },
        );
        i += 1;
    }
    assert(verdicts_view(verdicts@) =~= Seq::new(
        nodules@.len(),
        |i: int|
            NoduleVerdictView {
                nodule: nodule_path(nodules@[i]),
                file: texts(files@)[i],
                class: NoduleClassView::Clean,
            },
    ));
    PhylumReport { ok: true, files_checked: files.len(), error: None, nodules: verdicts }
}

/// Check a set of labelled sources as one phylum: the exchange with the kernel before its first
/// question. Every source is parsed, no two may declare the same path, and the phylum of all
/// nodules is checked; where that is refused, so is the import closure of each nodule.
pub fn check_phylum_sources(sources: &[(String, String)]) -> (check: PhylumCheck)
    ensures
        check@ == Progress::start(sources_view(sources@)),
{
    let check = PhylumCheck {
        sources: copy_sources(sources),
        nodules: Vec::new(),
        edges: Vec::new(),
        paths: Vec::new(),
        refused: None,
        outcomes: Vec::new(),
        report: None,
    };
    assert(check@.outcomes =~= seq![]);
    check
}

/// A kernel that answers by the text of the sources alone.
pub struct Kernel {
    /// What the parser says of a text.
    pub parse: spec_fn(Seq<char>) -> Result<Nodule, Seq<char>>,
    /// What the checker says of the phylum of these texts, in this order.
    pub check: spec_fn(Seq<Seq<char>>) -> Result<(), CheckErrorView>,
}

impl Kernel {
    /// What the parser says of the source at place `i`.
    pub open spec fn parses(self, sources: Seq<(Seq<char>, Seq<char>)>, i: int) -> Result<
        Nodule,
        Seq<char>,
    > {
        (self.parse)(sources[i].1)
    }

    /// What the checker says of the phylum of the sources at these places.
    pub open spec fn checks(
        self,
        sources: Seq<(Seq<char>, Seq<char>)>,
        members: Seq<usize>,
    ) -> Result<(), CheckErrorView> {
        (self.check)(members.map_values(|m: usize| sources[m as int].1))
    }

    /// Whether the source at place `i` is the first that does not parse.
    pub open spec fn is_first_unparsable(
        self,
        sources: Seq<(Seq<char>, Seq<char>)>,
        i: int,
    ) -> bool {
        &&& 0 <= i < sources.len()
        &&& self.parses(sources, i) is Err
        &&& forall|j: int| 0 <= j < i ==> (#[trigger] self.parses(sources, j)) is Ok
    }

    /// Whether every source parses.
    pub open spec fn all_parse(self, sources: Seq<(Seq<char>, Seq<char>)>) -> bool {
        forall|i: int| 0 <= i < sources.len() ==> (#[trigger] self.parses(sources, i)) is Ok
    }

    /// The nodules of the sources.
    pub open spec fn nodules(self, sources: Seq<(Seq<char>, Seq<char>)>) -> Seq<Nodule> {
        Seq::new(sources.len(), |i: int| self.parses(sources, i)->Ok_0)
    }

    /// What the checker says of the import closure of each nodule.
    pub open spec fn closure_outcomes(self, sources: Seq<(Seq<char>, Seq<char>)>) -> Seq<
        Result<(), CheckErrorView>,
    > {
        Seq::new(
            sources.len(),
            |i: int| self.checks(sources, use_graph(self.nodules(sources)).closure(i)),
        )
    }

    /// Whether the sources can be assembled into a phylum: every one parses, and no two declare
    /// the same path.
    pub open spec fn assembles(self, sources: Seq<(Seq<char>, Seq<char>)>) -> bool {
        &&& self.all_parse(sources)
        &&& nodule_paths(self.nodules(sources)).no_duplicates()
    }

    /// The report on the phylum of the sources: what the exchange is to end in.
    pub open spec fn report(self, sources: Seq<(Seq<char>, Seq<char>)>) -> PhylumReportView {
        let nodules = self.nodules(sources);
        let paths = nodule_paths(nodules);
        if !self.all_parse(sources) {
            let i = choose|i: int| self.is_first_unparsable(sources, i);
            parse_refusal(sources, i, self.parses(sources, i)->Err_0)
        } else if !paths.no_duplicates() {
            duplicate_refusal(sources.len(), repeated_path(paths))
        } else {
            match self.checks(sources, everyone(sources.len())) {
                Ok(()) => clean_report(sources, nodules),
                Err(e) => check_refusal(sources, nodules, e, self.closure_outcomes(sources)),
            }
        }
    }
}

impl Progress {
    /// The exchange one question on, where this kernel answers.
    pub open spec fn step(self, kernel: Kernel) -> Progress {
        match self.action() {
            PhylumActionView::Parse(i) => self.after_parse(kernel.parses(self.sources, i)),
            PhylumActionView::Check(members) => self.after_check(
                kernel.checks(self.sources, members),
            ),
            PhylumActionView::Finished => self,
        }
    }

    /// The exchange `n` questions on, where this kernel answers.
    pub open spec fn steps(self, kernel: Kernel, n: nat) -> Progress
        decreases n,
    {
        if n == 0 {
            self
        } else {
            self.step(kernel).steps(kernel, (n - 1) as nat)
        }
    }

    /// Whether all that the exchange holds is what this kernel answers.
    spec fn agrees_with(self, kernel: Kernel) -> bool {
        &&& self.nodules.len() <= self.sources.len()
        &&& forall|i: int|
            0 <= i < self.nodules.len() ==> (#[trigger] kernel.parses(self.sources, i)) == Ok::<
                Nodule,
                Seq<char>,
            >(self.nodules[i])
        &&& self.report is None && self.nodules.len() == self.sources.len() ==> nodule_paths(
            self.nodules,
        ).no_duplicates()
        &&& match self.refused {
            Some(e) => {
                &&& self.nodules.len() == self.sources.len()
                &&& self.outcomes.len() <= self.nodules.len()
                &&& self.report is None ==> self.outcomes.len() < self.nodules.len()
                &&& kernel.checks(self.sources, everyone(self.sources.len())) == Err::<
                    (),
                    CheckErrorView,
                >(e)
                &&& forall|i: int|
                    0 <= i < self.outcomes.len() ==> (#[trigger] self.outcomes[i])
                        == kernel.closure_outcomes(self.sources)[i]
            },
            None => self.outcomes.len() == 0,
        }
        &&& match self.report {
            Some(report) => report == kernel.report(self.sources),
            None => true,
        }
    }

    /// How many questions are left at most.
    spec fn left(self) -> int {
        if self.report is Some {
            0
        } else if self.refused is None {
            self.sources.len() - self.nodules.len() + 1 + self.sources.len()
        } else {
            self.nodules.len() - self.outcomes.len()
        }
    }
}

/// One answer of the kernel keeps the exchange in agreement with it, and there is one question
/// less.
proof fn lemma_step(p: Progress, kernel: Kernel)
    requires
        p.agrees_with(kernel),
        p.report is None,
    ensures
        p.step(kernel).agrees_with(kernel),
        p.step(kernel).sources == p.sources,
        p.step(kernel).left() < p.left(),
        p.left() > 0,
{
    let next = p.step(kernel);
    let all = kernel.nodules(p.sources);
    if p.nodules.len() < p.sources.len() {
        let i = p.nodules.len() as int;
        match kernel.parses(p.sources, i) {
            Err(message) => {
                assert(kernel.is_first_unparsable(p.sources, i));
                let first = choose|j: int| kernel.is_first_unparsable(p.sources, j);
                assert(first == i) by {
                    if first < i {
                        assert(kernel.parses(p.sources, first) is Ok);
                    } else if i < first {
                        assert(kernel.parses(p.sources, i) is Ok);
                    }
                }
            },
            Ok(nodule) => {
                if next.nodules.len() == p.sources.len() {
                    assert(next.nodules =~= all) by {
                        assert forall|j: int| 0 <= j < all.len() implies next.nodules[j]
                            == #[trigger] all[j] by {
                            if j < i {
                                assert(kernel.parses(p.sources, j) == Ok::<Nodule, Seq<char>>(
                                    p.nodules[j],
                                ));
                            }
                        }
                    }
                }
            },
        }
    } else {
        assert(p.nodules =~= all) by {
            assert forall|j: int| 0 <= j < all.len() implies p.nodules[j] == #[trigger] all[j] by {
                assert(kernel.parses(p.sources, j) == Ok::<Nodule, Seq<char>>(p.nodules[j]));
            }
        }
        assert(kernel.all_parse(p.sources));
        if next.refused is Some && next.outcomes.len() == p.nodules.len() {
            assert(next.outcomes =~= kernel.closure_outcomes(p.sources));
        }
    }
}

proof fn lemma_steps(p: Progress, kernel: Kernel, n: nat)
    requires
        p.agrees_with(kernel),
        p.left() <= n,
    ensures
        p.steps(kernel, n).report == Some(kernel.report(p.sources)),
    decreases n,
{
    if n > 0 {
        if p.report is None {
            lemma_step(p, kernel);
        } else {
            assert(p.step(kernel) == p);
        }
        lemma_steps(p.step(kernel), kernel, (n - 1) as nat);
    } else if p.report is None {
        lemma_step(p, kernel);
    }
}

/// Whatever a kernel answers to the texts, the exchange ends, after one question for each source,
/// one for the whole phylum and one for each import closure at most; and it ends in the report
/// that the kernel's answers amount to.
pub proof fn exchange_ends_in_the_report(
    sources: Seq<(Seq<char>, Seq<char>)>,
    kernel: Kernel,
)
    ensures
        Progress::start(sources).steps(kernel, 2 * sources.len() + 1).report == Some(
            kernel.report(sources),
        ),
{
    let p = Progress::start(sources);
    assert(nodule_paths(p.nodules).no_duplicates());
    lemma_steps(p, kernel, 2 * sources.len() + 1);
}

/// If some source does not parse, there is a first such source.
proof fn lemma_first_unparsable_exists(
    sources: Seq<(Seq<char>, Seq<char>)>,
    kernel: Kernel,
    n: int,
) -> (i: int)
    requires
        0 <= n < sources.len(),
        kernel.parses(sources, n) is Err,
    ensures
        kernel.is_first_unparsable(sources, i),
        i <= n,
    decreases n,
{
    if kernel.is_first_unparsable(sources, n) {
        n
    } else {
        let j = choose|j: int| 0 <= j < n && !((#[trigger] kernel.parses(sources, j)) is Ok);
        lemma_first_unparsable_exists(sources, kernel, j)
    }
}

/// If some path stands at two places, there is a first repetition.
proof fn lemma_first_repeat_exists(paths: Seq<Seq<char>>, n: int) -> (j: int)
    requires
        0 <= n <= paths.len(),
        !paths.take(n).no_duplicates(),
    ensures
        is_first_repeat(paths, j),
    decreases n,
{
    let shorter = paths.take(n - 1);
    if !shorter.no_duplicates() {
        lemma_first_repeat_exists(paths, n - 1)
    } else {
        let (a, b) = choose|a: int, b: int|
            0 <= a < n && 0 <= b < n && a != b && paths.take(n)[a] == paths.take(n)[b];
        if a == n - 1 {
            assert(shorter[b] == paths[n - 1]);
        } else if b == n - 1 {
            assert(shorter[a] == paths[n - 1]);
        } else {
            assert(shorter[a] == shorter[b]);
        }
        n - 1
    }
}

/// A phylum is reported as good, without an error and with exit code zero, in one and the same
/// case: it can be assembled and the checker accepts it as a whole.
pub proof fn report_is_good_iff_the_phylum_checks(
    sources: Seq<(Seq<char>, Seq<char>)>,
    kernel: Kernel,
)
    ensures
        ({
            let report = kernel.report(sources);
            let good = kernel.assembles(sources) && kernel.checks(
                sources,
                everyone(sources.len()),
            ) is Ok;
            &&& report.ok <==> good
            &&& report.error is None <==> good
            &&& report.exit_code() == 0 <==> good
        }),
{
}

/// The report counts every source. It holds one verdict for each, in their order and under their
/// labels, wherever the phylum can be assembled, and none where it cannot.
pub proof fn report_has_a_verdict_for_each_nodule(
    sources: Seq<(Seq<char>, Seq<char>)>,
    kernel: Kernel,
)
    ensures
        ({
            let report = kernel.report(sources);
            &&& report.files_checked == sources.len()
            &&& !kernel.assembles(sources) ==> report.nodules.len() == 0
            &&& kernel.assembles(sources) ==> report.nodules.len() == sources.len()
            &&& forall|i: int|
                0 <= i < report.nodules.len() ==> {
                    &&& (#[trigger] report.nodules[i]).file == sources[i].0
                    &&& report.nodules[i].nodule == nodule_path(
                        kernel.parses(sources, i)->Ok_0,
                    )
                }
        }),
{
}

/// A source that does not parse is what the report names, before anything else: the first one, by
/// its label and with the parser's message.
pub proof fn report_names_the_first_unparsable_source(
    sources: Seq<(Seq<char>, Seq<char>)>,
    kernel: Kernel,
    n: int,
) -> (i: int)
    requires
        0 <= n < sources.len(),
        kernel.parses(sources, n) is Err,
    ensures
        kernel.is_first_unparsable(sources, i),
        kernel.report(sources).error == Some(
            PhylumErrorView {
                kind: PhylumErrorKind::Parse,
                site: sources[i].0,
                message: kernel.parses(sources, i)->Err_0,
            },
        ),
        kernel.report(sources).exit_code() == 2,
{
    let i = lemma_first_unparsable_exists(sources, kernel, n);
    let first = choose|j: int| kernel.is_first_unparsable(sources, j);
    if first < i {
        assert(kernel.parses(sources, first) is Ok);
    } else if i < first {
        assert(kernel.parses(sources, i) is Ok);
    }
    i
}

/// Where every source parses and two declare the same path, the report names the first path that
/// is declared a second time. The checker is not asked.
pub proof fn report_names_the_first_repeated_path(
    sources: Seq<(Seq<char>, Seq<char>)>,
    kernel: Kernel,
) -> (j: int)
    requires
        kernel.all_parse(sources),
        !nodule_paths(kernel.nodules(sources)).no_duplicates(),
    ensures
        is_first_repeat(nodule_paths(kernel.nodules(sources)), j),
        ({
            let path = nodule_path(kernel.nodules(sources)[j]);
            kernel.report(sources).error == Some(
                PhylumErrorView {
                    kind: PhylumErrorKind::Duplicate,
                    site: path,
                    message: duplicate_message(path),
                },
            )
        }),
        kernel.report(sources).exit_code() == 3,
{
    let paths = nodule_paths(kernel.nodules(sources));
    assert(paths.take(paths.len() as int) =~= paths);
    let j = lemma_first_repeat_exists(paths, paths.len() as int);
    let first = choose|k: int| is_first_repeat(paths, k);
    lemma_first_repeat_is_unique(paths, first, j);
    j
}

/// In a phylum that is refused as a whole, a nodule is clean exactly when its import closure
/// checks: no failure elsewhere drags it down, and none within lets it pass.
pub proof fn nodule_is_clean_iff_its_closure_checks(
    sources: Seq<(Seq<char>, Seq<char>)>,
    kernel: Kernel,
    i: int,
)
    requires
        kernel.assembles(sources),
        kernel.checks(sources, everyone(sources.len())) is Err,
        0 <= i < sources.len(),
    ensures
        kernel.report(sources).nodules[i].class is Clean <==> kernel.checks(
            sources,
            use_graph(kernel.nodules(sources)).closure(i),
        ) is Ok,
{
}

/// In phyla that are refused as a whole, the verdict on a nodule rests on its import closure only:
/// a nodule whose closure has the same texts in the same order, in whatever company, gets the same
/// verdict.
pub proof fn verdict_rests_on_the_closure_only(
    sources: Seq<(Seq<char>, Seq<char>)>,
    others: Seq<(Seq<char>, Seq<char>)>,
    kernel: Kernel,
    i: int,
    j: int,
)
    requires
        sources.len() <= usize::MAX,
        others.len() <= usize::MAX,
        kernel.assembles(sources),
        kernel.assembles(others),
        kernel.checks(sources, everyone(sources.len())) is Err,
        kernel.checks(others, everyone(others.len())) is Err,
        0 <= i < sources.len(),
        0 <= j < others.len(),
        sources[i].1 == others[j].1,
        use_graph(kernel.nodules(sources)).closure(i).map_values(
            |m: usize| sources[m as int].1,
        ) == use_graph(kernel.nodules(others)).closure(j).map_values(
            |m: usize| others[m as int].1,
        ),
    ensures
        kernel.report(sources).nodules[i].nodule == kernel.report(others).nodules[j].nodule,
        kernel.report(sources).nodules[i].class == kernel.report(others).nodules[j].class,
{
    let g = use_graph(kernel.nodules(sources));
    let h = use_graph(kernel.nodules(others));
    let a = g.closure(i);
    let b = h.closure(j);
    let of_a = a.map_values(|m: usize| sources[m as int].1);
    let of_b = b.map_values(|m: usize| others[m as int].1);
    closure_lists_the_reachable(g, i);
    closure_lists_the_reachable(h, j);
    assert(a.len() == of_a.len() && b.len() == of_b.len());
    assert forall|k: int| 0 <= k < a.len() implies g.paths[a[k] as int] == h.paths[b[k] as int] by {
        assert(a.contains(a[k]));
        assert(b.contains(b[k]));
        closure_stays_in_the_batch(g, i, a[k] as int);
        closure_stays_in_the_batch(h, j, b[k] as int);
        assert(of_a[k] == sources[a[k] as int].1);
        assert(of_b[k] == others[b[k] as int].1);
        assert(kernel.parses(sources, a[k] as int) == kernel.parses(others, b[k] as int));
    }
    assert(g.closure_paths(i) =~= h.closure_paths(j));
    assert(kernel.parses(sources, i) == kernel.parses(others, j));
}

/// In a phylum that checks as a whole, every nodule is clean.
pub proof fn clean_phylum_has_clean_nodules(
    sources: Seq<(Seq<char>, Seq<char>)>,
    kernel: Kernel,
    i: int,
)
    requires
        kernel.report(sources).ok,
        0 <= i < sources.len(),
    ensures
        kernel.report(sources).nodules.len() == sources.len(),
        kernel.report(sources).nodules[i].class is Clean,
{
}

/// A blocked nodule is blocked on another nodule that it depends on, and that nodule encloses the
/// site at which the check of the closure failed.
pub proof fn blocked_names_another_dependency(
    sources: Seq<(Seq<char>, Seq<char>)>,
    kernel: Kernel,
    i: int,
    on: Seq<char>,
    message: Seq<char>,
) -> (j: int)
    requires
        sources.len() <= usize::MAX,
        0 <= i < kernel.report(sources).nodules.len(),
        kernel.report(sources).nodules[i].class == (NoduleClassView::Blocked { on, message }),
    ensures
        j != i,
        use_graph(kernel.nodules(sources)).reaches(i, j),
        on == nodule_path(kernel.nodules(sources)[j]),
        on != kernel.report(sources).nodules[i].nodule,
        ({
            let outcome = kernel.checks(sources, use_graph(kernel.nodules(sources)).closure(i));
            outcome is Err && encloses(on, outcome->Err_0.site)
        }),
{
    let g = use_graph(kernel.nodules(sources));
    let outcome = kernel.checks(sources, g.closure(i));
    let site = outcome->Err_0.site;
    assert(owner_of(site, g.closure_paths(i)) == Some(on));
    assert(is_site_owner(site, g.closure_paths(i), on));
    let at = choose|at: int| 0 <= at < g.closure_paths(i).len() && g.closure_paths(i)[at] == on;
    closure_lists_the_reachable(g, i);
    let j = g.closure(i)[at];
    assert(g.closure(i).contains(j));
    closure_stays_in_the_batch(g, i, j as int);
    j as int
}

/// Whether `part` is a part of `whole`, and not empty, that holds all that its nodules import from,
/// both in the order of the batch.
pub open spec fn is_closed_part(g: UseGraph, part: Seq<usize>, whole: Seq<usize>) -> bool {
    &&& part.len() > 0
    &&& forall|a: int, b: int| 0 <= a < b < part.len() ==> #[trigger] part[a] < #[trigger] part[b]
    &&& forall|a: int, b: int|
        0 <= a < b < whole.len() ==> #[trigger] whole[a] < #[trigger] whole[b]
    &&& forall|m: usize| #[trigger] part.contains(m) ==> whole.contains(m)
    &&& forall|a: usize, b: usize|
        part.contains(a) && #[trigger] g.imports(a as int, b as int) ==> part.contains(b)
}

impl Kernel {
    /// Whether the checker accepts every closed part of a phylum that it accepts: dropping
    /// nodules that nothing left over imports from introduces no refusal.
    pub open spec fn accepts_closed_parts(self, sources: Seq<(Seq<char>, Seq<char>)>) -> bool {
        forall|part: Seq<usize>, whole: Seq<usize>|
            #[trigger] is_closed_part(use_graph(self.nodules(sources)), part, whole)
                && self.checks(sources, whole) is Ok ==> self.checks(sources, part) is Ok
    }
}

/// The import closure of a dependency is a closed part of the import closure of the nodule.
proof fn lemma_closure_of_dependency_is_closed_part(g: UseGraph, i: int, j: int)
    requires
        g.paths.len() <= usize::MAX,
        g.reaches(i, j),
    ensures
        is_closed_part(g, g.closure(j), g.closure(i)),
{
    closure_lists_the_reachable(g, i);
    closure_lists_the_reachable(g, j);
    closure_stays_in_the_batch(g, i, j);
    closure_holds_its_nodule(g, j);
    assert(g.closure(j).contains(j as usize));
    assert forall|m: usize| #[trigger] g.closure(j).contains(m) implies g.closure(i).contains(
        m,
    ) by {
        closure_is_transitive(g, i, j, m as int);
    }
    assert forall|a: usize, b: usize|
        g.closure(j).contains(a) && #[trigger] g.imports(a as int, b as int) implies g.closure(
        j,
    ).contains(b) by {
        closure_follows_imports(g, j, a as int, b as int);
    }
}

/// With a checker that accepts the closed parts of what it accepts, a clean nodule has clean
/// dependencies only: one that depends on a nodule that is not clean is never clean itself.
pub proof fn clean_nodule_has_clean_dependencies(
    sources: Seq<(Seq<char>, Seq<char>)>,
    kernel: Kernel,
    i: int,
    j: int,
)
    requires
        sources.len() <= usize::MAX,
        kernel.accepts_closed_parts(sources),
        0 <= i < kernel.report(sources).nodules.len(),
        kernel.report(sources).nodules[i].class is Clean,
        use_graph(kernel.nodules(sources)).reaches(i, j),
    ensures
        0 <= j < kernel.report(sources).nodules.len(),
        kernel.report(sources).nodules[j].class is Clean,
{
    let g = use_graph(kernel.nodules(sources));
    closure_stays_in_the_batch(g, i, j);
    if kernel.checks(sources, everyone(sources.len())) is Err {
        lemma_closure_of_dependency_is_closed_part(g, i, j);
    }
}

/// With a checker that accepts the closed parts of what it accepts, a nodule of an assembled
/// phylum is clean exactly when its import closure checks, also where the phylum checks as a
/// whole and the closures are not put to the checker one by one.
pub proof fn nodule_is_clean_iff_its_closure_would_check(
    sources: Seq<(Seq<char>, Seq<char>)>,
    kernel: Kernel,
    i: int,
)
    requires
        sources.len() <= usize::MAX,
        kernel.accepts_closed_parts(sources),
        kernel.assembles(sources),
        0 <= i < sources.len(),
    ensures
        kernel.report(sources).nodules[i].class is Clean <==> kernel.checks(
            sources,
            use_graph(kernel.nodules(sources)).closure(i),
        ) is Ok,
{
    let g = use_graph(kernel.nodules(sources));
    let whole = everyone(sources.len());
    closure_lists_the_reachable(g, i);
    assert forall|m: usize| #[trigger] g.closure(i).contains(m) implies whole.contains(m) by {
        closure_stays_in_the_batch(g, i, m as int);
        assert(whole[m as int] == m);
    }
    assert forall|a: usize, b: usize|
        g.closure(i).contains(a) && #[trigger] g.imports(a as int, b as int) implies g.closure(
        i,
    ).contains(b) by {
        closure_follows_imports(g, i, a as int, b as int);
    }
    closure_holds_its_nodule(g, i);
    assert(g.closure(i).contains(i as usize));
    assert(is_closed_part(g, g.closure(i), whole));
}

} // verus!
