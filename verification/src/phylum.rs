//! Reports on a phylum: one whole-phylum verdict, and one verdict for each of its nodules.

use vstd::prelude::*;
use vstd::string::*;

use crate::closure::{
    build_use_edges, closure_lists_the_reachable, closure_stays_in_the_batch,
    edges_hold_the_import_relation, graph_of, nodule_path, paths_of, sub_phylum, use_graph, UseGraph,
};
use crate::diagnostics::{CheckError, CheckErrorView};
use crate::syntax::Nodule;
use crate::text::{chars_of, texts};

verus! {

/// What kind of refusal blocked a phylum from checking clean.
#[derive(Debug, Clone, Copy, PartialEq, Eq, Structural)]
pub enum PhylumErrorKind {
    /// A source failed to parse: the phylum cannot be assembled from an unparseable nodule.
    Parse,
    /// Two nodules declared the same dotted path: an ambiguous phylum export table.
    Duplicate,
    /// The assembled phylum failed its check (a cross-nodule type/name refusal).
    Check,
}

impl PhylumErrorKind {
    /// The tag of the kind in reports.
    pub open spec fn tag(self) -> Seq<char> {
        match self {
            PhylumErrorKind::Parse => "parse"@,
            PhylumErrorKind::Duplicate => "duplicate"@,
            PhylumErrorKind::Check => "check"@,
        }
    }

    /// The stable lowercase tag of the JSON contract.
    #[must_use]
    pub fn as_str(self) -> (tag: &'static str)
        ensures
            tag@ == self.tag(),
    {
        match self {
            PhylumErrorKind::Parse => "parse",
            PhylumErrorKind::Duplicate => "duplicate",
            PhylumErrorKind::Check => "check",
        }
    }
}

/// The single refusal that blocked a phylum (there is at most one).
#[derive(Debug, Clone, PartialEq, Eq)]
pub struct PhylumError {
    /// Which class of refusal.
    pub kind: PhylumErrorKind,
    /// Where it occurred: a file label (parse) or a nodule path (duplicate) or the checker's site.
    pub site: String,
    /// The author-facing message.
    pub message: String,
}

/// The contents of a [`PhylumError`].
pub struct PhylumErrorView {
    pub kind: PhylumErrorKind,
    pub site: Seq<char>,
    pub message: Seq<char>,
}

impl View for PhylumError {
    type V = PhylumErrorView;

    open spec fn view(&self) -> PhylumErrorView {
        PhylumErrorView { kind: self.kind, site: self.site@, message: self.message@ }
    }
}

/// A per-nodule verdict class. It always rests on a run of the checker, on the whole phylum or on
/// the nodule's import closure.
#[derive(Debug, Clone, PartialEq, Eq)]
pub enum NoduleClass {
    /// The nodule's whole import closure checked clean.
    Clean,
    /// The nodule's import closure failed, and the failure is put down to the nodule itself:
    /// either its site lies in the nodule, or no nodule of the closure could be made out.
    CheckError {
        /// The failure's site, as the checker reports it.
        site: String,
        /// The failure's message, as the checker reports it.
        message: String,
    },
    /// The nodule's import closure failed at a site that lies in a different nodule of it.
    Blocked {
        /// The dotted path of that nodule.
        on: String,
        /// The failure's message, as the checker reports it.
        message: String,
    },
}

/// The contents of a [`NoduleClass`].
pub enum NoduleClassView {
    Clean,
    CheckError { site: Seq<char>, message: Seq<char> },
    Blocked { on: Seq<char>, message: Seq<char> },
}

impl View for NoduleClass {
    type V = NoduleClassView;

    open spec fn view(&self) -> NoduleClassView {
        match self {
            NoduleClass::Clean => NoduleClassView::Clean,
            NoduleClass::CheckError { site, message } => NoduleClassView::CheckError {
                site: site@,
                message: message@,
            },
            NoduleClass::Blocked { on, message } => NoduleClassView::Blocked {
                on: on@,
                message: message@,
            },
        }
    }
}

impl NoduleClassView {
    /// The label of the class in reports.
    pub open spec fn label(self) -> Seq<char> {
        match self {
            NoduleClassView::Clean => "Clean"@,
            NoduleClassView::CheckError { .. } => "CheckError"@,
            NoduleClassView::Blocked { .. } => "Blocked"@,
        }
    }
}

impl NoduleClass {
    /// The stable label of the JSON contract.
    #[must_use]
    pub fn label(&self) -> (label: &'static str)
        ensures
            label@ == self@.label(),
    {
        match self {
            NoduleClass::Clean => "Clean",
            NoduleClass::CheckError { .. } => "CheckError",
            NoduleClass::Blocked { .. } => "Blocked",
        }
    }

    /// Whether this class credits the nodule as checked (only [`NoduleClass::Clean`] does).
    #[must_use]
    pub fn is_clean(&self) -> (clean: bool)
        ensures
            clean == (self@ is Clean),
    {
        match self {
            NoduleClass::Clean => true,
            _ => false,
        }
    }
}

/// A per-nodule verdict.
#[derive(Debug, Clone, PartialEq, Eq)]
pub struct NoduleVerdict {
    /// The nodule's dotted path (`a`, `core.binary`).
    pub nodule: String,
    /// The label of the source that the nodule was parsed from. A nodule's dotted path need not
    /// match it.
    pub file: String,
    /// The verdict class.
    pub class: NoduleClass,
}

/// The contents of a [`NoduleVerdict`].
pub struct NoduleVerdictView {
    pub nodule: Seq<char>,
    pub file: Seq<char>,
    pub class: NoduleClassView,
}

impl View for NoduleVerdict {
    type V = NoduleVerdictView;

    open spec fn view(&self) -> NoduleVerdictView {
        NoduleVerdictView { nodule: self.nodule@, file: self.file@, class: self.class@ }
    }
}

/// The result of checking a set of sources as one phylum.
#[derive(Debug, Clone)]
pub struct PhylumReport {
    /// Whether the whole phylum checked clean.
    pub ok: bool,
    /// How many sources were given to be assembled into the phylum, also where it was refused.
    pub files_checked: usize,
    /// The single blocking refusal, if any (`None` iff `ok`).
    pub error: Option<PhylumError>,
    /// One verdict per nodule wherever the phylum was assembled (every source parsed, no path
    /// declared twice), and none otherwise. That some nodules are clean does not say that the
    /// phylum is: `ok` and `error` do.
    pub nodules: Vec<NoduleVerdict>,
}

/// The contents of a [`PhylumReport`].
pub struct PhylumReportView {
    pub ok: bool,
    pub files_checked: nat,
    pub error: Option<PhylumErrorView>,
    pub nodules: Seq<NoduleVerdictView>,
}

/// The contents of a list of verdicts.
pub open spec fn verdicts_view(verdicts: Seq<NoduleVerdict>) -> Seq<NoduleVerdictView> {
    verdicts.map_values(|v: NoduleVerdict| v@)
}

impl View for PhylumReport {
    type V = PhylumReportView;

    open spec fn view(&self) -> PhylumReportView {
        PhylumReportView {
            ok: self.ok,
            files_checked: self.files_checked as nat,
            error: match self.error {
                Some(e) => Some(e@),
                None => None,
            },
            nodules: verdicts_view(self.nodules@),
        }
    }
}

impl PhylumReportView {
    /// The exit code of the report.
    pub open spec fn exit_code(self) -> u8 {
        match self.error {
            None => 0,
            Some(e) => match e.kind {
                PhylumErrorKind::Parse => 2,
                PhylumErrorKind::Check => 3,
                PhylumErrorKind::Duplicate => 3,
            },
        }
    }
}

impl PhylumReport {
    /// The CI exit code: 0 if clean, 2 for a parse error, 3 for a check/duplicate refusal.
    #[must_use]
    pub fn exit_code(&self) -> (code: u8)
        ensures
            code == self@.exit_code(),
    {
        match &self.error {
            None => 0,
            Some(e) => match e.kind {
                PhylumErrorKind::Parse => 2,
                PhylumErrorKind::Check | PhylumErrorKind::Duplicate => 3,
            },
        }
    }
}

/// Whether `site` lies in the nodule with this path: it is the path itself, or goes on behind it
/// with a dot. The empty path holds no site.
pub open spec fn encloses(path: Seq<char>, site: Seq<char>) -> bool {
    path.len() > 0 && (site == path || (path + "."@).is_prefix_of(site))
}

/// Whether `owner` is the most specific of `paths` that encloses `site`.
pub open spec fn is_site_owner(site: Seq<char>, paths: Seq<Seq<char>>, owner: Seq<char>) -> bool {
    &&& paths.contains(owner)
    &&& encloses(owner, site)
    &&& forall|p: Seq<char>| #[trigger]
        paths.contains(p) && encloses(p, site) ==> p.len() <= owner.len()
}

/// The most specific of `paths` that encloses `site`, if one does.
pub open spec fn owner_of(site: Seq<char>, paths: Seq<Seq<char>>) -> Option<Seq<char>> {
    if exists|owner: Seq<char>| is_site_owner(site, paths, owner) {
        Some(choose|owner: Seq<char>| is_site_owner(site, paths, owner))
    } else {
        None
    }
}

/// A path that encloses a site is the beginning of the site's text.
proof fn lemma_encloses_is_prefix(path: Seq<char>, site: Seq<char>)
    requires
        encloses(path, site),
    ensures
        path.len() <= site.len(),
        path == site.take(path.len() as int),
{
    reveal_strlit(".");
    if site == path {
        assert(path =~= site.take(path.len() as int));
    } else {
        let longer = path + "."@;
        assert forall|i: int| 0 <= i < path.len() implies path[i] == site[i] by {
            assert(longer[i] == site[i]);
        }
        assert(path =~= site.take(path.len() as int));
    }
}

/// There is at most one most specific enclosing path: a site is never put down to two nodules.
pub proof fn site_owner_is_unique(
    site: Seq<char>,
    paths: Seq<Seq<char>>,
    a: Seq<char>,
    b: Seq<char>,
)
    requires
        is_site_owner(site, paths, a),
        is_site_owner(site, paths, b),
    ensures
        a == b,
{
    lemma_encloses_is_prefix(a, site);
    lemma_encloses_is_prefix(b, site);
}

/// Whether `site` lies in the nodule with this path.
fn path_encloses(path: &str, site: &str) -> (yes: bool)
    ensures
        yes == encloses(path@, site@),
{
    proof {
        reveal_strlit(".");
    }
    let p = chars_of(path);
    let s = chars_of(site);
    let ghost longer = path@ + "."@;
    if p.len() == 0 || p.len() > s.len() {
        return false;
    }
    let mut i: usize = 0;
    while i < p.len()
        invariant
            i <= p.len() <= s.len(),
            p@ == path@,
            s@ == site@,
            longer == path@ + "."@,
            forall|k: int| 0 <= k < i ==> p@[k] == s@[k],
        decreases p.len() - i,
    {
        if p[i] != s[i] {
            assert(longer[i as int] == path@[i as int]);
            return false;
        }
        i += 1;
    }
    if p.len() == s.len() {
        assert(path@ =~= site@);
        true
    } else {
        assert(longer[p@.len() as int] == '.');
        s[p.len()] == '.'
    }
}

/// The nodule that a check refusal's site lies in: the longest of `closure_paths` that encloses
/// it. Most sites are bare item names that no path encloses; there the answer is `None`, and
/// nothing is guessed.
pub fn site_owner(site: &str, closure_paths: &Vec<String>) -> (owner: Option<String>)
    ensures
        match owner {
            Some(owner) => {
                &&& owner_of(site@, texts(closure_paths@)) == Some(owner@)
                &&& is_site_owner(site@, texts(closure_paths@), owner@)
            },
            None => {
                &&& owner_of(site@, texts(closure_paths@)) is None
                &&& forall|p: Seq<char>| #[trigger]
                    texts(closure_paths@).contains(p) ==> !encloses(p, site@)
            },
        },
{
    let ghost paths = texts(closure_paths@);
    let mut best: Option<usize> = None;
    let mut i: usize = 0;
    while i < closure_paths.len()
        invariant
            i <= closure_paths.len(),
            paths == texts(closure_paths@),
            match best {
                Some(b) => {
                    &&& b < i
                    &&& encloses(paths[b as int], site@)
                    &&& forall|k: int|
                        0 <= k < i && encloses(#[trigger] paths[k], site@) ==> paths[k].len()
                            <= paths[b as int].len()
                },
                None => forall|k: int| 0 <= k < i ==> !encloses(#[trigger] paths[k], site@),
            },
        decreases closure_paths.len() - i,
    {
        assert(paths[i as int] == closure_paths@[i as int]@);
        if path_encloses(closure_paths[i].as_str(), site) {
            best = match best {
                Some(b) => if closure_paths[b].as_str().unicode_len()
                    < closure_paths[i].as_str().unicode_len() {
                    Some(i)
                } else {
                    Some(b)
                },
                None => Some(i),
            };
        }
        i += 1;
    }
    match best {
        Some(b) => {
            let owner = closure_paths[b].clone();
            proof {
                assert(paths[b as int] == owner@);
                assert(is_site_owner(site@, paths, owner@));
                site_owner_is_unique(site@, paths, owner@, owner_of(site@, paths)->0);
            }
            Some(owner)
        },
        None => None,
    }
}

/// What the checker said of a list of nodules.
pub open spec fn outcome_view(outcome: Result<(), CheckError>) -> Result<(), CheckErrorView> {
    match outcome {
        Ok(()) => Ok(()),
        Err(e) => Err(e@),
    }
}

/// The class of a nodule by the checker's outcome on its import closure.
pub open spec fn class_of(
    path: Seq<char>,
    closure_paths: Seq<Seq<char>>,
    outcome: Result<(), CheckErrorView>,
) -> NoduleClassView {
    match outcome {
        Ok(()) => NoduleClassView::Clean,
        Err(e) => match owner_of(e.site, closure_paths) {
            Some(owner) => if owner == path {
                NoduleClassView::CheckError { site: e.site, message: e.message }
            } else {
                NoduleClassView::Blocked { on: owner, message: e.message }
            },
            None => NoduleClassView::CheckError { site: e.site, message: e.message },
        },
    }
}

/// The class of the nodule at `path` by the checker's outcome on its import closure.
fn classify(path: &String, closure_paths: &Vec<String>, outcome: &Result<(), CheckError>) -> (class:
    NoduleClass)
    ensures
        class@ == class_of(path@, texts(closure_paths@), outcome_view(*outcome)),
{
    match outcome {
        Ok(()) => NoduleClass::Clean,
        Err(e) => match site_owner(e.site.as_str(), closure_paths) {
            Some(owner) => if owner == *path {
                NoduleClass::CheckError { site: e.site.clone(), message: e.message.clone() }
            } else {
                NoduleClass::Blocked { on: owner, message: e.message.clone() }
            },
            None => NoduleClass::CheckError { site: e.site.clone(), message: e.message.clone() },
        },
    }
}

/// The verdicts of a phylum that was refused as a whole, by the checker's outcome on each
/// nodule's import closure.
pub open spec fn partial_verdicts(
    nodules: Seq<Nodule>,
    files: Seq<Seq<char>>,
    outcomes: Seq<Result<(), CheckErrorView>>,
) -> Seq<NoduleVerdictView> {
    Seq::new(
        nodules.len(),
        |i: int|
            NoduleVerdictView {
                nodule: nodule_path(nodules[i]),
                file: files[i],
                class: class_of(
                    nodule_path(nodules[i]),
                    use_graph(nodules).closure_paths(i),
                    outcomes[i],
                ),
            },
    )
}

/// The contents of a list of outcomes.
pub open spec fn outcomes_view(outcomes: Seq<Result<(), CheckError>>) -> Seq<
    Result<(), CheckErrorView>,
> {
    outcomes.map_values(|o: Result<(), CheckError>| outcome_view(o))
}

/// The strings at the given places.
fn pick(strings: &Vec<String>, places: &Vec<usize>) -> (picked: Vec<String>)
    requires
        forall|k: int| 0 <= k < places@.len() ==> (#[trigger] places@[k]) < strings@.len(),
    ensures
        texts(picked@) == places@.map_values(|k: usize| texts(strings@)[k as int]),
{
    let mut picked: Vec<String> = Vec::new();
    let mut i: usize = 0;
    while i < places.len()
        invariant
            i <= places.len(),
            forall|k: int| 0 <= k < places@.len() ==> (#[trigger] places@[k]) < strings@.len(),
            picked@.len() == i,
            forall|k: int|
                0 <= k < i ==> (#[trigger] picked@[k])@ == strings@[places@[k] as int]@,
        decreases places.len() - i,
    {
        picked.push(strings[places[i]].clone());
        i += 1;
    }
    assert(texts(picked@) =~= places@.map_values(|k: usize| texts(strings@)[k as int]));
    picked
}

/// The members of an import closure are nodules of the batch.
proof fn lemma_closure_in_range(g: UseGraph, i: int)
    requires
        g.paths.len() <= usize::MAX,
    ensures
        forall|k: int|
            0 <= k < g.closure(i).len() ==> (#[trigger] g.closure(i)[k]) < g.paths.len(),
{
    closure_lists_the_reachable(g, i);
    assert forall|k: int| 0 <= k < g.closure(i).len() implies (#[trigger] g.closure(i)[k])
        < g.paths.len() by {
        let m = g.closure(i)[k];
        assert(g.closure(i).contains(m));
        closure_stays_in_the_batch(g, i, m as int);
    }
}

/// One verdict for each nodule of a phylum that was refused as a whole, by the checker's outcome
/// on each nodule's import closure.
pub fn compute_partial_verdicts(
    nodules: &Vec<Nodule>,
    files: &Vec<String>,
    outcomes: &Vec<Result<(), CheckError>>,
) -> (verdicts: Vec<NoduleVerdict>)
    requires
        files@.len() == nodules@.len(),
        outcomes@.len() == nodules@.len(),
    ensures
        verdicts_view(verdicts@) == partial_verdicts(
            nodules@,
            texts(files@),
            outcomes_view(outcomes@),
        ),
{
    let edges = build_use_edges(nodules);
    let paths = paths_of(nodules);
    let ghost g = use_graph(nodules@);
    let ghost expected = partial_verdicts(nodules@, texts(files@), outcomes_view(outcomes@));
    assert(texts(paths@).len() == nodules@.len());
    proof {
        edges_hold_the_import_relation(nodules@, edges@, paths@);
    }
    let mut verdicts: Vec<NoduleVerdict> = Vec::new();
    let mut i: usize = 0;
    while i < nodules.len()
        invariant
            i <= nodules.len(),
            files@.len() == nodules@.len(),
            outcomes@.len() == nodules@.len(),
            edges@.len() == nodules@.len(),
            paths@.len() == nodules@.len(),
            g == use_graph(nodules@),
            g == graph_of(edges@, paths@),
            expected == partial_verdicts(nodules@, texts(files@), outcomes_view(outcomes@)),
            verdicts@.len() == i,
            forall|k: int| 0 <= k < i ==> (#[trigger] verdicts@[k])@ == expected[k],
        decreases nodules.len() - i,
    {
        let members = sub_phylum(i, &edges, &paths);
        proof {
            lemma_closure_in_range(g, i as int);
        }
        let closure_paths = pick(&paths, &members);
        assert(texts(closure_paths@) =~= g.closure_paths(i as int));
        assert(texts(paths@)[i as int] == nodule_path(nodules@[i as int]));
        let class = classify(&paths[i], &closure_paths, &outcomes[i]);
        verdicts.push(
            NoduleVerdict { nodule: paths[i].clone(), file: files[i].clone(), class },
        );
        i += 1;
    }
    assert(verdicts_view(verdicts@) =~= expected);
    verdicts
}

} // verus!
