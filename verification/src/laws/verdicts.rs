//! Laws of the report on a phylum: what is refused, where, and what each nodule is told.

use vstd::prelude::*;
use vstd::string::*;

use crate::closure::{
    closure_lists_the_reachable, closure_stays_in_the_batch, nodule_path, use_graph, UseGraph,
};
use crate::diagnostics::CheckErrorView;
use crate::phylum::{
    class_of, encloses, is_site_owner, owner_of, partial_verdicts, site_owner_is_unique,
    PhylumReportView,
};
use crate::session::{
    everyone, is_first_repeat, report_names_the_first_repeated_path,
    report_names_the_first_unparsable_source, Kernel, PhylumActionView, Progress,
};
use crate::syntax::Nodule;

verus! {

/// The path that a source declares.
spec fn declared(kernel: Kernel, source: (Seq<char>, Seq<char>)) -> Seq<char> {
    nodule_path((kernel.parse)(source.1)->Ok_0)
}

/// Whether every source parses.
spec fn every_source_parses(kernel: Kernel, sources: Seq<(Seq<char>, Seq<char>)>) -> bool {
    forall|i: int| 0 <= i < sources.len() ==> (kernel.parse)((#[trigger] sources[i]).1) is Ok
}

/// Whether no two sources declare the same path.
spec fn every_path_is_new(kernel: Kernel, sources: Seq<(Seq<char>, Seq<char>)>) -> bool {
    forall|i: int, j: int|
        0 <= i < j < sources.len() ==> declared(kernel, #[trigger] sources[i]) != declared(
            kernel,
            #[trigger] sources[j],
        )
}

/// What the checker says of all sources together, in their order.
spec fn whole(kernel: Kernel, sources: Seq<(Seq<char>, Seq<char>)>) -> Result<(), CheckErrorView> {
    (kernel.check)(Seq::new(sources.len(), |i: int| sources[i].1))
}

proof fn lemma_assembles(kernel: Kernel, sources: Seq<(Seq<char>, Seq<char>)>)
    requires
        every_source_parses(kernel, sources),
        every_path_is_new(kernel, sources),
    ensures
        kernel.assembles(sources),
{
    let paths = crate::closure::nodule_paths(kernel.nodules(sources));
    assert forall|i: int| 0 <= i < sources.len() implies (#[trigger] kernel.parses(
        sources,
        i,
    )) is Ok by {
        assert((kernel.parse)(sources[i].1) is Ok);
    }
    assert forall|i: int, j: int| 0 <= i < paths.len() && 0 <= j < paths.len() && i != j implies paths[
        i] != paths[j] by {
        assert(paths[i] == declared(kernel, sources[i]));
        assert(paths[j] == declared(kernel, sources[j]));
    }
}

proof fn lemma_whole(kernel: Kernel, sources: Seq<(Seq<char>, Seq<char>)>)
    requires
        sources.len() <= usize::MAX,
    ensures
        kernel.checks(sources, everyone(sources.len())) == whole(kernel, sources),
{
    assert(everyone(sources.len()).map_values(|m: usize| sources[m as int].1) =~= Seq::new(
        sources.len(),
        |i: int| sources[i].1,
    ));
}

/// A phylum that the checker refuses is reported as refused, with the checker's own site and
/// message, under exit code 3; and each source has its verdict, under its label and its path.
pub proof fn a_refused_phylum_shows_the_checkers_refusal(
    kernel: Kernel,
    sources: Seq<(Seq<char>, Seq<char>)>,
    site: Seq<char>,
    message: Seq<char>,
)
    requires
        sources.len() <= usize::MAX,
        forall|i: int| 0 <= i < sources.len() ==> (kernel.parse)((#[trigger] sources[i]).1) is Ok,
        forall|i: int, j: int|
            0 <= i < j < sources.len() ==> nodule_path(
                (kernel.parse)((#[trigger] sources[i]).1)->Ok_0,
            ) != nodule_path((kernel.parse)((#[trigger] sources[j]).1)->Ok_0),
        (kernel.check)(Seq::new(sources.len(), |i: int| sources[i].1)) == Err::<(), CheckErrorView>(
            CheckErrorView { site, message },
        ),
    ensures
        ({
            let report = kernel.report(sources);
            &&& !report.ok
            &&& report.files_checked == sources.len()
            &&& report.error is Some
            &&& report.error->0.kind is Check
            &&& report.error->0.site == site
            &&& report.error->0.message == message
            &&& report.exit_code() == 3
            &&& report.nodules.len() == sources.len()
            &&& forall|i: int|
                0 <= i < sources.len() ==> {
                    &&& (#[trigger] report.nodules[i]).file == sources[i].0
                    &&& report.nodules[i].nodule == nodule_path((kernel.parse)(sources[i].1)->Ok_0)
                }
        }),
{
    lemma_assembles(kernel, sources);
    lemma_whole(kernel, sources);
}

/// A phylum that the checker accepts is reported as good: no error, exit code 0, and every source
/// clean, under its label and its path.
pub proof fn an_accepted_phylum_is_clean_throughout(
    kernel: Kernel,
    sources: Seq<(Seq<char>, Seq<char>)>,
)
    requires
        sources.len() <= usize::MAX,
        forall|i: int| 0 <= i < sources.len() ==> (kernel.parse)((#[trigger] sources[i]).1) is Ok,
        forall|i: int, j: int|
            0 <= i < j < sources.len() ==> nodule_path(
                (kernel.parse)((#[trigger] sources[i]).1)->Ok_0,
            ) != nodule_path((kernel.parse)((#[trigger] sources[j]).1)->Ok_0),
        (kernel.check)(Seq::new(sources.len(), |i: int| sources[i].1)) is Ok,
    ensures
        ({
            let report = kernel.report(sources);
            &&& report.ok
            &&& report.files_checked == sources.len()
            &&& report.error is None
            &&& report.exit_code() == 0
            &&& report.nodules.len() == sources.len()
            &&& forall|i: int|
                0 <= i < sources.len() ==> {
                    &&& (#[trigger] report.nodules[i]).file == sources[i].0
                    &&& report.nodules[i].nodule == nodule_path((kernel.parse)(sources[i].1)->Ok_0)
                    &&& report.nodules[i].class is Clean
                }
        }),
{
    lemma_assembles(kernel, sources);
    lemma_whole(kernel, sources);
}

/// The first source that does not parse is what the report names: its label is the site and the
/// parser's message the message, under exit code 2, and no nodule has a verdict. Neither what
/// stands behind it nor the checker has a say.
pub proof fn an_unparsable_source_is_named(
    kernel: Kernel,
    sources: Seq<(Seq<char>, Seq<char>)>,
    i: int,
)
    requires
        0 <= i < sources.len(),
        (kernel.parse)(sources[i].1) is Err,
        forall|j: int| 0 <= j < i ==> (kernel.parse)((#[trigger] sources[j]).1) is Ok,
    ensures
        ({
            let report = kernel.report(sources);
            &&& !report.ok
            &&& report.files_checked == sources.len()
            &&& report.error is Some
            &&& report.error->0.kind is Parse
            &&& report.error->0.site == sources[i].0
            &&& report.error->0.message == (kernel.parse)(sources[i].1)->Err_0
            &&& report.exit_code() == 2
            &&& report.nodules.len() == 0
        }),
{
    let first = report_names_the_first_unparsable_source(sources, kernel, i);
    assert(kernel.parses(sources, i) is Err);
    assert(kernel.parses(sources, first) is Err);
    if first < i {
        assert((kernel.parse)(sources[first].1) is Ok);
    } else if i < first {
        assert(kernel.parses(sources, i) is Ok);
    }
}

/// Where every source parses, the first path that is declared a second time is what the report
/// names: it is the site, and the message says that it is declared more than once, under exit code
/// 3, and no nodule has a verdict. The checker has no say.
pub proof fn a_repeated_path_is_named(
    kernel: Kernel,
    sources: Seq<(Seq<char>, Seq<char>)>,
    i: int,
    j: int,
)
    requires
        forall|k: int| 0 <= k < sources.len() ==> (kernel.parse)((#[trigger] sources[k]).1) is Ok,
        0 <= i < j < sources.len(),
        nodule_path((kernel.parse)(sources[i].1)->Ok_0) == nodule_path(
            (kernel.parse)(sources[j].1)->Ok_0,
        ),
        forall|a: int, b: int|
            0 <= a < b < j ==> nodule_path((kernel.parse)((#[trigger] sources[a]).1)->Ok_0)
                != nodule_path((kernel.parse)((#[trigger] sources[b]).1)->Ok_0),
    ensures
        ({
            let report = kernel.report(sources);
            let path = nodule_path((kernel.parse)(sources[j].1)->Ok_0);
            &&& !report.ok
            &&& report.files_checked == sources.len()
            &&& report.error is Some
            &&& report.error->0.kind is Duplicate
            &&& report.error->0.site == path
            &&& report.error->0.message == "nodule `"@ + path
                + "` is declared more than once — every nodule path in a phylum must be unique"@
            &&& report.exit_code() == 3
            &&& report.nodules.len() == 0
        }),
{
    let paths = crate::closure::nodule_paths(kernel.nodules(sources));
    assert forall|k: int| 0 <= k < sources.len() implies (#[trigger] kernel.parses(
        sources,
        k,
    )) is Ok by {
        assert((kernel.parse)(sources[k].1) is Ok);
    }
    assert forall|k: int| 0 <= k < paths.len() implies #[trigger] paths[k] == declared(
        kernel,
        sources[k],
    ) by {}
    assert(paths[i] == paths[j]);
    let first = report_names_the_first_repeated_path(sources, kernel);
    if first < j {
        let a = choose|a: int| 0 <= a < first && paths.take(first)[a] == paths[first];
        assert(paths[a] == paths[first]);
        assert(declared(kernel, sources[a]) == declared(kernel, sources[first]));
    } else if j < first {
        assert(paths.take(first)[i] == paths.take(first)[j]);
    }
    assert(kernel.nodules(sources)[j] == (kernel.parse)(sources[j].1)->Ok_0);
}

/// Whether a site lies under a path: its text is the path, or goes on behind the path with a dot.
pub open spec fn lies_under(site: Seq<char>, path: Seq<char>) -> bool {
    &&& 0 < path.len() <= site.len()
    &&& forall|k: int| 0 <= k < path.len() ==> site[k] == #[trigger] path[k]
    &&& path.len() < site.len() ==> site[path.len() as int] == '.'
}

proof fn lemma_lies_under(site: Seq<char>, path: Seq<char>)
    ensures
        encloses(path, site) <==> lies_under(site, path),
{
    reveal_strlit(".");
    let longer = path + "."@;
    if lies_under(site, path) {
        if path.len() == site.len() {
            assert(site =~= path);
        } else {
            assert(longer =~= site.take(path.len() as int + 1));
        }
    } else if encloses(path, site) && site != path {
        assert forall|k: int| 0 <= k < path.len() implies site[k] == #[trigger] path[k] by {
            assert(longer[k] == site[k]);
        }
        assert(longer[path.len() as int] == site[path.len() as int]);
    }
}

/// Whether these are the places that imports lead to from place `i`, in order.
pub open spec fn are_members(g: UseGraph, i: int, members: Seq<usize>) -> bool {
    &&& forall|k: usize| #[trigger] members.contains(k) <==> g.reaches(i, k as int)
    &&& forall|a: int, b: int|
        0 <= a < b < members.len() ==> (#[trigger] members[a]) < (#[trigger] members[b])
}

/// A list of places in order is told by what it holds.
proof fn lemma_ordered_places_are_unique(a: Seq<usize>, b: Seq<usize>)
    requires
        forall|k: usize| #[trigger] a.contains(k) <==> b.contains(k),
        forall|x: int, y: int| 0 <= x < y < a.len() ==> (#[trigger] a[x]) < (#[trigger] a[y]),
        forall|x: int, y: int| 0 <= x < y < b.len() ==> (#[trigger] b[x]) < (#[trigger] b[y]),
    ensures
        a == b,
    decreases a.len(),
{
    if a.len() == 0 {
        if b.len() > 0 {
            assert(b.contains(b[0]));
            assert(a.contains(b[0]));
        }
        assert(a =~= b);
    } else {
        assert(a.contains(a.last()));
        assert(b.contains(a.last()));
        assert(b.contains(b.last()));
        assert(a.contains(b.last()));
        let x = choose|x: int| 0 <= x < a.len() && a[x] == b.last();
        let y = choose|y: int| 0 <= y < b.len() && b[y] == a.last();
        if x < a.len() - 1 {
            assert(a[x] < a[a.len() - 1]);
        }
        if y < b.len() - 1 {
            assert(b[y] < b[b.len() - 1]);
        }
        assert(a.last() == b.last());
        let p = a.drop_last();
        let q = b.drop_last();
        assert forall|k: usize| #[trigger] p.contains(k) <==> q.contains(k) by {
            if p.contains(k) {
                let at = choose|at: int| 0 <= at < p.len() && p[at] == k;
                assert(a[at] == k && a[at] < a[a.len() - 1]);
                assert(a.contains(k));
                let to = choose|to: int| 0 <= to < b.len() && b[to] == k;
                assert(q[to] == k);
            }
            if q.contains(k) {
                let at = choose|at: int| 0 <= at < q.len() && q[at] == k;
                assert(b[at] == k && b[at] < b[b.len() - 1]);
                assert(b.contains(k));
                assert(a.contains(k));
                let to = choose|to: int| 0 <= to < a.len() && a[to] == k;
                assert(p[to] == k);
            }
        }
        lemma_ordered_places_are_unique(p, q);
        assert(a =~= p.push(a.last()));
        assert(b =~= q.push(b.last()));
    }
}

proof fn lemma_closure_is_told_by_its_members(g: UseGraph, i: int, members: Seq<usize>)
    requires
        g.paths.len() <= usize::MAX,
        are_members(g, i, members),
    ensures
        g.closure(i) == members,
{
    closure_lists_the_reachable(g, i);
    assert forall|k: usize| #[trigger] g.closure(i).contains(k) <==> members.contains(k) by {}
    lemma_ordered_places_are_unique(g.closure(i), members);
}

/// Whether the sources all parse, under paths that are all different, and the checker refuses them
/// together.
pub open spec fn is_refused_as_a_whole(
    kernel: Kernel,
    sources: Seq<(Seq<char>, Seq<char>)>,
) -> bool {
    &&& sources.len() <= usize::MAX
    &&& forall|k: int| 0 <= k < sources.len() ==> (kernel.parse)((#[trigger] sources[k]).1) is Ok
    &&& forall|k: int, l: int|
        0 <= k < l < sources.len() ==> nodule_path((kernel.parse)((#[trigger] sources[k]).1)->Ok_0)
            != nodule_path((kernel.parse)((#[trigger] sources[l]).1)->Ok_0)
    &&& (kernel.check)(Seq::new(sources.len(), |k: int| sources[k].1)) is Err
}

/// What the verdict on a nodule of a refused phylum rests on.
proof fn lemma_verdict(
    kernel: Kernel,
    sources: Seq<(Seq<char>, Seq<char>)>,
    i: int,
    members: Seq<usize>,
)
    requires
        is_refused_as_a_whole(kernel, sources),
        0 <= i < sources.len(),
        are_members(
            use_graph(Seq::new(sources.len(), |k: int| (kernel.parse)(sources[k].1)->Ok_0)),
            i,
            members,
        ),
    ensures
        ({
            let report = kernel.report(sources);
            let paths = members.map_values(|m: usize| declared(kernel, sources[m as int]));
            &&& report.nodules.len() == sources.len()
            &&& report.nodules[i].class == class_of(
                declared(kernel, sources[i]),
                paths,
                (kernel.check)(members.map_values(|m: usize| sources[m as int].1)),
            )
            &&& forall|m: usize| #[trigger]
                members.contains(m) ==> m < sources.len() && paths.contains(
                    declared(kernel, sources[m as int]),
                )
            &&& forall|p: Seq<char>| #[trigger]
                paths.contains(p) ==> exists|m: usize| #[trigger]
                    members.contains(m) && p == declared(kernel, sources[m as int])
        }),
{
    lemma_assembles(kernel, sources);
    lemma_whole(kernel, sources);
    let nodules = Seq::new(sources.len(), |k: int| (kernel.parse)(sources[k].1)->Ok_0);
    assert(kernel.nodules(sources) =~= nodules);
    let g = use_graph(nodules);
    assert(g.paths.len() == sources.len());
    lemma_closure_is_told_by_its_members(g, i, members);
    let paths = members.map_values(|m: usize| declared(kernel, sources[m as int]));
    assert forall|m: usize| #[trigger] members.contains(m) implies m < sources.len()
        && paths.contains(declared(kernel, sources[m as int])) by {
        closure_stays_in_the_batch(g, i, m as int);
        let at = choose|at: int| 0 <= at < members.len() && members[at] == m;
        assert(paths[at] == declared(kernel, sources[m as int]));
    }
    assert forall|p: Seq<char>| #[trigger] paths.contains(p) implies exists|m: usize| #[trigger]
        members.contains(m) && p == declared(kernel, sources[m as int]) by {
        let at = choose|at: int| 0 <= at < paths.len() && paths[at] == p;
        assert(members.contains(members[at]));
    }
    assert(g.closure_paths(i) =~= paths) by {
        assert forall|at: int| 0 <= at < members.len() implies g.closure_paths(i)[at]
            == paths[at] by {
            assert(members.contains(members[at]));
            assert(g.paths[members[at] as int] == nodule_path(nodules[members[at] as int]));
        }
    }
    assert(declared(kernel, sources[i]) == nodule_path(nodules[i]));
}

/// In a refused phylum, a nodule whose import closure the checker accepts is clean, whatever is
/// wrong elsewhere; and no other nodule is.
pub proof fn a_nodule_is_clean_by_its_closure(
    kernel: Kernel,
    sources: Seq<(Seq<char>, Seq<char>)>,
    i: int,
    members: Seq<usize>,
)
    requires
        is_refused_as_a_whole(kernel, sources),
        0 <= i < sources.len(),
        are_members(
            use_graph(Seq::new(sources.len(), |k: int| (kernel.parse)(sources[k].1)->Ok_0)),
            i,
            members,
        ),
    ensures
        kernel.report(sources).nodules.len() == sources.len(),
        kernel.report(sources).nodules[i].class is Clean <==> (kernel.check)(
            members.map_values(|m: usize| sources[m as int].1),
        ) is Ok,
{
    lemma_verdict(kernel, sources, i, members);
}

/// In a refused phylum, a failure of a nodule's import closure is put down to the member of the
/// closure that the site lies in, the innermost one where paths are nested, however many members
/// there are. Where that is another nodule, the nodule is blocked on exactly that path, with the
/// checker's message; where it is the nodule itself, the nodule is in error, with the checker's site
/// and message.
pub proof fn a_failure_is_put_down_to_the_nodule_it_lies_in(
    kernel: Kernel,
    sources: Seq<(Seq<char>, Seq<char>)>,
    i: int,
    members: Seq<usize>,
    owner: usize,
)
    requires
        is_refused_as_a_whole(kernel, sources),
        0 <= i < sources.len(),
        are_members(
            use_graph(Seq::new(sources.len(), |k: int| (kernel.parse)(sources[k].1)->Ok_0)),
            i,
            members,
        ),
        (kernel.check)(members.map_values(|m: usize| sources[m as int].1)) is Err,
        members.contains(owner),
        ({
            let site = (kernel.check)(members.map_values(|m: usize| sources[m as int].1))->Err_0.site;
            let path = nodule_path((kernel.parse)(sources[owner as int].1)->Ok_0);
            &&& lies_under(site, path)
            &&& forall|m: usize| #[trigger]
                members.contains(m) && lies_under(
                    site,
                    nodule_path((kernel.parse)(sources[m as int].1)->Ok_0),
                ) ==> nodule_path((kernel.parse)(sources[m as int].1)->Ok_0).len() <= path.len()
        }),
    ensures
        ({
            let error = (kernel.check)(members.map_values(|m: usize| sources[m as int].1))->Err_0;
            let class = kernel.report(sources).nodules[i].class;
            &&& kernel.report(sources).nodules.len() == sources.len()
            &&& owner != i ==> {
                &&& class is Blocked
                &&& class->on == nodule_path((kernel.parse)(sources[owner as int].1)->Ok_0)
                &&& class->Blocked_message == error.message
            }
            &&& owner == i ==> {
                &&& class is CheckError
                &&& class->site == error.site
                &&& class->CheckError_message == error.message
            }
        }),
{
    lemma_verdict(kernel, sources, i, members);
    let paths = members.map_values(|m: usize| declared(kernel, sources[m as int]));
    let error = (kernel.check)(members.map_values(|m: usize| sources[m as int].1))->Err_0;
    let path = declared(kernel, sources[owner as int]);
    assert(paths.contains(path));
    lemma_lies_under(error.site, path);
    assert forall|p: Seq<char>| #[trigger]
        paths.contains(p) && encloses(p, error.site) implies p.len() <= path.len() by {
        lemma_lies_under(error.site, p);
        let m = choose|m: usize| #[trigger]
            members.contains(m) && p == declared(kernel, sources[m as int]);
        assert(members.contains(m));
    }
    assert(is_site_owner(error.site, paths, path));
    site_owner_is_unique(error.site, paths, path, owner_of(error.site, paths)->0);
    if owner != i {
        assert(declared(kernel, sources[i]) != path) by {
            if i < owner {
                assert(declared(kernel, sources[i]) != declared(kernel, sources[owner as int]));
            } else {
                assert(declared(kernel, sources[owner as int]) != declared(kernel, sources[i]));
            }
        }
    }
}

/// In a refused phylum, a failure of a nodule's import closure at a site that lies in no member of
/// the closure is put down to the nodule itself, with the checker's site and message: no culprit
/// is guessed.
pub proof fn a_failure_that_lies_nowhere_is_the_nodules_own(
    kernel: Kernel,
    sources: Seq<(Seq<char>, Seq<char>)>,
    i: int,
    members: Seq<usize>,
)
    requires
        is_refused_as_a_whole(kernel, sources),
        0 <= i < sources.len(),
        are_members(
            use_graph(Seq::new(sources.len(), |k: int| (kernel.parse)(sources[k].1)->Ok_0)),
            i,
            members,
        ),
        (kernel.check)(members.map_values(|m: usize| sources[m as int].1)) is Err,
        forall|m: usize| #[trigger]
            members.contains(m) ==> !lies_under(
                (kernel.check)(members.map_values(|k: usize| sources[k as int].1))->Err_0.site,
                nodule_path((kernel.parse)(sources[m as int].1)->Ok_0),
            ),
    ensures
        ({
            let error = (kernel.check)(members.map_values(|m: usize| sources[m as int].1))->Err_0;
            let class = kernel.report(sources).nodules[i].class;
            &&& kernel.report(sources).nodules.len() == sources.len()
            &&& class is CheckError
            &&& class->site == error.site
            &&& class->CheckError_message == error.message
        }),
{
    lemma_verdict(kernel, sources, i, members);
    let paths = members.map_values(|m: usize| declared(kernel, sources[m as int]));
    let error = (kernel.check)(members.map_values(|m: usize| sources[m as int].1))->Err_0;
    assert forall|p: Seq<char>| !is_site_owner(error.site, paths, p) by {
        if is_site_owner(error.site, paths, p) {
            lemma_lies_under(error.site, p);
            let m = choose|m: usize| #[trigger]
                members.contains(m) && p == declared(kernel, sources[m as int]);
            assert(members.contains(m));
        }
    }
}

/// An exchange in which the sources before its place have parsed.
spec fn has_parsed(p: Progress, kernel: Kernel, n: int) -> bool {
    &&& 0 <= n <= p.sources.len()
    &&& p.report is None
    &&& p.refused is None
    &&& p.outcomes.len() == 0
    &&& p.nodules == Seq::new(n as nat, |i: int| (kernel.parse)(p.sources[i].1)->Ok_0)
}

proof fn lemma_parsing(p: Progress, kernel: Kernel, a: int, n: nat)
    requires
        has_parsed(p, kernel, a),
        a + n <= p.sources.len(),
        forall|j: int| 0 <= j < a + n ==> (kernel.parse)((#[trigger] p.sources[j]).1) is Ok,
        every_path_is_new(kernel, p.sources),
    ensures
        has_parsed(p.steps(kernel, n), kernel, a + n),
        p.steps(kernel, n).sources == p.sources,
    decreases n,
{
    if n > 0 {
        let next = p.step(kernel);
        assert((kernel.parse)(p.sources[a].1) is Ok);
        let nodules = Seq::new((a + 1) as nat, |i: int| (kernel.parse)(p.sources[i].1)->Ok_0);
        assert(p.nodules.push((kernel.parse)(p.sources[a].1)->Ok_0) =~= nodules);
        let paths = crate::closure::nodule_paths(nodules);
        assert forall|i: int, j: int|
            0 <= i < paths.len() && 0 <= j < paths.len() && i != j implies paths[i] != paths[j] by {
            assert(paths[i] == declared(kernel, p.sources[i]));
            assert(paths[j] == declared(kernel, p.sources[j]));
        }
        assert(paths.no_duplicates());
        lemma_parsing(next, kernel, a + 1, (n - 1) as nat);
    }
}

/// The questions come in order, and none is put twice: the sources are parsed one after the other;
/// once all have parsed, the checker is asked about all of them, in their order; and where it
/// accepts them, nothing more is asked.
pub proof fn questions_come_in_order(
    kernel: Kernel,
    sources: Seq<(Seq<char>, Seq<char>)>,
    n: nat,
    members: Seq<usize>,
)
    requires
        sources.len() <= usize::MAX,
        n <= sources.len(),
        forall|j: int| 0 <= j < n ==> (kernel.parse)((#[trigger] sources[j]).1) is Ok,
        forall|k: int, l: int|
            0 <= k < l < sources.len() ==> nodule_path(
                (kernel.parse)((#[trigger] sources[k]).1)->Ok_0,
            ) != nodule_path((kernel.parse)((#[trigger] sources[l]).1)->Ok_0),
        members.len() == sources.len(),
        forall|k: int| 0 <= k < members.len() ==> #[trigger] members[k] == k,
    ensures
        ({
            let p = Progress::start(sources).steps(kernel, n);
            &&& n < sources.len() ==> p.action() == PhylumActionView::Parse(n as int)
            &&& n < sources.len() && (kernel.parse)(sources[n as int].1) is Err ==> p.step(
                kernel,
            ).action() is Finished
            &&& n == sources.len() ==> p.action() == PhylumActionView::Check(members)
            &&& n == sources.len() && (kernel.check)(Seq::new(n, |i: int| sources[i].1)) is Ok
                ==> p.step(kernel).action() is Finished
        }),
{
    let p = Progress::start(sources);
    assert(p.nodules =~= Seq::new(0, |i: int| (kernel.parse)(p.sources[i].1)->Ok_0));
    assert(every_path_is_new(kernel, sources)) by {
        assert forall|i: int, j: int| 0 <= i < j < sources.len() implies declared(
            kernel,
            #[trigger] sources[i],
        ) != declared(kernel, #[trigger] sources[j]) by {}
    }
    lemma_parsing(p, kernel, 0, n);
    lemma_whole(kernel, sources);
    assert(everyone(sources.len()) =~= members);
}

/// Once a phylum is refused as a whole, the checker is asked about each import closure in turn, in
/// the order of the nodules.
pub proof fn closures_are_asked_about_in_turn(p: Progress, members: Seq<usize>)
    requires
        p.nodules.len() == p.sources.len() <= usize::MAX,
        p.report is None,
        p.refused is Some,
        p.outcomes.len() < p.nodules.len(),
        are_members(use_graph(p.nodules), p.outcomes.len() as int, members),
    ensures
        p.action() == PhylumActionView::Check(members),
{
    lemma_closure_is_told_by_its_members(
        use_graph(p.nodules),
        p.outcomes.len() as int,
        members,
    );
}

/// A site's owner among some paths is the longest of them that the site lies under; it has none
/// exactly if it lies under none of them.
pub proof fn the_innermost_path_owns_a_site(site: Seq<char>, paths: Seq<Seq<char>>, path: Seq<char>)
    ensures
        owner_of(site, paths) == Some(path) <==> {
            &&& paths.contains(path)
            &&& lies_under(site, path)
            &&& forall|p: Seq<char>| #[trigger]
                paths.contains(p) && lies_under(site, p) ==> p.len() <= path.len()
        },
        owner_of(site, paths) is None <==> forall|p: Seq<char>| #[trigger]
            paths.contains(p) ==> !lies_under(site, p),
{
    assert forall|p: Seq<char>| #[trigger] paths.contains(p) implies (encloses(p, site)
        <==> lies_under(site, p)) by {
        lemma_lies_under(site, p);
    }
    lemma_lies_under(site, path);
    if exists|p: Seq<char>| #[trigger] paths.contains(p) && lies_under(site, p) {
        let p = choose|p: Seq<char>| #[trigger] paths.contains(p) && lies_under(site, p);
        let at = choose|at: int| 0 <= at < paths.len() && paths[at] == p;
        let longest = lemma_longest(site, paths, at);
        assert(is_site_owner(site, paths, longest));
    }
    if owner_of(site, paths) is Some {
        let owner = owner_of(site, paths)->0;
        assert(is_site_owner(site, paths, owner));
        if is_site_owner(site, paths, path) {
            site_owner_is_unique(site, paths, path, owner);
        }
    }
    if paths.contains(path) && lies_under(site, path) && forall|p: Seq<char>| #[trigger]
        paths.contains(p) && lies_under(site, p) ==> p.len() <= path.len() {
        assert(is_site_owner(site, paths, path));
    }
}

/// Among the paths that a site lies under, there is a longest.
proof fn lemma_longest(site: Seq<char>, paths: Seq<Seq<char>>, at: int) -> (longest: Seq<char>)
    requires
        0 <= at < paths.len(),
        encloses(paths[at], site),
    ensures
        is_site_owner(site, paths, longest),
    decreases site.len() - paths[at].len(),
{
    lemma_lies_under(site, paths[at]);
    if is_site_owner(site, paths, paths[at]) {
        paths[at]
    } else {
        assert(paths.contains(paths[at]));
        let p = choose|p: Seq<char>| #[trigger]
            paths.contains(p) && encloses(p, site) && p.len() > paths[at].len();
        let next = choose|next: int| 0 <= next < paths.len() && paths[next] == p;
        lemma_lies_under(site, p);
        lemma_longest(site, paths, next)
    }
}

/// The verdicts on a refused batch come one for each nodule, under its path and its file, each by
/// the outcome on its import closure: clean where that checks; blocked, with the checker's message,
/// on the innermost path of the closure that the site of the failure lies under, where that is not
/// the nodule's own; and else in error, with the checker's site and message.
pub proof fn verdicts_come_by_the_closures(
    nodules: Seq<Nodule>,
    files: Seq<Seq<char>>,
    outcomes: Seq<Result<(), CheckErrorView>>,
    i: int,
    members: Seq<usize>,
    paths: Seq<Seq<char>>,
)
    requires
        0 <= i < nodules.len() <= usize::MAX,
        files.len() == nodules.len(),
        outcomes.len() == nodules.len(),
        are_members(use_graph(nodules), i, members),
        paths.len() == members.len(),
        forall|k: int|
            0 <= k < paths.len() ==> #[trigger] paths[k] == nodule_path(nodules[members[k] as int]),
    ensures
        ({
            let verdicts = partial_verdicts(nodules, files, outcomes);
            let verdict = verdicts[i];
            &&& verdicts.len() == nodules.len()
            &&& verdict.nodule == nodule_path(nodules[i])
            &&& verdict.file == files[i]
            &&& verdict.class is Clean <==> outcomes[i] is Ok
            &&& verdict.class is Blocked <==> outcomes[i] is Err && owner_of(
                outcomes[i]->Err_0.site,
                paths,
            ) is Some && owner_of(outcomes[i]->Err_0.site, paths) != Some(nodule_path(nodules[i]))
            &&& verdict.class is Blocked ==> {
                &&& Some(verdict.class->on) == owner_of(outcomes[i]->Err_0.site, paths)
                &&& verdict.class->Blocked_message == outcomes[i]->Err_0.message
            }
            &&& verdict.class is CheckError ==> {
                &&& verdict.class->site == outcomes[i]->Err_0.site
                &&& verdict.class->CheckError_message == outcomes[i]->Err_0.message
            }
        }),
{
    let g = use_graph(nodules);
    lemma_closure_is_told_by_its_members(g, i, members);
    assert(g.closure_paths(i) =~= paths) by {
        assert forall|k: int| 0 <= k < members.len() implies g.closure_paths(i)[k] == paths[k] by {
            assert(members.contains(members[k]));
            closure_stays_in_the_batch(g, i, members[k] as int);
            assert(g.paths[members[k] as int] == nodule_path(nodules[members[k] as int]));
        }
    }
}

/// The exit code of a report on a phylum tells its refusal: 0 for none, 2 for a source that does
/// not parse, 3 for any other.
pub proof fn the_exit_code_tells_the_refusal(report: PhylumReportView)
    ensures
        report.exit_code() == 0 <==> report.error is None,
        report.exit_code() == 2 <==> report.error is Some && report.error->0.kind is Parse,
        report.exit_code() == 3 <==> report.error is Some && !(report.error->0.kind is Parse),
{
}

/// The parser's answers, one by one: a refusal ends the exchange, and names the source in hand by its
/// label, with the parser's message; a nodule is taken in, and the next source comes.
pub proof fn the_parser_is_answered(p: Progress, nodule: Nodule, message: Seq<char>)
    requires
        p.report is None,
        p.nodules.len() < p.sources.len(),
    ensures
        ({
            let refused = p.after_parse(Err(message));
            let next = p.after_parse(Ok(nodule));
            &&& refused.report is Some
            &&& refused.report->0.error is Some
            &&& refused.report->0.error->0.kind is Parse
            &&& refused.report->0.error->0.site == p.sources[p.nodules.len() as int].0
            &&& refused.report->0.error->0.message == message
            &&& refused.report->0.files_checked == p.sources.len()
            &&& refused.report->0.nodules.len() == 0
            &&& !refused.report->0.ok
            &&& refused.action() is Finished
            &&& next.nodules == p.nodules.push(nodule)
            &&& next.sources == p.sources
            &&& next.refused == p.refused
            &&& next.outcomes == p.outcomes
            &&& p.nodules.len() + 1 < p.sources.len() ==> next.report is None
        }),
{
}

/// The checker's answers, one by one: to accept the whole phylum ends the exchange; a refusal is
/// kept, and the outcomes on the import closures are taken in, until the last ends the exchange in
/// the report with the refusal that was kept and the verdicts by the outcomes.
pub proof fn the_checker_is_answered(
    p: Progress,
    answer: Result<(), CheckErrorView>,
    files: Seq<Seq<char>>,
)
    requires
        p.report is None,
        p.nodules.len() == p.sources.len(),
        files.len() == p.sources.len(),
        forall|i: int| 0 <= i < files.len() ==> #[trigger] files[i] == p.sources[i].0,
        p.refused is None ==> p.outcomes.len() == 0,
    ensures
        ({
            let next = p.after_check(answer);
            let kept = if p.refused is Some {
                p.refused
            } else if answer is Err {
                Some(answer->Err_0)
            } else {
                None
            };
            let outcomes = if p.refused is Some {
                p.outcomes.push(answer)
            } else {
                p.outcomes
            };
            &&& next.sources == p.sources
            &&& next.nodules == p.nodules
            &&& next.refused == kept
            &&& next.outcomes == outcomes
            &&& next.report is Some <==> kept is None || outcomes.len() == p.nodules.len()
            &&& kept is None ==> {
                &&& next.report->0.ok
                &&& next.report->0.error is None
                &&& next.report->0.files_checked == p.sources.len()
                &&& next.report->0.nodules.len() == p.nodules.len()
                &&& forall|i: int|
                    0 <= i < p.nodules.len() ==> {
                        &&& (#[trigger] next.report->0.nodules[i]).class is Clean
                        &&& next.report->0.nodules[i].file == p.sources[i].0
                        &&& next.report->0.nodules[i].nodule == nodule_path(p.nodules[i])
                    }
            }
            &&& kept is Some && next.report is Some ==> {
                &&& !next.report->0.ok
                &&& next.report->0.error is Some
                &&& next.report->0.error->0.kind is Check
                &&& next.report->0.error->0.site == kept->0.site
                &&& next.report->0.error->0.message == kept->0.message
                &&& next.report->0.files_checked == p.sources.len()
                &&& next.report->0.nodules == partial_verdicts(p.nodules, files, outcomes)
            }
        }),
{
    assert(crate::session::labels(p.sources) =~= files);
}

/// Once the last source has parsed, the exchange goes on exactly if no two nodules declare the same
/// path; else it ends, and names the first path that is declared a second time.
pub proof fn the_last_nodule_shows_a_repeated_path(p: Progress, nodule: Nodule, i: int, j: int)
    requires
        p.report is None,
        p.nodules.len() + 1 == p.sources.len(),
        0 <= i < j <= p.nodules.len(),
    ensures
        ({
            let all = p.nodules.push(nodule);
            let next = p.after_parse(Ok(nodule));
            let repeats = nodule_path(all[i]) == nodule_path(all[j]);
            let first = repeats && forall|a: int, b: int|
                0 <= a < b < j ==> nodule_path(#[trigger] all[a]) != nodule_path(#[trigger] all[b]);
            &&& repeats ==> next.report is Some
            &&& first ==> {
                let error = next.report->0.error;
                &&& error is Some
                &&& error->0.kind is Duplicate
                &&& error->0.site == nodule_path(all[j])
                &&& error->0.message == "nodule `"@ + nodule_path(all[j])
                    + "` is declared more than once — every nodule path in a phylum must be unique"@
                &&& !next.report->0.ok
                &&& next.report->0.files_checked == p.sources.len()
                &&& next.report->0.nodules.len() == 0
            }
            &&& (forall|a: int, b: int|
                0 <= a < b < all.len() ==> nodule_path(#[trigger] all[a]) != nodule_path(
                    #[trigger] all[b],
                )) ==> next.report is None
        }),
{
    let all = p.nodules.push(nodule);
    let paths = crate::closure::nodule_paths(all);
    assert(forall|k: int| 0 <= k < all.len() ==> #[trigger] paths[k] == nodule_path(all[k]));
    if nodule_path(all[i]) == nodule_path(all[j]) {
        assert(paths[i] == paths[j]);
        assert(!paths.no_duplicates());
        if forall|a: int, b: int|
            0 <= a < b < j ==> nodule_path(#[trigger] all[a]) != nodule_path(#[trigger] all[b]) {
            assert(paths.take(j).no_duplicates()) by {
                assert forall|a: int, b: int| 0 <= a < j && 0 <= b < j && a != b implies paths.take(
                    j,
                )[a] != paths.take(j)[b] by {
                    if a < b {
                        assert(nodule_path(all[a]) != nodule_path(all[b]));
                    } else {
                        assert(nodule_path(all[b]) != nodule_path(all[a]));
                    }
                }
            }
            assert(paths.take(j)[i] == paths[j]);
            assert(is_first_repeat(paths, j));
            let first = choose|k: int| is_first_repeat(paths, k);
            assert(is_first_repeat(paths, first));
            if first < j {
                let a = choose|a: int| 0 <= a < first && paths.take(first)[a] == paths[first];
                assert(paths.take(j)[a] == paths.take(j)[first]);
            } else if j < first {
                assert(paths.take(first)[i] == paths.take(first)[j]);
            }
        }
    }
    if forall|a: int, b: int|
        0 <= a < b < all.len() ==> nodule_path(#[trigger] all[a]) != nodule_path(#[trigger] all[b]) {
        assert forall|a: int, b: int|
            0 <= a < paths.len() && 0 <= b < paths.len() && a != b implies paths[a] != paths[b] by {
            if a < b {
                assert(nodule_path(all[a]) != nodule_path(all[b]));
            } else {
                assert(nodule_path(all[b]) != nodule_path(all[a]));
            }
        }
    }
}

} // verus!
