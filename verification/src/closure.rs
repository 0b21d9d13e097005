//! Import closures: which nodules of a batch a nodule depends on.

use vstd::prelude::*;

use crate::syntax::{Item, Nodule, UsePath};
use crate::text::{join, joined, optional_text, texts};

verus! {

/// The dotted path that a nodule declares.
pub open spec fn nodule_path(nodule: Nodule) -> Seq<char> {
    joined(texts(nodule.path@), "."@)
}

/// The dotted paths of a batch of nodules.
pub open spec fn nodule_paths(nodules: Seq<Nodule>) -> Seq<Seq<char>> {
    nodules.map_values(|n: Nodule| nodule_path(n))
}

/// The dotted path of the nodule that an import is resolved in: for a glob its whole path, for a
/// single item the path without the item's name. An import from another phylum, or of a single
/// segment that is no glob, names no nodule of this one.
pub open spec fn use_target(u: UsePath) -> Option<Seq<char>> {
    if u.cross_phylum {
        None
    } else if u.glob {
        Some(joined(texts(u.path@), "."@))
    } else if u.path@.len() > 1 {
        Some(joined(texts(u.path@.drop_last()), "."@))
    } else {
        None
    }
}

/// The target of an item, if it is an import that has one.
pub open spec fn item_target(item: Item) -> Option<Seq<char>> {
    match item {
        Item::Use(u) => use_target(u),
        _ => None,
    }
}

/// The targets of a nodule's imports, in source order.
pub open spec fn use_targets(nodule: Nodule) -> Seq<Seq<char>> {
    nodule.items@.filter_map(|item: Item| item_target(item))
}

/// Whether `k` is the last place in the batch with the path of place `i`.
pub open spec fn is_last_declaration(paths: Seq<Seq<char>>, i: int, k: int) -> bool {
    &&& 0 <= k < paths.len()
    &&& paths[k] == paths[i]
    &&& forall|m: int| k < m < paths.len() ==> #[trigger] paths[m] != paths[i]
}

/// The last place in the batch with the path of place `i`: where a path is declared more than once,
/// the imports of its last nodule count.
pub open spec fn last_declaration(paths: Seq<Seq<char>>, i: int) -> int {
    choose|k: int| is_last_declaration(paths, i, k)
}

/// The targets of the imports under nodule `i`'s path that are other nodules of the batch, in
/// source order. A target that is not in the batch, or is the path itself, is no dependency within
/// the batch.
pub open spec fn batch_targets(nodules: Seq<Nodule>, i: int) -> Seq<Seq<char>> {
    use_targets(nodules[last_declaration(nodule_paths(nodules), i)]).filter(
        |t: Seq<char>| nodule_paths(nodules).contains(t) && t != nodule_path(nodules[i]),
    )
}

/// The import relation of a batch: the path of each nodule, and the paths of the other nodules of
/// the batch that are imported from under that path.
pub struct UseGraph {
    pub paths: Seq<Seq<char>>,
    pub targets: Seq<Seq<Seq<char>>>,
}

/// The import relation of a batch of nodules.
pub open spec fn use_graph(nodules: Seq<Nodule>) -> UseGraph {
    UseGraph {
        paths: nodule_paths(nodules),
        targets: Seq::new(nodules.len(), |i: int| batch_targets(nodules, i)),
    }
}

impl UseGraph {
    /// Whether nodule `j` is imported from under the path of nodule `i`.
    pub open spec fn imports(self, i: int, j: int) -> bool {
        &&& 0 <= i < self.paths.len()
        &&& 0 <= j < self.paths.len()
        &&& self.targets[i].contains(self.paths[j])
    }

    /// Whether nodule `i` rests on nodule `j` directly: by an import, or because both declare the
    /// same path.
    pub open spec fn rests_on(self, i: int, j: int) -> bool {
        &&& 0 <= i < self.paths.len()
        &&& 0 <= j < self.paths.len()
        &&& self.paths[i] == self.paths[j] || self.imports(i, j)
    }

    /// Whether `walk` goes from nodule to nodule along imports, and between nodules of one path.
    pub open spec fn is_walk(self, walk: Seq<int>) -> bool {
        &&& walk.len() > 0
        &&& forall|k: int| 0 <= k < walk.len() ==> 0 <= #[trigger] walk[k] < self.paths.len()
        &&& forall|k: int, l: int|
            0 <= k && l == k + 1 && l < walk.len() ==> self.rests_on(
                #[trigger] walk[k],
                #[trigger] walk[l],
            )
    }

    /// Whether `walk` goes from nodule `i` to nodule `j`.
    pub open spec fn is_walk_between(self, walk: Seq<int>, i: int, j: int) -> bool {
        self.is_walk(walk) && walk[0] == i && walk.last() == j
    }

    /// Whether nodule `i` depends on nodule `j`: imports lead from the path of `i` to that of `j`
    /// in some number of steps, none included. These `j` are the import closure of `i`.
    pub open spec fn reaches(self, i: int, j: int) -> bool {
        exists|walk: Seq<int>| self.is_walk_between(walk, i, j)
    }

    /// The import closure of nodule `i`, in the order of the batch.
    pub open spec fn closure(self, i: int) -> Seq<usize> {
        Seq::new(self.paths.len(), |k: int| k as usize).filter(
            |k: usize| self.reaches(i, k as int),
        )
    }

    /// The paths of the nodules in the import closure of nodule `i`.
    pub open spec fn closure_paths(self, i: int) -> Seq<Seq<char>> {
        self.closure(i).map_values(|k: usize| self.paths[k as int])
    }
}

/// Each nodule is in its own import closure.
pub proof fn closure_holds_its_nodule(g: UseGraph, i: int)
    requires
        0 <= i < g.paths.len(),
    ensures
        g.reaches(i, i),
{
    assert(g.is_walk_between(seq![i], i, i));
}

/// Import closures stay within the batch: an import of a nodule that is not there leads nowhere.
pub proof fn closure_stays_in_the_batch(g: UseGraph, i: int, j: int)
    requires
        g.reaches(i, j),
    ensures
        0 <= i < g.paths.len(),
        0 <= j < g.paths.len(),
{
    let walk = choose|walk: Seq<int>| g.is_walk_between(walk, i, j);
    assert(walk[0] == i);
    assert(walk[walk.len() - 1] == j);
}

/// Import closures are closed under imports, and hold every nodule of a path or none.
pub proof fn closure_follows_imports(g: UseGraph, i: int, j: int, k: int)
    requires
        g.reaches(i, j),
        g.rests_on(j, k),
    ensures
        g.reaches(i, k),
{
    let walk = choose|walk: Seq<int>| g.is_walk_between(walk, i, j);
    let longer = walk.push(k);
    assert forall|a: int, b: int| 0 <= a && b == a + 1 && b < longer.len() implies g.rests_on(
        #[trigger] longer[a],
        #[trigger] longer[b],
    ) by {
        if b < walk.len() {
            assert(g.rests_on(walk[a], walk[b]));
        } else {
            assert(longer[a] == walk.last());
        }
    }
    assert(g.is_walk_between(longer, i, k));
}

/// Every set of nodules that holds `i`, is closed under imports and holds every nodule of a path or
/// none holds the import closure of `i`.
pub proof fn closure_is_the_least_closed_set(g: UseGraph, set: Set<int>, i: int, j: int)
    requires
        set.contains(i),
        forall|a: int, b: int| set.contains(a) && #[trigger] g.rests_on(a, b) ==> set.contains(b),
        g.reaches(i, j),
    ensures
        set.contains(j),
{
    let walk = choose|walk: Seq<int>| g.is_walk_between(walk, i, j);
    lemma_walk_stays_in_closed_set(g, set, walk, walk.len() - 1);
}

proof fn lemma_walk_stays_in_closed_set(g: UseGraph, set: Set<int>, walk: Seq<int>, n: int)
    requires
        g.is_walk(walk),
        set.contains(walk[0]),
        forall|a: int, b: int| set.contains(a) && #[trigger] g.rests_on(a, b) ==> set.contains(b),
        0 <= n < walk.len(),
    ensures
        set.contains(walk[n]),
    decreases n,
{
    if n > 0 {
        lemma_walk_stays_in_closed_set(g, set, walk, n - 1);
        assert(g.rests_on(walk[n - 1], walk[n]));
    }
}

/// What a dependency depends on is a dependency too: the import closure of a member of a closure
/// lies within that closure.
pub proof fn closure_is_transitive(g: UseGraph, i: int, j: int, k: int)
    requires
        g.reaches(i, j),
        g.reaches(j, k),
    ensures
        g.reaches(i, k),
{
    let set = Set::new(|b: int| g.reaches(i, b));
    assert forall|a: int, b: int|
        set.contains(a) && #[trigger] g.rests_on(a, b) implies set.contains(b) by {
        closure_follows_imports(g, i, a, b);
    }
    closure_is_the_least_closed_set(g, set, j, k);
}

/// A path under which no other path is imported from is its whole import closure.
pub proof fn closure_without_imports_is_the_path(g: UseGraph, i: int, j: int)
    requires
        0 <= i < g.paths.len(),
        forall|a: int, b: int|
            #[trigger] g.imports(a, b) && g.paths[a] == g.paths[i] ==> g.paths[b] == g.paths[i],
    ensures
        g.reaches(i, j) <==> 0 <= j < g.paths.len() && g.paths[j] == g.paths[i],
{
    if g.reaches(i, j) {
        let set = Set::new(|k: int| 0 <= k < g.paths.len() && g.paths[k] == g.paths[i]);
        assert forall|a: int, b: int|
            set.contains(a) && #[trigger] g.rests_on(a, b) implies set.contains(b) by {
            if g.paths[a] != g.paths[b] {
                assert(g.imports(a, b));
            }
        }
        closure_is_the_least_closed_set(g, set, i, j);
    } else if 0 <= j < g.paths.len() && g.paths[j] == g.paths[i] {
        closure_holds_its_nodule(g, i);
        closure_follows_imports(g, i, i, j);
    }
}

/// Imports that name other phyla lead nowhere: a path whose imports all do is its whole import
/// closure.
pub proof fn closure_ignores_other_phyla(nodules: Seq<Nodule>, i: int, j: int)
    requires
        0 <= i < nodules.len(),
        ({
            let items = nodules[last_declaration(nodule_paths(nodules), i)].items@;
            forall|k: int|
                0 <= k < items.len() && (#[trigger] items[k]) is Use
                    ==> items[k]->Use_0.cross_phylum
        }),
    ensures
        use_graph(nodules).reaches(i, j) <==> 0 <= j < nodules.len() && nodule_path(nodules[j])
            == nodule_path(nodules[i]),
{
    let g = use_graph(nodules);
    lemma_no_targets(nodules[last_declaration(g.paths, i)].items@);
    reveal(Seq::filter);
    assert forall|a: int, b: int|
        #[trigger] g.imports(a, b) && g.paths[a] == g.paths[i] implies g.paths[b] == g.paths[i] by {
        lemma_same_last_declaration(g.paths, a, i);
        assert(g.targets[a] == batch_targets(nodules, a));
        assert(g.targets[a].len() == 0);
    }
    closure_without_imports_is_the_path(g, i, j);
}

/// There is one last place with a path.
proof fn lemma_last_declaration(paths: Seq<Seq<char>>, i: int, k: int)
    requires
        is_last_declaration(paths, i, k),
    ensures
        last_declaration(paths, i) == k,
{
    let other = last_declaration(paths, i);
    assert(is_last_declaration(paths, i, other));
    if other < k {
        assert(paths[k] != paths[i]);
    } else if k < other {
        assert(paths[other] != paths[i]);
    }
}

/// The nodules of one path have their last place in common.
proof fn lemma_same_last_declaration(paths: Seq<Seq<char>>, a: int, b: int)
    requires
        0 <= a < paths.len(),
        paths[a] == paths[b],
    ensures
        last_declaration(paths, a) == last_declaration(paths, b),
{
    let k = lemma_last_declaration_exists(paths, a, a);
    lemma_last_declaration(paths, a, k);
    lemma_last_declaration(paths, b, k);
}

/// From a place `k` with the path of place `i` on, there is a last one.
proof fn lemma_last_declaration_exists(paths: Seq<Seq<char>>, i: int, k: int) -> (last: int)
    requires
        0 <= k < paths.len(),
        paths[k] == paths[i],
    ensures
        is_last_declaration(paths, i, last),
    decreases paths.len() - k,
{
    if exists|m: int| k < m < paths.len() && #[trigger] paths[m] == paths[i] {
        let m = choose|m: int| k < m < paths.len() && #[trigger] paths[m] == paths[i];
        lemma_last_declaration_exists(paths, i, m)
    } else {
        k
    }
}

/// Where no path is declared twice, the imports under a nodule's path are the nodule's own, and the
/// nodule rests on itself and on what it imports from.
pub proof fn imports_are_the_nodules_own(nodules: Seq<Nodule>, i: int, j: int)
    requires
        nodule_paths(nodules).no_duplicates(),
        0 <= i < nodules.len(),
        0 <= j < nodules.len(),
    ensures
        last_declaration(nodule_paths(nodules), i) == i,
        use_graph(nodules).imports(i, j) <==> i != j && use_targets(nodules[i]).contains(
            nodule_path(nodules[j]),
        ),
        use_graph(nodules).rests_on(i, j) <==> i == j || use_graph(nodules).imports(i, j),
{
    let paths = nodule_paths(nodules);
    let target = nodule_path(nodules[j]);
    let all = use_targets(nodules[i]);
    let own = |t: Seq<char>| paths.contains(t) && t != nodule_path(nodules[i]);
    assert(paths[i] == nodule_path(nodules[i]));
    assert(paths[j] == target);
    assert(is_last_declaration(paths, i, i));
    lemma_last_declaration(paths, i, i);
    assert(use_graph(nodules).targets[i] == all.filter(own));
    if all.filter(own).contains(target) {
        all.lemma_filter_contains_rev(own, target);
        let at = choose|at: int| 0 <= at < all.filter(own).len() && all.filter(own)[at] == target;
        all.lemma_filter_pred(own, at);
    }
    if i != j && all.contains(target) {
        let at = choose|at: int| 0 <= at < all.len() && all[at] == target;
        all.lemma_filter_contains(own, at);
    }
}

proof fn lemma_no_targets(items: Seq<Item>)
    requires
        forall|k: int| 0 <= k < items.len() ==> item_target(#[trigger] items[k]) is None,
    ensures
        items.filter_map(|item: Item| item_target(item)).len() == 0,
    decreases items.len(),
{
    if items.len() > 0 {
        lemma_no_targets(items.drop_last());
        assert(item_target(items[items.len() - 1]) is None);
    }
}

/// The import closure lists exactly the nodules that imports lead to, each once and in the order
/// of the batch.
pub proof fn closure_lists_the_reachable(g: UseGraph, i: int)
    requires
        g.paths.len() <= usize::MAX,
    ensures
        forall|k: usize| #[trigger] g.closure(i).contains(k) <==> g.reaches(i, k as int),
        forall|a: int, b: int|
            0 <= a < b < g.closure(i).len() ==> (#[trigger] g.closure(i)[a]) < (
            #[trigger] g.closure(i)[b]),
{
    let pred = |k: usize| g.reaches(i, k as int);
    let n = g.paths.len();
    let all = Seq::new(n, |k: int| k as usize);
    assert(all.take(n as int) =~= all);
    lemma_filtered_prefix(g, i, n as int);
    assert forall|k: usize| g.reaches(i, k as int) implies #[trigger] g.closure(i).contains(k) by {
        closure_stays_in_the_batch(g, i, k as int);
        assert(all[k as int] == k);
    }
}

/// The part of the import closure among the first `m` nodules.
proof fn lemma_filtered_prefix(g: UseGraph, i: int, m: int)
    requires
        g.paths.len() <= usize::MAX,
        0 <= m <= g.paths.len(),
    ensures
        ({
            let pred = |k: usize| g.reaches(i, k as int);
            let part = Seq::new(g.paths.len(), |k: int| k as usize).take(m).filter(pred);
            &&& forall|k: usize| #[trigger]
                part.contains(k) <==> k < m && g.reaches(i, k as int)
            &&& forall|a: int, b: int|
                0 <= a < b < part.len() ==> (#[trigger] part[a]) < (#[trigger] part[b])
        }),
    decreases m,
{
    reveal(Seq::filter);
    let pred = |k: usize| g.reaches(i, k as int);
    let all = Seq::new(g.paths.len(), |k: int| k as usize);
    let part = all.take(m).filter(pred);
    if m > 0 {
        lemma_filtered_prefix(g, i, m - 1);
        let before = all.take(m - 1).filter(pred);
        assert(all.take(m).drop_last() =~= all.take(m - 1));
        let last = (m - 1) as usize;
        assert(all.take(m).last() == last);
        assert forall|k: usize| #[trigger]
            part.contains(k) <==> k < m && g.reaches(i, k as int) by {
            if pred(last) {
                assert(part == before.push(last));
                if part.contains(k) {
                    let at = choose|at: int| 0 <= at < part.len() && part[at] == k;
                    if at < before.len() {
                        assert(before[at] == k);
                        assert(before.contains(k));
                    }
                }
                if k < m && g.reaches(i, k as int) {
                    if k == last {
                        assert(part[before.len() as int] == k);
                    } else {
                        assert(before.contains(k));
                        let at = choose|at: int| 0 <= at < before.len() && before[at] == k;
                        assert(part[at] == k);
                    }
                }
            } else {
                assert(part == before);
                if k < m && g.reaches(i, k as int) {
                    assert(k != last);
                }
            }
        }
        assert forall|a: int, b: int| 0 <= a < b < part.len() implies (#[trigger] part[a]) < (
        #[trigger] part[b]) by {
            if b == before.len() {
                assert(before.contains(part[a])) by {
                    assert(before[a] == part[a]);
                }
            }
        }
    }
}

impl Nodule {
    /// The dotted path that the nodule declares.
    pub fn dotted_path(&self) -> (path: String)
        ensures
            path@ == nodule_path(*self),
    {
        join(&self.path, ".")
    }
}

/// The dotted path of the nodule that an import is resolved in, if it is one of this phylum.
fn target_of(u: &UsePath) -> (target: Option<String>)
    ensures
        optional_text(target) == use_target(*u),
{
    if u.cross_phylum {
        None
    } else if u.glob {
        Some(join(&u.path, "."))
    } else if u.path.len() > 1 {
        let mut prefix: Vec<String> = Vec::new();
        let n = u.path.len() - 1;
        let mut i: usize = 0;
        while i < n
            invariant
                i <= n < u.path.len(),
                prefix@ == u.path@.take(i as int),
            decreases n - i,
        {
            prefix.push(u.path[i].clone());
            assert(u.path@.take(i + 1) =~= u.path@.take(i as int).push(u.path@[i as int]));
            i += 1;
        }
        assert(u.path@.take(n as int) =~= u.path@.drop_last());
        Some(join(&prefix, "."))
    } else {
        None
    }
}

/// The dotted paths that a nodule imports from, in source order.
fn targets_of(nodule: &Nodule) -> (targets: Vec<String>)
    ensures
        texts(targets@) == use_targets(*nodule),
{
    let mut targets: Vec<String> = Vec::new();
    let ghost items = nodule.items@;
    let ghost pick = |item: Item| item_target(item);
    let mut i: usize = 0;
    assert(texts(targets@) =~= items.take(0).filter_map(pick));
    while i < nodule.items.len()
        invariant
            i <= nodule.items.len(),
            items == nodule.items@,
            pick == (|item: Item| item_target(item)),
            texts(targets@) == items.take(i as int).filter_map(pick),
        decreases nodule.items.len() - i,
    {
        let ghost before = targets@;
        assert(items.take(i + 1).drop_last() =~= items.take(i as int));
        if let Item::Use(u) = &nodule.items[i] {
            if let Some(target) = target_of(u) {
                targets.push(target);
                assert(texts(targets@) =~= texts(before) + seq![target@]);
            }
        }
        i += 1;
    }
    assert(items.take(nodule.items.len() as int) =~= items);
    targets
}

/// The import relation that `edges` and `paths` hold: under each path, the edges at the last place
/// with it.
pub open spec fn graph_of(edges: Seq<Vec<String>>, paths: Seq<String>) -> UseGraph {
    UseGraph {
        paths: texts(paths),
        targets: Seq::new(
            edges.len(),
            |i: int| texts(edges[last_declaration(texts(paths), i)]@),
        ),
    }
}

/// The edges of a batch, with its paths, hold its import relation.
pub proof fn edges_hold_the_import_relation(
    nodules: Seq<Nodule>,
    edges: Seq<Vec<String>>,
    paths: Seq<String>,
)
    requires
        texts(paths) == nodule_paths(nodules),
        edges.len() == nodules.len(),
        forall|i: int|
            0 <= i < edges.len() ==> texts((#[trigger] edges[i])@) == batch_targets(nodules, i),
    ensures
        graph_of(edges, paths) == use_graph(nodules),
{
    let all = nodule_paths(nodules);
    assert forall|i: int| 0 <= i < edges.len() implies #[trigger] graph_of(edges, paths).targets[i]
        == use_graph(nodules).targets[i] by {
        let last = lemma_last_declaration_exists(all, i, i);
        lemma_last_declaration(all, i, last);
        lemma_same_last_declaration(all, i, last);
        assert(all[i] == nodule_path(nodules[i]) && all[last] == nodule_path(nodules[last]));
        assert(texts(edges[last]@) == batch_targets(nodules, last));
    }
    assert(graph_of(edges, paths).targets =~= use_graph(nodules).targets);
}

/// The dotted paths of a batch of nodules.
pub fn paths_of(nodules: &Vec<Nodule>) -> (paths: Vec<String>)
    ensures
        texts(paths@) == nodule_paths(nodules@),
{
    let mut paths: Vec<String> = Vec::new();
    let mut i: usize = 0;
    while i < nodules.len()
        invariant
            i <= nodules.len(),
            texts(paths@) == nodule_paths(nodules@.take(i as int)),
        decreases nodules.len() - i,
    {
        let ghost before = paths@;
        paths.push(nodules[i].dotted_path());
        assert(texts(paths@) =~= texts(before).push(nodule_path(nodules@[i as int])));
        assert(nodule_paths(nodules@.take(i + 1)) =~= nodule_paths(nodules@.take(i as int)).push(
            nodule_path(nodules@[i as int]),
        ));
        i += 1;
    }
    assert(nodules@.take(nodules.len() as int) =~= nodules@);
    paths
}

/// Those of `targets` that are among `paths` and are not `own`, in their order.
fn keep_in_batch(targets: Vec<String>, paths: &Vec<String>, own: &String) -> (kept: Vec<String>)
    ensures
        texts(kept@) == texts(targets@).filter(
            |t: Seq<char>| texts(paths@).contains(t) && t != own@,
        ),
{
    let ghost all = texts(targets@);
    let ghost pred = |t: Seq<char>| texts(paths@).contains(t) && t != own@;
    let mut kept: Vec<String> = Vec::new();
    let mut i: usize = 0;
    reveal(Seq::filter);
    assert(texts(kept@) =~= all.take(0).filter(pred));
    while i < targets.len()
        invariant
            i <= targets.len(),
            all == texts(targets@),
            pred == (|t: Seq<char>| texts(paths@).contains(t) && t != own@),
            texts(kept@) == all.take(i as int).filter(pred),
        decreases targets.len() - i,
    {
        reveal(Seq::filter);
        let ghost before = kept@;
        assert(all.take(i + 1).drop_last() =~= all.take(i as int));
        assert(all.take(i + 1).last() == targets@[i as int]@);
        if holds_text(paths, &targets[i]) && targets[i] != *own {
            kept.push(targets[i].clone());
            assert(texts(kept@) =~= texts(before).push(targets@[i as int]@));
        }
        i += 1;
    }
    assert(all.take(targets.len() as int) =~= all);
    kept
}

/// The last place with the path of place `i`.
fn last_place(paths: &Vec<String>, i: usize) -> (last: usize)
    requires
        i < paths@.len(),
    ensures
        last < paths@.len(),
        last == last_declaration(texts(paths@), i as int),
{
    let ghost all = texts(paths@);
    assert(all.len() == paths@.len());
    let mut last: usize = paths.len() - 1;
    while paths[last] != paths[i]
        invariant
            all == texts(paths@),
            all.len() == paths@.len(),
            i <= last < paths@.len(),
            forall|m: int| last < m < paths@.len() ==> #[trigger] all[m] != all[i as int],
        decreases last,
    {
        assert(all[last as int] != all[i as int]);
        last -= 1;
    }
    proof {
        assert(is_last_declaration(all, i as int, last as int));
        lemma_last_declaration(all, i as int, last as int);
    }
    last
}

/// The import relation: for each nodule of the batch, the dotted paths of the other nodules of the
/// batch that the imports under its path are resolved in. A target that is not in the batch
/// contributes no edge; of a path that is declared more than once, the last nodule's imports count.
pub fn build_use_edges(nodules: &Vec<Nodule>) -> (edges: Vec<Vec<String>>)
    ensures
        edges@.len() == nodules@.len(),
        forall|i: int|
            0 <= i < edges@.len() ==> texts((#[trigger] edges@[i])@) == batch_targets(nodules@, i),
{
    let paths = paths_of(nodules);
    assert(texts(paths@).len() == paths@.len());
    let mut edges: Vec<Vec<String>> = Vec::new();
    let mut i: usize = 0;
    while i < nodules.len()
        invariant
            i <= nodules.len(),
            texts(paths@) == nodule_paths(nodules@),
            paths@.len() == nodules@.len(),
            edges@.len() == i,
            forall|k: int|
                0 <= k < i ==> texts((#[trigger] edges@[k])@) == batch_targets(nodules@, k),
        decreases nodules.len() - i,
    {
        let last = last_place(&paths, i);
        let kept = keep_in_batch(targets_of(&nodules[last]), &paths, &paths[i]);
        assert(texts(kept@) == batch_targets(nodules@, i as int)) by {
            assert(texts(paths@)[i as int] == nodule_path(nodules@[i as int]));
            assert((|t: Seq<char>| texts(paths@).contains(t) && t != paths@[i as int]@) =~= (
                |t: Seq<char>| nodule_paths(nodules@).contains(t) && t != nodule_path(
                    nodules@[i as int],
                )));
        }
        edges.push(kept);
        i += 1;
    }
    edges
}

/// How many nodules are not marked.
spec fn unmarked(marked: Seq<bool>) -> nat
    decreases marked.len(),
{
    if marked.len() == 0 {
        0
    } else {
        unmarked(marked.drop_last()) + if marked.last() {
            0nat
        } else {
            1nat
        }
    }
}

proof fn lemma_mark_one(marked: Seq<bool>, j: int)
    requires
        0 <= j < marked.len(),
        !marked[j],
    ensures
        unmarked(marked.update(j, true)) + 1 == unmarked(marked),
    decreases marked.len(),
{
    let new = marked.update(j, true);
    if j == marked.len() - 1 {
        assert(new.drop_last() =~= marked.drop_last());
    } else {
        assert(new.drop_last() =~= marked.drop_last().update(j, true));
        lemma_mark_one(marked.drop_last(), j);
    }
}

/// What a search from `start` has established: the marked nodules are reachable and stand in
/// `queue`, and those before `head` have all that they rest on marked.
spec fn search_inv(
    g: UseGraph,
    start: int,
    marked: Seq<bool>,
    queue: Seq<usize>,
    head: int,
) -> bool {
    &&& marked.len() == g.paths.len()
    &&& 0 <= head <= queue.len()
    &&& 0 <= start < marked.len()
    &&& marked[start]
    &&& forall|k: int| 0 <= k < queue.len() ==> (#[trigger] queue[k]) < marked.len()
    &&& forall|k: int| 0 <= k < queue.len() ==> marked[(#[trigger] queue[k]) as int]
    &&& forall|j: int| 0 <= j < marked.len() && #[trigger] marked[j] ==> g.reaches(start, j)
    &&& forall|j: int|
        0 <= j < marked.len() && #[trigger] marked[j] ==> queue.contains(j as usize)
    &&& forall|k: int, j: int|
        0 <= k < head && #[trigger] g.rests_on(queue[k] as int, j) ==> marked[j]
}

/// Which nodules of the batch are in the import closure of nodule `start`: a breadth-first search
/// along the imports that name a nodule of the batch. Nodules of one path go together.
pub fn closure_of(start: usize, edges: &Vec<Vec<String>>, paths: &Vec<String>) -> (inside: Vec<
    bool,
>)
    requires
        edges@.len() == paths@.len(),
        start < paths@.len(),
    ensures
        inside@.len() == paths@.len(),
        forall|j: int|
            0 <= j < inside@.len() ==> #[trigger] inside@[j] == graph_of(edges@, paths@).reaches(
                start as int,
                j,
            ),
{
    let ghost g = graph_of(edges@, paths@);
    let n = paths.len();
    assert(texts(paths@).len() == n);
    let mut marked: Vec<bool> = Vec::new();
    while marked.len() < n
        invariant
            marked@.len() <= n,
            forall|j: int| 0 <= j < marked@.len() ==> !#[trigger] marked@[j],
        decreases n - marked.len(),
    {
        marked.push(false);
    }
    marked.set(start, true);
    let mut queue: Vec<usize> = vec![start];
    let mut head: usize = 0;
    proof {
        closure_holds_its_nodule(g, start as int);
        assert(queue@[0] == start);
    }
    while head < queue.len()
        invariant
            n == paths@.len(),
            n == g.paths.len(),
            edges@.len() == n,
            g == graph_of(edges@, paths@),
            search_inv(g, start as int, marked@, queue@, head as int),
        decreases unmarked(marked@) + queue.len() - head,
    {
        let cur = queue[head];
        let last = last_place(paths, cur);
        let ghost marked0 = marked@;
        let ghost queue0 = queue@;
        let ghost budget = unmarked(marked@) + queue.len();
        let mut j: usize = 0;
        while j < n
            invariant
                j <= n,
                n == paths@.len(),
                n == g.paths.len(),
                edges@.len() == n,
            g == graph_of(edges@, paths@),
                head < queue@.len(),
                cur == queue@[head as int],
                cur < n,
                last < n,
                last == last_declaration(texts(paths@), cur as int),
                search_inv(g, start as int, marked@, queue@, head as int),
                unmarked(marked@) + queue@.len() == budget,
                forall|k: int| 0 <= k < j && #[trigger] g.rests_on(cur as int, k) ==> marked@[k],
            decreases n - j,
        {
            if !marked[j] {
                let hit = paths[cur] == paths[j] || holds_text(&edges[last], &paths[j]);
                assert(paths@[cur as int]@ == texts(paths@)[cur as int]);
                assert(paths@[j as int]@ == texts(paths@)[j as int]);
                assert(texts(edges@[last as int]@) == g.targets[cur as int]);
                assert(hit == g.rests_on(cur as int, j as int));
                if hit {
                    let ghost marked1 = marked@;
                    let ghost queue1 = queue@;
                    proof {
                        closure_follows_imports(g, start as int, cur as int, j as int);
                        lemma_mark_one(marked@, j as int);
                    }
                    marked.set(j, true);
                    queue.push(j);
                    proof {
                        assert forall|i: int|
                            0 <= i < marked@.len() && #[trigger] marked@[i] implies queue@.contains(
                            i as usize,
                        ) by {
                            if i == j {
                                assert(queue@[queue1.len() as int] == j);
                            } else {
                                assert(marked1[i]);
                                let at = choose|at: int|
                                    0 <= at < queue1.len() && queue1[at] == i as usize;
                                assert(queue@[at] == i as usize);
                            }
                        }
                        assert forall|k: int, i: int|
                            0 <= k < head && #[trigger] g.rests_on(
                                queue@[k] as int,
                                i,
                            ) implies marked@[i] by {
                            assert(g.rests_on(queue1[k] as int, i));
                        }
                    }
                }
            }
            j += 1;
        }
        proof {
            assert forall|k: int, i: int|
                0 <= k < head + 1 && #[trigger] g.rests_on(
                    queue@[k] as int,
                    i,
                ) implies marked@[i] by {
                if k == head {
                    assert(g.rests_on(cur as int, i));
                }
            }
        }
        head += 1;
    }
    proof {
        let set = Set::new(|i: int| 0 <= i < n && marked@[i]);
        assert forall|a: int, b: int|
            set.contains(a) && #[trigger] g.rests_on(a, b) implies set.contains(b) by {
            let at = choose|at: int| 0 <= at < queue@.len() && queue@[at] == a as usize;
            assert(g.rests_on(queue@[at] as int, b));
        }
        assert forall|j: int| 0 <= j < n implies #[trigger] marked@[j] == g.reaches(
            start as int,
            j,
        ) by {
            if g.reaches(start as int, j) {
                closure_is_the_least_closed_set(g, set, start as int, j);
            }
        }
    }
    marked
}

/// Whether `wanted` is one of `all`.
fn holds_text(all: &Vec<String>, wanted: &String) -> (found: bool)
    ensures
        found == texts(all@).contains(wanted@),
{
    let mut i: usize = 0;
    while i < all.len()
        invariant
            i <= all.len(),
            forall|k: int| 0 <= k < i ==> all@[k]@ != wanted@,
        decreases all.len() - i,
    {
        if all[i] == *wanted {
            assert(texts(all@)[i as int] == wanted@);
            return true;
        }
        i += 1;
    }
    false
}

/// The import closure of nodule `start`, in the order of the batch.
pub fn sub_phylum(start: usize, edges: &Vec<Vec<String>>, paths: &Vec<String>) -> (members: Vec<
    usize,
>)
    requires
        edges@.len() == paths@.len(),
        start < paths@.len(),
    ensures
        members@ == graph_of(edges@, paths@).closure(start as int),
{
    let ghost g = graph_of(edges@, paths@);
    let inside = closure_of(start, edges, paths);
    let ghost all = Seq::new(g.paths.len(), |k: int| k as usize);
    let ghost pred = |k: usize| g.reaches(start as int, k as int);
    let mut members: Vec<usize> = Vec::new();
    let mut i: usize = 0;
    reveal(Seq::filter);
    assert(members@ =~= all.take(0).filter(pred));
    while i < inside.len()
        invariant
            i <= inside.len(),
            inside@.len() == g.paths.len(),
            all == Seq::new(g.paths.len(), |k: int| k as usize),
            pred == (|k: usize| g.reaches(start as int, k as int)),
            forall|j: int| 0 <= j < inside@.len() ==> #[trigger] inside@[j] == g.reaches(
                start as int,
                j,
            ),
            members@ == all.take(i as int).filter(pred),
        decreases inside.len() - i,
    {
        reveal(Seq::filter);
        assert(all.take(i + 1).drop_last() =~= all.take(i as int));
        assert(all.take(i + 1).last() == i);
        if inside[i] {
            members.push(i);
        }
        i += 1;
    }
    assert(all.take(inside.len() as int) =~= all);
    members
}

} // verus!
